//! The persistence service: takes one update at a time, merges streamed
//! fragments in a per-session buffer, and hands sealed groups to the message
//! store.
//!
//! The service owns all of its state and is driven by calls: saving an
//! update, flushing, and the firing of an inactivity timer. It reads no
//! clock and starts no timer: every operation that records or compares a
//! time takes the current time, in milliseconds since the Unix epoch, from
//! its caller, who also lets the timers run.

use vstd::prelude::*;
use crate::flush_scheduler::{FlushScheduler, TimerTicket};
use crate::merge_policy::{decide, Decision};
use crate::message_store::{entries_from, MessageStore, StoreError, DEFAULT_RECORD_LIMIT};
use crate::record_codec::encode_log;
use crate::service_model::{PersistError, ServiceView, TimerOutcome};
use crate::session_buffer::{BufferView, SessionBufferState};
use crate::string_map::StringMap;
use crate::update::{entry_views, ChunkKind, EntryView, MessageLogEntry, Update};

verus! {

/// The inactivity timeout of a service made without one, in milliseconds.
pub const DEFAULT_BUFFER_TIMEOUT_MS: u64 = 2000;

/// The streaming persistence service.
pub struct PersistenceService {
    scheduler: FlushScheduler,
    buffers: StringMap<SessionBufferState>,
    store: MessageStore,
}

impl View for PersistenceService {
    type V = ServiceView;

    closed spec fn view(&self) -> ServiceView {
        ServiceView {
            buffers: self.buffers@.map_values(|buffer: SessionBufferState| buffer@),
            logs: self.store@,
            timeout_ms: self.scheduler.timeout(),
            generation: self.scheduler.last_issued(),
            record_limit: self.store.record_limit(),
        }
    }
}

impl PersistenceService {
    /// The service's invariant: at most one buffer per session, each filed
    /// under its session's id and holding a pending group.
    pub closed spec fn wf(&self) -> bool {
        &&& self.buffers.wf()
        &&& self.store.wf()
        &&& self@.wf()
    }

    /// The model of a well-formed service is well-formed.
    pub proof fn lemma_view_wf(&self)
        requires
            self.wf(),
        ensures
            self@.wf(),
    {
    }

    /// A service with no buffer and empty logs that seals a buffer after
    /// `timeout_ms` milliseconds without a new fragment.
    pub fn with_buffer_timeout(timeout_ms: u64) -> (service: PersistenceService)
        ensures
            service.wf(),
            service@.buffers == Map::<Seq<char>, BufferView>::empty(),
            forall|session_id: Seq<char>| #[trigger]
                service@.logs[session_id] == Seq::<EntryView>::empty(),
            service@.timeout_ms == timeout_ms,
            service@.generation == 0,
            service@.record_limit == DEFAULT_RECORD_LIMIT,
    {
        PersistenceService::with_limits(timeout_ms, DEFAULT_RECORD_LIMIT)
    }

    /// A service with the default inactivity timeout.
    pub fn new() -> (service: PersistenceService)
        ensures
            service.wf(),
            service@.buffers == Map::<Seq<char>, BufferView>::empty(),
            forall|session_id: Seq<char>| #[trigger]
                service@.logs[session_id] == Seq::<EntryView>::empty(),
            service@.timeout_ms == DEFAULT_BUFFER_TIMEOUT_MS,
            service@.generation == 0,
            service@.record_limit == DEFAULT_RECORD_LIMIT,
    {
        PersistenceService::with_limits(DEFAULT_BUFFER_TIMEOUT_MS, DEFAULT_RECORD_LIMIT)
    }

    /// A service with the given inactivity timeout whose store accepts
    /// records of up to `max_record_bytes` bytes.
    pub fn with_limits(timeout_ms: u64, max_record_bytes: u32) -> (service: PersistenceService)
        ensures
            service.wf(),
            service@.buffers == Map::<Seq<char>, BufferView>::empty(),
            forall|session_id: Seq<char>| #[trigger]
                service@.logs[session_id] == Seq::<EntryView>::empty(),
            service@.timeout_ms == timeout_ms,
            service@.generation == 0,
            service@.record_limit == max_record_bytes,
    {
        let service = PersistenceService {
            scheduler: FlushScheduler::new(timeout_ms),
            buffers: StringMap::new(),
            store: MessageStore::with_record_limit(max_record_bytes),
        };
        proof {
            service.store.lemma_view();
            assert(service@.buffers =~= Map::<Seq<char>, BufferView>::empty());
        }
        service
    }

    /// The inactivity timeout, in milliseconds.
    pub fn buffer_timeout_ms(&self) -> (timeout: u64)
        ensures
            timeout == self@.timeout_ms,
    {
        self.scheduler.timeout_ms()
    }

    /// Whether the session has an open buffer.
    pub fn has_buffer(&self, session_id: &str) -> (open: bool)
        requires
            self.wf(),
        ensures
            open == self@.buffers.contains_key(session_id@),
    {
        self.buffers.contains(session_id)
    }

    /// The ticket of the timer armed for the session's buffer, `None` when
    /// the session has no buffer.
    pub fn pending_timer(&self, session_id: &str) -> (ticket: Option<TimerTicket>)
        requires
            self.wf(),
        ensures
            ticket == if self@.buffers.contains_key(session_id@) {
                Some(self@.buffers[session_id@].timer)
            } else {
                None
            },
    {
        match self.buffers.get(session_id) {
            Some(buffer) => Some(buffer.timer()),
            None => None,
        }
    }

    /// Seals the session's buffer, if it has one: the buffer leaves the map
    /// and its content is handed to the store as one entry.
    fn seal_session(&mut self, session_id: &str, now: u64) -> (result: Result<(), StoreError>)
        requires
            old(self).wf(),
        ensures
            final(self).wf(),
            final(self)@ == old(self)@.sealed(session_id@, now),
            result is Err <==> old(self)@.seal_fails(session_id@, now),
            result is Err ==> result == Err::<(), StoreError>(StoreError::RecordTooLarge),
    {
        proof {
            self.store.lemma_view();
        }
        let taken = self.buffers.remove(session_id);
        assert(self@.buffers =~= old(self)@.buffers.remove(session_id@));
        match taken {
            Some(buffer) => {
                match buffer.seal(now) {
                    Some(entry) => {
                        let result = self.store.append(session_id, entry);
                        proof {
                            self.store.lemma_view();
                        }
                        result
                    },
                    None => Ok(()),
                }
            },
            None => Ok(()),
        }
    }

    /// Puts a fragment at the end of the session's buffer, creating the
    /// buffer if there is none, and arms the buffer's timer anew.
    fn buffer_fragment(&mut self, session_id: &str, kind: ChunkKind, text: &str, now: u64)
        requires
            old(self).wf(),
            session_id@.len() > 0,
            old(self)@.pending(session_id@) is None || old(self)@.pending(session_id@) == Some(kind),
        ensures
            final(self).wf(),
            final(self)@ == old(self)@.buffered(session_id@, kind, text@, now),
    {
        let mut buffer = match self.buffers.remove(session_id) {
            Some(buffer) => buffer,
            None => SessionBufferState::new(session_id),
        };
        let _ = buffer.append(kind, text);
        let ticket = self.scheduler.arm(now);
        buffer.set_timer(ticket);
        self.buffers.insert(session_id, buffer);
        proof {
            self.store.lemma_view();
            assert(self@.buffers =~= old(self)@.buffered(session_id@, kind, text@, now).buffers);
        }
    }

    /// Saves one update of a session at the time `now`.
    ///
    /// A fragment joins the session's buffer if the buffer is empty or of the
    /// fragment's kind, and the buffer's timer is armed anew. A fragment of
    /// another kind seals the buffer and starts a new one. Any other update
    /// seals the buffer and is written to the log at once as an entry of its
    /// own. An empty session id is refused. When the store refuses an entry,
    /// the error is returned, the sealed buffer is gone and what was to
    /// follow the refused entry is not done.
    pub fn save_update(&mut self, session_id: &str, update: Update, now: u64) -> (result: Result<
        (),
        PersistError,
    >)
        requires
            old(self).wf(),
        ensures
            final(self).wf(),
            final(self)@ == old(self)@.after_save(session_id@, update@, now),
            result == old(self)@.save_result(session_id@, update@, now),
    {
        if session_id.is_empty() {
            return Err(PersistError::InvalidSessionId);
        }
        let decision = decide(self.buffers.get(session_id), &update);
        match decision {
            Decision::AppendToBuffer => {
                if let Update::Chunk { kind, text } = &update {
                    self.buffer_fragment(session_id, *kind, text.as_str(), now);
                }
                Ok(())
            },
            Decision::SealThenBuffer => {
                if let Err(error) = self.seal_session(session_id, now) {
                    return Err(PersistError::Store(error));
                }
                if let Update::Chunk { kind, text } = &update {
                    self.buffer_fragment(session_id, *kind, text.as_str(), now);
                }
                Ok(())
            },
            Decision::SealThenWriteDirect => {
                if let Err(error) = self.seal_session(session_id, now) {
                    return Err(PersistError::Store(error));
                }
                let entry = MessageLogEntry { update, recorded_at: now };
                match self.store.append(session_id, entry) {
                    Ok(()) => {
                        proof {
                            self.store.lemma_view();
                        }
                        Ok(())
                    },
                    Err(error) => Err(PersistError::Store(error)),
                }
            },
        }
    }

    /// The sealed entries of a session, in the order they were written. What
    /// is still buffered is not part of the result. An empty session id is
    /// refused.
    pub fn load_messages(&self, session_id: &str) -> (result: Result<Vec<MessageLogEntry>, PersistError>)
        requires
            self.wf(),
        ensures
            match result {
                Ok(entries) => self@.load_result(session_id@) == Ok::<Seq<EntryView>, PersistError>(
                    entry_views(entries@),
                ),
                Err(error) => self@.load_result(session_id@) == Err::<Seq<EntryView>, PersistError>(
                    error,
                ),
            },
    {
        if session_id.is_empty() {
            return Err(PersistError::InvalidSessionId);
        }
        match self.store.load_messages(session_id) {
            Ok(entries) => Ok(entries),
            Err(error) => Err(PersistError::Store(error)),
        }
    }

    /// Seals the session's buffer at the time `now`, whatever its timer
    /// says. Nothing happens if the session has no buffer. An empty session
    /// id is refused.
    pub fn flush_session(&mut self, session_id: &str, now: u64) -> (result: Result<(), PersistError>)
        requires
            old(self).wf(),
        ensures
            final(self).wf(),
            final(self)@ == old(self)@.after_flush_session(session_id@, now),
            result == old(self)@.flush_result(session_id@, now),
    {
        if session_id.is_empty() {
            return Err(PersistError::InvalidSessionId);
        }
        match self.seal_session(session_id, now) {
            Ok(()) => Ok(()),
            Err(error) => Err(PersistError::Store(error)),
        }
    }

    /// Handles an inactivity timer that fires at the time `now` for a
    /// session, armed with `generation`. A timer is ignored unless the
    /// session still has a buffer and the buffer holds this very timer;
    /// otherwise the buffer is sealed, and it is gone even if the store
    /// refuses its entry.
    pub fn on_timer(&mut self, session_id: &str, generation: u64, now: u64) -> (outcome: TimerOutcome)
        requires
            old(self).wf(),
        ensures
            final(self).wf(),
            final(self)@ == old(self)@.after_timer(session_id@, generation, now),
            outcome == old(self)@.timer_outcome(session_id@, generation, now),
    {
        let current = match self.buffers.get(session_id) {
            Some(buffer) => buffer.timer().matches(generation),
            None => false,
        };
        if !current {
            return TimerOutcome::Ignored;
        }
        match self.seal_session(session_id, now) {
            Ok(()) => TimerOutcome::Sealed,
            Err(error) => TimerOutcome::SealFailed(error),
        }
    }

    /// Seals the buffer of every selected session at the time `now`: of
    /// every session with a buffer, or only of those whose timer is due.
    /// A refused entry does not keep the other sessions from being sealed.
    fn flush_where(&mut self, now: u64, only_due: bool) -> (result: Result<(), PersistError>)
        requires
            old(self).wf(),
        ensures
            final(self).wf(),
            final(self)@ == old(self)@.after_flush(now, only_due),
            result == old(self)@.flush_many_result(now, only_due),
    {
        let ghost start = self@;
        let mut kept: StringMap<SessionBufferState> = StringMap::new();
        let mut failed = false;
        proof {
            self.store.lemma_view();
        }
        while self.buffers.len() > 0
            invariant
                start.wf(),
                self.buffers.wf(),
                self.store.wf(),
                kept.wf(),
                self.scheduler.timeout() == start.timeout_ms,
                self.scheduler.last_issued() == start.generation,
                self.store.record_limit() == start.record_limit,
                forall|id: Seq<char>| self.store@.contains_key(id),
                forall|id: Seq<char>| #[trigger]
                    self.buffers@.contains_key(id) ==> start.buffers.contains_key(id)
                        && self.buffers@[id]@ == start.buffers[id] && !kept@.contains_key(id),
                forall|id: Seq<char>| #[trigger]
                    kept@.contains_key(id) ==> start.buffers.contains_key(id) && kept@[id]@
                        == start.buffers[id] && !start.selected(id, now, only_due),
                forall|id: Seq<char>| #[trigger]
                    start.buffers.contains_key(id) && !self.buffers@.contains_key(id)
                        && !start.selected(id, now, only_due) ==> kept@.contains_key(id),
                forall|id: Seq<char>| #[trigger]
                    self.store@[id] == if start.selected(id, now, only_due)
                        && !self.buffers@.contains_key(id) {
                        start.sealed(id, now).logs[id]
                    } else {
                        start.logs[id]
                    },
                failed <==> exists|id: Seq<char>| #[trigger]
                    start.selected(id, now, only_due) && !self.buffers@.contains_key(id)
                        && start.seal_fails(id, now),
            decreases self.buffers.count(),
        {
            let ghost before = self.buffers@;
            let ghost failed_before = failed;
            if let Some((session_id, buffer)) = self.buffers.pop() {
                let ghost id = session_id@;
                assert(before.contains_key(id));
                if only_due && !buffer.timer().is_due(now) {
                    kept.insert(session_id.as_str(), buffer);
                } else {
                    assert(start.selected(id, now, only_due));
                    if let Some(entry) = buffer.seal(now) {
                        if self.store.append(session_id.as_str(), entry).is_err() {
                            failed = true;
                        }
                        proof {
                            self.store.lemma_view();
                        }
                    }
                }
                proof {
                    if failed {
                        if failed_before {
                            let witness = choose|w: Seq<char>| #[trigger]
                                start.selected(w, now, only_due) && !before.contains_key(w)
                                    && start.seal_fails(w, now);
                            assert(start.selected(witness, now, only_due)
                                && !self.buffers@.contains_key(witness) && start.seal_fails(
                                witness,
                                now,
                            ));
                        } else {
                            assert(start.selected(id, now, only_due) && !self.buffers@.contains_key(
                                id,
                            ) && start.seal_fails(id, now));
                        }
                    } else {
                        assert forall|w: Seq<char>| #[trigger]
                            start.selected(w, now, only_due) && !self.buffers@.contains_key(w)
                                implies !start.seal_fails(w, now) by {
                            if w != id {
                                assert(!before.contains_key(w));
                            }
                        }
                    }
                }
            }
        }
        proof {
            self.buffers.lemma_count_zero();
        }
        self.buffers = kept;
        proof {
            let expected = start.after_flush(now, only_due);
            assert(self@.buffers =~= expected.buffers);
            assert(self@.logs =~= expected.logs);
            if failed {
                let witness = choose|w: Seq<char>| #[trigger]
                    start.selected(w, now, only_due) && start.seal_fails(w, now);
                assert(start.selected(witness, now, only_due) && start.seal_fails(witness, now));
            }
        }
        if failed {
            Err(PersistError::Store(StoreError::RecordTooLarge))
        } else {
            Ok(())
        }
    }

    /// Seals the buffer of every session that has one, at the time `now`.
    /// Each session's log gains its own buffered content and nothing else,
    /// as if the session had been flushed alone.
    pub fn flush_all(&mut self, now: u64) -> (result: Result<(), PersistError>)
        requires
            old(self).wf(),
        ensures
            final(self).wf(),
            final(self)@ == old(self)@.after_flush(now, false),
            result == old(self)@.flush_many_result(now, false),
    {
        self.flush_where(now, false)
    }

    /// Fires every timer that is due at the time `now`: seals the buffer of
    /// each session whose deadline has passed and leaves the others open.
    pub fn flush_due(&mut self, now: u64) -> (result: Result<(), PersistError>)
        requires
            old(self).wf(),
        ensures
            final(self).wf(),
            final(self)@ == old(self)@.after_flush(now, true),
            result == old(self)@.flush_many_result(now, true),
    {
        self.flush_where(now, true)
    }

    /// The stored form of the session's sealed log: its entries' frames, in
    /// order. An empty session id is refused.
    pub fn export_session(&self, session_id: &str) -> (result: Result<Vec<u8>, PersistError>)
        requires
            self.wf(),
        ensures
            match result {
                Ok(bytes) => session_id@.len() > 0 && bytes@ == encode_log(self@.logs[session_id@]),
                Err(error) => session_id@.len() == 0 && error == PersistError::InvalidSessionId,
            },
    {
        if session_id.is_empty() {
            return Err(PersistError::InvalidSessionId);
        }
        Ok(self.store.export_session(session_id))
    }

    /// The stored form of the session's sealed entries from the place `from`
    /// of its log on: what is to be written behind a stored log that holds
    /// the entries before that place. An empty session id is refused.
    pub fn export_session_from(&self, session_id: &str, from: usize) -> (result: Result<
        Vec<u8>,
        PersistError,
    >)
        requires
            self.wf(),
        ensures
            match result {
                Ok(bytes) => session_id@.len() > 0 && bytes@ == encode_log(
                    entries_from(self@.logs[session_id@], from as int),
                ),
                Err(error) => session_id@.len() == 0 && error == PersistError::InvalidSessionId,
            },
    {
        if session_id.is_empty() {
            return Err(PersistError::InvalidSessionId);
        }
        Ok(self.store.export_session_from(session_id, from))
    }

    /// The number of sealed entries of the session.
    pub fn entry_count(&self, session_id: &str) -> (count: usize)
        requires
            self.wf(),
        ensures
            count == self@.logs[session_id@].len(),
    {
        self.store.entry_count(session_id)
    }

    /// Restores the session's sealed log from its stored form and returns
    /// the number of entries read. Bytes at the end that are not a whole
    /// frame, as a write that was cut short leaves them, are not read. The
    /// session's buffer, if it has one, is not touched. A restore that is
    /// refused changes nothing.
    pub fn restore_session(&mut self, session_id: &str, bytes: &[u8]) -> (result: Result<
        usize,
        PersistError,
    >)
        requires
            old(self).wf(),
        ensures
            final(self).wf(),
            final(self)@ == old(self)@.after_restore(session_id@, bytes@),
            match result {
                Ok(count) => old(self)@.restore_result(session_id@, bytes@) is Ok && count == old(
                    self,
                )@.restore_result(session_id@, bytes@)->Ok_0.len(),
                Err(error) => old(self)@.restore_result(session_id@, bytes@) == Err::<
                    Seq<EntryView>,
                    PersistError,
                >(error),
            },
    {
        if session_id.is_empty() {
            return Err(PersistError::InvalidSessionId);
        }
        match self.store.import_session(session_id, bytes) {
            Ok(count) => {
                proof {
                    self.store.lemma_view();
                }
                Ok(count)
            },
            Err(error) => Err(PersistError::Store(error)),
        }
    }

    /// The ids of the sessions that have an open buffer, each once.
    pub fn open_sessions(&self) -> (ids: Vec<String>)
        requires
            self.wf(),
        ensures
            forall|i: int| 0 <= i < ids@.len() ==> self@.buffers.contains_key(#[trigger] ids@[i]@),
            forall|session_id: Seq<char>| #[trigger]
                self@.buffers.contains_key(session_id) ==> exists|i: int|
                    0 <= i < ids@.len() && ids@[i]@ == session_id,
            forall|i: int, j: int|
                0 <= i < ids@.len() && 0 <= j < ids@.len() && i != j ==> ids@[i]@ != ids@[j]@,
    {
        let mut ids: Vec<String> = Vec::new();
        let mut i: usize = 0;
        proof {
            self.buffers.lemma_ids();
        }
        while i < self.buffers.len()
            invariant
                i <= self.buffers.count(),
                ids@.len() == i,
                forall|j: int| 0 <= j < i ==> (#[trigger] ids@[j])@ == self.buffers.ids()[j],
            decreases self.buffers.count() - i,
        {
            ids.push(self.buffers.id_at(i).to_owned());
            i += 1;
        }
        proof {
            assert forall|session_id: Seq<char>| #[trigger]
                self@.buffers.contains_key(session_id) implies exists|i: int|
                0 <= i < ids@.len() && ids@[i]@ == session_id by {
                assert(self.buffers@.contains_key(session_id));
                let j = choose|j: int|
                    0 <= j < self.buffers.ids().len() && self.buffers.ids()[j] == session_id;
                assert(ids@[j]@ == session_id);
            }
        }
        ids
    }

    /// The earliest deadline among the timers armed for the open buffers:
    /// the time until which nothing falls due. `None` when no session has a
    /// buffer.
    pub fn next_deadline(&self) -> (deadline: Option<u64>)
        requires
            self.wf(),
        ensures
            self@.is_next_deadline(deadline),
    {
        let mut earliest: Option<u64> = None;
        let mut i: usize = 0;
        proof {
            self.buffers.lemma_ids();
            self.buffers.lemma_count_zero();
        }
        while i < self.buffers.len()
            invariant
                self.wf(),
                i <= self.buffers.count(),
                self.buffers.ids().len() == self.buffers.count(),
                i == 0 <==> earliest is None,
                earliest is Some ==> exists|j: int|
                    0 <= j < i && self@.buffers[#[trigger] self.buffers.ids()[j]].timer.deadline
                        == earliest->0,
                forall|j: int|
                    0 <= j < i ==> earliest->0
                        <= self@.buffers[#[trigger] self.buffers.ids()[j]].timer.deadline,
            decreases self.buffers.count() - i,
        {
            let deadline = self.buffers.value_at(i).timer().deadline;
            earliest = match earliest {
                Some(sooner) if sooner <= deadline => Some(sooner),
                _ => Some(deadline),
            };
            i += 1;
        }
        proof {
            match earliest {
                Some(found) => {
                    let j = choose|j: int|
                        0 <= j < i && self@.buffers[#[trigger] self.buffers.ids()[j]].timer.deadline
                            == found;
                    assert(self@.buffers.contains_key(self.buffers.ids()[j]));
                    assert forall|session_id: Seq<char>| #[trigger]
                        self@.buffers.contains_key(session_id) implies found
                        <= self@.buffers[session_id].timer.deadline by {
                        assert(self.buffers@.contains_key(session_id));
                        let k = choose|k: int|
                            0 <= k < self.buffers.ids().len() && self.buffers.ids()[k] == session_id;
                        assert(found <= self@.buffers[self.buffers.ids()[k]].timer.deadline);
                    }
                },
                None => {
                    assert(self@.buffers =~= Map::<Seq<char>, BufferView>::empty());
                },
            }
        }
        earliest
    }
}

} // verus!
