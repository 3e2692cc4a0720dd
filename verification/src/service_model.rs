//! The mathematical model of the persistence service: its state as maps from
//! session ids, and what each operation makes of a state.
//!
//! The executable service is specified against these functions, and the
//! laws of the service are proved about them.

use vstd::prelude::*;
use crate::flush_scheduler::ticket_after;
use crate::merge_policy::{decision_for, Decision};
use crate::message_store::{all_fit, fits_record, StoreError};
use crate::record_codec::decode_log;
use crate::session_buffer::{empty_buffer, BufferView};
use crate::update::{ChunkKind, EntryView, UpdateView};

verus! {

/// Why the service refused an operation.
#[derive(Clone, Copy, Debug, PartialEq, Eq, Structural)]
pub enum PersistError {
    /// The session id is empty.
    InvalidSessionId,
    /// The message store refused an entry.
    Store(StoreError),
}

/// What became of an inactivity timer that fired.
#[derive(Clone, Copy, Debug, PartialEq, Eq, Structural)]
pub enum TimerOutcome {
    /// The timer was outdated: its session has no buffer any more, or the
    /// buffer holds a later timer. Nothing was changed.
    Ignored,
    /// The buffer was sealed into the session's log.
    Sealed,
    /// The buffer was discarded because the store refused its entry.
    SealFailed(StoreError),
}

/// State of the service.
pub struct ServiceView {
    /// The open buffer of each session that has one.
    pub buffers: Map<Seq<char>, BufferView>,
    /// The sealed log of every session.
    pub logs: Map<Seq<char>, Seq<EntryView>>,
    /// The inactivity timeout, in milliseconds.
    pub timeout_ms: u64,
    /// The generation of the timer armed last.
    pub generation: u64,
    /// The longest record the store accepts, in bytes.
    pub record_limit: u32,
}

impl ServiceView {
    /// Every session has a log; a buffer is filed under its own session's
    /// non-empty id and holds a pending group.
    pub open spec fn wf(self) -> bool {
        &&& forall|session_id: Seq<char>| self.logs.contains_key(session_id)
        &&& forall|session_id: Seq<char>| #[trigger]
            self.buffers.contains_key(session_id) ==> {
                &&& session_id.len() > 0
                &&& self.buffers[session_id].session_id == session_id
                &&& self.buffers[session_id].pending_kind is Some
            }
    }

    /// The kind pending for a session, `None` when it has no buffer.
    pub open spec fn pending(self, session_id: Seq<char>) -> Option<ChunkKind> {
        if self.buffers.contains_key(session_id) {
            self.buffers[session_id].pending_kind
        } else {
            None
        }
    }

    /// The state with `entry` appended to the session's log.
    pub open spec fn with_entry(self, session_id: Seq<char>, entry: EntryView) -> ServiceView {
        ServiceView { logs: self.logs.insert(session_id, self.logs[session_id].push(entry)), ..self }
    }

    /// The state after the store was asked to append `entry`: appended if
    /// its record is within the limit, unchanged otherwise.
    pub open spec fn written(self, session_id: Seq<char>, entry: EntryView) -> ServiceView {
        if fits_record(entry, self.record_limit) {
            self.with_entry(session_id, entry)
        } else {
            self
        }
    }

    /// The state without the session's buffer.
    pub open spec fn without_buffer(self, session_id: Seq<char>) -> ServiceView {
        ServiceView { buffers: self.buffers.remove(session_id), ..self }
    }

    /// The entry that sealing the session's buffer at `now` hands to the
    /// store, `None` when the session has no buffer.
    pub open spec fn entry_to_seal(self, session_id: Seq<char>, now: u64) -> Option<EntryView> {
        if self.buffers.contains_key(session_id) {
            self.buffers[session_id].sealed_at(now)
        } else {
            None
        }
    }

    /// Whether sealing the session's buffer at `now` is refused by the store.
    pub open spec fn seal_fails(self, session_id: Seq<char>, now: u64) -> bool {
        match self.entry_to_seal(session_id, now) {
            Some(entry) => !fits_record(entry, self.record_limit),
            None => false,
        }
    }

    /// The state after the session's buffer was sealed at `now`: the buffer
    /// is gone, and its content is one more entry of the session's log unless
    /// the store refused it.
    pub open spec fn sealed(self, session_id: Seq<char>, now: u64) -> ServiceView {
        match self.entry_to_seal(session_id, now) {
            Some(entry) => self.without_buffer(session_id).written(session_id, entry),
            None => self.without_buffer(session_id),
        }
    }

    /// The state after a fragment joined the session's buffer at `now`: the
    /// buffer, created if there was none, holds the fragment at its end and a
    /// freshly armed timer.
    pub open spec fn buffered(
        self,
        session_id: Seq<char>,
        kind: ChunkKind,
        text: Seq<char>,
        now: u64,
    ) -> ServiceView {
        let base = if self.buffers.contains_key(session_id) {
            self.buffers[session_id]
        } else {
            empty_buffer(session_id)
        };
        let ticket = ticket_after(self.generation, self.timeout_ms, now);
        ServiceView {
            buffers: self.buffers.insert(
                session_id,
                base.with_fragment(kind, text).with_timer(ticket),
            ),
            generation: ticket.generation,
            ..self
        }
    }

    /// The state after `update` was saved for the session at `now`.
    pub open spec fn after_save(self, session_id: Seq<char>, update: UpdateView, now: u64) -> ServiceView {
        if session_id.len() == 0 {
            self
        } else {
            match update {
                UpdateView::Chunk { kind, text } => match decision_for(
                    self.pending(session_id),
                    update,
                ) {
                    Decision::AppendToBuffer => self.buffered(session_id, kind, text, now),
                    _ => if self.seal_fails(session_id, now) {
                        self.sealed(session_id, now)
                    } else {
                        self.sealed(session_id, now).buffered(session_id, kind, text, now)
                    },
                },
                UpdateView::Event { .. } => if self.seal_fails(session_id, now) {
                    self.sealed(session_id, now)
                } else {
                    self.sealed(session_id, now).written(
                        session_id,
                        EntryView { update, recorded_at: now },
                    )
                },
            }
        }
    }

    /// What saving `update` for the session at `now` returns.
    pub open spec fn save_result(self, session_id: Seq<char>, update: UpdateView, now: u64) -> Result<
        (),
        PersistError,
    > {
        if session_id.len() == 0 {
            Err(PersistError::InvalidSessionId)
        } else if self.seal_fails(session_id, now) && decision_for(self.pending(session_id), update)
            != Decision::AppendToBuffer {
            Err(PersistError::Store(StoreError::RecordTooLarge))
        } else if update is Event && !fits_record(
            EntryView { update, recorded_at: now },
            self.record_limit,
        ) {
            Err(PersistError::Store(StoreError::RecordTooLarge))
        } else {
            Ok(())
        }
    }

    /// What reading the session's log returns: its sealed entries in the
    /// order they were written, without what is still buffered.
    pub open spec fn load_result(self, session_id: Seq<char>) -> Result<Seq<EntryView>, PersistError> {
        if session_id.len() == 0 {
            Err(PersistError::InvalidSessionId)
        } else {
            Ok(self.logs[session_id])
        }
    }

    /// What restoring the session's log from its stored form returns: the
    /// log read from the bytes, unless the session id is empty, the bytes are
    /// corrupt or an entry is over the record limit.
    pub open spec fn restore_result(self, session_id: Seq<char>, bytes: Seq<u8>) -> Result<
        Seq<EntryView>,
        PersistError,
    > {
        if session_id.len() == 0 {
            Err(PersistError::InvalidSessionId)
        } else {
            match decode_log(bytes) {
                Ok(log) => if all_fit(log, self.record_limit) {
                    Ok(log)
                } else {
                    Err(PersistError::Store(StoreError::RecordTooLarge))
                },
                Err(cause) => Err(PersistError::Store(cause)),
            }
        }
    }

    /// The state after the session's log was restored from its stored form:
    /// the log read takes the place of the session's log, and a restore that
    /// is refused changes nothing.
    pub open spec fn after_restore(self, session_id: Seq<char>, bytes: Seq<u8>) -> ServiceView {
        match self.restore_result(session_id, bytes) {
            Ok(log) => ServiceView { logs: self.logs.insert(session_id, log), ..self },
            Err(_) => self,
        }
    }

    /// The state after the session was flushed at `now`: its buffer is
    /// sealed, whatever the buffer's deadline. Nothing changes for a session
    /// without a buffer and for the empty session id.
    pub open spec fn after_flush_session(self, session_id: Seq<char>, now: u64) -> ServiceView {
        if session_id.len() == 0 {
            self
        } else {
            self.sealed(session_id, now)
        }
    }

    /// What flushing the session at `now` returns.
    pub open spec fn flush_result(self, session_id: Seq<char>, now: u64) -> Result<(), PersistError> {
        if session_id.len() == 0 {
            Err(PersistError::InvalidSessionId)
        } else if self.seal_fails(session_id, now) {
            Err(PersistError::Store(StoreError::RecordTooLarge))
        } else {
            Ok(())
        }
    }

    /// Whether a timer that fires for the session with `generation` is the
    /// one its buffer holds.
    pub open spec fn timer_is_current(self, session_id: Seq<char>, generation: u64) -> bool {
        self.buffers.contains_key(session_id) && self.buffers[session_id].timer.generation
            == generation
    }

    /// The state after a timer fired for the session with `generation`.
    pub open spec fn after_timer(self, session_id: Seq<char>, generation: u64, now: u64) -> ServiceView {
        if self.timer_is_current(session_id, generation) {
            self.sealed(session_id, now)
        } else {
            self
        }
    }

    /// What became of a timer that fired for the session with `generation`.
    pub open spec fn timer_outcome(self, session_id: Seq<char>, generation: u64, now: u64) -> TimerOutcome {
        if !self.timer_is_current(session_id, generation) {
            TimerOutcome::Ignored
        } else if self.seal_fails(session_id, now) {
            TimerOutcome::SealFailed(StoreError::RecordTooLarge)
        } else {
            TimerOutcome::Sealed
        }
    }

    /// Whether a flush of many sessions at `now` takes in the session: it
    /// has a buffer and, when only due timers are flushed, its timer is due.
    pub open spec fn selected(self, session_id: Seq<char>, now: u64, only_due: bool) -> bool {
        self.buffers.contains_key(session_id) && (!only_due || self.buffers[session_id].timer.due_at(
            now,
        ))
    }

    /// The state after every selected session was sealed at `now`, each as
    /// if it had been flushed alone.
    pub open spec fn after_flush(self, now: u64, only_due: bool) -> ServiceView {
        ServiceView {
            buffers: Map::new(
                |session_id: Seq<char>|
                    self.buffers.contains_key(session_id) && !self.selected(session_id, now, only_due),
                |session_id: Seq<char>| self.buffers[session_id],
            ),
            logs: Map::total(
                |session_id: Seq<char>|
                    if self.selected(session_id, now, only_due) {
                        self.sealed(session_id, now).logs[session_id]
                    } else {
                        self.logs[session_id]
                    },
            ),
            ..self
        }
    }

    /// Whether the store refuses the entry of some selected session.
    pub open spec fn flush_fails(self, now: u64, only_due: bool) -> bool {
        exists|session_id: Seq<char>| #[trigger]
            self.selected(session_id, now, only_due) && self.seal_fails(session_id, now)
    }

    /// What a flush of the selected sessions returns.
    pub open spec fn flush_many_result(self, now: u64, only_due: bool) -> Result<(), PersistError> {
        if self.flush_fails(now, only_due) {
            Err(PersistError::Store(StoreError::RecordTooLarge))
        } else {
            Ok(())
        }
    }

    /// The earliest deadline among the armed timers, `None` when no session
    /// has a buffer.
    pub open spec fn is_next_deadline(self, deadline: Option<u64>) -> bool {
        match deadline {
            Some(earliest) => {
                &&& exists|session_id: Seq<char>| #[trigger]
                    self.buffers.contains_key(session_id) && self.buffers[session_id].timer.deadline
                        == earliest
                &&& forall|session_id: Seq<char>| #[trigger]
                    self.buffers.contains_key(session_id) ==> earliest
                        <= self.buffers[session_id].timer.deadline
            },
            None => self.buffers == Map::<Seq<char>, BufferView>::empty(),
        }
    }
}

} // verus!
