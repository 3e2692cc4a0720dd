//! The message store: one ordered, append-only log of entries per session.
//!
//! The store does no buffering and no merging. What is appended is kept in
//! the order of the appends and is never changed afterwards. A session that
//! was never written to has the empty log.

use vstd::prelude::*;
use vstd::utf8::encode_utf8;
use crate::record_codec::{
    decode_entries,
    decode_log,
    encode_entry,
    encode_log,
    law_append_adds_one_frame,
};
use crate::string_map::StringMap;
use crate::update::{entry_views, EntryView, MessageLogEntry};

verus! {

/// Why the store refused an operation.
#[derive(Clone, Copy, Debug, PartialEq, Eq, Structural)]
pub enum StoreError {
    /// The entry's record would be longer than the store's record limit.
    RecordTooLarge,
    /// Stored bytes do not hold a well-formed record.
    Corrupt,
}

/// Bytes of a record besides its text: one byte for the kind of update and
/// eight for the time of recording.
pub const RECORD_HEADER_LEN: usize = 9;

/// The record limit of a store made without one: the longest record whose
/// length still fits the four-byte length field of a stored frame.
pub const DEFAULT_RECORD_LIMIT: u32 = 0xffff_ffff;

/// Length in bytes of the record that holds `entry`: the header and the
/// entry's text in UTF-8.
pub open spec fn record_len(entry: EntryView) -> nat {
    RECORD_HEADER_LEN as nat + encode_utf8(entry.update.text()).len()
}

/// Whether the record of `entry` is within `limit` bytes.
pub open spec fn fits_record(entry: EntryView, limit: u32) -> bool {
    record_len(entry) <= limit
}

/// Whether the record of `entry` is within `limit` bytes.
pub fn entry_fits(entry: &MessageLogEntry, limit: u32) -> (fits: bool)
    ensures
        fits == fits_record(entry@, limit),
{
    let text_len = entry.update.text().as_bytes().len();
    limit as usize >= RECORD_HEADER_LEN && text_len <= limit as usize - RECORD_HEADER_LEN
}

/// The UTF-8 encoding of a joined text is the joined encodings of its parts.
pub proof fn lemma_encode_utf8_concat(head: Seq<char>, tail: Seq<char>)
    ensures
        encode_utf8(head + tail) == encode_utf8(head) + encode_utf8(tail),
    decreases head.len(),
{
    if head.len() == 0 {
        assert(head + tail =~= tail);
        assert(encode_utf8(head) + encode_utf8(tail) =~= encode_utf8(tail));
    } else {
        assert((head + tail).drop_first() =~= head.drop_first() + tail);
        lemma_encode_utf8_concat(head.drop_first(), tail);
        assert(encode_utf8(head + tail) =~= encode_utf8(head) + encode_utf8(tail));
    }
}

/// Whether the record of every entry of `log` is within `limit` bytes.
pub open spec fn all_fit(log: Seq<EntryView>, limit: u32) -> bool {
    forall|i: int| 0 <= i < log.len() ==> fits_record(#[trigger] log[i], limit)
}

/// The entries of `log` from the place `from` on; none from a place past
/// the end.
pub open spec fn entries_from(log: Seq<EntryView>, from: int) -> Seq<EntryView> {
    if 0 <= from <= log.len() {
        log.subrange(from, log.len() as int)
    } else {
        Seq::empty()
    }
}

/// Taking the values of a log commutes with appending an entry.
pub proof fn lemma_entry_views_push(entries: Seq<MessageLogEntry>, entry: MessageLogEntry)
    ensures
        entry_views(entries.push(entry)) == entry_views(entries).push(entry@),
{
    assert(entry_views(entries.push(entry)) =~= entry_views(entries).push(entry@));
}

/// Per-session logs of entries, each record bounded by a limit.
pub struct MessageStore {
    logs: StringMap<Vec<MessageLogEntry>>,
    max_record_bytes: u32,
}

impl View for MessageStore {
    type V = Map<Seq<char>, Seq<EntryView>>;

    /// The log of every session id; the empty log for a session never
    /// written to.
    closed spec fn view(&self) -> Map<Seq<char>, Seq<EntryView>> {
        Map::total(
            |session_id: Seq<char>|
                if self.logs@.contains_key(session_id) {
                    entry_views(self.logs@[session_id]@)
                } else {
                    Seq::empty()
                },
        )
    }
}

impl MessageStore {
    /// The longest record, in bytes, that the store accepts.
    pub closed spec fn record_limit(&self) -> u32 {
        self.max_record_bytes
    }

    /// The store's invariant: every stored entry is within the record limit.
    pub closed spec fn wf(&self) -> bool {
        &&& self.logs.wf()
        &&& forall|session_id: Seq<char>, i: int|
            self.logs@.contains_key(session_id) && 0 <= i < self.logs@[session_id]@.len()
                ==> fits_record(#[trigger] self.logs@[session_id]@[i]@, self.max_record_bytes)
    }

    /// The view is defined on every session id, and every entry of every log
    /// is within the record limit.
    pub proof fn lemma_view(&self)
        requires
            self.wf(),
        ensures
            forall|session_id: Seq<char>| self@.contains_key(session_id),
            forall|session_id: Seq<char>, i: int|
                0 <= i < self@[session_id].len() ==> fits_record(
                    #[trigger] self@[session_id][i],
                    self.record_limit(),
                ),
    {
        assert forall|session_id: Seq<char>, i: int| 0 <= i < self@[session_id].len() implies fits_record(
            #[trigger] self@[session_id][i],
            self.record_limit(),
        ) by {
            assert(self.logs@.contains_key(session_id));
            assert(self@[session_id][i] == self.logs@[session_id]@[i]@);
        }
    }

    /// An empty store with the default record limit.
    pub fn new() -> (store: MessageStore)
        ensures
            store.wf(),
            store.record_limit() == DEFAULT_RECORD_LIMIT,
            forall|session_id: Seq<char>| #[trigger] store@[session_id] == Seq::<EntryView>::empty(),
    {
        MessageStore::with_record_limit(DEFAULT_RECORD_LIMIT)
    }

    /// An empty store that accepts records of up to `max_record_bytes` bytes.
    pub fn with_record_limit(max_record_bytes: u32) -> (store: MessageStore)
        ensures
            store.wf(),
            store.record_limit() == max_record_bytes,
            forall|session_id: Seq<char>| #[trigger] store@[session_id] == Seq::<EntryView>::empty(),
    {
        MessageStore { logs: StringMap::new(), max_record_bytes }
    }

    /// The longest record, in bytes, that the store accepts.
    pub fn max_record_bytes(&self) -> (limit: u32)
        ensures
            limit == self.record_limit(),
    {
        self.max_record_bytes
    }

    /// Appends `entry` to the log of `session_id`, which is created if the
    /// session has none. An entry whose record exceeds the record limit is
    /// refused and the store is left as it was.
    pub fn append(&mut self, session_id: &str, entry: MessageLogEntry) -> (result: Result<
        (),
        StoreError,
    >)
        requires
            old(self).wf(),
        ensures
            final(self).wf(),
            final(self).record_limit() == old(self).record_limit(),
            match result {
                Ok(()) => {
                    &&& fits_record(entry@, old(self).record_limit())
                    &&& final(self)@ == old(self)@.insert(
                        session_id@,
                        old(self)@[session_id@].push(entry@),
                    )
                },
                Err(error) => {
                    &&& error == StoreError::RecordTooLarge
                    &&& !fits_record(entry@, old(self).record_limit())
                    &&& final(self)@ == old(self)@
                },
            },
    {
        if !entry_fits(&entry, self.max_record_bytes) {
            return Err(StoreError::RecordTooLarge);
        }
        let mut log = match self.logs.remove(session_id) {
            Some(log) => log,
            None => Vec::new(),
        };
        let ghost before = log@;
        log.push(entry);
        self.logs.insert(session_id, log);
        proof {
            lemma_entry_views_push(before, entry);
            assert(self.logs@ =~= old(self).logs@.insert(session_id@, log));
            let expected = old(self)@.insert(session_id@, old(self)@[session_id@].push(entry@));
            assert(entry_views(Seq::<MessageLogEntry>::empty()) =~= Seq::<EntryView>::empty());
            assert forall|other: Seq<char>| self@[other] == expected[other] by {
                if other == session_id@ {
                    assert(self.logs@[other] == log);
                    assert(old(self)@[other] == entry_views(before));
                } else {
                    assert(self.logs@.contains_key(other) == old(self).logs@.contains_key(other));
                }
            }
            assert(self@ =~= expected);
            assert forall|other: Seq<char>, i: int|
                self.logs@.contains_key(other) && 0 <= i < self.logs@[other]@.len() implies fits_record(
                #[trigger] self.logs@[other]@[i]@,
                self.max_record_bytes,
            ) by {
                if other == session_id@ {
                    if i < before.len() {
                        assert(old(self).logs@.contains_key(other));
                        assert(log@[i] == old(self).logs@[other]@[i]);
                    }
                } else {
                    assert(self.logs@[other] == old(self).logs@[other]);
                }
            }
        }
        Ok(())
    }

    /// The entries of `session_id`, in the order they were appended; the
    /// empty sequence for a session never written to.
    pub fn load_messages(&self, session_id: &str) -> (result: Result<Vec<MessageLogEntry>, StoreError>)
        requires
            self.wf(),
        ensures
            result is Ok,
            entry_views(result->Ok_0@) == self@[session_id@],
    {
        let mut entries: Vec<MessageLogEntry> = Vec::new();
        match self.logs.get(session_id) {
            Some(log) => {
                let mut i: usize = 0;
                while i < log.len()
                    invariant
                        i <= log@.len(),
                        entry_views(entries@) == entry_views(log@).subrange(0, i as int),
                    decreases log.len() - i,
                {
                    let copy = log[i].clone();
                    proof {
                        lemma_entry_views_push(entries@, copy);
                        assert(entry_views(entries@).push(copy@) =~= entry_views(log@).subrange(
                            0,
                            i + 1,
                        ));
                    }
                    entries.push(copy);
                    i += 1;
                }
                assert(entry_views(log@).subrange(0, i as int) =~= entry_views(log@));
            },
            None => {
                assert(entry_views(entries@) =~= Seq::<EntryView>::empty());
            },
        }
        Ok(entries)
    }

    /// The number of entries in the log of `session_id`.
    pub fn entry_count(&self, session_id: &str) -> (count: usize)
        requires
            self.wf(),
        ensures
            count == self@[session_id@].len(),
    {
        match self.logs.get(session_id) {
            Some(log) => log.len(),
            None => 0,
        }
    }

    /// The stored form of the log of `session_id`: its entries' frames, in
    /// order.
    pub fn export_session(&self, session_id: &str) -> (bytes: Vec<u8>)
        requires
            self.wf(),
        ensures
            bytes@ == encode_log(self@[session_id@]),
    {
        assert(entries_from(self@[session_id@], 0) =~= self@[session_id@]);
        self.export_session_from(session_id, 0)
    }

    /// The stored form of the entries of `session_id` from the place `from`
    /// of its log on: what is to be written behind the stored form of the
    /// entries before that place.
    pub fn export_session_from(&self, session_id: &str, from: usize) -> (bytes: Vec<u8>)
        requires
            self.wf(),
        ensures
            bytes@ == encode_log(entries_from(self@[session_id@], from as int)),
    {
        let mut bytes: Vec<u8> = Vec::new();
        if let Some(log) = self.logs.get(session_id) {
            let start = if from < log.len() {
                from
            } else {
                log.len()
            };
            let mut i: usize = start;
            assert(entry_views(log@).subrange(start as int, start as int) =~= Seq::<
                EntryView,
            >::empty());
            while i < log.len()
                invariant
                    start <= i <= log@.len(),
                    forall|j: int|
                        0 <= j < log@.len() ==> fits_record(#[trigger] log@[j]@, self.max_record_bytes),
                    bytes@ == encode_log(entry_views(log@).subrange(start as int, i as int)),
                decreases log.len() - i,
            {
                proof {
                    let done = entry_views(log@).subrange(start as int, i as int);
                    law_append_adds_one_frame(done, log@[i as int]@);
                    assert(done.push(log@[i as int]@) =~= entry_views(log@).subrange(
                        start as int,
                        i + 1,
                    ));
                    assert(fits_record(log@[i as int]@, self.max_record_bytes));
                }
                if let Ok(mut frame) = encode_entry(&log[i]) {
                    bytes.append(&mut frame);
                }
                i += 1;
            }
            assert(entry_views(log@).subrange(start as int, i as int) =~= entries_from(
                entry_views(log@),
                from as int,
            ));
        } else {
            assert(entries_from(self@[session_id@], from as int) =~= Seq::<EntryView>::empty());
        }
        bytes
    }

    /// Takes the log of `session_id` from its stored form, in place of what
    /// the store held for the session, and returns the number of entries
    /// read. Bytes at the end that are not a whole frame are left unread.
    /// Stored bytes that are corrupt, or that hold an entry over the record
    /// limit, are refused and the store is left as it was.
    #[verifier::loop_isolation(false)]
    pub fn import_session(&mut self, session_id: &str, bytes: &[u8]) -> (result: Result<usize, StoreError>)
        requires
            old(self).wf(),
        ensures
            final(self).wf(),
            final(self).record_limit() == old(self).record_limit(),
            match result {
                Ok(count) => {
                    &&& decode_log(bytes@) is Ok
                    &&& all_fit(decode_log(bytes@)->Ok_0, old(self).record_limit())
                    &&& count == decode_log(bytes@)->Ok_0.len()
                    &&& final(self)@ == old(self)@.insert(session_id@, decode_log(bytes@)->Ok_0)
                },
                Err(error) => {
                    &&& final(self)@ == old(self)@
                    &&& match decode_log(bytes@) {
                        Ok(log) => !all_fit(log, old(self).record_limit()) && error
                            == StoreError::RecordTooLarge,
                        Err(cause) => error == cause,
                    }
                },
            },
    {
        let entries = match decode_entries(bytes) {
            Ok(entries) => entries,
            Err(error) => {
                return Err(error);
            },
        };
        let mut i: usize = 0;
        while i < entries.len()
            invariant
                i <= entries@.len(),
                forall|j: int|
                    0 <= j < i ==> fits_record(#[trigger] entries@[j]@, self.max_record_bytes),
            decreases entries.len() - i,
        {
            if !entry_fits(&entries[i], self.max_record_bytes) {
                proof {
                    assert(entry_views(entries@)[i as int] == entries@[i as int]@);
                }
                return Err(StoreError::RecordTooLarge);
            }
            i += 1;
        }
        let count = entries.len();
        self.logs.insert(session_id, entries);
        proof {
            let expected = old(self)@.insert(session_id@, entry_views(entries@));
            assert forall|other: Seq<char>| self@[other] == expected[other] by {
                if other != session_id@ {
                    assert(self.logs@.contains_key(other) == old(self).logs@.contains_key(other));
                }
            }
            assert(self@ =~= expected);
            assert forall|j: int| 0 <= j < entry_views(entries@).len() implies fits_record(
                #[trigger] entry_views(entries@)[j],
                self.max_record_bytes,
            ) by {
                assert(entry_views(entries@)[j] == entries@[j]@);
            }
            assert forall|other: Seq<char>, j: int|
                self.logs@.contains_key(other) && 0 <= j < self.logs@[other]@.len() implies fits_record(
                #[trigger] self.logs@[other]@[j]@,
                self.max_record_bytes,
            ) by {
                if other != session_id@ {
                    assert(self.logs@[other] == old(self).logs@[other]);
                }
            }
        }
        Ok(count)
    }
}

} // verus!
