//! The stored form of a session log.
//!
//! A log is stored as its entries' frames, one after the other. A frame is
//! the length of a record in four bytes, least significant first, followed
//! by the record. A record is one byte that tells the kind of update, the
//! time of recording in eight bytes, least significant first, and the
//! update's text in UTF-8.
//!
//! Every frame can be read without the ones that follow it, and a frame that
//! was only partly written can only be the last: reading stops in front of
//! it and returns the entries before it.

use vstd::prelude::*;
use vstd::bytes::{
    lemma_auto_spec_u32_to_from_le_bytes,
    lemma_auto_spec_u64_to_from_le_bytes,
    spec_u32_from_le_bytes,
    spec_u32_to_le_bytes,
    spec_u64_from_le_bytes,
    spec_u64_to_le_bytes,
    u32_from_le_bytes,
    u32_to_le_bytes,
    u64_from_le_bytes,
    u64_to_le_bytes,
};
use vstd::slice::{slice_subrange, slice_to_vec};
use vstd::utf8::{decode_utf8, encode_utf8, valid_utf8};
use crate::message_store::{
    fits_record,
    lemma_entry_views_push,
    record_len,
    StoreError,
    DEFAULT_RECORD_LIMIT,
    RECORD_HEADER_LEN,
};
use crate::update::{entry_views, ChunkKind, EntryView, EventKind, MessageLogEntry, Update, UpdateView};

verus! {

/// Bytes of a frame in front of its record: the record's length.
pub const FRAME_HEADER_LEN: usize = 4;

/// The byte that tells the kind of an update in its record.
pub open spec fn tag_of(update: UpdateView) -> u8 {
    match update {
        UpdateView::Chunk { kind, .. } => match kind {
            ChunkKind::UserMessage => 0,
            ChunkKind::AgentMessage => 1,
            ChunkKind::AgentThought => 2,
        },
        UpdateView::Event { event, .. } => match event {
            EventKind::ToolCall => 3,
            EventKind::ToolCallUpdate => 4,
            EventKind::Plan => 5,
            EventKind::AvailableCommandsUpdate => 6,
            EventKind::CurrentModeUpdate => 7,
            EventKind::MessageComplete => 8,
            EventKind::Other => 9,
        },
    }
}

/// The update of the kind that `tag` tells, carrying `text`; `None` for a
/// byte that tells no kind.
pub open spec fn update_of_tag(tag: u8, text: Seq<char>) -> Option<UpdateView> {
    if tag == 0 {
        Some(UpdateView::Chunk { kind: ChunkKind::UserMessage, text })
    } else if tag == 1 {
        Some(UpdateView::Chunk { kind: ChunkKind::AgentMessage, text })
    } else if tag == 2 {
        Some(UpdateView::Chunk { kind: ChunkKind::AgentThought, text })
    } else if tag == 3 {
        Some(UpdateView::Event { event: EventKind::ToolCall, body: text })
    } else if tag == 4 {
        Some(UpdateView::Event { event: EventKind::ToolCallUpdate, body: text })
    } else if tag == 5 {
        Some(UpdateView::Event { event: EventKind::Plan, body: text })
    } else if tag == 6 {
        Some(UpdateView::Event { event: EventKind::AvailableCommandsUpdate, body: text })
    } else if tag == 7 {
        Some(UpdateView::Event { event: EventKind::CurrentModeUpdate, body: text })
    } else if tag == 8 {
        Some(UpdateView::Event { event: EventKind::MessageComplete, body: text })
    } else if tag == 9 {
        Some(UpdateView::Event { event: EventKind::Other, body: text })
    } else {
        None
    }
}

/// The record of an entry.
pub open spec fn encode_record(entry: EntryView) -> Seq<u8> {
    seq![tag_of(entry.update)] + spec_u64_to_le_bytes(entry.recorded_at) + encode_utf8(
        entry.update.text(),
    )
}

/// The entry that a record holds; `None` for bytes that are no record: too
/// short for the header, an unknown kind, or text that is not UTF-8.
pub open spec fn decode_record(record: Seq<u8>) -> Option<EntryView> {
    if record.len() < RECORD_HEADER_LEN {
        None
    } else {
        let text = record.subrange(RECORD_HEADER_LEN as int, record.len() as int);
        if !valid_utf8(text) {
            None
        } else {
            match update_of_tag(record[0], decode_utf8(text)) {
                Some(update) => Some(
                    EntryView {
                        update,
                        recorded_at: spec_u64_from_le_bytes(
                            record.subrange(1, RECORD_HEADER_LEN as int),
                        ),
                    },
                ),
                None => None,
            }
        }
    }
}

/// The frame of an entry whose record is short enough for the length field.
pub open spec fn encode_frame(entry: EntryView) -> Seq<u8> {
    spec_u32_to_le_bytes(record_len(entry) as u32) + encode_record(entry)
}

/// The stored form of a log.
pub open spec fn encode_log(entries: Seq<EntryView>) -> Seq<u8>
    decreases entries.len(),
{
    if entries.len() == 0 {
        Seq::empty()
    } else {
        encode_frame(entries.first()) + encode_log(entries.drop_first())
    }
}

/// The length of the frame that `bytes` begin with, as its length field
/// tells it. It means something only where `bytes` hold a length field.
pub open spec fn frame_len(bytes: Seq<u8>) -> int {
    FRAME_HEADER_LEN + spec_u32_from_le_bytes(bytes.subrange(0, FRAME_HEADER_LEN as int))
}

/// Whether `bytes` begin with a whole frame.
pub open spec fn starts_with_frame(bytes: Seq<u8>) -> bool {
    bytes.len() >= FRAME_HEADER_LEN && bytes.len() >= frame_len(bytes)
}

/// What a read of stored bytes returns once `done` was read and the read of
/// the rest returns `rest`.
pub open spec fn read_after(done: Seq<EntryView>, rest: Result<Seq<EntryView>, StoreError>) -> Result<
    Seq<EntryView>,
    StoreError,
> {
    match rest {
        Ok(entries) => Ok(done + entries),
        Err(error) => Err(error),
    }
}

/// The log that stored bytes hold: the entries of the whole frames, in
/// order, up to the end or to a frame that is not whole. A whole frame whose
/// bytes are no record makes the bytes corrupt.
pub open spec fn decode_log(bytes: Seq<u8>) -> Result<Seq<EntryView>, StoreError>
    decreases bytes.len(),
{
    if !starts_with_frame(bytes) {
        Ok(Seq::empty())
    } else {
        match decode_record(bytes.subrange(FRAME_HEADER_LEN as int, frame_len(bytes))) {
            Some(entry) => read_after(
                seq![entry],
                decode_log(bytes.subrange(frame_len(bytes), bytes.len() as int)),
            ),
            None => Err(StoreError::Corrupt),
        }
    }
}

/// `String::from_utf8` of std: the bytes become a `String` if and only if
/// they are valid UTF-8, and the string then consists of exactly these bytes.
#[verifier::external_body]
pub(crate) fn string_from_utf8(bytes: Vec<u8>) -> (text: Option<String>)
    ensures
        text is Some <==> valid_utf8(bytes@),
        text is Some ==> encode_utf8(text->0@) == bytes@,
{
    match String::from_utf8(bytes) {
        Ok(text) => Some(text),
        Err(_) => None,
    }
}

/// The byte that tells the kind of `update` in its record.
pub fn update_tag(update: &Update) -> (tag: u8)
    ensures
        tag == tag_of(update@),
{
    match update {
        Update::Chunk { kind, .. } => match kind {
            ChunkKind::UserMessage => 0,
            ChunkKind::AgentMessage => 1,
            ChunkKind::AgentThought => 2,
        },
        Update::Event { event, .. } => match event {
            EventKind::ToolCall => 3,
            EventKind::ToolCallUpdate => 4,
            EventKind::Plan => 5,
            EventKind::AvailableCommandsUpdate => 6,
            EventKind::CurrentModeUpdate => 7,
            EventKind::MessageComplete => 8,
            EventKind::Other => 9,
        },
    }
}

/// The update of the kind that `tag` tells, carrying `text`.
pub fn update_from_tag(tag: u8, text: String) -> (update: Option<Update>)
    ensures
        match update {
            Some(update) => update_of_tag(tag, text@) == Some(update@),
            None => update_of_tag(tag, text@) is None,
        },
{
    match tag {
        0 => Some(Update::Chunk { kind: ChunkKind::UserMessage, text }),
        1 => Some(Update::Chunk { kind: ChunkKind::AgentMessage, text }),
        2 => Some(Update::Chunk { kind: ChunkKind::AgentThought, text }),
        3 => Some(Update::Event { event: EventKind::ToolCall, body: text }),
        4 => Some(Update::Event { event: EventKind::ToolCallUpdate, body: text }),
        5 => Some(Update::Event { event: EventKind::Plan, body: text }),
        6 => Some(Update::Event { event: EventKind::AvailableCommandsUpdate, body: text }),
        7 => Some(Update::Event { event: EventKind::CurrentModeUpdate, body: text }),
        8 => Some(Update::Event { event: EventKind::MessageComplete, body: text }),
        9 => Some(Update::Event { event: EventKind::Other, body: text }),
        _ => None,
    }
}

/// The frame of `entry`, ready to be appended to the stored log. An entry
/// whose record is too long for the length field of a frame is refused.
pub fn encode_entry(entry: &MessageLogEntry) -> (result: Result<Vec<u8>, StoreError>)
    ensures
        match result {
            Ok(frame) => fits_record(entry@, DEFAULT_RECORD_LIMIT) && frame@ == encode_frame(entry@),
            Err(error) => !fits_record(entry@, DEFAULT_RECORD_LIMIT) && error
                == StoreError::RecordTooLarge,
        },
{
    let text = entry.update.text().as_bytes();
    if text.len() > DEFAULT_RECORD_LIMIT as usize - RECORD_HEADER_LEN {
        return Err(StoreError::RecordTooLarge);
    }
    let length: u32 = (text.len() + RECORD_HEADER_LEN) as u32;
    let mut frame = u32_to_le_bytes(length);
    frame.push(update_tag(&entry.update));
    let mut time = u64_to_le_bytes(entry.recorded_at);
    frame.append(&mut time);
    let mut body = slice_to_vec(text);
    frame.append(&mut body);
    assert(frame@ =~= encode_frame(entry@));
    Ok(frame)
}

/// The entry that `record` holds, `None` if the bytes are no record.
pub fn decode_entry(record: &[u8]) -> (entry: Option<MessageLogEntry>)
    ensures
        match entry {
            Some(entry) => decode_record(record@) == Some(entry@),
            None => decode_record(record@) is None,
        },
{
    if record.len() < RECORD_HEADER_LEN {
        return None;
    }
    let tag = record[0];
    let recorded_at = u64_from_le_bytes(slice_subrange(record, 1, RECORD_HEADER_LEN));
    let body = slice_to_vec(slice_subrange(record, RECORD_HEADER_LEN, record.len()));
    match string_from_utf8(body) {
        Some(text) => {
            proof {
                vstd::utf8::encode_utf8_decode_utf8(text@);
            }
            match update_from_tag(tag, text) {
                Some(update) => Some(MessageLogEntry { update, recorded_at }),
                None => None,
            }
        },
        None => None,
    }
}

/// Whether the bytes from `start` on begin with a whole frame.
fn has_frame_at(bytes: &[u8], start: usize) -> (whole: bool)
    requires
        start <= bytes@.len(),
    ensures
        whole == starts_with_frame(bytes@.subrange(start as int, bytes@.len() as int)),
{
    let left = bytes.len() - start;
    if left < FRAME_HEADER_LEN {
        return false;
    }
    let length = u32_from_le_bytes(slice_subrange(bytes, start, start + FRAME_HEADER_LEN));
    assert(bytes@.subrange(start as int, bytes@.len() as int).subrange(0, FRAME_HEADER_LEN as int)
        =~= bytes@.subrange(start as int, start + FRAME_HEADER_LEN));
    left - FRAME_HEADER_LEN >= length as usize
}

/// Reads stored bytes back into the log they hold. Bytes at the end that
/// are not a whole frame are left unread; a whole frame that holds no record
/// makes the read fail.
pub fn decode_entries(bytes: &[u8]) -> (result: Result<Vec<MessageLogEntry>, StoreError>)
    ensures
        match result {
            Ok(entries) => decode_log(bytes@) == Ok::<Seq<EntryView>, StoreError>(
                entry_views(entries@),
            ),
            Err(error) => decode_log(bytes@) == Err::<Seq<EntryView>, StoreError>(error),
        },
{
    let mut entries: Vec<MessageLogEntry> = Vec::new();
    let mut start: usize = 0;
    let total = bytes.len();
    assert(bytes@.subrange(0, bytes@.len() as int) =~= bytes@);
    assert(forall|rest: Seq<EntryView>| #[trigger] (entry_views(entries@) + rest) =~= rest);
    while has_frame_at(bytes, start)
        invariant
            start <= bytes@.len(),
            total == bytes@.len(),
            decode_log(bytes@) == read_after(
                entry_views(entries@),
                decode_log(bytes@.subrange(start as int, bytes@.len() as int)),
            ),
        decreases bytes@.len() - start,
    {
        let ghost rest = bytes@.subrange(start as int, bytes@.len() as int);
        assert(starts_with_frame(rest));
        assert(rest.subrange(0, FRAME_HEADER_LEN as int) =~= bytes@.subrange(
            start as int,
            start + FRAME_HEADER_LEN,
        ));
        let length = u32_from_le_bytes(slice_subrange(bytes, start, start + FRAME_HEADER_LEN));
        let end = start + FRAME_HEADER_LEN + length as usize;
        let record = slice_subrange(bytes, start + FRAME_HEADER_LEN, end);
        assert(record@ =~= rest.subrange(FRAME_HEADER_LEN as int, frame_len(rest)));
        assert(bytes@.subrange(end as int, bytes@.len() as int) =~= rest.subrange(
            frame_len(rest),
            rest.len() as int,
        ));
        match decode_entry(record) {
            Some(entry) => {
                proof {
                    lemma_entry_views_push(entries@, entry);
                    let after = decode_log(bytes@.subrange(end as int, bytes@.len() as int));
                    if let Ok(tail) = after {
                        assert(entry_views(entries@).push(entry@) + tail =~= entry_views(entries@) + (
                        seq![entry@] + tail));
                    }
                }
                entries.push(entry);
                start = end;
            },
            None => {
                return Err(StoreError::Corrupt);
            },
        }
    }
    assert(entry_views(entries@) + Seq::<EntryView>::empty() =~= entry_views(entries@));
    Ok(entries)
}

/// A record reads back as the entry it was made of.
pub proof fn lemma_record_round_trip(entry: EntryView)
    ensures
        encode_record(entry).len() == record_len(entry),
        decode_record(encode_record(entry)) == Some(entry),
{
    lemma_auto_spec_u64_to_from_le_bytes();
    vstd::utf8::encode_utf8_valid_utf8(entry.update.text());
    vstd::utf8::encode_utf8_decode_utf8(entry.update.text());
    let record = encode_record(entry);
    assert(record.subrange(1, RECORD_HEADER_LEN as int) =~= spec_u64_to_le_bytes(entry.recorded_at));
    assert(record.subrange(RECORD_HEADER_LEN as int, record.len() as int) =~= encode_utf8(
        entry.update.text(),
    ));
    assert(record[0] == tag_of(entry.update));
    assert(update_of_tag(tag_of(entry.update), entry.update.text()) == Some(entry.update));
}

/// Bytes that begin with the frame of an entry are read as that entry,
/// followed by what the bytes after the frame are read as.
pub proof fn lemma_read_frame_then_rest(entry: EntryView, rest: Seq<u8>)
    requires
        fits_record(entry, DEFAULT_RECORD_LIMIT),
    ensures
        decode_log(encode_frame(entry) + rest) == read_after(seq![entry], decode_log(rest)),
{
    lemma_auto_spec_u32_to_from_le_bytes();
    lemma_record_round_trip(entry);
    let bytes = encode_frame(entry) + rest;
    assert(bytes.subrange(0, FRAME_HEADER_LEN as int) =~= spec_u32_to_le_bytes(
        record_len(entry) as u32,
    ));
    assert(frame_len(bytes) == FRAME_HEADER_LEN + record_len(entry));
    assert(bytes.subrange(FRAME_HEADER_LEN as int, frame_len(bytes)) =~= encode_record(entry));
    assert(bytes.subrange(frame_len(bytes), bytes.len() as int) =~= rest);
}

/// Each record is read on its own: stored bytes that begin with the stored
/// form of a log are read as that log, followed by what the bytes after it
/// are read as.
pub proof fn lemma_read_log_then_rest(entries: Seq<EntryView>, rest: Seq<u8>)
    requires
        forall|i: int| 0 <= i < entries.len() ==> fits_record(#[trigger] entries[i], DEFAULT_RECORD_LIMIT),
    ensures
        decode_log(encode_log(entries) + rest) == read_after(entries, decode_log(rest)),
    decreases entries.len(),
{
    if entries.len() == 0 {
        assert(encode_log(entries) + rest =~= rest);
        if let Ok(tail) = decode_log(rest) {
            assert(entries + tail =~= tail);
        }
    } else {
        let first = entries.first();
        let others = entries.drop_first();
        assert(encode_log(entries) + rest =~= encode_frame(first) + (encode_log(others) + rest));
        lemma_read_frame_then_rest(first, encode_log(others) + rest);
        lemma_read_log_then_rest(others, rest);
        if let Ok(tail) = decode_log(rest) {
            assert(seq![first] + (others + tail) =~= entries + tail);
        }
    }
}

/// What is stored is what is read: the stored form of a log reads back as
/// the log, every entry in its place.
pub proof fn law_stored_log_round_trip(entries: Seq<EntryView>)
    requires
        forall|i: int| 0 <= i < entries.len() ==> fits_record(#[trigger] entries[i], DEFAULT_RECORD_LIMIT),
    ensures
        decode_log(encode_log(entries)) == Ok::<Seq<EntryView>, StoreError>(entries),
{
    lemma_read_log_then_rest(entries, Seq::empty());
    assert(encode_log(entries) + Seq::<u8>::empty() =~= encode_log(entries));
    assert(entries + Seq::<EntryView>::empty() =~= entries);
}

/// Appending is writing one more frame: the stored form of a log with one
/// more entry is the stored form of the log followed by the entry's frame.
pub proof fn law_append_adds_one_frame(entries: Seq<EntryView>, entry: EntryView)
    ensures
        encode_log(entries.push(entry)) == encode_log(entries) + encode_frame(entry),
    decreases entries.len(),
{
    let longer = entries.push(entry);
    assert(encode_log(longer) == encode_frame(longer.first()) + encode_log(longer.drop_first()));
    if entries.len() == 0 {
        assert(longer.drop_first() =~= Seq::<EntryView>::empty());
        assert(encode_log(longer.drop_first()) =~= Seq::<u8>::empty());
        assert(encode_log(longer) =~= encode_log(entries) + encode_frame(entry));
    } else {
        assert(longer.drop_first() =~= entries.drop_first().push(entry));
        law_append_adds_one_frame(entries.drop_first(), entry);
        assert(encode_log(longer) =~= encode_log(entries) + encode_frame(entry));
    }
}

/// The stored form of a log is the stored forms of its parts, one after the
/// other.
pub proof fn law_stored_log_is_joined(head: Seq<EntryView>, tail: Seq<EntryView>)
    ensures
        encode_log(head + tail) == encode_log(head) + encode_log(tail),
    decreases tail.len(),
{
    if tail.len() == 0 {
        assert(head + tail =~= head);
        assert(encode_log(head) + encode_log(tail) =~= encode_log(head));
    } else {
        law_stored_log_is_joined(head, tail.drop_last());
        law_append_adds_one_frame(head + tail.drop_last(), tail.last());
        law_append_adds_one_frame(tail.drop_last(), tail.last());
        assert((head + tail.drop_last()).push(tail.last()) =~= head + tail);
        assert(tail.drop_last().push(tail.last()) =~= tail);
        assert(encode_log(head + tail) =~= encode_log(head) + encode_log(tail));
    }
}

/// A write that was cut short harms only itself: when the frame of the last
/// entry was written only in part, the stored bytes read back as the log
/// before it.
pub proof fn law_torn_write_is_dropped(entries: Seq<EntryView>, entry: EntryView, written: int)
    requires
        forall|i: int| 0 <= i < entries.len() ==> fits_record(#[trigger] entries[i], DEFAULT_RECORD_LIMIT),
        fits_record(entry, DEFAULT_RECORD_LIMIT),
        0 <= written < encode_frame(entry).len(),
    ensures
        decode_log(encode_log(entries) + encode_frame(entry).subrange(0, written)) == Ok::<
            Seq<EntryView>,
            StoreError,
        >(entries),
{
    lemma_auto_spec_u32_to_from_le_bytes();
    lemma_record_round_trip(entry);
    let torn = encode_frame(entry).subrange(0, written);
    if torn.len() >= FRAME_HEADER_LEN {
        assert(torn.subrange(0, FRAME_HEADER_LEN as int) =~= spec_u32_to_le_bytes(
            record_len(entry) as u32,
        ));
    }
    assert(!starts_with_frame(torn));
    lemma_read_log_then_rest(entries, torn);
    assert(entries + Seq::<EntryView>::empty() =~= entries);
}

} // verus!
