use agentx::message_store::{entry_fits, MessageStore, StoreError, DEFAULT_RECORD_LIMIT};
use agentx::partition::{is_plain_byte, partition_name};
use agentx::record_codec::{decode_entries, decode_entry, encode_entry, update_from_tag, update_tag};
use agentx::update::{ChunkKind, EventKind, MessageLogEntry, Update};

fn chunk(kind: ChunkKind, text: &str, recorded_at: u64) -> MessageLogEntry {
    MessageLogEntry { update: Update::chunk(kind, text), recorded_at }
}

fn texts(entries: &[MessageLogEntry]) -> Vec<String> {
    entries.iter().map(|e| e.update.text().to_string()).collect()
}

#[test]
fn load_returns_the_entries_in_the_order_of_the_appends() {
    let mut store = MessageStore::new();
    assert_eq!(store.max_record_bytes(), DEFAULT_RECORD_LIMIT);
    for (i, text) in ["one", "two", "three"].iter().enumerate() {
        store.append("a", chunk(ChunkKind::AgentMessage, text, i as u64)).unwrap();
    }
    store.append("b", chunk(ChunkKind::UserMessage, "other", 9)).unwrap();
    let loaded = store.load_messages("a").unwrap();
    assert_eq!(texts(&loaded), vec!["one", "two", "three"]);
    assert_eq!(loaded[2].recorded_at, 2);
    assert_eq!(texts(&store.load_messages("b").unwrap()), vec!["other"]);
    assert_eq!(store.entry_count("a"), 3);
    assert_eq!(store.entry_count("b"), 1);
}

#[test]
fn a_session_without_entries_loads_as_empty() {
    let store = MessageStore::new();
    assert_eq!(store.load_messages("never").unwrap().len(), 0);
    assert_eq!(store.entry_count("never"), 0);
    assert_eq!(store.export_session("never"), Vec::<u8>::new());
}

#[test]
fn an_entry_over_the_record_limit_is_refused() {
    let mut store = MessageStore::with_record_limit(12);
    assert!(entry_fits(&chunk(ChunkKind::AgentMessage, "abc", 0), 12));
    assert!(!entry_fits(&chunk(ChunkKind::AgentMessage, "abcd", 0), 12));
    assert!(!entry_fits(&chunk(ChunkKind::AgentMessage, "", 0), 8));
    // "é" takes two bytes.
    assert!(!entry_fits(&chunk(ChunkKind::AgentMessage, "éé", 0), 12));
    assert_eq!(store.append("a", chunk(ChunkKind::AgentMessage, "abc", 0)), Ok(()));
    assert_eq!(
        store.append("a", chunk(ChunkKind::AgentMessage, "abcd", 1)),
        Err(StoreError::RecordTooLarge)
    );
    assert_eq!(store.entry_count("a"), 1);
}

#[test]
fn a_frame_is_length_then_kind_then_time_then_text() {
    let frame = encode_entry(&chunk(ChunkKind::AgentMessage, "hé", 0x0102_0304_0506_0708)).unwrap();
    assert_eq!(
        frame,
        vec![
            12, 0, 0, 0, // length of the record
            1, // an agent message chunk
            8, 7, 6, 5, 4, 3, 2, 1, // the time, least significant byte first
            b'h', 0xC3, 0xA9, // the text
        ]
    );
    let event = MessageLogEntry { update: Update::event(EventKind::Other, ""), recorded_at: 1 };
    assert_eq!(encode_entry(&event).unwrap(), vec![9, 0, 0, 0, 9, 1, 0, 0, 0, 0, 0, 0, 0]);
}

#[test]
fn every_kind_of_update_has_its_own_tag() {
    let kinds = [
        (Update::chunk(ChunkKind::UserMessage, "t"), 0u8),
        (Update::chunk(ChunkKind::AgentMessage, "t"), 1),
        (Update::chunk(ChunkKind::AgentThought, "t"), 2),
        (Update::event(EventKind::ToolCall, "t"), 3),
        (Update::event(EventKind::ToolCallUpdate, "t"), 4),
        (Update::event(EventKind::Plan, "t"), 5),
        (Update::event(EventKind::AvailableCommandsUpdate, "t"), 6),
        (Update::event(EventKind::CurrentModeUpdate, "t"), 7),
        (Update::event(EventKind::MessageComplete, "t"), 8),
        (Update::event(EventKind::Other, "t"), 9),
    ];
    for (update, tag) in kinds {
        assert_eq!(update_tag(&update), tag);
        let back = update_from_tag(tag, "t".to_string()).unwrap();
        assert_eq!(format!("{:?}", back), format!("{:?}", update));
    }
    assert!(update_from_tag(10, String::new()).is_none());
    assert!(update_from_tag(255, String::new()).is_none());
}

#[test]
fn stored_bytes_read_back_as_the_log() {
    let entries = vec![
        chunk(ChunkKind::UserMessage, "question?", 10),
        chunk(ChunkKind::AgentThought, "", 11),
        MessageLogEntry { update: Update::event(EventKind::Plan, "{\"steps\":[]}"), recorded_at: 12 },
        chunk(ChunkKind::AgentMessage, "日本語 answer", u64::MAX),
    ];
    let mut bytes = Vec::new();
    for entry in &entries {
        bytes.extend(encode_entry(entry).unwrap());
    }
    let back = decode_entries(&bytes).unwrap();
    assert_eq!(format!("{:?}", back), format!("{:?}", entries));
}

#[test]
fn a_torn_last_frame_is_not_read() {
    let first = encode_entry(&chunk(ChunkKind::AgentMessage, "kept", 1)).unwrap();
    let second = encode_entry(&chunk(ChunkKind::AgentMessage, "lost", 2)).unwrap();
    for written in 0..second.len() {
        let mut bytes = first.clone();
        bytes.extend_from_slice(&second[..written]);
        let back = decode_entries(&bytes).unwrap();
        assert_eq!(texts(&back), vec!["kept"]);
    }
    assert_eq!(decode_entries(&[]).unwrap().len(), 0);
    assert_eq!(decode_entries(&[1, 2, 3]).unwrap().len(), 0);
}

#[test]
fn a_whole_frame_that_holds_no_record_is_corrupt() {
    // The record is shorter than its header.
    assert_eq!(decode_entries(&[2, 0, 0, 0, 1, 1]).err(), Some(StoreError::Corrupt));
    // The kind byte tells no kind.
    let mut unknown = encode_entry(&chunk(ChunkKind::AgentMessage, "x", 1)).unwrap();
    unknown[4] = 77;
    assert_eq!(decode_entries(&unknown).err(), Some(StoreError::Corrupt));
    // The text is not UTF-8.
    let mut broken = encode_entry(&chunk(ChunkKind::AgentMessage, "xy", 1)).unwrap();
    let last = broken.len() - 1;
    broken[last] = 0xFF;
    assert_eq!(decode_entries(&broken).err(), Some(StoreError::Corrupt));
    // A corrupt frame behind a good one spoils the read.
    let mut bytes = encode_entry(&chunk(ChunkKind::AgentMessage, "good", 1)).unwrap();
    bytes.extend_from_slice(&unknown);
    assert_eq!(decode_entries(&bytes).err(), Some(StoreError::Corrupt));
}

#[test]
fn a_record_is_decoded_on_its_own() {
    let frame = encode_entry(&chunk(ChunkKind::AgentThought, "hm", 5)).unwrap();
    let entry = decode_entry(&frame[4..]).unwrap();
    assert_eq!(entry.recorded_at, 5);
    assert_eq!(entry.update.text(), "hm");
    assert_eq!(entry.update.chunk_kind(), Some(ChunkKind::AgentThought));
    assert!(decode_entry(&[]).is_none());
    assert!(decode_entry(&[1, 0, 0, 0, 0, 0, 0, 0, 0, 0x80]).is_none());
}

#[test]
fn export_and_import_round_trip_through_the_store() {
    let mut store = MessageStore::new();
    store.append("a", chunk(ChunkKind::AgentMessage, "one", 1)).unwrap();
    store.append("a", chunk(ChunkKind::UserMessage, "two", 2)).unwrap();
    let bytes = store.export_session("a");
    let mut expected = encode_entry(&chunk(ChunkKind::AgentMessage, "one", 1)).unwrap();
    expected.extend(encode_entry(&chunk(ChunkKind::UserMessage, "two", 2)).unwrap());
    assert_eq!(bytes, expected);

    let mut other = MessageStore::new();
    other.append("a", chunk(ChunkKind::AgentMessage, "replaced", 0)).unwrap();
    assert_eq!(other.import_session("a", &bytes), Ok(2));
    assert_eq!(texts(&other.load_messages("a").unwrap()), vec!["one", "two"]);

    let mut small = MessageStore::with_record_limit(10);
    assert_eq!(small.import_session("a", &bytes), Err(StoreError::RecordTooLarge));
    assert_eq!(small.import_session("a", &[9, 0, 0, 0, 99, 0, 0, 0, 0, 0, 0, 0, 0]), Err(StoreError::Corrupt));
    assert_eq!(small.entry_count("a"), 0);
}

#[test]
fn a_partition_is_named_by_the_session_id() {
    assert_eq!(partition_name("test-merge-basic"), "test-merge-basic.log");
    assert_eq!(partition_name("Session_42"), "Session_42.log");
    assert_eq!(partition_name(""), ".log");
    assert_eq!(partition_name("a/b"), "a%2Fb.log");
    assert_eq!(partition_name("../etc"), "%2E%2E%2Fetc.log");
    assert_eq!(partition_name("100%"), "100%25.log");
    assert_eq!(partition_name("a b.c"), "a%20b%2Ec.log");
    assert_eq!(partition_name("é"), "%C3%A9.log");
    assert_eq!(partition_name("\u{0}\u{7f}"), "%00%7F.log");
    assert!(is_plain_byte(b'z'));
    assert!(is_plain_byte(b'0'));
    assert!(!is_plain_byte(b'%'));
    assert!(!is_plain_byte(b'.'));
    assert!(!is_plain_byte(0xFF));
}

#[test]
fn different_sessions_have_different_partitions() {
    let ids = ["a", "A", "a%", "a%25", "%61", "a.log", "a/", "a\\", "é", "e", "", " ", "a-b", "a_b"];
    for (i, first) in ids.iter().enumerate() {
        for second in &ids[i + 1..] {
            assert_ne!(partition_name(first), partition_name(second), "{:?} {:?}", first, second);
        }
    }
}
