use agentx::message_store::StoreError;
use agentx::persistence_service::PersistenceService;
use agentx::service_model::{PersistError, TimerOutcome};
use agentx::update::{ChunkKind, EventKind, MessageLogEntry, Update};

/// The kind and text of a chunk entry.
fn chunk_of(entry: &MessageLogEntry) -> (ChunkKind, String) {
    match &entry.update {
        Update::Chunk { kind, text } => (*kind, text.clone()),
        Update::Event { .. } => panic!("Expected a chunk"),
    }
}

#[test]
fn test_chunk_merging_basic() {
    let mut service = PersistenceService::with_buffer_timeout(50);

    let session_id = "test-merge-basic";
    let start: u64 = 1_000;

    // Send 5 consecutive agent message chunks
    for i in 0..5u64 {
        let update = Update::chunk(ChunkKind::AgentMessage, &format!("Chunk{} ", i));
        service.save_update(session_id, update, start + i).unwrap();
    }

    // Wait for buffer to flush: 100 ms after the last chunk its timer is due
    service.flush_due(start + 4 + 100).unwrap();

    // Load messages
    let messages = service.load_messages(session_id).unwrap();

    // Should have 1 merged message instead of 5
    assert_eq!(messages.len(), 1, "Expected 1 merged message");

    // Verify merged content
    if let Update::Chunk { kind: ChunkKind::AgentMessage, text } = &messages[0].update {
        assert_eq!(text, "Chunk0 Chunk1 Chunk2 Chunk3 Chunk4 ", "Text should be merged");
    } else {
        panic!("Expected AgentMessageChunk");
    }
}

#[test]
fn test_chunk_type_change_flushes_buffer() {
    let mut service = PersistenceService::with_buffer_timeout(50);

    let session_id = "test-type-change";
    let start: u64 = 1_000;

    // Send 3 agent chunks
    for i in 0..3u64 {
        let update = Update::chunk(ChunkKind::AgentMessage, &format!("Agent{} ", i));
        service.save_update(session_id, update, start + i).unwrap();
    }

    // Send a user chunk (different type, should flush agent buffer)
    service
        .save_update(session_id, Update::chunk(ChunkKind::UserMessage, "User message"), start + 3)
        .unwrap();

    // Wait for buffers to flush
    service.flush_due(start + 3 + 100).unwrap();

    // Load messages
    let messages = service.load_messages(session_id).unwrap();

    // Should have 2 messages: 1 merged agent, 1 user
    assert_eq!(messages.len(), 2, "Expected 2 messages");

    // Verify first message (merged agent chunks)
    assert_eq!(
        chunk_of(&messages[0]),
        (ChunkKind::AgentMessage, "Agent0 Agent1 Agent2 ".to_string())
    );

    // Verify second message (user chunk)
    assert_eq!(chunk_of(&messages[1]), (ChunkKind::UserMessage, "User message".to_string()));
}

#[test]
fn test_non_chunk_message_flushes_buffer() {
    let mut service = PersistenceService::with_buffer_timeout(50);

    let session_id = "test-non-chunk";
    let start: u64 = 1_000;

    // Send 3 agent chunks
    for i in 0..3u64 {
        let update = Update::chunk(ChunkKind::AgentMessage, &format!("Agent{} ", i));
        service.save_update(session_id, update, start + i).unwrap();
    }

    // Send a non-chunk message (should flush buffer immediately)
    service
        .save_update(
            session_id,
            Update::event(EventKind::MessageComplete, "{\"is_error\":false}"),
            start + 3,
        )
        .unwrap();

    // No need to wait for timeout - should be flushed immediately

    // Load messages
    let messages = service.load_messages(session_id).unwrap();

    // Should have 2 messages: 1 merged agent chunks, 1 complete message
    assert_eq!(messages.len(), 2, "Expected 2 messages");
    assert_eq!(
        chunk_of(&messages[0]),
        (ChunkKind::AgentMessage, "Agent0 Agent1 Agent2 ".to_string())
    );
    match &messages[1].update {
        Update::Event { event, body } => {
            assert_eq!(*event, EventKind::MessageComplete);
            assert_eq!(body, "{\"is_error\":false}");
        }
        Update::Chunk { .. } => panic!("Expected the completion marker"),
    }
    assert!(!service.has_buffer(session_id));
}

#[test]
fn test_explicit_flush_session() {
    // Long timeout to test explicit flush
    let mut service = PersistenceService::with_buffer_timeout(10_000);

    let session_id = "test-explicit-flush";
    let start: u64 = 1_000;

    // Send 3 chunks
    for i in 0..3u64 {
        let update = Update::chunk(ChunkKind::AgentMessage, &format!("Chunk{} ", i));
        service.save_update(session_id, update, start + i).unwrap();
    }

    // Explicitly flush without waiting for timeout
    service.flush_session(session_id, start + 3).unwrap();

    // Load messages
    let messages = service.load_messages(session_id).unwrap();

    // Should have 1 merged message
    assert_eq!(messages.len(), 1, "Expected 1 merged message");
    assert_eq!(
        chunk_of(&messages[0]),
        (ChunkKind::AgentMessage, "Chunk0 Chunk1 Chunk2 ".to_string())
    );
}

#[test]
fn test_flush_all_multiple_sessions() {
    // Long timeout to test explicit flush
    let mut service = PersistenceService::with_buffer_timeout(10_000);
    let start: u64 = 1_000;

    // Create 3 sessions with buffered chunks
    for session_num in 0..3 {
        let session_id = format!("test-flush-all-{}", session_num);

        for i in 0..3u64 {
            let update = Update::chunk(ChunkKind::AgentMessage, &format!("Chunk{} ", i));
            service.save_update(&session_id, update, start + i).unwrap();
        }
    }

    // Flush all sessions at once
    service.flush_all(start + 3).unwrap();

    // Verify all sessions have 1 merged message each
    for session_num in 0..3 {
        let session_id = format!("test-flush-all-{}", session_num);
        let messages = service.load_messages(&session_id).unwrap();
        assert_eq!(messages.len(), 1, "Expected 1 merged message per session");
    }
}

#[test]
fn test_mixed_message_types() {
    let mut service = PersistenceService::with_buffer_timeout(50);

    let session_id = "test-mixed-types";
    let mut now: u64 = 1_000;

    // Agent chunks
    for i in 0..3 {
        let update = Update::chunk(ChunkKind::AgentMessage, &format!("Agent{} ", i));
        service.save_update(session_id, update, now).unwrap();
        now += 1;
    }

    // User chunks
    for i in 0..2 {
        let update = Update::chunk(ChunkKind::UserMessage, &format!("User{} ", i));
        service.save_update(session_id, update, now).unwrap();
        now += 1;
    }

    // Thought chunks
    for i in 0..2 {
        let update = Update::chunk(ChunkKind::AgentThought, &format!("Thought{} ", i));
        service.save_update(session_id, update, now).unwrap();
        now += 1;
    }

    // Wait for buffers to flush
    service.flush_due(now + 100).unwrap();

    // Load messages
    let messages = service.load_messages(session_id).unwrap();

    // Should have 3 messages: 1 agent (merged), 1 user (merged), 1 thought (merged)
    assert_eq!(messages.len(), 3, "Expected 3 merged messages");
    assert_eq!(
        chunk_of(&messages[0]),
        (ChunkKind::AgentMessage, "Agent0 Agent1 Agent2 ".to_string())
    );
    assert_eq!(chunk_of(&messages[1]), (ChunkKind::UserMessage, "User0 User1 ".to_string()));
    assert_eq!(
        chunk_of(&messages[2]),
        (ChunkKind::AgentThought, "Thought0 Thought1 ".to_string())
    );
}

#[test]
fn test_rapid_chunk_arrival() {
    let mut service = PersistenceService::with_buffer_timeout(100);

    let session_id = "test-rapid-arrival";
    let start: u64 = 1_000;

    // Simulate rapid streaming (100 chunks)
    for i in 0..100u64 {
        let update = Update::chunk(ChunkKind::AgentMessage, &format!("{}", i % 10));
        service.save_update(session_id, update, start + i).unwrap();
    }

    // Wait for buffer to flush
    service.flush_due(start + 99 + 150).unwrap();

    // Load messages
    let messages = service.load_messages(session_id).unwrap();

    // Should have significantly fewer messages than 100
    assert!(
        messages.len() < 10,
        "Expected fewer than 10 messages due to merging, got {}",
        messages.len()
    );

    // Verify total content length
    let mut total_content = String::new();
    for msg in &messages {
        if let Update::Chunk { kind: ChunkKind::AgentMessage, text } = &msg.update {
            total_content.push_str(text);
        }
    }

    // Should contain all 100 digits
    assert_eq!(total_content.len(), 100, "Total content length should be 100");
    let expected: String = (0..100).map(|i| format!("{}", i % 10)).collect();
    assert_eq!(total_content, expected);
}

#[test]
fn rapid_chunks_with_timers_firing_between_keep_every_digit_in_order() {
    let mut service = PersistenceService::with_buffer_timeout(100);
    let session_id = "rapid-with-pauses";
    let mut now: u64 = 0;
    for i in 0..100u64 {
        // Every 25th chunk comes after a pause longer than the timeout.
        now += if i % 25 == 24 { 500 } else { 1 };
        service.flush_due(now).unwrap();
        service
            .save_update(session_id, Update::chunk(ChunkKind::AgentMessage, &format!("{}", i % 10)), now)
            .unwrap();
    }
    service.flush_due(now + 150).unwrap();
    let messages = service.load_messages(session_id).unwrap();
    assert_eq!(messages.len(), 5);
    let joined: String = messages.iter().map(|m| chunk_of(m).1).collect();
    let expected: String = (0..100).map(|i| format!("{}", i % 10)).collect();
    assert_eq!(joined, expected);
}

#[test]
fn buffered_content_is_not_read_before_it_is_sealed() {
    let mut service = PersistenceService::with_buffer_timeout(50);
    service.save_update("s", Update::chunk(ChunkKind::AgentMessage, "pending"), 10).unwrap();
    assert!(service.has_buffer("s"));
    assert_eq!(service.load_messages("s").unwrap().len(), 0);
    // The timer is not due yet.
    service.flush_due(59).unwrap();
    assert_eq!(service.load_messages("s").unwrap().len(), 0);
    // Now it is.
    service.flush_due(60).unwrap();
    let messages = service.load_messages("s").unwrap();
    assert_eq!(messages.len(), 1);
    assert_eq!(chunk_of(&messages[0]), (ChunkKind::AgentMessage, "pending".to_string()));
    assert_eq!(messages[0].recorded_at, 60);
    assert!(!service.has_buffer("s"));
}

#[test]
fn load_messages_twice_returns_identical_sequences() {
    let mut service = PersistenceService::with_buffer_timeout(50);
    service.save_update("s", Update::chunk(ChunkKind::AgentMessage, "a"), 1).unwrap();
    service.save_update("s", Update::event(EventKind::Plan, "{}"), 2).unwrap();
    service.save_update("s", Update::chunk(ChunkKind::UserMessage, "b"), 3).unwrap();
    let first = service.load_messages("s").unwrap();
    let second = service.load_messages("s").unwrap();
    assert_eq!(format!("{:?}", first), format!("{:?}", second));
    assert_eq!(first.len(), 2);
}

#[test]
fn a_session_never_written_to_has_the_empty_log() {
    let service = PersistenceService::new();
    assert_eq!(service.buffer_timeout_ms(), 2000);
    assert_eq!(service.load_messages("nobody").unwrap().len(), 0);
    assert_eq!(service.next_deadline(), None);
    assert!(service.open_sessions().is_empty());
}

#[test]
fn an_empty_session_id_is_refused() {
    let mut service = PersistenceService::with_buffer_timeout(50);
    assert_eq!(
        service.save_update("", Update::chunk(ChunkKind::AgentMessage, "x"), 1),
        Err(PersistError::InvalidSessionId)
    );
    assert_eq!(service.flush_session("", 1), Err(PersistError::InvalidSessionId));
    assert_eq!(service.load_messages("").err(), Some(PersistError::InvalidSessionId));
    assert_eq!(service.export_session("").err(), Some(PersistError::InvalidSessionId));
    assert_eq!(service.restore_session("", &[]), Err(PersistError::InvalidSessionId));
    assert!(service.open_sessions().is_empty());
}

#[test]
fn flush_session_without_a_buffer_is_a_no_op() {
    let mut service = PersistenceService::with_buffer_timeout(50);
    assert_eq!(service.flush_session("quiet", 5), Ok(()));
    assert_eq!(service.load_messages("quiet").unwrap().len(), 0);
}

#[test]
fn fragments_are_joined_without_separators() {
    let mut service = PersistenceService::with_buffer_timeout(50);
    for text in ["a", "", " b\n", "c"] {
        service.save_update("s", Update::chunk(ChunkKind::AgentThought, text), 1).unwrap();
    }
    service.flush_session("s", 2).unwrap();
    let messages = service.load_messages("s").unwrap();
    assert_eq!(messages.len(), 1);
    assert_eq!(chunk_of(&messages[0]), (ChunkKind::AgentThought, "a b\nc".to_string()));
}

#[test]
fn a_stale_timer_is_ignored() {
    let mut service = PersistenceService::with_buffer_timeout(50);
    service.save_update("s", Update::chunk(ChunkKind::AgentMessage, "a"), 100).unwrap();
    let first = service.pending_timer("s").unwrap();
    assert_eq!(first.generation, 1);
    assert_eq!(first.deadline, 150);
    service.save_update("s", Update::chunk(ChunkKind::AgentMessage, "b"), 120).unwrap();
    let second = service.pending_timer("s").unwrap();
    assert_eq!(second.generation, 2);
    assert_eq!(second.deadline, 170);
    assert_eq!(service.next_deadline(), Some(170));

    // The first timer fires although it was re-armed: nothing happens.
    assert_eq!(service.on_timer("s", first.generation, 150), TimerOutcome::Ignored);
    assert!(service.has_buffer("s"));
    assert_eq!(service.load_messages("s").unwrap().len(), 0);

    // The current timer seals the buffer.
    assert_eq!(service.on_timer("s", second.generation, 170), TimerOutcome::Sealed);
    assert!(!service.has_buffer("s"));
    let messages = service.load_messages("s").unwrap();
    assert_eq!(messages.len(), 1);
    assert_eq!(chunk_of(&messages[0]), (ChunkKind::AgentMessage, "ab".to_string()));

    // Fired once more after the seal, it is ignored again.
    assert_eq!(service.on_timer("s", second.generation, 171), TimerOutcome::Ignored);
    assert_eq!(service.load_messages("s").unwrap().len(), 1);
}

#[test]
fn a_timer_of_an_earlier_buffer_does_not_seal_the_next_one() {
    let mut service = PersistenceService::with_buffer_timeout(50);
    service.save_update("s", Update::chunk(ChunkKind::AgentMessage, "a"), 100).unwrap();
    let old = service.pending_timer("s").unwrap();
    service.flush_session("s", 110).unwrap();
    service.save_update("s", Update::chunk(ChunkKind::AgentMessage, "b"), 120).unwrap();
    assert_eq!(service.on_timer("s", old.generation, 150), TimerOutcome::Ignored);
    assert!(service.has_buffer("s"));
    assert_eq!(service.load_messages("s").unwrap().len(), 1);
}

#[test]
fn the_deadline_is_capped_at_the_largest_time() {
    let mut service = PersistenceService::with_buffer_timeout(u64::MAX);
    service.save_update("s", Update::chunk(ChunkKind::AgentMessage, "a"), 5).unwrap();
    assert_eq!(service.pending_timer("s").unwrap().deadline, u64::MAX);
    service.flush_due(u64::MAX - 1).unwrap();
    assert!(service.has_buffer("s"));
}

#[test]
fn flush_due_seals_only_the_sessions_whose_timer_is_due() {
    let mut service = PersistenceService::with_buffer_timeout(100);
    service.save_update("early", Update::chunk(ChunkKind::AgentMessage, "e"), 0).unwrap();
    service.save_update("late", Update::chunk(ChunkKind::AgentMessage, "l"), 50).unwrap();
    let mut open = service.open_sessions();
    open.sort();
    assert_eq!(open, vec!["early".to_string(), "late".to_string()]);
    assert_eq!(service.next_deadline(), Some(100));
    service.flush_due(120).unwrap();
    assert!(!service.has_buffer("early"));
    assert!(service.has_buffer("late"));
    assert_eq!(service.load_messages("early").unwrap().len(), 1);
    assert_eq!(service.load_messages("late").unwrap().len(), 0);
    assert_eq!(service.next_deadline(), Some(150));
}

#[test]
fn flush_all_gives_each_session_only_its_own_content() {
    let mut service = PersistenceService::with_buffer_timeout(10_000);
    for session_num in 0..3 {
        let session_id = format!("iso-{}", session_num);
        for i in 0..3 {
            let text = format!("s{}c{} ", session_num, i);
            service.save_update(&session_id, Update::chunk(ChunkKind::AgentMessage, &text), 7).unwrap();
        }
    }
    service.flush_all(9).unwrap();
    assert!(service.open_sessions().is_empty());
    for session_num in 0..3 {
        let session_id = format!("iso-{}", session_num);
        let messages = service.load_messages(&session_id).unwrap();
        assert_eq!(messages.len(), 1);
        let expected = format!("s{0}c0 s{0}c1 s{0}c2 ", session_num);
        assert_eq!(chunk_of(&messages[0]), (ChunkKind::AgentMessage, expected));
        assert_eq!(messages[0].recorded_at, 9);
    }
}

#[test]
fn a_record_over_the_limit_is_refused_and_the_buffer_is_gone() {
    // Nine bytes of header and up to six of text.
    let mut service = PersistenceService::with_limits(50, 15);
    service.save_update("s", Update::chunk(ChunkKind::AgentMessage, "1234"), 1).unwrap();
    service.save_update("s", Update::chunk(ChunkKind::AgentMessage, "567"), 2).unwrap();
    assert_eq!(
        service.flush_session("s", 3),
        Err(PersistError::Store(StoreError::RecordTooLarge))
    );
    assert!(!service.has_buffer("s"));
    assert_eq!(service.load_messages("s").unwrap().len(), 0);

    // A non-chunk update that is too long is refused at once.
    assert_eq!(
        service.save_update("s", Update::event(EventKind::Plan, "1234567"), 4),
        Err(PersistError::Store(StoreError::RecordTooLarge))
    );
    assert_eq!(service.save_update("s", Update::event(EventKind::Plan, "123456"), 5), Ok(()));
    assert_eq!(service.load_messages("s").unwrap().len(), 1);
}

#[test]
fn a_refused_seal_keeps_the_incoming_update_out() {
    let mut service = PersistenceService::with_limits(50, 12);
    service.save_update("s", Update::chunk(ChunkKind::AgentMessage, "12"), 1).unwrap();
    service.save_update("s", Update::chunk(ChunkKind::AgentMessage, "34"), 2).unwrap();
    assert_eq!(
        service.save_update("s", Update::chunk(ChunkKind::UserMessage, "u"), 3),
        Err(PersistError::Store(StoreError::RecordTooLarge))
    );
    assert!(!service.has_buffer("s"));
    assert_eq!(service.load_messages("s").unwrap().len(), 0);
}

#[test]
fn a_timer_whose_seal_is_refused_clears_the_buffer() {
    let mut service = PersistenceService::with_limits(50, 10);
    service.save_update("s", Update::chunk(ChunkKind::AgentMessage, "ab"), 1).unwrap();
    let ticket = service.pending_timer("s").unwrap();
    assert_eq!(
        service.on_timer("s", ticket.generation, 60),
        TimerOutcome::SealFailed(StoreError::RecordTooLarge)
    );
    assert!(!service.has_buffer("s"));
    assert_eq!(service.load_messages("s").unwrap().len(), 0);
}

#[test]
fn flush_all_reports_a_refused_session_and_seals_the_others() {
    let mut service = PersistenceService::with_limits(50, 11);
    service.save_update("fits", Update::chunk(ChunkKind::AgentMessage, "ab"), 1).unwrap();
    service.save_update("too-long", Update::chunk(ChunkKind::AgentMessage, "abc"), 1).unwrap();
    assert_eq!(service.flush_all(2), Err(PersistError::Store(StoreError::RecordTooLarge)));
    assert_eq!(service.load_messages("fits").unwrap().len(), 1);
    assert_eq!(service.load_messages("too-long").unwrap().len(), 0);
    assert!(service.open_sessions().is_empty());
}

#[test]
fn export_and_restore_carry_a_log_to_another_service() {
    let mut service = PersistenceService::with_buffer_timeout(50);
    service.save_update("s", Update::chunk(ChunkKind::AgentMessage, "héllo "), 1).unwrap();
    service.save_update("s", Update::chunk(ChunkKind::AgentMessage, "wörld"), 2).unwrap();
    service.save_update("s", Update::event(EventKind::ToolCall, "{\"id\":1}"), 3).unwrap();
    service.save_update("s", Update::chunk(ChunkKind::UserMessage, "buffered"), 4).unwrap();
    let bytes = service.export_session("s").unwrap();

    let mut other = PersistenceService::with_buffer_timeout(50);
    assert_eq!(other.restore_session("s", &bytes), Ok(2));
    let messages = other.load_messages("s").unwrap();
    assert_eq!(messages.len(), 2);
    assert_eq!(chunk_of(&messages[0]), (ChunkKind::AgentMessage, "héllo wörld".to_string()));
    assert_eq!(messages[0].recorded_at, 3);
    match &messages[1].update {
        Update::Event { event, body } => {
            assert_eq!(*event, EventKind::ToolCall);
            assert_eq!(body, "{\"id\":1}");
        }
        Update::Chunk { .. } => panic!("Expected the tool call"),
    }
    assert_eq!(other.export_session("s").unwrap(), bytes);
    assert_eq!(other.load_messages("other").unwrap().len(), 0);
}

#[test]
fn restore_refuses_corrupt_bytes_and_changes_nothing() {
    let mut service = PersistenceService::with_buffer_timeout(50);
    service.save_update("s", Update::event(EventKind::Plan, "kept"), 1).unwrap();
    // A whole frame of nine bytes whose kind byte tells no kind.
    let mut bytes = vec![9u8, 0, 0, 0];
    bytes.extend_from_slice(&[200, 0, 0, 0, 0, 0, 0, 0, 0]);
    assert_eq!(
        service.restore_session("s", &bytes),
        Err(PersistError::Store(StoreError::Corrupt))
    );
    assert_eq!(service.load_messages("s").unwrap().len(), 1);
}

#[test]
fn restore_refuses_an_entry_over_the_record_limit() {
    let mut source = PersistenceService::with_buffer_timeout(50);
    source.save_update("s", Update::event(EventKind::Plan, "0123456789"), 1).unwrap();
    let bytes = source.export_session("s").unwrap();
    let mut small = PersistenceService::with_limits(50, 12);
    assert_eq!(
        small.restore_session("s", &bytes),
        Err(PersistError::Store(StoreError::RecordTooLarge))
    );
    assert_eq!(small.load_messages("s").unwrap().len(), 0);
}

#[test]
fn what_is_exported_from_a_place_continues_the_stored_log() {
    let mut service = PersistenceService::with_buffer_timeout(50);
    service.save_update("s", Update::event(EventKind::Plan, "one"), 1).unwrap();
    let stored = service.export_session("s").unwrap();
    assert_eq!(service.entry_count("s"), 1);
    service.save_update("s", Update::event(EventKind::Plan, "two"), 2).unwrap();
    service.save_update("s", Update::event(EventKind::Plan, "three"), 3).unwrap();
    assert_eq!(service.entry_count("s"), 3);
    let mut continued = stored.clone();
    continued.extend(service.export_session_from("s", 1).unwrap());
    assert_eq!(continued, service.export_session("s").unwrap());
    assert_eq!(service.export_session_from("s", 3).unwrap(), Vec::<u8>::new());
    assert_eq!(service.export_session_from("s", 99).unwrap(), Vec::<u8>::new());
    assert_eq!(service.export_session_from("s", 0).unwrap(), service.export_session("s").unwrap());
    assert_eq!(service.export_session_from("", 0).err(), Some(PersistError::InvalidSessionId));
    assert_eq!(service.entry_count("unknown"), 0);
}

#[test]
fn restore_leaves_a_torn_last_frame_unread() {
    let mut source = PersistenceService::with_buffer_timeout(50);
    source.save_update("s", Update::event(EventKind::Plan, "whole"), 1).unwrap();
    let whole = source.export_session("s").unwrap();
    source.save_update("s", Update::event(EventKind::Plan, "torn"), 2).unwrap();
    let both = source.export_session("s").unwrap();
    for written in whole.len()..both.len() {
        let mut service = PersistenceService::with_buffer_timeout(50);
        assert_eq!(service.restore_session("s", &both[..written]), Ok(1));
        assert_eq!(service.export_session("s").unwrap(), whole);
    }
    let mut service = PersistenceService::with_buffer_timeout(50);
    assert_eq!(service.restore_session("s", &both), Ok(2));
}

#[test]
fn restore_does_not_touch_the_open_buffer() {
    let mut service = PersistenceService::with_buffer_timeout(50);
    service.save_update("s", Update::chunk(ChunkKind::AgentMessage, "open"), 1).unwrap();
    assert_eq!(service.restore_session("s", &[]), Ok(0));
    assert!(service.has_buffer("s"));
    service.flush_session("s", 2).unwrap();
    let messages = service.load_messages("s").unwrap();
    assert_eq!(messages.len(), 1);
    assert_eq!(chunk_of(&messages[0]), (ChunkKind::AgentMessage, "open".to_string()));
}
