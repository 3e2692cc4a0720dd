use agentx::flush_scheduler::{FlushScheduler, TimerTicket};
use agentx::merge_policy::{decide, decide_for_kind, Decision};
use agentx::session_buffer::SessionBufferState;
use agentx::update::{ChunkKind, EventKind, Update};

fn buffer_of(kind: ChunkKind, text: &str) -> SessionBufferState {
    let mut buffer = SessionBufferState::new("s");
    assert!(buffer.append(kind, text));
    buffer
}

#[test]
fn a_non_chunk_update_seals_and_is_written_directly() {
    let event = Update::event(EventKind::ToolCall, "{}");
    assert_eq!(decide(None, &event), Decision::SealThenWriteDirect);
    let buffer = buffer_of(ChunkKind::AgentMessage, "a");
    assert_eq!(decide(Some(&buffer), &event), Decision::SealThenWriteDirect);
}

#[test]
fn a_chunk_without_a_buffer_starts_one() {
    let chunk = Update::chunk(ChunkKind::UserMessage, "hi");
    assert_eq!(decide(None, &chunk), Decision::AppendToBuffer);
    let empty = SessionBufferState::new("s");
    assert_eq!(decide(Some(&empty), &chunk), Decision::AppendToBuffer);
}

#[test]
fn a_chunk_of_the_buffered_kind_is_appended() {
    let buffer = buffer_of(ChunkKind::AgentThought, "a");
    let chunk = Update::chunk(ChunkKind::AgentThought, "b");
    assert_eq!(decide(Some(&buffer), &chunk), Decision::AppendToBuffer);
}

#[test]
fn a_chunk_of_another_kind_seals_then_buffers() {
    let buffer = buffer_of(ChunkKind::AgentMessage, "a");
    let chunk = Update::chunk(ChunkKind::UserMessage, "b");
    assert_eq!(decide(Some(&buffer), &chunk), Decision::SealThenBuffer);
}

#[test]
fn the_decision_table_over_all_kinds() {
    let kinds = [ChunkKind::UserMessage, ChunkKind::AgentMessage, ChunkKind::AgentThought];
    for pending in kinds {
        for incoming in kinds {
            let expected = if pending == incoming {
                Decision::AppendToBuffer
            } else {
                Decision::SealThenBuffer
            };
            assert_eq!(decide_for_kind(Some(pending), &Update::chunk(incoming, "x")), expected);
        }
        assert_eq!(
            decide_for_kind(Some(pending), &Update::event(EventKind::Plan, "")),
            Decision::SealThenWriteDirect
        );
        assert_eq!(decide_for_kind(None, &Update::chunk(pending, "x")), Decision::AppendToBuffer);
    }
}

#[test]
fn a_buffer_joins_fragments_and_refuses_another_kind() {
    let mut buffer = SessionBufferState::new("session-1");
    assert_eq!(buffer.session_id(), "session-1");
    assert_eq!(buffer.pending_kind(), None);
    assert_eq!(buffer.accumulated_text(), "");
    assert!(buffer.append(ChunkKind::AgentMessage, "Hello, "));
    assert!(buffer.append(ChunkKind::AgentMessage, "world"));
    assert!(!buffer.append(ChunkKind::UserMessage, "ignored"));
    assert_eq!(buffer.pending_kind(), Some(ChunkKind::AgentMessage));
    assert_eq!(buffer.accumulated_text(), "Hello, world");
    buffer.set_timer(TimerTicket { generation: 7, deadline: 99 });
    assert_eq!(buffer.timer_generation(), 7);
    assert_eq!(buffer.timer(), TimerTicket { generation: 7, deadline: 99 });
    let entry = buffer.seal(1234).unwrap();
    assert_eq!(entry.recorded_at, 1234);
    match entry.update {
        Update::Chunk { kind, text } => {
            assert_eq!(kind, ChunkKind::AgentMessage);
            assert_eq!(text, "Hello, world");
        }
        Update::Event { .. } => panic!("Expected a chunk"),
    }
}

#[test]
fn an_empty_buffer_seals_to_nothing() {
    assert!(SessionBufferState::new("s").seal(5).is_none());
}

#[test]
fn the_scheduler_issues_rising_generations_and_capped_deadlines() {
    let mut scheduler = FlushScheduler::new(50);
    assert_eq!(scheduler.timeout_ms(), 50);
    assert_eq!(scheduler.last_generation(), 0);
    let first = scheduler.arm(1_000);
    assert_eq!(first, TimerTicket { generation: 1, deadline: 1_050 });
    let second = scheduler.arm(1_010);
    assert_eq!(second, TimerTicket { generation: 2, deadline: 1_060 });
    assert_eq!(scheduler.last_generation(), 2);
    let capped = scheduler.arm(u64::MAX - 10);
    assert_eq!(capped, TimerTicket { generation: 3, deadline: u64::MAX });
    assert!(!first.is_due(1_049));
    assert!(first.is_due(1_050));
    assert!(first.matches(1));
    assert!(!first.matches(2));
}

#[test]
fn update_accessors() {
    let chunk = Update::chunk(ChunkKind::AgentMessage, "text");
    assert!(chunk.is_chunk());
    assert_eq!(chunk.chunk_kind(), Some(ChunkKind::AgentMessage));
    assert_eq!(chunk.text(), "text");
    let event = Update::event(EventKind::Plan, "body");
    assert!(!event.is_chunk());
    assert_eq!(event.chunk_kind(), None);
    assert_eq!(event.text(), "body");
    let copy = event.clone();
    assert_eq!(format!("{:?}", copy), format!("{:?}", event));
}
