use std::sync::{Arc, Mutex};

use agentx::code_selection_bus::{AddCodeSelection, CodeSelectionBus, CodeSelectionEvent};

fn selection(file_path: &str, start_line: u32, end_line: u32) -> CodeSelectionEvent {
    CodeSelectionEvent {
        selection: AddCodeSelection {
            file_path: file_path.to_string(),
            start_line,
            start_column: 1,
            end_line,
            end_column: 1,
            content: "test content".to_string(),
        },
    }
}

#[test]
fn test_publish_subscribe() {
    let mut bus = CodeSelectionBus::new();
    let received = Arc::new(Mutex::new(Vec::new()));
    let received_clone = received.clone();

    bus.subscribe(move |event: &CodeSelectionEvent| {
        received_clone
            .lock()
            .unwrap()
            .push(event.selection.file_path.clone());
    });

    bus.publish(CodeSelectionEvent {
        selection: AddCodeSelection {
            file_path: "test.rs".to_string(),
            start_line: 1,
            start_column: 1,
            end_line: 10,
            end_column: 1,
            content: "test content".to_string(),
        },
    });

    assert_eq!(received.lock().unwrap().len(), 1);
}

#[test]
fn publish_hands_the_event_to_the_subscriber() {
    let mut bus = CodeSelectionBus::new();
    let received = Arc::new(Mutex::new(Vec::new()));
    let sink = received.clone();
    bus.subscribe(move |event: &CodeSelectionEvent| {
        sink.lock().unwrap().push((
            event.selection.file_path.clone(),
            event.selection.start_line,
            event.selection.end_line,
        ));
    });
    bus.publish(selection("a.rs", 3, 7));
    bus.publish(selection("b.rs", 1, 1));
    assert_eq!(
        *received.lock().unwrap(),
        vec![("a.rs".to_string(), 3, 7), ("b.rs".to_string(), 1, 1)]
    );
}

#[test]
fn publish_without_subscribers_does_nothing() {
    let bus: CodeSelectionBus<fn(&CodeSelectionEvent)> = CodeSelectionBus::new();
    assert_eq!(bus.subscriber_count(), 0);
    bus.publish(selection("a.rs", 1, 2));
}

#[test]
fn subscribers_are_called_in_the_order_they_subscribed() {
    let order = Arc::new(Mutex::new(Vec::new()));
    let mut bus: CodeSelectionBus<Box<dyn Fn(&CodeSelectionEvent) + Send + Sync>> =
        CodeSelectionBus::new();
    for name in ["first", "second", "third"] {
        let sink = order.clone();
        bus.subscribe(Box::new(move |_event: &CodeSelectionEvent| {
            sink.lock().unwrap().push(name);
        }));
    }
    assert_eq!(bus.subscriber_count(), 3);
    bus.publish(selection("a.rs", 1, 2));
    assert_eq!(*order.lock().unwrap(), vec!["first", "second", "third"]);
}
