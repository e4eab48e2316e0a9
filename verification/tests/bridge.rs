use nca::bridge::{BridgeAction, BridgeEvent, EventFanout};
use nca::ipc::OneLine;

fn serialized(text: &str) -> BridgeEvent {
    BridgeEvent::Serialized(Ok(OneLine::new(text.to_string()).unwrap()))
}

#[test]
fn events_are_numbered_from_one() {
    let mut fanout = EventFanout::new(true, true, true);
    assert_eq!(fanout.events(), 0);
    assert!(matches!(fanout.advance(BridgeEvent::Received), BridgeAction::Envelope { id: 1 }));
    fanout.advance(serialized("{}"));
    fanout.advance(BridgeEvent::Applied { before: 0, after: 1 });
    assert!(matches!(fanout.advance(BridgeEvent::Received), BridgeAction::Envelope { id: 2 }));
    assert_eq!(fanout.events(), 2);
}

#[test]
fn a_line_goes_to_ipc_and_to_the_log() {
    let mut fanout = EventFanout::new(true, true, false);
    match fanout.advance(serialized("{}")) {
        BridgeAction::Deliver { ipc_line, log_bytes } => {
            assert_eq!(ipc_line.as_ref().map(|l| l.as_str()), Some("{}"));
            assert_eq!(log_bytes.as_deref(), Some(b"{}\n".as_slice()));
        }
        other => panic!("{other:?}"),
    }
}

#[test]
fn an_event_without_text_is_an_empty_line_for_ipc_alone() {
    let mut fanout = EventFanout::new(true, true, false);
    match fanout.advance(BridgeEvent::Serialized(Err("bad".to_string()))) {
        BridgeAction::Deliver { ipc_line, log_bytes } => {
            assert_eq!(ipc_line.as_ref().map(|l| l.as_str()), Some(""));
            assert_eq!(log_bytes, None);
        }
        other => panic!("{other:?}"),
    }
}

#[test]
fn the_log_gains_lines_in_order() {
    let mut fanout = EventFanout::new(true, true, false);
    let mut log: Vec<u8> = Vec::new();
    let mut lines: Vec<String> = Vec::new();
    let events =
        [serialized("one"), BridgeEvent::Serialized(Err("bad".to_string())), serialized("two")];
    for event in events {
        fanout.advance(BridgeEvent::Received);
        match fanout.advance(event) {
            BridgeAction::Deliver { ipc_line, log_bytes } => {
                lines.extend(ipc_line.map(|l| l.as_str().to_string()));
                log.extend(log_bytes.unwrap_or_default());
            }
            other => panic!("{other:?}"),
        }
    }
    assert_eq!(log, b"one\ntwo\n");
    assert_eq!(lines, vec!["one", "", "two"]);
}

#[test]
fn nothing_is_delivered_where_nobody_takes_it() {
    let mut fanout = EventFanout::new(false, false, false);
    assert!(!fanout.consumes_commands());
    match fanout.advance(serialized("{}")) {
        BridgeAction::Deliver { ipc_line, log_bytes } => {
            assert!(ipc_line.is_none());
            assert_eq!(log_bytes, None);
        }
        other => panic!("{other:?}"),
    }
}

#[test]
fn the_watcher_hears_changes() {
    let mut fanout = EventFanout::new(true, false, true);
    assert!(fanout.consumes_commands());
    assert!(matches!(
        fanout.advance(BridgeEvent::Applied { before: 4, after: 5 }),
        BridgeAction::Notify { version: Some(5) }
    ));
    assert!(matches!(
        fanout.advance(BridgeEvent::Applied { before: 5, after: 5 }),
        BridgeAction::Notify { version: None }
    ));
    let mut unwatched = EventFanout::new(true, false, false);
    assert!(matches!(
        unwatched.advance(BridgeEvent::Applied { before: 4, after: 5 }),
        BridgeAction::Notify { version: None }
    ));
}

#[test]
fn the_bridge_stops_with_the_events() {
    let mut fanout = EventFanout::new(true, true, true);
    assert!(matches!(fanout.advance(BridgeEvent::Closed), BridgeAction::Stop));
}
