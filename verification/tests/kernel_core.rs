use linux2rest::kernel::{KernelMessage, KernelService, RawEntry};
use linux2rest::session::{
    handle_client_message, ClientMessage, ServerReply, Session, SessionState, WebsocketError,
};

fn marker(facility: &str, level: &str, ts: u64, message: &str) -> RawEntry {
    RawEntry {
        facility: Some(facility.to_string()),
        level: Some(level.to_string()),
        timestamp_from_system_start_ns: Some(ts),
        message: message.to_string(),
    }
}

fn continuation(message: &str) -> RawEntry {
    RawEntry {
        facility: None,
        level: None,
        timestamp_from_system_start_ns: None,
        message: message.to_string(),
    }
}

fn texts(entries: &[KernelMessage]) -> Vec<(usize, String)> {
    entries.iter().map(|e| (e.sequence_number, e.message.clone())).collect()
}

#[test]
fn continuation_lines_merge_into_previous_entry() {
    let mut svc = KernelService::new();
    svc.ingest(marker("kern", "info", 10, "first"));
    svc.ingest(continuation("second"));
    svc.ingest(continuation("third"));
    let entries = svc.messages(None, None);
    assert_eq!(entries.len(), 1);
    assert_eq!(entries[0].message, "first\nsecond\nthird");
    assert_eq!(entries[0].sequence_number, 0);
    assert_eq!(entries[0].facility, "kern");
    assert_eq!(entries[0].level, "info");
    assert_eq!(entries[0].timestamp_from_system_start_ns, 10);
}

#[test]
fn sequence_numbers_count_marker_entries() {
    let mut svc = KernelService::new();
    svc.ingest(marker("kern", "info", 1, "a"));
    svc.ingest(marker("user", "warn", 2, "b"));
    svc.ingest(continuation("b tail"));
    svc.ingest(marker("kern", "err", 3, "c"));
    let entries = svc.messages(None, None);
    assert_eq!(
        texts(&entries),
        vec![
            (0, "a".to_string()),
            (1, "b\nb tail".to_string()),
            (2, "c".to_string()),
        ]
    );
    for (i, e) in entries.iter().enumerate() {
        assert_eq!(e.sequence_number, i);
    }
}

#[test]
fn continuation_before_any_marker_is_skipped() {
    let mut svc = KernelService::new();
    svc.ingest(continuation("orphan"));
    assert_eq!(svc.len(), 0);
    svc.ingest(marker("kern", "info", 0, "a"));
    assert_eq!(svc.len(), 1);
    assert_eq!(svc.messages(None, None)[0].sequence_number, 0);
}

#[test]
fn unreported_fields_default_to_empty_and_zero() {
    let mut svc = KernelService::new();
    svc.ingest(RawEntry {
        facility: Some("kern".to_string()),
        level: None,
        timestamp_from_system_start_ns: None,
        message: "m".to_string(),
    });
    let entries = svc.messages(None, None);
    assert_eq!(entries[0].level, "");
    assert_eq!(entries[0].timestamp_from_system_start_ns, 0);
}

#[test]
fn read_is_clipped_to_bounds() {
    let mut svc = KernelService::new();
    for i in 0..5 {
        svc.ingest(marker("kern", "info", i, &format!("m{i}")));
    }
    assert_eq!(svc.len(), 5);
    assert_eq!(svc.messages(Some(0), Some(0)).len(), 0);
    assert_eq!(svc.messages(Some(5), None).len(), 0);
    assert_eq!(svc.messages(Some(99), Some(3)).len(), 0);
    assert_eq!(svc.messages(None, None).len(), 5);
    let tail = svc.messages(Some(3), None);
    assert_eq!(texts(&tail), vec![(3, "m3".to_string()), (4, "m4".to_string())]);
    let window = svc.messages(Some(1), Some(2));
    assert_eq!(texts(&window), vec![(1, "m1".to_string()), (2, "m2".to_string())]);
    let over = svc.messages(Some(4), Some(10));
    assert_eq!(texts(&over), vec![(4, "m4".to_string())]);
}

#[test]
fn snapshot_then_live_entries_exactly_once() {
    let mut svc = KernelService::new();
    svc.ingest(marker("kern", "info", 1, "a"));
    svc.ingest(marker("kern", "info", 2, "b"));
    let (snapshot, id) = svc.connect(16);
    assert_eq!(texts(&snapshot), vec![(0, "a".to_string()), (1, "b".to_string())]);
    svc.ingest(marker("kern", "info", 3, "c"));
    svc.ingest(marker("kern", "info", 4, "d"));
    let live = svc.take_pending(id);
    assert_eq!(texts(&live), vec![(2, "c".to_string()), (3, "d".to_string())]);
    // Nothing is delivered twice.
    assert_eq!(svc.take_pending(id).len(), 0);
}

#[test]
fn merged_continuation_is_rebroadcast_with_same_sequence_number() {
    let mut svc = KernelService::new();
    svc.ingest(marker("kern", "info", 1, "a"));
    let (snapshot, id) = svc.connect(16);
    assert_eq!(snapshot.len(), 1);
    svc.ingest(continuation("tail"));
    let live = svc.take_pending(id);
    assert_eq!(texts(&live), vec![(0, "a\ntail".to_string())]);
}

#[test]
fn disconnecting_one_subscriber_leaves_others_delivering() {
    let mut svc = KernelService::new();
    let (_, first) = svc.connect(16);
    let (_, second) = svc.connect(16);
    assert_ne!(first, second);
    svc.ingest(marker("kern", "info", 1, "x"));
    svc.disconnect(first);
    svc.ingest(marker("kern", "info", 2, "y"));
    let live = svc.take_pending(second);
    assert_eq!(texts(&live), vec![(0, "x".to_string()), (1, "y".to_string())]);
    // The disconnected subscriber is gone; its identifier yields nothing.
    assert_eq!(svc.take_pending(first).len(), 0);
    // Disconnecting again is a no-op.
    svc.disconnect(first);
    assert_eq!(svc.subscriber_count(), 1);
}

#[test]
fn slow_subscriber_is_dropped_not_blocking_others() {
    let mut svc = KernelService::new();
    let (_, slow) = svc.connect(1);
    let (_, fast) = svc.connect(16);
    svc.ingest(marker("kern", "info", 1, "one"));
    // The slow subscriber's queue (capacity 1) is now full; the next
    // broadcast drops it.
    svc.ingest(marker("kern", "info", 2, "two"));
    assert_eq!(svc.subscriber_count(), 1);
    assert_eq!(svc.take_pending(slow).len(), 0);
    let live = svc.take_pending(fast);
    assert_eq!(texts(&live), vec![(0, "one".to_string()), (1, "two".to_string())]);
}

#[test]
fn concrete_scenario_merge_snapshot_and_live_frame() {
    let mut svc = KernelService::new();
    svc.ingest(marker("kern", "info", 1, "A"));
    svc.ingest(continuation("more"));
    svc.ingest(marker("kern", "info", 2, "C"));
    let read = svc.messages(Some(0), Some(10));
    assert_eq!(
        texts(&read),
        vec![(0, "A\nmore".to_string()), (1, "C".to_string())]
    );
    let (snapshot, id) = svc.connect(16);
    assert_eq!(
        texts(&snapshot),
        vec![(0, "A\nmore".to_string()), (1, "C".to_string())]
    );
    svc.ingest(marker("kern", "info", 3, "D"));
    let frame = svc.take_pending(id);
    assert_eq!(texts(&frame), vec![(2, "D".to_string())]);
}

#[test]
fn session_lifecycle_snapshot_stream_close() {
    let mut svc = KernelService::new();
    svc.ingest(marker("kern", "info", 1, "a"));
    let mut session = Session::new();
    assert_eq!(session.state, SessionState::Connecting);
    let snapshot = session.start(&mut svc, 1024);
    assert_eq!(session.state, SessionState::Streaming);
    assert_eq!(texts(&snapshot), vec![(0, "a".to_string())]);
    svc.ingest(marker("kern", "info", 2, "b"));
    let live = session.poll(&mut svc);
    assert_eq!(texts(&live), vec![(1, "b".to_string())]);
    session.finish(&mut svc);
    assert_eq!(session.state, SessionState::Closed);
    assert_eq!(svc.subscriber_count(), 0);
}

#[test]
fn a_dropped_session_polls_nothing_and_closes_cleanly() {
    let mut svc = KernelService::new();
    let mut session = Session::new();
    let _ = session.start(&mut svc, 0);
    svc.ingest(marker("kern", "info", 1, "x"));
    assert_eq!(svc.subscriber_count(), 0);
    assert_eq!(session.poll(&mut svc).len(), 0);
    session.finish(&mut svc);
    assert_eq!(session.state, SessionState::Closed);
}

#[test]
fn a_zero_capacity_subscriber_is_dropped_at_the_first_broadcast() {
    let mut svc = KernelService::new();
    let (_, id) = svc.connect(0);
    assert_eq!(svc.subscriber_count(), 1);
    svc.ingest(marker("kern", "info", 1, "x"));
    assert_eq!(svc.subscriber_count(), 0);
    assert_eq!(svc.take_pending(id).len(), 0);
}

#[test]
fn rejection_payload_carries_the_documented_message() {
    let error = WebsocketError::input_rejected();
    assert_eq!(error.error, "Websocket does not support inputs.");
}

#[test]
fn client_frames_are_answered_per_protocol() {
    match handle_client_message(ClientMessage::Text("hello".to_string())) {
        Some(ServerReply::Text(t)) => {
            assert_eq!(t, "{\"error\":\"Websocket does not support inputs.\"}");
        }
        other => panic!("text payload must be rejected, got {:?}", other.is_some()),
    }
    match handle_client_message(ClientMessage::Ping(vec![1, 2, 3])) {
        Some(ServerReply::Pong(p)) => assert_eq!(p, vec![1, 2, 3]),
        _ => panic!("ping must be answered with a pong"),
    }
    match handle_client_message(ClientMessage::Binary(vec![9, 8])) {
        Some(ServerReply::Binary(b)) => assert_eq!(b, vec![9, 8]),
        _ => panic!("binary payloads pass through unchanged"),
    }
    assert!(handle_client_message(ClientMessage::Close).is_none());
}
