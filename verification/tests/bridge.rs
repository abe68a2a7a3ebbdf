use ros2_bridge::bridge::handle_item;
use ros2_bridge::bridge::run_bridge;
use ros2_bridge::bridge::IncomingMessage;
use ros2_bridge::bridge::ItemAction;
use ros2_bridge::bridge::ReceiveError;
use ros2_bridge::bridge::Timestamp;

fn msg(body: &str) -> Result<IncomingMessage, ReceiveError> {
    Ok(IncomingMessage { data: body.to_string() })
}

fn recv_failure(detail: &str) -> Result<IncomingMessage, ReceiveError> {
    Err(ReceiveError { detail: detail.to_string() })
}

#[test]
fn received_message_becomes_envelope() {
    let received_at = Timestamp { seconds: 100, nanos: 0 };
    let now = Timestamp { seconds: 101, nanos: 500 };
    match handle_item(msg("hello"), now) {
        ItemAction::Publish(envelope) => {
            assert_eq!(envelope.body, "hello");
            assert_eq!(envelope.header.reference_id, 0);
            assert_eq!(envelope.header.entity_path, "/");
            assert_eq!(envelope.header.timestamp, now);
            assert!(envelope.header.timestamp.seconds > received_at.seconds);
        },
        ItemAction::ReportReceiveError(_) => panic!("expected a publish attempt"),
    }
}

#[test]
fn receive_failure_is_reported_not_published() {
    let now = Timestamp { seconds: 0, nanos: 0 };
    match handle_item(recv_failure("socket closed"), now) {
        ItemAction::Publish(_) => panic!("expected a receive-error report"),
        ItemAction::ReportReceiveError(e) => assert_eq!(e.detail, "socket closed"),
    }
}

#[test]
fn stream_with_receive_error_attempts_the_rest() {
    let t = Timestamp { seconds: 7, nanos: 0 };
    let items = vec![msg("one"), recv_failure("bad frame"), msg("two")];
    let times = vec![t, t, t];
    let outcomes = vec![true, true, true];
    let report = run_bridge(items, times, outcomes);
    assert_eq!(report.attempts.len(), 2);
    assert_eq!(report.attempts[0].body, "one");
    assert_eq!(report.attempts[1].body, "two");
    assert_eq!(report.receive_errors, 1);
    assert_eq!(report.publish_failures, 0);
}

#[test]
fn publish_failure_is_isolated_and_order_kept() {
    let t = Timestamp { seconds: 1, nanos: 2 };
    let items = vec![msg("m1"), msg("m2"), msg("m3")];
    let times = vec![t, t, t];
    let outcomes = vec![true, false, true];
    let report = run_bridge(items, times, outcomes);
    assert_eq!(report.attempts.len(), 3);
    assert_eq!(report.attempts[0].body, "m1");
    assert_eq!(report.attempts[1].body, "m2");
    assert_eq!(report.attempts[2].body, "m3");
    assert_eq!(report.publish_failures, 1);
    assert_eq!(report.receive_errors, 0);
}

#[test]
fn empty_stream_reaches_the_end_quietly() {
    let report = run_bridge(vec![], vec![], vec![]);
    assert_eq!(report.attempts.len(), 0);
    assert_eq!(report.publish_failures, 0);
    assert_eq!(report.receive_errors, 0);
}

#[test]
fn each_envelope_carries_its_iteration_time() {
    let t1 = Timestamp { seconds: 10, nanos: 1 };
    let t2 = Timestamp { seconds: 20, nanos: 2 };
    let items = vec![msg("a"), msg("b")];
    let times = vec![t1, t2];
    let outcomes = vec![true, true];
    let report = run_bridge(items, times, outcomes);
    assert_eq!(report.attempts[0].header.timestamp, t1);
    assert_eq!(report.attempts[1].header.timestamp, t2);
}
