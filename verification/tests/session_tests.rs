use monitor::codec::{decode_message, encode_message, encode_telemetry};
use monitor::command::{
    Command, CommandMessage, CommandResponse, CommandStatus, CommandTarget, CommandType,
};
use monitor::session::{Session, SessionAction, SessionEvent, SessionMode};
use monitor::telemetry::TelemetrySnapshot;

fn command(id: &str, kind: CommandType, target: CommandTarget) -> Command {
    Command {
        id: String::from(id),
        command_type: kind,
        target,
        parameters: None,
        timestamp: 1,
    }
}

fn command_frame(id: &str, kind: CommandType, target: CommandTarget) -> String {
    encode_message(&CommandMessage::Command(command(id, kind, target)))
}

fn connected_session_with(custom_allow: Vec<String>) -> Session {
    let mut s = Session::new(custom_allow);
    let acts = s.handle_event(SessionEvent::ConnectSucceeded, 0);
    assert!(acts.is_empty());
    assert!(matches!(s.mode, SessionMode::Connected));
    s
}

fn connected_session() -> Session {
    connected_session_with(Vec::new())
}

fn decode_response(frame: &str) -> CommandResponse {
    match decode_message(frame) {
        Ok(CommandMessage::Response(r)) => r,
        _ => panic!("expected a response frame"),
    }
}

#[test]
fn fresh_command_gets_received_then_one_terminal() {
    let mut s = connected_session();
    let frame = command_frame("c1", CommandType::Start, CommandTarget::Node("n1".into()));
    let acts = s.handle_event(SessionEvent::FrameReceived(frame), 10);
    assert_eq!(acts.len(), 2);
    match &acts[0] {
        SessionAction::WriteFrame(f) => {
            let r = decode_response(f);
            assert_eq!(r.command_id, "c1");
            assert!(matches!(r.status, CommandStatus::Received));
            assert_eq!(r.result, None);
            assert_eq!(r.error, None);
            assert_eq!(r.timestamp, 10);
        }
        _ => panic!("first action must acknowledge"),
    }
    match &acts[1] {
        SessionAction::InvokeExecutor(c) => assert_eq!(c.id, "c1"),
        _ => panic!("second action must start the executor"),
    }

    let acts = s.handle_event(
        SessionEvent::ExecutorReturned("c1".into(), Ok("done".into())),
        11,
    );
    assert_eq!(acts.len(), 1);
    match &acts[0] {
        SessionAction::WriteFrame(f) => {
            let r = decode_response(f);
            assert_eq!(r.command_id, "c1");
            assert!(matches!(r.status, CommandStatus::Completed));
            assert_eq!(r.result.as_deref(), Some("done"));
            assert_eq!(r.error, None);
        }
        _ => panic!("terminal response expected"),
    }

    // a duplicate outcome report for the same id is ignored
    let acts = s.handle_event(
        SessionEvent::ExecutorReturned("c1".into(), Ok("again".into())),
        12,
    );
    assert!(acts.is_empty());
}

#[test]
fn executor_failure_yields_failed_response() {
    let mut s = connected_session();
    let frame = command_frame("c2", CommandType::Stop, CommandTarget::AllNodes);
    s.handle_event(SessionEvent::FrameReceived(frame), 1);
    let acts = s.handle_event(
        SessionEvent::ExecutorReturned("c2".into(), Err("boom".into())),
        2,
    );
    assert_eq!(acts.len(), 1);
    match &acts[0] {
        SessionAction::WriteFrame(f) => {
            let r = decode_response(f);
            assert!(matches!(r.status, CommandStatus::Failed));
            assert_eq!(r.error.as_deref(), Some("boom"));
            assert_eq!(r.result, None);
        }
        _ => panic!("terminal response expected"),
    }
}

#[test]
fn restart_host_fails_with_no_executor_invocation() {
    let mut s = connected_session();
    let frame = command_frame("c3", CommandType::Restart, CommandTarget::Server);
    let acts = s.handle_event(SessionEvent::FrameReceived(frame), 5);
    assert_eq!(acts.len(), 2);
    assert!(acts
        .iter()
        .all(|a| !matches!(a, SessionAction::InvokeExecutor(_))));
    match &acts[1] {
        SessionAction::WriteFrame(f) => {
            let r = decode_response(f);
            assert_eq!(r.command_id, "c3");
            assert!(matches!(r.status, CommandStatus::Failed));
            // the unsupported-operation reason: never read as a host reboot
            assert_eq!(r.error.as_deref(), Some("서버 재시작은 현재 지원되지 않습니다"));
        }
        _ => panic!("failure response expected"),
    }
}

#[test]
fn payout_all_units_fails_but_payout_all_kind_runs() {
    let mut s = connected_session();
    let frame = command_frame("c4", CommandType::Payout, CommandTarget::AllNodes);
    let acts = s.handle_event(SessionEvent::FrameReceived(frame), 5);
    assert_eq!(acts.len(), 2);
    assert!(acts
        .iter()
        .all(|a| !matches!(a, SessionAction::InvokeExecutor(_))));
    match &acts[1] {
        SessionAction::WriteFrame(f) => {
            let r = decode_response(f);
            assert!(matches!(r.status, CommandStatus::Failed));
            assert_eq!(r.error.as_deref(), Some("지원되지 않는 페이아웃 대상입니다"));
        }
        _ => panic!("failure response expected"),
    }

    let frame = command_frame("c5", CommandType::PayoutAll, CommandTarget::Server);
    let acts = s.handle_event(SessionEvent::FrameReceived(frame), 6);
    assert_eq!(acts.len(), 2);
    assert!(matches!(&acts[1], SessionAction::InvokeExecutor(c) if c.id == "c5"));
}

#[test]
fn malformed_frame_does_not_end_session() {
    let mut s = connected_session();
    let acts = s.handle_event(SessionEvent::FrameReceived("#$garbled%%".into()), 3);
    assert!(acts.is_empty());
    assert!(matches!(s.mode, SessionMode::Connected));

    let frame = command_frame("c6", CommandType::Start, CommandTarget::Node("n".into()));
    let acts = s.handle_event(SessionEvent::FrameReceived(frame), 4);
    assert_eq!(acts.len(), 2);
    assert!(matches!(&acts[1], SessionAction::InvokeExecutor(c) if c.id == "c6"));
}

#[test]
fn inbound_response_is_discarded() {
    let mut s = connected_session();
    let resp = CommandResponse {
        command_id: "other".into(),
        status: CommandStatus::Completed,
        result: Some("x".into()),
        error: None,
        timestamp: 8,
    };
    let frame = encode_message(&CommandMessage::Response(resp));
    let acts = s.handle_event(SessionEvent::FrameReceived(frame), 9);
    assert!(acts.is_empty());
}

#[test]
fn custom_command_requires_the_allow_list() {
    // no allow-list entry: acknowledged, failed, never executed
    let mut s = connected_session();
    let frame = command_frame("x1", CommandType::Custom("uptime -p".into()), CommandTarget::Server);
    let acts = s.handle_event(SessionEvent::FrameReceived(frame), 7);
    assert_eq!(acts.len(), 2);
    assert!(acts
        .iter()
        .all(|a| !matches!(a, SessionAction::InvokeExecutor(_))));
    match &acts[1] {
        SessionAction::WriteFrame(f) => {
            let r = decode_response(f);
            assert_eq!(r.command_id, "x1");
            assert!(matches!(r.status, CommandStatus::Failed));
            assert_eq!(r.error.as_deref(), Some("허용 목록에 없는 커스텀 명령어입니다"));
        }
        _ => panic!("failure response expected"),
    }

    // the enumerated instruction is executed
    let mut s = connected_session_with(vec![String::from("uptime -p")]);
    let frame = command_frame("x2", CommandType::Custom("uptime -p".into()), CommandTarget::Server);
    let acts = s.handle_event(SessionEvent::FrameReceived(frame), 8);
    assert_eq!(acts.len(), 2);
    assert!(matches!(&acts[1], SessionAction::InvokeExecutor(c) if c.id == "x2"));
}

#[test]
fn connect_failure_enters_fallback_and_never_writes() {
    let mut s = Session::new(Vec::new());
    let acts = s.handle_event(SessionEvent::ConnectFailed, 0);
    assert!(acts.is_empty());
    assert!(matches!(s.mode, SessionMode::Failed));

    let snap = TelemetrySnapshot {
        agent_id: "ag".into(),
        captured_at: 100,
        system: "sys".into(),
        units: vec![],
    };
    let acts = s.handle_event(SessionEvent::TelemetryTick(snap), 0);
    assert_eq!(acts.len(), 1);
    assert!(matches!(&acts[0], SessionAction::RenderLocal(t) if t.captured_at == 100));
    assert!(acts
        .iter()
        .all(|a| !matches!(a, SessionAction::WriteFrame(_))));
}

#[test]
fn telemetry_captured_at_is_non_decreasing_on_wire() {
    let mut s = connected_session();
    let snap = |ts: u64| TelemetrySnapshot {
        agent_id: "ag".into(),
        captured_at: ts,
        system: "sys".into(),
        units: vec![],
    };
    let acts = s.handle_event(SessionEvent::TelemetryTick(snap(100)), 0);
    assert_eq!(acts.len(), 1);
    match &acts[0] {
        SessionAction::WriteFrame(f) => assert_eq!(f, &encode_telemetry(&snap(100))),
        _ => panic!("telemetry frame expected"),
    }
    // the clock went backwards; the wire value is clamped to the watermark
    let acts = s.handle_event(SessionEvent::TelemetryTick(snap(50)), 0);
    match &acts[0] {
        SessionAction::WriteFrame(f) => assert_eq!(f, &encode_telemetry(&snap(100))),
        _ => panic!("telemetry frame expected"),
    }
    let acts = s.handle_event(SessionEvent::TelemetryTick(snap(170)), 0);
    match &acts[0] {
        SessionAction::WriteFrame(f) => assert_eq!(f, &encode_telemetry(&snap(170))),
        _ => panic!("telemetry frame expected"),
    }
}

#[test]
fn distinct_commands_complete_in_either_order() {
    let mut s = connected_session();
    let f1 = command_frame("a1", CommandType::Start, CommandTarget::Node("n1".into()));
    let f2 = command_frame("a2", CommandType::Stop, CommandTarget::Node("n2".into()));
    s.handle_event(SessionEvent::FrameReceived(f1), 1);
    s.handle_event(SessionEvent::FrameReceived(f2), 2);

    // a slow first command does not hold back a telemetry tick
    let snap = TelemetrySnapshot {
        agent_id: "ag".into(),
        captured_at: 5,
        system: "sys".into(),
        units: vec![],
    };
    let acts = s.handle_event(SessionEvent::TelemetryTick(snap), 3);
    assert!(matches!(&acts[0], SessionAction::WriteFrame(_)));

    // the second command finishes first
    let acts = s.handle_event(
        SessionEvent::ExecutorReturned("a2".into(), Ok("second done".into())),
        4,
    );
    assert_eq!(acts.len(), 1);
    match &acts[0] {
        SessionAction::WriteFrame(f) => {
            let r = decode_response(f);
            assert_eq!(r.command_id, "a2");
            assert!(matches!(r.status, CommandStatus::Completed));
        }
        _ => panic!("terminal response expected"),
    }
    let acts = s.handle_event(
        SessionEvent::ExecutorReturned("a1".into(), Ok("first done".into())),
        5,
    );
    assert_eq!(acts.len(), 1);
    match &acts[0] {
        SessionAction::WriteFrame(f) => {
            let r = decode_response(f);
            assert_eq!(r.command_id, "a1");
            assert!(matches!(r.status, CommandStatus::Completed));
        }
        _ => panic!("terminal response expected"),
    }
}

#[test]
fn outcome_for_unknown_id_is_ignored() {
    let mut s = connected_session();
    let acts = s.handle_event(
        SessionEvent::ExecutorReturned("ghost".into(), Ok("out".into())),
        1,
    );
    assert!(acts.is_empty());
}

#[test]
fn transport_close_ends_session_and_discards_late_outcomes() {
    let mut s = connected_session();
    let f1 = command_frame("c9", CommandType::Start, CommandTarget::Node("n".into()));
    s.handle_event(SessionEvent::FrameReceived(f1), 1);
    let acts = s.handle_event(SessionEvent::TransportClosed, 2);
    assert!(acts.is_empty());
    assert!(matches!(s.mode, SessionMode::Closed));
    // the in-flight command's late outcome has no transport to go to
    let acts = s.handle_event(
        SessionEvent::ExecutorReturned("c9".into(), Ok("late".into())),
        3,
    );
    assert!(acts.is_empty());
}

#[test]
fn frames_ignored_when_not_connected() {
    let mut s = Session::new(Vec::new());
    let frame = command_frame("c0", CommandType::Start, CommandTarget::Node("n".into()));
    let acts = s.handle_event(SessionEvent::FrameReceived(frame), 1);
    assert!(acts.is_empty());
    assert!(matches!(s.mode, SessionMode::Connecting));
}
