use monitor::codec::{decode_message, encode_message, encode_telemetry};
use monitor::command::{
    Command, CommandMessage, CommandResponse, CommandStatus, CommandTarget, CommandType,
};
use monitor::telemetry::TelemetrySnapshot;

fn sample_command() -> Command {
    Command {
        id: String::from("a"),
        command_type: CommandType::Start,
        target: CommandTarget::Node(String::from("n1")),
        parameters: None,
        timestamp: 5,
    }
}

#[test]
fn command_frame_layout() {
    let frame = encode_message(&CommandMessage::Command(sample_command()));
    assert_eq!(frame, "C1:aSN2:n1N5:");
}

#[test]
fn response_frame_layout() {
    let resp = CommandResponse {
        command_id: String::from("a"),
        status: CommandStatus::Received,
        result: None,
        error: None,
        timestamp: 7,
    };
    let frame = encode_message(&CommandMessage::Response(resp));
    assert_eq!(frame, "R1:aRNN7:");
}

#[test]
fn telemetry_frame_layout() {
    let snap = TelemetrySnapshot {
        agent_id: String::from("ag"),
        captured_at: 9,
        system: String::from("sys"),
        units: vec![String::from("u1")],
    };
    assert_eq!(encode_telemetry(&snap), "T2:ag9:3:sys1:2:u1");
}

#[test]
fn round_trip_command_with_parameters() {
    let cmd = Command {
        id: String::from("cmd-42"),
        command_type: CommandType::Custom(String::from("echo hi")),
        target: CommandTarget::AllNodes,
        parameters: Some(vec![
            (String::from("k1"), String::from("v1")),
            (String::from("k2"), String::from("")),
        ]),
        timestamp: 1234567890,
    };
    let frame = encode_message(&CommandMessage::Command(cmd));
    match decode_message(&frame) {
        Ok(CommandMessage::Command(c)) => {
            assert_eq!(c.id, "cmd-42");
            match c.command_type {
                CommandType::Custom(s) => assert_eq!(s, "echo hi"),
                _ => panic!("wrong kind"),
            }
            assert!(matches!(c.target, CommandTarget::AllNodes));
            let params = c.parameters.expect("parameters kept");
            assert_eq!(params.len(), 2);
            assert_eq!(params[0].0, "k1");
            assert_eq!(params[0].1, "v1");
            assert_eq!(params[1].0, "k2");
            assert_eq!(params[1].1, "");
            assert_eq!(c.timestamp, 1234567890);
        }
        _ => panic!("expected a command back"),
    }
}

#[test]
fn round_trip_response_with_result() {
    let resp = CommandResponse {
        command_id: String::from("id-9"),
        status: CommandStatus::Completed,
        result: Some(String::from("all good")),
        error: None,
        timestamp: 42,
    };
    let frame = encode_message(&CommandMessage::Response(resp));
    match decode_message(&frame) {
        Ok(CommandMessage::Response(r)) => {
            assert_eq!(r.command_id, "id-9");
            assert!(matches!(r.status, CommandStatus::Completed));
            assert_eq!(r.result.as_deref(), Some("all good"));
            assert_eq!(r.error, None);
            assert_eq!(r.timestamp, 42);
        }
        _ => panic!("expected a response back"),
    }
}

#[test]
fn round_trip_keeps_absent_and_empty_apart() {
    let with_empty = CommandResponse {
        command_id: String::from("x"),
        status: CommandStatus::Failed,
        result: None,
        error: Some(String::from("")),
        timestamp: 0,
    };
    let frame = encode_message(&CommandMessage::Response(with_empty));
    match decode_message(&frame) {
        Ok(CommandMessage::Response(r)) => {
            assert_eq!(r.error, Some(String::new()));
            assert_eq!(r.result, None);
        }
        _ => panic!("expected a response back"),
    }
}

#[test]
fn round_trip_unicode_strings() {
    let cmd = Command {
        id: String::from("ид-試験"),
        command_type: CommandType::Stop,
        target: CommandTarget::Node(String::from("ノード:1|x")),
        parameters: None,
        timestamp: 3,
    };
    let frame = encode_message(&CommandMessage::Command(cmd));
    match decode_message(&frame) {
        Ok(CommandMessage::Command(c)) => {
            assert_eq!(c.id, "ид-試験");
            match c.target {
                CommandTarget::Node(n) => assert_eq!(n, "ノード:1|x"),
                _ => panic!("wrong target"),
            }
        }
        _ => panic!("expected a command back"),
    }
}

#[test]
fn decode_rejects_garbage() {
    assert!(decode_message("").is_err());
    assert!(decode_message("zzz").is_err());
    assert!(decode_message("C").is_err());
    assert!(decode_message("Q1:aSN2:n1N5:").is_err());
}

#[test]
fn decode_rejects_truncated_frame() {
    let frame = encode_message(&CommandMessage::Command(sample_command()));
    for cut in 1..frame.chars().count() {
        let prefix: String = frame.chars().take(cut).collect();
        assert!(decode_message(&prefix).is_err(), "prefix {:?} decoded", prefix);
    }
}

#[test]
fn decode_rejects_trailing_bytes() {
    let mut frame = encode_message(&CommandMessage::Command(sample_command()));
    frame.push('!');
    assert!(decode_message(&frame).is_err());
}

#[test]
fn decode_rejects_oversized_number() {
    // one more than u64::MAX in the timestamp field
    assert!(decode_message("C1:aSN2:n1N18446744073709551616:").is_err());
    assert!(decode_message("C1:aSN2:n1N18446744073709551615:").is_ok());
}

#[test]
fn decode_rejects_length_past_end() {
    assert!(decode_message("C9:aSN2:n1N5:").is_err());
}
