use monitor::command::{
    Command, CommandHandler, CommandStatus, CommandTarget, CommandType, is_terminal, target_valid,
};
use monitor::docker::{container_nickname, matches_filter};
use monitor::mux::OutboundMux;
use monitor::codec::parse_u64_dec;
use monitor::render::{format_bytes, format_memory};
use monitor::telemetry::kb_field_bytes;

fn command(kind: CommandType, target: CommandTarget) -> Command {
    Command {
        id: String::from("id"),
        command_type: kind,
        target,
        parameters: None,
        timestamp: 0,
    }
}

#[test]
fn validity_table() {
    let node = || CommandTarget::Node("n".into());
    assert!(target_valid(&CommandType::Start, &node()));
    assert!(target_valid(&CommandType::Start, &CommandTarget::AllNodes));
    assert!(!target_valid(&CommandType::Start, &CommandTarget::Server));
    assert!(target_valid(&CommandType::Stop, &node()));
    assert!(!target_valid(&CommandType::Stop, &CommandTarget::Server));
    assert!(target_valid(&CommandType::Restart, &CommandTarget::AllNodes));
    assert!(!target_valid(&CommandType::Restart, &CommandTarget::Server));
    assert!(target_valid(&CommandType::Payout, &node()));
    assert!(!target_valid(&CommandType::Payout, &CommandTarget::AllNodes));
    assert!(!target_valid(&CommandType::Payout, &CommandTarget::Server));
    assert!(target_valid(&CommandType::PayoutAll, &CommandTarget::Server));
    assert!(target_valid(&CommandType::PayoutAll, &node()));
    assert!(target_valid(&CommandType::RebootServer, &CommandTarget::AllNodes));
    assert!(target_valid(&CommandType::Custom("x".into()), &CommandTarget::Server));
}

#[test]
fn status_terminality() {
    assert!(!is_terminal(CommandStatus::Received));
    assert!(!is_terminal(CommandStatus::InProgress));
    assert!(is_terminal(CommandStatus::Completed));
    assert!(is_terminal(CommandStatus::Failed));
}

fn no_customs() -> Vec<String> {
    Vec::new()
}

#[test]
fn plan_unit_lifecycle_goes_through_docker() {
    let inv = CommandHandler::plan(
        &command(CommandType::Start, CommandTarget::Node("node1".into())),
        &no_customs(),
    )
    .expect("valid");
    assert_eq!(inv.program, "docker");
    assert_eq!(inv.args, vec!["start".to_string(), "node1".to_string()]);

    let inv = CommandHandler::plan(
        &command(CommandType::Restart, CommandTarget::Node("3node0".into())),
        &no_customs(),
    )
    .expect("valid");
    assert_eq!(inv.program, "docker");
    assert_eq!(inv.args, vec!["restart".to_string(), "3node0".to_string()]);
}

#[test]
fn plan_fleet_operations_go_through_shell_helpers() {
    let inv = CommandHandler::plan(&command(CommandType::Stop, CommandTarget::AllNodes), &no_customs())
        .expect("valid");
    assert_eq!(inv.program, "bash");
    assert_eq!(
        inv.args,
        vec![
            "-c".to_string(),
            "source ~/.zshrc || source ~/.bash_profile; stopAll".to_string()
        ]
    );

    let inv = CommandHandler::plan(
        &command(CommandType::Payout, CommandTarget::Node("node7".into())),
        &no_customs(),
    )
    .expect("valid");
    assert_eq!(
        inv.args,
        vec![
            "-c".to_string(),
            "source ~/.zshrc || source ~/.bash_profile; payout node7".to_string()
        ]
    );

    let inv = CommandHandler::plan(&command(CommandType::PayoutAll, CommandTarget::Server), &no_customs())
        .expect("valid");
    assert_eq!(
        inv.args,
        vec![
            "-c".to_string(),
            "source ~/.zshrc || source ~/.bash_profile; payoutAll".to_string()
        ]
    );
}

#[test]
fn plan_reboot_and_enumerated_custom() {
    let inv = CommandHandler::plan(&command(CommandType::RebootServer, CommandTarget::Server), &no_customs())
        .expect("valid");
    assert_eq!(inv.program, "sudo");
    assert_eq!(
        inv.args,
        vec!["shutdown".to_string(), "-r".to_string(), "now".to_string()]
    );

    let allow = vec![String::from("uptime -p")];
    let inv = CommandHandler::plan(
        &command(CommandType::Custom("uptime -p".into()), CommandTarget::AllNodes),
        &allow,
    )
    .expect("enumerated");
    assert_eq!(inv.program, "bash");
    assert_eq!(inv.args, vec!["-c".to_string(), "uptime -p".to_string()]);
}

#[test]
fn plan_rejects_invalid_target_with_its_kinds_reason() {
    let err = CommandHandler::plan(&command(CommandType::Restart, CommandTarget::Server), &no_customs())
        .expect_err("host restart is not a reboot");
    assert_eq!(err.message, "서버 재시작은 현재 지원되지 않습니다");
    let err = CommandHandler::plan(&command(CommandType::Payout, CommandTarget::AllNodes), &no_customs())
        .expect_err("payout needs one unit");
    assert_eq!(err.message, "지원되지 않는 페이아웃 대상입니다");
    let err = CommandHandler::plan(&command(CommandType::Start, CommandTarget::Server), &no_customs())
        .expect_err("host is no start target");
    assert_eq!(err.message, "지원되지 않는 시작 대상입니다");
    let err = CommandHandler::plan(&command(CommandType::Stop, CommandTarget::Server), &no_customs())
        .expect_err("host is no stop target");
    assert_eq!(err.message, "지원되지 않는 중지 대상입니다");
}

#[test]
fn plan_rejects_custom_not_on_allow_list() {
    // nothing is permitted by default
    let err = CommandHandler::plan(
        &command(CommandType::Custom("rm -rf /".into()), CommandTarget::Server),
        &no_customs(),
    )
    .expect_err("unrestricted execution is never the default");
    assert_eq!(err.message, "허용 목록에 없는 커스텀 명령어입니다");

    // enumeration is letter for letter
    let allow = vec![String::from("uptime")];
    let err = CommandHandler::plan(
        &command(CommandType::Custom("uptime -p".into()), CommandTarget::Server),
        &allow,
    )
    .expect_err("not the enumerated string");
    assert_eq!(err.message, "허용 목록에 없는 커스텀 명령어입니다");
}

#[test]
fn response_builders_populate_exactly_one_payload() {
    let id = String::from("c");
    let r = CommandHandler::received_response(&id, 3);
    assert!(matches!(r.status, CommandStatus::Received));
    assert_eq!(r.result, None);
    assert_eq!(r.error, None);
    assert_eq!(r.timestamp, 3);

    let ok = CommandHandler::terminal_response(&id, Ok("out".into()), 4);
    assert!(matches!(ok.status, CommandStatus::Completed));
    assert_eq!(ok.result.as_deref(), Some("out"));
    assert_eq!(ok.error, None);

    let failed = CommandHandler::terminal_response(&id, Err("why".into()), 5);
    assert!(matches!(failed.status, CommandStatus::Failed));
    assert_eq!(failed.result, None);
    assert_eq!(failed.error.as_deref(), Some("why"));

    let now = CommandHandler::received_response_now(&id);
    assert!(matches!(now.status, CommandStatus::Received));
    assert_eq!(now.command_id, "c");
}

#[test]
fn mux_is_fifo_within_each_stream_and_bounded() {
    let mut m = OutboundMux::new(2);
    assert!(m.offer_telemetry("t1".into()));
    assert!(m.offer_telemetry("t2".into()));
    assert!(!m.offer_telemetry("t3".into()));
    assert!(m.offer_response("r1".into()));

    let mut popped = Vec::new();
    while let Some(f) = m.pop_next() {
        popped.push(f);
    }
    // alternation: with both streams ready, a response is never stuck
    // behind more than one telemetry frame and the other way round
    assert_eq!(popped, vec!["t1", "r1", "t2"]);
    assert!(m.pop_next().is_none());
}

#[test]
fn mux_serves_single_stream_directly() {
    let mut m = OutboundMux::new(4);
    assert!(m.offer_response("r1".into()));
    assert!(m.offer_response("r2".into()));
    assert_eq!(m.pop_next().as_deref(), Some("r1"));
    assert_eq!(m.pop_next().as_deref(), Some("r2"));
    assert_eq!(m.pop_next(), None);
}

#[test]
fn format_bytes_picks_largest_unit() {
    assert_eq!(format_bytes(0), "0B");
    assert_eq!(format_bytes(512), "512B");
    assert_eq!(format_bytes(1023), "1023B");
    assert_eq!(format_bytes(1024), "1.00KB");
    assert_eq!(format_bytes(1536), "1.50KB");
    assert_eq!(format_bytes(2621440), "2.50MB");
    assert_eq!(format_bytes(1073741824), "1.00GB");
    assert_eq!(format_bytes(5 * 1073741824 + 1073741824 / 4), "5.25GB");
}

#[test]
fn format_bytes_rounds_ties_to_even() {
    // 1152/1024 = 1.125 exactly: rounds down to the even hundredth
    assert_eq!(format_bytes(1152), "1.12KB");
    // 1408/1024 = 1.375 exactly: rounds up to the even hundredth
    assert_eq!(format_bytes(1408), "1.38KB");
}

#[test]
fn format_memory_switches_units_on_the_limit() {
    assert_eq!(
        format_memory(2147483648, 4294967296),
        "2.00GB / 4.00GB"
    );
    assert_eq!(format_memory(536870912, 1073741824), "512MB / 1024MB");
    assert_eq!(format_memory(0, 0), "0MB / 0MB");
}

#[test]
fn nickname_derivation() {
    assert_eq!(
        container_nickname("3node0").as_deref(),
        Some("Creditcoin 3.0 Node 0")
    );
    assert_eq!(
        container_nickname("node12").as_deref(),
        Some("Creditcoin 2.0 Node 12")
    );
    assert_eq!(container_nickname("postgres"), None);
}

#[test]
fn decimal_field_parsing() {
    assert_eq!(parse_u64_dec("0"), Some(0));
    assert_eq!(parse_u64_dec("41943040"), Some(41943040));
    assert_eq!(parse_u64_dec("18446744073709551615"), Some(u64::MAX));
    assert_eq!(parse_u64_dec("18446744073709551616"), None);
    assert_eq!(parse_u64_dec(""), None);
    assert_eq!(parse_u64_dec("12a"), None);
    assert_eq!(parse_u64_dec("-3"), None);

    assert_eq!(kb_field_bytes("4"), 4096);
    assert_eq!(kb_field_bytes("bad"), 0);
    assert_eq!(kb_field_bytes("18446744073709551615"), 0);
}

#[test]
fn filter_matching() {
    let filters = vec![String::from("node"), String::from("3node")];
    assert!(matches_filter("node1", &filters));
    assert!(matches_filter("my-3node-x", &filters));
    assert!(!matches_filter("postgres", &filters));
    // an empty filter keeps everything
    assert!(matches_filter("anything", &Vec::new()));
}
