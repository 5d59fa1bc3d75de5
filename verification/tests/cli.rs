//! The line interpreter: words, numbers, dispatch and what it reports.

use meshcop::cli::interpreter::{
    cmd_help, must_resign, scan_result, CommandValue, Evaluation, Interpreter, Routine, Usage,
};
use meshcop::cli::tokens::{
    has_multi_network_flag, is_known_op_field, parse_u32, parse_u64, tokenize, wipe_tokens,
};
use meshcop::commissioner::joiner_handler::JoinerHandler;
use meshcop::commissioner::types::{CloseReason, CommissionerEvent, SessionStatus};

#[test]
fn tokenize_honors_whitespace_and_quotes() {
    assert_eq!(tokenize("a b  c").unwrap(), ["a", "b", "c"]);
    assert_eq!(tokenize("set '{\"k\": 1}'").unwrap(), ["set", "{\"k\": 1}"]);
    assert_eq!(tokenize("x \"y z\"").unwrap(), ["x", "y z"]);
    assert!(tokenize("oops 'unterminated").is_err());
}

#[test]
fn tokenize_joins_quoted_parts_and_keeps_empty_ones() {
    assert_eq!(tokenize("").unwrap(), Vec::<String>::new());
    assert_eq!(tokenize("a\tb").unwrap(), ["a", "b"]);
    assert_eq!(tokenize("it\"'\"s").unwrap(), ["it's"]);
    assert_eq!(tokenize("\"open"), Err("unterminated quote"));
}

#[test]
fn integer_parsers_accept_hex_and_decimal() {
    assert_eq!(parse_u32("0x10"), Some(16));
    assert_eq!(parse_u32("16"), Some(16));
    assert_eq!(parse_u64("0xFF"), Some(255));
    assert_eq!(parse_u32("nope"), None);
}

#[test]
fn integer_parsers_reject_what_does_not_fit() {
    assert_eq!(parse_u32("4294967295"), Some(u32::MAX));
    assert_eq!(parse_u32("4294967296"), None);
    assert_eq!(parse_u64("0xffffffffffffffff"), Some(u64::MAX));
    assert_eq!(parse_u64("18446744073709551616"), None);
    assert_eq!(parse_u32(""), None);
    assert_eq!(parse_u32("0x"), None);
    assert_eq!(parse_u32("-1"), None);
}

#[test]
fn multi_network_flags_and_known_fields_are_detected() {
    assert!(has_multi_network_flag(&vec![
        "start".to_string(),
        "--nwk".to_string()
    ]));
    assert!(!has_multi_network_flag(&vec!["start".to_string()]));
    assert!(is_known_op_field("channel"));
    assert!(!is_known_op_field("bogus"));
}

fn dispatch_line(line: &str) -> Evaluation {
    Interpreter::new().dispatch(tokenize(line).unwrap())
}

fn printed(evaluation: Evaluation) -> String {
    match evaluation {
        Evaluation::Print(value) => value.rendered(),
        other => panic!("expected text, got {other:?}"),
    }
}

#[test]
fn invalid_command_reports_the_cpp_help_hint() {
    assert_eq!(
        printed(dispatch_line("bogus")),
        "'bogus' is not a valid command, type 'help' to list all commands\n[failed]"
    );
}

#[test]
fn out_of_scope_features_fail_with_an_explanation() {
    assert!(printed(dispatch_line("token print")).contains("CCM token support is not implemented"));
    assert!(printed(dispatch_line("br list")).contains("registry is not implemented"));
}

#[test]
fn a_command_is_run_with_its_words() {
    match dispatch_line("opdataset get active") {
        Evaluation::Run { routine, tokens } => {
            assert_eq!(routine, Routine::OpDataset);
            assert_eq!(tokens, ["opdataset", "get", "active"]);
        }
        other => panic!("expected a routine, got {other:?}"),
    }
}

fn commands() -> Vec<Usage> {
    ["sessionid", "br", "active", "borderagent", "announce", "bbrdataset"]
        .iter()
        .map(|name| Usage {
            name: name.to_string(),
            usage: name.to_string(),
        })
        .collect()
}

#[test]
fn help_lists_every_command_sorted_with_the_footer() {
    let out = cmd_help(&commands(), &tokenize("help").unwrap()).rendered();
    assert!(out.starts_with("active\nannounce\nbbrdataset\nborderagent\nbr\n"));
    assert!(out.contains("\ntype 'help <command>' for help of specific command.\n[done]"));
    // `help <command>` echoes the usage string.
    assert!(cmd_help(&commands(), &tokenize("help sessionid").unwrap())
        .rendered()
        .starts_with("usage:\nsessionid"));
    assert_eq!(
        cmd_help(&commands(), &tokenize("help nope").unwrap()).rendered(),
        "nope is not a valid command\n[failed]"
    );
}

#[test]
fn evaluate_and_print_handles_blank_bad_and_multi_network_lines() {
    let mut interpreter = Interpreter::new();
    assert!(matches!(interpreter.evaluate(""), Evaluation::Blank));
    assert_eq!(
        printed(interpreter.evaluate("bad 'quote")),
        "unterminated quote\n[failed]"
    );
    assert_eq!(
        printed(interpreter.evaluate("start --nwk net1")),
        "multi-network selectors (--nwk/--dom) require the network registry, which is not \
         implemented in this build\n[failed]"
    );
    assert!(matches!(
        interpreter.evaluate("state"),
        Evaluation::Run {
            routine: Routine::State,
            ..
        }
    ));
    assert!(!interpreter.should_exit());
    interpreter.evaluate("exit");
    assert!(interpreter.should_exit());
}

#[test]
fn values_end_with_their_verdict() {
    assert_eq!(CommandValue::done().rendered(), "[done]");
    assert_eq!(CommandValue::ok("true".into()).rendered(), "true\n[done]");
    assert_eq!(
        CommandValue::failed("no".into()).rendered(),
        "no\n[failed]"
    );
}

#[test]
fn joiner_handler_is_built_from_zeroizing_cli_credentials() {
    let joiner_id = [0x42; 8];
    let mut interpreter = Interpreter::new();
    interpreter.set_joiner_all_pskd("wildcard-secret");
    interpreter.set_joiner_pskd(joiner_id, "joiner-secret");

    let mut handler = interpreter.build_joiner_handler();
    assert_eq!(
        handler.joiner_pskd(&joiner_id).as_deref(),
        Some("joiner-secret")
    );
    assert_eq!(
        handler.joiner_pskd(&[0x99; 8]).as_deref(),
        Some("wildcard-secret")
    );
}

#[test]
fn background_scan_reports_are_recorded_for_later_commands() {
    let mut interpreter = Interpreter::new();
    let event = CommissionerEvent::EnergyReport {
        peer_addr: "fd00::1".to_string(),
        channel_mask: 0x0000_8000,
        energy_list: vec![0xb0],
    };
    assert_eq!(interpreter.handle_background_event(event), None);
    assert_eq!(interpreter.energy_reports().len(), 1);
    assert_eq!(interpreter.energy_reports()[0].energy_list, [0xb0]);
    let event = CommissionerEvent::PanIdConflict {
        peer_addr: "fd00::1".to_string(),
        channel_mask: 0x0000_8000,
        pan_id: 0xface,
    };
    assert_eq!(interpreter.handle_background_event(event), None);
    assert_eq!(interpreter.panid_conflicts()[0].pan_id, 0xface);
}

#[test]
fn lost_events_are_reported_while_waiting_and_after_a_scan() {
    const WARNING: &str =
        "missed 2 commissioner events; energy and PAN ID reports may be incomplete";
    let mut interpreter = Interpreter::new();
    assert_eq!(
        interpreter.handle_background_event(CommissionerEvent::Lagged { missed: 2 }),
        Some(WARNING.to_string())
    );
    let warning = interpreter
        .record_event(CommissionerEvent::Lagged { missed: 2 })
        .unwrap();
    let scanned = scan_result(&vec![warning]);
    assert_eq!(scanned.rendered(), format!("{WARNING}\n[done]"));
    assert_eq!(scan_result(&Vec::new()).rendered(), "[done]");
}

#[test]
fn a_lost_session_is_reported_and_the_state_reads_disabled() {
    let mut interpreter = Interpreter::new();
    assert_eq!(
        interpreter.handle_background_event(CommissionerEvent::SessionLost {
            reason: CloseReason::KeepAliveRejected
        }),
        Some("commissioner session lost: a keep-alive was rejected".to_string())
    );
}

#[test]
fn shutdown_resigns_a_running_session() {
    assert!(must_resign(Some(&SessionStatus::Active {
        session_id: 0x1234
    })));
    // Without a session there is nothing to resign.
    assert!(!must_resign(None));
}

#[test]
fn shutdown_leaves_a_lost_session_alone() {
    assert!(!must_resign(Some(&SessionStatus::Closed {
        reason: CloseReason::KeepAliveRejected
    })));
}

#[test]
fn words_are_wiped_after_use() {
    let mut tokens = tokenize("joiner enable meshcop J01NME").unwrap();
    wipe_tokens(&mut tokens);
    assert!(tokens.iter().all(|token| token.is_empty()));
}
