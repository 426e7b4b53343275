use caplang::capability::{CapabilityKind, CapabilityMinter};
use caplang::manifest::render_manifest;
use caplang::parser::parse_program;
use caplang::replay::{Event, ReplayLog};
use caplang::runtime::{execute, execute_with_defaults, ExecOptions};
use caplang::tools::{ToolBehavior, ToolRegistry};
use caplang::typecheck::typecheck;

fn run(src: &str) -> ReplayLog {
    let typed = typecheck(parse_program(src).expect("parse")).expect("typecheck");
    execute_with_defaults(
        typed,
        &ToolRegistry::with_mock_tools(),
        ExecOptions::default(),
    )
    .expect("execute")
}

fn printed(log: &ReplayLog) -> Vec<String> {
    let mut out = Vec::new();
    for e in &log.events {
        if let Event::Print { value } = e {
            out.push(value.clone());
        }
    }
    out
}

#[test]
fn pure_program_prints_three_with_empty_manifest() {
    let src = "let x = 1 + 2;\nprint x;\n";
    let typed = typecheck(parse_program(src).expect("parse")).expect("typecheck");
    assert_eq!(render_manifest(&typed), "capability_manifest_v1\n");
    let log = execute_with_defaults(
        typed,
        &ToolRegistry::with_mock_tools(),
        ExecOptions::default(),
    )
    .expect("execute");
    assert_eq!(printed(&log), vec!["3".to_string()]);
}

#[test]
fn heartbeat_follows_every_statement() {
    let log = run("let x = 1 + 2;\nprint x;\n");
    assert_eq!(log.events.len(), 3);
    let first = 42u64.wrapping_mul(6364136223846793005).wrapping_add(1);
    let second = first.wrapping_mul(6364136223846793005).wrapping_add(1);
    assert!(matches!(log.events[0], Event::Random { value } if value == first));
    assert!(matches!(log.events[1], Event::Print { .. }));
    assert!(matches!(log.events[2], Event::Random { value } if value == second));
    let text = log.to_text();
    assert!(text.contains(&format!("RANDOM|{first}\n")));
}

#[test]
fn tool_program_executes_against_mock_echo() {
    let src = "tool MockEcho input { message: String } output { echo: String } cap toolCap;\ncall MockEcho { message: \"hi\" } using toolCap timeout 1000;\n";
    let log = run(src);
    let mut saw_tool = false;
    let mut saw_time = false;
    for e in &log.events {
        match e {
            Event::ToolCall {
                tool,
                input,
                output,
                source,
                timestamp_ms,
                policy_tags,
                ..
            } => {
                saw_tool = true;
                assert_eq!(tool, "MockEcho");
                assert_eq!(input, "{\"message\":\"hi\"}");
                assert_eq!(output, "{\"echo\":{\"message\":\"hi\"}}");
                assert_eq!(source, "tool-registry");
                assert_eq!(*timestamp_ms, 0);
                assert_eq!(policy_tags, &vec!["default".to_string()]);
            }
            Event::Time { millis } => {
                saw_time = true;
                assert_eq!(*millis, 1000);
            }
            _ => {}
        }
    }
    assert!(saw_tool && saw_time);
}

#[test]
fn manifest_lists_caps_in_ascending_order() {
    let src = "tool A input { } output { a: Int } cap capB;\ntool B input { } output { a: Int } cap capA;\ncall A { } using capB timeout 5;\ncall B { } using capA timeout 5;\ncall A { } using capB timeout 5;\n";
    let typed = typecheck(parse_program(src).expect("parse")).expect("typecheck");
    assert_eq!(typed.manifest.required_caps, vec!["capA".to_string(), "capB".to_string()]);
    assert_eq!(
        render_manifest(&typed),
        "capability_manifest_v1\nrequires=capA\nrequires=capB\n"
    );
}

#[test]
fn unknown_variable_is_a_type_error() {
    let err = typecheck(parse_program("print y;\n").expect("parse")).expect_err("type error");
    assert!(err.message().contains("unknown variable: y"));
}

#[test]
fn binary_ops_demand_integer_operands() {
    let err =
        typecheck(parse_program("let x = 1 + true;\n").expect("parse")).expect_err("type error");
    assert!(err.message().contains("binary operations currently require Int operands"));
}

#[test]
fn unknown_tool_is_rejected() {
    let src = "call Missing { } using toolCap timeout 10;\n";
    let err = typecheck(parse_program(src).expect("parse")).expect_err("type error");
    assert!(err.message().contains("unknown tool declaration: Missing"));
}

#[test]
fn missing_tool_field_is_rejected() {
    let src = "tool T input { a: Int } output { r: Int } cap toolCap;\ncall T { } using toolCap timeout 10;\n";
    let err = typecheck(parse_program(src).expect("parse")).expect_err("type error");
    assert!(err.message().contains("missing required tool field: a"));
}

#[test]
fn mismatched_tool_field_type_is_rejected() {
    let src = "tool T input { a: Int } output { r: Int } cap toolCap;\ncall T { a: \"hi\" } using toolCap timeout 10;\n";
    let err = typecheck(parse_program(src).expect("parse")).expect_err("type error");
    assert!(err.message().contains("tool field a expected Int, got String"));
}

#[test]
fn tool_effect_without_capabilities_is_rejected() {
    let src = "tool MockEcho input { value: Int } output { echo: String } cap toolCap;\ncall MockEcho { value: 1 } using toolCap timeout 10;\n";
    let typed = typecheck(parse_program(src).expect("parse")).expect("typecheck");
    let caps = Vec::new();
    let err = execute(
        typed,
        &caps,
        &ToolRegistry::with_mock_tools(),
        ExecOptions::default(),
    )
    .expect_err("missing caps");
    assert!(err
        .message()
        .contains("tool effect requested but no capabilities supplied"));
}

#[test]
fn non_tool_capability_is_rejected() {
    let src = "tool MockEcho input { value: Int } output { echo: String } cap netCap;\ncall MockEcho { value: 1 } using netCap timeout 10;\n";
    let typed = typecheck(parse_program(src).expect("parse")).expect("typecheck");
    let mut minter = CapabilityMinter::new();
    let net = minter.mint(CapabilityKind::Net);
    let caps = vec![("netCap".to_string(), net)];
    let err = execute(
        typed,
        &caps,
        &ToolRegistry::with_mock_tools(),
        ExecOptions::default(),
    )
    .expect_err("cap kind");
    assert!(err.message().contains("netCap does not grant tool rights"));
}

#[test]
fn narrowing_keeps_only_tool_kind() {
    let mut minter = CapabilityMinter::new();
    let tool = minter.mint(CapabilityKind::Tool);
    let net = minter.mint(CapabilityKind::Net);
    assert!(tool.can_use_tool());
    assert!(!net.can_use_tool());
    assert!(tool.narrow_to_tool().is_some());
    assert!(net.narrow_to_tool().is_none());
}

#[test]
fn unknown_registry_tool_surfaces_as_execution_error() {
    let src = "tool Ghost input { } output { r: Int } cap toolCap;\ncall Ghost { } using toolCap timeout 10;\n";
    let typed = typecheck(parse_program(src).expect("parse")).expect("typecheck");
    let err = execute_with_defaults(
        typed,
        &ToolRegistry::with_mock_tools(),
        ExecOptions::default(),
    )
    .expect_err("tool execution");
    assert!(err.message().contains("tool execution failed: unknown tool: Ghost"));
}

#[test]
fn missing_output_field_fails_validation() {
    let src = "tool T input { } output { echo: String } cap toolCap;\ncall T { } using toolCap timeout 10;\n";
    let typed = typecheck(parse_program(src).expect("parse")).expect("typecheck");
    let mut reg = ToolRegistry::with_mock_tools();
    reg.register("T", ToolBehavior::Fixed("{\"other\":1}".to_string()));
    let err = execute_with_defaults(typed, &reg, ExecOptions::default()).expect_err("validation");
    assert!(err.message().contains("tool output missing required field: echo"));
}

#[test]
fn failing_tool_surfaces_its_error_text() {
    let src = "tool T input { } output { r: Int } cap toolCap;\ncall T { } using toolCap timeout 10;\n";
    let typed = typecheck(parse_program(src).expect("parse")).expect("typecheck");
    let mut reg = ToolRegistry::with_mock_tools();
    reg.register("T", ToolBehavior::Fail("boom".to_string()));
    let err = execute_with_defaults(typed, &reg, ExecOptions::default()).expect_err("failure");
    assert!(err.message().contains("tool execution failed: boom"));
}

#[test]
fn division_by_zero_is_an_evaluation_error() {
    let src = "let x = 1 / 0;\nprint x;\n";
    let typed = typecheck(parse_program(src).expect("parse")).expect("typecheck");
    let err = execute_with_defaults(
        typed,
        &ToolRegistry::with_mock_tools(),
        ExecOptions::default(),
    )
    .expect_err("division");
    assert!(err.message().contains("evaluation error: division by zero"));
}

#[test]
fn arithmetic_prints_expected_values() {
    assert_eq!(printed(&run("let x = 2 * 3;\nprint x;\n")), vec!["6".to_string()]);
    assert_eq!(printed(&run("let x = 7 / 2;\nprint x;\n")), vec!["3".to_string()]);
    assert_eq!(printed(&run("let x = 0 - 5;\nprint x;\n")), vec!["-5".to_string()]);
    assert_eq!(printed(&run("print true;\n")), vec!["true".to_string()]);
    assert_eq!(printed(&run("print \"hi\";\n")), vec!["hi".to_string()]);
}

#[test]
fn empty_log_digest_is_the_fnv_offset_basis() {
    let log = ReplayLog::default();
    assert_eq!(log.to_text(), "");
    assert_eq!(log.digest_hex(), "cbf29ce484222325");
}

#[test]
fn malformed_replay_line_reports_its_number() {
    let err = ReplayLog::from_text("PRINT|ok\nBOGUS|1\n").expect_err("parse error");
    assert_eq!(err, "line 2: invalid replay event");
    let err2 = ReplayLog::from_text("TIME|abc\n").expect_err("parse error");
    assert_eq!(err2, "line 1: invalid millis");
}

#[test]
fn escaped_fields_roundtrip_through_text() {
    let mut log = ReplayLog::default();
    log.push(Event::Print {
        value: "a\\b\nc".to_string(),
    });
    log.push(Event::Time { millis: 7 });
    let text = log.to_text();
    assert!(text.contains("PRINT|a\\\\b\\nc\n"));
    let back = ReplayLog::from_text(&text).expect("reparse");
    assert_eq!(back.events.len(), 2);
    assert!(matches!(&back.events[0], Event::Print { value } if value == "a\\b\nc"));
    assert_eq!(back.digest_hex(), log.digest_hex());
}

#[test]
fn blank_replay_lines_are_skipped() {
    let log = ReplayLog::from_text("TIME|5\n\n  \nRANDOM|9\n").expect("parse");
    assert_eq!(log.events.len(), 2);
    assert!(matches!(log.events[0], Event::Time { millis: 5 }));
    assert!(matches!(log.events[1], Event::Random { value: 9 }));
}

#[test]
fn seed_changes_the_digest() {
    let src = "let x = 5;\nprint x;\n";
    let a = execute_with_defaults(
        typecheck(parse_program(src).expect("parse")).expect("typecheck"),
        &ToolRegistry::with_mock_tools(),
        ExecOptions {
            deterministic_seed: 42,
        },
    )
    .expect("execute");
    let b = execute_with_defaults(
        typecheck(parse_program(src).expect("parse")).expect("typecheck"),
        &ToolRegistry::with_mock_tools(),
        ExecOptions {
            deterministic_seed: 43,
        },
    )
    .expect("execute");
    assert_ne!(a.digest_hex(), b.digest_hex());
}

#[test]
fn shadowing_rebinds_a_variable() {
    assert_eq!(
        printed(&run("let x = 1;\nlet x = x + 10;\nprint x;\n")),
        vec!["11".to_string()]
    );
}

#[test]
fn later_tool_declaration_wins() {
    let src = "tool T input { a: Int } output { r: Int } cap capX;\ntool T input { a: Int } output { r: Int } cap toolCap;\ncall T { a: 1 } using toolCap timeout 10;\n";
    let typed = typecheck(parse_program(src).expect("parse")).expect("typecheck");
    assert_eq!(typed.manifest.required_caps, vec!["toolCap".to_string()]);
}

#[test]
fn extra_call_site_arguments_are_accepted() {
    let src = "tool T input { a: Int } output { r: Int } cap toolCap;\ncall T { a: 1, b: 2 } using toolCap timeout 10;\n";
    let typed = typecheck(parse_program(src).expect("parse")).expect("typecheck");
    assert_eq!(typed.manifest.required_caps, vec!["toolCap".to_string()]);
}

#[test]
fn output_validation_is_textual_presence_only() {
    let src = "tool T input { } output { a: Int } cap toolCap;\ncall T { } using toolCap timeout 10;\n";
    let typed = typecheck(parse_program(src).expect("parse")).expect("typecheck");
    let mut reg = ToolRegistry::with_mock_tools();
    // The marker appears in the raw text without being a real field.
    reg.register("T", ToolBehavior::Fixed("{\"x\":1} trailing \"a\": note".to_string()));
    execute_with_defaults(typed, &reg, ExecOptions::default()).expect("spuriously valid");
}

#[test]
fn pipe_in_a_field_defeats_the_line_format() {
    // Splitting happens before unescaping, so an escaped pipe still splits
    // the line; such a log does not parse back.
    let mut log = ReplayLog::default();
    log.push(Event::Print {
        value: "a|b".to_string(),
    });
    let text = log.to_text();
    assert!(text.contains("PRINT|a\\|b\n"));
    assert!(ReplayLog::from_text(&text).is_err());
}
