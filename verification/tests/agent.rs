use ringi::agent::{parse_structured, structured_line, trim_text, SubprocessAdapter};

#[test]
fn the_last_json_line_of_stdout_is_the_structured_output() {
    let stdout = "log: starting\n{\"status\":\"completed\",\"summary\":\"ok\"}\n";
    let value = parse_structured(stdout).expect("structured output parsed");
    assert_eq!(value["status"], "completed");
    assert_eq!(
        structured_line(stdout).as_deref(),
        Some("{\"status\":\"completed\",\"summary\":\"ok\"}")
    );
}

#[test]
fn a_later_json_line_wins_over_an_earlier_one() {
    let stdout = "{\"n\":1}\nnoise\n  {\"n\":2}  \r\ntrailing words\n";
    assert_eq!(structured_line(stdout).as_deref(), Some("{\"n\":2}"));
    assert_eq!(parse_structured(stdout).unwrap()["n"], 2);
}

#[test]
fn malformed_output_yields_no_structured_value() {
    assert!(parse_structured("not json at all").is_none());
    assert!(structured_line("").is_none());
    assert!(parse_structured("{ broken").is_none());
}

#[test]
fn trimming_removes_unicode_white_space_at_both_ends_only() {
    assert_eq!(trim_text("\u{3000} a b \t\n"), "a b");
    assert_eq!(trim_text("   "), "");
    assert_eq!(trim_text("x"), "x");
}

#[test]
fn an_adapter_keeps_its_program_and_arguments() {
    let a = SubprocessAdapter::new("agent-cli", vec!["--json".to_string()]);
    assert_eq!(a.program(), "agent-cli");
    assert_eq!(a.args(), &vec!["--json".to_string()]);
}
