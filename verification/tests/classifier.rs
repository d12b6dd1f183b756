use log_tally::classifier::{
    classify_lines, kind_of, recognize_line, ClassificationState, LineEffect, LineKind,
    PassOutcome, Signatures,
};
use log_tally::config::{
    LogConfig, BRACKETED_GRAMMAR, BRACKETED_TIME_FORMAT, DELIMITED_GRAMMAR,
    DELIMITED_TIME_FORMAT,
};

fn bracketed() -> LogConfig {
    LogConfig::new("app", "app*.log", BRACKETED_GRAMMAR, BRACKETED_TIME_FORMAT)
        .expect("the grammar compiles")
}

fn delimited() -> LogConfig {
    LogConfig::new("install", "install.log", DELIMITED_GRAMMAR, DELIMITED_TIME_FORMAT)
        .expect("the grammar compiles")
}

fn recognize(config: &LogConfig, line: &str) -> LineKind {
    recognize_line(config, &Signatures::new(), line)
}

fn classify(config: &LogConfig, lines: &[&str]) -> PassOutcome {
    classify_lines(config, &Signatures::new(), &texts(lines))
}

fn line_is_continuation(line: &str) -> bool {
    Signatures::new().found_in(line)
}

fn texts(lines: &[&str]) -> Vec<String> {
    lines.iter().map(|line| line.to_string()).collect()
}

fn state(in_continuation: bool, current_severity: &str) -> ClassificationState {
    ClassificationState { in_continuation, current_severity: current_severity.to_string() }
}

#[test]
fn structured_line_carries_its_severity() {
    let kind = recognize(&bracketed(), "2024-01-01 10:00:00.000 +00:00 [ERROR] boom");
    assert!(matches!(kind, LineKind::Structured { ref severity } if severity == "ERROR"));
    let kind = recognize(&bracketed(), "2023-12-31 23:59:59.999 -11:30 [Debug] x [y] z");
    assert!(matches!(kind, LineKind::Structured { ref severity } if severity == "Debug"));
}

#[test]
fn grammar_may_match_inside_the_line() {
    let kind = recognize(&bracketed(), ">> 2024-01-01 10:00:00.000 +00:00 [INFO] late");
    assert!(matches!(kind, LineKind::Structured { ref severity } if severity == "INFO"));
}

#[test]
fn banner_has_the_default_severity() {
    let kind = recognize(&delimited(), "=== Starting install 01-01-2024  10:00:00  ===");
    assert!(matches!(kind, LineKind::Structured { ref severity } if severity == "info"));
    let kind = recognize(&delimited(), "=== Done 29-02-2024  23:59:59  with errors ===");
    assert!(matches!(kind, LineKind::Structured { ref severity } if severity == "info"));
}

#[test]
fn timestamp_must_parse() {
    let kind = recognize(&bracketed(), "2024-02-30 10:00:00.000 +00:00 [INFO] no such day");
    assert!(matches!(
        kind,
        LineKind::BadTimestamp { time: Some(ref time) } if time == "2024-02-30 10:00:00.000 +00:00"
    ));
    let kind = recognize(&bracketed(), "2024-01-01 25:00:00.000 +00:00 [INFO] no such hour");
    assert!(matches!(kind, LineKind::BadTimestamp { time: Some(_) }));
    let kind = recognize(&delimited(), "=== Starting install 00-01-2024  10:00:00  ===");
    assert!(matches!(
        kind,
        LineKind::BadTimestamp { time: Some(ref time) } if time == "00-01-2024  10:00:00"
    ));
}

#[test]
fn timestamp_is_read_under_the_format_of_the_source() {
    let config = LogConfig::new("app", "app*.log", BRACKETED_GRAMMAR, DELIMITED_TIME_FORMAT)
        .expect("the grammar compiles");
    let kind = recognize(&config, "2024-01-01 10:00:00.000 +00:00 [ERROR] boom");
    assert!(matches!(kind, LineKind::BadTimestamp { time: Some(_) }));
}

#[test]
fn grammar_without_time_group_never_counts() {
    let config = LogConfig::new("app", "app*.log", r"\[(?P<severity>\w+)\]", "%Y")
        .expect("the grammar compiles");
    let kind = recognize(&config, "[ERROR] boom");
    assert!(matches!(kind, LineKind::BadTimestamp { time: None }));
    let outcome = classify(&config, &["[ERROR] boom"]);
    assert!(outcome.increments.is_empty());
    assert_eq!(outcome.bad_timestamps, vec![None]);
}

#[test]
fn both_signatures_compile() {
    assert!(Signatures::new().compiled());
}

#[test]
fn continuation_signatures() {
    assert!(line_is_continuation("   at Foo.bar()"));
    assert!(line_is_continuation("\tat Foo.bar() in C:\\src\\Foo.cs:line 12"));
    assert!(line_is_continuation(" at x"));
    assert!(line_is_continuation("System.NullReferenceException: Object reference not set"));
    assert!(line_is_continuation("AException: short"));
    assert!(line_is_continuation("my.pkg.CustomException:"));
    assert!(!line_is_continuation("at Foo.bar()"));
    assert!(!line_is_continuation("   at"));
    assert!(!line_is_continuation("   attach"));
    assert!(!line_is_continuation("System.NullReferenceException"));
    assert!(!line_is_continuation("System.Null_ReferenceException: x"));
    assert!(!line_is_continuation(" System.NullReferenceException: x"));
    assert!(!line_is_continuation("An Exception: x"));
    assert!(!line_is_continuation("Exception: no name before it"));
    assert!(!line_is_continuation(""));
}

#[test]
fn kinds_of_unstructured_lines() {
    let config = bracketed();
    assert!(matches!(recognize(&config, "   at Foo.bar()"), LineKind::Continuation));
    assert!(matches!(
        recognize(&config, "System.IO.IOException: disk full"),
        LineKind::Continuation
    ));
    assert!(matches!(recognize(&config, ""), LineKind::Blank));
    assert!(matches!(recognize(&config, "  \t "), LineKind::Blank));
    assert!(matches!(recognize(&config, "garbled binary noise"), LineKind::Unrecognized));
    assert!(matches!(
        recognize(&config, "2024-01-01 10:00:00 [ERROR] no millis"),
        LineKind::Unrecognized
    ));
    assert!(matches!(
        recognize(&delimited(), "2024-01-01 10:00:00.000 +00:00 [ERROR] boom"),
        LineKind::Unrecognized
    ));
}

#[test]
fn kind_is_decided_in_priority_order() {
    let some = |text: &str| Some(text.to_string());
    let kind = kind_of(Some((some("t"), some("WARN"))), true, true, true);
    assert!(matches!(kind, LineKind::Structured { ref severity } if severity == "WARN"));
    let kind = kind_of(Some((some("t"), None)), true, false, false);
    assert!(matches!(kind, LineKind::Structured { ref severity } if severity == "info"));
    let kind = kind_of(Some((some("t"), some("WARN"))), false, true, true);
    assert!(matches!(kind, LineKind::BadTimestamp { time: Some(ref time) } if time == "t"));
    let kind = kind_of(Some((None, some("WARN"))), true, true, true);
    assert!(matches!(kind, LineKind::BadTimestamp { time: None }));
    assert!(matches!(kind_of(None, true, true, true), LineKind::Continuation));
    assert!(matches!(kind_of(None, true, true, false), LineKind::Continuation));
    assert!(matches!(kind_of(None, true, false, true), LineKind::Blank));
    assert!(matches!(kind_of(None, false, false, false), LineKind::Unrecognized));
}

#[test]
fn pass_starts_outside_a_block_without_severity() {
    let start = ClassificationState::new();
    assert!(!start.in_continuation);
    assert_eq!(start.current_severity, "");
}

#[test]
fn structured_line_counts_and_closes_the_block() {
    let mut pass = state(true, "WARN");
    let effect = pass.observe(LineKind::Structured { severity: "ERROR".to_string() });
    assert!(matches!(effect, LineEffect::Increment { ref severity } if severity == "ERROR"));
    assert!(!pass.in_continuation);
    assert_eq!(pass.current_severity, "ERROR");
}

#[test]
fn first_continuation_line_counts_and_the_next_do_not() {
    let mut pass = state(false, "ERROR");
    let effect = pass.observe(LineKind::Continuation);
    assert!(matches!(effect, LineEffect::Increment { ref severity } if severity == "ERROR"));
    assert!(pass.in_continuation);
    assert_eq!(pass.current_severity, "ERROR");
    let effect = pass.observe(LineKind::Continuation);
    assert!(matches!(effect, LineEffect::Nothing));
    assert!(pass.in_continuation);
    assert_eq!(pass.current_severity, "ERROR");
}

#[test]
fn unrecognized_line_counts_as_unknown_and_closes_the_block() {
    let mut pass = state(true, "ERROR");
    let effect = pass.observe(LineKind::Unrecognized);
    assert!(matches!(effect, LineEffect::Increment { ref severity } if severity == "UNKNOWN"));
    assert!(!pass.in_continuation);
    assert_eq!(pass.current_severity, "ERROR");
}

#[test]
fn blank_line_and_bad_timestamp_leave_the_state() {
    for open in [false, true] {
        let mut pass = state(open, "ERROR");
        let effect = pass.observe(LineKind::Blank);
        assert!(matches!(effect, LineEffect::Nothing));
        assert_eq!(pass.in_continuation, open);
        assert_eq!(pass.current_severity, "ERROR");
        let effect = pass.observe(LineKind::BadTimestamp { time: Some("then".to_string()) });
        assert!(matches!(effect, LineEffect::Diagnostic { time: Some(ref time) } if time == "then"));
        assert_eq!(pass.in_continuation, open);
        assert_eq!(pass.current_severity, "ERROR");
    }
}

#[test]
fn block_before_any_structured_line_has_no_severity() {
    let outcome = classify(&bracketed(), &["   at Foo.bar()", "   at Baz.qux()"]);
    assert_eq!(outcome.increments, vec![""]);
}

#[test]
fn blank_line_does_not_close_a_block() {
    let outcome = classify(
        &bracketed(),
        &[
            "2024-01-01 10:00:00.000 +00:00 [ERROR] boom",
            "System.InvalidOperationException: boom",
            "   at Foo.bar()",
            "",
            "   at Baz.qux()",
            "2024-99-01 10:00:00.000 +00:00 [ERROR] not a date",
            "   at Late.frame()",
        ],
    );
    assert_eq!(outcome.increments, vec!["ERROR", "ERROR"]);
    assert_eq!(
        outcome.bad_timestamps,
        vec![Some("2024-99-01 10:00:00.000 +00:00".to_string())]
    );
}

#[test]
fn unknown_line_closes_a_block() {
    let outcome = classify(
        &bracketed(),
        &[
            "2024-01-01 10:00:00.000 +00:00 [FATAL] boom",
            "   at Foo.bar()",
            "--- End of inner exception stack trace ---",
            "   at Baz.qux()",
            "   at Baz.main()",
        ],
    );
    assert_eq!(outcome.increments, vec!["FATAL", "FATAL", "UNKNOWN", "FATAL"]);
    assert!(outcome.bad_timestamps.is_empty());
}

#[test]
fn pass_over_no_lines_counts_nothing() {
    let outcome = classify(&bracketed(), &[]);
    assert!(outcome.increments.is_empty());
    assert!(outcome.bad_timestamps.is_empty());
    let outcome = classify(&bracketed(), &["", "   ", "\t"]);
    assert!(outcome.increments.is_empty());
    assert!(outcome.bad_timestamps.is_empty());
}

#[test]
fn increments_are_one_per_logical_event() {
    let outcome = classify(
        &bracketed(),
        &[
            "noise",
            "2024-01-01 10:00:00.000 +00:00 [INFO] one",
            "2024-01-01 10:00:01.000 +00:00 [ERROR] two",
            "   at A.b()",
            "   at C.d()",
            "",
            "more noise",
            "   at E.f()",
            "2024-01-01 10:00:02.000 +00:00 [INFO] three",
        ],
    );
    assert_eq!(
        outcome.increments,
        vec!["UNKNOWN", "INFO", "ERROR", "ERROR", "UNKNOWN", "ERROR", "INFO"]
    );
}
