use log_tally::classifier::Signatures;
use log_tally::config::{get_extended_log_configs, LogConfig};
use log_tally::log_parser::{
    parse_logs, poll_cycle, scan_file, start_of_pass, Diagnostic, FilePass, FileSnapshot,
    FileTail, ObservedSource,
};
use log_tally::offsets::OffsetStore;

const ERROR_LINE: &str = "2024-01-01 10:00:00.000 +00:00 [ERROR] boom\n";
const INFO_LINE: &str = "2024-01-01 10:00:01.000 +00:00 [INFO] ok\r\n";

fn source(name: &str) -> LogConfig {
    get_extended_log_configs()
        .expect("the built-in grammars compile")
        .into_iter()
        .find(|config| config.name == name)
        .expect("a built-in source")
}

fn whole(content: &[u8]) -> FileTail {
    FileTail { from: 0, bytes: content.to_vec() }
}

fn tail(content: &[u8], from: usize) -> FileTail {
    FileTail { from: from as u64, bytes: content[from..].to_vec() }
}

fn file(path: &str, content: &str) -> FileSnapshot {
    FileSnapshot { path: path.to_string(), tail: Some(whole(content.as_bytes())) }
}

fn file_from(path: &str, content: &str, from: usize) -> FileSnapshot {
    FileSnapshot { path: path.to_string(), tail: Some(tail(content.as_bytes(), from)) }
}

fn missing(path: &str) -> FileSnapshot {
    FileSnapshot { path: path.to_string(), tail: None }
}

fn scan(config: &LogConfig, content: &[u8], stored: u64) -> FilePass {
    scan_file(config, &Signatures::new(), &whole(content), stored)
        .expect("a whole file covers every pass")
}

#[test]
fn reading_starts_at_the_offset_unless_the_file_is_shorter() {
    assert_eq!(start_of_pass(0, 0), 0);
    assert_eq!(start_of_pass(0, 10), 0);
    assert_eq!(start_of_pass(10, 10), 10);
    assert_eq!(start_of_pass(10, 11), 10);
    assert_eq!(start_of_pass(10, 9), 0);
    assert_eq!(start_of_pass(u64::MAX, u64::MAX), u64::MAX);
    assert_eq!(start_of_pass(u64::MAX, 0), 0);
}

#[test]
fn tail_read_from_the_offset_covers_the_pass() {
    let config = source("IvsAgent");
    let content = format!("{}{}", ERROR_LINE, INFO_LINE);
    for from in [0usize, 10, 44] {
        let pass = scan_file(&config, &Signatures::new(), &tail(content.as_bytes(), from), 44).expect("covered");
        assert_eq!(pass.increments, vec!["INFO"]);
        assert_eq!(pass.next_offset, 86);
    }
    let pass = scan_file(&config, &Signatures::new(), &tail(content.as_bytes(), 86), 86).expect("covered");
    assert!(pass.increments.is_empty());
    assert_eq!(pass.next_offset, 86);
}

#[test]
fn tail_that_starts_behind_the_pass_is_refused() {
    let config = source("IvsAgent");
    let content = format!("{}{}", ERROR_LINE, INFO_LINE);
    assert!(scan_file(&config, &Signatures::new(), &tail(content.as_bytes(), 45), 44).is_none());
    assert!(scan_file(&config, &Signatures::new(), &tail(content.as_bytes(), 1), 0).is_none());
    assert!(scan_file(&config, &Signatures::new(), &tail(content.as_bytes(), 1), 87).is_none());
    assert!(scan_file(&config, &Signatures::new(), &tail(content.as_bytes(), 86), 90).is_none());
}

#[test]
fn tail_of_a_file_too_large_for_an_offset_is_refused() {
    let config = source("IvsAgent");
    let far = FileTail { from: u64::MAX, bytes: b"x".to_vec() };
    assert!(scan_file(&config, &Signatures::new(), &far, u64::MAX).is_none());
    let edge = FileTail { from: u64::MAX - 1, bytes: b"\n".to_vec() };
    let pass = scan_file(&config, &Signatures::new(), &edge, u64::MAX - 1).expect("covered");
    assert_eq!(pass.next_offset, u64::MAX);
}

#[test]
fn pass_starts_at_the_stored_offset() {
    let config = source("IvsAgent");
    let content = format!("{}{}", ERROR_LINE, INFO_LINE);
    let pass = scan(&config, content.as_bytes(), 0);
    assert_eq!(pass.increments, vec!["ERROR", "INFO"]);
    assert_eq!(pass.next_offset, 86);
    let pass = scan(&config, content.as_bytes(), 44);
    assert_eq!(pass.increments, vec!["INFO"]);
    assert_eq!(pass.next_offset, 86);
    let pass = scan(&config, content.as_bytes(), 86);
    assert!(pass.increments.is_empty());
    assert_eq!(pass.next_offset, 86);
}

#[test]
fn pass_stops_behind_the_last_whole_line() {
    let config = source("IvsAgent");
    let content = format!("{}2024-01-01 10:00:01.000 +00:00 [INFO] not yet wri", ERROR_LINE);
    let pass = scan(&config, content.as_bytes(), 0);
    assert_eq!(pass.increments, vec!["ERROR"]);
    assert_eq!(pass.next_offset, 44);
    let pass = scan(&config, content.as_bytes(), 44);
    assert!(pass.increments.is_empty());
    assert_eq!(pass.next_offset, 44);
    let pass = scan(&config, content.as_bytes(), 50);
    assert!(pass.increments.is_empty());
    assert_eq!(pass.next_offset, 50);
}

#[test]
fn shorter_file_is_scanned_from_its_start() {
    let config = source("IvsAgent");
    let pass = scan(&config, ERROR_LINE.as_bytes(), 45);
    assert_eq!(pass.increments, vec!["ERROR"]);
    assert_eq!(pass.next_offset, 44);
    let pass = scan(&config, ERROR_LINE.as_bytes(), u64::MAX);
    assert_eq!(pass.increments, vec!["ERROR"]);
    assert_eq!(pass.next_offset, 44);
    let pass = scan(&config, b"", 7);
    assert!(pass.increments.is_empty());
    assert_eq!(pass.next_offset, 0);
}

#[test]
fn pass_reports_unusable_timestamps() {
    let config = source("IvsAgent");
    let content = "2024-01-32 10:00:00.000 +00:00 [ERROR] boom\nnoise\n";
    let pass = scan(&config, content.as_bytes(), 0);
    assert_eq!(pass.increments, vec!["UNKNOWN"]);
    assert_eq!(pass.bad_timestamps, vec![Some("2024-01-32 10:00:00.000 +00:00".to_string())]);
    assert_eq!(pass.next_offset, 50);
}

#[test]
fn poll_advances_the_offsets() {
    let config = source("IvsAgent");
    let mut store = OffsetStore::new();
    let files = vec![
        file("a.log", &format!("{}{}", ERROR_LINE, INFO_LINE)),
        file("b.log", "   at Foo.bar()\n"),
        file("c.log", "no line feed"),
    ];
    let report = parse_logs(&config, &mut store, &files);
    assert_eq!(report.increments, vec!["ERROR", "INFO", ""]);
    assert!(report.diagnostics.is_empty());
    assert_eq!(store.get_offset("a.log"), 86);
    assert_eq!(store.get_offset("b.log"), 16);
    assert_eq!(store.get_offset("c.log"), 0);
}

#[test]
fn poll_without_new_bytes_changes_nothing() {
    let config = source("IvsSync");
    let mut store = OffsetStore::new();
    let files = vec![
        file("a.log", &format!("{}{}half a li", ERROR_LINE, INFO_LINE)),
        file("b.log", "noise\n   at Foo.bar()\n"),
    ];
    let first = parse_logs(&config, &mut store, &files);
    assert_eq!(first.increments, vec!["ERROR", "INFO", "UNKNOWN", ""]);
    for _ in 0..3 {
        let again = parse_logs(&config, &mut store, &files);
        assert!(again.increments.is_empty());
        assert!(again.diagnostics.is_empty());
        assert_eq!(store.get_offset("a.log"), 86);
        assert_eq!(store.get_offset("b.log"), 22);
    }
}

#[test]
fn appended_lines_are_counted_once() {
    let config = source("IvsAgent");
    let mut store = OffsetStore::new();
    let before = format!("{}{}", ERROR_LINE, INFO_LINE);
    let first = parse_logs(&config, &mut store, &vec![file("a.log", &before)]);
    assert_eq!(first.increments, vec!["ERROR", "INFO"]);
    let appended = format!(
        "{}   at Foo.bar()\n   at Baz.qux()\n\nnoise\n{}",
        ERROR_LINE, INFO_LINE
    );
    let grown = format!("{}{}", before, appended);
    let second = parse_logs(&config, &mut store, &vec![file("a.log", &grown)]);
    assert_eq!(second.increments, vec!["ERROR", "ERROR", "UNKNOWN", "INFO"]);
    assert_eq!(store.get_offset("a.log"), grown.len() as u64);
}

#[test]
fn polls_at_any_moment_read_every_line_once() {
    let config = source("IvsAgent");
    let content = format!(
        "{}noise\r\n{}\n{}\r\nmore noise\n2024-01-01 10:00:00.000 +00:00 [WARN] w\n",
        ERROR_LINE, INFO_LINE, ERROR_LINE
    );
    let mut at_once = OffsetStore::new();
    let expected = parse_logs(&config, &mut at_once, &vec![file("a.log", &content)]).increments;
    assert_eq!(expected, vec!["ERROR", "UNKNOWN", "INFO", "ERROR", "UNKNOWN", "WARN"]);
    for cut in 0..=content.len() {
        let mut store = OffsetStore::new();
        let mut seen = parse_logs(&config, &mut store, &vec![file("a.log", &content[..cut])])
            .increments;
        let from = start_of_pass(store.get_offset("a.log"), content.len() as u64) as usize;
        seen.extend(
            parse_logs(&config, &mut store, &vec![file_from("a.log", &content, from)]).increments,
        );
        assert_eq!(seen, expected, "cut at {}", cut);
        assert_eq!(store.get_offset("a.log"), content.len() as u64);
    }
}

#[test]
fn block_cut_by_a_poll_is_counted_again_without_severity() {
    let config = source("IvsAgent");
    let mut store = OffsetStore::new();
    let before = format!("{}   at Foo.bar()\n", ERROR_LINE);
    let first = parse_logs(&config, &mut store, &vec![file("a.log", &before)]);
    assert_eq!(first.increments, vec!["ERROR", "ERROR"]);
    let grown = format!("{}   at Baz.qux()\n   at Baz.main()\n", before);
    let second = parse_logs(&config, &mut store, &vec![file("a.log", &grown)]);
    assert_eq!(second.increments, vec![""]);
}

#[test]
fn only_the_file_that_grew_is_counted() {
    let config = source("IvsTray");
    let mut store = OffsetStore::new();
    let files = vec![
        file("a.log", ERROR_LINE),
        file("b.log", &format!("{}{}", INFO_LINE, ERROR_LINE)),
        missing("c.log"),
        file("d.log", "noise\n"),
    ];
    let first = parse_logs(&config, &mut store, &files);
    assert_eq!(first.increments, vec!["ERROR", "INFO", "ERROR", "UNKNOWN"]);
    let grown = format!("{}{}{}   at Foo.bar()\n\nnoise\n", INFO_LINE, ERROR_LINE, ERROR_LINE);
    for from in [0usize, 40, 86] {
        let mut again = OffsetStore::new();
        parse_logs(&config, &mut again, &files);
        let files = vec![
            file("a.log", ERROR_LINE),
            file_from("b.log", &grown, from),
            missing("c.log"),
            file("d.log", "noise\n"),
        ];
        let second = parse_logs(&config, &mut again, &files);
        assert_eq!(second.increments, vec!["ERROR", "ERROR", "UNKNOWN"]);
        assert_eq!(again.get_offset("a.log"), 44);
        assert_eq!(again.get_offset("b.log"), grown.len() as u64);
        assert_eq!(again.get_offset("c.log"), 0);
        assert_eq!(again.get_offset("d.log"), 6);
    }
}

#[test]
fn offset_never_passes_the_end_of_the_file() {
    let config = source("IvsAgent");
    let content = format!("{}{}rest", ERROR_LINE, INFO_LINE);
    for stored in 0..=(content.len() as u64 + 2) {
        let pass = scan(&config, content.as_bytes(), stored);
        assert!(pass.next_offset <= content.len() as u64);
        if stored <= content.len() as u64 {
            assert!(stored <= pass.next_offset);
        } else {
            assert_eq!(pass.next_offset, 86);
        }
    }
}

#[test]
fn line_finished_later_is_counted_when_it_is_whole() {
    let config = source("IvsAgent");
    let mut store = OffsetStore::new();
    let first = parse_logs(&config, &mut store, &vec![file("a.log", &ERROR_LINE[..20])]);
    assert!(first.increments.is_empty());
    assert_eq!(store.get_offset("a.log"), 0);
    let second = parse_logs(&config, &mut store, &vec![file("a.log", ERROR_LINE)]);
    assert_eq!(second.increments, vec!["ERROR"]);
    assert_eq!(store.get_offset("a.log"), 44);
}

#[test]
fn truncated_file_is_read_again_from_its_start() {
    let config = source("IvsAgent");
    let mut store = OffsetStore::new();
    let long = format!("{}{}{}", ERROR_LINE, INFO_LINE, ERROR_LINE);
    parse_logs(&config, &mut store, &vec![file("a.log", &long)]);
    assert_eq!(store.get_offset("a.log"), 130);
    let rotated = format!("{}noise\n", INFO_LINE);
    let report = parse_logs(&config, &mut store, &vec![file("a.log", &rotated)]);
    assert_eq!(report.increments, vec!["INFO", "UNKNOWN"]);
    assert_eq!(store.get_offset("a.log"), 48);
    let emptied = parse_logs(&config, &mut store, &vec![file("a.log", "")]);
    assert!(emptied.increments.is_empty());
    assert_eq!(store.get_offset("a.log"), 0);
}

#[test]
fn poll_takes_tails_read_from_the_offsets() {
    let config = source("IvsAgent");
    let mut store = OffsetStore::new();
    let before = format!("{}half", ERROR_LINE);
    let first = parse_logs(&config, &mut store, &vec![file("a.log", &before)]);
    assert_eq!(first.increments, vec!["ERROR"]);
    assert_eq!(store.get_offset("a.log"), 44);
    let grown = format!("{} a line\n{}", before, INFO_LINE);
    let from = start_of_pass(store.get_offset("a.log"), grown.len() as u64) as usize;
    assert_eq!(from, 44);
    let second = parse_logs(&config, &mut store, &vec![file_from("a.log", &grown, from)]);
    assert_eq!(second.increments, vec!["UNKNOWN", "INFO"]);
    assert_eq!(store.get_offset("a.log"), grown.len() as u64);
    let from = start_of_pass(store.get_offset("a.log"), grown.len() as u64) as usize;
    let third = parse_logs(&config, &mut store, &vec![file_from("a.log", &grown, from)]);
    assert!(third.increments.is_empty());
    assert_eq!(store.get_offset("a.log"), grown.len() as u64);
}

#[test]
fn tail_that_does_not_cover_costs_one_diagnostic() {
    let config = source("IvsAgent");
    let mut store = OffsetStore::new();
    store.set_offset("a.log", 10);
    let content = format!("{}{}", ERROR_LINE, INFO_LINE);
    let files = vec![file_from("a.log", &content, 44), file("b.log", INFO_LINE)];
    let report = parse_logs(&config, &mut store, &files);
    assert_eq!(report.increments, vec!["INFO"]);
    assert_eq!(report.diagnostics.len(), 1);
    assert!(matches!(
        &report.diagnostics[0],
        Diagnostic::SourceUnavailable { path } if path == "a.log"
    ));
    assert_eq!(store.get_offset("a.log"), 10);
    assert_eq!(store.get_offset("b.log"), 42);
}

#[test]
fn unreadable_file_costs_one_diagnostic() {
    let config = source("IvsAgent");
    let mut store = OffsetStore::new();
    store.set_offset("gone.log", 12);
    let files = vec![file("a.log", ERROR_LINE), missing("gone.log"), file("z.log", INFO_LINE)];
    let report = parse_logs(&config, &mut store, &files);
    assert_eq!(report.increments, vec!["ERROR", "INFO"]);
    assert_eq!(report.diagnostics.len(), 1);
    assert!(matches!(
        &report.diagnostics[0],
        Diagnostic::SourceUnavailable { path } if path == "gone.log"
    ));
    assert_eq!(store.get_offset("a.log"), 44);
    assert_eq!(store.get_offset("gone.log"), 12);
    assert_eq!(store.get_offset("z.log"), 42);
}

#[test]
fn unusable_timestamp_is_reported_with_its_file() {
    let config = source("wazuh-install");
    let mut store = OffsetStore::new();
    let files = vec![file(
        "wazuh-install.log",
        "=== Starting install 01-01-2024  10:00:00  ===\r\n=== Done 41-01-2024  10:00:00  ===\r\n",
    )];
    let report = parse_logs(&config, &mut store, &files);
    assert_eq!(report.increments, vec!["info"]);
    assert_eq!(report.diagnostics.len(), 1);
    assert!(matches!(
        &report.diagnostics[0],
        Diagnostic::TimestampParse { path, time: Some(time) }
            if path == "wazuh-install.log" && time == "41-01-2024  10:00:00"
    ));
    assert_eq!(store.get_offset("wazuh-install.log"), 84);
}

#[test]
fn continuation_is_not_folded_across_files() {
    let config = source("IvsAgent");
    let mut store = OffsetStore::new();
    let files = vec![file("a.log", ERROR_LINE), file("b.log", "   at Foo.bar()\n")];
    let report = parse_logs(&config, &mut store, &files);
    assert_eq!(report.increments, vec!["ERROR", ""]);
}

#[test]
fn cycle_polls_every_source() {
    let mut store = OffsetStore::new();
    let (agent, sync, tray, wazuh) =
        (source("IvsAgent"), source("IvsSync"), source("IvsTray"), source("wazuh-install"));
    let sources = vec![
        ObservedSource {
            config: &agent,
            files: Some(vec![file("IvsAgent1.log", ERROR_LINE), missing("IvsAgent2.log")]),
        },
        ObservedSource { config: &sync, files: None },
        ObservedSource { config: &tray, files: Some(Vec::new()) },
        ObservedSource {
            config: &wazuh,
            files: Some(vec![file(
                "wazuh-install.log",
                "=== Starting install 01-01-2024  10:00:00  ===\nnoise\n",
            )]),
        },
    ];
    let report = poll_cycle(&sources, &mut store);
    let increments: Vec<(&str, &str)> = report
        .increments
        .iter()
        .map(|increment| (increment.source.as_str(), increment.severity.as_str()))
        .collect();
    assert_eq!(
        increments,
        vec![("IvsAgent", "ERROR"), ("wazuh-install", "info"), ("wazuh-install", "UNKNOWN")]
    );
    assert_eq!(report.diagnostics.len(), 2);
    assert!(matches!(
        &report.diagnostics[0],
        Diagnostic::SourceUnavailable { path } if path == "IvsAgent2.log"
    ));
    assert!(matches!(
        &report.diagnostics[1],
        Diagnostic::PatternExpansion { source } if source == "IvsSync"
    ));
    assert_eq!(store.get_offset("IvsAgent1.log"), 44);
    assert_eq!(store.get_offset("wazuh-install.log"), 53);
    let again = poll_cycle(&sources, &mut store);
    assert!(again.increments.is_empty());
    assert_eq!(again.diagnostics.len(), 2);
}

#[test]
fn sources_share_the_offsets() {
    let mut store = OffsetStore::new();
    let (agent, sync) = (source("IvsAgent"), source("IvsSync"));
    let sources = vec![
        ObservedSource { config: &agent, files: Some(vec![file("shared.log", ERROR_LINE)]) },
        ObservedSource { config: &sync, files: Some(vec![file("shared.log", ERROR_LINE)]) },
    ];
    let report = poll_cycle(&sources, &mut store);
    assert_eq!(report.increments.len(), 1);
    assert_eq!(report.increments[0].source, "IvsAgent");
}
