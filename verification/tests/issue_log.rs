use jj_worktree::issue_log::{
    cmdline_from_proc, issue_entry, log_path, notice, process_name_text, IssueKind,
};

#[test]
fn issue_kind_as_str_values() {
    assert_eq!(IssueKind::UnknownOption.as_str(), "unknown_option");
    assert_eq!(IssueKind::ParseError.as_str(), "parse_error");
    assert_eq!(
        IssueKind::UnsupportedCombination.as_str(),
        "unsupported_combination"
    );
}

#[test]
fn issue_kind_labels() {
    assert_eq!(IssueKind::UnknownOption.human_label(), "unknown option");
    assert_eq!(IssueKind::ParseError.human_label(), "parse error");
    assert_eq!(
        IssueKind::UnsupportedCombination.human_label(),
        "unsupported combination"
    );
}

#[test]
fn log_path_uses_override_env() {
    assert_eq!(
        log_path(Some("/tmp/jj-worktree-test.log"), Some("/state"), Some("/home/u")),
        "/tmp/jj-worktree-test.log",
        "JJ_WORKTREE_ISSUE_LOG should take precedence"
    );
}

#[test]
fn log_path_fallback_order() {
    assert_eq!(
        log_path(None, Some("/state"), Some("/home/u")),
        "/state/jj-worktree/issues.log"
    );
    assert_eq!(
        log_path(None, None, Some("/home/u")),
        "/home/u/.local/state/jj-worktree/issues.log"
    );
    assert_eq!(log_path(None, None, None), "./jj-worktree-issues.log");
}

#[test]
fn report_writes_jsonl_entry() {
    let argv: Vec<String> = ["git", "worktree", "add", "--no-track", "../foo"]
        .iter()
        .map(|a| a.to_string())
        .collect();
    let line = issue_entry(
        IssueKind::UnknownOption,
        "git worktree add",
        Some("--no-track"),
        &argv,
        4242,
        "editor session",
        1_774_612_800,
    );
    let parsed: serde_json::Value =
        serde_json::from_str(&line).expect("each line must be valid JSON");
    assert_eq!(parsed["kind"], "unknown_option");
    assert_eq!(parsed["cmd"], "git worktree add");
    assert_eq!(parsed["option"], "--no-track");
    assert!(parsed["argv"].is_array());
    assert!(parsed["ts"].is_string());
}

#[test]
fn issue_entry_exact_text() {
    let argv: Vec<String> = vec!["a\"b".to_string(), "c".to_string()];
    let line = issue_entry(IssueKind::ParseError, "cmd", None, &argv, 7, "x", 0);
    assert_eq!(
        line,
        r#"{"argv":["a\"b","c"],"caller_cmdline":"x","caller_pid":7,"cmd":"cmd","kind":"parse_error","option":null,"ts":"1970-01-01T00:00:00Z"}"#
    );
    let mut expected = serde_json::Map::new();
    expected.insert("ts".to_string(), serde_json::Value::from("1970-01-01T00:00:00Z"));
    expected.insert("kind".to_string(), serde_json::Value::from("parse_error"));
    expected.insert("cmd".to_string(), serde_json::Value::from("cmd"));
    expected.insert("option".to_string(), serde_json::Value::Null);
    expected.insert("argv".to_string(), serde_json::Value::from(argv.clone()));
    expected.insert("caller_pid".to_string(), serde_json::Value::from(7u32));
    expected.insert("caller_cmdline".to_string(), serde_json::Value::from("x"));
    let expected = serde_json::Value::Object(expected);
    assert_eq!(line, expected.to_string());
}

#[test]
fn issue_entry_timestamp_and_empty_argv() {
    let line = issue_entry(IssueKind::UnknownOption, "c", Some("-z"), &[], 0, "", 1_774_612_800);
    assert!(line.starts_with(r#"{"argv":[],"caller_cmdline":"","caller_pid":0,"#));
    assert!(line.ends_with(r#""option":"-z","ts":"2026-03-27T12:00:00Z"}"#));
}

#[test]
fn notice_text_for_unknown_option() {
    let text = notice(IssueKind::UnknownOption, Some("--no-track"), "/tmp/issues.log");
    assert!(text.starts_with("warning: unknown option: --no-track (accepted as no-op)\n\n"));
    assert!(text.contains("The incident has been logged to /tmp/issues.log\n\n[For AI agents]"));
    assert!(text.ends_with("and what you tried to do."));
    let bare = notice(IssueKind::ParseError, None, "p");
    assert!(bare.starts_with("warning: parse error (accepted as no-op)"));
}

#[test]
fn proc_cmdline_is_joined_with_spaces() {
    assert_eq!(cmdline_from_proc(b"editor\0session\0--flag\0"), "editor session --flag");
    assert_eq!(cmdline_from_proc(b"\0\0a\0\0b"), "a b");
    assert_eq!(cmdline_from_proc(b""), "");
    assert_eq!(cmdline_from_proc(b"a\xffb\0"), "a\u{fffd}b");
}

#[test]
fn process_name_is_trimmed_text() {
    assert_eq!(process_name_text(b"  editor\n"), "editor");
    assert_eq!(process_name_text(b"\xff"), "\u{fffd}");
}

#[test]
fn issue_entry_escapes_control_characters() {
    let argv: Vec<String> = vec!["a\u{1}b".to_string(), "t\tq\\\n\u{1f}".to_string()];
    let line = issue_entry(IssueKind::UnknownOption, "c", Some("-\u{8}\u{c}\r"), &argv, 1, "é", 0);
    assert_eq!(
        line,
        "{\"argv\":[\"a\\u0001b\",\"t\\tq\\\\\\n\\u001f\"],\"caller_cmdline\":\"é\",\"caller_pid\":1,\"cmd\":\"c\",\"kind\":\"unknown_option\",\"option\":\"-\\b\\f\\r\",\"ts\":\"1970-01-01T00:00:00Z\"}"
    );
}

#[test]
fn issue_entry_timestamp_before_epoch() {
    let line = issue_entry(IssueKind::ParseError, "c", None, &[], 1, "", -1);
    assert!(line.ends_with(",\"ts\":\"1969-12-31T23:59:59Z\"}"), "{line}");
}
