use jj_worktree::issue_log::{issue_entry, IssueKind};
use jj_worktree::worktree::{
    check_list_args, fallback_workspace_path, format_list, is_protected_workspace, list_entry,
    parse_add_args, parse_remote_names, parse_remove_args, parse_workspace_names,
    reports_changes, run, translate_git_ref, workspace_for_dir, workspace_name, FallbackPath,
    ListEntry, WorktreeCommand,
};

fn s(args: &[&str]) -> Vec<String> {
    args.iter().map(|a| a.to_string()).collect()
}

/// The log line that reporting the first unknown option of `args` would write.
fn first_report(args: &[String], unknown: &[String]) -> String {
    issue_entry(
        IssueKind::UnknownOption,
        "git worktree add",
        Some(unknown[0].as_str()),
        args,
        1,
        "",
        1_700_000_000,
    )
}

#[test]
fn parse_add_args_basic_path() {
    let parsed = parse_add_args(&s(&["../foo"])).unwrap();
    assert_eq!(parsed.path, "../foo");
    assert!(parsed.branch.is_none());
    assert!(parsed.commit_ish.is_none());
}

#[test]
fn parse_add_args_with_branch() {
    let parsed = parse_add_args(&s(&["-b", "feat/x", "../foo"])).unwrap();
    assert_eq!(parsed.branch, Some("feat/x".to_string()));
    assert_eq!(parsed.path, "../foo");
}

#[test]
fn parse_add_args_with_uppercase_b_branch() {
    let parsed = parse_add_args(&s(&["-B", "feat/x", "../foo"])).unwrap();
    assert_eq!(parsed.branch, Some("feat/x".to_string()));
    assert_eq!(parsed.path, "../foo");
}

#[test]
fn parse_add_args_with_commit_ish() {
    let parsed = parse_add_args(&s(&["../foo", "main"])).unwrap();
    assert_eq!(parsed.path, "../foo");
    assert_eq!(parsed.commit_ish, Some("main".to_string()));
}

#[test]
fn parse_add_args_no_track_is_accepted_as_noop() {
    let parsed = parse_add_args(&s(&["--no-track", "../foo", "main"])).unwrap();
    assert_eq!(parsed.path, "../foo");
    assert_eq!(parsed.commit_ish, Some("main".to_string()));
}

#[test]
fn parse_add_args_track_is_accepted_as_noop() {
    let parsed = parse_add_args(&s(&["--track", "../foo"])).unwrap();
    assert_eq!(parsed.path, "../foo");
}

#[test]
fn parse_add_args_detach_is_accepted_as_noop() {
    let parsed = parse_add_args(&s(&["--detach", "../foo"])).unwrap();
    assert_eq!(parsed.path, "../foo");
}

#[test]
fn parse_add_args_lock_is_accepted_as_noop() {
    let parsed = parse_add_args(&s(&["--lock", "../foo"])).unwrap();
    assert_eq!(parsed.path, "../foo");
}

#[test]
fn parse_add_args_reason_consumes_value() {
    // --reason VAL must consume VAL, leaving "../foo" as the path.
    let parsed = parse_add_args(&s(&["--reason", "doing-stuff", "../foo"])).unwrap();
    assert_eq!(parsed.path, "../foo");
    assert!(parsed.commit_ish.is_none());
}

#[test]
fn parse_add_args_guess_remote_variants_accepted() {
    assert!(parse_add_args(&s(&["--guess-remote", "../foo"])).is_ok());
    assert!(parse_add_args(&s(&["--no-guess-remote", "../foo"])).is_ok());
}

#[test]
fn parse_add_args_unknown_flag_is_accepted_with_log() {
    let args = s(&["--brand-new-flag", "../foo"]);
    let parsed = parse_add_args(&args).unwrap();
    assert_eq!(parsed.path, "../foo");
    // The unknown option is listed for reporting, and its log line names it.
    assert_eq!(parsed.unknown_options, s(&["--brand-new-flag"]));
    let content = first_report(&args, &parsed.unknown_options);
    assert!(content.contains("unknown_option"));
    assert!(content.contains("--brand-new-flag"));
}

#[test]
fn parse_add_args_unknown_equals_form_is_accepted_with_log() {
    let args = s(&["--brand-new-flag=val", "../foo"]);
    let parsed = parse_add_args(&args).unwrap();
    assert_eq!(parsed.path, "../foo");
    // The option name (without "=val") is reported.
    assert_eq!(parsed.unknown_options, s(&["--brand-new-flag"]));
    let content = first_report(&args, &parsed.unknown_options);
    assert!(content.contains("--brand-new-flag"));
    // The "=val" suffix must not break path parsing — single-arg consumption.
    assert!(parsed.commit_ish.is_none());
}

#[test]
fn parse_add_args_known_flag_does_not_log() {
    let parsed = parse_add_args(&s(&["--no-track", "../foo"])).unwrap();
    assert!(
        parsed.unknown_options.is_empty(),
        "known no-op flags should not trigger issue logging"
    );
}

#[test]
fn parse_add_args_missing_path_errors() {
    assert!(parse_add_args(&s(&[])).is_err());
    assert!(parse_add_args(&s(&["--no-track"])).is_err());
}

#[test]
fn parse_add_args_b_without_value_errors() {
    assert!(parse_add_args(&s(&["-b"])).is_err());
}

#[test]
fn parse_add_args_too_many_positionals_errors() {
    assert!(parse_add_args(&s(&["a", "b", "c"])).is_err());
}

#[test]
fn parse_add_args_error_messages() {
    assert_eq!(
        parse_add_args(&s(&[])).unwrap_err().message,
        "missing required argument: <path>"
    );
    assert_eq!(
        parse_add_args(&s(&["-b"])).unwrap_err().message,
        "-b requires a branch name"
    );
    assert_eq!(
        parse_add_args(&s(&["a", "b", "c"])).unwrap_err().message,
        "unexpected argument: c"
    );
}

#[test]
fn parse_add_args_reports_before_error() {
    let err = parse_add_args(&s(&["-x", "a", "b", "c"])).unwrap_err();
    assert_eq!(err.unknown_options, s(&["-x"]));
}

#[test]
fn parse_add_args_known_equals_forms_are_silent() {
    let parsed = parse_add_args(&s(&["--reason=why", "--track=x", "../foo"])).unwrap();
    assert!(parsed.unknown_options.is_empty());
    assert_eq!(parsed.path, "../foo");
}

#[test]
fn parse_add_args_bare_unknown_does_not_take_value() {
    let parsed = parse_add_args(&s(&["--orphan", "../foo", "main"])).unwrap();
    assert_eq!(parsed.path, "../foo");
    assert_eq!(parsed.commit_ish, Some("main".to_string()));
    assert_eq!(parsed.unknown_options, s(&["--orphan"]));
}

#[test]
fn parse_add_args_known_switch_in_front_changes_nothing() {
    let plain = parse_add_args(&s(&["-b", "x", "../foo", "main"])).unwrap();
    let with = parse_add_args(&s(&["--detach", "-b", "x", "../foo", "main"])).unwrap();
    assert_eq!(plain.path, with.path);
    assert_eq!(plain.branch, with.branch);
    assert_eq!(plain.commit_ish, with.commit_ish);
    assert_eq!(plain.unknown_options, with.unknown_options);
}

#[test]
fn run_selects_subcommand() {
    match run(&s(&["add", "../foo", "-b", "x"])).unwrap() {
        WorktreeCommand::Add(rest) => assert_eq!(rest, s(&["../foo", "-b", "x"])),
        _ => panic!("expected add"),
    }
    assert!(matches!(run(&s(&["list"])).unwrap(), WorktreeCommand::List(_)));
    assert!(matches!(run(&s(&["remove", "p"])).unwrap(), WorktreeCommand::Remove(_)));
    assert_eq!(run(&s(&[])).err().unwrap(), "no subcommand provided");
    assert_eq!(
        run(&s(&["prune"])).err().unwrap(),
        "unknown worktree subcommand: prune"
    );
}

#[test]
fn workspace_names_from_jj_list() {
    let out = "default: psxyrnyw cb030518 (no description set)\n  fix: mtmy d19a (empty)\n\nmain: lokp 1f6c (empty)\n: nameless\n";
    assert_eq!(parse_workspace_names(out), s(&["default", "fix", "main"]));
    assert!(parse_workspace_names("").is_empty());
}

#[test]
fn list_rejects_options() {
    assert!(check_list_args(&s(&[])).is_ok());
    assert!(check_list_args(&s(&["--"])).is_ok());
    assert_eq!(check_list_args(&s(&["--porcelain"])).unwrap_err(), "list takes no options");
    assert!(check_list_args(&s(&["-v"])).is_err());
}

#[test]
fn remove_arguments() {
    let a = parse_remove_args(&s(&["--force", "../ws"])).unwrap();
    assert!(a.force);
    assert_eq!(a.path, "../ws");
    let b = parse_remove_args(&s(&["../ws"])).unwrap();
    assert!(!b.force);
    assert_eq!(parse_remove_args(&s(&["-f", "x"])).unwrap_err(), "unknown option: -f");
    assert_eq!(parse_remove_args(&s(&["a", "b"])).unwrap_err(), "unexpected argument: b");
    assert_eq!(
        parse_remove_args(&s(&["--force"])).unwrap_err(),
        "missing required argument: <path>"
    );
}

#[test]
fn protected_workspaces() {
    assert!(is_protected_workspace("default"));
    assert!(is_protected_workspace("main"));
    assert!(!is_protected_workspace("feature"));
    assert!(!is_protected_workspace("mainline"));
}

#[test]
fn changes_are_detected_from_stat() {
    assert!(!reports_changes(""));
    assert!(!reports_changes(" \n\t"));
    assert!(reports_changes("a.txt | 2 +-\n"));
}

#[test]
fn workspace_name_is_last_component() {
    assert_eq!(workspace_name("../foo"), Some("foo".to_string()));
    assert_eq!(workspace_name("/a/b/feature-auth/"), Some("feature-auth".to_string()));
    assert_eq!(workspace_name("/a/b/c/."), Some("c".to_string()));
    assert_eq!(workspace_name("/a/.."), None);
    assert_eq!(workspace_name("/"), None);
}

#[test]
fn fallback_path_for_workspace() {
    assert!(matches!(fallback_workspace_path("/repo", "default"), FallbackPath::RepoRoot));
    match fallback_workspace_path("/repo", "feat") {
        FallbackPath::UnderRoot(p) => assert_eq!(p, "/repo/feat"),
        FallbackPath::RepoRoot => panic!("expected a path under the root"),
    }
}

#[test]
fn workspace_matched_by_directory_name() {
    let names = s(&["default", "fix", "main"]);
    assert_eq!(workspace_for_dir(&names, "/x/.tool/worktrees/fix"), Some("fix".to_string()));
    assert_eq!(workspace_for_dir(&names, "/x/other"), None);
    assert_eq!(workspace_for_dir(&names, "/"), None);
}

#[test]
fn git_refs_translate_to_jj() {
    let remotes = s(&["origin", "upstream"]);
    assert_eq!(translate_git_ref("HEAD", &remotes), "@");
    assert_eq!(translate_git_ref("origin/HEAD", &remotes), "trunk()");
    assert_eq!(translate_git_ref("origin/main", &remotes), "main@origin");
    assert_eq!(translate_git_ref("upstream/feat/x", &remotes), "feat/x@upstream");
    assert_eq!(translate_git_ref("feat/x", &remotes), "feat/x");
    assert_eq!(translate_git_ref("abc1234", &remotes), "abc1234");
    assert_eq!(translate_git_ref("origin/main", &[]), "origin/main");
}

#[test]
fn remote_names_from_jj() {
    let out = "origin https://github.com/a/b.git\nupstream git@host:c/d.git\n\n";
    assert_eq!(parse_remote_names(out), s(&["origin", "upstream"]));
}

#[test]
fn list_entry_columns() {
    let e = list_entry("/repo".to_string(), "default", "cb03051 ");
    assert_eq!(e.hash, "cb03051");
    assert_eq!(e.name, "[default]");
    let f = list_entry("/repo/ws".to_string(), "ws", "d19a6f5 feat,fix");
    assert_eq!(f.hash, "d19a6f5");
    assert_eq!(f.name, "[feat,fix]");
    let g = list_entry("/p".to_string(), "ws", "");
    assert_eq!(g.hash, "");
    assert_eq!(g.name, "[ws]");
}

#[test]
fn list_lines_are_aligned() {
    let rows = vec![
        ListEntry {
            path: "/repo".to_string(),
            hash: "cb03051".to_string(),
            name: "[default]".to_string(),
        },
        ListEntry {
            path: "/repo/feature".to_string(),
            hash: "d19a6".to_string(),
            name: "[feat]".to_string(),
        },
    ];
    assert_eq!(
        format_list(&rows),
        s(&[
            "/repo         cb03051 [default]",
            "/repo/feature d19a6   [feat]",
        ])
    );
    assert!(format_list(&[]).is_empty());
}

#[test]
fn add_last_branch_flag_wins_and_options_reported_in_order() {
    let args: Vec<String> = ["--foo=1", "p1", "-b", "x", "--track=z", "-q", "-B", "y", "c1", "--reason", "-z"]
        .iter()
        .map(|a| a.to_string())
        .collect();
    let parsed = parse_add_args(&args).expect("parses");
    assert_eq!(parsed.path, "p1");
    assert_eq!(parsed.branch.as_deref(), Some("y"));
    assert_eq!(parsed.commit_ish.as_deref(), Some("c1"));
    assert_eq!(parsed.unknown_options, vec!["--foo".to_string(), "-q".to_string()]);
}

#[test]
fn add_third_positional_stops_reports() {
    let args: Vec<String> = ["-x", "a", "b", "c", "-y"].iter().map(|a| a.to_string()).collect();
    let err = parse_add_args(&args).expect_err("three positionals");
    assert_eq!(err.message, "unexpected argument: c");
    assert_eq!(err.unknown_options, vec!["-x".to_string()]);
}
