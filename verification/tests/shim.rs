use jj_worktree::shim::{
    parse_branch_delete, parse_git_global_opts, rev_parse_revisions_of, route, status_porcelain,
    ParsedGitArgs, ShimRoute,
};

fn s(args: &[&str]) -> Vec<String> {
    args.iter().map(|a| a.to_string()).collect()
}

// --- parse_git_global_opts ---

#[test]
fn parse_no_args() {
    let result = parse_git_global_opts(&[]);
    assert_eq!(
        result,
        ParsedGitArgs {
            work_dir: None,
            subcmd_index: None,
        }
    );
}

#[test]
fn parse_simple_subcommand() {
    let args = s(&["status"]);
    let result = parse_git_global_opts(&args);
    assert_eq!(
        result,
        ParsedGitArgs {
            work_dir: None,
            subcmd_index: Some(0),
        }
    );
}

#[test]
fn parse_c_option_with_subcommand() {
    let args = s(&["-C", "/some/path", "worktree", "list"]);
    let result = parse_git_global_opts(&args);
    assert_eq!(
        result,
        ParsedGitArgs {
            work_dir: Some("/some/path".to_string()),
            subcmd_index: Some(2),
        }
    );
}

#[test]
fn parse_c_option_last_wins() {
    let args = s(&["-C", "/first", "-C", "/second", "status"]);
    let result = parse_git_global_opts(&args);
    assert_eq!(
        result,
        ParsedGitArgs {
            work_dir: Some("/second".to_string()),
            subcmd_index: Some(4),
        }
    );
}

#[test]
fn parse_c_config_option() {
    let args = s(&["-c", "user.name=test", "commit"]);
    let result = parse_git_global_opts(&args);
    assert_eq!(
        result,
        ParsedGitArgs {
            work_dir: None,
            subcmd_index: Some(2),
        }
    );
}

#[test]
fn parse_git_dir_equals() {
    let args = s(&["--git-dir=/path/to/.git", "log"]);
    let result = parse_git_global_opts(&args);
    assert_eq!(
        result,
        ParsedGitArgs {
            work_dir: None,
            subcmd_index: Some(1),
        }
    );
}

#[test]
fn parse_git_dir_space() {
    let args = s(&["--git-dir", "/path/to/.git", "log"]);
    let result = parse_git_global_opts(&args);
    assert_eq!(
        result,
        ParsedGitArgs {
            work_dir: None,
            subcmd_index: Some(2),
        }
    );
}

#[test]
fn parse_work_tree_equals() {
    let args = s(&["--work-tree=/path/to/worktree", "status"]);
    let result = parse_git_global_opts(&args);
    assert_eq!(
        result,
        ParsedGitArgs {
            work_dir: None,
            subcmd_index: Some(1),
        }
    );
}

#[test]
fn parse_work_tree_space() {
    let args = s(&["--work-tree", "/path/to/worktree", "status"]);
    let result = parse_git_global_opts(&args);
    assert_eq!(
        result,
        ParsedGitArgs {
            work_dir: None,
            subcmd_index: Some(2),
        }
    );
}

#[test]
fn parse_no_pager() {
    let args = s(&["--no-pager", "diff"]);
    let result = parse_git_global_opts(&args);
    assert_eq!(
        result,
        ParsedGitArgs {
            work_dir: None,
            subcmd_index: Some(1),
        }
    );
}

#[test]
fn parse_bare() {
    let args = s(&["--bare", "init"]);
    let result = parse_git_global_opts(&args);
    assert_eq!(
        result,
        ParsedGitArgs {
            work_dir: None,
            subcmd_index: Some(1),
        }
    );
}

#[test]
fn parse_pathspec_options() {
    let args = s(&["--literal-pathspecs", "--icase-pathspecs", "add", "."]);
    let result = parse_git_global_opts(&args);
    assert_eq!(
        result,
        ParsedGitArgs {
            work_dir: None,
            subcmd_index: Some(2),
        }
    );
}

#[test]
fn parse_no_replace_objects() {
    let args = s(&["--no-replace-objects", "cat-file", "-p", "HEAD"]);
    let result = parse_git_global_opts(&args);
    assert_eq!(
        result,
        ParsedGitArgs {
            work_dir: None,
            subcmd_index: Some(1),
        }
    );
}

#[test]
fn parse_multiple_global_options() {
    let args = s(&[
        "-C",
        "/repo",
        "--no-pager",
        "-c",
        "color.ui=always",
        "--git-dir=/repo/.git",
        "worktree",
        "add",
        "/path",
    ]);
    let result = parse_git_global_opts(&args);
    assert_eq!(
        result,
        ParsedGitArgs {
            work_dir: Some("/repo".to_string()),
            subcmd_index: Some(6),
        }
    );
}

#[test]
fn parse_only_global_options_no_subcommand() {
    let args = s(&["-C", "/repo", "--no-pager"]);
    let result = parse_git_global_opts(&args);
    assert_eq!(
        result,
        ParsedGitArgs {
            work_dir: Some("/repo".to_string()),
            subcmd_index: None,
        }
    );
}

#[test]
fn parse_c_without_value() {
    // -C at the end without a following argument
    let args = s(&["-C"]);
    let result = parse_git_global_opts(&args);
    assert_eq!(
        result,
        ParsedGitArgs {
            work_dir: None,
            subcmd_index: None,
        }
    );
}

#[test]
fn parse_glob_pathspecs() {
    let args = s(&["--glob-pathspecs", "ls-files"]);
    let result = parse_git_global_opts(&args);
    assert_eq!(
        result,
        ParsedGitArgs {
            work_dir: None,
            subcmd_index: Some(1),
        }
    );
}

#[test]
fn parse_noglob_pathspecs() {
    let args = s(&["--noglob-pathspecs", "ls-files"]);
    let result = parse_git_global_opts(&args);
    assert_eq!(
        result,
        ParsedGitArgs {
            work_dir: None,
            subcmd_index: Some(1),
        }
    );
}

#[test]
fn parse_ignores_arguments_after_subcommand() {
    let short = s(&["-C", "/repo", "status"]);
    let long = s(&["-C", "/repo", "status", "-C", "/other", "--bare"]);
    assert_eq!(parse_git_global_opts(&short), parse_git_global_opts(&long));
}

#[test]
fn parse_spaced_option_at_end_has_no_subcommand() {
    let args = s(&["--git-dir"]);
    assert_eq!(
        parse_git_global_opts(&args),
        ParsedGitArgs {
            work_dir: None,
            subcmd_index: None,
        }
    );
}

// --- parse_branch_delete ---

#[test]
fn branch_delete_short_flag() {
    let args = s(&["branch", "-d", "my-branch"]);
    assert_eq!(parse_branch_delete(&args, 0), Some("my-branch".to_string()));
}

#[test]
fn branch_delete_long_flag() {
    let args = s(&["branch", "--delete", "my-branch"]);
    assert_eq!(parse_branch_delete(&args, 0), Some("my-branch".to_string()));
}

#[test]
fn branch_delete_force_flag() {
    let args = s(&["branch", "-D", "my-branch"]);
    assert_eq!(parse_branch_delete(&args, 0), Some("my-branch".to_string()));
}

#[test]
fn branch_delete_no_name() {
    let args = s(&["branch", "-d"]);
    assert_eq!(parse_branch_delete(&args, 0), None);
}

#[test]
fn branch_no_delete() {
    let args = s(&["branch", "-m", "old", "new"]);
    assert_eq!(parse_branch_delete(&args, 0), None);
}

#[test]
fn branch_delete_with_global_opts_offset() {
    // Simulates: git -C /repo branch -d my-branch
    // where subcmd_index=2 (branch is at index 2)
    let args = s(&["-C", "/repo", "branch", "-d", "my-branch"]);
    assert_eq!(parse_branch_delete(&args, 2), Some("my-branch".to_string()));
}

#[test]
fn branch_delete_first_flag_wins() {
    let args = s(&["branch", "-d", "first", "-D", "second"]);
    assert_eq!(parse_branch_delete(&args, 0), Some("first".to_string()));
}

// --- route ---

fn route_of(args: &[&str], disabled: bool, in_repo: bool) -> ShimRoute {
    route(&s(args), disabled, in_repo)
}

#[test]
fn route_worktree_in_jj_repo() {
    match route_of(&["-C", "/repo", "worktree", "list", "-v"], false, true) {
        ShimRoute::Worktree(rest) => assert_eq!(rest, s(&["list", "-v"])),
        _ => panic!("expected the worktree route"),
    }
}

#[test]
fn route_outside_jj_repo_is_real_git() {
    assert!(matches!(route_of(&["worktree", "list"], false, false), ShimRoute::RealGit));
    assert!(matches!(route_of(&["status"], false, false), ShimRoute::RealGit));
}

#[test]
fn route_disabled_is_real_git() {
    assert!(matches!(route_of(&["worktree", "list"], true, true), ShimRoute::RealGit));
}

#[test]
fn route_without_subcommand_is_real_git() {
    assert!(matches!(route_of(&["-C", "/repo"], false, true), ShimRoute::RealGit));
    assert!(matches!(route_of(&[], false, true), ShimRoute::RealGit));
}

#[test]
fn route_branch_delete() {
    match route_of(&["branch", "-D", "feat"], false, true) {
        ShimRoute::BranchDelete(name) => assert_eq!(name, "feat"),
        _ => panic!("expected the branch-delete route"),
    }
    assert!(matches!(route_of(&["branch", "-m", "a", "b"], false, true), ShimRoute::RealGit));
}

#[test]
fn route_status_keeps_arguments() {
    match route_of(&["status", "--porcelain"], false, true) {
        ShimRoute::Status(rest) => assert_eq!(rest, s(&["--porcelain"])),
        _ => panic!("expected the status route"),
    }
}

#[test]
fn route_rev_parse() {
    match route_of(&["rev-parse", "--verify", "HEAD"], false, true) {
        ShimRoute::RevParse(revs) => assert_eq!(revs, s(&["@"])),
        _ => panic!("expected the rev-parse route"),
    }
    assert!(matches!(
        route_of(&["rev-parse", "--show-toplevel"], false, true),
        ShimRoute::RealGit
    ));
}

#[test]
fn route_other_subcommand_is_real_git() {
    assert!(matches!(route_of(&["log", "--oneline"], false, true), ShimRoute::RealGit));
}

#[test]
fn rev_parse_revisions_translate_head_only() {
    assert_eq!(
        rev_parse_revisions_of(&s(&["HEAD", "main", "--verify"])),
        Some(s(&["@", "main"]))
    );
    assert_eq!(rev_parse_revisions_of(&s(&["--verify"])), None);
    assert_eq!(rev_parse_revisions_of(&s(&["--abbrev-ref", "HEAD"])), None);
    assert_eq!(rev_parse_revisions_of(&s(&[])), None);
}

// --- status_porcelain ---

#[test]
fn porcelain_converts_jj_summary() {
    let diff = "M src/a.rs\nA new.txt\nD old.txt\nR {a => b}\nX other\n\nnospace\n";
    assert_eq!(
        status_porcelain(diff),
        s(&[
            " M src/a.rs",
            "?? new.txt",
            " D old.txt",
            " M {a => b}",
            " M other",
        ])
    );
}

#[test]
fn porcelain_empty_diff_gives_nothing() {
    assert!(status_porcelain("").is_empty());
    assert!(status_porcelain("\n  \n").is_empty());
}

#[test]
fn porcelain_trims_lines_and_crlf() {
    assert_eq!(status_porcelain("  M a.txt  \r\n"), s(&[" M a.txt"]));
}

#[test]
fn global_opts_last_dir_wins_and_dangling_dir_ignored() {
    let args: Vec<String> = ["-C", "a", "--bare", "-c", "k=v", "-C", "b", "status", "-C", "z"]
        .iter()
        .map(|a| a.to_string())
        .collect();
    let parsed = parse_git_global_opts(&args);
    assert_eq!(parsed.work_dir.as_deref(), Some("b"));
    assert_eq!(parsed.subcmd_index, Some(7));
    let args: Vec<String> = ["-C", "a", "-C"].iter().map(|a| a.to_string()).collect();
    let parsed = parse_git_global_opts(&args);
    assert_eq!(parsed.work_dir.as_deref(), Some("a"));
    assert_eq!(parsed.subcmd_index, None);
}
