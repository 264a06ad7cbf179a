use jj_worktree::cli::{
    cache_home, cli_command, invocation_mode, run_command_line, shim_bin_dir, CliCommand,
    InvocationMode,
};

fn s(args: &[&str]) -> Vec<String> {
    args.iter().map(|a| a.to_string()).collect()
}

#[test]
fn invocation_mode_detects_jj_worktree() {
    assert_eq!(invocation_mode("/usr/local/bin/jj-worktree"), InvocationMode::Direct);
    assert_eq!(invocation_mode("target/debug/deps/cli-0123abcd"), InvocationMode::Direct);
}

#[test]
fn invocation_mode_detects_git_symlink() {
    assert_eq!(invocation_mode("/home/u/.cache/jj-worktree/bin/git"), InvocationMode::Git);
    assert_eq!(invocation_mode("git"), InvocationMode::Git);
    assert_eq!(invocation_mode(""), InvocationMode::Direct);
}

#[test]
fn cli_commands() {
    assert!(matches!(cli_command(&s(&[])), CliCommand::Help));
    assert!(matches!(cli_command(&s(&["-h"])), CliCommand::Help));
    assert!(matches!(cli_command(&s(&["--help"])), CliCommand::Help));
    assert!(matches!(cli_command(&s(&["--version"])), CliCommand::Version));
    assert!(matches!(cli_command(&s(&["list"])), CliCommand::Worktree));
    match cli_command(&s(&["run", "--", "editor"])) {
        CliCommand::Run(rest) => assert_eq!(rest, s(&["--", "editor"])),
        _ => panic!("expected run"),
    }
    match cli_command(&s(&["bogus-command"])) {
        CliCommand::Unknown(w) => assert_eq!(w, "bogus-command"),
        _ => panic!("expected unknown"),
    }
}

#[test]
fn run_command_line_skips_separator() {
    assert_eq!(run_command_line(&s(&["--", "editor", "-x"])), Ok(s(&["editor", "-x"])));
    assert_eq!(run_command_line(&s(&["editor"])), Ok(s(&["editor"])));
    assert_eq!(
        run_command_line(&s(&["--"])),
        Err("run requires a command to execute".to_string())
    );
    assert!(run_command_line(&s(&[])).is_err());
}

#[test]
fn cache_and_bin_dirs() {
    assert_eq!(cache_home(Some("/xdg"), Some("/home/u")), Some("/xdg".to_string()));
    assert_eq!(cache_home(None, Some("/home/u")), Some("/home/u/.cache".to_string()));
    assert_eq!(cache_home(None, None), None);
    assert_eq!(shim_bin_dir("/c", true, "/tmp", 7), "/c/jj-worktree/bin");
    assert_eq!(
        shim_bin_dir("/c", false, "/tmp", 0xabc),
        "/tmp/jj-worktree.0000000000000abc"
    );
    assert_eq!(
        shim_bin_dir("/c", false, "/tmp/", u64::MAX),
        format!("/tmp/jj-worktree.{:016x}", u64::MAX)
    );
}
