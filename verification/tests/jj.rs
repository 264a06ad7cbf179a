use jj_worktree::jj::{command_args, run_stdout, CommandOutcome};

fn s(args: &[&str]) -> Vec<String> {
    args.iter().map(|a| a.to_string()).collect()
}

#[test]
fn build_command_without_repo_root() {
    let args = command_args(None, &s(&["workspace", "list"]));
    assert_eq!(args, vec!["workspace", "list"]);
}

#[test]
fn build_command_with_repo_root() {
    let args = command_args(Some("/repo"), &s(&["workspace", "list"]));
    assert_eq!(args, vec!["-R", "/repo", "workspace", "list"]);
}

#[test]
fn run_stdout_success_is_trimmed_stdout() {
    let out = CommandOutcome {
        success: true,
        code: Some(0),
        stdout: b"  abc123\n".to_vec(),
        stderr: b"ignored".to_vec(),
    };
    assert_eq!(run_stdout(&out), Ok("abc123".to_string()));
}

#[test]
fn run_stdout_failure_message() {
    let out = CommandOutcome {
        success: false,
        code: Some(1),
        stdout: Vec::new(),
        stderr: b"Error: no such revision\n".to_vec(),
    };
    assert_eq!(
        run_stdout(&out),
        Err("jj command failed (exit 1): Error: no such revision".to_string())
    );
    let killed = CommandOutcome {
        success: false,
        code: None,
        stdout: Vec::new(),
        stderr: b"\xff".to_vec(),
    };
    assert_eq!(
        run_stdout(&killed),
        Err("jj command failed (exit -1): \u{fffd}".to_string())
    );
    let big = CommandOutcome {
        success: false,
        code: Some(i32::MIN),
        stdout: Vec::new(),
        stderr: Vec::new(),
    };
    assert_eq!(
        run_stdout(&big),
        Err("jj command failed (exit -2147483648): ".to_string())
    );
}
