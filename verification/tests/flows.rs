use jj_worktree::creation::{
    add_event_fits, add_step, needs_remote_list, AddAction, AddActionOf, AddEvent, AddEventOf,
    AddPhase, AddState,
};
use jj_worktree::removal::{
    is_same_path, refusal_message, remove_event_fits, remove_step, RemoveAction, RemoveActionOf,
    RemoveEvent, RemoveEventOf, RemovePhase, RemoveRefusalOf, RemoveState,
};

fn s(x: &str) -> String {
    x.to_string()
}

/// Drives `remove` with the given answers and returns every action.
fn run_remove(events: Vec<RemoveEvent>) -> Vec<RemoveAction> {
    let mut state = RemoveState::new();
    let mut out = Vec::new();
    for e in events {
        assert!(remove_event_fits(&state, &e), "event does not fit: {:?}", e);
        let (next, a) = remove_step(state, e);
        state = next;
        out.push(a);
    }
    out
}

fn begin_remove(force: bool, target: &str) -> RemoveEvent {
    RemoveEventOf::Begin { force, target: s(target), repo_root: s("/repo") }
}

const LIST: &str = "default: abc123 (no description set)\nfeat: def456 work\n";

#[test]
fn remove_refuses_path_outside_repository_first() {
    let acts = run_remove(vec![begin_remove(false, "/elsewhere/feat")]);
    assert_eq!(acts.len(), 1);
    match &acts[0] {
        RemoveActionOf::Refuse(r) => {
            assert!(matches!(r, RemoveRefusalOf::NotInside { .. }));
            assert_eq!(
                refusal_message(r),
                "path /elsewhere/feat is not inside the jj repository at /repo"
            );
        }
        a => panic!("unexpected {:?}", a),
    }
}

#[test]
fn remove_refuses_protected_workspace() {
    let acts = run_remove(vec![
        begin_remove(true, "/repo"),
        RemoveEventOf::Listed(s(LIST)),
        RemoveEventOf::Resolved(s("/repo")),
    ]);
    assert!(matches!(&acts[0], RemoveActionOf::ListWorkspaces));
    assert!(matches!(&acts[1], RemoveActionOf::ResolvePath(w) if w == "default"));
    match &acts[2] {
        RemoveActionOf::Refuse(r) => assert_eq!(
            refusal_message(r),
            "refusing to remove the 'default' workspace (protected workspace)"
        ),
        a => panic!("unexpected {:?}", a),
    }
}

#[test]
fn remove_refuses_uncommitted_changes_without_force() {
    let acts = run_remove(vec![
        begin_remove(false, "/repo/feat"),
        RemoveEventOf::Listed(s(LIST)),
        RemoveEventOf::Resolved(s("/repo")),
        RemoveEventOf::Resolved(s("/repo/feat/")),
        RemoveEventOf::MetaLoaded(Some(s("feat-b"))),
        RemoveEventOf::Diffed(Some(s(" a.txt | 1 +\n"))),
    ]);
    assert!(matches!(&acts[2], RemoveActionOf::ResolvePath(w) if w == "feat"));
    assert!(matches!(&acts[3], RemoveActionOf::LoadMeta(w) if w == "feat"));
    assert!(matches!(&acts[4], RemoveActionOf::Diff(w) if w == "feat"));
    match &acts[5] {
        RemoveActionOf::Refuse(r) => assert_eq!(
            refusal_message(r),
            "workspace 'feat' has uncommitted changes. Use --force to remove anyway."
        ),
        a => panic!("unexpected {:?}", a),
    }
}

#[test]
fn remove_deletes_in_order_with_recorded_bookmark() {
    let acts = run_remove(vec![
        begin_remove(false, "/repo/feat"),
        RemoveEventOf::Listed(s(LIST)),
        RemoveEventOf::Resolved(s("/repo")),
        RemoveEventOf::Resolved(s("/repo/feat")),
        RemoveEventOf::MetaLoaded(Some(s("feat-b"))),
        RemoveEventOf::Diffed(Some(s("  \n"))),
        RemoveEventOf::Failed(s("no such bookmark")),
        RemoveEventOf::Done,
        RemoveEventOf::Done,
        RemoveEventOf::Done,
        RemoveEventOf::Done,
    ]);
    assert!(matches!(&acts[5], RemoveActionOf::DeleteBookmark(b) if b == "feat-b"));
    assert!(matches!(&acts[6], RemoveActionOf::Forget(w) if w == "feat"));
    assert!(matches!(&acts[7], RemoveActionOf::RemoveDir(t) if t == "/repo/feat"));
    assert!(matches!(&acts[8], RemoveActionOf::RemoveMeta(w) if w == "feat"));
    assert!(matches!(&acts[9], RemoveActionOf::Export));
    assert!(
        matches!(&acts[10], RemoveActionOf::Removed { ws, target } if ws == "feat" && target == "/repo/feat")
    );
}

#[test]
fn remove_with_force_and_no_bookmark_skips_diff_and_bookmark() {
    let acts = run_remove(vec![
        begin_remove(true, "/repo/feat"),
        RemoveEventOf::Listed(s(LIST)),
        RemoveEventOf::Resolved(s("/elsewhere")),
        RemoveEventOf::Resolved(s("/repo/feat")),
        RemoveEventOf::MetaLoaded(None),
        RemoveEventOf::Failed(s("forget failed")),
    ]);
    assert!(matches!(&acts[4], RemoveActionOf::Forget(w) if w == "feat"));
    assert!(matches!(&acts[5], RemoveActionOf::Fail(m) if m == "forget failed"));
}

#[test]
fn remove_falls_back_to_name_match() {
    let acts = run_remove(vec![
        begin_remove(true, "/repo/sub/feat"),
        RemoveEventOf::Listed(s(LIST)),
        RemoveEventOf::Resolved(s("/repo")),
        RemoveEventOf::Resolved(s("/repo/feat")),
    ]);
    assert!(matches!(&acts[3], RemoveActionOf::LoadMeta(w) if w == "feat"));
}

#[test]
fn remove_reports_no_workspace_found() {
    let acts = run_remove(vec![
        begin_remove(true, "/repo/other"),
        RemoveEventOf::Listed(s(LIST)),
        RemoveEventOf::Resolved(s("/repo")),
        RemoveEventOf::Resolved(s("/repo/feat")),
    ]);
    assert!(matches!(&acts[3], RemoveActionOf::Fail(m) if m == "no workspace found for path: /repo/other"));
}

#[test]
fn remove_diff_failure_counts_as_clean() {
    let acts = run_remove(vec![
        begin_remove(false, "/repo/feat"),
        RemoveEventOf::Listed(s("feat: x\n")),
        RemoveEventOf::Resolved(s("/repo/feat")),
        RemoveEventOf::MetaLoaded(None),
        RemoveEventOf::Diffed(None),
    ]);
    assert!(matches!(&acts[4], RemoveActionOf::Forget(w) if w == "feat"));
}

#[test]
fn remove_rejects_event_that_does_not_answer() {
    let state = RemoveState::new();
    assert!(!remove_event_fits(&state, &RemoveEventOf::Done));
    assert_eq!(state.phase, RemovePhase::Start);
}

#[test]
fn same_path_compares_components() {
    assert!(is_same_path("/repo/feat/", "/repo/feat"));
    assert!(is_same_path("/repo//feat", "/repo/feat"));
    assert!(!is_same_path("/repo/feat", "/repo/feat2"));
    assert!(!is_same_path("repo/feat", "/repo/feat"));
}

/// Drives `add` with the given answers and returns every action.
fn run_add(events: Vec<AddEvent>) -> Vec<AddAction> {
    let mut state = AddState::new();
    let mut out = Vec::new();
    for e in events {
        assert!(add_event_fits(&state, &e), "event does not fit: {:?}", e);
        let (next, a) = add_step(state, e);
        state = next;
        out.push(a);
    }
    out
}

fn begin_add(path: &str, branch: Option<&str>, commit: Option<&str>) -> AddEvent {
    AddEventOf::Begin {
        path: s(path),
        branch: branch.map(s),
        commit_ish: commit.map(s),
        cwd: s("/repo"),
    }
}

#[test]
fn add_runs_every_step_in_order() {
    let acts = run_add(vec![
        begin_add("../ws/feat", Some("feat-b"), Some("origin/main")),
        AddEventOf::Done,
        AddEventOf::Done,
        AddEventOf::Remotes(Some(s("origin https://example.com/r.git\n"))),
        AddEventOf::Done,
        AddEventOf::Done,
        AddEventOf::Done,
    ]);
    assert!(matches!(&acts[0], AddActionOf::AddWorkspace(p) if p == "../ws/feat"));
    assert!(
        matches!(&acts[1], AddActionOf::SetBookmark { name, revision } if name == "feat-b" && revision == "feat@")
    );
    assert!(matches!(&acts[2], AddActionOf::ListRemotes));
    assert!(
        matches!(&acts[3], AddActionOf::NewCommit { at, revision } if at == "/ws/feat" && revision == "main@origin")
    );
    assert!(
        matches!(&acts[4], AddActionOf::SaveMeta { ws, bookmark: Some(b), path } if ws == "feat" && b == "feat-b" && path == "/ws/feat")
    );
    assert!(matches!(&acts[5], AddActionOf::Export));
    assert!(
        matches!(&acts[6], AddActionOf::Created { ws, path } if ws == "feat" && path == "/ws/feat")
    );
}

#[test]
fn add_lists_remotes_only_for_remote_refs() {
    let acts = run_add(vec![
        begin_add("feat", None, Some("HEAD")),
        AddEventOf::Done,
    ]);
    assert!(matches!(&acts[1], AddActionOf::NewCommit { at, revision } if at == "/repo/feat" && revision == "@"));
    let acts = run_add(vec![
        begin_add("feat", None, Some("origin/HEAD")),
        AddEventOf::Done,
    ]);
    assert!(matches!(&acts[1], AddActionOf::NewCommit { revision, .. } if revision == "trunk()"));
    let acts = run_add(vec![
        begin_add("feat", None, Some("origin/main")),
        AddEventOf::Done,
        AddEventOf::Remotes(None),
    ]);
    assert!(matches!(&acts[2], AddActionOf::NewCommit { revision, .. } if revision == "origin/main"));
}

#[test]
fn add_rolls_back_after_a_later_failure() {
    let acts = run_add(vec![
        begin_add("feat", Some("feat-b"), None),
        AddEventOf::Done,
        AddEventOf::Failed(s("bookmark exists")),
        AddEventOf::Done,
    ]);
    assert!(
        matches!(&acts[2], AddActionOf::Rollback { ws, path } if ws == "feat" && path == "/repo/feat")
    );
    assert!(matches!(&acts[3], AddActionOf::Fail(m) if m == "bookmark exists"));
    let acts = run_add(vec![
        begin_add("feat", None, None),
        AddEventOf::Done,
        AddEventOf::Failed(s("disk full")),
        AddEventOf::Failed(s("forget failed too")),
    ]);
    assert!(matches!(&acts[1], AddActionOf::SaveMeta { bookmark: None, .. }));
    assert!(matches!(&acts[2], AddActionOf::Rollback { .. }));
    assert!(matches!(&acts[3], AddActionOf::Fail(m) if m == "disk full"));
}

#[test]
fn add_failure_before_the_workspace_exists_has_no_rollback() {
    let acts = run_add(vec![begin_add("feat", None, None), AddEventOf::Failed(s("exists"))]);
    assert!(matches!(&acts[1], AddActionOf::Fail(m) if m == "exists"));
}

#[test]
fn add_export_failure_is_ignored() {
    let acts = run_add(vec![
        begin_add("/abs/feat", None, None),
        AddEventOf::Done,
        AddEventOf::Done,
        AddEventOf::Failed(s("export failed")),
    ]);
    assert!(matches!(&acts[3], AddActionOf::Created { ws, path } if ws == "feat" && path == "/abs/feat"));
}

#[test]
fn add_refuses_path_without_name() {
    let acts = run_add(vec![begin_add("/", None, None)]);
    assert!(matches!(&acts[0], AddActionOf::Fail(m) if m == "invalid path: cannot determine workspace name"));
    let state = AddState::new();
    assert!(!add_event_fits(&state, &AddEventOf::Done));
    assert_eq!(state.phase, AddPhase::Start);
}

#[test]
fn remote_list_needed_only_for_remote_branches() {
    assert!(needs_remote_list("origin/main"));
    assert!(needs_remote_list("upstream/feat/x"));
    assert!(!needs_remote_list("HEAD"));
    assert!(!needs_remote_list("origin/HEAD"));
    assert!(!needs_remote_list("abc1234"));
}
