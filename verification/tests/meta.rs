use jj_worktree::meta::{
    copy_meta, find_by_bookmark, is_meta_file, list, meta_dir, meta_path, Timestamp,
    WorkspaceMeta,
};
use jj_worktree::path::has_path_prefix;

fn meta(ws: &str, bookmark: Option<&str>) -> WorkspaceMeta {
    WorkspaceMeta {
        workspace: ws.to_string(),
        bookmark: bookmark.map(|b| b.to_string()),
        created_at: Timestamp {
            secs: 1_774_612_800,
            nanos: 0,
        },
        path: format!("/path/to/{ws}"),
    }
}

#[test]
fn meta_dir_path() {
    let root = "/repo";
    assert_eq!(meta_dir(root), "/repo/.jj-worktree-meta");
}

#[test]
fn meta_path_for_workspace() {
    let root = "/repo";
    assert_eq!(
        meta_path(root, "feature-auth"),
        "/repo/.jj-worktree-meta/feature-auth.json"
    );
}

#[test]
fn meta_path_with_trailing_slash_root() {
    assert_eq!(meta_dir("/repo/"), "/repo/.jj-worktree-meta");
    assert_eq!(meta_path("", "ws"), ".jj-worktree-meta/ws.json");
}

#[test]
fn meta_path_lies_in_meta_dir() {
    for root in ["/repo", "/repo/", "rel/dir", ""] {
        for ws in ["ws", "feature-auth"] {
            assert!(has_path_prefix(&meta_path(root, ws), &meta_dir(root)));
        }
    }
    assert!(!has_path_prefix(&meta_path("/a", "ws"), &meta_dir("/b")));
}

#[test]
fn list_returns_sorted_entries() {
    let meta_b = WorkspaceMeta {
        workspace: "beta".to_string(),
        bookmark: None,
        created_at: Timestamp { secs: 0, nanos: 0 },
        path: "/path/to/beta".to_string(),
    };
    let meta_a = WorkspaceMeta {
        workspace: "alpha".to_string(),
        bookmark: Some("bm-alpha".to_string()),
        created_at: Timestamp { secs: 0, nanos: 0 },
        path: "/path/to/alpha".to_string(),
    };

    let entries = list(&[Some(meta_b), Some(meta_a)]);
    assert_eq!(entries.len(), 2);
    assert_eq!(entries[0].workspace, "alpha");
    assert_eq!(entries[1].workspace, "beta");
}

#[test]
fn list_empty_returns_empty_vec() {
    let entries = list(&[]);
    assert!(entries.is_empty());
}

#[test]
fn list_skips_unreadable_and_is_stable() {
    let mut first = meta("same", Some("one"));
    first.path = "/first".to_string();
    let mut second = meta("same", Some("two"));
    second.path = "/second".to_string();
    let entries = list(&[
        Some(meta("b", None)),
        None,
        Some(first),
        Some(meta("a", None)),
        Some(second),
        Some(meta("B", None)),
    ]);
    let names: Vec<&str> = entries.iter().map(|m| m.workspace.as_str()).collect();
    assert_eq!(names, vec!["B", "a", "b", "same", "same"]);
    assert_eq!(entries[3].path, "/first");
    assert_eq!(entries[4].path, "/second");
}

#[test]
fn list_orders_prefix_first_and_by_code_point() {
    let entries = list(&[Some(meta("ab", None)), Some(meta("é", None)), Some(meta("a", None))]);
    let names: Vec<&str> = entries.iter().map(|m| m.workspace.as_str()).collect();
    assert_eq!(names, vec!["a", "ab", "é"]);
}

#[test]
fn find_by_bookmark_first_match() {
    let metas = vec![meta("x", None), meta("y", Some("bm")), meta("z", Some("bm"))];
    assert_eq!(find_by_bookmark(&metas, "bm").unwrap().workspace, "y");
    assert!(find_by_bookmark(&metas, "nope").is_none());
}

#[test]
fn meta_files_have_json_extension() {
    assert!(is_meta_file("/r/.jj-worktree-meta/ws.json"));
    assert!(!is_meta_file("/r/.jj-worktree-meta/.json"));
    assert!(!is_meta_file("/r/.jj-worktree-meta/ws.json.bak"));
    assert!(!is_meta_file("/r/.jj-worktree-meta/ws"));
}

#[test]
fn copy_keeps_every_field() {
    let m = meta("ws", Some("bm"));
    let c = copy_meta(&m);
    assert_eq!(c.workspace, m.workspace);
    assert_eq!(c.bookmark, m.bookmark);
    assert_eq!(c.created_at, m.created_at);
    assert_eq!(c.path, m.path);
}
