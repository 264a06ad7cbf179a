use jj_worktree::path::{
    extension_of, file_name_of, file_stem_of, has_path_prefix, join, normalize_path,
};

fn text(v: Option<Vec<char>>) -> Option<String> {
    v.map(|c| c.into_iter().collect())
}

#[test]
fn join_follows_pathbuf_push() {
    assert_eq!(join("/repo", "ws"), "/repo/ws");
    assert_eq!(join("/repo/", "ws"), "/repo/ws");
    assert_eq!(join("", "ws"), "ws");
    assert_eq!(join("/repo", "/abs"), "/abs");
    assert_eq!(join("a", ""), "a/");
}

#[test]
fn normalize_resolves_dots() {
    assert_eq!(normalize_path("/a/b/../c/./d"), "/a/c/d");
    assert_eq!(normalize_path("/a//b/"), "/a/b");
    assert_eq!(normalize_path("./x/y"), "x/y");
    assert_eq!(normalize_path("../x"), "x");
    assert_eq!(normalize_path("/.."), "");
    assert_eq!(normalize_path("/../a"), "a");
    assert_eq!(normalize_path(""), "");
    assert_eq!(normalize_path("/"), "/");
}

#[test]
fn normalize_is_idempotent_on_examples() {
    for p in ["/a/b/../c/./d", "./x/../../y", "/..", "a/./b//c/", "/x/y/.."] {
        let once = normalize_path(p);
        assert_eq!(normalize_path(&once), once);
    }
}

#[test]
fn normalize_matches_std_components() {
    for p in ["/a/b/../c/./d", "a//b", "./x", "/x/../y/.", "q/.."] {
        let mut kept: Vec<std::path::Component> = Vec::new();
        for c in std::path::Path::new(p).components() {
            match c {
                std::path::Component::ParentDir => {
                    kept.pop();
                }
                std::path::Component::CurDir => {}
                other => kept.push(other),
            }
        }
        let expected: std::path::PathBuf = kept.iter().collect();
        assert_eq!(normalize_path(p), expected.to_str().unwrap());
    }
}

#[test]
fn names_of_paths() {
    assert_eq!(text(file_name_of("/a/b.txt")), Some("b.txt".to_string()));
    assert_eq!(text(file_name_of("a/b/.")), Some("b".to_string()));
    assert_eq!(text(file_name_of("a/..")), None);
    assert_eq!(text(file_name_of(".")), None);
    assert_eq!(text(extension_of("x/y.tar.gz")), Some("gz".to_string()));
    assert_eq!(text(extension_of("x/.hidden")), None);
    assert_eq!(text(extension_of("x/end.")), Some("".to_string()));
    assert_eq!(text(file_stem_of("/usr/bin/git")), Some("git".to_string()));
    assert_eq!(text(file_stem_of("git.exe")), Some("git".to_string()));
    assert_eq!(text(file_stem_of(".git")), Some(".git".to_string()));
}

#[test]
fn path_prefix_is_by_components() {
    assert!(has_path_prefix("/repo/ws", "/repo"));
    assert!(has_path_prefix("/repo/ws", "/repo/"));
    assert!(!has_path_prefix("/repository", "/repo"));
    assert!(has_path_prefix("/repo", "/repo"));
    assert!(!has_path_prefix("repo/ws", "/repo"));
}

#[test]
fn normalize_keeps_absolute_unless_climbing_above_root() {
    assert_eq!(normalize_path("/a/b/../../c/./d"), "/c/d");
    assert_eq!(normalize_path("/a/.."), "/");
    assert_eq!(normalize_path("/../a"), "a");
}
