//! Metadata that jj-worktree keeps for the workspaces it creates, under
//! `<repo_root>/.jj-worktree-meta/<workspace>.json`.

use vstd::prelude::*;
use vstd::string::StringExecFns;

use crate::path::{
    extension, extension_of, join, lemma_push_components, path_components,
    path_starts_with, push_path, CompSpec,
};
use crate::text::{chars_eq, chars_of, opt_str, same_as};

verus! {

/// A point in time: seconds since the Unix epoch and nanoseconds within
/// that second.
#[derive(Debug, PartialEq, Eq, Clone, Copy)]
pub struct Timestamp {
    pub secs: i64,
    pub nanos: u32,
}

/// Metadata for a workspace created by jj-worktree.
#[derive(Debug)]
pub struct WorkspaceMeta {
    /// Workspace name (jj workspace name).
    pub workspace: String,
    /// Bookmark name associated with this workspace (if any).
    pub bookmark: Option<String>,
    /// Creation time.
    pub created_at: Timestamp,
    /// Absolute path to the workspace directory.
    pub path: String,
}

/// The name of the metadata directory under a repository root.
pub open spec fn meta_dir_name() -> Seq<char> {
    ".jj-worktree-meta"@
}

/// The metadata directory of the repository at `repo_root`.
pub open spec fn meta_dir_of(repo_root: Seq<char>) -> Seq<char> {
    push_path(repo_root, meta_dir_name())
}

/// The metadata file of workspace `ws_name` in the repository at `repo_root`.
pub open spec fn meta_path_of(repo_root: Seq<char>, ws_name: Seq<char>) -> Seq<char> {
    push_path(meta_dir_of(repo_root), ws_name + ".json"@)
}

/// Return the metadata directory path for a given jj repo root.
pub fn meta_dir(repo_root: &str) -> (r: String)
    ensures
        r@ == meta_dir_of(repo_root@),
{
    join(repo_root, ".jj-worktree-meta")
}

/// Return the metadata file path for a given workspace name.
pub fn meta_path(repo_root: &str, ws_name: &str) -> (r: String)
    ensures
        r@ == meta_path_of(repo_root@, ws_name@),
{
    let dir = meta_dir(repo_root);
    let mut file = String::from_str(ws_name);
    file.append(".json");
    join(dir.as_str(), file.as_str())
}

/// The metadata file of a workspace whose name has no `/` is a file directly
/// inside the metadata directory: its components are the directory's and
/// then `<ws_name>.json`.
pub proof fn law_meta_path_in_meta_dir(repo_root: Seq<char>, ws_name: Seq<char>)
    requires
        !ws_name.contains('/'),
    ensures
        path_components(meta_path_of(repo_root, ws_name)) == path_components(
            meta_dir_of(repo_root),
        ).push(CompSpec::Normal(ws_name + ".json"@)),
        path_starts_with(meta_path_of(repo_root, ws_name), meta_dir_of(repo_root)),
{
    reveal_strlit(".json");
    reveal_strlit(".jj-worktree-meta");
    reveal_strlit("/");
    reveal_strlit(".");
    reveal_strlit("..");
    let f = ws_name + ".json"@;
    assert(!f.contains('/')) by {
        if f.contains('/') {
            let k = choose|k: int| 0 <= k < f.len() && f[k] == '/';
            if k < ws_name.len() {
                assert(ws_name[k] == '/');
            } else {
                assert(".json"@[k - ws_name.len()] == '/');
            }
        }
    }
    assert(f != "."@ && f != ".."@) by {
        assert(f.len() >= 5);
    }
    let d = meta_dir_of(repo_root);
    assert(d.len() > 0);
    lemma_push_components(d, f);
    let a = path_components(meta_path_of(repo_root, ws_name));
    let b = path_components(d);
    assert(a.take(b.len() as int) =~= b);
}

/// Distinct workspaces (with names free of `/`) have distinct metadata
/// files in the same repository.
pub proof fn law_meta_paths_distinct(repo_root: Seq<char>, a: Seq<char>, b: Seq<char>)
    requires
        !a.contains('/'),
        !b.contains('/'),
        a != b,
    ensures
        meta_path_of(repo_root, a) != meta_path_of(repo_root, b),
{
    law_meta_path_in_meta_dir(repo_root, a);
    law_meta_path_in_meta_dir(repo_root, b);
    reveal_strlit(".json");
    let d = path_components(meta_dir_of(repo_root));
    if meta_path_of(repo_root, a) == meta_path_of(repo_root, b) {
        assert(d.push(CompSpec::Normal(a + ".json"@)).last() == CompSpec::Normal(a + ".json"@));
        assert(d.push(CompSpec::Normal(b + ".json"@)).last() == CompSpec::Normal(b + ".json"@));
        assert(a + ".json"@ == b + ".json"@);
        assert((a + ".json"@).len() == a.len() + 5);
        assert(a.len() == b.len());
        assert(a =~= (a + ".json"@).take(a.len() as int));
        assert(b =~= (b + ".json"@).take(b.len() as int));
    }
}

/// Whether the file at `path` is a metadata file (its extension is `json`).
pub fn is_meta_file(path: &str) -> (r: bool)
    ensures
        r == (extension(path@) == Some("json"@)),
{
    match extension_of(path) {
        Some(e) => same_as(&e, "json"),
        None => false,
    }
}

/// Whether `m` records the bookmark `b`.
pub open spec fn has_bookmark(m: WorkspaceMeta, b: Seq<char>) -> bool {
    opt_str(m.bookmark) == Some(b)
}

/// Whether `k` is the first position in `metas` of an entry that records
/// bookmark `b`.
pub open spec fn is_first_with(metas: Seq<WorkspaceMeta>, b: Seq<char>, k: int) -> bool {
    &&& 0 <= k < metas.len()
    &&& has_bookmark(metas[k], b)
    &&& forall|j: int| 0 <= j < k ==> !has_bookmark(#[trigger] metas[j], b)
}

/// The first position in `metas` of an entry that records bookmark `b`, or
/// `metas.len()` when none does.
pub open spec fn first_with_bookmark(metas: Seq<WorkspaceMeta>, b: Seq<char>) -> int {
    if exists|k: int| is_first_with(metas, b, k) {
        choose|k: int| is_first_with(metas, b, k)
    } else {
        metas.len() as int
    }
}

proof fn lemma_first_with_bookmark(metas: Seq<WorkspaceMeta>, b: Seq<char>, i: int)
    requires
        0 <= i <= metas.len(),
        forall|j: int| 0 <= j < i ==> !has_bookmark(#[trigger] metas[j], b),
        i == metas.len() || has_bookmark(metas[i], b),
    ensures
        first_with_bookmark(metas, b) == i,
{
    if i < metas.len() {
        assert(is_first_with(metas, b, i));
        let k = choose|k: int| is_first_with(metas, b, k);
        assert(is_first_with(metas, b, k));
        if k < i {
            assert(!has_bookmark(metas[k], b));
        } else if k > i {
            assert(!has_bookmark(metas[i], b));
        }
    } else {
        assert forall|k: int| !is_first_with(metas, b, k) by {
            if 0 <= k < metas.len() {
                assert(!has_bookmark(metas[k], b));
            }
        }
    }
}

/// Find workspace metadata by bookmark name: the first entry of `entries`
/// that records `bookmark`.
pub fn find_by_bookmark<'a>(entries: &'a [WorkspaceMeta], bookmark: &str) -> (r: Option<
    &'a WorkspaceMeta,
>)
    ensures
        match r {
            Some(m) => first_with_bookmark(entries@, bookmark@) < entries@.len() && *m
                == entries@[first_with_bookmark(entries@, bookmark@)],
            None => first_with_bookmark(entries@, bookmark@) == entries@.len(),
        },
{
    let b = chars_of(bookmark);
    let mut i: usize = 0;
    while i < entries.len()
        invariant
            b@ == bookmark@,
            i <= entries@.len(),
            forall|j: int| 0 <= j < i ==> !has_bookmark(#[trigger] entries@[j], bookmark@),
        decreases entries@.len() - i,
    {
        let found = match &entries[i].bookmark {
            Some(m) => chars_eq(&chars_of(m.as_str()), &b),
            None => false,
        };
        assert(found == has_bookmark(entries@[i as int], bookmark@));
        if found {
            proof {
                lemma_first_with_bookmark(entries@, bookmark@, i as int);
            }
            return Some(&entries[i]);
        }
        i = i + 1;
    }
    proof {
        lemma_first_with_bookmark(entries@, bookmark@, i as int);
    }
    None
}

/// A copy of `m`.
pub fn copy_meta(m: &WorkspaceMeta) -> (r: WorkspaceMeta)
    ensures
        r == *m,
{
    let bookmark = match &m.bookmark {
        Some(b) => Some(b.clone()),
        None => None,
    };
    WorkspaceMeta {
        workspace: m.workspace.clone(),
        bookmark,
        created_at: m.created_at,
        path: m.path.clone(),
    }
}

/// Whether `a` comes strictly before `b` in the order of `str`: compared
/// character by character (which is the order of their UTF-8 bytes), a
/// proper prefix first.
pub open spec fn lex_lt(a: Seq<char>, b: Seq<char>) -> bool
    decreases a.len(),
{
    if b.len() == 0 {
        false
    } else if a.len() == 0 {
        true
    } else if a[0] < b[0] {
        true
    } else if a[0] == b[0] {
        lex_lt(a.drop_first(), b.drop_first())
    } else {
        false
    }
}

/// The order of workspace names is that of `str`: a proper prefix comes
/// first, and otherwise the first differing character decides.
pub proof fn law_name_order(a: Seq<char>, x: Seq<char>, c1: char, c2: char, y: Seq<char>, z: Seq<char>)
    requires
        x.len() > 0,
        c1 < c2,
    ensures
        lex_lt(a, a + x),
        !lex_lt(a + x, a),
        lex_lt(a + seq![c1] + y, a + seq![c2] + z),
        !lex_lt(a + seq![c2] + z, a + seq![c1] + y),
    decreases a.len(),
{
    if a.len() == 0 {
        assert(a + x =~= x);
        assert(a + seq![c1] + y =~= seq![c1] + y);
        assert(a + seq![c2] + z =~= seq![c2] + z);
        assert((seq![c1] + y)[0] == c1);
        assert((seq![c2] + z)[0] == c2);
    } else {
        law_name_order(a.drop_first(), x, c1, c2, y, z);
        assert((a + x).drop_first() =~= a.drop_first() + x);
        assert((a + x)[0] == a[0]);
        assert((a + seq![c1] + y).drop_first() =~= a.drop_first() + seq![c1] + y);
        assert((a + seq![c2] + z).drop_first() =~= a.drop_first() + seq![c2] + z);
        assert((a + seq![c1] + y)[0] == a[0]);
        assert((a + seq![c2] + z)[0] == a[0]);
    }
}

pub proof fn lemma_lex_lt_irreflexive(a: Seq<char>)
    ensures
        !lex_lt(a, a),
    decreases a.len(),
{
    if a.len() > 0 {
        lemma_lex_lt_irreflexive(a.drop_first());
    }
}

pub proof fn lemma_lex_lt_total(a: Seq<char>, b: Seq<char>)
    ensures
        lex_lt(a, b) || lex_lt(b, a) || a == b,
    decreases a.len(),
{
    if a.len() > 0 && b.len() > 0 && a[0] == b[0] {
        lemma_lex_lt_total(a.drop_first(), b.drop_first());
        if a.drop_first() == b.drop_first() {
            assert(a =~= seq![a[0]] + a.drop_first());
            assert(b =~= seq![b[0]] + b.drop_first());
        }
    } else if a.len() > 0 && b.len() > 0 {
        assert(a[0] != b[0]);
    } else if a.len() == 0 && b.len() == 0 {
        assert(a =~= b);
    }
}

pub proof fn lemma_lex_lt_asymmetric(a: Seq<char>, b: Seq<char>)
    ensures
        !(lex_lt(a, b) && lex_lt(b, a)),
    decreases a.len(),
{
    if a.len() > 0 && b.len() > 0 && a[0] == b[0] {
        lemma_lex_lt_asymmetric(a.drop_first(), b.drop_first());
    }
}

pub proof fn lemma_lex_lt_transitive(a: Seq<char>, b: Seq<char>, c: Seq<char>)
    requires
        lex_lt(a, b),
        lex_lt(b, c),
    ensures
        lex_lt(a, c),
    decreases a.len(),
{
    if a.len() > 0 && b.len() > 0 && c.len() > 0 && a[0] == b[0] && b[0] == c[0] {
        lemma_lex_lt_transitive(a.drop_first(), b.drop_first(), c.drop_first());
    }
}

/// The key by which metadata entries are ordered: the workspace name.
pub open spec fn key_of(m: WorkspaceMeta) -> Seq<char> {
    m.workspace@
}

/// Whether `ms` is ordered by workspace name.
pub open spec fn sorted_by_workspace(ms: Seq<WorkspaceMeta>) -> bool {
    forall|i: int, j: int|
        0 <= i < j < ms.len() ==> !lex_lt(key_of(#[trigger] ms[j]), key_of(#[trigger] ms[i]))
}

/// The entries of `ms` whose workspace name is `k`, in order.
pub open spec fn with_key(ms: Seq<WorkspaceMeta>, k: Seq<char>) -> Seq<WorkspaceMeta>
    decreases ms.len(),
{
    if ms.len() == 0 {
        Seq::empty()
    } else {
        let init = with_key(ms.drop_last(), k);
        if key_of(ms.last()) == k {
            init.push(ms.last())
        } else {
            init
        }
    }
}

/// The entries that were read, in order.
pub open spec fn present(es: Seq<Option<WorkspaceMeta>>) -> Seq<WorkspaceMeta>
    decreases es.len(),
{
    if es.len() == 0 {
        Seq::empty()
    } else {
        match es.last() {
            Some(m) => present(es.drop_last()).push(m),
            None => present(es.drop_last()),
        }
    }
}

pub proof fn lemma_with_key_concat(a: Seq<WorkspaceMeta>, b: Seq<WorkspaceMeta>, k: Seq<char>)
    ensures
        with_key(a + b, k) == with_key(a, k) + with_key(b, k),
    decreases b.len(),
{
    if b.len() == 0 {
        assert(a + b =~= a);
        assert(with_key(a, k) + with_key(b, k) =~= with_key(a, k));
    } else {
        assert((a + b).drop_last() =~= a + b.drop_last());
        assert((a + b).last() == b.last());
        lemma_with_key_concat(a, b.drop_last(), k);
        if key_of(b.last()) == k {
            assert(with_key(a, k) + with_key(b, k) =~= (with_key(a, k) + with_key(b.drop_last(), k)).push(
                b.last(),
            ));
        }
    }
}

pub proof fn lemma_with_key_none(s: Seq<WorkspaceMeta>, k: Seq<char>)
    requires
        forall|j: int| 0 <= j < s.len() ==> key_of(#[trigger] s[j]) != k,
    ensures
        with_key(s, k) == Seq::<WorkspaceMeta>::empty(),
    decreases s.len(),
{
    if s.len() > 0 {
        assert forall|j: int| 0 <= j < s.drop_last().len() implies key_of(
            #[trigger] s.drop_last()[j],
        ) != k by {
            assert(s.drop_last()[j] == s[j]);
        }
        lemma_with_key_none(s.drop_last(), k);
    }
}

pub proof fn lemma_with_key_single(x: WorkspaceMeta, k: Seq<char>)
    ensures
        with_key(seq![x], k) == (if key_of(x) == k {
            seq![x]
        } else {
            Seq::<WorkspaceMeta>::empty()
        }),
{
    assert(seq![x].drop_last() =~= Seq::<WorkspaceMeta>::empty());
    assert(seq![x].last() == x);
    assert(with_key(Seq::<WorkspaceMeta>::empty(), k) == Seq::<WorkspaceMeta>::empty());
    if key_of(x) == k {
        assert(Seq::<WorkspaceMeta>::empty().push(x) =~= seq![x]);
    }
}

/// Keeps the entries that were read, ordered by workspace name; entries
/// with the same name keep their order (a stable sort). The result is a
/// permutation of the entries that were read.
pub fn list(entries: &[Option<WorkspaceMeta>]) -> (r: Vec<WorkspaceMeta>)
    ensures
        sorted_by_workspace(r@),
        forall|k: Seq<char>| #[trigger] with_key(r@, k) == with_key(present(entries@), k),
        r@.to_multiset() == present(entries@).to_multiset(),
{
    let mut out: Vec<WorkspaceMeta> = Vec::new();
    let mut i: usize = 0;
    assert(entries@.take(0) =~= Seq::<Option<WorkspaceMeta>>::empty());
    while i < entries.len()
        invariant
            i <= entries@.len(),
            sorted_by_workspace(out@),
            forall|k: Seq<char>| #[trigger]
                with_key(out@, k) == with_key(present(entries@.take(i as int)), k),
            out@.to_multiset() == present(entries@.take(i as int)).to_multiset(),
        decreases entries@.len() - i,
    {
        assert(entries@.take(i + 1).drop_last() =~= entries@.take(i as int));
        assert(entries@.take(i + 1).last() == entries@[i as int]);
        match &entries[i] {
            None => {},
            Some(m) => {
                let x = copy_meta(m);
                let xk = chars_of(x.workspace.as_str());
                let mut p: usize = 0;
                while p < out.len() && !str_lt(&xk, &chars_of(out[p].workspace.as_str()))
                    invariant
                        p <= out@.len(),
                        xk@ == key_of(x),
                        forall|q: int| 0 <= q < p ==> !lex_lt(key_of(x), key_of(#[trigger] out@[q])),
                    decreases out@.len() - p,
                {
                    p = p + 1;
                }
                let ghost old_out = out@;
                let ghost at_end = p == old_out.len();
                assert(p < old_out.len() ==> lex_lt(key_of(x), key_of(old_out[p as int])));
                out.insert(p, x);
                assert(out@ =~= old_out.take(p as int) + seq![x] + old_out.skip(p as int));
                proof {
                    let pre = old_out.take(p as int);
                    let post = old_out.skip(p as int);
                    assert(old_out =~= pre + post);
                    assert(seq![x] =~= Seq::<WorkspaceMeta>::empty().push(x));
                    assert(present(entries@.take(i + 1)) == present(entries@.take(i as int)).push(x));
                    assert(out@.to_multiset() =~= present(entries@.take(i + 1)).to_multiset()) by {
                        broadcast use vstd::seq_lib::group_to_multiset_ensures;
                        broadcast use vstd::multiset::group_multiset_axioms;

                        vstd::seq_lib::lemma_multiset_commutative(pre + seq![x], post);
                        vstd::seq_lib::lemma_multiset_commutative(pre, seq![x]);
                        vstd::seq_lib::lemma_multiset_commutative(pre, post);
                        assert(Seq::<WorkspaceMeta>::empty().to_multiset() =~= vstd::multiset::Multiset::empty());
                    }
                    assert forall|q: int| p <= q < old_out.len() implies lex_lt(
                        key_of(x),
                        key_of(#[trigger] old_out[q]),
                    ) by {
                        if q > p {
                            lemma_lex_lt_total(key_of(old_out[p as int]), key_of(old_out[q]));
                            if lex_lt(key_of(old_out[p as int]), key_of(old_out[q])) {
                                lemma_lex_lt_transitive(
                                    key_of(x),
                                    key_of(old_out[p as int]),
                                    key_of(old_out[q]),
                                );
                            }
                        }
                    }
                    assert forall|a: int, b: int|
                        0 <= a < b < out@.len() implies !lex_lt(
                        key_of(#[trigger] out@[b]),
                        key_of(#[trigger] out@[a]),
                    ) by {
                        if b < p {
                        } else if b == p {
                        } else if a < p {
                            assert(out@[b] == old_out[b - 1]);
                            lemma_lex_lt_asymmetric(key_of(x), key_of(old_out[b - 1]));
                            lemma_lex_lt_total(key_of(x), key_of(old_out[a]));
                            if lex_lt(key_of(old_out[b - 1]), key_of(old_out[a])) {
                                lemma_lex_lt_transitive(
                                    key_of(x),
                                    key_of(old_out[b - 1]),
                                    key_of(old_out[a]),
                                );
                            }
                        } else if a == p {
                            assert(out@[b] == old_out[b - 1]);
                            lemma_lex_lt_asymmetric(key_of(x), key_of(old_out[b - 1]));
                        } else {
                            assert(out@[a] == old_out[a - 1]);
                            assert(out@[b] == old_out[b - 1]);
                        }
                    }
                    assert forall|k: Seq<char>| #[trigger]
                        with_key(out@, k) == with_key(present(entries@.take(i + 1)), k) by {
                        let pre = old_out.take(p as int);
                        let post = old_out.skip(p as int);
                        assert(old_out =~= pre + post);
                        lemma_with_key_concat(pre, post, k);
                        lemma_with_key_concat(pre + seq![x], post, k);
                        lemma_with_key_concat(pre, seq![x], k);
                        lemma_with_key_single(x, k);
                        assert(entries@[i as int] == Some(x));
                        assert(present(entries@.take(i + 1)) == present(entries@.take(i as int)).push(x));
                        assert(with_key(old_out, k) == with_key(present(entries@.take(i as int)), k));
                        assert(out@ == (pre + seq![x]) + post);
                        let prev = present(entries@.take(i as int));
                        assert(prev.push(x).drop_last() =~= prev);
                        assert(prev.push(x).last() == x);
                        if key_of(x) == k {
                            assert forall|j: int| 0 <= j < post.len() implies key_of(
                                #[trigger] post[j],
                            ) != k by {
                                assert(post[j] == old_out[p + j]);
                                lemma_lex_lt_irreflexive(k);
                            }
                            lemma_with_key_none(post, k);
                            assert(with_key(out@, k) =~= with_key(old_out, k).push(x));
                        } else {
                            assert(with_key(out@, k) =~= with_key(old_out, k));
                        }
                    }
                }
            },
        }
        i = i + 1;
    }
    assert(entries@.take(i as int) =~= entries@);
    out
}

/// Whether `a` comes strictly before `b` in the order of `str`.
pub fn str_lt(a: &Vec<char>, b: &Vec<char>) -> (r: bool)
    ensures
        r == lex_lt(a@, b@),
{
    let mut i: usize = 0;
    assert(a@.skip(0) =~= a@);
    assert(b@.skip(0) =~= b@);
    while i < a.len() && i < b.len() && a[i] == b[i]
        invariant
            i <= a@.len(),
            i <= b@.len(),
            lex_lt(a@.skip(i as int), b@.skip(i as int)) == lex_lt(a@, b@),
        decreases a@.len() - i,
    {
        assert(a@.skip(i as int).drop_first() =~= a@.skip(i + 1));
        assert(b@.skip(i as int).drop_first() =~= b@.skip(i + 1));
        i = i + 1;
    }
    if i == b.len() {
        false
    } else if i == a.len() {
        true
    } else {
        assert(a@.skip(i as int)[0] == a@[i as int]);
        assert(b@.skip(i as int)[0] == b@[i as int]);
        a[i] < b[i]
    }
}

} // verus!
