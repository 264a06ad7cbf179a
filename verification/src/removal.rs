//! The `remove` command as a sequence of decisions. The caller performs each
//! action (a jj call, a file-system operation) and hands back what came of it
//! as the next event; every check that can refuse the removal is decided here,
//! before anything is deleted.

use vstd::prelude::*;
use vstd::string::StringExecFns;

use crate::path::{has_path_prefix, path_components, path_starts_with, file_name};
use crate::text::{is_space, lemma_trim_blank, lines, opt_str, strs, trim};
use crate::worktree::{
    is_protected, is_protected_workspace, listed_names, parse_workspace_names, reports_changes,
    workspace_for_dir,
};

verus! {

/// Where `remove` stands.
#[derive(Debug, Clone, Copy, PartialEq, Eq)]
pub enum RemovePhase {
    /// Nothing done yet.
    Start,
    /// Waiting for the output of `jj workspace list`.
    Listing,
    /// Waiting for the resolved path of the workspace at `index`.
    Resolving,
    /// Waiting for the workspace's metadata.
    Loading,
    /// Waiting for the output of `jj diff --stat`.
    Diffing,
    /// Deleting the bookmark recorded in the metadata.
    DeletingBookmark,
    /// Running `jj workspace forget`.
    Forgetting,
    /// Removing the workspace's directory.
    RemovingDir,
    /// Removing the workspace's metadata file.
    RemovingMeta,
    /// Running `jj git export`.
    Exporting,
    /// Done, successfully or not.
    Finished,
}

/// The position of a phase in the order in which `remove` goes through them.
pub open spec fn remove_rank(p: RemovePhase) -> nat {
    match p {
        RemovePhase::Start => 0,
        RemovePhase::Listing => 1,
        RemovePhase::Resolving => 2,
        RemovePhase::Loading => 3,
        RemovePhase::Diffing => 4,
        RemovePhase::DeletingBookmark => 5,
        RemovePhase::Forgetting => 6,
        RemovePhase::RemovingDir => 7,
        RemovePhase::RemovingMeta => 8,
        RemovePhase::Exporting => 9,
        RemovePhase::Finished => 10,
    }
}

/// What `remove` has learned so far.
#[verifier::ext_equal]
pub struct RemoveModel {
    pub phase: RemovePhase,
    pub force: bool,
    /// The resolved path to remove.
    pub target: Seq<char>,
    /// The repository root, resolved.
    pub repo_root: Seq<char>,
    /// The workspaces that `jj workspace list` names.
    pub names: Seq<Seq<char>>,
    /// The workspace whose path is being resolved.
    pub index: nat,
    /// The workspace to remove, once found.
    pub ws: Seq<char>,
    /// The bookmark that the workspace's metadata records.
    pub bookmark: Option<Seq<char>>,
}

/// What `remove` has learned so far.
pub struct RemoveState {
    pub phase: RemovePhase,
    pub force: bool,
    pub target: String,
    pub repo_root: String,
    pub names: Vec<String>,
    pub index: usize,
    pub ws: String,
    pub bookmark: Option<String>,
}

impl View for RemoveState {
    type V = RemoveModel;

    open spec fn view(&self) -> RemoveModel {
        RemoveModel {
            phase: self.phase,
            force: self.force,
            target: self.target@,
            repo_root: self.repo_root@,
            names: strs(self.names@),
            index: self.index as nat,
            ws: self.ws@,
            bookmark: opt_str(self.bookmark),
        }
    }
}

/// What came of the last action (or, first, what to remove).
#[derive(Debug)]
pub enum RemoveEventOf<S> {
    /// Remove `target` (resolved), from the repository at `repo_root`
    /// (resolved); `force` skips the check for uncommitted changes.
    Begin { force: bool, target: S, repo_root: S },
    /// The output of `jj workspace list`.
    Listed(S),
    /// The resolved path of the workspace asked for.
    Resolved(S),
    /// The bookmark recorded in the workspace's metadata (`None` without
    /// metadata or without a bookmark).
    MetaLoaded(Option<S>),
    /// The output of `jj diff --stat`, or `None` when jj failed.
    Diffed(Option<S>),
    /// The action succeeded.
    Done,
    /// The action failed, with this message.
    Failed(S),
}

/// What came of the last action.
pub type RemoveEvent = RemoveEventOf<String>;

impl View for RemoveEventOf<String> {
    type V = RemoveEventOf<Seq<char>>;

    open spec fn view(&self) -> RemoveEventOf<Seq<char>> {
        match self {
            RemoveEventOf::Begin { force, target, repo_root } => RemoveEventOf::Begin {
                force: *force,
                target: target@,
                repo_root: repo_root@,
            },
            RemoveEventOf::Listed(o) => RemoveEventOf::Listed(o@),
            RemoveEventOf::Resolved(p) => RemoveEventOf::Resolved(p@),
            RemoveEventOf::MetaLoaded(b) => RemoveEventOf::MetaLoaded(opt_str(*b)),
            RemoveEventOf::Diffed(o) => RemoveEventOf::Diffed(opt_str(*o)),
            RemoveEventOf::Done => RemoveEventOf::Done,
            RemoveEventOf::Failed(m) => RemoveEventOf::Failed(m@),
        }
    }
}

/// Why `remove` refuses.
#[derive(Debug)]
pub enum RemoveRefusalOf<S> {
    /// The path is not inside the repository.
    NotInside { target: S, repo_root: S },
    /// The workspace is one that is never removed.
    Protected(S),
    /// The workspace has uncommitted changes and `--force` was not given.
    Uncommitted(S),
}

/// Why `remove` refuses.
pub type RemoveRefusal = RemoveRefusalOf<String>;

impl View for RemoveRefusalOf<String> {
    type V = RemoveRefusalOf<Seq<char>>;

    open spec fn view(&self) -> RemoveRefusalOf<Seq<char>> {
        match self {
            RemoveRefusalOf::NotInside { target, repo_root } => RemoveRefusalOf::NotInside {
                target: target@,
                repo_root: repo_root@,
            },
            RemoveRefusalOf::Protected(w) => RemoveRefusalOf::Protected(w@),
            RemoveRefusalOf::Uncommitted(w) => RemoveRefusalOf::Uncommitted(w@),
        }
    }
}

/// The next thing for the caller to do.
#[derive(Debug)]
pub enum RemoveActionOf<S> {
    /// Run `jj workspace list`.
    ListWorkspaces,
    /// Resolve the path of this workspace.
    ResolvePath(S),
    /// Load this workspace's metadata.
    LoadMeta(S),
    /// Run `jj diff --stat` on this workspace.
    Diff(S),
    /// Delete this bookmark (a failure is only warned about).
    DeleteBookmark(S),
    /// Run `jj workspace forget` on this workspace.
    Forget(S),
    /// Remove this directory, if it exists.
    RemoveDir(S),
    /// Remove this workspace's metadata file.
    RemoveMeta(S),
    /// Run `jj git export` (a failure is ignored).
    Export,
    /// Stop: the removal is refused.
    Refuse(RemoveRefusalOf<S>),
    /// Stop: a step failed with this message.
    Fail(S),
    /// Stop: the workspace `ws` at `target` was removed.
    Removed { ws: S, target: S },
}

/// The next thing for the caller to do.
pub type RemoveAction = RemoveActionOf<String>;

impl View for RemoveActionOf<String> {
    type V = RemoveActionOf<Seq<char>>;

    open spec fn view(&self) -> RemoveActionOf<Seq<char>> {
        match self {
            RemoveActionOf::ListWorkspaces => RemoveActionOf::ListWorkspaces,
            RemoveActionOf::ResolvePath(w) => RemoveActionOf::ResolvePath(w@),
            RemoveActionOf::LoadMeta(w) => RemoveActionOf::LoadMeta(w@),
            RemoveActionOf::Diff(w) => RemoveActionOf::Diff(w@),
            RemoveActionOf::DeleteBookmark(b) => RemoveActionOf::DeleteBookmark(b@),
            RemoveActionOf::Forget(w) => RemoveActionOf::Forget(w@),
            RemoveActionOf::RemoveDir(p) => RemoveActionOf::RemoveDir(p@),
            RemoveActionOf::RemoveMeta(w) => RemoveActionOf::RemoveMeta(w@),
            RemoveActionOf::Export => RemoveActionOf::Export,
            RemoveActionOf::Refuse(r) => RemoveActionOf::Refuse(r@),
            RemoveActionOf::Fail(m) => RemoveActionOf::Fail(m@),
            RemoveActionOf::Removed { ws, target } => RemoveActionOf::Removed {
                ws: ws@,
                target: target@,
            },
        }
    }
}

/// Whether the action deletes something.
pub open spec fn is_deletion(a: RemoveActionOf<Seq<char>>) -> bool {
    a is DeleteBookmark || a is Forget || a is RemoveDir || a is RemoveMeta
}

/// Whether two paths have the same components (as `Path`'s `==` compares).
pub open spec fn same_path(a: Seq<char>, b: Seq<char>) -> bool {
    path_components(a) == path_components(b)
}

/// The workspace among `names` named like the last component of `target`.
pub open spec fn named_like(names: Seq<Seq<char>>, target: Seq<char>) -> Option<Seq<char>> {
    match file_name(target) {
        Some(n) => if names.contains(n) {
            Some(n)
        } else {
            None
        },
        None => None,
    }
}

/// The text of a refusal.
pub open spec fn refusal_text(r: RemoveRefusalOf<Seq<char>>) -> Seq<char> {
    match r {
        RemoveRefusalOf::NotInside { target, repo_root } => "path "@ + target
            + " is not inside the jj repository at "@ + repo_root,
        RemoveRefusalOf::Protected(w) => "refusing to remove the '"@ + w
            + "' workspace (protected workspace)"@,
        RemoveRefusalOf::Uncommitted(w) => "workspace '"@ + w
            + "' has uncommitted changes. Use --force to remove anyway."@,
    }
}

/// The state before `remove` has begun.
pub open spec fn remove_initial() -> RemoveModel {
    RemoveModel {
        phase: RemovePhase::Start,
        force: false,
        target: Seq::empty(),
        repo_root: Seq::empty(),
        names: Seq::empty(),
        index: 0,
        ws: Seq::empty(),
        bookmark: None,
    }
}

/// The invariant of the state: while a path is being resolved, it is the
/// path of one of the listed workspaces.
pub open spec fn remove_wf(s: RemoveModel) -> bool {
    s.phase == RemovePhase::Resolving ==> s.index < s.names.len()
}

/// Which events may follow in each phase: the outcomes of the action that
/// led to it.
pub open spec fn remove_accepts(p: RemovePhase, e: RemoveEventOf<Seq<char>>) -> bool {
    match p {
        RemovePhase::Start => e is Begin,
        RemovePhase::Listing => e is Listed || e is Failed,
        RemovePhase::Resolving => e is Resolved || e is Failed,
        RemovePhase::Loading => e is MetaLoaded || e is Failed,
        RemovePhase::Diffing => e is Diffed,
        RemovePhase::Finished => false,
        _ => e is Done || e is Failed,
    }
}

/// `s` in phase `p`.
pub open spec fn in_phase(s: RemoveModel, p: RemovePhase) -> RemoveModel {
    RemoveModel {
        phase: p,
        force: s.force,
        target: s.target,
        repo_root: s.repo_root,
        names: s.names,
        index: s.index,
        ws: s.ws,
        bookmark: s.bookmark,
    }
}

/// The workspace `w` was found: a protected one is refused, any other has
/// its metadata loaded.
pub open spec fn remove_found(s: RemoveModel, w: Seq<char>) -> (RemoveModel, RemoveActionOf<Seq<char>>) {
    let s1 = RemoveModel {
        phase: s.phase,
        force: s.force,
        target: s.target,
        repo_root: s.repo_root,
        names: s.names,
        index: s.index,
        ws: w,
        bookmark: s.bookmark,
    };
    if is_protected(w) {
        (in_phase(s1, RemovePhase::Finished), RemoveActionOf::Refuse(RemoveRefusalOf::Protected(w)))
    } else {
        (in_phase(s1, RemovePhase::Loading), RemoveActionOf::LoadMeta(w))
    }
}

/// Look at the listed workspace at `i`; past the last, fall back to the one
/// named like the target's last component.
pub open spec fn remove_try(s: RemoveModel, i: nat) -> (RemoveModel, RemoveActionOf<Seq<char>>) {
    if i < s.names.len() {
        let s1 = RemoveModel {
            phase: RemovePhase::Resolving,
            force: s.force,
            target: s.target,
            repo_root: s.repo_root,
            names: s.names,
            index: i,
            ws: s.ws,
            bookmark: s.bookmark,
        };
        (s1, RemoveActionOf::ResolvePath(s.names[i as int]))
    } else {
        match named_like(s.names, s.target) {
            Some(w) => remove_found(s, w),
            None => (
                in_phase(s, RemovePhase::Finished),
                RemoveActionOf::Fail("no workspace found for path: "@ + s.target),
            ),
        }
    }
}

/// The checks passed: delete the recorded bookmark, if any, else forget
/// the workspace.
pub open spec fn remove_delete(s: RemoveModel) -> (RemoveModel, RemoveActionOf<Seq<char>>) {
    match s.bookmark {
        Some(b) => (in_phase(s, RemovePhase::DeletingBookmark), RemoveActionOf::DeleteBookmark(b)),
        None => (in_phase(s, RemovePhase::Forgetting), RemoveActionOf::Forget(s.ws)),
    }
}

/// The step of `remove`: from the state and the event, the next state and
/// the action to perform.
pub open spec fn remove_next(s: RemoveModel, e: RemoveEventOf<Seq<char>>) -> (RemoveModel, RemoveActionOf<Seq<char>>) {
    match e {
        RemoveEventOf::Begin { force, target, repo_root } => {
            let s1 = RemoveModel {
                phase: s.phase,
                force,
                target,
                repo_root,
                names: s.names,
                index: s.index,
                ws: s.ws,
                bookmark: s.bookmark,
            };
            if path_starts_with(target, repo_root) {
                (in_phase(s1, RemovePhase::Listing), RemoveActionOf::ListWorkspaces)
            } else {
                (
                    in_phase(s1, RemovePhase::Finished),
                    RemoveActionOf::Refuse(RemoveRefusalOf::NotInside { target, repo_root }),
                )
            }
        },
        RemoveEventOf::Listed(out) => {
            let s1 = RemoveModel {
                phase: s.phase,
                force: s.force,
                target: s.target,
                repo_root: s.repo_root,
                names: listed_names(lines(out)),
                index: s.index,
                ws: s.ws,
                bookmark: s.bookmark,
            };
            remove_try(s1, 0)
        },
        RemoveEventOf::Resolved(p) => {
            if same_path(p, s.target) {
                remove_found(s, s.names[s.index as int])
            } else {
                remove_try(s, s.index + 1)
            }
        },
        RemoveEventOf::MetaLoaded(b) => {
            let s1 = RemoveModel {
                phase: s.phase,
                force: s.force,
                target: s.target,
                repo_root: s.repo_root,
                names: s.names,
                index: s.index,
                ws: s.ws,
                bookmark: b,
            };
            if s.force {
                remove_delete(s1)
            } else {
                (in_phase(s1, RemovePhase::Diffing), RemoveActionOf::Diff(s.ws))
            }
        },
        RemoveEventOf::Diffed(o) => {
            if o matches Some(t) && trim(t).len() > 0 {
                (
                    in_phase(s, RemovePhase::Finished),
                    RemoveActionOf::Refuse(RemoveRefusalOf::Uncommitted(s.ws)),
                )
            } else {
                remove_delete(s)
            }
        },
        RemoveEventOf::Done => remove_after(s),
        RemoveEventOf::Failed(m) => {
            if s.phase == RemovePhase::DeletingBookmark || s.phase == RemovePhase::Exporting {
                remove_after(s)
            } else {
                (in_phase(s, RemovePhase::Finished), RemoveActionOf::Fail(m))
            }
        },
    }
}

/// After a deletion step (or the export): the step that follows it.
pub open spec fn remove_after(s: RemoveModel) -> (RemoveModel, RemoveActionOf<Seq<char>>) {
    match s.phase {
        RemovePhase::DeletingBookmark => (
            in_phase(s, RemovePhase::Forgetting),
            RemoveActionOf::Forget(s.ws),
        ),
        RemovePhase::Forgetting => (
            in_phase(s, RemovePhase::RemovingDir),
            RemoveActionOf::RemoveDir(s.target),
        ),
        RemovePhase::RemovingDir => (
            in_phase(s, RemovePhase::RemovingMeta),
            RemoveActionOf::RemoveMeta(s.ws),
        ),
        RemovePhase::RemovingMeta => (in_phase(s, RemovePhase::Exporting), RemoveActionOf::Export),
        _ => (
            in_phase(s, RemovePhase::Finished),
            RemoveActionOf::Removed { ws: s.ws, target: s.target },
        ),
    }
}

/// The actions of `remove` from state `s` for the events `events`, as long
/// as each event is one that the state accepts.
pub open spec fn remove_run(s: RemoveModel, events: Seq<RemoveEventOf<Seq<char>>>) -> Seq<RemoveActionOf<Seq<char>>>
    decreases events.len(),
{
    if events.len() == 0 || !remove_wf(s) || !remove_accepts(s.phase, events[0]) {
        Seq::empty()
    } else {
        seq![remove_next(s, events[0]).1] + remove_run(remove_next(s, events[0]).0, events.drop_first())
    }
}

/// The facts about one step that the laws of `remove` rest on.
proof fn lemma_remove_step(s: RemoveModel, e: RemoveEventOf<Seq<char>>)
    requires
        remove_wf(s),
        remove_accepts(s.phase, e),
    ensures
        remove_wf(remove_next(s, e).0),
        remove_rank(remove_next(s, e).0.phase) >= remove_rank(s.phase),
        remove_next(s, e).1 is Refuse ==> remove_rank(s.phase) <= 4,
        is_deletion(remove_next(s, e).1) ==> 5 <= remove_rank(remove_next(s, e).0.phase) <= 8,
        s.phase != RemovePhase::Start ==> remove_next(s, e).0.target == s.target
            && remove_next(s, e).0.repo_root == s.repo_root,
        remove_next(s, e).0.bookmark == (match e {
            RemoveEventOf::MetaLoaded(b) => b,
            _ => s.bookmark,
        }),
        remove_rank(s.phase) >= 3 ==> remove_next(s, e).0.ws == s.ws,
        remove_next(s, e).1 is Forget ==> remove_next(s, e).0.phase == RemovePhase::Forgetting,
        remove_next(s, e).1 is RemoveDir ==> remove_next(s, e).0.phase == RemovePhase::RemovingDir,
        remove_next(s, e).1 is RemoveMeta ==> remove_next(s, e).0.phase == RemovePhase::RemovingMeta,
{
}

proof fn lemma_run_first(s: RemoveModel, events: Seq<RemoveEventOf<Seq<char>>>, k: int)
    requires
        0 < k < remove_run(s, events).len(),
    ensures
        remove_run(s, events)[k] == remove_run(remove_next(s, events[0]).0, events.drop_first())[k - 1],
        remove_run(remove_next(s, events[0]).0, events.drop_first()).len() == remove_run(s, events).len() - 1,
{
}

proof fn lemma_run_len(s: RemoveModel, events: Seq<RemoveEventOf<Seq<char>>>)
    ensures
        remove_run(s, events).len() <= events.len(),
    decreases events.len(),
{
    if events.len() > 0 && remove_wf(s) && remove_accepts(s.phase, events[0]) {
        lemma_run_len(remove_next(s, events[0]).0, events.drop_first());
    }
}

proof fn lemma_no_refusal_late(s: RemoveModel, events: Seq<RemoveEventOf<Seq<char>>>, k: int)
    requires
        remove_rank(s.phase) >= 5,
        0 <= k < remove_run(s, events).len(),
    ensures
        !(remove_run(s, events)[k] is Refuse),
    decreases events.len(),
{
    lemma_remove_step(s, events[0]);
    if k > 0 {
        lemma_run_first(s, events, k);
        lemma_no_refusal_late(remove_next(s, events[0]).0, events.drop_first(), k - 1);
    }
}

/// Every refusal of `remove` comes before anything is deleted: in any run,
/// no refusal follows a deletion.
pub proof fn law_refusals_precede_deletions(
    s: RemoveModel,
    events: Seq<RemoveEventOf<Seq<char>>>,
    i: int,
    j: int,
)
    requires
        0 <= i < j < remove_run(s, events).len(),
        is_deletion(remove_run(s, events)[i]),
    ensures
        !(remove_run(s, events)[j] is Refuse),
    decreases events.len(),
{
    lemma_remove_step(s, events[0]);
    lemma_run_first(s, events, j);
    let s2 = remove_next(s, events[0]).0;
    if i == 0 {
        lemma_no_refusal_late(s2, events.drop_first(), j - 1);
    } else {
        lemma_run_first(s, events, i);
        law_refusals_precede_deletions(s2, events.drop_first(), i - 1, j - 1);
    }
}

/// A failure to forget the workspace, to remove its directory or to remove
/// its metadata ends `remove` with that failure: the next action is to fail
/// with its message, and nothing follows (nothing more is deleted, and
/// success is never reported).
pub proof fn law_deletion_failure_stops(
    s: RemoveModel,
    events: Seq<RemoveEventOf<Seq<char>>>,
    i: int,
    m: Seq<char>,
)
    requires
        0 < i < remove_run(s, events).len(),
        events[i] == RemoveEventOf::Failed(m),
        remove_run(s, events)[i - 1] is Forget || remove_run(s, events)[i - 1] is RemoveDir
            || remove_run(s, events)[i - 1] is RemoveMeta,
    ensures
        remove_run(s, events)[i] == RemoveActionOf::Fail(m),
        remove_run(s, events).len() == i + 1,
    decreases events.len(),
{
    lemma_run_len(s, events);
    lemma_remove_step(s, events[0]);
    lemma_run_first(s, events, i);
    let s2 = remove_next(s, events[0]).0;
    let rest = events.drop_first();
    assert(rest[i - 1] == events[i]);
    if i == 1 {
        lemma_remove_step(s2, rest[0]);
        let s3 = remove_next(s2, rest[0]).0;
        assert(s3.phase == RemovePhase::Finished);
        assert(remove_run(s3, rest.drop_first()).len() == 0);
    } else {
        lemma_run_first(s, events, i - 1);
        law_deletion_failure_stops(s2, rest, i - 1, m);
    }
}

/// The workspaces `default` and `main` are never removed: once `remove`
/// finds that the path is one of theirs, it refuses; any other workspace
/// found goes on to have its metadata loaded.
pub proof fn law_protected_workspaces(s: RemoveModel, p: Seq<char>)
    requires
        s.phase == RemovePhase::Resolving,
        s.index < s.names.len(),
        same_path(p, s.target),
    ensures
        (s.names[s.index as int] == "default"@ || s.names[s.index as int] == "main"@) ==> remove_next(
            s,
            RemoveEventOf::Resolved(p),
        ).1 == RemoveActionOf::Refuse(RemoveRefusalOf::Protected(s.names[s.index as int])),
        !(s.names[s.index as int] == "default"@ || s.names[s.index as int] == "main"@) ==> remove_next(
            s,
            RemoveEventOf::Resolved(p),
        ).1 == RemoveActionOf::LoadMeta(s.names[s.index as int]),
{
}

/// When no listed workspace resolves to the path, `remove` falls back to
/// the workspace named like the path's last component; without one, it
/// fails saying that no workspace was found for the path.
pub proof fn law_name_fallback(s: RemoveModel, p: Seq<char>)
    requires
        s.phase == RemovePhase::Resolving,
        s.index + 1 == s.names.len(),
        !same_path(p, s.target),
    ensures
        (file_name(s.target) matches Some(n) && s.names.contains(n) && !(n == "default"@ || n
            == "main"@)) ==> remove_next(s, RemoveEventOf::Resolved(p)).1 == RemoveActionOf::LoadMeta(
            file_name(s.target).unwrap(),
        ),
        !(file_name(s.target) matches Some(n) && s.names.contains(n)) ==> remove_next(
            s,
            RemoveEventOf::Resolved(p),
        ).1 == RemoveActionOf::<Seq<char>>::Fail("no workspace found for path: "@ + s.target),
{
}

/// Without `--force`, a workspace whose `jj diff --stat` shows anything but
/// white space is refused for its uncommitted changes; a blank diff, or one
/// that jj could not produce, lets the removal go on to delete.
pub proof fn law_uncommitted_changes_refused(s: RemoveModel, t: Seq<char>)
    requires
        s.phase == RemovePhase::Diffing,
    ensures
        (exists|j: int| 0 <= j < t.len() && !is_space(#[trigger] t[j])) ==> remove_next(
            s,
            RemoveEventOf::Diffed(Some(t)),
        ).1 == RemoveActionOf::Refuse(RemoveRefusalOf::Uncommitted(s.ws)),
        (forall|j: int| 0 <= j < t.len() ==> is_space(#[trigger] t[j])) ==> is_deletion(
            remove_next(s, RemoveEventOf::Diffed(Some(t))).1,
        ),
        is_deletion(remove_next(s, RemoveEventOf::Diffed(None)).1),
{
    lemma_trim_blank(t);
}

/// `--force` skips the check for uncommitted changes: once the metadata is
/// loaded, a forced removal goes straight to deleting, and any other asks
/// for the workspace's diff first.
pub proof fn law_force_skips_diff(s: RemoveModel, b: Option<Seq<char>>)
    requires
        s.phase == RemovePhase::Loading,
    ensures
        s.force ==> is_deletion(remove_next(s, RemoveEventOf::MetaLoaded(b)).1),
        !s.force ==> remove_next(s, RemoveEventOf::MetaLoaded(b)).1 == RemoveActionOf::Diff(s.ws),
{
}

/// A bookmark that cannot be deleted does not stop the removal: the
/// workspace is forgotten next all the same. A failed export does not
/// either: the removal is reported done.
pub proof fn law_tolerated_failures(s: RemoveModel, m: Seq<char>)
    ensures
        s.phase == RemovePhase::DeletingBookmark ==> remove_next(s, RemoveEventOf::Failed(m)).1
            == RemoveActionOf::Forget(s.ws),
        s.phase == RemovePhase::Exporting ==> remove_next(s, RemoveEventOf::Failed(m)).1
            == (RemoveActionOf::Removed { ws: s.ws, target: s.target }),
{
}

/// The path to remove must lie inside the repository: `remove` refuses at
/// once a path whose components do not begin with the repository's, and
/// otherwise goes on to list the workspaces.
pub proof fn law_path_must_be_inside(s: RemoveModel, force: bool, target: Seq<char>, repo_root: Seq<char>)
    ensures
        !path_starts_with(target, repo_root) ==> remove_next(
            s,
            RemoveEventOf::Begin { force, target, repo_root },
        ).1 == RemoveActionOf::Refuse(RemoveRefusalOf::NotInside { target, repo_root }),
        path_starts_with(target, repo_root) ==> remove_next(
            s,
            RemoveEventOf::Begin { force, target, repo_root },
        ).1 == RemoveActionOf::<Seq<char>>::ListWorkspaces,
{
}

/// What holds of every state that `remove` reaches from its start: once
/// begun, the target lies inside the repository; once the workspace is
/// found, it is not a protected one.
pub open spec fn remove_inv(s: RemoveModel) -> bool {
    &&& remove_wf(s)
    &&& (s.phase != RemovePhase::Start && s.phase != RemovePhase::Finished ==> path_starts_with(
        s.target,
        s.repo_root,
    ))
    &&& (remove_rank(s.phase) >= 3 && s.phase != RemovePhase::Finished ==> !is_protected(s.ws))
}

proof fn lemma_remove_inv(s: RemoveModel, e: RemoveEventOf<Seq<char>>)
    requires
        remove_inv(s),
        remove_accepts(s.phase, e),
    ensures
        remove_inv(remove_next(s, e).0),
        remove_next(s, e).1 matches RemoveActionOf::Forget(w) ==> !is_protected(w),
        remove_next(s, e).1 matches RemoveActionOf::RemoveMeta(w) ==> !is_protected(w),
        remove_next(s, e).1 matches RemoveActionOf::RemoveDir(t) ==> t == s.target
            && path_starts_with(t, s.repo_root),
{
    lemma_remove_step(s, e);
}

proof fn lemma_checked_run(s: RemoveModel, events: Seq<RemoveEventOf<Seq<char>>>, k: int)
    requires
        remove_inv(s),
        s.phase != RemovePhase::Start,
        0 <= k < remove_run(s, events).len(),
    ensures
        remove_run(s, events)[k] matches RemoveActionOf::Forget(w) ==> !is_protected(w),
        remove_run(s, events)[k] matches RemoveActionOf::RemoveMeta(w) ==> !is_protected(w),
        remove_run(s, events)[k] matches RemoveActionOf::RemoveDir(t) ==> t == s.target
            && path_starts_with(t, s.repo_root),
    decreases events.len(),
{
    lemma_remove_inv(s, events[0]);
    lemma_remove_step(s, events[0]);
    if k > 0 {
        lemma_run_first(s, events, k);
        let s2 = remove_next(s, events[0]).0;
        if s2.phase != RemovePhase::Finished {
            lemma_checked_run(s2, events.drop_first(), k - 1);
        } else {
            assert(remove_run(s2, events.drop_first()).len() == 0);
        }
    }
}

/// In any run of `remove` from its start, the workspace that is forgotten,
/// or whose metadata is removed, is never a protected one, and the directory
/// removed is the requested path, inside the repository given at the start.
pub proof fn law_deletions_are_checked(events: Seq<RemoveEventOf<Seq<char>>>, k: int)
    requires
        0 <= k < remove_run(remove_initial(), events).len(),
    ensures
        remove_run(remove_initial(), events)[k] matches RemoveActionOf::Forget(w) ==> !is_protected(w),
        remove_run(remove_initial(), events)[k] matches RemoveActionOf::RemoveMeta(w) ==> !is_protected(w),
        remove_run(remove_initial(), events)[k] matches RemoveActionOf::RemoveDir(t) ==> (
        events[0] matches RemoveEventOf::Begin { target, repo_root, .. } && t == target
            && path_starts_with(t, repo_root)),
{
    let s = remove_initial();
    lemma_remove_inv(s, events[0]);
    if k > 0 {
        lemma_run_first(s, events, k);
        let s2 = remove_next(s, events[0]).0;
        if s2.phase != RemovePhase::Finished {
            lemma_checked_run(s2, events.drop_first(), k - 1);
        } else {
            assert(remove_run(s2, events.drop_first()).len() == 0);
        }
    }
}

proof fn lemma_bookmark_run(s: RemoveModel, events: Seq<RemoveEventOf<Seq<char>>>, k: int, b: Seq<char>)
    requires
        0 <= k < remove_run(s, events).len(),
        remove_run(s, events)[k] == RemoveActionOf::DeleteBookmark(b),
    ensures
        s.bookmark == Some(b) || exists|i: int|
            0 <= i <= k && i < events.len() && #[trigger] events[i] == RemoveEventOf::MetaLoaded(Some(b)),
    decreases events.len(),
{
    lemma_run_len(s, events);
    lemma_remove_step(s, events[0]);
    if k > 0 {
        lemma_run_first(s, events, k);
        let s2 = remove_next(s, events[0]).0;
        let rest = events.drop_first();
        lemma_bookmark_run(s2, rest, k - 1, b);
        if s2.bookmark != Some(b) {
            let i = choose|i: int| 0 <= i <= k - 1 && i < rest.len() && #[trigger] rest[i] == RemoveEventOf::MetaLoaded(Some(b));
            assert(events[i + 1] == rest[i]);
        } else if !(events[0] == RemoveEventOf::MetaLoaded(Some(b))) {
            assert(s.bookmark == Some(b));
        }
    }
}

/// In any run of `remove` from its start, a bookmark is deleted only when
/// the workspace's metadata, loaded no later in the run, recorded it.
pub proof fn law_only_recorded_bookmark_deleted(
    events: Seq<RemoveEventOf<Seq<char>>>,
    k: int,
    b: Seq<char>,
)
    requires
        0 <= k < remove_run(remove_initial(), events).len(),
        remove_run(remove_initial(), events)[k] == RemoveActionOf::DeleteBookmark(b),
    ensures
        exists|i: int|
            0 <= i <= k && i < events.len() && #[trigger] events[i] == RemoveEventOf::MetaLoaded(Some(b)),
{
    lemma_bookmark_run(remove_initial(), events, k, b);
}

impl RemoveState {
    /// The state before `remove` has begun.
    pub fn new() -> (r: RemoveState)
        ensures
            r@ == remove_initial(),
    {
        let r = RemoveState {
            phase: RemovePhase::Start,
            force: false,
            target: String::new(),
            repo_root: String::new(),
            names: Vec::new(),
            index: 0,
            ws: String::new(),
            bookmark: None,
        };
        assert(strs(r.names@) =~= Seq::<Seq<char>>::empty());
        r
    }

    /// `self` in phase `p`.
    fn into_phase(self, p: RemovePhase) -> (r: RemoveState)
        ensures
            r@ == in_phase(self@, p),
    {
        RemoveState { phase: p, ..self }
    }
}

/// The text of a refusal, as `remove` reports it.
pub fn refusal_message(r: &RemoveRefusal) -> (m: String)
    ensures
        m@ == refusal_text(r@),
{
    match r {
        RemoveRefusalOf::NotInside { target, repo_root } => {
            let mut m = String::from_str("path ");
            m.append(target.as_str());
            m.append(" is not inside the jj repository at ");
            m.append(repo_root.as_str());
            m
        },
        RemoveRefusalOf::Protected(w) => {
            let mut m = String::from_str("refusing to remove the '");
            m.append(w.as_str());
            m.append("' workspace (protected workspace)");
            m
        },
        RemoveRefusalOf::Uncommitted(w) => {
            let mut m = String::from_str("workspace '");
            m.append(w.as_str());
            m.append("' has uncommitted changes. Use --force to remove anyway.");
            m
        },
    }
}

/// Whether the paths `a` and `b` have the same components.
pub fn is_same_path(a: &str, b: &str) -> (r: bool)
    ensures
        r == same_path(a@, b@),
{
    let r = has_path_prefix(a, b) && has_path_prefix(b, a);
    proof {
        let x = path_components(a@);
        let y = path_components(b@);
        assert(x.take(x.len() as int) =~= x);
        assert(y.take(y.len() as int) =~= y);
    }
    r
}

fn found(s: RemoveState, w: String) -> (r: (RemoveState, RemoveAction))
    ensures
        r.0@ == remove_found(s@, w@).0,
        r.1@ == remove_found(s@, w@).1,
{
    let s1 = RemoveState { ws: w, ..s };
    if is_protected_workspace(s1.ws.as_str()) {
        let w2 = s1.ws.clone();
        (s1.into_phase(RemovePhase::Finished), RemoveActionOf::Refuse(RemoveRefusalOf::Protected(w2)))
    } else {
        let w2 = s1.ws.clone();
        (s1.into_phase(RemovePhase::Loading), RemoveActionOf::LoadMeta(w2))
    }
}

fn try_at(s: RemoveState, i: usize) -> (r: (RemoveState, RemoveAction))
    ensures
        r.0@ == remove_try(s@, i as nat).0,
        r.1@ == remove_try(s@, i as nat).1,
        remove_wf(r.0@),
{
    if i < s.names.len() {
        let w = s.names[i].clone();
        let s1 = RemoveState { phase: RemovePhase::Resolving, index: i, ..s };
        (s1, RemoveActionOf::ResolvePath(w))
    } else {
        match workspace_for_dir(s.names.as_slice(), s.target.as_str()) {
            Some(w) => {
                let r = found(s, w);
                r
            },
            None => {
                let mut m = String::from_str("no workspace found for path: ");
                m.append(s.target.as_str());
                (s.into_phase(RemovePhase::Finished), RemoveActionOf::Fail(m))
            },
        }
    }
}

fn delete_first(s: RemoveState) -> (r: (RemoveState, RemoveAction))
    ensures
        r.0@ == remove_delete(s@).0,
        r.1@ == remove_delete(s@).1,
{
    match s.bookmark.clone() {
        Some(b) => (s.into_phase(RemovePhase::DeletingBookmark), RemoveActionOf::DeleteBookmark(b)),
        None => {
            let w = s.ws.clone();
            (s.into_phase(RemovePhase::Forgetting), RemoveActionOf::Forget(w))
        },
    }
}

fn after(s: RemoveState) -> (r: (RemoveState, RemoveAction))
    ensures
        r.0@ == remove_after(s@).0,
        r.1@ == remove_after(s@).1,
{
    match s.phase {
        RemovePhase::DeletingBookmark => {
            let w = s.ws.clone();
            (s.into_phase(RemovePhase::Forgetting), RemoveActionOf::Forget(w))
        },
        RemovePhase::Forgetting => {
            let t = s.target.clone();
            (s.into_phase(RemovePhase::RemovingDir), RemoveActionOf::RemoveDir(t))
        },
        RemovePhase::RemovingDir => {
            let w = s.ws.clone();
            (s.into_phase(RemovePhase::RemovingMeta), RemoveActionOf::RemoveMeta(w))
        },
        RemovePhase::RemovingMeta => (s.into_phase(RemovePhase::Exporting), RemoveActionOf::Export),
        _ => {
            let w = s.ws.clone();
            let t = s.target.clone();
            (s.into_phase(RemovePhase::Finished), RemoveActionOf::Removed { ws: w, target: t })
        },
    }
}

/// Whether `remove_step` may be called on `state` with `event`: the state is
/// well formed and the event answers the action that led to it.
pub fn remove_event_fits(state: &RemoveState, event: &RemoveEvent) -> (b: bool)
    ensures
        b == (remove_wf(state@) && remove_accepts(state.phase, event@)),
{
    let wf = match state.phase {
        RemovePhase::Resolving => state.index < state.names.len(),
        _ => true,
    };
    let fits = match state.phase {
        RemovePhase::Start => matches!(event, RemoveEventOf::Begin { .. }),
        RemovePhase::Listing => matches!(event, RemoveEventOf::Listed(..)) || matches!(event, RemoveEventOf::Failed(..)),
        RemovePhase::Resolving => matches!(event, RemoveEventOf::Resolved(..)) || matches!(event, RemoveEventOf::Failed(..)),
        RemovePhase::Loading => matches!(event, RemoveEventOf::MetaLoaded(..)) || matches!(event, RemoveEventOf::Failed(..)),
        RemovePhase::Diffing => matches!(event, RemoveEventOf::Diffed(..)),
        RemovePhase::Finished => false,
        _ => matches!(event, RemoveEventOf::Done) || matches!(event, RemoveEventOf::Failed(..)),
    };
    wf && fits
}

/// One step of `remove`: given what came of the last action, the next state
/// and the next action.
pub fn remove_step(state: RemoveState, event: RemoveEvent) -> (r: (RemoveState, RemoveAction))
    requires
        remove_wf(state@),
        remove_accepts(state.phase, event@),
    ensures
        remove_wf(r.0@),
        r.0@ == remove_next(state@, event@).0,
        r.1@ == remove_next(state@, event@).1,
{
    let s = state;
    match event {
        RemoveEventOf::Begin { force, target, repo_root } => {
            let inside = has_path_prefix(target.as_str(), repo_root.as_str());
            if inside {
                let s1 = RemoveState { phase: RemovePhase::Listing, force, target, repo_root, ..s };
                (s1, RemoveActionOf::ListWorkspaces)
            } else {
                let t = target.clone();
                let root = repo_root.clone();
                let s1 = RemoveState { phase: RemovePhase::Finished, force, target, repo_root, ..s };
                (s1, RemoveActionOf::Refuse(RemoveRefusalOf::NotInside { target: t, repo_root: root }))
            }
        },
        RemoveEventOf::Listed(out) => {
            let names = parse_workspace_names(out.as_str());
            let s1 = RemoveState { names, ..s };
            try_at(s1, 0)
        },
        RemoveEventOf::Resolved(p) => {
            assert(s.phase == RemovePhase::Resolving);
            assert(s.index < s.names@.len());
            if is_same_path(p.as_str(), s.target.as_str()) {
                let w = s.names[s.index].clone();
                found(s, w)
            } else {
                let n = s.names.len();
                assert(s.index < n);
                let i = s.index + 1;
                try_at(s, i)
            }
        },
        RemoveEventOf::MetaLoaded(b) => {
            let s1 = RemoveState { bookmark: b, ..s };
            if s1.force {
                delete_first(s1)
            } else {
                let w = s1.ws.clone();
                (s1.into_phase(RemovePhase::Diffing), RemoveActionOf::Diff(w))
            }
        },
        RemoveEventOf::Diffed(o) => {
            let changed = match &o {
                Some(t) => reports_changes(t.as_str()),
                None => false,
            };
            if changed {
                let w = s.ws.clone();
                (s.into_phase(RemovePhase::Finished), RemoveActionOf::Refuse(RemoveRefusalOf::Uncommitted(w)))
            } else {
                delete_first(s)
            }
        },
        RemoveEventOf::Done => after(s),
        RemoveEventOf::Failed(m) => {
            match s.phase {
                RemovePhase::DeletingBookmark | RemovePhase::Exporting => after(s),
                _ => (s.into_phase(RemovePhase::Finished), RemoveActionOf::Fail(m)),
            }
        },
    }
}

} // verus!
