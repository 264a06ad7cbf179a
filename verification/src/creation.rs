//! The `add` command as a sequence of decisions. The caller performs each
//! action (a jj call, saving the metadata) and hands back what came of it as
//! the next event; here it is decided what follows, and that a failure once
//! the workspace exists undoes it.

use vstd::prelude::*;
use vstd::string::StringExecFns;

use crate::path::{file_name, join, normalize_path, normalized, push_path};
use crate::text::{chars_of, find_char, lines, opt_str, same_as, slice_chars, split_once, strs};
use crate::worktree::{listed_remotes, parse_remote_names, translate_git_ref, translated_ref, workspace_name};

verus! {

/// Where `add` stands.
#[derive(Debug, Clone, Copy, PartialEq, Eq)]
pub enum AddPhase {
    /// Nothing done yet.
    Start,
    /// Running `jj workspace add`.
    Adding,
    /// Running `jj bookmark set`.
    SettingBookmark,
    /// Running `jj git remote list`.
    ListingRemotes,
    /// Running `jj new` in the new workspace.
    Moving,
    /// Saving the workspace's metadata.
    Saving,
    /// Running `jj git export`.
    Exporting,
    /// Undoing the new workspace after a failure.
    RollingBack,
    /// Done, successfully or not.
    Finished,
}

/// What `add` has learned so far.
#[verifier::ext_equal]
pub struct AddModel {
    pub phase: AddPhase,
    /// The path as given.
    pub path: Seq<char>,
    /// The workspace's name.
    pub ws: Seq<char>,
    /// The workspace's absolute path.
    pub abs: Seq<char>,
    /// The bookmark to create (`-b`).
    pub branch: Option<Seq<char>>,
    /// The revision to start from.
    pub commit_ish: Option<Seq<char>>,
    /// The failure that is being undone.
    pub error: Option<Seq<char>>,
}

/// What `add` has learned so far.
pub struct AddState {
    pub phase: AddPhase,
    pub path: String,
    pub ws: String,
    pub abs: String,
    pub branch: Option<String>,
    pub commit_ish: Option<String>,
    pub error: Option<String>,
}

impl View for AddState {
    type V = AddModel;

    open spec fn view(&self) -> AddModel {
        AddModel {
            phase: self.phase,
            path: self.path@,
            ws: self.ws@,
            abs: self.abs@,
            branch: opt_str(self.branch),
            commit_ish: opt_str(self.commit_ish),
            error: opt_str(self.error),
        }
    }
}

/// What came of the last action (or, first, what to add).
#[derive(Debug)]
pub enum AddEventOf<S> {
    /// Add a workspace at `path` (as given, relative to `cwd`), with the
    /// bookmark `branch` and starting from `commit_ish`, when given.
    Begin { path: S, branch: Option<S>, commit_ish: Option<S>, cwd: S },
    /// The output of `jj git remote list`, or `None` when jj failed.
    Remotes(Option<S>),
    /// The action succeeded.
    Done,
    /// The action failed, with this message.
    Failed(S),
}

/// What came of the last action.
pub type AddEvent = AddEventOf<String>;

impl View for AddEventOf<String> {
    type V = AddEventOf<Seq<char>>;

    open spec fn view(&self) -> AddEventOf<Seq<char>> {
        match self {
            AddEventOf::Begin { path, branch, commit_ish, cwd } => AddEventOf::Begin {
                path: path@,
                branch: opt_str(*branch),
                commit_ish: opt_str(*commit_ish),
                cwd: cwd@,
            },
            AddEventOf::Remotes(o) => AddEventOf::Remotes(opt_str(*o)),
            AddEventOf::Done => AddEventOf::Done,
            AddEventOf::Failed(m) => AddEventOf::Failed(m@),
        }
    }
}

/// The next thing for the caller to do.
#[derive(Debug)]
pub enum AddActionOf<S> {
    /// Run `jj workspace add` with this path.
    AddWorkspace(S),
    /// Run `jj bookmark set <name> -r <revision>`.
    SetBookmark { name: S, revision: S },
    /// Run `jj git remote list`.
    ListRemotes,
    /// Run `jj new <revision>` in the workspace at `at`.
    NewCommit { at: S, revision: S },
    /// Save the metadata of workspace `ws`: its bookmark and its path.
    SaveMeta { ws: S, bookmark: Option<S>, path: S },
    /// Run `jj git export` (a failure is ignored).
    Export,
    /// Undo the new workspace: forget `ws` and remove the directory `path`
    /// (failures are ignored).
    Rollback { ws: S, path: S },
    /// Stop: `add` failed with this message.
    Fail(S),
    /// Stop: the workspace `ws` was created at `path`.
    Created { ws: S, path: S },
}

/// The next thing for the caller to do.
pub type AddAction = AddActionOf<String>;

impl View for AddActionOf<String> {
    type V = AddActionOf<Seq<char>>;

    open spec fn view(&self) -> AddActionOf<Seq<char>> {
        match self {
            AddActionOf::AddWorkspace(p) => AddActionOf::AddWorkspace(p@),
            AddActionOf::SetBookmark { name, revision } => AddActionOf::SetBookmark {
                name: name@,
                revision: revision@,
            },
            AddActionOf::ListRemotes => AddActionOf::ListRemotes,
            AddActionOf::NewCommit { at, revision } => AddActionOf::NewCommit {
                at: at@,
                revision: revision@,
            },
            AddActionOf::SaveMeta { ws, bookmark, path } => AddActionOf::SaveMeta {
                ws: ws@,
                bookmark: opt_str(*bookmark),
                path: path@,
            },
            AddActionOf::Export => AddActionOf::Export,
            AddActionOf::Rollback { ws, path } => AddActionOf::Rollback { ws: ws@, path: path@ },
            AddActionOf::Fail(m) => AddActionOf::Fail(m@),
            AddActionOf::Created { ws, path } => AddActionOf::Created { ws: ws@, path: path@ },
        }
    }
}

/// Whether the jj form of the git revision `r` depends on which remotes
/// exist: it has the form `<remote>/<branch>`, `<branch>` other than `HEAD`.
pub open spec fn needs_remotes(r: Seq<char>) -> bool {
    r != "HEAD"@ && (split_once(r, '/') matches Some((_remote, branch)) && branch != "HEAD"@)
}

/// The state before `add` has begun.
pub open spec fn add_initial() -> AddModel {
    AddModel {
        phase: AddPhase::Start,
        path: Seq::empty(),
        ws: Seq::empty(),
        abs: Seq::empty(),
        branch: None,
        commit_ish: None,
        error: None,
    }
}

/// The invariant of the state: the remotes are listed only for a revision
/// to start from, and a rollback always has the failure it undoes.
pub open spec fn add_wf(s: AddModel) -> bool {
    &&& (s.phase == AddPhase::ListingRemotes ==> s.commit_ish is Some)
    &&& (s.phase == AddPhase::RollingBack ==> s.error is Some)
}

/// Which events may follow in each phase.
pub open spec fn add_accepts(p: AddPhase, e: AddEventOf<Seq<char>>) -> bool {
    match p {
        AddPhase::Start => e is Begin,
        AddPhase::ListingRemotes => e is Remotes,
        AddPhase::Finished => false,
        _ => e is Done || e is Failed,
    }
}

/// `s` in phase `p`.
pub open spec fn add_in_phase(s: AddModel, p: AddPhase) -> AddModel {
    AddModel {
        phase: p,
        path: s.path,
        ws: s.ws,
        abs: s.abs,
        branch: s.branch,
        commit_ish: s.commit_ish,
        error: s.error,
    }
}

/// Save the metadata.
pub open spec fn add_save(s: AddModel) -> (AddModel, AddActionOf<Seq<char>>) {
    (
        add_in_phase(s, AddPhase::Saving),
        AddActionOf::SaveMeta { ws: s.ws, bookmark: s.branch, path: s.abs },
    )
}

/// Move the new workspace to the revision asked for, if any, else save the
/// metadata; the remotes are listed first where the revision needs them.
pub open spec fn add_commit(s: AddModel) -> (AddModel, AddActionOf<Seq<char>>) {
    match s.commit_ish {
        None => add_save(s),
        Some(c) => if needs_remotes(c) {
            (add_in_phase(s, AddPhase::ListingRemotes), AddActionOf::ListRemotes)
        } else {
            (
                add_in_phase(s, AddPhase::Moving),
                AddActionOf::NewCommit { at: s.abs, revision: translated_ref(c, Seq::empty()) },
            )
        },
    }
}

/// Set the bookmark asked for, if any, on the new workspace's commit.
pub open spec fn add_bookmark(s: AddModel) -> (AddModel, AddActionOf<Seq<char>>) {
    match s.branch {
        Some(b) => (
            add_in_phase(s, AddPhase::SettingBookmark),
            AddActionOf::SetBookmark { name: b, revision: s.ws + "@"@ },
        ),
        None => add_commit(s),
    }
}

/// Undo the new workspace, keeping the failure `m` to report after.
pub open spec fn add_rollback(s: AddModel, m: Seq<char>) -> (AddModel, AddActionOf<Seq<char>>) {
    let s1 = AddModel {
        phase: AddPhase::RollingBack,
        path: s.path,
        ws: s.ws,
        abs: s.abs,
        branch: s.branch,
        commit_ish: s.commit_ish,
        error: Some(m),
    };
    (s1, AddActionOf::Rollback { ws: s.ws, path: s.abs })
}

/// The step that follows a successful action.
pub open spec fn add_after(s: AddModel) -> (AddModel, AddActionOf<Seq<char>>) {
    match s.phase {
        AddPhase::Adding => add_bookmark(s),
        AddPhase::SettingBookmark => add_commit(s),
        AddPhase::Moving => add_save(s),
        AddPhase::Saving => (add_in_phase(s, AddPhase::Exporting), AddActionOf::Export),
        AddPhase::RollingBack => (
            add_in_phase(s, AddPhase::Finished),
            AddActionOf::Fail(s.error.unwrap()),
        ),
        _ => (add_in_phase(s, AddPhase::Finished), AddActionOf::Created { ws: s.ws, path: s.abs }),
    }
}

/// The step of `add`: from the state and the event, the next state and the
/// action to perform.
pub open spec fn add_next(s: AddModel, e: AddEventOf<Seq<char>>) -> (AddModel, AddActionOf<Seq<char>>) {
    match e {
        AddEventOf::Begin { path, branch, commit_ish, cwd } => {
            let abs = normalized(push_path(cwd, path));
            match file_name(path) {
                Some(w) => {
                    let s1 = AddModel {
                        phase: AddPhase::Adding,
                        path,
                        ws: w,
                        abs,
                        branch,
                        commit_ish,
                        error: s.error,
                    };
                    (s1, AddActionOf::AddWorkspace(path))
                },
                None => (
                    add_in_phase(s, AddPhase::Finished),
                    AddActionOf::Fail("invalid path: cannot determine workspace name"@),
                ),
            }
        },
        AddEventOf::Remotes(o) => {
            let remotes = match o {
                Some(out) => listed_remotes(lines(out)),
                None => Seq::empty(),
            };
            (
                add_in_phase(s, AddPhase::Moving),
                AddActionOf::NewCommit {
                    at: s.abs,
                    revision: translated_ref(s.commit_ish.unwrap(), remotes),
                },
            )
        },
        AddEventOf::Done => add_after(s),
        AddEventOf::Failed(m) => match s.phase {
            AddPhase::SettingBookmark | AddPhase::Moving | AddPhase::Saving => add_rollback(s, m),
            AddPhase::Adding => (add_in_phase(s, AddPhase::Finished), AddActionOf::Fail(m)),
            _ => add_after(s),
        },
    }
}

/// The actions of `add` from state `s` for the events `events`, as long as
/// each event is one that the state accepts.
pub open spec fn add_run(s: AddModel, events: Seq<AddEventOf<Seq<char>>>) -> Seq<AddActionOf<Seq<char>>>
    decreases events.len(),
{
    if events.len() == 0 || !add_wf(s) || !add_accepts(s.phase, events[0]) {
        Seq::empty()
    } else {
        seq![add_next(s, events[0]).1] + add_run(add_next(s, events[0]).0, events.drop_first())
    }
}

/// With `-b <b>`, a successful `jj workspace add` is always followed by
/// setting the bookmark `b` on the new workspace's commit (`<ws>@`), whether
/// or not a commit-ish was given.
pub proof fn law_branch_set_after_add(
    path: Seq<char>,
    b: Seq<char>,
    c: Option<Seq<char>>,
    cwd: Seq<char>,
    w: Seq<char>,
)
    requires
        file_name(path) == Some(w),
    ensures
        add_run(
            add_initial(),
            seq![
                AddEventOf::Begin { path, branch: Some(b), commit_ish: c, cwd },
                AddEventOf::Done,
            ],
        ) == seq![
            AddActionOf::AddWorkspace(path),
            AddActionOf::SetBookmark { name: b, revision: w + "@"@ },
        ],
{
    let events = seq![
        AddEventOf::Begin { path, branch: Some(b), commit_ish: c, cwd },
        AddEventOf::<Seq<char>>::Done,
    ];
    let s1 = add_next(add_initial(), events[0]).0;
    let rest = events.drop_first();
    assert(rest =~= seq![AddEventOf::<Seq<char>>::Done]);
    let s2 = add_next(s1, rest[0]).0;
    assert(rest.drop_first() =~= Seq::<AddEventOf<Seq<char>>>::empty());
    assert(add_run(s2, rest.drop_first()) =~= Seq::<AddActionOf<Seq<char>>>::empty());
    assert(add_run(s1, rest) =~= seq![add_next(s1, rest[0]).1]);
}

/// Where the new workspace starts: with no commit-ish it keeps the commit
/// that `jj workspace add` gave it and its metadata is saved next (with the
/// bookmark asked for and its absolute path); `HEAD` is jj's `@`;
/// `<remote>/HEAD` is `trunk()`; a name without `/` is used as written; and
/// for `<remote>/<branch>` the remotes are listed first.
pub proof fn law_commit_ish_start(s: AddModel, r: Seq<char>, b: Seq<char>, n: Seq<char>)
    requires
        s.phase == AddPhase::SettingBookmark,
        !r.contains('/'),
        b != "HEAD"@,
        !n.contains('/'),
        n != "HEAD"@,
    ensures
        s.commit_ish is None ==> add_next(s, AddEventOf::Done).1 == (AddActionOf::SaveMeta {
            ws: s.ws,
            bookmark: s.branch,
            path: s.abs,
        }),
        s.commit_ish == Some("HEAD"@) ==> add_next(s, AddEventOf::Done).1 == (AddActionOf::NewCommit {
            at: s.abs,
            revision: "@"@,
        }),
        s.commit_ish == Some(n) ==> add_next(s, AddEventOf::Done).1 == (AddActionOf::NewCommit {
            at: s.abs,
            revision: n,
        }),
        s.commit_ish == Some(r + "/"@ + "HEAD"@) ==> add_next(s, AddEventOf::Done).1 == (
        AddActionOf::NewCommit { at: s.abs, revision: "trunk()"@ }),
        s.commit_ish == Some(r + "/"@ + b) ==> add_next(s, AddEventOf::Done).1
            == AddActionOf::<Seq<char>>::ListRemotes,
{
    reveal_strlit("HEAD");
    reveal_strlit("/");
    crate::worktree::law_git_refs_in_jj_notation(r, b, n, Seq::empty());
    crate::worktree::lemma_split_at_slash(r, b);
    crate::worktree::lemma_split_at_slash(r, "HEAD"@);
    assert(!"HEAD"@.contains('/')) by {
        if "HEAD"@.contains('/') {
            let j = choose|j: int| 0 <= j < "HEAD"@.len() && "HEAD"@[j] == '/';
        }
    }
    assert forall|j: int| 0 <= j < "HEAD"@.len() implies "HEAD"@[j] != '/' by {}
    crate::text::lemma_first_index("HEAD"@, '/', 4);
    assert forall|j: int| 0 <= j < n.len() implies n[j] != '/' by {
        if n[j] == '/' {
            assert(n.contains('/'));
        }
    }
    crate::text::lemma_first_index(n, '/', n.len() as int);
}

/// The jj revision that a `<remote>/<branch>` commit-ish stands for, once
/// the remotes are listed: `<branch>@<remote>` when `<remote>` is one of
/// them, the commit-ish as written when it is not or when jj could not list
/// them.
pub proof fn law_remote_ref_after_listing(s: AddModel, r: Seq<char>, b: Seq<char>, out: Seq<char>)
    requires
        s.phase == AddPhase::ListingRemotes,
        s.commit_ish == Some(r + "/"@ + b),
        !r.contains('/'),
        b != "HEAD"@,
    ensures
        listed_remotes(lines(out)).contains(r) ==> add_next(s, AddEventOf::Remotes(Some(out))).1 == (
        AddActionOf::NewCommit { at: s.abs, revision: b + "@"@ + r }),
        !listed_remotes(lines(out)).contains(r) ==> add_next(s, AddEventOf::Remotes(Some(out))).1
            == (AddActionOf::NewCommit { at: s.abs, revision: r + "/"@ + b }),
        add_next(s, AddEventOf::Remotes(None)).1 == (AddActionOf::NewCommit {
            at: s.abs,
            revision: r + "/"@ + b,
        }),
{
    crate::worktree::law_git_refs_in_jj_notation(r, b, r, listed_remotes(lines(out)));
    crate::worktree::law_git_refs_in_jj_notation(r, b, r, Seq::empty());
}

/// Before the workspace exists nothing is undone: a failed
/// `jj workspace add` ends `add` with its failure. Once the new workspace
/// has moved to its commit, its metadata (bookmark and absolute path) is
/// saved; once that is saved, the export follows, and a failed export is
/// ignored: the workspace is reported created.
pub proof fn law_add_failure_edges(s: AddModel, m: Seq<char>)
    ensures
        s.phase == AddPhase::Adding ==> add_next(s, AddEventOf::Failed(m)).1 == AddActionOf::<
            Seq<char>,
        >::Fail(m) && add_next(s, AddEventOf::Failed(m)).0.phase == AddPhase::Finished,
        s.phase == AddPhase::Exporting ==> add_next(s, AddEventOf::Failed(m)).1 == (
        AddActionOf::Created { ws: s.ws, path: s.abs }),
        s.phase == AddPhase::Saving ==> add_next(s, AddEventOf::Done).1
            == AddActionOf::<Seq<char>>::Export,
        s.phase == AddPhase::Moving ==> add_next(s, AddEventOf::Done).1 == (AddActionOf::SaveMeta {
            ws: s.ws,
            bookmark: s.branch,
            path: s.abs,
        }),
{
}

/// `add` begins by adding the workspace at the path as given, named after
/// the path's last component and placed at that path made absolute against
/// the current directory and normalized; a path with no last name is
/// refused.
pub proof fn law_add_begins(path: Seq<char>, branch: Option<Seq<char>>, c: Option<Seq<char>>, cwd: Seq<char>)
    ensures
        file_name(path) is None ==> add_next(
            add_initial(),
            AddEventOf::Begin { path, branch, commit_ish: c, cwd },
        ).1 == AddActionOf::<Seq<char>>::Fail("invalid path: cannot determine workspace name"@),
        file_name(path) matches Some(w) ==> add_next(
            add_initial(),
            AddEventOf::Begin { path, branch, commit_ish: c, cwd },
        ).1 == AddActionOf::AddWorkspace(path) && add_next(
            add_initial(),
            AddEventOf::Begin { path, branch, commit_ish: c, cwd },
        ).0.ws == w && add_next(
            add_initial(),
            AddEventOf::Begin { path, branch, commit_ish: c, cwd },
        ).0.abs == normalized(push_path(cwd, path)),
{
}

/// A git revision that is not of the form `<remote>/<branch>` has the same
/// jj form whatever the remotes are.
pub proof fn law_remotes_matter_only_for_remote_refs(r: Seq<char>, remotes: Seq<Seq<char>>)
    requires
        !needs_remotes(r),
    ensures
        translated_ref(r, remotes) == translated_ref(r, Seq::empty()),
{
}

/// Once the workspace exists, a failure of any later step undoes it: the
/// action is to forget the workspace and remove its directory, and what
/// follows is the failure itself.
pub proof fn law_failure_after_add_rolls_back(s: AddModel, m: Seq<char>, e: AddEventOf<Seq<char>>)
    requires
        s.phase == AddPhase::SettingBookmark || s.phase == AddPhase::Moving || s.phase
            == AddPhase::Saving,
        add_accepts(add_next(s, AddEventOf::Failed(m)).0.phase, e),
    ensures
        add_next(s, AddEventOf::Failed(m)).1 == (AddActionOf::Rollback { ws: s.ws, path: s.abs }),
        add_next(add_next(s, AddEventOf::Failed(m)).0, e).1 == (AddActionOf::<Seq<char>>::Fail(m)),
        add_next(add_next(s, AddEventOf::Failed(m)).0, e).0.phase == AddPhase::Finished,
{
}

proof fn lemma_add_run_first(s: AddModel, events: Seq<AddEventOf<Seq<char>>>, k: int)
    requires
        0 < k < add_run(s, events).len(),
    ensures
        add_run(s, events)[k] == add_run(add_next(s, events[0]).0, events.drop_first())[k - 1],
        add_run(add_next(s, events[0]).0, events.drop_first()).len() == add_run(s, events).len() - 1,
{
}

proof fn lemma_add_step(s: AddModel, e: AddEventOf<Seq<char>>)
    requires
        add_wf(s),
        add_accepts(s.phase, e),
    ensures
        add_wf(add_next(s, e).0),
        add_next(s, e).1 is Rollback ==> add_next(s, e).0.phase == AddPhase::RollingBack,
        s.phase == AddPhase::RollingBack ==> add_next(s, e).1 is Fail && add_next(s, e).0.phase
            == AddPhase::Finished,
        add_next(s, e).1 is Fail || add_next(s, e).1 is Created ==> add_next(s, e).0.phase
            == AddPhase::Finished,
{
}

/// After a stop, a run of `add` is over: nothing follows the failure or the
/// success.
proof fn lemma_finished_run(s: AddModel, events: Seq<AddEventOf<Seq<char>>>)
    requires
        s.phase == AddPhase::Finished,
    ensures
        add_run(s, events).len() == 0,
{
}

/// Success never follows a failure: in any run of `add`, after a rollback
/// or a failure, no action reports the workspace as created.
pub proof fn law_no_success_after_failure(
    s: AddModel,
    events: Seq<AddEventOf<Seq<char>>>,
    i: int,
    j: int,
)
    requires
        0 <= i < j < add_run(s, events).len(),
        add_run(s, events)[i] is Rollback || add_run(s, events)[i] is Fail,
    ensures
        !(add_run(s, events)[j] is Created),
    decreases events.len(),
{
    lemma_add_step(s, events[0]);
    lemma_add_run_first(s, events, j);
    let s2 = add_next(s, events[0]).0;
    let rest = events.drop_first();
    if i == 0 {
        if add_next(s, events[0]).1 is Fail {
            lemma_finished_run(s2, rest);
        } else {
            lemma_add_step(s2, rest[0]);
            if j - 1 > 0 {
                lemma_add_run_first(s2, rest, j - 1);
                lemma_finished_run(add_next(s2, rest[0]).0, rest.drop_first());
            }
        }
    } else {
        lemma_add_run_first(s, events, i);
        law_no_success_after_failure(s2, rest, i - 1, j - 1);
    }
}

/// Whether the jj form of the git revision `r` depends on the remotes.
pub fn needs_remote_list(r: &str) -> (b: bool)
    ensures
        b == needs_remotes(r@),
{
    let v = chars_of(r);
    if same_as(&v, "HEAD") {
        return false;
    }
    let k = find_char(&v, '/');
    if k >= v.len() {
        return false;
    }
    let branch = slice_chars(&v, k + 1, v.len());
    assert(branch@ =~= v@.skip(k + 1));
    !same_as(&branch, "HEAD")
}

impl AddState {
    /// The state before `add` has begun.
    pub fn new() -> (r: AddState)
        ensures
            r@ == add_initial(),
    {
        AddState {
            phase: AddPhase::Start,
            path: String::new(),
            ws: String::new(),
            abs: String::new(),
            branch: None,
            commit_ish: None,
            error: None,
        }
    }

    fn into_phase(self, p: AddPhase) -> (r: AddState)
        ensures
            r@ == add_in_phase(self@, p),
    {
        AddState { phase: p, ..self }
    }
}

fn save(s: AddState) -> (r: (AddState, AddAction))
    ensures
        r.0@ == add_save(s@).0,
        r.1@ == add_save(s@).1,
{
    let w = s.ws.clone();
    let b = s.branch.clone();
    let p = s.abs.clone();
    (s.into_phase(AddPhase::Saving), AddActionOf::SaveMeta { ws: w, bookmark: b, path: p })
}

fn move_or_save(s: AddState) -> (r: (AddState, AddAction))
    ensures
        r.0@ == add_commit(s@).0,
        r.1@ == add_commit(s@).1,
{
    match s.commit_ish.clone() {
        None => save(s),
        Some(c) => {
            if needs_remote_list(c.as_str()) {
                (s.into_phase(AddPhase::ListingRemotes), AddActionOf::ListRemotes)
            } else {
                let none: Vec<String> = Vec::new();
                assert(strs(none@) =~= Seq::<Seq<char>>::empty());
                let rev = translate_git_ref(c.as_str(), none.as_slice());
                let at = s.abs.clone();
                (s.into_phase(AddPhase::Moving), AddActionOf::NewCommit { at, revision: rev })
            }
        },
    }
}

fn bookmark_or_move(s: AddState) -> (r: (AddState, AddAction))
    ensures
        r.0@ == add_bookmark(s@).0,
        r.1@ == add_bookmark(s@).1,
{
    match s.branch.clone() {
        Some(b) => {
            let mut rev = s.ws.clone();
            rev.append("@");
            (s.into_phase(AddPhase::SettingBookmark), AddActionOf::SetBookmark { name: b, revision: rev })
        },
        None => move_or_save(s),
    }
}

fn after(s: AddState) -> (r: (AddState, AddAction))
    requires
        add_wf(s@),
    ensures
        r.0@ == add_after(s@).0,
        r.1@ == add_after(s@).1,
{
    match s.phase {
        AddPhase::Adding => bookmark_or_move(s),
        AddPhase::SettingBookmark => move_or_save(s),
        AddPhase::Moving => save(s),
        AddPhase::Saving => (s.into_phase(AddPhase::Exporting), AddActionOf::Export),
        AddPhase::RollingBack => {
            let m = match s.error.clone() {
                Some(m) => m,
                None => String::new(),
            };
            (s.into_phase(AddPhase::Finished), AddActionOf::Fail(m))
        },
        _ => {
            let w = s.ws.clone();
            let p = s.abs.clone();
            (s.into_phase(AddPhase::Finished), AddActionOf::Created { ws: w, path: p })
        },
    }
}

/// Whether `add_step` may be called on `state` with `event`: the state is
/// well formed and the event answers the action that led to it.
pub fn add_event_fits(state: &AddState, event: &AddEvent) -> (b: bool)
    ensures
        b == (add_wf(state@) && add_accepts(state.phase, event@)),
{
    let wf = match state.phase {
        AddPhase::ListingRemotes => state.commit_ish.is_some(),
        AddPhase::RollingBack => state.error.is_some(),
        _ => true,
    };
    let fits = match state.phase {
        AddPhase::Start => matches!(event, AddEventOf::Begin { .. }),
        AddPhase::ListingRemotes => matches!(event, AddEventOf::Remotes(..)),
        AddPhase::Finished => false,
        _ => matches!(event, AddEventOf::Done) || matches!(event, AddEventOf::Failed(..)),
    };
    wf && fits
}

/// One step of `add`: given what came of the last action, the next state
/// and the next action.
pub fn add_step(state: AddState, event: AddEvent) -> (r: (AddState, AddAction))
    requires
        add_wf(state@),
        add_accepts(state.phase, event@),
    ensures
        add_wf(r.0@),
        r.0@ == add_next(state@, event@).0,
        r.1@ == add_next(state@, event@).1,
{
    let s = state;
    match event {
        AddEventOf::Begin { path, branch, commit_ish, cwd } => {
            let abs = normalize_path(join(cwd.as_str(), path.as_str()).as_str());
            match workspace_name(path.as_str()) {
                Some(w) => {
                    let p = path.clone();
                    let s1 = AddState { phase: AddPhase::Adding, path, ws: w, abs, branch, commit_ish, ..s };
                    (s1, AddActionOf::AddWorkspace(p))
                },
                None => (
                    s.into_phase(AddPhase::Finished),
                    AddActionOf::Fail(String::from_str("invalid path: cannot determine workspace name")),
                ),
            }
        },
        AddEventOf::Remotes(o) => {
            let remotes = match &o {
                Some(out) => parse_remote_names(out.as_str()),
                None => {
                    let v: Vec<String> = Vec::new();
                    assert(strs(v@) =~= Seq::<Seq<char>>::empty());
                    v
                },
            };
            let c = match s.commit_ish.clone() {
                Some(c) => c,
                None => String::new(),
            };
            let rev = translate_git_ref(c.as_str(), remotes.as_slice());
            let at = s.abs.clone();
            (s.into_phase(AddPhase::Moving), AddActionOf::NewCommit { at, revision: rev })
        },
        AddEventOf::Done => after(s),
        AddEventOf::Failed(m) => match s.phase {
            AddPhase::SettingBookmark | AddPhase::Moving | AddPhase::Saving => {
                let w = s.ws.clone();
                let p = s.abs.clone();
                let s1 = AddState { phase: AddPhase::RollingBack, error: Some(m), ..s };
                (s1, AddActionOf::Rollback { ws: w, path: p })
            },
            AddPhase::Adding => (s.into_phase(AddPhase::Finished), AddActionOf::Fail(m)),
            _ => after(s),
        },
    }
}

} // verus!
