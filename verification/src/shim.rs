//! The decisions of the `git` shim: where the subcommand stands among git's
//! global options, which calls are taken over, and how `jj` answers are
//! rewritten in git's formats.

use vstd::prelude::*;

use crate::text::{
    is_space, lemma_filter_cons, trim_end, trim_start, chars_of, find_char, has_prefix, lines, lines_of, opt_str, same_as, slice_chars, split_once,
    starts_with, string_of, strs, tail_from, trim, trimmed, views,
};
use vstd::string::StringExecFns;

verus! {

/// Result of parsing git global options from the argument list.
#[derive(Debug, PartialEq)]
pub struct ParsedGitArgs {
    /// Path specified by `-C <path>` (last one wins, matching git behavior).
    pub work_dir: Option<String>,
    /// Index of the first non-option argument (the subcommand), if any.
    pub subcmd_index: Option<usize>,
}

/// Global options of git that stand alone.
pub open spec fn is_standalone_global_flag(a: Seq<char>) -> bool {
    a == "--no-pager"@ || a == "--no-replace-objects"@ || a == "--bare"@
        || a == "--literal-pathspecs"@ || a == "--glob-pathspecs"@
        || a == "--noglob-pathspecs"@ || a == "--icase-pathspecs"@
}

/// Global options of git that carry their value after `=` in the same argument.
pub open spec fn is_joined_global_option(a: Seq<char>) -> bool {
    starts_with(a, "--git-dir="@) || starts_with(a, "--work-tree="@)
}

/// Global options of git that take the next argument as their value
/// (`-C` aside, whose value is kept).
pub open spec fn is_spaced_global_option(a: Seq<char>) -> bool {
    a == "-c"@ || a == "--git-dir"@ || a == "--work-tree"@
}

/// Whether `a` is one of the global options that the shim skips.
pub open spec fn is_global_option(a: Seq<char>) -> bool {
    a == "-C"@ || is_spaced_global_option(a) || is_joined_global_option(a)
        || is_standalone_global_flag(a)
}

/// Scanning `args` from position `i` with `work_dir` seen so far: the
/// directory of the last `-C` and the position of the first argument that is
/// not a global option.
pub open spec fn scan_global_opts(args: Seq<Seq<char>>, i: int, work_dir: Option<Seq<char>>) -> (
    Option<Seq<char>>,
    Option<int>,
)
    decreases args.len() - i,
{
    if i < 0 || i >= args.len() {
        (work_dir, None)
    } else {
        let a = args[i];
        let skip_two = if i + 2 <= args.len() { i + 2 } else { args.len() as int };
        if a == "-C"@ {
            if i + 1 < args.len() {
                scan_global_opts(args, i + 2, Some(args[i + 1]))
            } else {
                (work_dir, None)
            }
        } else if is_spaced_global_option(a) {
            scan_global_opts(args, skip_two, work_dir)
        } else if is_joined_global_option(a) || is_standalone_global_flag(a) {
            scan_global_opts(args, i + 1, work_dir)
        } else {
            (work_dir, Some(i))
        }
    }
}

/// What `parse_git_global_opts` gives for `args`.
pub open spec fn global_opts(args: Seq<Seq<char>>) -> (Option<Seq<char>>, Option<int>) {
    scan_global_opts(args, 0, None)
}

impl ParsedGitArgs {
    pub open spec fn view_pair(&self) -> (Option<Seq<char>>, Option<int>) {
        (
            opt_str(self.work_dir),
            match self.subcmd_index {
                Some(k) => Some(k as int),
                None => None,
            },
        )
    }
}

/// Parse git global options from the argument list and locate the subcommand.
///
/// Skipped: `-C <path>` (kept, last one wins), `-c <key=val>`,
/// `--git-dir=<path>`, `--git-dir <path>`, `--work-tree=<path>`,
/// `--work-tree <path>`, `--no-pager`, `--no-replace-objects`, `--bare`,
/// `--literal-pathspecs`, `--glob-pathspecs`, `--noglob-pathspecs`,
/// `--icase-pathspecs`.
pub fn parse_git_global_opts(args: &[String]) -> (r: ParsedGitArgs)
    ensures
        r.view_pair() == global_opts(strs(args@)),
{
    let ghost argv = strs(args@);
    let mut work_dir: Option<String> = None;
    let mut i: usize = 0;
    while i < args.len()
        invariant
            argv == strs(args@),
            i <= args@.len(),
            scan_global_opts(argv, i as int, opt_str(work_dir)) == global_opts(argv),
        decreases args@.len() - i,
    {
        let a = chars_of(args[i].as_str());
        assert(a@ == argv[i as int]);
        if same_as(&a, "-C") {
            if i + 1 < args.len() {
                work_dir = Some(args[i + 1].clone());
                i = i + 2;
            } else {
                return ParsedGitArgs { work_dir, subcmd_index: None };
            }
        } else if same_as(&a, "-c") || same_as(&a, "--git-dir") || same_as(&a, "--work-tree") {
            if i + 1 < args.len() {
                i = i + 2;
            } else {
                i = args.len();
            }
        } else if has_prefix(&a, "--git-dir=") || has_prefix(&a, "--work-tree=") || same_as(&a, "--no-pager")
            || same_as(&a, "--no-replace-objects") || same_as(&a, "--bare")
            || same_as(&a, "--literal-pathspecs") || same_as(&a, "--glob-pathspecs")
            || same_as(&a, "--noglob-pathspecs") || same_as(&a, "--icase-pathspecs") {
            i = i + 1;
        } else {
            return ParsedGitArgs { work_dir, subcmd_index: Some(i) };
        }
    }
    ParsedGitArgs { work_dir, subcmd_index: None }
}


/// Scanning stops at the same place when more arguments follow: once a
/// subcommand is found, what comes after it does not change the result.
pub proof fn lemma_scan_extend(args: Seq<Seq<char>>, extra: Seq<Seq<char>>, i: int, work_dir: Option<Seq<char>>)
    requires
        0 <= i,
        scan_global_opts(args, i, work_dir).1 is Some,
    ensures
        scan_global_opts(args + extra, i, work_dir) == scan_global_opts(args, i, work_dir),
    decreases args.len() - i,
{
    let all = args + extra;
    if i < args.len() {
        assert(all[i] == args[i]);
        if i + 1 < args.len() {
            assert(all[i + 1] == args[i + 1]);
        }
        let a = args[i];
        if a == "-C"@ {
            lemma_scan_extend(args, extra, i + 2, Some(args[i + 1]));
        } else if is_spaced_global_option(a) {
            if i + 2 <= args.len() {
                lemma_scan_extend(args, extra, i + 2, work_dir);
            }
        } else if is_joined_global_option(a) || is_standalone_global_flag(a) {
            lemma_scan_extend(args, extra, i + 1, work_dir);
        }
    }
}

/// A subcommand found at position `k` is a real argument that is not a
/// global option, and it lies at or after the place where scanning began.
pub proof fn lemma_scan_subcommand(args: Seq<Seq<char>>, i: int, work_dir: Option<Seq<char>>)
    requires
        0 <= i,
    ensures
        scan_global_opts(args, i, work_dir).1 matches Some(k) ==> i <= k < args.len()
            && !is_global_option(args[k]),
    decreases args.len() - i,
{
    if i < args.len() {
        let a = args[i];
        let skip_two = if i + 2 <= args.len() { i + 2 } else { args.len() as int };
        if a == "-C"@ {
            if i + 1 < args.len() {
                lemma_scan_subcommand(args, i + 2, Some(args[i + 1]));
            }
        } else if is_spaced_global_option(a) {
            lemma_scan_subcommand(args, skip_two, work_dir);
        } else if is_joined_global_option(a) || is_standalone_global_flag(a) {
            lemma_scan_subcommand(args, i + 1, work_dir);
        }
    }
}

/// Arguments that follow the subcommand never change where git's global
/// options end nor which `-C` directory applies.
pub proof fn law_global_opts_ignore_trailing_args(args: Seq<Seq<char>>, extra: Seq<Seq<char>>)
    requires
        global_opts(args).1 is Some,
    ensures
        global_opts(args + extra) == global_opts(args),
{
    lemma_scan_extend(args, extra, 0, None);
}

/// The subcommand that the parser finds is an argument of the list and is
/// not itself one of the skipped global options.
pub proof fn law_subcommand_is_not_global_option(args: Seq<Seq<char>>)
    ensures
        global_opts(args).1 matches Some(k) ==> 0 <= k < args.len() && !is_global_option(args[k]),
{
    lemma_scan_subcommand(args, 0, None);
}

/// Whether the global option `a` takes the next argument as its value.
pub open spec fn takes_next(a: Seq<char>) -> bool {
    a == "-C"@ || is_spaced_global_option(a)
}

/// The positions of `args`, from `i` on, that git's global-option parse
/// reads as arguments of their own: the global options (a value taken by
/// the one before is passed over), up to and including the first argument
/// that is not one.
pub open spec fn git_heads_from(args: Seq<Seq<char>>, i: int) -> Seq<int>
    decreases args.len() - i,
{
    if i < 0 || i >= args.len() {
        Seq::empty()
    } else if is_global_option(args[i]) {
        seq![i] + git_heads_from(
            args,
            if takes_next(args[i]) {
                if i + 2 <= args.len() { i + 2 } else { args.len() as int }
            } else {
                i + 1
            },
        )
    } else {
        seq![i]
    }
}

/// Whether the head at `h` is a `-C` that has its directory.
pub open spec fn dir_option_pred(args: Seq<Seq<char>>) -> spec_fn(int) -> bool {
    |h: int| args[h] == "-C"@ && h + 1 < args.len()
}

/// The subcommand among the heads `hs`: the last one, when it is not a
/// global option.
pub open spec fn subcommand_of(args: Seq<Seq<char>>, hs: Seq<int>) -> Option<int> {
    if hs.len() > 0 && !is_global_option(args[hs.last()]) {
        Some(hs.last())
    } else {
        None
    }
}

/// The directory given by the last `-C` among the heads `hs` that has one,
/// else `dflt`.
pub open spec fn work_dir_of(args: Seq<Seq<char>>, hs: Seq<int>, dflt: Option<Seq<char>>) -> Option<Seq<char>> {
    let cs = hs.filter(dir_option_pred(args));
    if cs.len() > 0 {
        Some(args[cs.last() + 1])
    } else {
        dflt
    }
}

proof fn lemma_scan_global_closed(args: Seq<Seq<char>>, i: int, wd: Option<Seq<char>>)
    requires
        0 <= i,
    ensures
        scan_global_opts(args, i, wd) == (
            work_dir_of(args, git_heads_from(args, i), wd),
            subcommand_of(args, git_heads_from(args, i)),
        ),
        forall|j: int|
            0 <= j < git_heads_from(args, i).len() - 1 ==> is_global_option(
                args[#[trigger] git_heads_from(args, i)[j]],
            ),
        forall|j: int|
            0 <= j < git_heads_from(args, i).len() ==> i <= #[trigger] git_heads_from(args, i)[j]
                < args.len(),
    decreases args.len() - i,
{
    let p = dir_option_pred(args);
    if i >= args.len() {
        reveal(Seq::filter);
        assert(Seq::<int>::empty().filter(p) =~= Seq::<int>::empty());
    } else {
        let a = args[i];
        let skip_two = if i + 2 <= args.len() { i + 2 } else { args.len() as int };
        let hs = git_heads_from(args, i);
        if is_global_option(a) {
            let next = if takes_next(a) { skip_two } else { i + 1 };
            let rest = git_heads_from(args, next);
            assert(hs == seq![i] + rest);
            lemma_filter_cons(i, rest, p);
            let wd2 = if a == "-C"@ && i + 1 < args.len() { Some(args[i + 1]) } else { wd };
            if a == "-C"@ && i + 1 >= args.len() {
                assert(rest == Seq::<int>::empty());
                reveal(Seq::filter);
                assert(Seq::<int>::empty().filter(p) =~= Seq::<int>::empty());
                assert(hs =~= seq![i]);
                assert(hs.filter(p) =~= Seq::<int>::empty());
            } else {
                lemma_scan_global_closed(args, next, wd2);
                let rc = rest.filter(p);
                if a == "-C"@ {
                    assert(hs.filter(p) == seq![i] + rc);
                    assert((seq![i] + rc).last() == (if rc.len() > 0 { rc.last() } else { i }));
                } else {
                    assert(hs.filter(p) =~= rc);
                }
                assert(hs.last() == (if rest.len() > 0 { rest.last() } else { i }));
                assert forall|j: int| 0 <= j < hs.len() - 1 implies is_global_option(
                    args[#[trigger] hs[j]],
                ) by {
                    if j > 0 {
                        assert(hs[j] == rest[j - 1]);
                    }
                }
                assert forall|j: int| 0 <= j < hs.len() implies i <= #[trigger] hs[j] < args.len() by {
                    if j > 0 {
                        assert(hs[j] == rest[j - 1]);
                    }
                }
            }
        } else {
            assert(hs == seq![i]);
            reveal(Seq::filter);
            assert(seq![i].drop_last() =~= Seq::<int>::empty());
            assert(Seq::<int>::empty().filter(p) =~= Seq::<int>::empty());
            assert(hs.filter(p) =~= Seq::<int>::empty());
        }
    }
}

/// Git's global options in closed form: every argument that the parse reads
/// before the subcommand is a global option; the subcommand is the first
/// argument read that is not one (none when every argument is one); and the
/// directory is that of the last `-C` read that has one.
pub proof fn law_global_opts_closed(args: Seq<Seq<char>>)
    ensures
        global_opts(args).1 == subcommand_of(args, git_heads_from(args, 0)),
        global_opts(args).0 == work_dir_of(args, git_heads_from(args, 0), None),
        forall|j: int|
            0 <= j < git_heads_from(args, 0).len() - 1 ==> is_global_option(
                args[#[trigger] git_heads_from(args, 0)[j]],
            ),
{
    lemma_scan_global_closed(args, 0, None);
}

/// Every global option that the shim skips is written as an option: it
/// begins with `-`.
proof fn lemma_global_options_start_with_dash(a: Seq<char>)
    requires
        is_global_option(a),
    ensures
        starts_with(a, "-"@),
{
    reveal_strlit("-");
    reveal_strlit("-C");
    reveal_strlit("-c");
    reveal_strlit("--git-dir");
    reveal_strlit("--work-tree");
    reveal_strlit("--git-dir=");
    reveal_strlit("--work-tree=");
    reveal_strlit("--no-pager");
    reveal_strlit("--no-replace-objects");
    reveal_strlit("--bare");
    reveal_strlit("--literal-pathspecs");
    reveal_strlit("--glob-pathspecs");
    reveal_strlit("--noglob-pathspecs");
    reveal_strlit("--icase-pathspecs");
    assert(a.len() >= 1);
    if starts_with(a, "--git-dir="@) {
        assert(a.take(10)[0] == a[0]);
    } else if starts_with(a, "--work-tree="@) {
        assert(a.take(12)[0] == a[0]);
    }
    assert(a.take(1) =~= "-"@);
}

/// Git's global options as the shim reads them, form by form: a word that
/// is not an option is the subcommand; each of the flags `--no-pager`,
/// `--no-replace-objects`, `--bare`, `--literal-pathspecs`,
/// `--glob-pathspecs`, `--noglob-pathspecs`, `--icase-pathspecs` and the
/// forms `--git-dir=<path>`, `--work-tree=<path>` stand alone; `-c`,
/// `--git-dir` and `--work-tree` take the next argument; `-C` takes the
/// next argument as the directory; and any other option is taken for the
/// subcommand.
pub proof fn law_git_global_option_forms(
    w: Seq<char>,
    f: Seq<char>,
    o: Seq<char>,
    v: Seq<char>,
    r: Seq<Seq<char>>,
)
    requires
        !starts_with(w, "-"@),
    ensures
        global_opts(seq![w] + r) == (None::<Seq<char>>, Some(0int)),
        (f == "--no-pager"@ || f == "--no-replace-objects"@ || f == "--bare"@ || f
            == "--literal-pathspecs"@ || f == "--glob-pathspecs"@ || f == "--noglob-pathspecs"@
            || f == "--icase-pathspecs"@ || starts_with(f, "--git-dir="@) || starts_with(
            f,
            "--work-tree="@,
        )) ==> global_opts(seq![f, w] + r) == (None::<Seq<char>>, Some(1int)),
        (o == "-c"@ || o == "--git-dir"@ || o == "--work-tree"@) ==> global_opts(seq![o, v, w] + r)
            == (None::<Seq<char>>, Some(2int)),
        global_opts(seq!["-C"@, v, w] + r) == (Some(v), Some(2int)),
{
    lemma_not_option_is_subcommand(w);
    let a1 = seq![w] + r;
    assert(a1[0] == w);
    let a2 = seq![f, w] + r;
    assert(a2[0] == f && a2[1] == w);
    let a3 = seq![o, v, w] + r;
    assert(a3[0] == o && a3[1] == v && a3[2] == w);
    let a4 = seq!["-C"@, v, w] + r;
    assert(a4[0] == "-C"@ && a4[1] == v && a4[2] == w);
    reveal_strlit("-C");
    reveal_strlit("-c");
    reveal_strlit("--git-dir");
    reveal_strlit("--work-tree");
    assert(scan_global_opts(a4, 0, None) == scan_global_opts(a4, 2, Some(v)));
    if o == "-c"@ || o == "--git-dir"@ || o == "--work-tree"@ {
        assert("-C"@[1] == 'C' && "-c"@[1] == 'c');
        assert(o != "-C"@);
        assert(scan_global_opts(a3, 0, None) == scan_global_opts(a3, 2, None));
    }
    if f == "--no-pager"@ || f == "--no-replace-objects"@ || f == "--bare"@ || f
        == "--literal-pathspecs"@ || f == "--glob-pathspecs"@ || f == "--noglob-pathspecs"@ || f
        == "--icase-pathspecs"@ || starts_with(f, "--git-dir="@) || starts_with(f, "--work-tree="@) {
        lemma_standalone_not_spaced(f);
        assert(scan_global_opts(a2, 0, None) == scan_global_opts(a2, 1, None));
    }
}

proof fn lemma_not_option_is_subcommand(w: Seq<char>)
    requires
        !starts_with(w, "-"@),
    ensures
        !is_global_option(w),
{
    if is_global_option(w) {
        lemma_global_options_start_with_dash(w);
    }
}

proof fn lemma_standalone_not_spaced(f: Seq<char>)
    requires
        f == "--no-pager"@ || f == "--no-replace-objects"@ || f == "--bare"@ || f
            == "--literal-pathspecs"@ || f == "--glob-pathspecs"@ || f == "--noglob-pathspecs"@ || f
            == "--icase-pathspecs"@ || starts_with(f, "--git-dir="@) || starts_with(f, "--work-tree="@),
    ensures
        f != "-C"@,
        !is_spaced_global_option(f),
        is_joined_global_option(f) || is_standalone_global_flag(f),
{
    reveal_strlit("-C");
    reveal_strlit("-c");
    reveal_strlit("--git-dir");
    reveal_strlit("--work-tree");
    reveal_strlit("--git-dir=");
    reveal_strlit("--work-tree=");
    reveal_strlit("--no-pager");
    reveal_strlit("--no-replace-objects");
    reveal_strlit("--bare");
    reveal_strlit("--literal-pathspecs");
    reveal_strlit("--glob-pathspecs");
    reveal_strlit("--noglob-pathspecs");
    reveal_strlit("--icase-pathspecs");
    if starts_with(f, "--git-dir="@) {
        assert(f.len() >= 10);
        assert(f.take(10)[9] == f[9]);
        assert(f[9] == '=');
        assert("--work-tree"@[9] == 'e' && "--git-dir"@.len() == 9);
    } else if starts_with(f, "--work-tree="@) {
        assert(f.len() >= 12);
        assert(f.take(12)[11] == f[11]);
        assert(f[11] == '=');
        assert("--work-tree"@.len() == 11 && "--git-dir"@.len() == 9);
    } else {
        assert("--git-dir"@[2] == 'g' && "--work-tree"@[2] == 'w');
        assert("--bare"@[2] == 'b');
        assert("--no-pager"@.len() == 10 && "--no-replace-objects"@.len() == 20);
        assert("--literal-pathspecs"@.len() == 19 && "--glob-pathspecs"@.len() == 16);
        assert("--noglob-pathspecs"@.len() == 18 && "--icase-pathspecs"@.len() == 17);
        assert("--git-dir"@.len() == 9 && "--work-tree"@.len() == 11);
    }
}

/// Any option other than those the shim skips is taken for the
/// subcommand (and so handed to the real git).
pub proof fn law_unknown_git_option_is_subcommand(o: Seq<char>, r: Seq<Seq<char>>)
    requires
        o != "-C"@ && o != "-c"@ && o != "--git-dir"@ && o != "--work-tree"@,
        !starts_with(o, "--git-dir="@) && !starts_with(o, "--work-tree="@),
        o != "--no-pager"@ && o != "--no-replace-objects"@ && o != "--bare"@ && o
            != "--literal-pathspecs"@ && o != "--glob-pathspecs"@ && o != "--noglob-pathspecs"@ && o
            != "--icase-pathspecs"@,
    ensures
        global_opts(seq![o] + r) == (None::<Seq<char>>, Some(0int)),
{
    assert((seq![o] + r)[0] == o);
}

proof fn lemma_no_delete_flag(r: Seq<Seq<char>>)
    requires
        forall|j: int| 0 <= j < r.len() ==> !is_branch_delete_flag(#[trigger] r[j]),
    ensures
        branch_delete_target(r) is None,
    decreases r.len(),
{
    if r.len() > 0 {
        assert(!is_branch_delete_flag(r[0]));
        assert forall|j: int| 0 <= j < r.drop_first().len() implies !is_branch_delete_flag(
            #[trigger] r.drop_first()[j],
        ) by {
            assert(r.drop_first()[j] == r[j + 1]);
        }
        lemma_no_delete_flag(r.drop_first());
    }
}

proof fn lemma_names_only(names: Seq<Seq<char>>)
    requires
        forall|j: int| 0 <= j < names.len() ==> !starts_with(#[trigger] names[j], "-"@),
    ensures
        non_flags(names) == names,
        rev_parse_flags_supported(names),
    decreases names.len(),
{
    if names.len() > 0 {
        assert forall|j: int| 0 <= j < names.drop_last().len() implies !starts_with(
            #[trigger] names.drop_last()[j],
            "-"@,
        ) by {
            assert(names.drop_last()[j] == names[j]);
        }
        lemma_names_only(names.drop_last());
        assert(!is_flag(names.last()));
        assert(names.drop_last().push(names.last()) =~= names);
    }
}

/// What the shim does in a jj repository (when not disabled) with a git
/// command whose subcommand comes first: `worktree` and `status` are taken
/// over with the arguments after them; `branch -d|--delete|-D <name>`
/// deletes `name` and `branch` without a delete flag goes to the real git;
/// `rev-parse` with names only (no option) asks for those revisions, `HEAD`
/// as jj's `@`, while any option other than `--verify` sends it to the real
/// git; and any other subcommand goes to the real git.
pub proof fn law_shim_routes(
    r: Seq<Seq<char>>,
    d: Seq<char>,
    n: Seq<char>,
    names: Seq<Seq<char>>,
    o: Seq<char>,
    w: Seq<char>,
)
    ensures
        shim_route(seq!["worktree"@] + r, false, true) == RouteSpec::Worktree(r),
        shim_route(seq!["status"@] + r, false, true) == RouteSpec::Status(r),
        (d == "-d"@ || d == "--delete"@ || d == "-D"@) ==> shim_route(
            seq!["branch"@, d, n] + r,
            false,
            true,
        ) == RouteSpec::BranchDelete(n),
        (forall|j: int| 0 <= j < r.len() ==> #[trigger] r[j] != "-d"@ && r[j] != "--delete"@ && r[j]
            != "-D"@) ==> shim_route(seq!["branch"@] + r, false, true) == RouteSpec::RealGit,
        (names.len() > 0 && forall|j: int| 0 <= j < names.len() ==> !starts_with(
            #[trigger] names[j],
            "-"@,
        )) ==> shim_route(seq!["rev-parse"@] + names, false, true) == RouteSpec::RevParse(
            names.map_values(|x: Seq<char>| if x == "HEAD"@ { "@"@ } else { x }),
        ),
        (starts_with(o, "-"@) && o != "--verify"@) ==> shim_route(
            seq!["rev-parse"@, o] + r,
            false,
            true,
        ) == RouteSpec::RealGit,
        (!starts_with(w, "-"@) && w != "worktree"@ && w != "branch"@ && w != "status"@ && w
            != "rev-parse"@) ==> shim_route(seq![w] + r, false, true) == RouteSpec::RealGit,
{
    reveal_strlit("-");
    reveal_strlit("worktree");
    reveal_strlit("branch");
    reveal_strlit("status");
    reveal_strlit("rev-parse");
    assert("worktree"@[0] == 'w' && "branch"@[0] == 'b' && "status"@[0] == 's' && "rev-parse"@[0] == 'r');
    assert("worktree"@.take(1) != "-"@ && "branch"@.take(1) != "-"@ && "status"@.take(1) != "-"@
        && "rev-parse"@.take(1) != "-"@) by {
        assert("worktree"@.take(1)[0] == 'w');
        assert("branch"@.take(1)[0] == 'b');
        assert("status"@.take(1)[0] == 's');
        assert("rev-parse"@.take(1)[0] == 'r');
    }
    law_git_global_option_forms("worktree"@, "-"@, "-"@, "-"@, r);
    law_git_global_option_forms("status"@, "-"@, "-"@, "-"@, r);
    law_git_global_option_forms("branch"@, "-"@, "-"@, "-"@, seq![d, n] + r);
    law_git_global_option_forms("branch"@, "-"@, "-"@, "-"@, r);
    law_git_global_option_forms("rev-parse"@, "-"@, "-"@, "-"@, names);
    law_git_global_option_forms("rev-parse"@, "-"@, "-"@, "-"@, seq![o] + r);
    assert((seq!["worktree"@] + r).skip(1) =~= r);
    assert((seq!["worktree"@] + r)[0] == "worktree"@);
    assert((seq!["status"@] + r).skip(1) =~= r);
    assert((seq!["status"@] + r)[0] == "status"@);
    let ab = seq!["branch"@, d, n] + r;
    assert(seq!["branch"@, d, n] + r =~= seq!["branch"@] + (seq![d, n] + r));
    assert(ab[0] == "branch"@);
    assert(ab.skip(1) =~= seq![d, n] + r);
    assert((seq![d, n] + r)[0] == d && (seq![d, n] + r)[1] == n);
    assert((seq!["branch"@] + r)[0] == "branch"@ && (seq!["branch"@] + r).skip(1) =~= r);
    if forall|j: int| 0 <= j < r.len() ==> #[trigger] r[j] != "-d"@ && r[j] != "--delete"@ && r[j] != "-D"@ {
        lemma_no_delete_flag(r);
    }
    assert((seq!["rev-parse"@] + names)[0] == "rev-parse"@ && (seq!["rev-parse"@] + names).skip(1)
        =~= names);
    if names.len() > 0 && forall|j: int| 0 <= j < names.len() ==> !starts_with(#[trigger] names[j], "-"@) {
        lemma_names_only(names);
        assert(names.map_values(|x: Seq<char>| head_as_working_copy(x)) =~= names.map_values(
            |x: Seq<char>| if x == "HEAD"@ { "@"@ } else { x },
        ));
    }
    let ar = seq!["rev-parse"@, o] + r;
    assert(seq!["rev-parse"@, o] + r =~= seq!["rev-parse"@] + (seq![o] + r));
    assert(ar[0] == "rev-parse"@ && ar.skip(1) =~= seq![o] + r);
    if starts_with(o, "-"@) && o != "--verify"@ {
        assert((seq![o] + r)[0] == o);
        assert(is_flag((seq![o] + r)[0]));
        assert(!rev_parse_flags_supported(seq![o] + r));
    }
    if !starts_with(w, "-"@) {
        law_git_global_option_forms(w, "-"@, "-"@, "-"@, r);
    }
    assert((seq![w] + r)[0] == w);
    law_git_global_option_forms("branch"@, "-"@, "-"@, "-"@, seq![d, n] + r);
    assert(global_opts(ab) == (None::<Seq<char>>, Some(0int)));
    assert(global_opts(ar) == (None::<Seq<char>>, Some(0int)));
}

/// Flags of `git branch` that delete a branch.
pub open spec fn is_branch_delete_flag(a: Seq<char>) -> bool {
    a == "-d"@ || a == "--delete"@ || a == "-D"@
}

/// The argument after the first delete flag in `rest`, if that flag has one.
pub open spec fn branch_delete_target(rest: Seq<Seq<char>>) -> Option<Seq<char>>
    decreases rest.len(),
{
    if rest.len() == 0 {
        None
    } else if is_branch_delete_flag(rest[0]) {
        if rest.len() > 1 {
            Some(rest[1])
        } else {
            None
        }
    } else {
        branch_delete_target(rest.drop_first())
    }
}

/// Detects `branch -d <name>` (or `--delete`, `-D`) among the arguments that
/// follow the `branch` subcommand at `subcmd_index`.
pub fn parse_branch_delete(args: &[String], subcmd_index: usize) -> (r: Option<String>)
    requires
        subcmd_index < args@.len(),
    ensures
        opt_str(r) == branch_delete_target(strs(args@).skip(subcmd_index + 1)),
{
    let n = args.len();
    let ghost argv = strs(args@);
    let mut i: usize = subcmd_index + 1;
    assert(argv.skip(i as int) =~= argv.skip(subcmd_index + 1));
    while i < args.len()
        invariant
            argv == strs(args@),
            subcmd_index < i <= args@.len(),
            branch_delete_target(argv.skip(i as int)) == branch_delete_target(
                argv.skip(subcmd_index + 1),
            ),
        decreases args@.len() - i,
    {
        let a = chars_of(args[i].as_str());
        assert(argv.skip(i as int)[0] == argv[i as int]);
        if same_as(&a, "-d") || same_as(&a, "--delete") || same_as(&a, "-D") {
            if i + 1 < args.len() {
                assert(argv.skip(i as int)[1] == argv[i + 1]);
                return Some(args[i + 1].clone());
            }
            return None;
        }
        assert(argv.skip(i as int).drop_first() =~= argv.skip(i + 1));
        i = i + 1;
    }
    None
}


/// Whether `a` is written as an option (begins with `-`).
pub open spec fn is_flag(a: Seq<char>) -> bool {
    starts_with(a, "-"@)
}

/// Whether every option among `args` is `--verify`, the one option of
/// `git rev-parse` that the shim answers itself.
pub open spec fn rev_parse_flags_supported(args: Seq<Seq<char>>) -> bool {
    forall|i: int| 0 <= i < args.len() && is_flag(#[trigger] args[i]) ==> args[i] == "--verify"@
}

/// The arguments of `args` that are not options, in order.
pub open spec fn non_flags(args: Seq<Seq<char>>) -> Seq<Seq<char>>
    decreases args.len(),
{
    if args.len() == 0 {
        Seq::empty()
    } else if is_flag(args.last()) {
        non_flags(args.drop_last())
    } else {
        non_flags(args.drop_last()).push(args.last())
    }
}

/// The jj revision that names the same commit as git's `name`: `HEAD` is
/// jj's working-copy commit `@`; other names are kept.
pub open spec fn head_as_working_copy(name: Seq<char>) -> Seq<char> {
    if name == "HEAD"@ {
        "@"@
    } else {
        name
    }
}

/// The revisions that `git rev-parse` with arguments `args` asks for, as jj
/// revisions, when the shim can answer: only `--verify` among the options and
/// at least one name.
pub open spec fn rev_parse_revisions(args: Seq<Seq<char>>) -> Option<Seq<Seq<char>>> {
    let names = non_flags(args);
    if rev_parse_flags_supported(args) && names.len() > 0 {
        Some(names.map_values(|n: Seq<char>| head_as_working_copy(n)))
    } else {
        None
    }
}

/// What the shim does with a git command line.
pub enum RouteSpec {
    RealGit,
    Worktree(Seq<Seq<char>>),
    BranchDelete(Seq<char>),
    Status(Seq<Seq<char>>),
    RevParse(Seq<Seq<char>>),
}

/// What the shim does with a git command line.
pub enum ShimRoute {
    /// Hand the whole argument list to the real git binary.
    RealGit,
    /// Run the worktree command with the arguments after `worktree`.
    Worktree(Vec<String>),
    /// `git branch -d <name>`: delete the bookmark `name` through jj when
    /// jj-worktree manages it, else hand the call to the real git.
    BranchDelete(String),
    /// `git status`: answer from `jj diff --summary`; the arguments after
    /// `status` are kept for handing the call to the real git.
    Status(Vec<String>),
    /// `git rev-parse [--verify] <ref>...`: print the commit ids of these jj
    /// revisions.
    RevParse(Vec<String>),
}

impl View for ShimRoute {
    type V = RouteSpec;

    open spec fn view(&self) -> RouteSpec {
        match self {
            ShimRoute::RealGit => RouteSpec::RealGit,
            ShimRoute::Worktree(a) => RouteSpec::Worktree(strs(a@)),
            ShimRoute::BranchDelete(n) => RouteSpec::BranchDelete(n@),
            ShimRoute::Status(a) => RouteSpec::Status(strs(a@)),
            ShimRoute::RevParse(a) => RouteSpec::RevParse(strs(a@)),
        }
    }
}

/// The route for git arguments `argv`, given whether the shim is disabled
/// and whether the starting directory lies in a jj repository.
pub open spec fn shim_route(argv: Seq<Seq<char>>, disabled: bool, in_jj_repo: bool) -> RouteSpec {
    if disabled {
        RouteSpec::RealGit
    } else {
        match global_opts(argv).1 {
            None => RouteSpec::RealGit,
            Some(k) => {
                let sub = argv[k];
                let rest = argv.skip(k + 1);
                if !in_jj_repo {
                    RouteSpec::RealGit
                } else if sub == "worktree"@ {
                    RouteSpec::Worktree(rest)
                } else if sub == "branch"@ {
                    match branch_delete_target(rest) {
                        Some(name) => RouteSpec::BranchDelete(name),
                        None => RouteSpec::RealGit,
                    }
                } else if sub == "status"@ {
                    RouteSpec::Status(rest)
                } else if sub == "rev-parse"@ {
                    match rev_parse_revisions(rest) {
                        Some(revs) => RouteSpec::RevParse(revs),
                        None => RouteSpec::RealGit,
                    }
                } else {
                    RouteSpec::RealGit
                }
            },
        }
    }
}

/// The jj revisions for the arguments of `git rev-parse`, when the shim can
/// answer the call itself.
pub fn rev_parse_revisions_of(args: &[String]) -> (r: Option<Vec<String>>)
    ensures
        match r {
            Some(v) => rev_parse_revisions(strs(args@)) == Some(strs(v@)),
            None => rev_parse_revisions(strs(args@)) is None,
        },
{
    let ghost argv = strs(args@);
    let mut names: Vec<String> = Vec::new();
    let mut i: usize = 0;
    while i < args.len()
        invariant
            argv == strs(args@),
            i <= args@.len(),
            rev_parse_flags_supported(argv.take(i as int)),
            strs(names@) == non_flags(argv.take(i as int)).map_values(
                |n: Seq<char>| head_as_working_copy(n),
            ),
        decreases args@.len() - i,
    {
        let a = chars_of(args[i].as_str());
        let ghost pre = argv.take(i as int);
        assert(argv.take(i + 1).drop_last() =~= pre);
        assert(argv.take(i + 1).last() == argv[i as int]);
        if has_prefix(&a, "-") {
            if !same_as(&a, "--verify") {
                assert(!rev_parse_flags_supported(argv)) by {
                    assert(is_flag(argv[i as int]));
                }
                return None;
            }
        } else {
            let ghost before = strs(names@);
            if same_as(&a, "HEAD") {
                names.push(String::from_str("@"));
            } else {
                names.push(args[i].clone());
            }
            assert(strs(names@) =~= before.push(head_as_working_copy(argv[i as int])));
        }
        i = i + 1;
        assert(strs(names@) =~= non_flags(argv.take(i as int)).map_values(
            |n: Seq<char>| head_as_working_copy(n),
        ));
        assert forall|j: int| 0 <= j < i && is_flag(#[trigger] argv.take(i as int)[j]) implies argv.take(
            i as int,
        )[j] == "--verify"@ by {
            if j < i - 1 {
                assert(argv.take(i as int)[j] == pre[j]);
            }
        }
    }
    assert(argv.take(i as int) =~= argv);
    if names.len() == 0 {
        None
    } else {
        Some(names)
    }
}

/// Decides what the shim does with the git arguments `args`.
///
/// `disabled` is whether `JJ_WORKTREE_DISABLED=1` is set; `in_jj_repo` is
/// whether a `.jj` directory was found above the starting directory (the
/// `-C` directory when one is given).
pub fn route(args: &[String], disabled: bool, in_jj_repo: bool) -> (r: ShimRoute)
    ensures
        r@ == shim_route(strs(args@), disabled, in_jj_repo),
{
    let ghost argv = strs(args@);
    if disabled {
        return ShimRoute::RealGit;
    }
    let parsed = parse_git_global_opts(args);
    let k = match parsed.subcmd_index {
        Some(k) => k,
        None => {
            return ShimRoute::RealGit;
        },
    };
    proof {
        law_subcommand_is_not_global_option(argv);
    }
    if !in_jj_repo {
        return ShimRoute::RealGit;
    }
    let sub = chars_of(args[k].as_str());
    let rest = tail_from(args, k + 1);
    if same_as(&sub, "worktree") {
        ShimRoute::Worktree(rest)
    } else if same_as(&sub, "branch") {
        match parse_branch_delete(args, k) {
            Some(name) => ShimRoute::BranchDelete(name),
            None => ShimRoute::RealGit,
        }
    } else if same_as(&sub, "status") {
        ShimRoute::Status(rest)
    } else if same_as(&sub, "rev-parse") {
        match rev_parse_revisions_of(rest.as_slice()) {
            Some(revs) => ShimRoute::RevParse(revs),
            None => ShimRoute::RealGit,
        }
    } else {
        ShimRoute::RealGit
    }
}

/// Outside a jj repository, or with the shim disabled, every git command goes
/// to the real git unchanged.
pub proof fn law_outside_jj_everything_passes_through(argv: Seq<Seq<char>>, disabled: bool, in_jj_repo: bool)
    requires
        disabled || !in_jj_repo,
    ensures
        shim_route(argv, disabled, in_jj_repo) == RouteSpec::RealGit,
{
}


/// The two status columns and the space of a porcelain v1 line for jj's
/// status letter `st`: `M` and renames are modified in the work tree, `A`
/// is untracked, `D` is deleted; anything else counts as modified.
pub open spec fn porcelain_prefix(st: Seq<char>) -> Seq<char> {
    if st == "A"@ {
        "?? "@
    } else if st == "D"@ {
        " D "@
    } else {
        " M "@
    }
}

/// The porcelain v1 line for one line of `jj diff --summary`, if it has one:
/// blank lines and lines without a space give none.
pub open spec fn porcelain_line(line: Seq<char>) -> Option<Seq<char>> {
    let t = trim(line);
    if t.len() == 0 {
        None
    } else {
        match split_once(t, ' ') {
            Some((st, path)) => Some(porcelain_prefix(st) + path),
            None => None,
        }
    }
}

/// A line `<status> <path>` of `jj diff --summary` becomes the porcelain
/// line of git's `status`: an added file (`A`) as `?? <path>`, a deleted one
/// (`D`) as ` D <path>`, and any other status as ` M <path>`.
pub proof fn law_porcelain_lines(st: Seq<char>, p: Seq<char>)
    requires
        st.len() > 0,
        !st.contains(' '),
        !is_space(st[0]),
        p.len() > 0,
        !is_space(p.last()),
    ensures
        porcelain_line(st + " "@ + p) == Some(
            (if st == "A"@ {
                "?? "@
            } else if st == "D"@ {
                " D "@
            } else {
                " M "@
            }) + p,
        ),
{
    reveal_strlit(" ");
    let line = st + " "@ + p;
    assert(line[0] == st[0]);
    assert(trim_start(line) == line);
    assert(line.last() == p.last());
    assert(trim_end(line) == line);
    assert forall|j: int| 0 <= j < st.len() implies line[j] != ' ' by {
        assert(line[j] == st[j]);
        if st[j] == ' ' {
            assert(st.contains(' '));
        }
    }
    assert(line[st.len() as int] == ' ');
    crate::text::lemma_first_index(line, ' ', st.len() as int);
    assert(line.take(st.len() as int) =~= st);
    assert(line.skip(st.len() as int + 1) =~= p);
}

/// The porcelain v1 lines for the lines of `jj diff --summary`, in order.
pub open spec fn porcelain(ls: Seq<Seq<char>>) -> Seq<Seq<char>>
    decreases ls.len(),
{
    if ls.len() == 0 {
        Seq::empty()
    } else {
        let init = porcelain(ls.drop_last());
        match porcelain_line(ls.last()) {
            Some(p) => init.push(p),
            None => init,
        }
    }
}

/// The porcelain v1 line for one line of `jj diff --summary`.
pub fn porcelain_line_of(line: &Vec<char>) -> (r: Option<String>)
    ensures
        opt_str(r) == porcelain_line(line@),
{
    let t = trimmed(line);
    if t.len() == 0 {
        return None;
    }
    let k = find_char(&t, ' ');
    if k >= t.len() {
        return None;
    }
    let st = slice_chars(&t, 0, k);
    let path = slice_chars(&t, k + 1, t.len());
    assert(st@ =~= t@.take(k as int));
    assert(path@ =~= t@.skip(k + 1));
    let mut out = if same_as(&st, "A") {
        String::from_str("?? ")
    } else if same_as(&st, "D") {
        String::from_str(" D ")
    } else {
        String::from_str(" M ")
    };
    let p = string_of(&path);
    out.append(p.as_str());
    Some(out)
}

/// Rewrites the output of `jj diff --summary` as the lines of
/// `git status --porcelain` (v1).
pub fn status_porcelain(diff: &str) -> (r: Vec<String>)
    ensures
        strs(r@) == porcelain(lines(diff@)),
{
    let chars = chars_of(diff);
    let ls = lines_of(&chars);
    let ghost lv = views(ls@);
    let mut out: Vec<String> = Vec::new();
    let mut i: usize = 0;
    while i < ls.len()
        invariant
            lv == views(ls@),
            lv == lines(diff@),
            i <= ls@.len(),
            strs(out@) == porcelain(lv.take(i as int)),
        decreases ls@.len() - i,
    {
        let ghost before = strs(out@);
        assert(lv.take(i + 1).drop_last() =~= lv.take(i as int));
        assert(lv.take(i + 1).last() == ls@[i as int]@);
        match porcelain_line_of(&ls[i]) {
            Some(p) => {
                out.push(p);
                assert(strs(out@) =~= before.push(porcelain_line(lv[i as int]).unwrap()));
            },
            None => {},
        }
        i = i + 1;
    }
    assert(lv.take(i as int) =~= lv);
    out
}

} // verus!
