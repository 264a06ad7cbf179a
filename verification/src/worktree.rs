//! The decisions of the `worktree` commands (`add`, `list`, `remove`):
//! their argument parsing, the names and paths of workspaces, the rewriting
//! of git revisions, and the layout of `list`.

use vstd::prelude::*;
use vstd::string::StringExecFns;

use crate::path::{file_name, file_name_of, join, push_path};
use crate::text::{
    chars_of, find_char, first_index, has_prefix, lemma_filter_cons, lines, lines_of, opt_str, push_char, same_as,
    slice_chars, split_once, starts_with, string_of, strs, tail_from, trim, trimmed, views,
    is_space, lemma_trim_end_after, trim_end, trim_start,
};

verus! {

/// Flags of `git worktree add` that take no value and have no meaning for a
/// jj workspace; they are accepted silently.
pub open spec fn is_known_switch(a: Seq<char>) -> bool {
    a == "--track"@ || a == "--no-track"@ || a == "--lock"@ || a == "--guess-remote"@
        || a == "--no-guess-remote"@ || a == "--detach"@
}

/// Flags of `git worktree add` that take a value and are accepted silently,
/// together with their value.
pub open spec fn is_known_valued(a: Seq<char>) -> bool {
    a == "--reason"@
}

/// Flags of `git worktree add` that are accepted as no-ops without a report.
pub open spec fn is_known_noop(a: Seq<char>) -> bool {
    is_known_switch(a) || is_known_valued(a)
}

/// The path, branch and commit-ish given to `add`.
pub type AddParts = (Seq<char>, Option<Seq<char>>, Option<Seq<char>>);

/// The state of `add`'s argument scan.
pub struct AddScan {
    pub path: Option<Seq<char>>,
    pub branch: Option<Seq<char>>,
    pub commit_ish: Option<Seq<char>>,
    /// Options that were accepted as no-ops and are to be reported.
    pub unknown: Seq<Seq<char>>,
}

/// The outcome of `add`'s argument scan: the path, branch and commit-ish, or
/// an error message; and in both cases the options to report.
pub open spec fn add_outcome(s: AddScan) -> (Result<AddParts, Seq<char>>, Seq<Seq<char>>) {
    match s.path {
        None => (Err("missing required argument: <path>"@), s.unknown),
        Some(p) => (Ok((p, s.branch, s.commit_ish)), s.unknown),
    }
}

/// Scanning `add`'s arguments from position `i` in state `s`.
pub open spec fn scan_add(args: Seq<Seq<char>>, i: int, s: AddScan) -> (Result<AddParts, Seq<char>>, Seq<Seq<char>>)
    decreases args.len() - i,
{
    if i < 0 || i >= args.len() {
        add_outcome(s)
    } else {
        let a = args[i];
        let skip_two = if i + 2 <= args.len() { i + 2 } else { args.len() as int };
        if a == "-b"@ || a == "-B"@ {
            if i + 1 >= args.len() {
                (Err("-b requires a branch name"@), s.unknown)
            } else {
                scan_add(args, i + 2, AddScan { branch: Some(args[i + 1]), ..s })
            }
        } else if is_known_switch(a) {
            scan_add(args, i + 1, s)
        } else if is_known_valued(a) {
            scan_add(args, skip_two, s)
        } else if starts_with(a, "--"@) && first_index(a, '=') < a.len() {
            let name = a.take(first_index(a, '='));
            if is_known_noop(name) {
                scan_add(args, i + 1, s)
            } else {
                scan_add(args, i + 1, AddScan { unknown: s.unknown.push(name), ..s })
            }
        } else if starts_with(a, "-"@) {
            scan_add(args, i + 1, AddScan { unknown: s.unknown.push(a), ..s })
        } else if s.path is None {
            scan_add(args, i + 1, AddScan { path: Some(a), ..s })
        } else if s.commit_ish is None {
            scan_add(args, i + 1, AddScan { commit_ish: Some(a), ..s })
        } else {
            (Err("unexpected argument: "@ + a), s.unknown)
        }
    }
}

/// What `parse_add_args` gives for `args`.
pub open spec fn add_args(args: Seq<Seq<char>>) -> (Result<AddParts, Seq<char>>, Seq<Seq<char>>) {
    scan_add(args, 0, AddScan { path: None, branch: None, commit_ish: None, unknown: Seq::empty() })
}

/// The arguments of `add <path> [-b <branch>] [<commit-ish>]`.
#[derive(Debug)]
pub struct AddArgs {
    pub path: String,
    pub branch: Option<String>,
    pub commit_ish: Option<String>,
    /// Options that were accepted as no-ops but are not known to be
    /// meaningless for jj: each is to be reported.
    pub unknown_options: Vec<String>,
}

/// Why the arguments of `add` were refused.
#[derive(Debug)]
pub struct AddArgsError {
    pub message: String,
    /// Options met before the refusal that are to be reported all the same.
    pub unknown_options: Vec<String>,
}

/// Whether `a` is a flag of `add` accepted silently without a value.
fn known_switch(a: &Vec<char>) -> (r: bool)
    ensures
        r == is_known_switch(a@),
{
    same_as(a, "--track") || same_as(a, "--no-track") || same_as(a, "--lock") || same_as(
        a,
        "--guess-remote",
    ) || same_as(a, "--no-guess-remote") || same_as(a, "--detach")
}

/// Whether `a` is a flag of `add` accepted silently with its value.
fn known_valued(a: &Vec<char>) -> (r: bool)
    ensures
        r == is_known_valued(a@),
{
    same_as(a, "--reason")
}

/// Parses `add <path> [-b <branch>] [<commit-ish>]`.
///
/// `-b`/`-B` take the branch name. The flags `--track`, `--no-track`,
/// `--lock`, `--guess-remote`, `--no-guess-remote`, `--detach` and
/// `--reason <value>` are accepted silently. Any other option is accepted as
/// a no-op and listed for reporting: `--name=value` counts as one argument
/// and is reported as `--name`; a bare option never takes the next argument.
/// The first other argument is the path, the second the commit-ish; a third
/// is refused.
pub fn parse_add_args(args: &[String]) -> (r: Result<AddArgs, AddArgsError>)
    ensures
        match r {
            Ok(a) => add_args(strs(args@)) == (
                Ok::<_, Seq<char>>((a.path@, opt_str(a.branch), opt_str(a.commit_ish))),
                strs(a.unknown_options@),
            ),
            Err(e) => add_args(strs(args@)) == (Err::<AddParts, Seq<char>>(e.message@), strs(e.unknown_options@)),
        },
{
    let ghost argv = strs(args@);
    let mut path: Option<String> = None;
    let mut branch: Option<String> = None;
    let mut commit_ish: Option<String> = None;
    let mut unknown: Vec<String> = Vec::new();
    let mut i: usize = 0;
    assert(strs(unknown@) =~= Seq::<Seq<char>>::empty());
    while i < args.len()
        invariant
            argv == strs(args@),
            i <= args@.len(),
            scan_add(
                argv,
                i as int,
                AddScan {
                    path: opt_str(path),
                    branch: opt_str(branch),
                    commit_ish: opt_str(commit_ish),
                    unknown: strs(unknown@),
                },
            ) == add_args(argv),
        decreases args@.len() - i,
    {
        let a = chars_of(args[i].as_str());
        assert(a@ == argv[i as int]);
        let ghost before = strs(unknown@);
        if same_as(&a, "-b") || same_as(&a, "-B") {
            if i + 1 >= args.len() {
                return Err(
                    AddArgsError {
                        message: String::from_str("-b requires a branch name"),
                        unknown_options: unknown,
                    },
                );
            }
            branch = Some(args[i + 1].clone());
            i = i + 2;
        } else if known_switch(&a) {
            i = i + 1;
        } else if known_valued(&a) {
            if i + 1 < args.len() {
                i = i + 2;
            } else {
                i = args.len();
            }
        } else if has_prefix(&a, "--") && find_char(&a, '=') < a.len() {
            let k = find_char(&a, '=');
            let name = slice_chars(&a, 0, k);
            assert(name@ =~= a@.take(first_index(a@, '=')));
            if !(known_switch(&name) || known_valued(&name)) {
                unknown.push(string_of(&name));
                assert(strs(unknown@) =~= before.push(name@));
            }
            i = i + 1;
        } else if has_prefix(&a, "-") {
            unknown.push(args[i].clone());
            assert(strs(unknown@) =~= before.push(a@));
            i = i + 1;
        } else if path.is_none() {
            path = Some(args[i].clone());
            i = i + 1;
        } else if commit_ish.is_none() {
            commit_ish = Some(args[i].clone());
            i = i + 1;
        } else {
            let mut message = String::from_str("unexpected argument: ");
            message.append(args[i].as_str());
            return Err(AddArgsError { message, unknown_options: unknown });
        }
    }
    match path {
        None => Err(
            AddArgsError {
                message: String::from_str("missing required argument: <path>"),
                unknown_options: unknown,
            },
        ),
        Some(path) => Ok(AddArgs { path, branch, commit_ish, unknown_options: unknown }),
    }
}


/// Whether every entry of `u` is an option that is not a known no-op flag.
pub open spec fn all_reportable(u: Seq<Seq<char>>) -> bool {
    forall|k: int| 0 <= k < u.len() ==> starts_with(#[trigger] u[k], "-"@) && !is_known_noop(u[k])
}

pub proof fn lemma_scan_add_reports(args: Seq<Seq<char>>, i: int, s: AddScan)
    requires
        all_reportable(s.unknown),
    ensures
        all_reportable(scan_add(args, i, s).1),
    decreases args.len() - i,
{
    if 0 <= i < args.len() {
        let a = args[i];
        let skip_two = if i + 2 <= args.len() { i + 2 } else { args.len() as int };
        if a == "-b"@ || a == "-B"@ {
            if i + 1 < args.len() {
                lemma_scan_add_reports(args, i + 2, AddScan { branch: Some(args[i + 1]), ..s });
            }
        } else if is_known_switch(a) {
            lemma_scan_add_reports(args, i + 1, s);
        } else if is_known_valued(a) {
            lemma_scan_add_reports(args, skip_two, s);
        } else if starts_with(a, "--"@) && first_index(a, '=') < a.len() {
            let k = first_index(a, '=');
            let name = a.take(k);
            if is_known_noop(name) {
                lemma_scan_add_reports(args, i + 1, s);
            } else {
                crate::text::lemma_first_index_is_first(a, '=');
                reveal_strlit("--");
                assert(a.take(2) == "--"@);
                assert(a[0] == '-') by {
                    assert(a.take(2)[0] == a[0]);
                }
                assert(a[1] == '-') by {
                    assert(a.take(2)[1] == a[1]);
                }
                assert(k >= 2);
                assert(starts_with(name, "-"@)) by {
                    reveal_strlit("-");
                    assert(name.take(1) =~= "-"@);
                }
                let t = AddScan { unknown: s.unknown.push(name), ..s };
                assert(all_reportable(t.unknown)) by {
                    assert forall|j: int| 0 <= j < t.unknown.len() implies starts_with(
                        #[trigger] t.unknown[j],
                        "-"@,
                    ) && !is_known_noop(t.unknown[j]) by {
                        if j < s.unknown.len() {
                            assert(t.unknown[j] == s.unknown[j]);
                        }
                    }
                }
                lemma_scan_add_reports(args, i + 1, t);
            }
        } else if starts_with(a, "-"@) {
            let t = AddScan { unknown: s.unknown.push(a), ..s };
            assert(all_reportable(t.unknown)) by {
                assert forall|j: int| 0 <= j < t.unknown.len() implies starts_with(
                    #[trigger] t.unknown[j],
                    "-"@,
                ) && !is_known_noop(t.unknown[j]) by {
                    if j < s.unknown.len() {
                        assert(t.unknown[j] == s.unknown[j]);
                    }
                }
            }
            lemma_scan_add_reports(args, i + 1, t);
        } else if s.path is None {
            lemma_scan_add_reports(args, i + 1, AddScan { path: Some(a), ..s });
        } else if s.commit_ish is None {
            lemma_scan_add_reports(args, i + 1, AddScan { commit_ish: Some(a), ..s });
        }
    }
}

/// Only options are ever reported, and never one of the flags known to be
/// meaningless for jj (whether the parse succeeds or not).
pub proof fn law_known_flags_never_reported(args: Seq<Seq<char>>)
    ensures
        all_reportable(add_args(args).1),
{
    lemma_scan_add_reports(
        args,
        0,
        AddScan { path: None, branch: None, commit_ish: None, unknown: Seq::empty() },
    );
}

pub proof fn lemma_scan_add_shift(p: Seq<Seq<char>>, args: Seq<Seq<char>>, j: int, s: AddScan)
    requires
        0 <= j,
    ensures
        scan_add(p + args, j + p.len(), s) == scan_add(args, j, s),
    decreases args.len() - j,
{
    let all = p + args;
    let i = j + p.len();
    if j < args.len() {
        assert(all[i] == args[j]);
        if j + 1 < args.len() {
            assert(all[i + 1] == args[j + 1]);
        }
        let a = args[j];
        let skip_two = if j + 2 <= args.len() { j + 2 } else { args.len() as int };
        if a == "-b"@ || a == "-B"@ {
            if j + 1 < args.len() {
                lemma_scan_add_shift(p, args, j + 2, AddScan { branch: Some(args[j + 1]), ..s });
            }
        } else if is_known_switch(a) {
            lemma_scan_add_shift(p, args, j + 1, s);
        } else if is_known_valued(a) {
            lemma_scan_add_shift(p, args, skip_two, s);
        } else if starts_with(a, "--"@) && first_index(a, '=') < a.len() {
            let name = a.take(first_index(a, '='));
            if is_known_noop(name) {
                lemma_scan_add_shift(p, args, j + 1, s);
            } else {
                lemma_scan_add_shift(p, args, j + 1, AddScan { unknown: s.unknown.push(name), ..s });
            }
        } else if starts_with(a, "-"@) {
            lemma_scan_add_shift(p, args, j + 1, AddScan { unknown: s.unknown.push(a), ..s });
        } else if s.path is None {
            lemma_scan_add_shift(p, args, j + 1, AddScan { path: Some(a), ..s });
        } else if s.commit_ish is None {
            lemma_scan_add_shift(p, args, j + 1, AddScan { commit_ish: Some(a), ..s });
        }
    }
}

/// A known no-op flag placed before the arguments of `add` changes nothing:
/// neither the outcome nor what is reported.
pub proof fn law_known_switch_is_noop(flag: Seq<char>, args: Seq<Seq<char>>)
    requires
        is_known_switch(flag),
    ensures
        add_args(seq![flag] + args) == add_args(args),
{
    let init = AddScan { path: None, branch: None, commit_ish: None, unknown: Seq::empty() };
    let all = seq![flag] + args;
    assert(all[0] == flag);
    assert(flag != "-b"@ && flag != "-B"@) by {
        reveal_strlit("-b");
        reveal_strlit("-B");
        reveal_strlit("--track");
        reveal_strlit("--no-track");
        reveal_strlit("--lock");
        reveal_strlit("--guess-remote");
        reveal_strlit("--no-guess-remote");
        reveal_strlit("--detach");
    }
    lemma_scan_add_shift(seq![flag], args, 0, init);
}


/// An argument of `add` as the parse reads it: the argument itself and, for
/// `-b`, `-B` and `--reason`, the argument that follows it as its value
/// (`None` when there is none).
pub type AddItem = (Seq<char>, Option<Seq<char>>);

/// Whether the argument `a` of `add` takes the next argument as its value.
pub open spec fn takes_value(a: Seq<char>) -> bool {
    a == "-b"@ || a == "-B"@ || is_known_valued(a)
}

/// The arguments of `add` from position `i` on, as the parse reads them:
/// an argument that takes a value is read together with the next one.
pub open spec fn add_items_from(args: Seq<Seq<char>>, i: int) -> Seq<AddItem>
    decreases args.len() - i,
{
    if i < 0 || i >= args.len() {
        Seq::empty()
    } else if takes_value(args[i]) {
        seq![(args[i], if i + 1 < args.len() { Some(args[i + 1]) } else { None })]
            + add_items_from(args, if i + 2 <= args.len() { i + 2 } else { args.len() as int })
    } else {
        seq![(args[i], None::<Seq<char>>)] + add_items_from(args, i + 1)
    }
}

/// Whether an item is a positional argument (not an option).
pub open spec fn is_positional(it: AddItem) -> bool {
    !starts_with(it.0, "-"@)
}

/// Whether an item is `-b` or `-B`.
pub open spec fn is_branch_flag(it: AddItem) -> bool {
    it.0 == "-b"@ || it.0 == "-B"@
}

/// The name of the option `a`: for `--name=value`, the part before `=`.
pub open spec fn option_name(a: Seq<char>) -> Seq<char> {
    if starts_with(a, "--"@) && first_index(a, '=') < a.len() {
        a.take(first_index(a, '='))
    } else {
        a
    }
}

/// Whether `add` reports the item: an option other than `-b`/`-B` whose
/// name is not one of the known no-op flags.
pub open spec fn is_reported(it: AddItem) -> bool {
    starts_with(it.0, "-"@) && !is_branch_flag(it) && !is_known_noop(it.0) && !is_known_noop(
        option_name(it.0),
    )
}

pub open spec fn positional_pred() -> spec_fn(AddItem) -> bool {
    |it: AddItem| is_positional(it)
}

pub open spec fn branch_flag_pred() -> spec_fn(AddItem) -> bool {
    |it: AddItem| is_branch_flag(it)
}

pub open spec fn reported_pred() -> spec_fn(AddItem) -> bool {
    |it: AddItem| is_reported(it)
}

/// The positional arguments among `items`, in order.
pub open spec fn positionals(items: Seq<AddItem>) -> Seq<Seq<char>> {
    items.filter(positional_pred()).map_values(|it: AddItem| it.0)
}

/// The `-b`/`-B` items among `items`, in order.
pub open spec fn branch_flags(items: Seq<AddItem>) -> Seq<AddItem> {
    items.filter(branch_flag_pred())
}

/// The items before the one that would be a third positional argument, when
/// `n` positional arguments came before `items`.
pub open spec fn before_third_positional(items: Seq<AddItem>, n: nat) -> Seq<AddItem>
    decreases items.len(),
{
    if items.len() == 0 {
        Seq::empty()
    } else if is_positional(items[0]) && n >= 2 {
        Seq::empty()
    } else {
        seq![items[0]] + before_third_positional(
            items.drop_first(),
            if is_positional(items[0]) {
                n + 1
            } else {
                n
            },
        )
    }
}

/// The names that `add` reports for `items`, in order, when `n` positional
/// arguments came before them: the parse stops at a third positional.
pub open spec fn reported_names(items: Seq<AddItem>, n: nat) -> Seq<Seq<char>> {
    before_third_positional(items, n).filter(reported_pred()).map_values(
        |it: AddItem| option_name(it.0),
    )
}

/// The value as a list of zero or one element.
pub open spec fn opt_seq(o: Option<Seq<char>>) -> Seq<Seq<char>> {
    match o {
        Some(x) => seq![x],
        None => Seq::empty(),
    }
}

/// Whether the items end with a `-b`/`-B` that lacks its value.
pub open spec fn dangling_branch(bs: Seq<AddItem>) -> bool {
    bs.len() > 0 && bs.last().1 is None
}

proof fn lemma_map_cons<A, B>(x: A, r: Seq<A>, g: spec_fn(A) -> B)
    ensures
        (seq![x] + r).map_values(g) == seq![g(x)] + r.map_values(g),
{
    assert((seq![x] + r).map_values(g) =~= seq![g(x)] + r.map_values(g));
}

/// What the parse of `add` yields from position `i` in state `s`, in closed
/// form over the items it reads.
pub open spec fn add_scan_closed(args: Seq<Seq<char>>, i: int, s: AddScan) -> bool {
    let items = add_items_from(args, i);
    let known = opt_seq(s.path) + opt_seq(s.commit_ish);
    let ps = known + positionals(items);
    let bs = branch_flags(items);
    let r = scan_add(args, i, s);
    &&& r.1 == s.unknown + reported_names(items, known.len())
    &&& (r.0 is Ok <==> 1 <= ps.len() <= 2 && !dangling_branch(bs))
    &&& (r.0 is Ok ==> r.0 == Ok::<AddParts, Seq<char>>(
        (
            ps[0],
            if bs.len() > 0 {
                bs.last().1
            } else {
                s.branch
            },
            if ps.len() == 2 {
                Some(ps[1])
            } else {
                None
            },
        ),
    ))
}

proof fn lemma_items_step(args: Seq<Seq<char>>, i: int)
    requires
        0 <= i < args.len(),
    ensures
        add_items_from(args, i) == seq![(
            args[i],
            if takes_value(args[i]) && i + 1 < args.len() {
                Some(args[i + 1])
            } else {
                None
            },
        )] + add_items_from(
            args,
            if takes_value(args[i]) {
                if i + 2 <= args.len() { i + 2 } else { args.len() as int }
            } else {
                i + 1
            },
        ),
{
}

proof fn lemma_cons_parts(it: AddItem, rest: Seq<AddItem>, n: nat)
    ensures
        positionals(seq![it] + rest) == (if is_positional(it) {
            seq![it.0]
        } else {
            Seq::empty()
        }) + positionals(rest),
        branch_flags(seq![it] + rest) == (if is_branch_flag(it) {
            seq![it]
        } else {
            Seq::empty()
        }) + branch_flags(rest),
        !is_positional(it) ==> reported_names(seq![it] + rest, n) == (if is_reported(it) {
            seq![option_name(it.0)]
        } else {
            Seq::empty()
        }) + reported_names(rest, n),
        is_positional(it) && n < 2 ==> reported_names(seq![it] + rest, n) == reported_names(
            rest,
            n + 1,
        ),
        is_positional(it) && n >= 2 ==> reported_names(seq![it] + rest, n) == Seq::<Seq<char>>::empty(),
{
    let items = seq![it] + rest;
    assert(items[0] == it);
    assert(items.drop_first() =~= rest);
    lemma_filter_cons(it, rest, positional_pred());
    lemma_filter_cons(it, rest, branch_flag_pred());
    let g = |x: AddItem| x.0;
    let h = |x: AddItem| option_name(x.0);
    if is_positional(it) {
        lemma_map_cons(it, rest.filter(positional_pred()), g);
        assert(seq![it] + rest.filter(positional_pred()) == (seq![it] + rest).filter(positional_pred()));
    } else {
        assert(Seq::<AddItem>::empty() + rest.filter(positional_pred()) =~= rest.filter(positional_pred()));
        assert(Seq::<Seq<char>>::empty() + positionals(rest) =~= positionals(rest));
    }
    if is_branch_flag(it) {
    } else {
        assert(Seq::<AddItem>::empty() + rest.filter(branch_flag_pred()) =~= rest.filter(branch_flag_pred()));
    }
    if !is_positional(it) {
        let b = before_third_positional(rest, n);
        assert(before_third_positional(items, n) == seq![it] + b);
        lemma_filter_cons(it, b, reported_pred());
        if is_reported(it) {
            lemma_map_cons(it, b.filter(reported_pred()), h);
        } else {
            assert(Seq::<AddItem>::empty() + b.filter(reported_pred()) =~= b.filter(reported_pred()));
            assert(Seq::<Seq<char>>::empty() + reported_names(rest, n) =~= reported_names(rest, n));
        }
    } else if n < 2 {
        let b = before_third_positional(rest, n + 1);
        assert(before_third_positional(items, n) == seq![it] + b);
        lemma_filter_cons(it, b, reported_pred());
        assert(Seq::<AddItem>::empty() + b.filter(reported_pred()) =~= b.filter(reported_pred()));
    } else {
        reveal(Seq::filter);
        assert(before_third_positional(items, n) == Seq::<AddItem>::empty());
        assert(Seq::<AddItem>::empty().filter(reported_pred()) =~= Seq::<AddItem>::empty());
        assert(reported_names(items, n) =~= Seq::<Seq<char>>::empty());
    }
}

proof fn lemma_empty_parts(n: nat)
    ensures
        positionals(Seq::<AddItem>::empty()) == Seq::<Seq<char>>::empty(),
        branch_flags(Seq::<AddItem>::empty()) == Seq::<AddItem>::empty(),
        reported_names(Seq::<AddItem>::empty(), n) == Seq::<Seq<char>>::empty(),
{
    reveal(Seq::filter);
    assert(Seq::<AddItem>::empty().filter(positional_pred()) =~= Seq::<AddItem>::empty());
    assert(Seq::<AddItem>::empty().filter(branch_flag_pred()) =~= Seq::<AddItem>::empty());
    assert(Seq::<AddItem>::empty().filter(reported_pred()) =~= Seq::<AddItem>::empty());
    assert(positionals(Seq::<AddItem>::empty()) =~= Seq::<Seq<char>>::empty());
    assert(reported_names(Seq::<AddItem>::empty(), n) =~= Seq::<Seq<char>>::empty());
}

/// An item that the parse passes over silently: the outcome is that of the
/// rest, in the same state.
proof fn lemma_closed_silent(args: Seq<Seq<char>>, i: int, s: AddScan, next: int, it: AddItem)
    requires
        scan_add(args, i, s) == scan_add(args, next, s),
        add_items_from(args, i) == seq![it] + add_items_from(args, next),
        !is_positional(it),
        !is_reported(it),
        !is_branch_flag(it),
        add_scan_closed(args, next, s),
    ensures
        add_scan_closed(args, i, s),
{
    let rest = add_items_from(args, next);
    let known = opt_seq(s.path) + opt_seq(s.commit_ish);
    lemma_cons_parts(it, rest, known.len());
    assert(Seq::<Seq<char>>::empty() + reported_names(rest, known.len()) =~= reported_names(rest, known.len()));
    assert(Seq::<AddItem>::empty() + branch_flags(rest) =~= branch_flags(rest));
    assert(Seq::<Seq<char>>::empty() + positionals(rest) =~= positionals(rest));
}

/// An option that the parse reports under `name` and then passes over.
proof fn lemma_closed_report(args: Seq<Seq<char>>, i: int, s: AddScan, it: AddItem, name: Seq<char>)
    requires
        scan_add(args, i, s) == scan_add(args, i + 1, AddScan { unknown: s.unknown.push(name), ..s }),
        add_items_from(args, i) == seq![it] + add_items_from(args, i + 1),
        !is_positional(it),
        is_reported(it),
        option_name(it.0) == name,
        !is_branch_flag(it),
        add_scan_closed(args, i + 1, AddScan { unknown: s.unknown.push(name), ..s }),
    ensures
        add_scan_closed(args, i, s),
{
    let rest = add_items_from(args, i + 1);
    let known = opt_seq(s.path) + opt_seq(s.commit_ish);
    lemma_cons_parts(it, rest, known.len());
    assert(s.unknown.push(name) + reported_names(rest, known.len()) =~= s.unknown + (seq![name]
        + reported_names(rest, known.len())));
    assert(Seq::<AddItem>::empty() + branch_flags(rest) =~= branch_flags(rest));
    assert(Seq::<Seq<char>>::empty() + positionals(rest) =~= positionals(rest));
}

/// `-b`/`-B` with its value.
proof fn lemma_closed_branch(args: Seq<Seq<char>>, i: int, s: AddScan, next: int, it: AddItem, v: Seq<char>)
    requires
        scan_add(args, i, s) == scan_add(args, next, AddScan { branch: Some(v), ..s }),
        add_items_from(args, i) == seq![it] + add_items_from(args, next),
        it.1 == Some(v),
        !is_positional(it),
        !is_reported(it),
        is_branch_flag(it),
        add_scan_closed(args, next, AddScan { branch: Some(v), ..s }),
    ensures
        add_scan_closed(args, i, s),
{
    let rest = add_items_from(args, next);
    let known = opt_seq(s.path) + opt_seq(s.commit_ish);
    lemma_cons_parts(it, rest, known.len());
    assert(Seq::<Seq<char>>::empty() + reported_names(rest, known.len()) =~= reported_names(rest, known.len()));
    assert(Seq::<Seq<char>>::empty() + positionals(rest) =~= positionals(rest));
    let bs = branch_flags(rest);
    assert((seq![it] + bs).last() == (if bs.len() > 0 { bs.last() } else { it }));
}

/// `-b`/`-B` as the last argument, without its value.
proof fn lemma_closed_branch_last(args: Seq<Seq<char>>, i: int, s: AddScan, it: AddItem)
    requires
        scan_add(args, i, s) == (Err::<AddParts, Seq<char>>("-b requires a branch name"@), s.unknown),
        add_items_from(args, i) == seq![it],
        it.1 is None,
        !is_positional(it),
        !is_reported(it),
        is_branch_flag(it),
    ensures
        add_scan_closed(args, i, s),
{
    let known = opt_seq(s.path) + opt_seq(s.commit_ish);
    let e = Seq::<AddItem>::empty();
    assert(seq![it] + e =~= seq![it]);
    lemma_empty_parts(known.len());
    lemma_cons_parts(it, e, known.len());
    assert(branch_flags(seq![it] + e) =~= seq![it]);
    assert(s.unknown + reported_names(seq![it] + e, known.len()) =~= s.unknown);
}

/// A positional argument taken as the path or the commit-ish.
proof fn lemma_closed_positional(args: Seq<Seq<char>>, i: int, s: AddScan, s2: AddScan, it: AddItem)
    requires
        scan_add(args, i, s) == scan_add(args, i + 1, s2),
        add_items_from(args, i) == seq![it] + add_items_from(args, i + 1),
        is_positional(it),
        !is_branch_flag(it),
        s2.unknown == s.unknown,
        s2.branch == s.branch,
        opt_seq(s2.path) + opt_seq(s2.commit_ish) == opt_seq(s.path) + opt_seq(s.commit_ish) + seq![it.0],
        (opt_seq(s.path) + opt_seq(s.commit_ish)).len() < 2,
        add_scan_closed(args, i + 1, s2),
    ensures
        add_scan_closed(args, i, s),
{
    let rest = add_items_from(args, i + 1);
    let known = opt_seq(s.path) + opt_seq(s.commit_ish);
    lemma_cons_parts(it, rest, known.len());
    assert(Seq::<AddItem>::empty() + branch_flags(rest) =~= branch_flags(rest));
    assert(known + (seq![it.0] + positionals(rest)) =~= (known + seq![it.0]) + positionals(rest));
}

/// A third positional argument: the parse stops.
proof fn lemma_closed_third(args: Seq<Seq<char>>, i: int, s: AddScan, it: AddItem)
    requires
        scan_add(args, i, s) == (Err::<AddParts, Seq<char>>("unexpected argument: "@ + it.0), s.unknown),
        add_items_from(args, i) == seq![it] + add_items_from(args, i + 1),
        is_positional(it),
        (opt_seq(s.path) + opt_seq(s.commit_ish)).len() == 2,
    ensures
        add_scan_closed(args, i, s),
{
    let rest = add_items_from(args, i + 1);
    let known = opt_seq(s.path) + opt_seq(s.commit_ish);
    lemma_cons_parts(it, rest, known.len());
    assert(s.unknown + Seq::<Seq<char>>::empty() =~= s.unknown);
    assert((known + (seq![it.0] + positionals(rest))).len() >= 3);
}

proof fn lemma_scan_add_closed(args: Seq<Seq<char>>, i: int, s: AddScan)
    requires
        0 <= i,
        s.commit_ish is Some ==> s.path is Some,
    ensures
        add_scan_closed(args, i, s),
    decreases args.len() - i,
{
    let known = opt_seq(s.path) + opt_seq(s.commit_ish);
    if i >= args.len() {
        lemma_empty_parts(known.len());
        let items = add_items_from(args, i);
        assert(items == Seq::<AddItem>::empty());
        assert(known + positionals(items) =~= known);
        assert(s.unknown + reported_names(items, known.len()) =~= s.unknown);
    } else {
        reveal_strlit("-");
        reveal_strlit("--");
        reveal_strlit("-b");
        reveal_strlit("-B");
        let a = args[i];
        lemma_items_step(args, i);
        let skip_two = if i + 2 <= args.len() { i + 2 } else { args.len() as int };
        let it: AddItem = (a, if takes_value(a) && i + 1 < args.len() { Some(args[i + 1]) } else { None });
        if a == "-b"@ || a == "-B"@ {
            assert(a.take(1) =~= "-"@);
            if i + 1 >= args.len() {
                assert(add_items_from(args, skip_two) == Seq::<AddItem>::empty());
                assert(seq![it] + Seq::<AddItem>::empty() =~= seq![it]);
                lemma_closed_branch_last(args, i, s, it);
            } else {
                let s2 = AddScan { branch: Some(args[i + 1]), ..s };
                lemma_scan_add_closed(args, skip_two, s2);
                lemma_closed_branch(args, i, s, skip_two, it, args[i + 1]);
            }
        } else if is_known_switch(a) {
            reveal_strlit("--track");
            reveal_strlit("--no-track");
            reveal_strlit("--lock");
            reveal_strlit("--guess-remote");
            reveal_strlit("--no-guess-remote");
            reveal_strlit("--detach");
            reveal_strlit("--reason");
            assert(a.take(1) =~= "-"@);
            assert("--reason"@[2] == 'r');
            assert("--detach"@[2] == 'd');
            assert(!is_known_valued(a));
            assert(!takes_value(a));
            lemma_scan_add_closed(args, i + 1, s);
            lemma_closed_silent(args, i, s, i + 1, it);
        } else if is_known_valued(a) {
            reveal_strlit("--reason");
            assert(a.take(1) =~= "-"@);
            lemma_scan_add_closed(args, skip_two, s);
            lemma_closed_silent(args, i, s, skip_two, it);
        } else if starts_with(a, "--"@) && first_index(a, '=') < a.len() {
            assert(starts_with(a, "-"@)) by {
                assert(a.take(2)[0] == a[0]);
                assert(a.take(1) =~= "-"@);
            }
            let name = a.take(first_index(a, '='));
            assert(option_name(a) == name);
            if is_known_noop(name) {
                lemma_scan_add_closed(args, i + 1, s);
                lemma_closed_silent(args, i, s, i + 1, it);
            } else {
                let s2 = AddScan { unknown: s.unknown.push(name), ..s };
                lemma_scan_add_closed(args, i + 1, s2);
                lemma_closed_report(args, i, s, it, name);
            }
        } else if starts_with(a, "-"@) {
            assert(option_name(a) == a);
            let s2 = AddScan { unknown: s.unknown.push(a), ..s };
            lemma_scan_add_closed(args, i + 1, s2);
            lemma_closed_report(args, i, s, it, a);
        } else {
            if s.path is None {
                let s2 = AddScan { path: Some(a), ..s };
                lemma_scan_add_closed(args, i + 1, s2);
                assert(opt_seq(s2.path) + opt_seq(s2.commit_ish) =~= known + seq![a]);
                lemma_closed_positional(args, i, s, s2, it);
            } else if s.commit_ish is None {
                let s2 = AddScan { commit_ish: Some(a), ..s };
                lemma_scan_add_closed(args, i + 1, s2);
                assert(opt_seq(s2.path) + opt_seq(s2.commit_ish) =~= known + seq![a]);
                lemma_closed_positional(args, i, s, s2, it);
            } else {
                lemma_closed_third(args, i, s, it);
            }
        }
    }
}

/// The options that `add` reports are, in order, the names (for
/// `--name=value`, the part before `=`) of the options it reads that are
/// neither `-b`/`-B` nor known no-op flags, up to the point where a third
/// positional argument stops the parse.
pub proof fn law_add_reports(args: Seq<Seq<char>>)
    ensures
        add_args(args).1 == reported_names(add_items_from(args, 0), 0),
{
    let init = AddScan { path: None, branch: None, commit_ish: None, unknown: Seq::empty() };
    lemma_scan_add_closed(args, 0, init);
    assert(opt_seq(init.path) + opt_seq(init.commit_ish) =~= Seq::<Seq<char>>::empty());
    assert(Seq::<Seq<char>>::empty() + reported_names(add_items_from(args, 0), 0) =~= reported_names(
        add_items_from(args, 0),
        0,
    ));
}

/// `add` accepts its arguments exactly when it reads one or two positional
/// arguments and no `-b`/`-B` lacks its value. Then the first positional is
/// the path, the second (if any) the commit-ish, and the branch is the value
/// of the last `-b`/`-B`, if any.
pub proof fn law_add_shape(args: Seq<Seq<char>>)
    ensures
        add_args(args).0 is Ok <==> 1 <= positionals(add_items_from(args, 0)).len() <= 2
            && !dangling_branch(branch_flags(add_items_from(args, 0))),
        add_args(args).0 is Ok ==> add_args(args).0 == Ok::<AddParts, Seq<char>>(
            (
                positionals(add_items_from(args, 0))[0],
                if branch_flags(add_items_from(args, 0)).len() > 0 {
                    branch_flags(add_items_from(args, 0)).last().1
                } else {
                    None
                },
                if positionals(add_items_from(args, 0)).len() == 2 {
                    Some(positionals(add_items_from(args, 0))[1])
                } else {
                    None
                },
            ),
        ),
{
    let init = AddScan { path: None, branch: None, commit_ish: None, unknown: Seq::empty() };
    lemma_scan_add_closed(args, 0, init);
    let known = opt_seq(init.path) + opt_seq(init.commit_ish);
    assert(known =~= Seq::<Seq<char>>::empty());
    assert(known + positionals(add_items_from(args, 0)) =~= positionals(add_items_from(args, 0)));
}

/// Only `-b`, `-B` and `--reason` take the next argument as their value: any
/// other option followed by a positional argument leaves that argument to be
/// the path, with no branch and no commit-ish.
pub proof fn law_only_branch_and_reason_take_values(o: Seq<char>, p: Seq<char>)
    requires
        starts_with(o, "-"@),
        o != "-b"@,
        o != "-B"@,
        o != "--reason"@,
        !starts_with(p, "-"@),
    ensures
        add_args(seq![o, p]).0 == Ok::<AddParts, Seq<char>>((p, None, None)),
{
    reveal_strlit("-");
    reveal_strlit("--");
    reveal_strlit("-b");
    reveal_strlit("-B");
    reveal_strlit("--reason");
    reveal_strlit("--track");
    reveal_strlit("--no-track");
    reveal_strlit("--lock");
    reveal_strlit("--guess-remote");
    reveal_strlit("--no-guess-remote");
    reveal_strlit("--detach");
    let args = seq![o, p];
    assert(args[0] == o && args[1] == p);
    lemma_non_option(p);
    assert(!is_known_valued(o));
    // Whatever the first argument is, the scan goes on at the second in a
    // state without a path.
    lemma_positional_last(args, p, seq![o]);
    lemma_positional_last(args, p, Seq::empty());
    if starts_with(o, "--"@) && first_index(o, '=') < o.len() {
        lemma_positional_last(args, p, seq![o.take(first_index(o, '='))]);
    }
}

/// An argument that does not begin with `-` is none of the options of
/// `add` or `remove`.
proof fn lemma_non_option(p: Seq<char>)
    requires
        !starts_with(p, "-"@),
    ensures
        p != "-b"@ && p != "-B"@ && !is_known_switch(p) && !is_known_valued(p),
        p != "--force"@,
        !starts_with(p, "--"@),
{
    reveal_strlit("-");
    reveal_strlit("--");
    reveal_strlit("-b");
    reveal_strlit("-B");
    reveal_strlit("--reason");
    reveal_strlit("--track");
    reveal_strlit("--no-track");
    reveal_strlit("--lock");
    reveal_strlit("--guess-remote");
    reveal_strlit("--no-guess-remote");
    reveal_strlit("--detach");
    reveal_strlit("--force");
    assert("-b"@.take(1) =~= "-"@);
    assert("-B"@.take(1) =~= "-"@);
    assert("--reason"@.take(1) =~= "-"@);
    assert("--track"@.take(1) =~= "-"@);
    assert("--no-track"@.take(1) =~= "-"@);
    assert("--lock"@.take(1) =~= "-"@);
    assert("--guess-remote"@.take(1) =~= "-"@);
    assert("--no-guess-remote"@.take(1) =~= "-"@);
    assert("--detach"@.take(1) =~= "-"@);
    assert("--force"@.take(1) =~= "-"@);
    if starts_with(p, "--"@) {
        assert(p.take(2)[0] == p[0]);
        assert(p.take(1) =~= "-"@);
    }
}

proof fn lemma_positional_last(args: Seq<Seq<char>>, p: Seq<char>, u: Seq<Seq<char>>)
    requires
        args.len() == 2,
        args[1] == p,
        p != "-b"@ && p != "-B"@ && !is_known_switch(p) && !is_known_valued(p),
        !starts_with(p, "--"@),
        !starts_with(p, "-"@),
    ensures
        scan_add(args, 1, AddScan { path: None, branch: None, commit_ish: None, unknown: u }).0
            == Ok::<AddParts, Seq<char>>((p, None, None)),
{
    let s = AddScan { path: None, branch: None, commit_ish: None, unknown: u };
    assert(scan_add(args, 2, AddScan { path: Some(p), ..s }).0 == Ok::<AddParts, Seq<char>>((p, None, None)));
}

/// The forms of `add`: a path, then an optional commit-ish; `-b`/`-B` take
/// the branch from the next argument wherever they stand; `--reason` takes
/// a value that is dropped; no path, a third positional argument, or a
/// `-b` without its value are refused.
pub proof fn law_add_argument_forms(p: Seq<char>, c: Seq<char>, x: Seq<char>, b: Seq<char>, v: Seq<char>)
    requires
        !starts_with(p, "-"@),
        !starts_with(c, "-"@),
        !starts_with(x, "-"@),
    ensures
        add_args(seq![p]) == (Ok::<AddParts, Seq<char>>((p, None, None)), Seq::<Seq<char>>::empty()),
        add_args(seq![p, c]) == (Ok::<AddParts, Seq<char>>((p, None, Some(c))), Seq::<Seq<char>>::empty()),
        add_args(seq!["-b"@, b, p]) == (Ok::<AddParts, Seq<char>>((p, Some(b), None)), Seq::<Seq<char>>::empty()),
        add_args(seq![p, "-B"@, b]) == (Ok::<AddParts, Seq<char>>((p, Some(b), None)), Seq::<Seq<char>>::empty()),
        add_args(seq!["--reason"@, v, p]) == (Ok::<AddParts, Seq<char>>((p, None, None)), Seq::<Seq<char>>::empty()),
        add_args(seq![p, c, x]) == (Err::<AddParts, Seq<char>>("unexpected argument: "@ + x), Seq::<Seq<char>>::empty()),
        add_args(Seq::empty()) == (Err::<AddParts, Seq<char>>("missing required argument: <path>"@), Seq::<Seq<char>>::empty()),
        add_args(seq![p, "-b"@]) == (Err::<AddParts, Seq<char>>("-b requires a branch name"@), Seq::<Seq<char>>::empty()),
{
    reveal_strlit("-b");
    reveal_strlit("-B");
    reveal_strlit("--reason");
    lemma_non_option(p);
    lemma_non_option(c);
    lemma_non_option(x);
    let e = Seq::<Seq<char>>::empty();
    let init = AddScan { path: None, branch: None, commit_ish: None, unknown: e };
    let sp = AddScan { path: Some(p), ..init };
    let spc = AddScan { commit_ish: Some(c), ..sp };
    // p
    let a1 = seq![p];
    assert(a1[0] == p);
    assert(scan_add(a1, 1, sp) == add_outcome(sp));
    // p c
    let a2 = seq![p, c];
    assert(a2[0] == p && a2[1] == c);
    assert(scan_add(a2, 2, spc) == add_outcome(spc));
    assert(scan_add(a2, 1, sp) == scan_add(a2, 2, spc));
    // -b b p
    let a3 = seq!["-b"@, b, p];
    assert(a3[0] == "-b"@ && a3[1] == b && a3[2] == p);
    let sb = AddScan { branch: Some(b), ..init };
    let sbp = AddScan { path: Some(p), ..sb };
    assert(scan_add(a3, 3, sbp) == add_outcome(sbp));
    assert(scan_add(a3, 2, sb) == scan_add(a3, 3, sbp));
    // p -B b
    let a4 = seq![p, "-B"@, b];
    assert(a4[0] == p && a4[1] == "-B"@ && a4[2] == b);
    let spb = AddScan { branch: Some(b), ..sp };
    assert(scan_add(a4, 3, spb) == add_outcome(spb));
    assert(scan_add(a4, 1, sp) == scan_add(a4, 3, spb));
    // --reason v p
    let a5 = seq!["--reason"@, v, p];
    assert(a5[0] == "--reason"@ && a5[1] == v && a5[2] == p);
    assert("-b"@.len() == 2 && "-B"@.len() == 2 && "--reason"@.len() == 8);
    assert("-b"@ != "--reason"@ && "-B"@ != "--reason"@);
    reveal_strlit("--track");
    reveal_strlit("--no-track");
    reveal_strlit("--lock");
    reveal_strlit("--guess-remote");
    reveal_strlit("--no-guess-remote");
    reveal_strlit("--detach");
    assert("--reason"@[2] == 'r' && "--detach"@[2] == 'd');
    assert(!is_known_switch("--reason"@));
    assert(scan_add(a5, 0, init) == scan_add(a5, 2, init));
    assert(scan_add(a5, 3, sp) == add_outcome(sp));
    assert(scan_add(a5, 2, init) == scan_add(a5, 3, sp));
    // p c x
    let a6 = seq![p, c, x];
    assert(a6[0] == p && a6[1] == c && a6[2] == x);
    assert(scan_add(a6, 1, sp) == scan_add(a6, 2, spc));
    // p -b
    let a8 = seq![p, "-b"@];
    assert(a8[0] == p && a8[1] == "-b"@);
    assert(scan_add(a8, 0, init) == scan_add(a8, 1, sp));
}

/// The flags `--track`, `--no-track`, `--lock`, `--guess-remote`,
/// `--no-guess-remote` and `--detach` are accepted silently: before a path
/// they change nothing and nothing is reported.
pub proof fn law_noop_flags_are_silent(f: Seq<char>, p: Seq<char>)
    requires
        f == "--track"@ || f == "--no-track"@ || f == "--lock"@ || f == "--guess-remote"@ || f
            == "--no-guess-remote"@ || f == "--detach"@,
        !starts_with(p, "-"@),
    ensures
        add_args(seq![f, p]) == (Ok::<AddParts, Seq<char>>((p, None, None)), Seq::<Seq<char>>::empty()),
{
    reveal_strlit("-b");
    reveal_strlit("-B");
    reveal_strlit("--track");
    reveal_strlit("--no-track");
    reveal_strlit("--lock");
    reveal_strlit("--guess-remote");
    reveal_strlit("--no-guess-remote");
    reveal_strlit("--detach");
    lemma_non_option(p);
    let args = seq![f, p];
    assert(args[0] == f && args[1] == p);
    let init = AddScan { path: None, branch: None, commit_ish: None, unknown: Seq::empty() };
    assert("-b"@.len() == 2 && "-B"@.len() == 2);
    assert(f.len() > 2);
    assert(f != "-b"@ && f != "-B"@);
    lemma_positional_last(args, p, Seq::empty());
    let sp = AddScan { path: Some(p), ..init };
    assert(scan_add(args, 2, sp) == add_outcome(sp));
    assert(scan_add(args, 1, init) == scan_add(args, 2, sp));
}

/// Any other option, written without `=`, is accepted as a no-op, takes no
/// value, and is reported under its own name.
pub proof fn law_unknown_option_is_reported(o: Seq<char>, p: Seq<char>)
    requires
        starts_with(o, "-"@),
        !o.contains('='),
        o != "-b"@ && o != "-B"@ && o != "--reason"@,
        o != "--track"@ && o != "--no-track"@ && o != "--lock"@ && o != "--guess-remote"@ && o
            != "--no-guess-remote"@ && o != "--detach"@,
        !starts_with(p, "-"@),
    ensures
        add_args(seq![o, p]) == (Ok::<AddParts, Seq<char>>((p, None, None)), seq![o]),
{
    lemma_non_option(p);
    let args = seq![o, p];
    assert(args[0] == o && args[1] == p);
    let init = AddScan { path: None, branch: None, commit_ish: None, unknown: Seq::empty() };
    assert forall|j: int| 0 <= j < o.len() implies o[j] != '=' by {
        if o[j] == '=' {
            assert(o.contains('='));
        }
    }
    crate::text::lemma_first_index(o, '=', o.len() as int);
    let su = AddScan { unknown: seq![o], ..init };
    assert(init.unknown.push(o) =~= seq![o]);
    let sup = AddScan { path: Some(p), ..su };
    assert(scan_add(args, 2, sup) == add_outcome(sup));
    assert(scan_add(args, 1, su) == scan_add(args, 2, sup));
}

/// An option `--<name>=<value>` is reported under `--<name>`, unless that is
/// one of the known no-op flags.
pub proof fn law_option_with_value_reported_by_name(n: Seq<char>, v: Seq<char>, p: Seq<char>)
    requires
        starts_with(n, "--"@),
        !n.contains('='),
        !starts_with(p, "-"@),
    ensures
        (n == "--track"@ || n == "--no-track"@ || n == "--lock"@ || n == "--guess-remote"@ || n
            == "--no-guess-remote"@ || n == "--detach"@ || n == "--reason"@) ==> add_args(
            seq![n + "="@ + v, p],
        ) == (Ok::<AddParts, Seq<char>>((p, None, None)), Seq::<Seq<char>>::empty()),
        !(n == "--track"@ || n == "--no-track"@ || n == "--lock"@ || n == "--guess-remote"@ || n
            == "--no-guess-remote"@ || n == "--detach"@ || n == "--reason"@) ==> add_args(
            seq![n + "="@ + v, p],
        ) == (Ok::<AddParts, Seq<char>>((p, None, None)), seq![n]),
{
    reveal_strlit("=");
    reveal_strlit("-");
    reveal_strlit("--");
    lemma_non_option(p);
    let o = n + "="@ + v;
    let args = seq![o, p];
    assert(args[0] == o && args[1] == p);
    assert(o.take(2) =~= n.take(2));
    assert(starts_with(o, "--"@));
    assert forall|j: int| 0 <= j < n.len() implies o[j] != '=' by {
        assert(o[j] == n[j]);
        if n[j] == '=' {
            assert(n.contains('='));
        }
    }
    assert(o[n.len() as int] == '=');
    crate::text::lemma_first_index(o, '=', n.len() as int);
    assert(o.take(n.len() as int) =~= n);
    // `o` holds `=`, so it is none of the flags themselves.
    assert(o.contains('='));
    lemma_flags_have_no_equals(o);
    let init = AddScan { path: None, branch: None, commit_ish: None, unknown: Seq::empty() };
    lemma_positional_last(args, p, Seq::empty());
    lemma_positional_last(args, p, seq![n]);
    assert(init.unknown.push(n) =~= seq![n]);
    assert(scan_add(args, 0, init) == (if is_known_noop(n) {
        scan_add(args, 1, init)
    } else {
        scan_add(args, 1, AddScan { unknown: init.unknown.push(n), ..init })
    }));
    lemma_positional_after_equals(args, p, n);
}

proof fn lemma_positional_after_equals(args: Seq<Seq<char>>, p: Seq<char>, n: Seq<char>)
    requires
        args.len() == 2,
        args[1] == p,
        !starts_with(p, "-"@),
    ensures
        scan_add(args, 1, AddScan { path: None, branch: None, commit_ish: None, unknown: Seq::empty() }).1
            == Seq::<Seq<char>>::empty(),
        scan_add(args, 1, AddScan { path: None, branch: None, commit_ish: None, unknown: seq![n] }).1
            == seq![n],
{
    lemma_non_option(p);
    let s0 = AddScan { path: None, branch: None, commit_ish: None, unknown: Seq::<Seq<char>>::empty() };
    let s1 = AddScan { path: None, branch: None, commit_ish: None, unknown: seq![n] };
    assert(scan_add(args, 2, AddScan { path: Some(p), ..s0 }).1 == Seq::<Seq<char>>::empty());
    assert(scan_add(args, 2, AddScan { path: Some(p), ..s1 }).1 == seq![n]);
}

proof fn lemma_flags_have_no_equals(o: Seq<char>)
    requires
        o.contains('='),
    ensures
        o != "-b"@ && o != "-B"@ && !is_known_switch(o) && !is_known_valued(o),
{
    reveal_strlit("-b");
    reveal_strlit("-B");
    reveal_strlit("--reason");
    reveal_strlit("--track");
    reveal_strlit("--no-track");
    reveal_strlit("--lock");
    reveal_strlit("--guess-remote");
    reveal_strlit("--no-guess-remote");
    reveal_strlit("--detach");
    let j = choose|j: int| 0 <= j < o.len() && o[j] == '=';
    assert(o[j] == '=');
}

/// The worktree commands: `add`, `list` and `remove` take the arguments
/// that follow their name; no command, or any other word, is refused.
pub proof fn law_worktree_command_words(rest: Seq<Seq<char>>, w: Seq<char>)
    ensures
        worktree_command(seq!["add"@] + rest) == Ok::<CommandSpec, Seq<char>>(CommandSpec::Add(rest)),
        worktree_command(seq!["list"@] + rest) == Ok::<CommandSpec, Seq<char>>(CommandSpec::List(rest)),
        worktree_command(seq!["remove"@] + rest) == Ok::<CommandSpec, Seq<char>>(
            CommandSpec::Remove(rest),
        ),
        worktree_command(Seq::empty()) == Err::<CommandSpec, Seq<char>>("no subcommand provided"@),
        w != "add"@ && w != "list"@ && w != "remove"@ ==> worktree_command(seq![w] + rest) == Err::<
            CommandSpec,
            Seq<char>,
        >("unknown worktree subcommand: "@ + w),
{
    reveal_strlit("add");
    reveal_strlit("list");
    reveal_strlit("remove");
    assert((seq!["add"@] + rest)[0] == "add"@ && (seq!["add"@] + rest).skip(1) =~= rest);
    assert((seq!["list"@] + rest)[0] == "list"@ && (seq!["list"@] + rest).skip(1) =~= rest);
    assert((seq!["remove"@] + rest)[0] == "remove"@ && (seq!["remove"@] + rest).skip(1) =~= rest);
    assert((seq![w] + rest)[0] == w);
}

/// The forms of `remove`: one path, with `--force` before or after it;
/// any other option, a second path, or no path is refused.
pub proof fn law_remove_argument_forms(p: Seq<char>, q: Seq<char>, o: Seq<char>)
    requires
        !starts_with(p, "-"@),
        !starts_with(q, "-"@),
    ensures
        scan_remove(seq![p], 0, false, None) == Ok::<(bool, Seq<char>), Seq<char>>((false, p)),
        scan_remove(seq!["--force"@, p], 0, false, None) == Ok::<(bool, Seq<char>), Seq<char>>((true, p)),
        scan_remove(seq![p, "--force"@], 0, false, None) == Ok::<(bool, Seq<char>), Seq<char>>((true, p)),
        scan_remove(Seq::empty(), 0, false, None) == Err::<(bool, Seq<char>), Seq<char>>(
            "missing required argument: <path>"@,
        ),
        scan_remove(seq![p, q], 0, false, None) == Err::<(bool, Seq<char>), Seq<char>>(
            "unexpected argument: "@ + q,
        ),
        starts_with(o, "-"@) && o != "--force"@ ==> scan_remove(seq![o, p], 0, false, None) == Err::<
            (bool, Seq<char>),
            Seq<char>,
        >("unknown option: "@ + o),
{
    reveal_strlit("--force");
    reveal_strlit("-");
    lemma_non_option(p);
    lemma_non_option(q);
    assert("--force"@.take(1) =~= "-"@);
    let a1 = seq![p];
    assert(a1[0] == p);
    assert(scan_remove(a1, 1, false, Some(p)) == Ok::<(bool, Seq<char>), Seq<char>>((false, p)));
    let a2 = seq!["--force"@, p];
    assert(a2[0] == "--force"@ && a2[1] == p);
    assert(scan_remove(a2, 2, true, Some(p)) == Ok::<(bool, Seq<char>), Seq<char>>((true, p)));
    assert(scan_remove(a2, 1, true, None) == scan_remove(a2, 2, true, Some(p)));
    let a3 = seq![p, "--force"@];
    assert(a3[0] == p && a3[1] == "--force"@);
    assert(scan_remove(a3, 2, true, Some(p)) == Ok::<(bool, Seq<char>), Seq<char>>((true, p)));
    assert(scan_remove(a3, 1, false, Some(p)) == scan_remove(a3, 2, true, Some(p)));
    let a4 = seq![p, q];
    assert(a4[0] == p && a4[1] == q);
    assert(scan_remove(a4, 0, false, None) == scan_remove(a4, 1, false, Some(p)));
    let a5 = seq![o, p];
    assert(a5[0] == o);
}

/// A worktree command and the arguments that follow its name.
pub enum CommandSpec {
    Add(Seq<Seq<char>>),
    List(Seq<Seq<char>>),
    Remove(Seq<Seq<char>>),
}

/// A worktree command and the arguments that follow its name.
pub enum WorktreeCommand {
    Add(Vec<String>),
    List(Vec<String>),
    Remove(Vec<String>),
}

impl View for WorktreeCommand {
    type V = CommandSpec;

    open spec fn view(&self) -> CommandSpec {
        match self {
            WorktreeCommand::Add(a) => CommandSpec::Add(strs(a@)),
            WorktreeCommand::List(a) => CommandSpec::List(strs(a@)),
            WorktreeCommand::Remove(a) => CommandSpec::Remove(strs(a@)),
        }
    }
}

/// The command named by `args[0]`, or why there is none.
pub open spec fn worktree_command(args: Seq<Seq<char>>) -> Result<CommandSpec, Seq<char>> {
    if args.len() == 0 {
        Err("no subcommand provided"@)
    } else {
        let rest = args.skip(1);
        if args[0] == "add"@ {
            Ok(CommandSpec::Add(rest))
        } else if args[0] == "list"@ {
            Ok(CommandSpec::List(rest))
        } else if args[0] == "remove"@ {
            Ok(CommandSpec::Remove(rest))
        } else {
            Err("unknown worktree subcommand: "@ + args[0])
        }
    }
}

/// Selects the worktree command; `args[0]` is its name.
pub fn run(args: &[String]) -> (r: Result<WorktreeCommand, String>)
    ensures
        match r {
            Ok(c) => worktree_command(strs(args@)) == Ok::<CommandSpec, Seq<char>>(c@),
            Err(m) => worktree_command(strs(args@)) == Err::<CommandSpec, Seq<char>>(m@),
        },
{
    if args.len() == 0 {
        return Err(String::from_str("no subcommand provided"));
    }
    let name = chars_of(args[0].as_str());
    let rest = tail_from(args, 1);
    if same_as(&name, "add") {
        Ok(WorktreeCommand::Add(rest))
    } else if same_as(&name, "list") {
        Ok(WorktreeCommand::List(rest))
    } else if same_as(&name, "remove") {
        Ok(WorktreeCommand::Remove(rest))
    } else {
        let mut m = String::from_str("unknown worktree subcommand: ");
        m.append(args[0].as_str());
        Err(m)
    }
}

/// The workspace named on one line of `jj workspace list`
/// (`<name>: <change-id> <description>`), if any.
pub open spec fn listed_name(line: Seq<char>) -> Option<Seq<char>> {
    let t = trim(line);
    let n = trim(t.take(first_index(t, ':')));
    if t.len() == 0 || n.len() == 0 {
        None
    } else {
        Some(n)
    }
}

/// The workspace names on the lines `ls`, in order.
pub open spec fn listed_names(ls: Seq<Seq<char>>) -> Seq<Seq<char>>
    decreases ls.len(),
{
    if ls.len() == 0 {
        Seq::empty()
    } else {
        let init = listed_names(ls.drop_last());
        match listed_name(ls.last()) {
            Some(n) => init.push(n),
            None => init,
        }
    }
}

/// Whether `n` can stand as a workspace name at the start of a line of
/// `jj workspace list`: not empty, without `:`, and without white space at
/// either end.
pub open spec fn is_plain_name(n: Seq<char>) -> bool {
    n.len() > 0 && !n.contains(':') && !is_space(n[0]) && !is_space(n.last())
}

/// The workspace named on a line of `jj workspace list` is the text before
/// the line's first `:`: for `<n>:<rest>` with `n` a plain name, it is `n`,
/// whatever `<rest>` holds (colons in a description too).
pub proof fn law_workspace_name_before_first_colon(n: Seq<char>, rest: Seq<char>)
    requires
        is_plain_name(n),
    ensures
        listed_name(n + ":"@ + rest) == Some(n),
{
    reveal_strlit(":");
    let a = n + ":"@;
    let line = a + rest;
    assert(line[0] == n[0]);
    assert(trim_start(line) == line);
    assert(a.last() == ':');
    lemma_trim_end_after(a, rest);
    let t = trim(line);
    assert(t == a + trim_end(rest));
    assert forall|j: int| 0 <= j < n.len() implies t[j] != ':' by {
        assert(t[j] == n[j]);
        if n[j] == ':' {
            assert(n.contains(':'));
        }
    }
    assert(t[n.len() as int] == ':');
    crate::text::lemma_first_index(t, ':', n.len() as int);
    assert(t.take(n.len() as int) =~= n);
    assert(trim_start(n) == n);
    assert(trim_end(n) == n);
}

/// Lines of the form `<n>:<rest>`, with plain names `n`, list exactly those
/// names, in order.
pub proof fn law_workspace_names_before_first_colon(
    ls: Seq<Seq<char>>,
    ns: Seq<Seq<char>>,
    rests: Seq<Seq<char>>,
)
    requires
        ls.len() == ns.len() == rests.len(),
        forall|k: int| 0 <= k < ns.len() ==> is_plain_name(#[trigger] ns[k]),
        forall|k: int| 0 <= k < ls.len() ==> #[trigger] ls[k] == ns[k] + ":"@ + rests[k],
    ensures
        listed_names(ls) == ns,
    decreases ls.len(),
{
    if ls.len() == 0 {
        assert(ns =~= Seq::<Seq<char>>::empty());
    } else {
        let k = ls.len() - 1;
        law_workspace_names_before_first_colon(ls.drop_last(), ns.drop_last(), rests.drop_last());
        assert(ls.last() == ls[k]);
        law_workspace_name_before_first_colon(ns[k], rests[k]);
        assert(ns.drop_last().push(ns[k]) =~= ns);
    }
}

/// The workspace names in the output of `jj workspace list`.
pub fn parse_workspace_names(ws_list_output: &str) -> (r: Vec<String>)
    ensures
        strs(r@) == listed_names(lines(ws_list_output@)),
{
    let chars = chars_of(ws_list_output);
    let ls = lines_of(&chars);
    let ghost lv = views(ls@);
    let mut out: Vec<String> = Vec::new();
    let mut i: usize = 0;
    assert(strs(out@) =~= Seq::<Seq<char>>::empty());
    while i < ls.len()
        invariant
            lv == views(ls@),
            lv == lines(ws_list_output@),
            i <= ls@.len(),
            strs(out@) == listed_names(lv.take(i as int)),
        decreases ls@.len() - i,
    {
        assert(lv.take(i + 1).drop_last() =~= lv.take(i as int));
        assert(lv.take(i + 1).last() == ls@[i as int]@);
        let t = trimmed(&ls[i]);
        let k = find_char(&t, ':');
        let head = slice_chars(&t, 0, k);
        assert(head@ =~= t@.take(first_index(t@, ':')));
        let n = trimmed(&head);
        if t.len() > 0 && n.len() > 0 {
            let ghost before = strs(out@);
            out.push(string_of(&n));
            assert(strs(out@) =~= before.push(n@));
        }
        i = i + 1;
    }
    assert(lv.take(i as int) =~= lv);
    out
}

/// Whether `list` was given an option (anything beginning with `-` other
/// than `--`).
pub open spec fn list_has_option(args: Seq<Seq<char>>) -> bool {
    exists|i: int| 0 <= i < args.len() && starts_with(#[trigger] args[i], "-"@) && args[i] != "--"@
}

/// Checks that `list` was given no option.
pub fn check_list_args(args: &[String]) -> (r: Result<(), String>)
    ensures
        r is Ok <==> !list_has_option(strs(args@)),
        r matches Err(m) ==> m@ == "list takes no options"@,
{
    let ghost argv = strs(args@);
    let mut i: usize = 0;
    while i < args.len()
        invariant
            argv == strs(args@),
            i <= args@.len(),
            forall|j: int| 0 <= j < i ==> !(starts_with(#[trigger] argv[j], "-"@) && argv[j] != "--"@),
        decreases args@.len() - i,
    {
        let a = chars_of(args[i].as_str());
        assert(a@ == argv[i as int]);
        if has_prefix(&a, "-") && !same_as(&a, "--") {
            return Err(String::from_str("list takes no options"));
        }
        i = i + 1;
    }
    Ok(())
}

/// Scanning `remove`'s arguments from position `i`: `--force`, and one path.
pub open spec fn scan_remove(args: Seq<Seq<char>>, i: int, force: bool, path: Option<Seq<char>>) -> Result<
    (bool, Seq<char>),
    Seq<char>,
>
    decreases args.len() - i,
{
    if i < 0 || i >= args.len() {
        match path {
            None => Err("missing required argument: <path>"@),
            Some(p) => Ok((force, p)),
        }
    } else {
        let a = args[i];
        if a == "--force"@ {
            scan_remove(args, i + 1, true, path)
        } else if starts_with(a, "-"@) {
            Err("unknown option: "@ + a)
        } else if path is Some {
            Err("unexpected argument: "@ + a)
        } else {
            scan_remove(args, i + 1, force, Some(a))
        }
    }
}

/// The arguments of `remove [--force] <path>`.
#[derive(Debug)]
pub struct RemoveArgs {
    pub force: bool,
    pub path: String,
}

/// Parses `remove [--force] <path>`.
pub fn parse_remove_args(args: &[String]) -> (r: Result<RemoveArgs, String>)
    ensures
        match r {
            Ok(a) => scan_remove(strs(args@), 0, false, None) == Ok::<(bool, Seq<char>), Seq<char>>(
                (a.force, a.path@),
            ),
            Err(m) => scan_remove(strs(args@), 0, false, None) == Err::<(bool, Seq<char>), Seq<char>>(
                m@,
            ),
        },
{
    let ghost argv = strs(args@);
    let mut force = false;
    let mut path: Option<String> = None;
    let mut i: usize = 0;
    while i < args.len()
        invariant
            argv == strs(args@),
            i <= args@.len(),
            scan_remove(argv, i as int, force, opt_str(path)) == scan_remove(argv, 0, false, None),
        decreases args@.len() - i,
    {
        let a = chars_of(args[i].as_str());
        assert(a@ == argv[i as int]);
        if same_as(&a, "--force") {
            force = true;
        } else if has_prefix(&a, "-") {
            let mut m = String::from_str("unknown option: ");
            m.append(args[i].as_str());
            return Err(m);
        } else if path.is_some() {
            let mut m = String::from_str("unexpected argument: ");
            m.append(args[i].as_str());
            return Err(m);
        } else {
            path = Some(args[i].clone());
        }
        i = i + 1;
    }
    match path {
        None => Err(String::from_str("missing required argument: <path>")),
        Some(p) => Ok(RemoveArgs { force, path: p }),
    }
}

/// The workspaces that `remove` refuses to remove.
pub open spec fn is_protected(name: Seq<char>) -> bool {
    name == "default"@ || name == "main"@
}

/// Whether `remove` refuses to remove the workspace `name`.
pub fn is_protected_workspace(name: &str) -> (r: bool)
    ensures
        r == is_protected(name@),
{
    let n = chars_of(name);
    same_as(&n, "default") || same_as(&n, "main")
}

/// Whether the output of `jj diff --stat` reports any change.
pub fn reports_changes(stat: &str) -> (r: bool)
    ensures
        r == (trim(stat@).len() > 0),
{
    let t = trimmed(&chars_of(stat));
    t.len() > 0
}

/// The name of the workspace created at `path`: the last component of the
/// path, when it is a name.
pub fn workspace_name(path: &str) -> (r: Option<String>)
    ensures
        opt_str(r) == file_name(path@),
{
    match file_name_of(path) {
        Some(n) => Some(string_of(&n)),
        None => None,
    }
}

/// Where a workspace without metadata is taken to be.
pub enum FallbackPath {
    /// The repository root itself (the `default` workspace).
    RepoRoot,
    /// This directory under the repository root.
    UnderRoot(String),
}

/// Where the workspace `ws_name` of the repository at `repo_root` is taken
/// to be when no metadata records its path: the root for `default`, else
/// `repo_root/ws_name`.
pub fn fallback_workspace_path(repo_root: &str, ws_name: &str) -> (r: FallbackPath)
    ensures
        ws_name@ == "default"@ ==> r is RepoRoot,
        ws_name@ != "default"@ ==> (r matches FallbackPath::UnderRoot(p) && p@ == push_path(
            repo_root@,
            ws_name@,
        )),
{
    if same_as(&chars_of(ws_name), "default") {
        FallbackPath::RepoRoot
    } else {
        FallbackPath::UnderRoot(join(repo_root, ws_name))
    }
}

/// The workspace among `ws_names` whose name is the last component of
/// `target`, if any.
pub fn workspace_for_dir(ws_names: &[String], target: &str) -> (r: Option<String>)
    ensures
        match file_name(target@) {
            Some(n) => opt_str(r) == (if strs(ws_names@).contains(n) {
                Some(n)
            } else {
                None
            }),
            None => r is None,
        },
{
    let ghost names = strs(ws_names@);
    let dir = match file_name_of(target) {
        Some(d) => d,
        None => {
            return None;
        },
    };
    let mut i: usize = 0;
    while i < ws_names.len()
        invariant
            names == strs(ws_names@),
            file_name(target@) == Some(dir@),
            i <= ws_names@.len(),
            forall|j: int| 0 <= j < i ==> names[j] != dir@,
        decreases ws_names@.len() - i,
    {
        let w = chars_of(ws_names[i].as_str());
        assert(w@ == names[i as int]);
        if crate::text::chars_eq(&w, &dir) {
            assert(names.contains(dir@));
            let c = ws_names[i].clone();
            assert(c@ == names[i as int]);
            assert(c@ == dir@);
            return Some(c);
        }
        i = i + 1;
    }
    assert(!names.contains(dir@));
    None
}


/// The remote named on one line of `jj git remote list` (`<name> <url>`).
pub open spec fn listed_remote(line: Seq<char>) -> Option<Seq<char>> {
    let t = trim(line);
    if t.len() == 0 {
        None
    } else {
        match split_once(t, ' ') {
            Some((name, _url)) => Some(name),
            None => Some(t),
        }
    }
}

/// The remote names on the lines `ls`, in order.
pub open spec fn listed_remotes(ls: Seq<Seq<char>>) -> Seq<Seq<char>>
    decreases ls.len(),
{
    if ls.len() == 0 {
        Seq::empty()
    } else {
        let init = listed_remotes(ls.drop_last());
        match listed_remote(ls.last()) {
            Some(n) => init.push(n),
            None => init,
        }
    }
}

/// The remote names in the output of `jj git remote list`.
pub fn parse_remote_names(output: &str) -> (r: Vec<String>)
    ensures
        strs(r@) == listed_remotes(lines(output@)),
{
    let chars = chars_of(output);
    let ls = lines_of(&chars);
    let ghost lv = views(ls@);
    let mut out: Vec<String> = Vec::new();
    let mut i: usize = 0;
    assert(strs(out@) =~= Seq::<Seq<char>>::empty());
    while i < ls.len()
        invariant
            lv == views(ls@),
            lv == lines(output@),
            i <= ls@.len(),
            strs(out@) == listed_remotes(lv.take(i as int)),
        decreases ls@.len() - i,
    {
        assert(lv.take(i + 1).drop_last() =~= lv.take(i as int));
        assert(lv.take(i + 1).last() == ls@[i as int]@);
        let t = trimmed(&ls[i]);
        if t.len() > 0 {
            let k = find_char(&t, ' ');
            let name = slice_chars(&t, 0, k);
            assert(k < t@.len() ==> name@ =~= t@.take(k as int));
            assert(k == t@.len() ==> name@ =~= t@);
            let ghost before = strs(out@);
            out.push(string_of(&name));
            assert(strs(out@) =~= before.push(name@));
        }
        i = i + 1;
    }
    assert(lv.take(i as int) =~= lv);
    out
}

/// The jj revision for the git revision `r`, given the names of the known
/// remotes: `HEAD` is jj's working-copy commit `@`; `<remote>/HEAD` is
/// `trunk()`; `<remote>/<branch>` is `<branch>@<remote>` when `<remote>` is
/// a known remote; anything else is kept as it is.
pub open spec fn translated_ref(r: Seq<char>, remotes: Seq<Seq<char>>) -> Seq<char> {
    if r == "HEAD"@ {
        "@"@
    } else {
        match split_once(r, '/') {
            Some((remote, branch)) => {
                if branch == "HEAD"@ {
                    "trunk()"@
                } else if remotes.contains(remote) {
                    branch + "@"@ + remote
                } else {
                    r
                }
            },
            None => r,
        }
    }
}

pub(crate) proof fn lemma_split_at_slash(r: Seq<char>, b: Seq<char>)
    requires
        !r.contains('/'),
    ensures
        split_once(r + "/"@ + b, '/') == Some((r, b)),
        r + "/"@ + b != "HEAD"@,
{
    reveal_strlit("/");
    reveal_strlit("HEAD");
    let t = r + "/"@ + b;
    assert forall|j: int| 0 <= j < r.len() implies t[j] != '/' by {
        assert(t[j] == r[j]);
        if r[j] == '/' {
            assert(r.contains('/'));
        }
    }
    assert(t[r.len() as int] == '/');
    crate::text::lemma_first_index(t, '/', r.len() as int);
    assert(t.take(r.len() as int) =~= r);
    assert(t.skip(r.len() as int + 1) =~= b);
    assert(t.contains('/'));
    if t == "HEAD"@ {
        assert("HEAD"@.contains('/'));
        let j = choose|j: int| 0 <= j < "HEAD"@.len() && "HEAD"@[j] == '/';
        assert(false);
    }
}

/// A git revision in jj's notation: `HEAD` is `@`; `<remote>/HEAD` is
/// `trunk()`; `<remote>/<branch>` is `<branch>@<remote>` when the remote is
/// known and stays as written when it is not; a name without `/` other than
/// `HEAD` stays as written.
pub proof fn law_git_refs_in_jj_notation(
    r: Seq<char>,
    b: Seq<char>,
    n: Seq<char>,
    remotes: Seq<Seq<char>>,
)
    requires
        !r.contains('/'),
        b != "HEAD"@,
    ensures
        translated_ref("HEAD"@, remotes) == "@"@,
        translated_ref(r + "/"@ + "HEAD"@, remotes) == "trunk()"@,
        remotes.contains(r) ==> translated_ref(r + "/"@ + b, remotes) == b + "@"@ + r,
        !remotes.contains(r) ==> translated_ref(r + "/"@ + b, remotes) == r + "/"@ + b,
        !n.contains('/') && n != "HEAD"@ ==> translated_ref(n, remotes) == n,
{
    lemma_split_at_slash(r, b);
    lemma_split_at_slash(r, "HEAD"@);
    if !n.contains('/') {
        assert forall|j: int| 0 <= j < n.len() implies n[j] != '/' by {
            if n[j] == '/' {
                assert(n.contains('/'));
            }
        }
        crate::text::lemma_first_index(n, '/', n.len() as int);
    }
}

/// Translates a git revision into jj's notation; `remotes` are the names of
/// the repository's git remotes.
#[verifier::loop_isolation(false)]
pub fn translate_git_ref(git_ref: &str, remotes: &[String]) -> (r: String)
    ensures
        r@ == translated_ref(git_ref@, strs(remotes@)),
{
    let v = chars_of(git_ref);
    if same_as(&v, "HEAD") {
        return String::from_str("@");
    }
    let k = find_char(&v, '/');
    if k >= v.len() {
        return string_of(&v);
    }
    let remote = slice_chars(&v, 0, k);
    let branch = slice_chars(&v, k + 1, v.len());
    assert(remote@ =~= v@.take(k as int));
    assert(branch@ =~= v@.skip(k + 1));
    if same_as(&branch, "HEAD") {
        return String::from_str("trunk()");
    }
    let ghost names = strs(remotes@);
    let mut i: usize = 0;
    while i < remotes.len()
        invariant
            names == strs(remotes@),
            i <= remotes@.len(),
            forall|j: int| 0 <= j < i ==> names[j] != remote@,
        decreases remotes@.len() - i,
    {
        let n = chars_of(remotes[i].as_str());
        assert(n@ == names[i as int]);
        if crate::text::chars_eq(&n, &remote) {
            assert(names.contains(remote@));
            let mut out = string_of(&branch);
            out.append("@");
            out.append(remotes[i].as_str());
            return out;
        }
        i = i + 1;
    }
    assert(!names.contains(remote@));
    string_of(&v)
}

/// The hash and the bookmarks of the one-line commit summary `info`
/// (`<hash> <bookmark>,<bookmark>...`).
pub open spec fn commit_columns(info: Seq<char>) -> (Seq<char>, Seq<char>) {
    let t = trim(info);
    match split_once(t, ' ') {
        Some((hash, bookmarks)) => (hash, bookmarks),
        None => (t, Seq::empty()),
    }
}

/// The label of a workspace in `list`: its bookmarks in brackets, or its
/// name in brackets when it has none.
pub open spec fn display_name(ws_name: Seq<char>, bookmarks: Seq<char>) -> Seq<char> {
    seq!['['] + (if bookmarks.len() == 0 {
        ws_name
    } else {
        bookmarks
    }) + seq![']']
}

/// One row of `list`.
pub struct ListEntry {
    pub path: String,
    pub hash: String,
    pub name: String,
}

/// The row of `list` for the workspace `ws_name` at `path`, whose commit
/// summary is `commit_info`.
pub fn list_entry(path: String, ws_name: &str, commit_info: &str) -> (r: ListEntry)
    ensures
        r.path@ == path@,
        r.hash@ == commit_columns(commit_info@).0,
        r.name@ == display_name(ws_name@, commit_columns(commit_info@).1),
{
    let t = trimmed(&chars_of(commit_info));
    let k = find_char(&t, ' ');
    let (hash, bookmarks) = if k < t.len() {
        let h = slice_chars(&t, 0, k);
        let b = slice_chars(&t, k + 1, t.len());
        assert(h@ =~= t@.take(k as int));
        assert(b@ =~= t@.skip(k + 1));
        (h, b)
    } else {
        let e: Vec<char> = Vec::new();
        assert(e@ =~= Seq::<char>::empty());
        (slice_chars(&t, 0, t.len()), e)
    };
    assert(k >= t@.len() ==> hash@ =~= t@);
    let mut name = String::new();
    push_char(&mut name, '[');
    if bookmarks.len() == 0 {
        name.append(ws_name);
    } else {
        name.append(string_of(&bookmarks).as_str());
    }
    push_char(&mut name, ']');
    assert(name@ =~= display_name(ws_name@, commit_columns(commit_info@).1));
    ListEntry { path, hash: string_of(&hash), name }
}

/// The length of `s` in UTF-8 bytes.
pub open spec fn byte_len(s: Seq<char>) -> nat {
    vstd::utf8::encode_utf8(s).len()
}

/// Whether the UTF-8 lengths of every path and hash of `rows` fit in a
/// `usize`, as they do for strings held in memory.
pub open spec fn fits_in_memory(rows: Seq<ListEntry>) -> bool {
    forall|i: int|
        0 <= i < rows.len() ==> byte_len((#[trigger] rows[i]).path@) <= usize::MAX && byte_len(
            rows[i].hash@,
        ) <= usize::MAX
}

/// The greatest of `ws`, or 0.
pub open spec fn max_of(ws: Seq<nat>) -> nat
    decreases ws.len(),
{
    if ws.len() == 0 {
        0
    } else {
        let m = max_of(ws.drop_last());
        if ws.last() > m {
            ws.last()
        } else {
            m
        }
    }
}

/// `s` followed by spaces up to `w` characters, as `{:<w}` formats it.
pub open spec fn pad(s: Seq<char>, w: nat) -> Seq<char> {
    if s.len() < w {
        s + Seq::new((w - s.len()) as nat, |_i: int| ' ')
    } else {
        s
    }
}

/// The path widths of `rows` in bytes.
pub open spec fn path_widths(rows: Seq<ListEntry>) -> Seq<nat> {
    rows.map_values(|e: ListEntry| byte_len(e.path@))
}

/// The hash widths of `rows` in bytes.
pub open spec fn hash_widths(rows: Seq<ListEntry>) -> Seq<nat> {
    rows.map_values(|e: ListEntry| byte_len(e.hash@))
}

/// One line of `list`: the path and the hash padded to the given widths,
/// then the label, separated by single spaces.
pub open spec fn list_line(e: ListEntry, pw: nat, hw: nat) -> Seq<char> {
    pad(e.path@, pw) + seq![' '] + pad(e.hash@, hw) + seq![' '] + e.name@
}

/// `s` followed by spaces up to `w` characters.
fn padded(s: &str, w: usize) -> (r: String)
    ensures
        r@ == pad(s@, w as nat),
{
    let v = chars_of(s);
    let mut out = string_of(&v);
    if v.len() < w {
        let mut k: usize = v.len();
        while k < w
            invariant
                v@ == s@,
                v@.len() <= k <= w,
                out@ == s@ + Seq::new((k - v@.len()) as nat, |_i: int| ' '),
            decreases w - k,
        {
            push_char(&mut out, ' ');
            k = k + 1;
            assert(out@ =~= s@ + Seq::new((k - v@.len()) as nat, |_i: int| ' '));
        }
    }
    out
}

/// Greatest byte length among `rows`' paths (or hashes), computed in one pass.
fn widths(rows: &[ListEntry]) -> (r: (usize, usize))
    requires
        fits_in_memory(rows@),
    ensures
        r.0 == max_of(path_widths(rows@)),
        r.1 == max_of(hash_widths(rows@)),
{
    let mut pw: usize = 0;
    let mut hw: usize = 0;
    let mut i: usize = 0;
    while i < rows.len()
        invariant
            i <= rows@.len(),
            fits_in_memory(rows@),
            pw == max_of(path_widths(rows@).take(i as int)),
            hw == max_of(hash_widths(rows@).take(i as int)),
        decreases rows@.len() - i,
    {
        assert(path_widths(rows@).take(i + 1).drop_last() =~= path_widths(rows@).take(i as int));
        assert(hash_widths(rows@).take(i + 1).drop_last() =~= hash_widths(rows@).take(i as int));
        let ps = rows[i].path.as_str();
        let hs = rows[i].hash.as_str();
        let p = ps.len();
        let h = hs.len();
        assert(p as nat == byte_len(rows@[i as int].path@));
        assert(h as nat == byte_len(rows@[i as int].hash@));
        assert(path_widths(rows@).take(i + 1).last() == byte_len(rows@[i as int].path@));
        assert(hash_widths(rows@).take(i + 1).last() == byte_len(rows@[i as int].hash@));
        if p > pw {
            pw = p;
        }
        if h > hw {
            hw = h;
        }
        i = i + 1;
    }
    assert(path_widths(rows@).take(i as int) =~= path_widths(rows@));
    assert(hash_widths(rows@).take(i as int) =~= hash_widths(rows@));
    (pw, hw)
}

/// The lines of `list`, with the path and hash columns aligned: each is
/// padded to the greatest byte length in its column.
pub fn format_list(rows: &[ListEntry]) -> (r: Vec<String>)
    requires
        fits_in_memory(rows@),
    ensures
        r@.len() == rows@.len(),
        forall|i: int|
            0 <= i < rows@.len() ==> (#[trigger] r@[i])@ == list_line(
                rows@[i],
                max_of(path_widths(rows@)),
                max_of(hash_widths(rows@)),
            ),
{
    let (pw, hw) = widths(rows);
    let mut out: Vec<String> = Vec::new();
    let mut i: usize = 0;
    while i < rows.len()
        invariant
            i <= rows@.len(),
            pw == max_of(path_widths(rows@)),
            hw == max_of(hash_widths(rows@)),
            out@.len() == i,
            forall|j: int| 0 <= j < i ==> (#[trigger] out@[j])@ == list_line(rows@[j], pw as nat, hw as nat),
        decreases rows@.len() - i,
    {
        let e = &rows[i];
        let mut line = padded(e.path.as_str(), pw);
        push_char(&mut line, ' ');
        line.append(padded(e.hash.as_str(), hw).as_str());
        push_char(&mut line, ' ');
        line.append(e.name.as_str());
        assert(line@ =~= list_line(rows@[i as int], pw as nat, hw as nat));
        out.push(line);
        i = i + 1;
    }
    out
}

} // verus!
