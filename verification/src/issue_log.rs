//! Self-reporting of options and inputs that the shim does not understand:
//! the JSONL entry appended to the issues log, the path of that log, and the
//! `[For AI agents]` notice for stderr.

use vstd::prelude::*;
use vstd::string::StringExecFns;

use crate::path::{join, push_path};
use crate::jj::{lossy_text, utf8_lossy};
use crate::text::{chars_of, decimal, hex_digits, joined, push_decimal, string_of, strs, trim, trimmed};

verus! {

/// The kind of an issue.
#[derive(Debug, Clone, Copy, PartialEq, Eq)]
pub enum IssueKind {
    UnknownOption,
    /// Reserved: an argument list that fails to parse cleanly but is still
    /// recoverable enough to log instead of error out.
    ParseError,
    /// Reserved: known options combined in a way the shim cannot honour.
    UnsupportedCombination,
}

/// The name of `kind` in the log.
pub open spec fn kind_name(kind: IssueKind) -> Seq<char> {
    match kind {
        IssueKind::UnknownOption => "unknown_option"@,
        IssueKind::ParseError => "parse_error"@,
        IssueKind::UnsupportedCombination => "unsupported_combination"@,
    }
}

/// The words for `kind` in the stderr notice.
pub open spec fn kind_label(kind: IssueKind) -> Seq<char> {
    match kind {
        IssueKind::UnknownOption => "unknown option"@,
        IssueKind::ParseError => "parse error"@,
        IssueKind::UnsupportedCombination => "unsupported combination"@,
    }
}

impl IssueKind {
    /// The name of this kind in the log.
    pub fn as_str(&self) -> (r: &'static str)
        ensures
            r@ == kind_name(*self),
    {
        match self {
            IssueKind::UnknownOption => "unknown_option",
            IssueKind::ParseError => "parse_error",
            IssueKind::UnsupportedCombination => "unsupported_combination",
        }
    }

    /// The words for this kind in the stderr notice.
    pub fn human_label(&self) -> (r: &'static str)
        ensures
            r@ == kind_label(*self),
    {
        match self {
            IssueKind::UnknownOption => "unknown option",
            IssueKind::ParseError => "parse error",
            IssueKind::UnsupportedCombination => "unsupported combination",
        }
    }
}

/// Distinct kinds have distinct names in the log.
pub proof fn law_kind_names_distinct(a: IssueKind, b: IssueKind)
    requires
        a != b,
    ensures
        kind_name(a) != kind_name(b),
{
    reveal_strlit("unknown_option");
    reveal_strlit("parse_error");
    reveal_strlit("unsupported_combination");
    if kind_name(a) == kind_name(b) {
        assert(kind_name(a).len() == kind_name(b).len());
        assert(kind_name(a)[0] == kind_name(b)[0]);
    }
}

/// Where the issues log lives, given the values of `JJ_WORKTREE_ISSUE_LOG`,
/// `XDG_STATE_HOME` and `HOME`: the override when set, else under the
/// state directory, else under `~/.local/state`, else in the current
/// directory.
pub open spec fn issue_log_path(
    override_path: Option<Seq<char>>,
    xdg_state_home: Option<Seq<char>>,
    home: Option<Seq<char>>,
) -> Seq<char> {
    match override_path {
        Some(p) => p,
        None => match xdg_state_home {
            Some(state) => push_path(push_path(state, "jj-worktree"@), "issues.log"@),
            None => match home {
                Some(h) => push_path(h, ".local/state/jj-worktree/issues.log"@),
                None => "./jj-worktree-issues.log"@,
            },
        },
    }
}

/// Where the issues log lives: `JJ_WORKTREE_ISSUE_LOG` wins whatever else
/// is set; then `XDG_STATE_HOME` (whatever `HOME` is); then `HOME`; and
/// without any of them, `./jj-worktree-issues.log`.
pub proof fn law_issue_log_precedence(
    p: Seq<char>,
    st: Seq<char>,
    x: Option<Seq<char>>,
    h: Option<Seq<char>>,
    h2: Option<Seq<char>>,
)
    ensures
        issue_log_path(Some(p), x, h) == p,
        issue_log_path(None, Some(st), h) == issue_log_path(None, Some(st), h2),
        issue_log_path(None, Some(st), h) == push_path(push_path(st, "jj-worktree"@), "issues.log"@),
        issue_log_path(None, None, None) == "./jj-worktree-issues.log"@,
{
}

/// Resolve the path to the JSONL issues log file from the values of the
/// environment variables `JJ_WORKTREE_ISSUE_LOG`, `XDG_STATE_HOME` and `HOME`.
pub fn log_path(override_path: Option<&str>, xdg_state_home: Option<&str>, home: Option<&str>) -> (r: String)
    ensures
        r@ == issue_log_path(
            match override_path {
                Some(p) => Some(p@),
                None => None,
            },
            match xdg_state_home {
                Some(p) => Some(p@),
                None => None,
            },
            match home {
                Some(p) => Some(p@),
                None => None,
            },
        ),
{
    match override_path {
        Some(p) => String::from_str(p),
        None => match xdg_state_home {
            Some(state) => {
                let dir = join(state, "jj-worktree");
                join(dir.as_str(), "issues.log")
            },
            None => match home {
                Some(h) => join(h, ".local/state/jj-worktree/issues.log"),
                None => String::from_str("./jj-worktree-issues.log"),
            },
        },
    }
}

/// How `serde_json` writes the character `c` inside a JSON string: `"` and
/// `\` behind a backslash; backspace, tab, line feed, form feed and carriage
/// return as `\b \t \n \f \r`; the other control characters (below
/// U+0020) as `\u00` and two lower-case hexadecimal digits; anything else as
/// it is.
pub open spec fn json_char(c: char) -> Seq<char> {
    if c == '"' {
        seq!['\\', '"']
    } else if c == '\\' {
        seq!['\\', '\\']
    } else if c == '\u{8}' {
        seq!['\\', 'b']
    } else if c == '\t' {
        seq!['\\', 't']
    } else if c == '\n' {
        seq!['\\', 'n']
    } else if c == '\u{c}' {
        seq!['\\', 'f']
    } else if c == '\r' {
        seq!['\\', 'r']
    } else if (c as u32) < 0x20 {
        seq!['\\', 'u', '0', '0'] + hex_digits(c as nat, 2)
    } else {
        seq![c]
    }
}

/// The characters of `s`, each written as in a JSON string.
pub open spec fn json_escaped(s: Seq<char>) -> Seq<char>
    decreases s.len(),
{
    if s.len() == 0 {
        Seq::empty()
    } else {
        json_escaped(s.drop_last()) + json_char(s.last())
    }
}

/// The JSON string literal of `s`, as `serde_json` writes it.
pub open spec fn json_quoted(s: Seq<char>) -> Seq<char> {
    seq!['"'] + json_escaped(s) + seq!['"']
}

/// `serde_json::to_string` on a `str`: its JSON string literal.
/// Claimed: the text is `json_quoted(s)`, which is what the escape table
/// and `write_char_escape` of `serde_json`'s compact formatter produce (it
/// escapes by bytes, but only ASCII bytes are escaped, so by characters it is
/// the same); serializing a `str` into memory does not fail.
#[verifier::external_body]
fn json_string(s: &str) -> (r: String)
    ensures
        r@ == json_quoted(s@),
{
    match serde_json::to_string(s) {
        Ok(t) => t,
        Err(_) => String::new(),
    }
}

/// The RFC 3339 text, to the second and with `Z`, of the UTC time `secs`
/// seconds after the Unix epoch, as `chrono` writes it.
pub uninterp spec fn rfc3339_utc_seconds(secs: int) -> Seq<char>;

/// How far from the Unix epoch, in seconds either way (about 250,000
/// years), a clock reading is certain to have a timestamp: well inside the
/// dates `chrono` can represent (years -262,143 to 262,142).
pub open spec fn timestamp_reach() -> int {
    8_000_000_000_000
}

/// `chrono::DateTime::from_timestamp(secs, 0)` and then
/// `to_rfc3339_opts(SecondsFormat::Secs, true)`.
/// Claimed: the text is the named one whenever there is a text, and there is
/// one for every second within `timestamp_reach()` of the epoch, before it
/// or after (`from_timestamp` refuses only days outside `i32` or dates
/// outside its year range; `to_rfc3339_opts` does not fail, and writes a
/// signed year outside 0000-9999).
#[verifier::external_body]
fn utc_timestamp_text(secs: i64) -> (r: Option<String>)
    ensures
        r matches Some(t) ==> t@ == rfc3339_utc_seconds(secs as int),
        -timestamp_reach() <= secs <= timestamp_reach() ==> r is Some,
{
    match chrono::DateTime::from_timestamp(secs, 0) {
        Some(t) => Some(t.to_rfc3339_opts(chrono::SecondsFormat::Secs, true)),
        None => None,
    }
}

/// The JSON array of the strings `items`, written compactly.
pub open spec fn json_array(items: Seq<Seq<char>>) -> Seq<char> {
    "["@ + joined(items.map_values(|s: Seq<char>| json_quoted(s)), ","@) + "]"@
}

/// One line of the issues log: a compact JSON object with its keys in
/// order (`argv`, `caller_cmdline`, `caller_pid`, `cmd`, `kind`, `option`,
/// `ts`), as `serde_json` writes a `json!` object.
pub open spec fn issue_entry_text(
    kind: IssueKind,
    cmd: Seq<char>,
    option: Option<Seq<char>>,
    argv: Seq<Seq<char>>,
    caller_pid: nat,
    caller_cmdline: Seq<char>,
    ts: Seq<char>,
) -> Seq<char> {
    "{\"argv\":"@ + json_array(argv) + ",\"caller_cmdline\":"@ + json_quoted(caller_cmdline)
        + ",\"caller_pid\":"@ + decimal(caller_pid) + ",\"cmd\":"@ + json_quoted(cmd)
        + ",\"kind\":"@ + json_quoted(kind_name(kind)) + ",\"option\":"@ + (match option {
        Some(o) => json_quoted(o),
        None => "null"@,
    }) + ",\"ts\":"@ + json_quoted(ts) + "}"@
}

/// The JSON array of `argv`.
fn json_array_of(argv: &[String]) -> (r: String)
    ensures
        r@ == json_array(strs(argv@)),
{
    let ghost quoted = strs(argv@).map_values(|s: Seq<char>| json_quoted(s));
    let mut body = String::new();
    let mut i: usize = 0;
    while i < argv.len()
        invariant
            i <= argv@.len(),
            quoted == strs(argv@).map_values(|s: Seq<char>| json_quoted(s)),
            body@ == joined(quoted.take(i as int), ","@),
        decreases argv@.len() - i,
    {
        let q = json_string(argv[i].as_str());
        assert(quoted.take(i + 1).drop_last() =~= quoted.take(i as int));
        assert(quoted.take(i + 1).last() == q@);
        if i > 0 {
            body.append(",");
        } else {
            assert(body@ =~= Seq::<char>::empty());
        }
        body.append(q.as_str());
        i = i + 1;
    }
    assert(quoted.take(i as int) =~= quoted);
    let mut out = String::from_str("[");
    out.append(body.as_str());
    out.append("]");
    out
}

/// The line appended to the issues log for an issue of `kind` met by `cmd`
/// (with the offending `option`, if any), called with `argv` by the process
/// `caller_pid` whose command line is `caller_cmdline`, at `now_secs`
/// seconds after the Unix epoch.
pub fn issue_entry(
    kind: IssueKind,
    cmd: &str,
    option: Option<&str>,
    argv: &[String],
    caller_pid: u32,
    caller_cmdline: &str,
    now_secs: i64,
) -> (r: String)
    ensures
        -timestamp_reach() <= now_secs <= timestamp_reach() ==> r@ == issue_entry_text(
            kind,
            cmd@,
            match option {
                Some(o) => Some(o@),
                None => None,
            },
            strs(argv@),
            caller_pid as nat,
            caller_cmdline@,
            rfc3339_utc_seconds(now_secs as int),
        ),
{
    let ts = match utc_timestamp_text(now_secs) {
        Some(t) => t,
        None => String::new(),
    };
    let mut out = String::from_str("{\"argv\":");
    out.append(json_array_of(argv).as_str());
    out.append(",\"caller_cmdline\":");
    out.append(json_string(caller_cmdline).as_str());
    out.append(",\"caller_pid\":");
    push_decimal(&mut out, caller_pid as u64);
    out.append(",\"cmd\":");
    out.append(json_string(cmd).as_str());
    out.append(",\"kind\":");
    out.append(json_string(kind.as_str()).as_str());
    out.append(",\"option\":");
    match option {
        Some(o) => out.append(json_string(o).as_str()),
        None => out.append("null"),
    }
    out.append(",\"ts\":");
    out.append(json_string(ts.as_str()).as_str());
    out.append("}");
    out
}

/// The notice written to stderr for an issue of `kind` (with the offending
/// `option`, if any) that was logged to `log_path`.
pub open spec fn notice_text(kind: IssueKind, option: Option<Seq<char>>, log_path: Seq<char>) -> Seq<char> {
    "warning: "@ + kind_label(kind) + (match option {
        Some(o) => ": "@ + o,
        None => Seq::empty(),
    }) + " (accepted as no-op)\n\nThis option is not yet known by jj-worktree.\nThe incident has been logged to "@
        + log_path
        + "\n\n[For AI agents] Please report this issue to the jj-worktree project before\nfalling back to another approach. Add a brief note in:\n$HOME/.local/share/repos/github.com/kawaz/jj-worktree/main/docs/issue/\n\nFile name format: YYYY-MM-DD-{short-slug}.md\nInclude: the option/error, the calling context, and what you tried to do."@
}

/// The `[For AI agents]` notice for stderr about an issue of `kind` (with
/// the offending `option`, if any) that was logged to `log_path`.
pub fn notice(kind: IssueKind, option: Option<&str>, log_path: &str) -> (r: String)
    ensures
        r@ == notice_text(
            kind,
            match option {
                Some(o) => Some(o@),
                None => None,
            },
            log_path@,
        ),
{
    let mut out = String::from_str("warning: ");
    out.append(kind.human_label());
    match option {
        Some(o) => {
            out.append(": ");
            out.append(o);
        },
        None => {},
    }
    out.append(" (accepted as no-op)\n\nThis option is not yet known by jj-worktree.\nThe incident has been logged to ");
    out.append(log_path);
    out.append("\n\n[For AI agents] Please report this issue to the jj-worktree project before\nfalling back to another approach. Add a brief note in:\n$HOME/.local/share/repos/github.com/kawaz/jj-worktree/main/docs/issue/\n\nFile name format: YYYY-MM-DD-{short-slug}.md\nInclude: the option/error, the calling context, and what you tried to do.");
    out
}


/// The pieces of `b` between NUL bytes.
pub open spec fn nul_separated(b: Seq<u8>) -> Seq<Seq<u8>>
    decreases b.len(),
{
    if b.len() == 0 {
        seq![Seq::<u8>::empty()]
    } else {
        let init = nul_separated(b.drop_last());
        if b.last() == 0 {
            init.push(Seq::<u8>::empty())
        } else {
            init.update(init.len() - 1, init.last().push(b.last()))
        }
    }
}

/// The non-empty pieces of `pieces`, each decoded, in order.
pub open spec fn decoded_args(pieces: Seq<Seq<u8>>) -> Seq<Seq<char>>
    decreases pieces.len(),
{
    if pieces.len() == 0 {
        Seq::empty()
    } else if pieces.last().len() == 0 {
        decoded_args(pieces.drop_last())
    } else {
        decoded_args(pieces.drop_last()).push(utf8_lossy(pieces.last()))
    }
}

pub proof fn lemma_nul_separated_nonempty(b: Seq<u8>)
    ensures
        nul_separated(b).len() >= 1,
    decreases b.len(),
{
    if b.len() > 0 {
        lemma_nul_separated_nonempty(b.drop_last());
    }
}

/// The command line recorded for the calling process, from the contents of
/// `/proc/<pid>/cmdline` (arguments separated by NUL bytes): the non-empty
/// arguments, decoded, separated by single spaces.
pub fn cmdline_from_proc(content: &[u8]) -> (r: String)
    ensures
        r@ == joined(decoded_args(nul_separated(content@)), " "@),
{
    let mut pieces: Vec<Vec<u8>> = Vec::new();
    let mut cur: Vec<u8> = Vec::new();
    let mut i: usize = 0;
    assert(content@.take(0) =~= Seq::<u8>::empty());
    assert(pieces@.map_values(|p: Vec<u8>| p@).push(cur@) =~= nul_separated(content@.take(0)));
    while i < content.len()
        invariant
            i <= content@.len(),
            pieces@.map_values(|p: Vec<u8>| p@).push(cur@) == nul_separated(content@.take(i as int)),
        decreases content@.len() - i,
    {
        let c = content[i];
        let ghost pre = content@.take(i as int);
        assert(content@.take(i + 1).drop_last() =~= pre);
        let ghost old_pieces = pieces@.map_values(|p: Vec<u8>| p@);
        if c == 0 {
            pieces.push(cur);
            cur = Vec::new();
            assert(pieces@.map_values(|p: Vec<u8>| p@) =~= old_pieces.push(nul_separated(pre).last()));
        } else {
            cur.push(c);
        }
        assert(pieces@.map_values(|p: Vec<u8>| p@).push(cur@) =~= nul_separated(content@.take(i + 1)));
        i = i + 1;
    }
    assert(content@.take(i as int) =~= content@);
    let ghost before = pieces@.map_values(|p: Vec<u8>| p@);
    pieces.push(cur);
    let ghost all = pieces@.map_values(|p: Vec<u8>| p@);
    assert(all =~= before.push(cur@));
    let mut out = String::new();
    let mut any = false;
    let mut j: usize = 0;
    assert(all.take(0) =~= Seq::<Seq<u8>>::empty());
    while j < pieces.len()
        invariant
            j <= pieces@.len(),
            all == pieces@.map_values(|p: Vec<u8>| p@),
            all == nul_separated(content@),
            out@ == joined(decoded_args(all.take(j as int)), " "@),
            any == (decoded_args(all.take(j as int)).len() > 0),
        decreases pieces@.len() - j,
    {
        assert(all.take(j + 1).drop_last() =~= all.take(j as int));
        assert(all.take(j + 1).last() == pieces@[j as int]@);
        if pieces[j].len() > 0 {
            let ghost prev = decoded_args(all.take(j as int));
            let t = lossy_text(pieces[j].as_slice());
            if any {
                out.append(" ");
            } else {
                assert(out@ =~= Seq::<char>::empty()) by {
                    assert(joined(prev, " "@) == Seq::<char>::empty());
                }
            }
            out.append(t.as_str());
            any = true;
            let ghost next = prev.push(t@);
            assert(next.drop_last() =~= prev);
            assert(out@ =~= joined(next, " "@)) by {
                if prev.len() == 0 {
                    assert(next.len() == 1);
                }
            }
        }
        j = j + 1;
    }
    assert(all.take(j as int) =~= all);
    out
}

/// The process name recorded for the calling process, from the contents of
/// `/proc/<pid>/comm` or the output of `ps -o comm=`: decoded and trimmed.
pub fn process_name_text(output: &[u8]) -> (r: String)
    ensures
        r@ == trim(utf8_lossy(output@)),
{
    let t = lossy_text(output);
    string_of(&trimmed(&chars_of(t.as_str())))
}

} // verus!
