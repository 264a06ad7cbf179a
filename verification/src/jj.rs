//! How the shim talks to `jj`: the argument list of a `jj` call, and what a
//! finished call means (its trimmed output, or an error message).

use vstd::prelude::*;
use vstd::string::StringExecFns;

use crate::text::{chars_of, push_decimal, string_of, strs, trim, trimmed, decimal};

verus! {

/// The text that `String::from_utf8_lossy` makes of the bytes `b`: each
/// invalid UTF-8 sequence replaced by U+FFFD.
pub uninterp spec fn utf8_lossy(b: Seq<u8>) -> Seq<char>;

/// `String::from_utf8_lossy(b).into_owned()`.
/// Claimed: the result is the named text of `b`, and for valid UTF-8 it is
/// the decoded text, as the documentation of `from_utf8_lossy` states.
#[verifier::external_body]
pub(crate) fn lossy_text(b: &[u8]) -> (r: String)
    ensures
        r@ == utf8_lossy(b@),
        vstd::utf8::valid_utf8(b@) ==> r@ == vstd::utf8::decode_utf8(b@),
{
    String::from_utf8_lossy(b).into_owned()
}

/// How a finished `jj` call ended.
pub struct CommandOutcome {
    /// Whether it exited successfully.
    pub success: bool,
    /// Its exit code, if it exited normally.
    pub code: Option<i32>,
    pub stdout: Vec<u8>,
    pub stderr: Vec<u8>,
}

/// `n` in decimal, with a leading `-` when negative.
pub open spec fn signed_decimal(n: int) -> Seq<char> {
    if n < 0 {
        seq!['-'] + decimal((-n) as nat)
    } else {
        decimal(n as nat)
    }
}

/// The error message for a `jj` call that failed with exit code `code`
/// (`-1` when it has none) and wrote `stderr`.
pub open spec fn failure_message(code: Option<i32>, stderr: Seq<u8>) -> Seq<char> {
    let c = match code {
        Some(c) => c as int,
        None => -1,
    };
    "jj command failed (exit "@ + signed_decimal(c) + "): "@ + trim(utf8_lossy(stderr))
}

/// What a finished `jj` call gives: its standard output, decoded and
/// trimmed, when it succeeded; else the failure message.
pub fn run_stdout(outcome: &CommandOutcome) -> (r: Result<String, String>)
    ensures
        outcome.success ==> (r matches Ok(s) && s@ == trim(utf8_lossy(outcome.stdout@))),
        !outcome.success ==> (r matches Err(m) && m@ == failure_message(
            outcome.code,
            outcome.stderr@,
        )),
{
    if !outcome.success {
        let code: i32 = match outcome.code {
            Some(c) => c,
            None => -1,
        };
        let mut m = String::from_str("jj command failed (exit ");
        if code < 0 {
            m.append("-");
            let magnitude: u64 = (0i64 - code as i64) as u64;
            push_decimal(&mut m, magnitude);
        } else {
            push_decimal(&mut m, code as u64);
        }
        m.append("): ");
        let err = lossy_text(outcome.stderr.as_slice());
        let t = trimmed(&chars_of(err.as_str()));
        m.append(string_of(&t).as_str());
        proof {
            reveal_strlit("-");
        }
        return Err(m);
    }
    let out = lossy_text(outcome.stdout.as_slice());
    let t = trimmed(&chars_of(out.as_str()));
    Ok(string_of(&t))
}

/// The arguments of a `jj` call: `-R <repo_root>` when a root is given,
/// then `args`.
pub fn command_args(repo_root: Option<&str>, args: &[String]) -> (r: Vec<String>)
    ensures
        strs(r@) == (match repo_root {
            Some(root) => seq!["-R"@, root@],
            None => Seq::<Seq<char>>::empty(),
        }) + strs(args@),
{
    let mut r: Vec<String> = Vec::new();
    match repo_root {
        Some(root) => {
            r.push(String::from_str("-R"));
            r.push(String::from_str(root));
        },
        None => {},
    }
    let ghost head = strs(r@);
    let mut i: usize = 0;
    while i < args.len()
        invariant
            i <= args@.len(),
            strs(r@) == head + strs(args@).take(i as int),
        decreases args@.len() - i,
    {
        let ghost before = strs(r@);
        r.push(args[i].clone());
        assert(strs(r@) =~= before.push(args@[i as int]@));
        assert(strs(args@).take(i + 1) =~= strs(args@).take(i as int).push(args@[i as int]@));
        i = i + 1;
    }
    assert(strs(args@).take(i as int) =~= strs(args@));
    proof {
        match repo_root {
            Some(root) => {
                assert(head =~= seq!["-R"@, root@]);
            },
            None => {
                assert(head =~= Seq::<Seq<char>>::empty());
            },
        }
    }
    r
}

} // verus!
