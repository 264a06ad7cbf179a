//! The decisions of the `jj-worktree` program itself: which mode it runs
//! in, which command it was given, and where `run` puts the `git` shim.

use vstd::prelude::*;
use vstd::string::StringExecFns;

use crate::path::{file_stem, file_stem_of, join, push_path};
use crate::text::{chars_of, hex_digits, push_hex, same_as, strs, tail_from};

verus! {

/// How the binary was invoked.
#[derive(Debug, Clone, Copy, PartialEq, Eq)]
pub enum InvocationMode {
    /// As `git` (through the shim's symlink).
    Git,
    /// As `jj-worktree`.
    Direct,
}

/// The mode for a program invoked as `argv0`: the shim when the file stem
/// of `argv0` is `git`.
pub fn invocation_mode(argv0: &str) -> (r: InvocationMode)
    ensures
        (r == InvocationMode::Git) == (file_stem(argv0@) == Some("git"@)),
{
    match file_stem_of(argv0) {
        Some(s) => if same_as(&s, "git") {
            InvocationMode::Git
        } else {
            InvocationMode::Direct
        },
        None => InvocationMode::Direct,
    }
}

/// A command given to `jj-worktree` directly.
pub enum CliSpec {
    Help,
    Version,
    Worktree,
    Run(Seq<Seq<char>>),
    Unknown(Seq<char>),
}

/// A command given to `jj-worktree` directly.
pub enum CliCommand {
    /// Print the help text.
    Help,
    /// Print the version.
    Version,
    /// `add`, `list` or `remove`: run the worktree command with all arguments.
    Worktree,
    /// `run [--] <cmd> [args...]`, with the arguments after `run`.
    Run(Vec<String>),
    /// Any other command word.
    Unknown(String),
}

impl View for CliCommand {
    type V = CliSpec;

    open spec fn view(&self) -> CliSpec {
        match self {
            CliCommand::Help => CliSpec::Help,
            CliCommand::Version => CliSpec::Version,
            CliCommand::Worktree => CliSpec::Worktree,
            CliCommand::Run(a) => CliSpec::Run(strs(a@)),
            CliCommand::Unknown(w) => CliSpec::Unknown(w@),
        }
    }
}

/// The command for the arguments `args` (without the program name).
pub open spec fn cli_spec(args: Seq<Seq<char>>) -> CliSpec {
    if args.len() == 0 {
        CliSpec::Help
    } else {
        let w = args[0];
        if w == "--help"@ || w == "-h"@ {
            CliSpec::Help
        } else if w == "--version"@ {
            CliSpec::Version
        } else if w == "add"@ || w == "list"@ || w == "remove"@ {
            CliSpec::Worktree
        } else if w == "run"@ {
            CliSpec::Run(args.skip(1))
        } else {
            CliSpec::Unknown(w)
        }
    }
}

/// The command words of `jj-worktree`: `add`, `list` and `remove` run the
/// worktree command (with every argument), `run` runs a command under the
/// shim (with the arguments after it), `--help`/`-h` and no arguments ask for
/// help, `--version` for the version; any other word is unknown.
pub proof fn law_command_words(rest: Seq<Seq<char>>, w: Seq<char>)
    ensures
        cli_spec(seq!["add"@] + rest) == CliSpec::Worktree,
        cli_spec(seq!["list"@] + rest) == CliSpec::Worktree,
        cli_spec(seq!["remove"@] + rest) == CliSpec::Worktree,
        cli_spec(seq!["run"@] + rest) == CliSpec::Run(rest),
        cli_spec(seq!["--help"@] + rest) == CliSpec::Help,
        cli_spec(seq!["-h"@] + rest) == CliSpec::Help,
        cli_spec(seq!["--version"@] + rest) == CliSpec::Version,
        cli_spec(Seq::empty()) == CliSpec::Help,
        w != "add"@ && w != "list"@ && w != "remove"@ && w != "run"@ && w != "--help"@ && w
            != "-h"@ && w != "--version"@ ==> cli_spec(seq![w] + rest) == CliSpec::Unknown(w),
{
    reveal_strlit("add");
    reveal_strlit("list");
    reveal_strlit("remove");
    reveal_strlit("run");
    reveal_strlit("--help");
    reveal_strlit("-h");
    reveal_strlit("--version");
    assert("add"@[0] == 'a' && "run"@[0] == 'r' && "remove"@[0] == 'r' && "--help"@[0] == '-');
    assert("add"@ != "run"@ && "remove"@ != "--help"@);
    assert((seq!["run"@] + rest).skip(1) =~= rest);
    assert((seq!["add"@] + rest)[0] == "add"@);
    assert((seq!["list"@] + rest)[0] == "list"@);
    assert((seq!["remove"@] + rest)[0] == "remove"@);
    assert((seq!["run"@] + rest)[0] == "run"@);
    assert((seq!["--help"@] + rest)[0] == "--help"@);
    assert((seq!["-h"@] + rest)[0] == "-h"@);
    assert((seq!["--version"@] + rest)[0] == "--version"@);
    assert((seq![w] + rest)[0] == w);
}

/// Selects the command given to `jj-worktree`; no arguments ask for help.
pub fn cli_command(args: &[String]) -> (r: CliCommand)
    ensures
        r@ == cli_spec(strs(args@)),
{
    if args.len() == 0 {
        return CliCommand::Help;
    }
    let w = chars_of(args[0].as_str());
    if same_as(&w, "--help") || same_as(&w, "-h") {
        CliCommand::Help
    } else if same_as(&w, "--version") {
        CliCommand::Version
    } else if same_as(&w, "add") || same_as(&w, "list") || same_as(&w, "remove") {
        CliCommand::Worktree
    } else if same_as(&w, "run") {
        CliCommand::Run(tail_from(args, 1))
    } else {
        CliCommand::Unknown(args[0].clone())
    }
}

/// The command line that `run` executes: `args` without a leading `--`.
pub open spec fn run_target(args: Seq<Seq<char>>) -> Seq<Seq<char>> {
    if args.len() > 0 && args[0] == "--"@ {
        args.skip(1)
    } else {
        args
    }
}

/// `run` executes its arguments as they are, except that a first `--` is
/// dropped (only the first).
pub proof fn law_run_drops_leading_separator(w: Seq<char>, r: Seq<Seq<char>>)
    ensures
        run_target(seq!["--"@] + r) == r,
        w != "--"@ ==> run_target(seq![w] + r) == seq![w] + r,
        run_target(Seq::empty()) == Seq::<Seq<char>>::empty(),
{
    assert((seq!["--"@] + r)[0] == "--"@);
    assert((seq!["--"@] + r).skip(1) =~= r);
    assert((seq![w] + r)[0] == w);
}

/// The command line that `run` executes, or why there is none.
pub fn run_command_line(args: &[String]) -> (r: Result<Vec<String>, String>)
    ensures
        match r {
            Ok(c) => strs(c@) == run_target(strs(args@)) && c@.len() > 0,
            Err(m) => run_target(strs(args@)).len() == 0 && m@
                == "run requires a command to execute"@,
        },
{
    let skip: usize = if args.len() > 0 && same_as(&chars_of(args[0].as_str()), "--") {
        1
    } else {
        0
    };
    let c = tail_from(args, skip);
    assert(skip == 0 ==> strs(args@).skip(0) =~= strs(args@));
    if c.len() == 0 {
        Err(String::from_str("run requires a command to execute"))
    } else {
        Ok(c)
    }
}

/// The cache directory, given `XDG_CACHE_HOME` and `HOME`.
pub open spec fn cache_home_of(xdg_cache_home: Option<Seq<char>>, home: Option<Seq<char>>) -> Option<
    Seq<char>,
> {
    match xdg_cache_home {
        Some(c) => Some(c),
        None => match home {
            Some(h) => Some(push_path(h, ".cache"@)),
            None => None,
        },
    }
}

/// The cache directory, `${XDG_CACHE_HOME:-$HOME/.cache}`.
pub fn cache_home(xdg_cache_home: Option<&str>, home: Option<&str>) -> (r: Option<String>)
    ensures
        (match r {
            Some(s) => Some(s@),
            None => None,
        }) == cache_home_of(
            match xdg_cache_home {
                Some(c) => Some(c@),
                None => None,
            },
            match home {
                Some(h) => Some(h@),
                None => None,
            },
        ),
{
    match xdg_cache_home {
        Some(c) => Some(String::from_str(c)),
        None => match home {
            Some(h) => Some(join(h, ".cache")),
            None => None,
        },
    }
}

/// The directory that holds the `git` symlink: the shared
/// `<cache>/jj-worktree/bin` for a binary installed in `PATH`, else a
/// directory `jj-worktree.<hash>` (16 hexadecimal digits of the hash of the
/// binary's path) in the temporary directory.
pub open spec fn shim_bin_dir_of(cache_home: Seq<char>, installed: bool, temp_dir: Seq<char>, hash: u64) -> Seq<
    char,
> {
    if installed {
        push_path(push_path(cache_home, "jj-worktree"@), "bin"@)
    } else {
        push_path(temp_dir, "jj-worktree."@ + hex_digits(hash as nat, 16))
    }
}

/// The directory that holds the `git` symlink.
pub fn shim_bin_dir(cache_home: &str, installed: bool, temp_dir: &str, hash: u64) -> (r: String)
    ensures
        r@ == shim_bin_dir_of(cache_home@, installed, temp_dir@, hash),
{
    if installed {
        let d = join(cache_home, "jj-worktree");
        join(d.as_str(), "bin")
    } else {
        let mut name = String::from_str("jj-worktree.");
        push_hex(&mut name, hash, 16);
        join(temp_dir, name.as_str())
    }
}

} // verus!
