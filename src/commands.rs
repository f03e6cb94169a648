//! What a command line asks for: which builtin or external program runs
//! with which arguments, and the texts the builtins report.
use vstd::prelude::*;

use crate::builtins::{builtin_of, resolve_builtin, BuiltinKind};
use crate::text::{starts_with, str_eq, strings_view};
use crate::tokenizer::{parse_parameters, tokens};

verus! {

/// A command to run: a builtin, or an external program by name, each with
/// its arguments.
#[derive(Debug, PartialEq, Eq)]
pub enum Dispatch {
    Builtin(BuiltinKind, Vec<String>),
    External(String, Vec<String>),
}

/// Tokenizes a line and decides what it runs: the first token names the
/// command, a builtin if it is one, else an external program; the other
/// tokens are its arguments. A line with no tokens runs nothing.
pub fn plan_command(line: &str) -> (r: Option<Dispatch>)
    ensures
        match r {
            None => tokens(line@).len() == 0,
            Some(Dispatch::Builtin(k, args)) => {
                &&& tokens(line@).len() > 0
                &&& builtin_of(tokens(line@)[0]) == Some(k)
                &&& strings_view(args@) == tokens(line@).drop_first()
            },
            Some(Dispatch::External(name, args)) => {
                &&& tokens(line@).len() > 0
                &&& builtin_of(tokens(line@)[0]) is None
                &&& name@ == tokens(line@)[0]
                &&& strings_view(args@) == tokens(line@).drop_first()
            },
        },
{
    let mut args = parse_parameters(line);
    if args.len() == 0 {
        return None;
    }
    let ghost toks = strings_view(args@);
    let name = args.remove(0);
    assert(strings_view(args@) =~= toks.drop_first());
    match resolve_builtin(name.as_str()) {
        Some(k) => Some(Dispatch::Builtin(k, args)),
        None => Some(Dispatch::External(name, args)),
    }
}

/// Whether `exit` was given arguments that it accepts: none, or just `0`.
pub fn exit_requested(args: &Vec<String>) -> (r: bool)
    ensures
        r == (args@.len() == 0 || (args@.len() == 1 && args@[0]@ == "0"@)),
{
    args.len() == 0 || (args.len() == 1 && str_eq(args[0].as_str(), "0"))
}

/// Why `cd` could not work out where to go.
#[derive(Clone, Copy, PartialEq, Eq, Structural, Debug)]
pub enum CdError {
    MissingArgument,
    HomeUnset,
}

/// The directory that `cd` goes to: its first argument, where a leading `~`
/// (alone or before `/`) stands for the home directory.
pub open spec fn cd_destination(args: Seq<Seq<char>>, home: Option<Seq<char>>) -> Result<
    Seq<char>,
    CdError,
> {
    if args.len() == 0 {
        Err(CdError::MissingArgument)
    } else if args[0] == "~"@ || "~/"@.is_prefix_of(args[0]) {
        match home {
            Some(h) => Ok(h + args[0].subrange(1, args[0].len() as int)),
            None => Err(CdError::HomeUnset),
        }
    } else {
        Ok(args[0])
    }
}

/// Works out the directory that `cd` goes to, given its arguments and the
/// home directory, if one is set.
pub fn cd_target(args: &Vec<String>, home: Option<&str>) -> (r: Result<String, CdError>)
    ensures
        match r {
            Ok(t) => Ok(t@),
            Err(e) => Err(e),
        } == cd_destination(
            strings_view(args@),
            match home {
                Some(h) => Some(h@),
                None => None,
            },
        ),
{
    if args.len() == 0 {
        return Err(CdError::MissingArgument);
    }
    let a = args[0].as_str();
    assert(a@ == strings_view(args@)[0]);
    if str_eq(a, "~") || starts_with(a, "~/") {
        match home {
            Some(h) => {
                proof {
                    reveal_strlit("~");
                    reveal_strlit("~/");
                }
                let mut t = String::new();
                t.append(h);
                t.append(a.substring_char(1, a.unicode_len()));
                Ok(t)
            },
            None => Err(CdError::HomeUnset),
        }
    } else {
        let mut t = String::new();
        t.append(a);
        Ok(t)
    }
}

/// The report for a `cd` that could not work out its destination.
pub fn cd_error_message(e: CdError) -> (r: String)
    ensures
        r@ == match e {
            CdError::MissingArgument => "cd: missing argument"@,
            CdError::HomeUnset => "cd: HOME environment variable not set"@,
        },
{
    let mut r = String::new();
    match e {
        CdError::MissingArgument => r.append("cd: missing argument"),
        CdError::HomeUnset => r.append("cd: HOME environment variable not set"),
    }
    r
}

/// How changing into a directory failed.
#[derive(Clone, Debug, PartialEq, Eq)]
pub enum CdFailure {
    NotFound,
    Other(String),
}

/// The report for a directory change that failed: a fixed text when the
/// directory does not exist, else the system's own message.
pub fn cd_failure_message(target: &str, failure: &CdFailure) -> (r: String)
    ensures
        r@ == "cd: "@ + target@ + match failure {
            CdFailure::NotFound => ": No such file or directory"@,
            CdFailure::Other(m) => ": "@ + m@,
        },
{
    let mut r = String::new();
    r.append("cd: ");
    r.append(target);
    match failure {
        CdFailure::NotFound => r.append(": No such file or directory"),
        CdFailure::Other(m) => {
            r.append(": ");
            r.append(m.as_str());
        },
    }
    assert(r@ =~= "cd: "@ + target@ + match failure {
        CdFailure::NotFound => ": No such file or directory"@,
        CdFailure::Other(m) => ": "@ + m@,
    });
    r
}

/// What `type` reports on `name`, given where the search path resolves it.
pub fn type_report(name: &str, resolved: Option<&str>) -> (r: String)
    ensures
        r@ == if builtin_of(name@) is Some {
            name@ + " is a shell builtin"@
        } else {
            match resolved {
                Some(p) => name@ + " is "@ + p@,
                None => name@ + ": not found"@,
            }
        },
{
    let mut r = String::new();
    r.append(name);
    if resolve_builtin(name).is_some() {
        r.append(" is a shell builtin");
    } else {
        match resolved {
            Some(p) => {
                r.append(" is ");
                r.append(p);
                assert(r@ =~= name@ + " is "@ + p@);
            },
            None => r.append(": not found"),
        }
    }
    r
}

/// The report for a command that could not be run.
pub fn not_found_message(name: &str) -> (r: String)
    ensures
        r@ == name@ + ": command not found"@,
{
    let mut r = String::new();
    r.append(name);
    r.append(": command not found");
    r
}

/// The decimal digits of `n`, most significant first.
pub open spec fn decimal(n: nat) -> Seq<char>
    decreases n,
{
    if n < 10 {
        seq!["0123456789"@[n as int]]
    } else {
        decimal(n / 10).push("0123456789"@[(n % 10) as int])
    }
}

/// `n` written in decimal, with a leading `-` when negative.
pub open spec fn int_text(n: int) -> Seq<char> {
    if n < 0 {
        seq!['-'] + decimal((-n) as nat)
    } else {
        decimal(n as nat)
    }
}

fn push_decimal(r: &mut String, n: u32)
    ensures
        final(r)@ == old(r)@ + decimal(n as nat),
    decreases n,
{
    let digits = "0123456789";
    proof {
        reveal_strlit("0123456789");
    }
    let d = (n % 10) as usize;
    if n >= 10 {
        push_decimal(r, n / 10);
    }
    let ghost before = r@;
    r.append(digits.substring_char(d, d + 1));
    assert(digits@.subrange(d as int, d + 1) =~= seq![digits@[d as int]]);
    assert(final(r)@ =~= old(r)@ + decimal(n as nat));
}

/// The report for an external program that ended with a failing status.
pub fn exit_status_message(name: &str, code: i32) -> (r: String)
    ensures
        r@ == name@ + ": command exited with status "@ + int_text(code as int),
{
    let mut r = String::new();
    r.append(name);
    r.append(": command exited with status ");
    let ghost head = r@;
    if code < 0 {
        r.append("-");
        proof {
            reveal_strlit("-");
        }
        let magnitude: u32 = if code == i32::MIN {
            2147483648u32
        } else {
            (-code) as u32
        };
        push_decimal(&mut r, magnitude);
        assert(r@ =~= head + int_text(code as int));
    } else {
        push_decimal(&mut r, code as u32);
    }
    r
}

} // verus!
