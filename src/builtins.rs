//! The commands that the interpreter runs itself.
use vstd::prelude::*;

use crate::text::str_eq;

verus! {

/// The closed set of builtin commands.
#[derive(Clone, Copy, PartialEq, Eq, Structural, Debug)]
pub enum BuiltinKind {
    Echo,
    Cd,
    Pwd,
    Type,
    Exit,
}

/// The builtin that `name` invokes, if any: an exact match, no prefixes.
pub open spec fn builtin_of(name: Seq<char>) -> Option<BuiltinKind> {
    if name == "echo"@ {
        Some(BuiltinKind::Echo)
    } else if name == "cd"@ {
        Some(BuiltinKind::Cd)
    } else if name == "pwd"@ {
        Some(BuiltinKind::Pwd)
    } else if name == "type"@ {
        Some(BuiltinKind::Type)
    } else if name == "exit"@ {
        Some(BuiltinKind::Exit)
    } else {
        None
    }
}

/// Whether `name` is the name of a builtin.
pub open spec fn is_builtin_name(name: Seq<char>) -> bool {
    builtin_of(name) is Some
}

/// Resolves a command name against the builtins.
pub fn resolve_builtin(name: &str) -> (r: Option<BuiltinKind>)
    ensures
        r == builtin_of(name@),
{
    if str_eq(name, "echo") {
        Some(BuiltinKind::Echo)
    } else if str_eq(name, "cd") {
        Some(BuiltinKind::Cd)
    } else if str_eq(name, "pwd") {
        Some(BuiltinKind::Pwd)
    } else if str_eq(name, "type") {
        Some(BuiltinKind::Type)
    } else if str_eq(name, "exit") {
        Some(BuiltinKind::Exit)
    } else {
        None
    }
}

} // verus!
