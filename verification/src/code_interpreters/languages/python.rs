//! Python snippets in a fresh subprocess: the interpreter for code, the
//! package installer for a line that begins with `!`.

use vstd::prelude::*;
use crate::execution::{Invocation, InvocationView};
use crate::text::{
    chars_of, matches_at, replace, replace_all, split, split_on, starts_with, strings_of,
};

verus! {

/// Whether a snippet is a command for the package installer: it begins with
/// an exclamation mark.
pub open spec fn is_package_command(code: Seq<char>) -> bool {
    starts_with(code, "!"@)
}

/// The arguments for the package installer: the snippet without every
/// `!pip `, cut at each single space.
pub open spec fn package_arguments(code: Seq<char>) -> Seq<Seq<char>> {
    split(replace(code, "!pip "@, Seq::empty()), " "@)
}

/// The arguments for the interpreter: `-i -q -u `, cut at each single space,
/// so that the last argument is empty.
pub open spec fn interpreter_arguments() -> Seq<Seq<char>> {
    split("-i -q -u "@, " "@)
}

/// The subprocess for a Python snippet. A package command goes to `pip3`
/// with its arguments and an empty payload. Any other snippet is the payload
/// of `python3`, which reads it from standard input.
pub open spec fn python_command(code: Seq<char>) -> InvocationView {
    if is_package_command(code) {
        InvocationView {
            program: "pip3"@,
            arguments: package_arguments(code),
            payload: Seq::empty(),
        }
    } else {
        InvocationView {
            program: "python3"@,
            arguments: interpreter_arguments(),
            payload: code,
        }
    }
}

/// The subprocess that runs a Python snippet.
pub fn python_invocation(code: &str) -> (invocation: Invocation)
    ensures
        invocation@ == python_command(code@),
{
    let chars = chars_of(code);
    let space = chars_of(" ");
    proof {
        reveal_strlit(" ");
        reveal_strlit("!pip ");
    }
    if matches_at(&chars, &chars_of("!"), 0) {
        let empty: Vec<char> = Vec::new();
        let command = replace_all(&chars, &chars_of("!pip "), &empty);
        let arguments = strings_of(&split_on(&command, &space));
        Invocation { program: "pip3".to_owned(), arguments, payload: String::new() }
    } else {
        let arguments = strings_of(&split_on(&chars_of("-i -q -u "), &space));
        Invocation { program: "python3".to_owned(), arguments, payload: code.to_owned() }
    }
}

} // verus!
