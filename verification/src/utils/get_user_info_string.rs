//! The paragraph of the prompt that describes the user.

use vstd::prelude::*;
use crate::text::{chars_of, push_all, string_of};

verus! {

/// The paragraph that describes the user: a heading, then the name, the
/// working directory, the shell and the operating system, one on a line.
pub open spec fn user_info(
    username: Seq<char>,
    current_working_directory: Seq<char>,
    default_shell: Seq<char>,
    operating_system: Seq<char>,
) -> Seq<char> {
    "[User Info]\nName: "@ + username + "\nCWD: "@ + current_working_directory + "\nSHELL: "@
        + default_shell + "\nOS: "@ + operating_system
}

/// The paragraph that describes the user.
pub fn get_user_info_string(
    username: &str,
    current_working_directory: &str,
    default_shell: &str,
    operating_system: &str,
) -> (out: String)
    ensures
        out@ == user_info(
            username@,
            current_working_directory@,
            default_shell@,
            operating_system@,
        ),
{
    let mut text = chars_of("[User Info]\nName: ");
    push_all(&mut text, &chars_of(username));
    push_all(&mut text, &chars_of("\nCWD: "));
    push_all(&mut text, &chars_of(current_working_directory));
    push_all(&mut text, &chars_of("\nSHELL: "));
    push_all(&mut text, &chars_of(default_shell));
    push_all(&mut text, &chars_of("\nOS: "));
    push_all(&mut text, &chars_of(operating_system));
    string_of(&text)
}

} // verus!
