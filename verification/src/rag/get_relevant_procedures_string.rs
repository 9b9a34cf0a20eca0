//! The paragraph of the prompt that lists the recommended procedures.

use vstd::prelude::*;
use crate::text::{chars_list, chars_of, join, join_with, push_all, string_of, texts};

verus! {

/// What stands between two procedures.
pub open spec fn procedure_separator() -> Seq<char> {
    "\n---\n"@
}

/// The heading of the paragraph.
pub open spec fn procedures_heading() -> Seq<char> {
    "[Recommended Procedures]\n"@
}

/// The closing advice of the paragraph.
pub open spec fn procedures_advice() -> Seq<char> {
    "\nIn your plan, include steps and, for relevant deprecation notices, **EXACT CODE SNIPPETS** -- these notices will VANISH once you execute your first line of code, so WRITE THEM DOWN NOW if you need them."@
}

/// The paragraph for `procedures`: the heading, the procedures with the
/// separator between them, and the closing advice.
pub open spec fn relevant_procedures(procedures: Seq<Seq<char>>) -> Seq<char> {
    procedures_heading() + join(procedures, procedure_separator()) + procedures_advice()
}

/// The paragraph that lists the recommended procedures.
pub fn get_relevant_procedures_string(procedures: &Vec<String>) -> (out: String)
    ensures
        out@ == relevant_procedures(texts(procedures@)),
{
    let mut text = chars_of("[Recommended Procedures]\n");
    let listed = join_with(&chars_list(procedures), &chars_of("\n---\n"));
    push_all(&mut text, &listed);
    push_all(
        &mut text,
        &chars_of(
            "\nIn your plan, include steps and, for relevant deprecation notices, **EXACT CODE SNIPPETS** -- these notices will VANISH once you execute your first line of code, so WRITE THEM DOWN NOW if you need them.",
        ),
    );
    string_of(&text)
}

} // verus!
