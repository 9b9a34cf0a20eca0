//! One adapter per language, and what they have in common: the interface of a
//! one-shot adapter, the heuristic that spots constructs spanning several
//! lines, and the loop that consumes the output of a preprocessed snippet.

use vstd::prelude::*;
use crate::protocol::{active_line, classify, end_sentinel, LineEvent};
use crate::text::{
    chars_of, contains, lines, lines_of, string_of, texts, trim_end, trim_end_of, views,
};

pub mod applescript;
pub mod python;
pub mod python_vision;
pub mod shell;

verus! {

/// An adapter for a language that runs in a fresh subprocess per snippet.
pub trait SubprocessCodeInterpreter {
    /// The command text that the adapter makes of a snippet.
    spec fn command_text(&self, code: Seq<char>) -> Seq<char>;

    /// What the adapter shows of an output line.
    spec fn shown_line(&self, line: Seq<char>) -> Seq<char>;

    /// The fully preprocessed command text for `code`.
    fn preprocess_code(&self, code: &str) -> (out: String)
        ensures
            out@ == self.command_text(code@),
    ;

    /// The output line as it is to be shown or buffered.
    fn line_postprocessor(&self, line: &str) -> (out: String)
        ensures
            out@ == self.shown_line(line@),
    ;

    /// The source line that an output line announces as running.
    fn detect_active_line(&self, line: &str) -> (n: Option<usize>)
        ensures
            n == active_line(line@),
    ;

    /// Whether an output line holds the end-of-execution sentinel.
    fn detect_end_of_execution(&self, line: &str) -> (ended: bool)
        ensures
            ended == contains(line@, end_sentinel()),
    ;
}

/// What the pattern engine says of `pattern` on `text`: whether it matches
/// somewhere, or nothing where the engine rejects the pattern.
pub uninterp spec fn regex_match(pattern: Seq<char>, text: Seq<char>) -> Option<bool>;

/// `regex::Regex::new` on `pattern`, then `Regex::is_match` on `text`:
/// whether the compiled pattern matches anywhere in the text. A pattern that
/// does not compile gives `None`.
#[verifier::external_body]
pub(crate) fn match_pattern(pattern: &str, text: &str) -> (outcome: Option<bool>)
    ensures
        outcome == regex_match(pattern@, text@),
{
    match regex::Regex::new(pattern) {
        Ok(compiled) => Some(compiled.is_match(text)),
        Err(_) => None,
    }
}

/// The patterns of a line after which a construct goes on: a trailing
/// backslash, pipe, `&&`, `||`, `<(`, `(` or `{`, the words `if`, `while`
/// and `for` anywhere, and a trailing `do` or `then`.
pub open spec fn continuation_patterns() -> Seq<Seq<char>> {
    seq![
        r"\\$"@,
        r"\|$"@,
        r"&&\s*$"@,
        r"\|\|\s*$"@,
        r"<\($"@,
        r"\($"@,
        r"\{\s*$"@,
        r"\bif\b"@,
        r"\bwhile\b"@,
        r"\bfor\b"@,
        r"do\s*$"@,
        r"then\s*$"@,
    ]
}

/// The continuation patterns, in the order in which they are tried.
pub fn continuation_pattern_list() -> (list: Vec<&'static str>)
    ensures
        list@.len() == continuation_patterns().len(),
        forall|k: int|
            0 <= k < list@.len() ==> (#[trigger] list@[k])@ == continuation_patterns()[k],
{
    let mut list: Vec<&'static str> = Vec::new();
    list.push(r"\\$");
    list.push(r"\|$");
    list.push(r"&&\s*$");
    list.push(r"\|\|\s*$");
    list.push(r"<\($");
    list.push(r"\($");
    list.push(r"\{\s*$");
    list.push(r"\bif\b");
    list.push(r"\bwhile\b");
    list.push(r"\bfor\b");
    list.push(r"do\s*$");
    list.push(r"then\s*$");
    list
}

/// Some pattern matched: at least one outcome is a match.
pub open spec fn flagged(outcomes: Seq<Option<bool>>) -> bool {
    exists|k: int| 0 <= k < outcomes.len() && #[trigger] outcomes[k] == Some(true)
}

/// Whether one of the outcomes of trying patterns on a line is a match. A
/// rejected pattern counts as no match.
pub fn any_flagged(outcomes: &Vec<Option<bool>>) -> (hit: bool)
    ensures
        hit == flagged(outcomes@),
{
    let mut k: usize = 0;
    while k < outcomes.len()
        invariant
            k <= outcomes.len(),
            forall|j: int| 0 <= j < k ==> #[trigger] outcomes@[j] != Some(true),
        decreases outcomes.len() - k,
    {
        match outcomes[k] {
            Some(true) => {
                return true;
            },
            _ => {},
        }
        k += 1;
    }
    false
}

/// The outcomes of the continuation patterns on a line without its trailing
/// white space.
pub open spec fn continuation_outcomes(line: Seq<char>) -> Seq<Option<bool>> {
    Seq::new(
        continuation_patterns().len(),
        |k: int| regex_match(continuation_patterns()[k], trim_end(line)),
    )
}

/// Some line of `script` matches a continuation pattern.
pub open spec fn spans_lines(script: Seq<char>) -> bool {
    exists|i: int|
        0 <= i < lines(script).len() && flagged(continuation_outcomes(#[trigger] lines(script)[i]))
}

/// Whether a script holds a construct that spans several lines, so that it
/// is better run as one unit than line by line. The answer is advice: it
/// says what the continuation patterns say of the single lines, no more.
pub fn has_multiline_commands(script_text: &str) -> (multiline: bool)
    ensures
        multiline == spans_lines(script_text@),
{
    let patterns = continuation_pattern_list();
    let chars = chars_of(script_text);
    let all = lines_of(&chars);
    let mut i: usize = 0;
    while i < all.len()
        invariant
            i <= all.len(),
            views(all@) == lines(script_text@),
            patterns@.len() == continuation_patterns().len(),
            forall|k: int|
                0 <= k < patterns@.len() ==> (#[trigger] patterns@[k])@
                    == continuation_patterns()[k],
            forall|j: int|
                0 <= j < i ==> !flagged(continuation_outcomes(#[trigger] lines(script_text@)[j])),
        decreases all.len() - i,
    {
        let trimmed = string_of(&trim_end_of(&all[i]));
        let ghost line = lines(script_text@)[i as int];
        assert(line == all@[i as int]@);
        let mut outcomes: Vec<Option<bool>> = Vec::new();
        let mut k: usize = 0;
        while k < patterns.len()
            invariant
                k <= patterns.len(),
                trimmed@ == trim_end(line),
                patterns@.len() == continuation_patterns().len(),
                forall|k: int|
                    0 <= k < patterns@.len() ==> (#[trigger] patterns@[k])@
                        == continuation_patterns()[k],
                outcomes@ == continuation_outcomes(line).take(k as int),
            decreases patterns.len() - k,
        {
            outcomes.push(match_pattern(patterns[k], trimmed.as_str()));
            assert(outcomes@ =~= continuation_outcomes(line).take(k + 1));
            k += 1;
        }
        assert(outcomes@ =~= continuation_outcomes(line));
        if any_flagged(&outcomes) {
            return true;
        }
        i += 1;
    }
    false
}

/// What the consuming loop makes of raw output lines, for an adapter whose
/// post-processing of a line is `shown`: each line is post-processed, the
/// reading ends before the first line that holds the sentinel, lines that
/// announce a source line are left out, and every other line is output.
pub open spec fn output_before_end(
    shown: spec_fn(Seq<char>) -> Seq<char>,
    raw: Seq<Seq<char>>,
) -> Seq<Seq<char>>
    decreases raw.len(),
{
    if raw.len() == 0 {
        Seq::empty()
    } else {
        match classify(shown(raw[0])) {
            LineEvent::EndOfExecution => Seq::empty(),
            LineEvent::ActiveLine(_) => output_before_end(shown, raw.drop_first()),
            LineEvent::PlainOutput => seq![shown(raw[0])] + output_before_end(
                shown,
                raw.drop_first(),
            ),
        }
    }
}

/// Some line of `raw`, post-processed, holds the sentinel and announces no
/// source line.
pub open spec fn reaches_end(shown: spec_fn(Seq<char>) -> Seq<char>, raw: Seq<Seq<char>>) -> bool {
    exists|i: int| 0 <= i < raw.len() && classify(shown(#[trigger] raw[i])) is EndOfExecution
}

/// What the consuming loop made of the raw output of one execution.
#[derive(Debug, PartialEq, Eq)]
pub struct Transcript {
    /// The output lines, in arrival order.
    pub output: Vec<String>,
    /// Whether the sentinel was seen.
    pub ended: bool,
}

/// Consumes raw output lines in arrival order and stops at the first that
/// holds the end-of-execution sentinel: what follows it is discarded. Each
/// line goes through the adapter's post-processing first. Lines that
/// announce a source line are progress, not output.
pub fn read_output<A: SubprocessCodeInterpreter>(adapter: &A, raw: &Vec<String>) -> (transcript:
    Transcript)
    ensures
        texts(transcript.output@) == output_before_end(
            |line: Seq<char>| adapter.shown_line(line),
            texts(raw@),
        ),
        transcript.ended == reaches_end(|line: Seq<char>| adapter.shown_line(line), texts(raw@)),
{
    let ghost shown = |line: Seq<char>| adapter.shown_line(line);
    let mut output: Vec<String> = Vec::new();
    let mut i: usize = 0;
    assert(texts(raw@).skip(0) =~= texts(raw@));
    assert(texts(output@) =~= Seq::<Seq<char>>::empty());
    while i < raw.len()
        invariant
            i <= raw.len(),
            shown == |line: Seq<char>| adapter.shown_line(line),
            output_before_end(shown, texts(raw@)) == texts(output@) + output_before_end(
                shown,
                texts(raw@).skip(i as int),
            ),
            forall|j: int|
                0 <= j < i ==> !(classify(shown(#[trigger] texts(raw@)[j])) is EndOfExecution),
        decreases raw.len() - i,
    {
        let ghost rest = texts(raw@).skip(i as int);
        proof {
            assert(rest[0] == raw@[i as int]@);
            assert(rest.drop_first() =~= texts(raw@).skip(i + 1));
        }
        let line = adapter.line_postprocessor(raw[i].as_str());
        assert(line@ == shown(texts(raw@)[i as int]));
        let event = match adapter.detect_active_line(line.as_str()) {
            Some(n) => LineEvent::ActiveLine(n),
            None => if adapter.detect_end_of_execution(line.as_str()) {
                LineEvent::EndOfExecution
            } else {
                LineEvent::PlainOutput
            },
        };
        assert(event == classify(line@));
        match event {
            LineEvent::EndOfExecution => {
                return Transcript { output, ended: true };
            },
            LineEvent::ActiveLine(_) => {},
            LineEvent::PlainOutput => {
                proof {
                    assert(texts(output@.push(line)) =~= texts(output@) + seq![line@]);
                }
                output.push(line);
            },
        }
        i += 1;
    }
    proof {
        assert(texts(raw@).skip(raw@.len() as int) =~= Seq::<Seq<char>>::empty());
    }
    Transcript { output, ended: false }
}

} // verus!
