//! The line protocol: progress markers and the end-of-execution sentinel that
//! a preprocessed snippet prints into its own output, and the scan that finds
//! them again in raw output lines, whichever adapter produced the text.

use vstd::prelude::*;
use crate::text::{
    chars_of, contains, decimal, decimal_of, find, find_from, find_in, is_digit, join, join_with,
    lemma_decimal_denotes, lemma_find_after, lemma_find_at_start, lemma_find_iff_contains,
    lemma_find_none, lemma_parse_decimal, line_feed, lines, lines_of, parse_number, parse_usize,
    push_all, slice_of, string_of, views,
};

verus! {

/// The text that opens a progress marker.
pub open spec fn marker_open() -> Seq<char> {
    "##active_line"@
}

/// The text that closes a progress marker.
pub open spec fn marker_close() -> Seq<char> {
    "##"@
}

/// The end-of-execution sentinel.
pub open spec fn end_sentinel() -> Seq<char> {
    "##end_of_execution##"@
}

/// The progress marker for source line `n`.
pub open spec fn marker(n: nat) -> Seq<char> {
    marker_open() + decimal(n) + marker_close()
}

/// The command that prints `text` on a line of its own.
pub open spec fn echo(text: Seq<char>) -> Seq<char> {
    "echo \""@ + text + "\""@
}

/// A source line with the command before it that announces it. Lines are
/// numbered from 1; `index` counts them from 0.
pub open spec fn announced(index: int, line: Seq<char>) -> Seq<char> {
    echo(marker((index + 1) as nat)) + line_feed() + line
}

/// Each line of `source` with its announcement before it.
pub open spec fn announced_lines(source: Seq<Seq<char>>) -> Seq<Seq<char>> {
    Seq::new(source.len(), |i: int| announced(i, source[i]))
}

/// `code` with one progress marker before each of its lines, each marker
/// directly followed by the line that it announces.
pub open spec fn with_active_line_prints(code: Seq<char>) -> Seq<char> {
    join(announced_lines(lines(code)), line_feed())
}

/// `text` with the command that prints the sentinel as its last line.
pub open spec fn with_end_sentinel(text: Seq<char>) -> Seq<char> {
    text + line_feed() + echo(end_sentinel())
}

/// The line number that a line of output announces, if it announces one.
///
/// The number is read from what follows the first `##active_line` of the
/// line, up to the next `##active_line` and, within that, up to the first
/// `##`. A line without `##active_line` announces nothing, and neither does
/// one whose text at that place is not a number.
pub open spec fn active_line(line: Seq<char>) -> Option<usize> {
    match find(line, marker_open()) {
        None => None,
        Some(at) => {
            let rest = line.subrange(at + marker_open().len(), line.len() as int);
            let upto_next = match find(rest, marker_open()) {
                Some(next) => rest.subrange(0, next),
                None => rest,
            };
            let number = match find(upto_next, marker_close()) {
                Some(end) => upto_next.subrange(0, end),
                None => upto_next,
            };
            parse_usize(number)
        },
    }
}

/// What a line of output is to the consuming loop.
#[derive(Clone, Copy, Debug, PartialEq, Eq, Structural)]
pub enum LineEvent {
    /// The line announces that source line `n` is now running.
    ActiveLine(usize),
    /// The line holds the end-of-execution sentinel.
    EndOfExecution,
    /// Anything else: output of the program.
    PlainOutput,
}

/// The class of a line. A marker with a number wins over the sentinel.
pub open spec fn classify(line: Seq<char>) -> LineEvent {
    match active_line(line) {
        Some(n) => LineEvent::ActiveLine(n),
        None => if contains(line, end_sentinel()) {
            LineEvent::EndOfExecution
        } else {
            LineEvent::PlainOutput
        },
    }
}

/// The characters of the progress marker for source line `n`.
pub fn marker_chars(n: usize) -> (out: Vec<char>)
    ensures
        out@ == marker(n as nat),
{
    let mut chars = chars_of("##active_line");
    let digits = decimal_of(n);
    push_all(&mut chars, &digits);
    let close = chars_of("##");
    push_all(&mut chars, &close);
    chars
}

/// The progress marker for source line `n`, as a snippet prints it.
///
/// The line number that `detect_active_line` reads from the marker is `n`.
pub fn format_marker(n: usize) -> (out: String)
    ensures
        out@ == marker(n as nat),
        active_line(out@) == Some(n),
{
    proof {
        lemma_marker_round_trip(n);
    }
    string_of(&marker_chars(n))
}

/// The characters of the command that prints `text`.
pub fn echo_chars(text: &Vec<char>) -> (out: Vec<char>)
    ensures
        out@ == echo(text@),
{
    let mut out = chars_of("echo \"");
    push_all(&mut out, text);
    let quote = chars_of("\"");
    push_all(&mut out, &quote);
    out
}

/// `code` with one progress marker before each of its lines.
pub fn announce_lines(code: &Vec<char>) -> (out: Vec<char>)
    ensures
        out@ == with_active_line_prints(code@),
{
    let source = lines_of(code);
    let mut feed: Vec<char> = Vec::new();
    feed.push('\n');
    assert(feed@ =~= line_feed());
    let mut blocks: Vec<Vec<char>> = Vec::new();
    let mut i: usize = 0;
    while i < source.len()
        invariant
            i <= source.len(),
            feed@ == line_feed(),
            views(source@) == lines(code@),
            views(blocks@) == announced_lines(lines(code@)).take(i as int),
        decreases source.len() - i,
    {
        let mut block = echo_chars(&marker_chars(i + 1));
        push_all(&mut block, &feed);
        push_all(&mut block, &source[i]);
        proof {
            assert(source@[i as int]@ == lines(code@)[i as int]);
            assert(block@ == announced(i as int, lines(code@)[i as int]));
            let all = announced_lines(lines(code@));
            assert(views(blocks@.push(block)) =~= views(blocks@).push(block@));
            assert(all.take(i + 1) =~= all.take(i as int).push(all[i as int]));
        }
        blocks.push(block);
        i += 1;
    }
    assert(announced_lines(lines(code@)).take(source.len() as int) =~= announced_lines(
        lines(code@),
    ));
    join_with(&blocks, &feed)
}

/// `text` with the command that prints the sentinel as its last line.
pub fn append_end_sentinel(text: &mut Vec<char>)
    ensures
        final(text)@ == with_end_sentinel(old(text)@),
{
    text.push('\n');
    assert(text@ =~= old(text)@ + line_feed());
    let sentinel = echo_chars(&chars_of("##end_of_execution##"));
    push_all(text, &sentinel);
}

/// The line number that `line` announces.
pub fn detect_active_line(line: &str) -> (n: Option<usize>)
    ensures
        n == active_line(line@),
        !contains(line@, marker_open()) ==> n is None,
{
    let chars = chars_of(line);
    let open = chars_of("##active_line");
    let close = chars_of("##");
    match find_in(&chars, &open) {
        None => None,
        Some(at) => {
            let from: usize = at + open.len();
            let ghost rest = chars@.subrange(from as int, chars.len() as int);
            let next: usize = match find_from(&chars, &open, from) {
                Some(next) => next,
                None => chars.len(),
            };
            let upto_next = slice_of(&chars, from, next);
            assert(upto_next@ =~= rest.subrange(0, next - from));
            assert(next == chars.len() ==> upto_next@ =~= rest);
            let number = match find_in(&upto_next, &close) {
                Some(end) => slice_of(&upto_next, 0, end),
                None => upto_next,
            };
            parse_number(&number)
        },
    }
}

/// Whether `line` holds the end-of-execution sentinel.
pub fn detect_end_of_execution(line: &str) -> (ended: bool)
    ensures
        ended == contains(line@, end_sentinel()),
{
    let chars = chars_of(line);
    let sentinel = chars_of("##end_of_execution##");
    find_in(&chars, &sentinel).is_some()
}

/// The class of a raw output line.
pub fn classify_line(line: &str) -> (event: LineEvent)
    ensures
        event == classify(line@),
{
    match detect_active_line(line) {
        Some(n) => LineEvent::ActiveLine(n),
        None => if detect_end_of_execution(line) {
            LineEvent::EndOfExecution
        } else {
            LineEvent::PlainOutput
        },
    }
}

/// Detection reads back the number that a marker was made for.
pub proof fn lemma_marker_round_trip(n: usize)
    ensures
        active_line(marker(n as nat)) == Some(n),
{
    reveal_strlit("##active_line");
    reveal_strlit("##");
    lemma_decimal_denotes(n as nat);
    let open = marker_open();
    let close = marker_close();
    let digits = decimal(n as nat);
    let line = marker(n as nat);
    assert forall|i: int| 0 <= i < digits.len() implies digits[i] != '#' by {
        assert(is_digit(digits[i]));
    }
    assert(line =~= open + (digits + close));
    lemma_find_at_start(open, digits + close);
    let rest = line.subrange(open.len() as int, line.len() as int);
    assert(rest =~= digits + close);
    lemma_find_none(digits, open, close);
    assert(rest =~= digits + close + Seq::<char>::empty());
    lemma_find_after(digits, close, Seq::<char>::empty());
    assert(rest.subrange(0, digits.len() as int) =~= digits);
    lemma_parse_decimal(n);
}

/// A line without `##active_line` announces no line number.
pub proof fn lemma_no_marker_no_number(line: Seq<char>)
    requires
        !contains(line, marker_open()),
    ensures
        active_line(line) is None,
        !(classify(line) is ActiveLine),
{
    lemma_find_iff_contains(line, marker_open());
}

} // verus!
