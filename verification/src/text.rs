//! Character-sequence algorithms that the adapters and the line protocol share.
//!
//! Every function works on the characters of a text (`Seq<char>` in
//! contracts, `Vec<char>` in code), so that a position is an index into the
//! characters and not into their encoding.

use vstd::prelude::*;

verus! {

/// `pat` stands in `text` at position `at`.
pub open spec fn occurs_at(text: Seq<char>, pat: Seq<char>, at: int) -> bool {
    &&& 0 <= at
    &&& at + pat.len() <= text.len()
    &&& text.subrange(at, at + pat.len()) == pat
}

/// `pat` stands somewhere in `text`.
pub open spec fn contains(text: Seq<char>, pat: Seq<char>) -> bool {
    exists|at: int| occurs_at(text, pat, at)
}

/// `at` is the leftmost position at which `pat` stands in `text`.
pub open spec fn first_at(text: Seq<char>, pat: Seq<char>, at: int) -> bool {
    &&& occurs_at(text, pat, at)
    &&& forall|before: int| 0 <= before < at ==> !occurs_at(text, pat, before)
}

/// The leftmost position at which `pat` stands in `text`, if there is one.
pub open spec fn find(text: Seq<char>, pat: Seq<char>) -> Option<int> {
    if exists|at: int| first_at(text, pat, at) {
        Some(choose|at: int| first_at(text, pat, at))
    } else {
        None
    }
}

/// `text` begins with `pat`.
pub open spec fn starts_with(text: Seq<char>, pat: Seq<char>) -> bool {
    occurs_at(text, pat, 0)
}

/// A leftmost occurrence is the value of `find`, and there is no other.
pub proof fn lemma_find_is_first(text: Seq<char>, pat: Seq<char>, at: int)
    requires
        first_at(text, pat, at),
    ensures
        find(text, pat) == Some(at),
{
    let chosen = choose|k: int| first_at(text, pat, k);
    assert(first_at(text, pat, chosen));
    if chosen < at {
        assert(!occurs_at(text, pat, chosen));
    } else if at < chosen {
        assert(!occurs_at(text, pat, at));
    }
}

/// Where `pat` stands nowhere up to `limit`, no occurrence starts before it.
proof fn lemma_none_below(text: Seq<char>, pat: Seq<char>, limit: int)
    requires
        forall|k: int| 0 <= k < limit ==> !occurs_at(text, pat, k),
        limit + pat.len() > text.len(),
    ensures
        !contains(text, pat),
        find(text, pat) is None,
{
    assert forall|k: int| !occurs_at(text, pat, k) by {
        if 0 <= k < limit {
        } else {
        }
    }
}

/// `find` yields a position exactly when `pat` stands in `text`.
pub proof fn lemma_find_iff_contains(text: Seq<char>, pat: Seq<char>)
    ensures
        find(text, pat) is Some <==> contains(text, pat),
        find(text, pat) matches Some(at) ==> first_at(text, pat, at),
{
    if contains(text, pat) {
        let k = choose|k: int| occurs_at(text, pat, k);
        lemma_leftmost_exists(text, pat, k);
    }
    if find(text, pat) is Some {
        let at = choose|at: int| first_at(text, pat, at);
        assert(occurs_at(text, pat, at));
    }
}

/// An occurrence at `at` forces a leftmost occurrence at or before it.
proof fn lemma_leftmost_exists(text: Seq<char>, pat: Seq<char>, at: int)
    requires
        occurs_at(text, pat, at),
    ensures
        exists|first: int| first_at(text, pat, first) && first <= at,
    decreases at,
{
    if exists|before: int| 0 <= before < at && occurs_at(text, pat, before) {
        let before = choose|before: int| 0 <= before < at && occurs_at(text, pat, before);
        lemma_leftmost_exists(text, pat, before);
        let first = choose|first: int| first_at(text, pat, first) && first <= before;
        assert(first_at(text, pat, first) && first <= at);
    } else {
        assert(first_at(text, pat, at));
    }
}

/// A text that begins with `pat` has its first occurrence at the start.
pub proof fn lemma_find_at_start(pat: Seq<char>, tail: Seq<char>)
    ensures
        find(pat + tail, pat) == Some(0int),
{
    let text = pat + tail;
    assert(text.subrange(0, pat.len() as int) =~= pat);
    assert(first_at(text, pat, 0));
    lemma_find_is_first(text, pat, 0);
}

/// Behind a prefix that nowhere holds the first character of `pat`, the
/// first occurrence of `pat` is where the prefix ends.
pub proof fn lemma_find_after(prefix: Seq<char>, pat: Seq<char>, tail: Seq<char>)
    requires
        pat.len() > 0,
        forall|i: int| 0 <= i < prefix.len() ==> prefix[i] != pat[0],
    ensures
        find(prefix + pat + tail, pat) == Some(prefix.len() as int),
{
    let text = prefix + pat + tail;
    let at = prefix.len() as int;
    assert(text.subrange(at, at + pat.len()) =~= pat);
    assert forall|k: int| 0 <= k < at implies !occurs_at(text, pat, k) by {
        if occurs_at(text, pat, k) {
            assert(text.subrange(k, k + pat.len())[0] == text[k]);
            assert(text[k] == prefix[k]);
        }
    }
    assert(first_at(text, pat, at));
    lemma_find_is_first(text, pat, at);
}

/// A text made of a prefix that nowhere holds the first character of `pat`
/// and of a tail shorter than `pat` does not hold `pat`.
pub proof fn lemma_find_none(prefix: Seq<char>, pat: Seq<char>, tail: Seq<char>)
    requires
        pat.len() > tail.len(),
        forall|i: int| 0 <= i < prefix.len() ==> prefix[i] != pat[0],
    ensures
        find(prefix + tail, pat) is None,
        !contains(prefix + tail, pat),
{
    let text = prefix + tail;
    assert forall|k: int| !occurs_at(text, pat, k) by {
        if occurs_at(text, pat, k) {
            assert(text.subrange(k, k + pat.len())[0] == text[k]);
            assert(text[k] == prefix[k]);
        }
    }
}

/// The characters of `s`, in order.
pub fn chars_of(s: &str) -> (out: Vec<char>)
    ensures
        out@ == s@,
{
    broadcast use vstd::string::group_string_axioms;

    let mut out: Vec<char> = Vec::new();
    for c in it: s.chars()
        invariant
            it.seq() == s@,
            out@ == it.seq().take(it.index()),
    {
        out.push(c);
    }
    out
}

/// `String::from_iter` over the characters of a vector: the string that
/// holds exactly these characters, in this order.
#[verifier::external_body]
pub(crate) fn string_of(chars: &Vec<char>) -> (out: String)
    ensures
        out@ == chars@,
{
    String::from_iter(chars)
}

/// A copy of the characters of `text` from `from` up to `to`.
pub fn slice_of(text: &Vec<char>, from: usize, to: usize) -> (out: Vec<char>)
    requires
        from <= to <= text.len(),
    ensures
        out@ == text@.subrange(from as int, to as int),
{
    let mut out: Vec<char> = Vec::new();
    let mut i: usize = from;
    while i < to
        invariant
            from <= i <= to <= text.len(),
            out@ == text@.subrange(from as int, i as int),
        decreases to - i,
    {
        out.push(text[i]);
        i += 1;
    }
    out
}

/// Appends the characters of `tail` to `head`.
pub fn push_all(head: &mut Vec<char>, tail: &Vec<char>)
    ensures
        final(head)@ == old(head)@ + tail@,
{
    let mut i: usize = 0;
    while i < tail.len()
        invariant
            i <= tail.len(),
            head@ == old(head)@ + tail@.take(i as int),
        decreases tail.len() - i,
    {
        head.push(tail[i]);
        i += 1;
    }
}

/// Whether `pat` stands in `text` at position `at`.
pub fn matches_at(text: &Vec<char>, pat: &Vec<char>, at: usize) -> (hit: bool)
    ensures
        hit == occurs_at(text@, pat@, at as int),
{
    if pat.len() > text.len() || at > text.len() - pat.len() {
        return false;
    }
    let mut k: usize = 0;
    while k < pat.len()
        invariant
            k <= pat.len(),
            at + pat.len() <= text.len(),
            forall|j: int| 0 <= j < k ==> text@[at + j] == pat@[j],
        decreases pat.len() - k,
    {
        if text[at + k] != pat[k] {
            assert(text@.subrange(at as int, at + pat.len())[k as int] == text@[at + k]);
            return false;
        }
        k += 1;
    }
    assert(text@.subrange(at as int, at + pat.len()) =~= pat@);
    true
}

/// An occurrence in the text from `from` on is an occurrence in the whole
/// text, `from` characters further to the right.
pub proof fn lemma_occurs_shifted(text: Seq<char>, pat: Seq<char>, from: int, at: int)
    requires
        0 <= from <= text.len(),
        0 <= at,
    ensures
        occurs_at(text.subrange(from, text.len() as int), pat, at) == occurs_at(
            text,
            pat,
            from + at,
        ),
{
    let rest = text.subrange(from, text.len() as int);
    if at + pat.len() <= rest.len() {
        assert(rest.subrange(at, at + pat.len()) =~= text.subrange(
            from + at,
            from + at + pat.len(),
        ));
    }
}

/// The leftmost position, counted from the start of `text`, at which `pat`
/// stands in the part of `text` that begins at `from`.
pub fn find_from(text: &Vec<char>, pat: &Vec<char>, from: usize) -> (found: Option<usize>)
    requires
        from <= text.len(),
    ensures
        found matches Some(at) ==> from <= at && at + pat.len() <= text.len() && find(
            text@.subrange(from as int, text.len() as int),
            pat@,
        ) == Some(at - from),
        found is None ==> find(text@.subrange(from as int, text.len() as int), pat@) is None,
        found is Some <==> contains(text@.subrange(from as int, text.len() as int), pat@),
{
    let ghost rest = text@.subrange(from as int, text.len() as int);
    if pat.len() > text.len() - from {
        proof {
            lemma_none_below(rest, pat@, 0);
        }
        return None;
    }
    let last: usize = text.len() - pat.len();
    let mut at: usize = from;
    loop
        invariant
            from <= at <= last,
            last == text.len() - pat.len(),
            rest == text@.subrange(from as int, text.len() as int),
            forall|k: int| 0 <= k < at - from ==> !occurs_at(rest, pat@, k),
        decreases last - at,
    {
        proof {
            lemma_occurs_shifted(text@, pat@, from as int, at - from);
        }
        if matches_at(text, pat, at) {
            proof {
                lemma_find_is_first(rest, pat@, at - from);
            }
            return Some(at);
        }
        if at == last {
            proof {
                lemma_none_below(rest, pat@, at + 1 - from);
            }
            return None;
        }
        at += 1;
    }
}

/// The leftmost position at which `pat` stands in `text`.
pub fn find_in(text: &Vec<char>, pat: &Vec<char>) -> (found: Option<usize>)
    ensures
        found matches Some(at) ==> at + pat.len() <= text.len() && find(text@, pat@) == Some(
            at as int,
        ),
        found is None ==> find(text@, pat@) is None,
        found is Some <==> contains(text@, pat@),
{
    assert(text@.subrange(0, text.len() as int) =~= text@);
    find_from(text, pat, 0)
}

/// The views of a list of texts.
pub open spec fn views(parts: Seq<Vec<char>>) -> Seq<Seq<char>> {
    Seq::new(parts.len(), |i: int| parts[i]@)
}

/// The texts of a list of strings.
pub open spec fn texts(list: Seq<String>) -> Seq<Seq<char>> {
    Seq::new(list.len(), |i: int| list[i]@)
}

/// The parts of `text` between the occurrences of `pat`, found from left to
/// right without overlap. A text without `pat` is its own single part, and
/// so is any text where `pat` is empty.
pub open spec fn split(text: Seq<char>, pat: Seq<char>) -> Seq<Seq<char>>
    decreases text.len(),
{
    match find(text, pat) {
        Some(at) => if pat.len() > 0 && 0 <= at && at + pat.len() <= text.len() {
            seq![text.subrange(0, at)] + split(
                text.subrange(at + pat.len(), text.len() as int),
                pat,
            )
        } else {
            seq![text]
        },
        None => seq![text],
    }
}

/// `text` with every occurrence of `pat`, found from left to right without
/// overlap, replaced by `with`. An empty `pat` leaves the text as it is.
pub open spec fn replace(text: Seq<char>, pat: Seq<char>, with: Seq<char>) -> Seq<char>
    decreases text.len(),
{
    match find(text, pat) {
        Some(at) => if pat.len() > 0 && 0 <= at && at + pat.len() <= text.len() {
            text.subrange(0, at) + with + replace(
                text.subrange(at + pat.len(), text.len() as int),
                pat,
                with,
            )
        } else {
            text
        },
        None => text,
    }
}

/// The texts of `parts` with `sep` between each two neighbours: the first
/// text, then for each further text the separator and that text.
pub open spec fn join(parts: Seq<Seq<char>>, sep: Seq<char>) -> Seq<char>
    decreases parts.len(),
{
    if parts.len() == 0 {
        Seq::empty()
    } else {
        parts[0] + joined_tail(parts.drop_first(), sep)
    }
}

/// Each text of `parts` with `sep` before it.
pub open spec fn joined_tail(parts: Seq<Seq<char>>, sep: Seq<char>) -> Seq<char>
    decreases parts.len(),
{
    if parts.len() == 0 {
        Seq::empty()
    } else {
        sep + parts[0] + joined_tail(parts.drop_first(), sep)
    }
}

/// One text more at the end adds the separator and the text.
pub proof fn lemma_joined_tail_push(parts: Seq<Seq<char>>, last: Seq<char>, sep: Seq<char>)
    ensures
        joined_tail(parts.push(last), sep) == joined_tail(parts, sep) + sep + last,
    decreases parts.len(),
{
    let longer = parts.push(last);
    if parts.len() == 0 {
        assert(longer.drop_first() =~= Seq::<Seq<char>>::empty());
        assert(joined_tail(longer.drop_first(), sep) =~= Seq::<char>::empty());
        assert(joined_tail(longer, sep) =~= sep + last);
        assert(joined_tail(parts, sep) + sep + last =~= sep + last);
    } else {
        lemma_joined_tail_push(parts.drop_first(), last, sep);
        assert(longer.drop_first() =~= parts.drop_first().push(last));
        assert(joined_tail(longer, sep) =~= joined_tail(parts, sep) + sep + last);
    }
}

/// One text more at the end of a list that is not empty adds the separator
/// and the text.
pub proof fn lemma_join_push(parts: Seq<Seq<char>>, last: Seq<char>, sep: Seq<char>)
    requires
        parts.len() >= 1,
    ensures
        join(parts.push(last), sep) == join(parts, sep) + sep + last,
{
    let longer = parts.push(last);
    lemma_joined_tail_push(parts.drop_first(), last, sep);
    assert(longer.drop_first() =~= parts.drop_first().push(last));
    assert(join(longer, sep) =~= join(parts, sep) + sep + last);
}

/// The one-character text of a line feed.
pub open spec fn line_feed() -> Seq<char> {
    seq!['\n']
}

/// `line` without one carriage return at its end.
pub open spec fn without_carriage_return(line: Seq<char>) -> Seq<char> {
    if line.len() > 0 && line.last() == '\r' {
        line.drop_last()
    } else {
        line
    }
}

/// The lines of `text`. A line ends at a line feed; the line feed, and a
/// carriage return directly before it, belong to no line. What follows the
/// last line feed is a line of its own unless it is empty.
pub open spec fn lines(text: Seq<char>) -> Seq<Seq<char>>
    decreases text.len(),
{
    if text.len() == 0 {
        Seq::empty()
    } else {
        match find(text, line_feed()) {
            Some(at) => if 0 <= at < text.len() {
                seq![without_carriage_return(text.subrange(0, at))] + lines(
                    text.subrange(at + 1, text.len() as int),
                )
            } else {
                seq![text]
            },
            None => seq![text],
        }
    }
}

/// The parts of `text` between the occurrences of `pat`.
pub fn split_on(text: &Vec<char>, pat: &Vec<char>) -> (parts: Vec<Vec<char>>)
    ensures
        views(parts@) == split(text@, pat@),
{
    let mut parts: Vec<Vec<char>> = Vec::new();
    let mut from: usize = 0;
    assert(text@.subrange(0, text.len() as int) =~= text@);
    if pat.len() == 0 {
        let whole = slice_of(text, 0, text.len());
        parts.push(whole);
        assert(views(parts@) =~= seq![text@]);
        return parts;
    }
    assert(views(parts@) + split(text@, pat@) =~= split(text@, pat@));
    loop
        invariant
            from <= text.len(),
            pat.len() > 0,
            split(text@, pat@) == views(parts@) + split(
                text@.subrange(from as int, text.len() as int),
                pat@,
            ),
        decreases text.len() - from,
    {
        let ghost rest = text@.subrange(from as int, text.len() as int);
        match find_from(text, pat, from) {
            Some(at) => {
                let part = slice_of(text, from, at);
                proof {
                    assert(rest.subrange(0, at - from) =~= part@);
                    assert(rest.subrange(at - from + pat.len(), rest.len() as int)
                        =~= text@.subrange(at + pat.len(), text.len() as int));
                    assert(views(parts@.push(part)) =~= views(parts@) + seq![part@]);
                }
                parts.push(part);
                from = at + pat.len();
            },
            None => {
                let part = slice_of(text, from, text.len());
                proof {
                    assert(views(parts@.push(part)) =~= views(parts@) + seq![part@]);
                }
                parts.push(part);
                return parts;
            },
        }
    }
}

/// `text` with every occurrence of `pat` replaced by `with`.
pub fn replace_all(text: &Vec<char>, pat: &Vec<char>, with: &Vec<char>) -> (out: Vec<char>)
    ensures
        out@ == replace(text@, pat@, with@),
{
    let mut out: Vec<char> = Vec::new();
    let mut from: usize = 0;
    assert(text@.subrange(0, text.len() as int) =~= text@);
    if pat.len() == 0 {
        return slice_of(text, 0, text.len());
    }
    assert(out@ + replace(text@, pat@, with@) =~= replace(text@, pat@, with@));
    loop
        invariant
            from <= text.len(),
            pat.len() > 0,
            replace(text@, pat@, with@) == out@ + replace(
                text@.subrange(from as int, text.len() as int),
                pat@,
                with@,
            ),
        decreases text.len() - from,
    {
        let ghost rest = text@.subrange(from as int, text.len() as int);
        match find_from(text, pat, from) {
            Some(at) => {
                let part = slice_of(text, from, at);
                proof {
                    assert(rest.subrange(0, at - from) =~= part@);
                    assert(rest.subrange(at - from + pat.len(), rest.len() as int)
                        =~= text@.subrange(at + pat.len(), text.len() as int));
                }
                let ghost before = out@;
                push_all(&mut out, &part);
                push_all(&mut out, with);
                proof {
                    let tail = replace(
                        text@.subrange(at + pat.len(), text.len() as int),
                        pat@,
                        with@,
                    );
                    assert(out@ + tail =~= before + (part@ + with@ + tail));
                }
                from = at + pat.len();
            },
            None => {
                let part = slice_of(text, from, text.len());
                push_all(&mut out, &part);
                return out;
            },
        }
    }
}

/// The texts of `parts` with `sep` between each two neighbours.
pub fn join_with(parts: &Vec<Vec<char>>, sep: &Vec<char>) -> (out: Vec<char>)
    ensures
        out@ == join(views(parts@), sep@),
{
    let mut out: Vec<char> = Vec::new();
    let mut i: usize = 0;
    assert(views(parts@).take(0) =~= Seq::<Seq<char>>::empty());
    while i < parts.len()
        invariant
            i <= parts.len(),
            out@ == join(views(parts@).take(i as int), sep@),
        decreases parts.len() - i,
    {
        let ghost seen = views(parts@).take(i as int);
        let ghost upto = views(parts@).take(i + 1);
        proof {
            assert(upto =~= seen.push(parts@[i as int]@));
            if i > 0 {
                lemma_join_push(seen, parts@[i as int]@, sep@);
            } else {
                assert(upto.drop_first() =~= Seq::<Seq<char>>::empty());
                assert(join(upto, sep@) =~= parts@[i as int]@);
            }
        }
        if i > 0 {
            push_all(&mut out, sep);
        }
        push_all(&mut out, &parts[i]);
        i += 1;
    }
    assert(views(parts@).take(parts.len() as int) =~= views(parts@));
    out
}

/// The lines of `text`.
pub fn lines_of(text: &Vec<char>) -> (out: Vec<Vec<char>>)
    ensures
        views(out@) == lines(text@),
{
    let mut feed: Vec<char> = Vec::new();
    feed.push('\n');
    assert(feed@ =~= line_feed());
    let mut out: Vec<Vec<char>> = Vec::new();
    let mut from: usize = 0;
    assert(text@.subrange(0, text.len() as int) =~= text@);
    assert(views(out@) + lines(text@) =~= lines(text@));
    while from < text.len()
        invariant
            from <= text.len(),
            feed@ == line_feed(),
            lines(text@) == views(out@) + lines(text@.subrange(from as int, text.len() as int)),
        decreases text.len() - from,
    {
        let ghost rest = text@.subrange(from as int, text.len() as int);
        match find_from(text, &feed, from) {
            Some(at) => {
                let end: usize = if at > from && text[at - 1] == '\r' {
                    at - 1
                } else {
                    at
                };
                let line = slice_of(text, from, end);
                proof {
                    let raw = rest.subrange(0, at - from);
                    assert(raw =~= text@.subrange(from as int, at as int));
                    assert(without_carriage_return(raw) =~= line@);
                    assert(rest.subrange(at - from + 1, rest.len() as int) =~= text@.subrange(
                        at + 1,
                        text.len() as int,
                    ));
                    assert(views(out@.push(line)) =~= views(out@) + seq![line@]);
                }
                out.push(line);
                from = at + 1;
            },
            None => {
                let line = slice_of(text, from, text.len());
                proof {
                    assert(views(out@.push(line)) =~= views(out@) + seq![line@]);
                    assert(lines(text@.subrange(text.len() as int, text.len() as int))
                        =~= Seq::<Seq<char>>::empty());
                }
                out.push(line);
                from = text.len();
            },
        }
    }
    out
}

/// Whether `c` is one of the ten decimal digits.
pub open spec fn is_digit(c: char) -> bool {
    '0' <= c <= '9'
}

/// The number that the decimal digit `c` stands for.
pub open spec fn digit_value(c: char) -> nat {
    (c as int - '0' as int) as nat
}

/// The decimal digit for a number below ten.
pub open spec fn digit_char(d: nat) -> char {
    ('0' as int + d) as char
}

/// Every character of `text` is a decimal digit.
pub open spec fn all_digits(text: Seq<char>) -> bool {
    forall|i: int| 0 <= i < text.len() ==> is_digit(#[trigger] text[i])
}

/// The number that a text of decimal digits denotes, the empty text being 0.
pub open spec fn digits_value(text: Seq<char>) -> nat
    decreases text.len(),
{
    if text.len() == 0 {
        0
    } else {
        digits_value(text.drop_last()) * 10 + digit_value(text.last())
    }
}

/// The decimal numeral of `n`, without leading zeros.
pub open spec fn decimal(n: nat) -> Seq<char>
    decreases n,
{
    if n < 10 {
        seq![digit_char(n)]
    } else {
        decimal(n / 10).push(digit_char(n % 10))
    }
}

/// What a text denotes as an unsigned machine integer: one optional `+`,
/// then one or more decimal digits and nothing else, with a value that fits.
pub open spec fn parse_usize(text: Seq<char>) -> Option<usize> {
    let body = if text.len() > 0 && text[0] == '+' {
        text.drop_first()
    } else {
        text
    };
    if body.len() > 0 && all_digits(body) && digits_value(body) <= usize::MAX {
        Some(digits_value(body) as usize)
    } else {
        None
    }
}

/// A numeral consists of digits, is not empty, and denotes its number.
pub proof fn lemma_decimal_denotes(n: nat)
    ensures
        decimal(n).len() > 0,
        all_digits(decimal(n)),
        digits_value(decimal(n)) == n,
    decreases n,
{
    if n < 10 {
        let one = seq![digit_char(n)];
        assert(one.drop_last() =~= Seq::<char>::empty());
        assert(digits_value(one.drop_last()) == 0);
        assert(digits_value(one) == digits_value(one.drop_last()) * 10 + digit_value(one.last()));
    } else {
        lemma_decimal_denotes(n / 10);
        let head = decimal(n / 10);
        let all = head.push(digit_char(n % 10));
        assert(all.drop_last() =~= head);
        assert(all.last() == digit_char(n % 10));
        assert(digits_value(all) == digits_value(head) * 10 + digit_value(all.last()));
    }
}

/// Reading a numeral gives its number back.
pub proof fn lemma_parse_decimal(n: usize)
    ensures
        parse_usize(decimal(n as nat)) == Some(n),
{
    lemma_decimal_denotes(n as nat);
    let numeral = decimal(n as nat);
    assert(is_digit(numeral[0]));
}

/// A longer text of digits denotes no smaller a number.
proof fn lemma_digits_value_grows(text: Seq<char>, shorter: int)
    requires
        all_digits(text),
        0 <= shorter <= text.len(),
    ensures
        digits_value(text.take(shorter)) <= digits_value(text),
    decreases text.len(),
{
    if shorter == text.len() {
        assert(text.take(shorter) =~= text);
    } else {
        let front = text.drop_last();
        assert(front.take(shorter) =~= text.take(shorter));
        assert(all_digits(front)) by {
            assert forall|i: int| 0 <= i < front.len() implies is_digit(#[trigger] front[i]) by {
                assert(front[i] == text[i]);
            }
        }
        lemma_digits_value_grows(front, shorter);
        assert(is_digit(text.last()));
    }
}

/// The decimal digit for `d`.
fn digit_of(d: usize) -> (c: char)
    requires
        d < 10,
    ensures
        c == digit_char(d as nat),
        is_digit(c),
{
    if d == 0 {
        '0'
    } else if d == 1 {
        '1'
    } else if d == 2 {
        '2'
    } else if d == 3 {
        '3'
    } else if d == 4 {
        '4'
    } else if d == 5 {
        '5'
    } else if d == 6 {
        '6'
    } else if d == 7 {
        '7'
    } else if d == 8 {
        '8'
    } else {
        '9'
    }
}

/// The number of a decimal digit, or `None` for any other character.
fn value_of(c: char) -> (d: Option<usize>)
    ensures
        d is Some <==> is_digit(c),
        d matches Some(v) ==> v == digit_value(c) && v < 10,
{
    if c == '0' {
        Some(0)
    } else if c == '1' {
        Some(1)
    } else if c == '2' {
        Some(2)
    } else if c == '3' {
        Some(3)
    } else if c == '4' {
        Some(4)
    } else if c == '5' {
        Some(5)
    } else if c == '6' {
        Some(6)
    } else if c == '7' {
        Some(7)
    } else if c == '8' {
        Some(8)
    } else if c == '9' {
        Some(9)
    } else {
        None
    }
}

/// The decimal numeral of `n`.
pub fn decimal_of(n: usize) -> (out: Vec<char>)
    ensures
        out@ == decimal(n as nat),
    decreases n,
{
    if n < 10 {
        let mut out: Vec<char> = Vec::new();
        out.push(digit_of(n));
        assert(out@ =~= seq![digit_char(n as nat)]);
        out
    } else {
        let mut out = decimal_of(n / 10);
        out.push(digit_of(n % 10));
        out
    }
}

/// Reads `text` as an unsigned machine integer.
pub fn parse_number(text: &Vec<char>) -> (n: Option<usize>)
    ensures
        n == parse_usize(text@),
{
    let start: usize = if text.len() > 0 && text[0] == '+' {
        1
    } else {
        0
    };
    let ghost body = if text@.len() > 0 && text@[0] == '+' {
        text@.drop_first()
    } else {
        text@
    };
    assert(body =~= text@.subrange(start as int, text.len() as int));
    if start == text.len() {
        return None;
    }
    let mut value: usize = 0;
    let mut i: usize = start;
    while i < text.len()
        invariant
            start <= i <= text.len(),
            start < text.len(),
            body == text@.subrange(start as int, text.len() as int),
            body == if text@.len() > 0 && text@[0] == '+' {
                text@.drop_first()
            } else {
                text@
            },
            all_digits(body.take(i - start)),
            value == digits_value(body.take(i - start)),
        decreases text.len() - i,
    {
        let ghost seen = body.take(i - start);
        let ghost next = body.take(i + 1 - start);
        proof {
            assert(next.drop_last() =~= seen);
            assert(next.last() == text@[i as int]);
        }
        match value_of(text[i]) {
            None => {
                assert(!is_digit(body[i - start]));
                return None;
            },
            Some(d) => {
                proof {
                    assert forall|k: int| 0 <= k < next.len() implies is_digit(
                        #[trigger] next[k],
                    ) by {
                        if k < seen.len() {
                            assert(next[k] == seen[k]);
                        }
                    }
                }
                let grown = match value.checked_mul(10) {
                    Some(tens) => tens.checked_add(d),
                    None => None,
                };
                match grown {
                    Some(v) => {
                        value = v;
                    },
                    None => {
                        proof {
                            assert(digits_value(next) > usize::MAX);
                            if all_digits(body) {
                                lemma_digits_value_grows(body, i + 1 - start);
                            }
                        }
                        return None;
                    },
                }
            },
        }
        i += 1;
    }
    assert(body.take(text.len() - start) =~= body);
    Some(value)
}

/// Whether `c` is white space: a character with the Unicode property
/// White_Space.
pub open spec fn white_space(c: char) -> bool {
    ||| '\u{9}' <= c <= '\u{d}'
    ||| c == ' '
    ||| c == '\u{85}'
    ||| c == '\u{a0}'
    ||| c == '\u{1680}'
    ||| '\u{2000}' <= c <= '\u{200a}'
    ||| c == '\u{2028}'
    ||| c == '\u{2029}'
    ||| c == '\u{202f}'
    ||| c == '\u{205f}'
    ||| c == '\u{3000}'
}

/// Whether `c` is white space.
pub fn is_white_space(c: char) -> (yes: bool)
    ensures
        yes == white_space(c),
{
    ('\u{9}' <= c && c <= '\u{d}') || c == ' ' || c == '\u{85}' || c == '\u{a0}' || c
        == '\u{1680}' || ('\u{2000}' <= c && c <= '\u{200a}') || c == '\u{2028}' || c
        == '\u{2029}' || c == '\u{202f}' || c == '\u{205f}' || c == '\u{3000}'
}

/// `text` without the white space at its end.
pub open spec fn trim_end(text: Seq<char>) -> Seq<char>
    decreases text.len(),
{
    if text.len() > 0 && white_space(text.last()) {
        trim_end(text.drop_last())
    } else {
        text
    }
}

/// `text` without the white space at its end.
pub fn trim_end_of(text: &Vec<char>) -> (out: Vec<char>)
    ensures
        out@ == trim_end(text@),
{
    let mut end: usize = text.len();
    assert(text@.take(end as int) =~= text@);
    while end > 0 && is_white_space(text[end - 1])
        invariant
            end <= text.len(),
            trim_end(text@) == trim_end(text@.take(end as int)),
        decreases end,
    {
        assert(text@.take(end as int).drop_last() =~= text@.take(end - 1));
        end -= 1;
    }
    assert(text@.take(end as int) =~= text@.subrange(0, end as int));
    slice_of(text, 0, end)
}

/// The characters of each string of a list.
pub fn chars_list(list: &Vec<String>) -> (out: Vec<Vec<char>>)
    ensures
        views(out@) == texts(list@),
{
    let mut out: Vec<Vec<char>> = Vec::new();
    let mut i: usize = 0;
    while i < list.len()
        invariant
            i <= list.len(),
            views(out@) == texts(list@).take(i as int),
        decreases list.len() - i,
    {
        let part = chars_of(list[i].as_str());
        proof {
            let all = texts(list@);
            assert(views(out@.push(part)) =~= views(out@).push(part@));
            assert(all.take(i + 1) =~= all.take(i as int).push(all[i as int]));
        }
        out.push(part);
        i += 1;
    }
    assert(texts(list@).take(list@.len() as int) =~= texts(list@));
    out
}

/// The strings that hold the given texts.
pub fn strings_of(parts: &Vec<Vec<char>>) -> (out: Vec<String>)
    ensures
        texts(out@) == views(parts@),
{
    let mut out: Vec<String> = Vec::new();
    let mut i: usize = 0;
    while i < parts.len()
        invariant
            i <= parts.len(),
            texts(out@) == views(parts@).take(i as int),
        decreases parts.len() - i,
    {
        let part = string_of(&parts[i]);
        proof {
            let all = views(parts@);
            assert(texts(out@.push(part)) =~= texts(out@).push(part@));
            assert(all.take(i + 1) =~= all.take(i as int).push(all[i as int]));
        }
        out.push(part);
        i += 1;
    }
    assert(views(parts@).take(parts@.len() as int) =~= views(parts@));
    out
}

} // verus!
