//! What a marked snippet consists of, line by line: the proof that the
//! preprocessing inserts one marker before every source line and the
//! sentinel after the last.

use vstd::prelude::*;
use crate::protocol::{
    announced, announced_lines, echo, end_sentinel, marker, marker_close, marker_open,
    with_active_line_prints, with_end_sentinel,
};
use crate::text::{
    decimal, find, is_digit, join, joined_tail, lemma_decimal_denotes, lemma_find_after,
    lemma_find_iff_contains, lemma_find_none, lemma_join_push, line_feed, lines, occurs_at,
    split, without_carriage_return,
};

verus! {

/// No character of `text` is a line feed.
pub open spec fn free_of_feeds(text: Seq<char>) -> bool {
    forall|k: int| 0 <= k < text.len() ==> text[k] != '\n'
}

/// Every text of `parts` is free of line feeds.
pub open spec fn all_free_of_feeds(parts: Seq<Seq<char>>) -> bool {
    forall|i: int| 0 <= i < parts.len() ==> free_of_feeds(#[trigger] parts[i])
}

/// The announcements and the source lines in turn: the announcement of a
/// line stands directly before the line.
pub open spec fn interleaved(source: Seq<Seq<char>>) -> Seq<Seq<char>> {
    Seq::new(
        2 * source.len(),
        |j: int|
            if j % 2 == 0 {
                echo(marker((j / 2 + 1) as nat))
            } else {
                source[j / 2]
            },
    )
}

/// The lines that a marked snippet consists of: for each source line its
/// announcement and then the line itself, and the command that prints the
/// sentinel as the last line. A snippet without lines gives one empty line
/// before the last.
pub open spec fn emitted_lines(source: Seq<Seq<char>>) -> Seq<Seq<char>> {
    if source.len() == 0 {
        seq![Seq::<char>::empty(), echo(end_sentinel())]
    } else {
        interleaved(source).push(echo(end_sentinel()))
    }
}

/// A line feed stands at a position exactly when the character there is one.
proof fn lemma_feed_occurs(text: Seq<char>, at: int)
    ensures
        occurs_at(text, line_feed(), at) <==> (0 <= at < text.len() && text[at] == '\n'),
{
    if 0 <= at < text.len() {
        let part = text.subrange(at, at + 1);
        assert(part[0] == text[at]);
        if text[at] == '\n' {
            assert(part =~= line_feed());
        } else {
            assert(line_feed()[0] == '\n');
        }
    }
}

/// No line of a text holds a line feed.
pub proof fn lemma_lines_free_of_feeds(text: Seq<char>)
    ensures
        all_free_of_feeds(lines(text)),
    decreases text.len(),
{
    if text.len() > 0 {
        lemma_find_iff_contains(text, line_feed());
        match find(text, line_feed()) {
            Some(at) => {
                let rest = text.subrange(at + 1, text.len() as int);
                lemma_lines_free_of_feeds(rest);
                let raw = text.subrange(0, at);
                let first = without_carriage_return(raw);
                assert forall|k: int| 0 <= k < first.len() implies first[k] != '\n' by {
                    lemma_feed_occurs(text, k);
                    assert(first[k] == text[k]);
                }
                let all = seq![first] + lines(rest);
                assert forall|i: int| 0 <= i < all.len() implies free_of_feeds(
                    #[trigger] all[i],
                ) by {
                    if i > 0 {
                        assert(all[i] == lines(rest)[i - 1]);
                    }
                }
            },
            None => {
                assert forall|k: int| 0 <= k < text.len() implies text[k] != '\n' by {
                    lemma_feed_occurs(text, k);
                }
                assert(seq![text][0] == text);
            },
        }
    }
}

/// A text without line feeds is its own single part.
proof fn lemma_split_whole(part: Seq<char>)
    requires
        free_of_feeds(part),
    ensures
        split(part, line_feed()) == seq![part],
{
    lemma_find_none(part, line_feed(), Seq::empty());
    assert(part + Seq::<char>::empty() =~= part);
}

/// Behind a part without line feeds and one line feed, splitting goes on
/// with what follows.
proof fn lemma_split_first(part: Seq<char>, rest: Seq<char>)
    requires
        free_of_feeds(part),
    ensures
        split(part + line_feed() + rest, line_feed()) == seq![part] + split(rest, line_feed()),
{
    let text = part + line_feed() + rest;
    lemma_find_after(part, line_feed(), rest);
    let at = part.len() as int;
    assert(text.subrange(0, at) =~= part);
    assert(text.subrange(at + 1, text.len() as int) =~= rest);
}

/// The join of two or more parts begins with the first part and a
/// separator.
proof fn lemma_join_front(parts: Seq<Seq<char>>, sep: Seq<char>)
    requires
        parts.len() >= 2,
    ensures
        join(parts, sep) == parts[0] + sep + join(parts.drop_first(), sep),
{
    let tail = parts.drop_first();
    assert(join(parts, sep) =~= parts[0] + sep + (tail[0] + joined_tail(tail.drop_first(), sep)));
}

/// Splitting the join of parts without line feeds gives the parts back.
pub proof fn lemma_split_join(parts: Seq<Seq<char>>)
    requires
        parts.len() >= 1,
        all_free_of_feeds(parts),
    ensures
        split(join(parts, line_feed()), line_feed()) == parts,
    decreases parts.len(),
{
    if parts.len() == 1 {
        lemma_split_whole(parts[0]);
        assert(seq![parts[0]] =~= parts);
    } else {
        let tail = parts.drop_first();
        lemma_join_front(parts, line_feed());
        assert forall|i: int| 0 <= i < tail.len() implies free_of_feeds(#[trigger] tail[i]) by {
            assert(tail[i] == parts[i + 1]);
        }
        lemma_split_join(tail);
        lemma_split_first(parts[0], join(tail, line_feed()));
        assert(seq![parts[0]] + tail =~= parts);
    }
}

/// A command that prints a text without line feeds holds none.
proof fn lemma_echo_free_of_feeds(text: Seq<char>)
    requires
        free_of_feeds(text),
    ensures
        free_of_feeds(echo(text)),
{
    reveal_strlit("echo \"");
    reveal_strlit("\"");
    let head = "echo \""@;
    let all = echo(text);
    assert forall|k: int| 0 <= k < all.len() implies all[k] != '\n' by {
        if k < head.len() {
            assert(all[k] == head[k]);
        } else if k < head.len() + text.len() {
            assert(all[k] == text[k - head.len()]);
        }
    }
}

/// A marker holds no line feed.
proof fn lemma_marker_free_of_feeds(n: nat)
    ensures
        free_of_feeds(marker(n)),
{
    reveal_strlit("##active_line");
    reveal_strlit("##");
    lemma_decimal_denotes(n);
    let open = marker_open();
    let digits = decimal(n);
    let all = marker(n);
    assert forall|k: int| 0 <= k < all.len() implies all[k] != '\n' by {
        if k < open.len() {
            assert(all[k] == open[k]);
        } else if k < open.len() + digits.len() {
            assert(all[k] == digits[k - open.len()]);
            assert(is_digit(digits[k - open.len()]));
        } else {
            assert(all[k] == marker_close()[k - open.len() - digits.len()]);
        }
    }
}

/// The sentinel holds no line feed.
proof fn lemma_sentinel_free_of_feeds()
    ensures
        free_of_feeds(end_sentinel()),
{
    reveal_strlit("##end_of_execution##");
}

/// The announced lines, joined, are the announcements and the lines in
/// turn, joined.
proof fn lemma_join_announced(source: Seq<Seq<char>>)
    requires
        source.len() >= 1,
    ensures
        join(announced_lines(source), line_feed()) == join(interleaved(source), line_feed()),
    decreases source.len(),
{
    let feed = line_feed();
    let blocks = announced_lines(source);
    let pieces = interleaved(source);
    let last = source.len() - 1;
    let announcement = echo(marker((last + 1) as nat));
    if source.len() == 1 {
        assert(pieces =~= seq![announcement].push(source[0]));
        lemma_join_push(seq![announcement], source[0], feed);
        assert(seq![announcement].drop_first() =~= Seq::<Seq<char>>::empty());
        assert(join(seq![announcement], feed) =~= announcement);
        assert(blocks.drop_first() =~= Seq::<Seq<char>>::empty());
        assert(join(blocks, feed) =~= blocks[0]);
    } else {
        let front = source.drop_last();
        lemma_join_announced(front);
        assert(blocks =~= announced_lines(front).push(announced(last, source[last])));
        lemma_join_push(announced_lines(front), announced(last, source[last]), feed);
        assert(pieces =~= interleaved(front).push(announcement).push(source[last]));
        lemma_join_push(interleaved(front), announcement, feed);
        lemma_join_push(interleaved(front).push(announcement), source[last], feed);
        assert(join(blocks, feed) =~= join(pieces, feed));
    }
}

/// A marked snippet, taken line by line, is exactly this: for each of the N
/// lines of the snippet one marker, directly followed by the line it
/// announces, and after them once the command that prints the sentinel.
pub proof fn lemma_emitted_lines(code: Seq<char>)
    ensures
        split(with_end_sentinel(with_active_line_prints(code)), line_feed()) == emitted_lines(
            lines(code),
        ),
        emitted_lines(lines(code)).last() == echo(end_sentinel()),
        lines(code).len() > 0 ==> emitted_lines(lines(code)).len() == 2 * lines(code).len() + 1,
{
    let feed = line_feed();
    let source = lines(code);
    let closing = echo(end_sentinel());
    lemma_sentinel_free_of_feeds();
    lemma_echo_free_of_feeds(end_sentinel());
    if source.len() == 0 {
        let empty = Seq::<char>::empty();
        assert(join(announced_lines(source), feed) =~= empty);
        lemma_split_first(empty, closing);
        lemma_split_whole(closing);
        assert(with_end_sentinel(with_active_line_prints(code)) =~= empty + feed + closing);
        assert(seq![empty] + seq![closing] =~= emitted_lines(source));
    } else {
        lemma_join_announced(source);
        lemma_lines_free_of_feeds(code);
        let pieces = interleaved(source);
        let all = pieces.push(closing);
        assert forall|j: int| 0 <= j < all.len() implies free_of_feeds(#[trigger] all[j]) by {
            if j < pieces.len() {
                if j % 2 == 0 {
                    lemma_marker_free_of_feeds((j / 2 + 1) as nat);
                    lemma_echo_free_of_feeds(marker((j / 2 + 1) as nat));
                } else {
                    assert(all[j] == source[j / 2]);
                }
            }
        }
        lemma_join_push(pieces, closing, feed);
        lemma_split_join(all);
    }
}

} // verus!
