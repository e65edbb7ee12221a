//! The tail of a log: its last lines, newest first.

use vstd::prelude::*;
use crate::text::{chars_of, push_char, push_chars};

verus! {

/// A line without the carriage return that may end it.
pub open spec fn strip_cr(line: Seq<char>) -> Seq<char> {
    if line.len() > 0 && line.last() == '\r' {
        line.drop_last()
    } else {
        line
    }
}

/// The lines of `text` from position `from` on, where `current` holds the
/// characters of the line being read. A line ends at a line feed, and a
/// carriage return directly before that line feed belongs to the ending.
/// What follows the last line feed is a line too, unless it is empty.
pub open spec fn lines_from(text: Seq<char>, from: int, current: Seq<char>) -> Seq<Seq<char>>
    decreases text.len() - from,
{
    if from < 0 || from >= text.len() {
        if current.len() > 0 {
            seq![current]
        } else {
            Seq::empty()
        }
    } else if text[from] == '\n' {
        seq![strip_cr(current)] + lines_from(text, from + 1, Seq::empty())
    } else {
        lines_from(text, from + 1, current.push(text[from]))
    }
}

/// The lines of a text.
pub open spec fn lines_of(text: Seq<char>) -> Seq<Seq<char>> {
    lines_from(text, 0, Seq::empty())
}

/// The last `count` of `lines`: all of them where there are fewer.
pub open spec fn last_lines(lines: Seq<Seq<char>>, count: nat) -> Seq<Seq<char>> {
    if count >= lines.len() {
        lines
    } else {
        lines.subrange(lines.len() - count, lines.len() as int)
    }
}

/// The lines in reverse order, a carriage return and a line feed between
/// every two of them.
pub open spec fn joined_newest_first(lines: Seq<Seq<char>>) -> Seq<char>
    decreases lines.len(),
{
    if lines.len() == 0 {
        Seq::empty()
    } else if lines.len() == 1 {
        lines[0]
    } else {
        lines.last() + seq!['\r', '\n'] + joined_newest_first(lines.drop_last())
    }
}

/// The tail of a text: its last `count` lines, newest first.
pub open spec fn tail_text(text: Seq<char>, count: nat) -> Seq<char> {
    joined_newest_first(last_lines(lines_of(text), count))
}

/// The characters of each line.
pub open spec fn line_views(lines: Seq<Vec<char>>) -> Seq<Seq<char>> {
    lines.map_values(|line: Vec<char>| line@)
}

/// Splits a text into its lines.
pub fn split_lines(content: &str) -> (lines: Vec<Vec<char>>)
    ensures
        line_views(lines@) == lines_of(content@),
{
    let text = chars_of(content);
    let n: usize = text.len();
    let mut lines: Vec<Vec<char>> = Vec::new();
    let mut current: Vec<char> = Vec::new();
    let mut i: usize = 0;
    assert(line_views(lines@) + lines_from(text@, 0, current@) =~= lines_of(content@));
    while i < n
        invariant
            n == text@.len(),
            text@ == content@,
            i <= n,
            line_views(lines@) + lines_from(text@, i as int, current@) == lines_of(content@),
        decreases n - i,
    {
        let c: char = text[i];
        let ghost done = line_views(lines@);
        let ghost read = current@;
        if c == '\n' {
            let len: usize = current.len();
            if len > 0 && current[len - 1] == '\r' {
                current.pop();
            }
            assert(current@ =~= strip_cr(read));
            lines.push(current);
            assert(line_views(lines@) =~= done.push(lines@.last()@));
            current = Vec::new();
            assert(line_views(lines@) + lines_from(text@, i + 1, current@) =~= done + (seq![
                lines@.last()@,
            ] + lines_from(text@, i + 1, Seq::empty())));
        } else {
            current.push(c);
        }
        i += 1;
    }
    if current.len() > 0 {
        let ghost done = line_views(lines@);
        let ghost last = current@;
        lines.push(current);
        assert(line_views(lines@) =~= done + seq![last]);
    } else {
        assert(line_views(lines@) + Seq::<Seq<char>>::empty() =~= line_views(lines@));
    }
    lines
}

/// The tail of a text: its last `num_lines` lines, newest first, separated
/// by a carriage return and a line feed.
pub fn tail_of_text(content: &str, num_lines: usize) -> (tail: String)
    ensures
        tail@ == tail_text(content@, num_lines as nat),
{
    let lines = split_lines(content);
    let total: usize = lines.len();
    let start: usize = if num_lines >= total { 0 } else { total - num_lines };
    let ghost kept = last_lines(lines_of(content@), num_lines as nat);
    assert(kept =~= line_views(lines@).subrange(start as int, total as int));
    let mut tail = String::new();
    if start == total {
        return tail;
    }
    let mut k: usize = total - start - 1;
    push_chars(&mut tail, lines[start + k].as_slice());
    assert(tail@ =~= kept.last());
    assert(kept.subrange(0, kept.len() as int) =~= kept);
    assert(kept.drop_last() =~= kept.subrange(0, k as int));
    while k > 0
        invariant
            start < total,
            total == lines@.len(),
            k < total - start,
            kept == line_views(lines@).subrange(start as int, total as int),
            joined_newest_first(kept) == tail@ + (if k > 0 {
                seq!['\r', '\n'] + joined_newest_first(kept.subrange(0, k as int))
            } else {
                Seq::empty()
            }),
        decreases k,
    {
        let ghost front = kept.subrange(0, k as int);
        assert(front.last() == lines@[start + k - 1]@);
        assert(front.drop_last() =~= kept.subrange(0, k - 1));
        let ghost before = tail@;
        push_char(&mut tail, '\r');
        push_char(&mut tail, '\n');
        push_chars(&mut tail, lines[start + k - 1].as_slice());
        k -= 1;
        assert(tail@ =~= before + seq!['\r', '\n'] + front.last());
        assert(joined_newest_first(kept) =~= tail@ + (if k > 0 {
            seq!['\r', '\n'] + joined_newest_first(kept.subrange(0, k as int))
        } else {
            Seq::empty()
        }));
    }
    assert(tail@ + Seq::<char>::empty() =~= tail@);
    tail
}

} // verus!
