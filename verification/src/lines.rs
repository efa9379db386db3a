//! Splitting a text into its lines.
//!
//! A line ends at a line feed. The line feed is not part of the line, and
//! neither is a carriage return that stands directly before it. What follows
//! the last line feed is a line of its own unless it is empty, and is taken
//! as it stands.

use crate::text::{is_substring, occurs_at};
use vstd::prelude::*;
use vstd::string::StrSliceExecFns;

verus! {

/// The position of the first line feed in `text`, or `text.len()` where
/// `text` holds none.
pub open spec fn line_end(text: Seq<char>) -> int
    decreases text.len(),
{
    if text.len() == 0 || text[0] == '\n' {
        0
    } else {
        1 + line_end(text.drop_first())
    }
}

/// `line` without the carriage return at its end, if it has one.
pub open spec fn without_carriage_return(line: Seq<char>) -> Seq<char> {
    if line.len() > 0 && line.last() == '\r' {
        line.drop_last()
    } else {
        line
    }
}

/// The lines of `text`, in order.
pub open spec fn split_lines(text: Seq<char>) -> Seq<Seq<char>>
    decreases text.len(),
{
    let end = line_end(text);
    if text.len() == 0 {
        Seq::empty()
    } else if 0 <= end < text.len() {
        seq![without_carriage_return(text.take(end))] + split_lines(text.skip(end + 1))
    } else {
        seq![text]
    }
}

/// `line_end` is the least position that holds a line feed.
pub proof fn lemma_line_end(text: Seq<char>)
    ensures
        0 <= line_end(text) <= text.len(),
        forall|i: int| 0 <= i < line_end(text) ==> text[i] != '\n',
        line_end(text) < text.len() ==> text[line_end(text)] == '\n',
    decreases text.len(),
{
    if text.len() > 0 && text[0] != '\n' {
        let rest = text.drop_first();
        lemma_line_end(rest);
        assert forall|i: int| 0 <= i < line_end(text) implies text[i] != '\n' by {
            if i > 0 {
                assert(text[i] == rest[i - 1]);
            }
        }
        if line_end(text) < text.len() {
            assert(text[line_end(text)] == rest[line_end(rest)]);
        }
    }
}

/// A position that holds the first line feed, or the end of a text without
/// one, is `line_end`.
pub proof fn lemma_line_end_is(text: Seq<char>, end: int)
    requires
        0 <= end <= text.len(),
        forall|i: int| 0 <= i < end ==> text[i] != '\n',
        end < text.len() ==> text[end] == '\n',
    ensures
        line_end(text) == end,
{
    lemma_line_end(text);
}

/// Every line of a text stands in that text as it is written there.
pub proof fn lemma_lines_are_parts(text: Seq<char>)
    ensures
        forall|i: int|
            0 <= i < split_lines(text).len() ==> is_substring(#[trigger] split_lines(text)[i], text),
    decreases text.len(),
{
    let end = line_end(text);
    lemma_line_end(text);
    if text.len() == 0 {
    } else if end < text.len() {
        let first = without_carriage_return(text.take(end));
        let rest = text.skip(end + 1);
        lemma_lines_are_parts(rest);
        assert forall|i: int| 0 <= i < split_lines(text).len() implies is_substring(
            #[trigger] split_lines(text)[i],
            text,
        ) by {
            let line = split_lines(text)[i];
            if i == 0 {
                assert(line == first);
                assert(text.subrange(0, first.len() as int) =~= first);
                assert(occurs_at(line, text, 0));
            } else {
                assert(line == split_lines(rest)[i - 1]);
                let at = choose|at: int| occurs_at(line, rest, at);
                assert(text.subrange(at + end + 1, at + end + 1 + line.len()) =~= rest.subrange(
                    at,
                    at + line.len(),
                ));
                assert(occurs_at(line, text, at + end + 1));
            }
        }
    } else {
        assert(text.subrange(0, text.len() as int) =~= text);
        assert(occurs_at(text, text, 0));
    }
}

/// A text without characters has no lines.
pub proof fn lemma_empty_text_has_no_lines()
    ensures
        split_lines(Seq::empty()) == Seq::<Seq<char>>::empty(),
{
}

/// The characters of `text`, one by one.
pub fn chars_of(text: &str) -> (chars: Vec<char>)
    ensures
        chars@ == text@,
{
    let mut chars: Vec<char> = Vec::new();
    for c in it: text.chars()
        invariant
            it.seq() == text@,
            chars@ == it.seq().take(it.index() as int),
    {
        chars.push(c);
        proof {
            let i = it.index() as int;
            assert(it.seq().take(i + 1) =~= it.seq().take(i).push(it.seq()[i]));
        }
    }
    proof {
        assert(text@.take(text@.len() as int) =~= text@);
    }
    chars
}

/// The lines of `text`, in order, each a slice of `text`.
pub fn lines<'a>(text: &'a str) -> (found: Vec<&'a str>)
    ensures
        found.deep_view() == split_lines(text@),
{
    let chars = chars_of(text);
    let n: usize = chars.len();
    let mut found: Vec<&'a str> = Vec::new();
    let mut start: usize = 0;
    proof {
        assert(text@.skip(0) =~= text@);
        assert(found.deep_view() + split_lines(text@) =~= split_lines(text@));
    }
    while start < n
        invariant
            start <= n == chars@.len(),
            chars@ == text@,
            found.deep_view() + split_lines(text@.skip(start as int)) == split_lines(text@),
        decreases n - start,
    {
        let mut end: usize = start;
        while end < n && chars[end] != '\n'
            invariant
                start <= end <= n == chars@.len(),
                forall|i: int| start <= i < end ==> chars@[i] != '\n',
            decreases n - end,
        {
            end += 1;
        }
        let ghost rest = text@.skip(start as int);
        let ghost before = found.deep_view();
        proof {
            lemma_line_end_is(rest, end - start);
        }
        if end < n {
            let stop: usize = if end > start && chars[end - 1] == '\r' {
                end - 1
            } else {
                end
            };
            let line = text.substring_char(start, stop);
            found.push(line);
            proof {
                assert(rest.take(end - start) =~= text@.subrange(start as int, end as int));
                assert(without_carriage_return(rest.take(end - start)) =~= line@);
                assert(rest.skip(end - start + 1) =~= text@.skip(end + 1));
                assert(found.deep_view() =~= before.push(line@));
                assert(found.deep_view() + split_lines(text@.skip(end + 1)) =~= before
                    + split_lines(rest));
            }
            start = end + 1;
        } else {
            let line = text.substring_char(start, n);
            found.push(line);
            proof {
                assert(line@ =~= rest);
                assert(found.deep_view() =~= before.push(line@));
                assert(found.deep_view() + split_lines(text@.skip(n as int)) =~= before
                    + split_lines(rest));
            }
            start = n;
        }
    }
    proof {
        assert(found.deep_view() + split_lines(text@.skip(start as int)) =~= found.deep_view());
    }
    found
}

} // verus!
