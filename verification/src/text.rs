//! The mathematical model of text that the contracts of this crate speak of:
//! a text is a sequence of characters, and its lines are sequences of characters too.

use vstd::prelude::*;

verus! {

/// The number of characters in front of the first line feed of `text`,
/// or the length of `text` when it holds no line feed.
pub open spec fn first_line_len(text: Seq<char>) -> nat
    decreases text.len(),
{
    if text.len() == 0 || text[0] == '\n' {
        0
    } else {
        1 + first_line_len(text.drop_first())
    }
}

/// `line` without its last character when that is a carriage return.
pub open spec fn without_carriage_return(line: Seq<char>) -> Seq<char> {
    if line.len() > 0 && line.last() == '\r' {
        line.drop_last()
    } else {
        line
    }
}

/// The lines of `text`, top to bottom.
///
/// A line ends at a line feed. The line feed is not part of the line, and neither is a
/// carriage return that stands directly in front of it. A carriage return anywhere else
/// stays in its line. The last line need not end in a line feed: a text that ends in one
/// has the same lines as the text without it, and the empty text has no line at all.
pub open spec fn split_lines(text: Seq<char>) -> Seq<Seq<char>>
    decreases text.len(),
{
    let n = first_line_len(text) as int;
    if text.len() == 0 {
        Seq::empty()
    } else if n >= text.len() {
        seq![text]
    } else {
        seq![without_carriage_return(text.take(n))] + split_lines(text.skip(n + 1))
    }
}

/// `needle` stands in `hay` from position `at` on, character for character.
pub open spec fn occurs_at(needle: Seq<char>, hay: Seq<char>, at: int) -> bool {
    &&& 0 <= at
    &&& at + needle.len() <= hay.len()
    &&& hay.subrange(at, at + needle.len()) =~= needle
}

/// `needle` is a contiguous part of `hay`. The empty sequence is part of every sequence.
pub open spec fn occurs_in(needle: Seq<char>, hay: Seq<char>) -> bool {
    exists|at: int| occurs_at(needle, hay, at)
}

} // verus!
