//! The operations on text that this crate takes from the standard library.
//!
//! Nothing in this file is proved. Each item states, over the model in `crate::text`,
//! what the standard library documents of one of its functions.

use vstd::prelude::*;
use crate::text::{occurs_in, split_lines};

verus! {

/// `std::str::Lines`, the iterator over the lines of a string slice.
#[verifier::external_type_specification]
#[verifier::external_body]
pub struct ExLines<'a>(std::str::Lines<'a>);

/// The lines that `lines` has yet to hand out, next one first.
pub uninterp spec fn lines_left(lines: std::str::Lines) -> Seq<Seq<char>>;

/// The lowercase form that `str::to_lowercase` gives to `text`. Nothing is stated of it
/// but that equal texts have equal lowercase forms.
pub uninterp spec fn lowercase(text: Seq<char>) -> Seq<char>;

/// `str::lines`: the iterator starts out holding the lines of `text`, top to bottom, cut as
/// [`split_lines`] says: at each line feed, which is dropped together with a carriage
/// return directly in front of it, and with no further line after a final line feed.
pub assume_specification[ str::lines ](text: &str) -> (lines: std::str::Lines<'_>)
    ensures
        lines_left(lines) == split_lines(text@),
;

/// `str::to_lowercase`: the result is the lowercase form of `text`, which depends on the
/// characters of `text` and on nothing else.
pub assume_specification[ str::to_lowercase ](text: &str) -> (folded: String)
    ensures
        folded@ == lowercase(text@),
;

/// `Iterator::next` on `std::str::Lines`: where a line is left, the result is the first of
/// them and the iterator keeps the others; where none is left, the result is `None`.
#[verifier::external_body]
pub(crate) fn next_line<'a>(lines: &mut std::str::Lines<'a>) -> (line: Option<&'a str>)
    ensures
        match line {
            Some(first) => {
                &&& lines_left(*old(lines)).len() > 0
                &&& first@ == lines_left(*old(lines)).first()
                &&& lines_left(*final(lines)) == lines_left(*old(lines)).drop_first()
            },
            None => lines_left(*old(lines)).len() == 0,
        },
{
    lines.next()
}

/// `str::contains` with a string slice as the pattern: whether `needle` is a contiguous
/// part of `hay`.
#[verifier::external_body]
pub(crate) fn contains(hay: &str, needle: &str) -> (found: bool)
    ensures
        found == occurs_in(needle@, hay@),
{
    hay.contains(needle)
}

} // verus!
