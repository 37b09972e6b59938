//! The text of a document as a rope.

use vstd::prelude::*;

use crate::text::{line_start, split_on};

verus! {

#[verifier::external_type_specification]
#[verifier::external_body]
pub struct ExRope(ropey::Rope);

/// The characters of a rope, in order.
pub uninterp spec fn rope_text(rope: ropey::Rope) -> Seq<char>;

/// How many lines a text has: one more than it has line feeds.
pub open spec fn line_total(text: Seq<char>) -> nat {
    split_on(text, '\n').len()
}

/// The index of the first character of a line; past the last line, the length of
/// the text.
pub open spec fn line_begin(text: Seq<char>, line: int) -> int {
    if line < line_total(text) {
        line_start(split_on(text, '\n'), line) as int
    } else {
        text.len() as int
    }
}

/// `Rope::from_str` holds the characters of `text`.
#[verifier::external_body]
pub(crate) fn rope_of(text: &str) -> (rope: ropey::Rope)
    ensures
        rope_text(rope) == text@,
{
    ropey::Rope::from_str(text)
}

/// `Rope::len_lines` counts one line more than there are line feeds: without the
/// features for other line endings nothing else ends a line.
#[verifier::external_body]
pub(crate) fn len_lines(rope: &ropey::Rope) -> (n: usize)
    ensures
        n == line_total(rope_text(*rope)),
{
    rope.len_lines()
}

/// `Rope::line_to_char` returns the index of the first character of a line, and
/// the number of characters for the line past the last; it panics for others.
#[verifier::external_body]
pub(crate) fn line_to_char(rope: &ropey::Rope, line: usize) -> (index: usize)
    requires
        line <= line_total(rope_text(*rope)),
    ensures
        index == line_begin(rope_text(*rope), line as int),
{
    rope.line_to_char(line)
}

/// `Rope::slice` as text: the characters from `start` up to `end`. It panics for
/// indices that are out of order or past the end.
#[verifier::external_body]
pub(crate) fn slice_text(rope: &ropey::Rope, start: usize, end: usize) -> (text: String)
    requires
        start <= end <= rope_text(*rope).len(),
    ensures
        text@ == rope_text(*rope).subrange(start as int, end as int),
{
    rope.slice(start..end).to_string()
}

/// `Rope::char_to_line` counts the line feeds before a character; it panics for
/// one past the end.
#[verifier::external_body]
pub(crate) fn char_to_line(rope: &ropey::Rope, index: usize) -> (line: usize)
    requires
        index <= rope_text(*rope).len(),
    ensures
        line == line_total(rope_text(*rope).take(index as int)) - 1,
{
    rope.char_to_line(index)
}

} // verus!
