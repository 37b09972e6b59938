//! Cursors, selections and views of a document.

use vstd::math::{max, min};
use vstd::prelude::*;

use crate::mcp::edit::{lemma_line_begin_bound, lemma_text_from_line};
use crate::rope::{
    char_to_line, len_lines, line_begin, line_to_char, line_total, rope_of, slice_text,
};
use crate::text::{
    chars_of, join, law_joining_goes_part_by_part, lemma_line_start_monotone, lemma_lines_before,
    lemma_split_on_len, line_start, split_on, substring,
};
use crate::unicode::{
    graphemes, graphemes_of, lemma_clusters, lemma_last_cluster, stands_alone,
};

verus! {

/// The line of a character, counted from zero.
pub open spec fn line_of(text: Seq<char>, index: int) -> int {
    line_total(text.take(index)) - 1
}

/// The place of a character in its line, counted from zero.
pub open spec fn column_of(text: Seq<char>, index: int) -> int {
    index - line_begin(text, line_of(text, index))
}

proof fn lemma_line_of(text: Seq<char>, index: int)
    requires
        0 <= index <= text.len(),
    ensures
        0 <= line_of(text, index) < line_total(text),
        0 <= line_begin(text, line_of(text, index)) <= index,
{
    lemma_lines_before(text, index);
}

/// The line and the column of a character, both counted from zero.
pub fn line_and_column(text: &str, index: usize) -> (place: (usize, usize))
    requires
        index <= text@.len(),
    ensures
        place.0 == line_of(text@, index as int),
        place.1 == column_of(text@, index as int),
{
    let rope = rope_of(text);
    proof {
        lemma_line_of(text@, index as int);
    }
    let line = char_to_line(&rope, index);
    let column = index - line_to_char(&rope, line);
    (line, column)
}

/// The character at a line and a column, or the last one of the line, or of the
/// last line, where there are fewer.
pub open spec fn char_at(text: Seq<char>, line: int, col: int) -> int {
    let l = min(line, line_total(text) - 1);
    let begin = line_begin(text, l);
    let len = line_begin(text, l + 1) - begin;
    begin + min(col, max(len - 1, 0))
}

/// The character that a query at a line and a column is about.
pub fn query_position(text: &str, line: usize, col: usize) -> (index: usize)
    ensures
        index == char_at(text@, line as int, col as int),
        index <= text@.len(),
{
    let rope = rope_of(text);
    proof {
        lemma_split_on_len(text@, '\n');
    }
    let last = len_lines(&rope).saturating_sub(1);
    let l: usize = if line < last {
        line
    } else {
        last
    };
    proof {
        lemma_line_begin_bound(text@, l as int, l + 1);
    }
    let line_start = line_to_char(&rope, l);
    let line_len: usize = line_to_char(&rope, l + 1) - line_start;
    let room = line_len.saturating_sub(1);
    if col < room {
        line_start + col
    } else {
        line_start + room
    }
}

/// A selection: from its anchor to its head, which may come first.
#[derive(Clone, Copy, Debug, PartialEq, Eq, Structural)]
pub struct Selection {
    pub anchor: usize,
    pub head: usize,
}

/// The character that the cursor of a selection is on: its head, or the start of the
/// grapheme cluster before its head where that comes last.
pub open spec fn cursor_of(text: Seq<char>, s: Selection) -> int {
    if s.head > s.anchor {
        s.head - graphemes_of(text.take(s.head as int)).last().len()
    } else {
        s.head as int
    }
}

pub fn cursor(text: &str, s: Selection) -> (index: usize)
    requires
        s.head <= text@.len(),
    ensures
        index == cursor_of(text@, s),
        index <= text@.len(),
{
    if s.head <= s.anchor {
        return s.head;
    }
    let v = chars_of(text);
    let before = substring(&v, 0, s.head);
    assert(before@ =~= text@.take(s.head as int));
    let clusters = graphemes(before.as_str());
    proof {
        lemma_clusters(before@);
        assert(clusters@.len() == graphemes_of(before@).len());
        assert(clusters@[clusters@.len() - 1]@ == graphemes_of(before@).last());
    }
    let n = clusters[clusters.len() - 1].unicode_len();
    s.head - n
}

#[derive(Clone, Copy, Debug, PartialEq, Eq, Structural)]
pub enum EditorMode {
    Normal,
    Insert,
    Select,
}

/// Where the cursor is. The line and the column are counted from one.
#[derive(Debug)]
pub struct CursorState {
    pub path: Option<String>,
    pub line: usize,
    pub col: usize,
    pub mode: EditorMode,
    pub selection_count: usize,
}

/// Where the cursor of the primary selection of a document is.
pub fn cursor_state(
    path: Option<String>,
    text: &str,
    primary: Selection,
    mode: EditorMode,
    selection_count: usize,
) -> (state: CursorState)
    requires
        primary.head <= text@.len(),
        text@.len() < usize::MAX,
        line_total(text@) < usize::MAX,
    ensures
        state.path == path,
        state.line == line_of(text@, cursor_of(text@, primary)) + 1,
        state.col == column_of(text@, cursor_of(text@, primary)) + 1,
        state.mode == mode,
        state.selection_count == selection_count,
{
    let index = cursor(text, primary);
    proof {
        lemma_line_of(text@, index as int);
    }
    let (line, col) = line_and_column(text, index);
    CursorState { path, line: line + 1, col: col + 1, mode, selection_count }
}

/// A selection as an agent gets it. Lines and columns are counted from zero.
#[derive(Debug)]
pub struct SelectionRange {
    pub anchor_line: usize,
    pub anchor_col: usize,
    pub head_line: usize,
    pub head_col: usize,
    pub is_primary: bool,
    pub text: String,
}

pub open spec fn is_range_of(range: SelectionRange, text: Seq<char>, sel: Selection) -> bool {
    let start = min(sel.anchor as int, sel.head as int);
    let end = max(sel.anchor as int, sel.head as int);
    &&& range.anchor_line == line_of(text, sel.anchor as int)
    &&& range.anchor_col == column_of(text, sel.anchor as int)
    &&& range.head_line == line_of(text, sel.head as int)
    &&& range.head_col == column_of(text, sel.head as int)
    &&& range.text@ == text.subrange(start, end)
}

/// The selections of a document, in order; one of them is the primary one.
pub fn selection_ranges(text: &str, sels: &Vec<Selection>, primary: usize) -> (out: Vec<
    SelectionRange,
>)
    requires
        forall|i: int|
            0 <= i < sels@.len() ==> (#[trigger] sels@[i]).anchor <= text@.len() && sels@[i].head
                <= text@.len(),
    ensures
        out@.len() == sels@.len(),
        forall|i: int|
            0 <= i < sels@.len() ==> is_range_of(#[trigger] out@[i], text@, sels@[i])
                && out@[i].is_primary == (i == primary),
{
    let rope = rope_of(text);
    let mut out: Vec<SelectionRange> = Vec::new();
    let mut i: usize = 0;
    while i < sels.len()
        invariant
            i <= sels.len(),
            crate::rope::rope_text(rope) == text@,
            forall|k: int|
                0 <= k < sels@.len() ==> (#[trigger] sels@[k]).anchor <= text@.len()
                    && sels@[k].head <= text@.len(),
            out@.len() == i,
            forall|k: int|
                0 <= k < i ==> is_range_of(#[trigger] out@[k], text@, sels@[k])
                    && out@[k].is_primary == (k == primary),
        decreases sels.len() - i,
    {
        let anchor = sels[i].anchor;
        let head = sels[i].head;
        let (anchor_line, anchor_col) = line_and_column(text, anchor);
        let (head_line, head_col) = line_and_column(text, head);
        let (start, end): (usize, usize) = if anchor <= head {
            (anchor, head)
        } else {
            (head, anchor)
        };
        out.push(
            SelectionRange {
                anchor_line,
                anchor_col,
                head_line,
                head_col,
                is_primary: i == primary,
                text: slice_text(&rope, start, end),
            },
        );
        i += 1;
    }
    out
}

/// A view of the editor: which document it shows, and how many lines of it.
#[derive(Clone, Copy, Debug, PartialEq, Eq, Structural)]
pub struct ViewInfo {
    pub id: u64,
    pub doc: u64,
    pub height: usize,
}

/// The first view from `i` on that shows a document.
pub open spec fn first_showing(views: Seq<ViewInfo>, doc: u64, i: int) -> Option<int>
    decreases views.len() - i,
{
    if i >= views.len() {
        None
    } else if views[i].doc == doc {
        Some(i)
    } else {
        first_showing(views, doc, i + 1)
    }
}

/// The first view from `i` on with an id.
pub open spec fn first_with_id(views: Seq<ViewInfo>, id: u64, i: int) -> Option<int>
    decreases views.len() - i,
{
    if i >= views.len() {
        None
    } else if views[i].id == id {
        Some(i)
    } else {
        first_with_id(views, id, i + 1)
    }
}

/// The view in which to look at a document and its height: one that shows it,
/// else the one in focus, which counts as having 24 lines if it is not there.
pub fn view_for(views: &Vec<ViewInfo>, doc: u64, focus: u64) -> (view: (u64, usize))
    ensures
        view == match first_showing(views@, doc, 0) {
            Some(i) => (views@[i].id, views@[i].height),
            None => (
                focus,
                match first_with_id(views@, focus, 0) {
                    Some(i) => views@[i].height,
                    None => 24,
                },
            ),
        },
{
    let mut i: usize = 0;
    while i < views.len()
        invariant
            i <= views.len(),
            first_showing(views@, doc, i as int) == first_showing(views@, doc, 0),
        decreases views.len() - i,
    {
        if views[i].doc == doc {
            return (views[i].id, views[i].height);
        }
        i += 1;
    }
    let mut k: usize = 0;
    while k < views.len()
        invariant
            k <= views.len(),
            first_showing(views@, doc, 0) is None,
            first_with_id(views@, focus, k as int) == first_with_id(views@, focus, 0),
        decreases views.len() - k,
    {
        if views[k].id == focus {
            return (focus, views[k].height);
        }
        k += 1;
    }
    (focus, 24)
}

/// What a view shows. Lines are counted from one.
#[derive(Clone, Copy, Debug, PartialEq, Eq, Structural)]
pub struct ViewportInfo {
    pub first_visible_line: usize,
    pub last_visible_line: usize,
    pub height_lines: usize,
    pub horizontal_offset: usize,
}

/// What a view of `height` lines shows whose first character is `anchor`, or the
/// end of the text where it has fewer.
pub fn viewport(text: &str, anchor: usize, height: usize, horizontal_offset: usize) -> (info:
    ViewportInfo)
    requires
        line_total(text@) + height <= usize::MAX,
    ensures
        ({
            let first = line_of(text@, min(anchor as int, text@.len() as int));
            &&& info.first_visible_line == first + 1
            &&& info.last_visible_line == first + height
            &&& info.height_lines == height
            &&& info.horizontal_offset == horizontal_offset
        }),
{
    let len = text.unicode_len();
    let index: usize = if anchor < len {
        anchor
    } else {
        len
    };
    proof {
        lemma_line_of(text@, index as int);
        lemma_split_on_len(text@, '\n');
    }
    let rope = rope_of(text);
    let first = char_to_line(&rope, index);
    ViewportInfo {
        first_visible_line: first + 1,
        last_visible_line: first + height,
        height_lines: height,
        horizontal_offset,
    }
}

/// The characters at which two lines begin; the end of the text stands for lines
/// past it.
pub fn line_starts(text: &str, start_line: usize, end_line: usize) -> (range: (usize, usize))
    ensures
        range.0 == line_begin(text@, start_line as int),
        range.1 == line_begin(text@, end_line as int),
{
    let rope = rope_of(text);
    let n = len_lines(&rope);
    let first: usize = if start_line < n {
        start_line
    } else {
        n
    };
    let last: usize = if end_line < n {
        end_line
    } else {
        n
    };
    (line_to_char(&rope, first), line_to_char(&rope, last))
}

/// A query at the line and the column of a character is about that character.
pub proof fn law_query_position_finds_its_place(text: Seq<char>, index: int)
    requires
        0 <= index < text.len(),
    ensures
        char_at(text, line_of(text, index), column_of(text, index)) == index,
{
    lemma_line_of(text, index);
    lemma_lines_before(text, index);
}

/// The view of a document is the first one that shows it.
pub proof fn law_view_is_the_first_that_shows_the_document(views: Seq<ViewInfo>, doc: u64, k: int)
    requires
        0 <= k,
    ensures
        match first_showing(views, doc, k) {
            Some(i) => k <= i < views.len() && views[i].doc == doc && forall|j: int|
                k <= j < i ==> !((#[trigger] views[j]).doc == doc),
            None => forall|j: int| k <= j < views.len() ==> !((#[trigger] views[j]).doc == doc),
        },
    decreases views.len() - k,
{
    if k < views.len() && !(views[k].doc == doc) {
        law_view_is_the_first_that_shows_the_document(views, doc, k + 1);
    }
}

/// The view with an id is the first one that has it.
pub proof fn law_view_is_the_first_with_its_id(views: Seq<ViewInfo>, id: u64, k: int)
    requires
        0 <= k,
    ensures
        match first_with_id(views, id, k) {
            Some(i) => k <= i < views.len() && views[i].id == id && forall|j: int|
                k <= j < i ==> !((#[trigger] views[j]).id == id),
            None => forall|j: int| k <= j < views.len() ==> !((#[trigger] views[j]).id == id),
        },
    decreases views.len() - k,
{
    if k < views.len() && !(views[k].id == id) {
        law_view_is_the_first_with_its_id(views, id, k + 1);
    }
}

/// A character is in line `k`, at column `c`, where `k` lines come before it and `c`
/// characters of its own line do.
pub proof fn law_place_is_counted_in_lines(all: Seq<Seq<char>>, k: int, c: int)
    requires
        forall|i: int| 0 <= i < all.len() ==> !(#[trigger] all[i]).contains('\n'),
        0 <= k < all.len(),
        0 <= c <= all[k].len(),
    ensures
        ({
            let text = join(all, "\n"@);
            let begin = if k == 0 {
                0
            } else {
                join(all.take(k), "\n"@).len() + 1
            };
            &&& line_of(text, begin + c) == k
            &&& column_of(text, begin + c) == c
        }),
{
    let text = join(all, "\n"@);
    reveal_strlit("\n");
    lemma_text_from_line(all, k);
    let begin = line_begin(text, k);
    lemma_line_end(all, k);
    let index = begin + c;
    lemma_lines_before(text, index);
    let p = split_on(text, '\n');
    let j = split_on(text.take(index), '\n').len() - 1;
    if j < k {
        lemma_line_start_monotone(p, j + 1, k);
    }
    if k < j {
        lemma_line_start_monotone(p, k + 1, j);
    }
}

proof fn lemma_line_end(all: Seq<Seq<char>>, k: int)
    requires
        forall|i: int| 0 <= i < all.len() ==> !(#[trigger] all[i]).contains('\n'),
        0 <= k < all.len(),
    ensures
        ({
            let text = join(all, "\n"@);
            &&& split_on(text, '\n') == all
            &&& line_begin(text, k) + all[k].len() + (if k + 1 < all.len() {
                1int
            } else {
                0
            }) == line_begin(text, k + 1)
            &&& line_begin(text, k) + all[k].len() <= text.len()
        }),
{
    let text = join(all, "\n"@);
    reveal_strlit("\n");
    lemma_text_from_line(all, k);
    lemma_text_from_line(all, k + 1);
    law_joining_goes_part_by_part(all.take(k), all.skip(k), Seq::empty(), "\n"@);
    if k + 1 == all.len() {
        assert(all.skip(k) =~= seq![all[k]]);
        assert(join(all.skip(k), "\n"@) == all[k]);
    } else {
        assert(all.skip(k) =~= seq![all[k]] + all.skip(k + 1));
        law_joining_goes_part_by_part(seq![all[k]], all.skip(k + 1), all[k], "\n"@);
        assert(line_begin(text, k + 1) == line_start(all, k) + all[k].len() + 1);
    }
}

/// A line and a column lead to the character there. Past the end of a line they lead
/// to its line feed, in the last line to its last character, and past the last line to
/// where they lead in it.
pub proof fn law_place_leads_to_its_character(all: Seq<Seq<char>>, k: int, col: int, line: int)
    requires
        forall|i: int| 0 <= i < all.len() ==> !(#[trigger] all[i]).contains('\n'),
        0 <= k < all.len(),
        0 <= col,
        line >= all.len(),
    ensures
        ({
            let text = join(all, "\n"@);
            let begin = if k == 0 {
                0
            } else {
                join(all.take(k), "\n"@).len() + 1
            };
            &&& col < all[k].len() ==> char_at(text, k, col) == begin + col
            &&& col >= all[k].len() && k + 1 < all.len() ==> char_at(text, k, col) == begin
                + all[k].len()
            &&& col >= all[k].len() > 0 && k + 1 == all.len() ==> char_at(text, k, col) == begin
                + all[k].len() - 1
            &&& col >= all[k].len() == 0 && k + 1 == all.len() ==> char_at(text, k, col) == begin
            &&& char_at(text, line, col) == char_at(text, all.len() - 1, col)
        }),
{
    reveal_strlit("\n");
    lemma_text_from_line(all, k);
    lemma_line_end(all, k);
}

/// The cursor of a selection is on its head, or on the character before it where the
/// head comes last; a line end of two characters counts as one. This is told of texts
/// of characters before U+0300.
pub proof fn law_cursor_is_at_the_head(text: Seq<char>, s: Selection)
    requires
        s.head <= text.len(),
        forall|i: int| 0 <= i < text.len() ==> (#[trigger] text[i] as u32) < 0x300,
    ensures
        s.head <= s.anchor ==> cursor_of(text, s) == s.head,
        s.head > s.anchor && !(s.head >= 2 && text[s.head - 2] == '\r' && text[s.head - 1] == '\n')
            ==> cursor_of(text, s) == s.head - 1,
        s.head > s.anchor && s.head >= 2 && text[s.head - 2] == '\r' && text[s.head - 1] == '\n'
            ==> cursor_of(text, s) == s.head - 2,
{
    if s.head > s.anchor {
        let before = text.take(s.head as int);
        assert forall|i: int| 0 <= i < before.len() implies stands_alone(#[trigger] before[i]) by {
            assert(before[i] == text[i]);
        }
        lemma_last_cluster(before);
    }
}

/// A range is told with the text between its two ends, whichever of them is the head, and
/// with the places of both.
pub proof fn law_range_is_told_with_its_text(
    range: SelectionRange,
    before: Seq<char>,
    chosen: Seq<char>,
    after: Seq<char>,
    sel: Selection,
)
    requires
        is_range_of(range, before + chosen + after, sel),
        (sel.anchor == before.len() && sel.head == before.len() + chosen.len()) || (sel.head
            == before.len() && sel.anchor == before.len() + chosen.len()),
    ensures
        range.text@ == chosen,
        range.anchor_line == line_of(before + chosen + after, sel.anchor as int),
        range.anchor_col == column_of(before + chosen + after, sel.anchor as int),
        range.head_line == line_of(before + chosen + after, sel.head as int),
        range.head_col == column_of(before + chosen + after, sel.head as int),
{
    let text = before + chosen + after;
    assert(text.subrange(before.len() as int, (before.len() + chosen.len()) as int) =~= chosen);
}

} // verus!
