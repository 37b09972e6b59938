//! Which entries of a long conversation are in view.
//!
//! The panel keeps the height of every entry. Only the entries in view are laid out
//! when it is drawn.

use vstd::prelude::*;

use vstd::math::{max, min};

use crate::acp::client::DisplayLine;
use crate::ui::agent::lines::{entry_height, entry_lines, height, lines_height, markdown_view};
use crate::ui::spans::{lines_view, Span, SpanView};

verus! {

/// The rows of the first `n` entries.
pub open spec fn rows_above(heights: Seq<usize>, n: int) -> nat
    decreases n,
{
    if n <= 0 {
        0
    } else {
        rows_above(heights, n - 1) + heights[n - 1] as nat
    }
}

/// The rows of all entries, as far as they can be counted.
pub open spec fn all_rows(heights: Seq<usize>) -> nat {
    min(rows_above(heights, heights.len() as int) as int, usize::MAX as int) as nat
}

pub fn count_rows(heights: &Vec<usize>) -> (rows: usize)
    ensures
        rows == all_rows(heights@),
{
    let mut rows: usize = 0;
    let mut i: usize = 0;
    while i < heights.len()
        invariant
            i <= heights.len(),
            rows == min(rows_above(heights@, i as int) as int, usize::MAX as int),
        decreases heights.len() - i,
    {
        rows = rows.saturating_add(heights[i]);
        i += 1;
    }
    rows
}

/// The first of the entries from `k` on that is a running tool, or their number.
pub open spec fn first_live(display: Seq<DisplayLine>, k: int) -> int
    decreases display.len() - k,
{
    if k < 0 || k >= display.len() {
        display.len() as int
    } else if display[k] is ToolCall {
        k
    } else {
        first_live(display, k + 1)
    }
}

/// How many entries keep the height they were given: those before the first running
/// tool, but not the last two, which may still grow.
pub open spec fn settled(display: Seq<DisplayLine>) -> int {
    min(first_live(display, 0), max(display.len() - 2, 0))
}

/// The height of an entry.
pub open spec fn height_at(
    display: Seq<DisplayLine>,
    markdown: Seq<Seq<Seq<SpanView>>>,
    width: u16,
    i: int,
) -> nat {
    height(entry_lines(display[i], markdown[i]), width as nat)
}

/// The heights of all entries, where `kept` are those of the first of them.
pub open spec fn extended(
    kept: Seq<usize>,
    display: Seq<DisplayLine>,
    markdown: Seq<Seq<Seq<SpanView>>>,
    width: u16,
) -> Seq<usize> {
    Seq::new(
        display.len(),
        |i: int|
            if i < kept.len() {
                kept[i]
            } else {
                height_at(display, markdown, width, i) as usize
            },
    )
}

/// The heights of the entries after those have been measured anew that may have
/// changed.
pub open spec fn measured(
    heights: Seq<usize>,
    display: Seq<DisplayLine>,
    markdown: Seq<Seq<Seq<SpanView>>>,
    width: u16,
) -> Seq<usize> {
    extended(
        heights.take(min(settled(display), heights.len() as int)),
        display,
        markdown,
        width,
    )
}

fn find_live(display: &Vec<DisplayLine>) -> (k: usize)
    ensures
        k == first_live(display@, 0),
        k <= display@.len(),
{
    let mut k: usize = 0;
    while k < display.len()
        invariant
            k <= display.len(),
            first_live(display@, 0) == first_live(display@, k as int),
        decreases display.len() - k,
    {
        if let DisplayLine::ToolCall { .. } = &display[k] {
            return k;
        }
        k += 1;
    }
    k
}

/// Measures the entries whose height may have changed.
pub fn measure(
    heights: &mut Vec<usize>,
    display: &Vec<DisplayLine>,
    markdown: &Vec<Vec<Vec<Span>>>,
    width: u16,
)
    requires
        markdown@.len() == display@.len(),
    ensures
        final(heights)@ == measured(old(heights)@, display@, markdown_view(markdown@), width),
{
    let ghost laid_out = markdown_view(markdown@);
    let live = find_live(display);
    let head = display.len().saturating_sub(2);
    let keep: usize = if live < head {
        live
    } else {
        head
    };
    let ghost kept = heights@.take(min(keep as int, heights@.len() as int));
    heights.truncate(keep);
    assert(heights@ =~= kept);
    assert(kept.len() <= display@.len());
    assert(heights@ =~= extended(kept, display@, laid_out, width).take(kept.len() as int));
    while heights.len() < display.len()
        invariant
            kept.len() <= heights@.len() <= display@.len(),
            markdown@.len() == display@.len(),
            laid_out == markdown_view(markdown@),
            heights@ == extended(kept, display@, laid_out, width).take(heights@.len() as int),
        decreases display.len() - heights.len(),
    {
        let i = heights.len();
        let rows = entry_height(&display[i], &markdown[i], width);
        let ghost all = extended(kept, display@, laid_out, width);
        assert(laid_out[i as int] == lines_view(markdown@[i as int]@));
        heights.push(rows);
        assert(all.take(i + 1) =~= all.take(i as int).push(all[i as int]));
    }
    assert(heights@ =~= extended(kept, display@, laid_out, width));
}

/// The first entry of which a row lies below the first `top` rows, or the number of
/// entries.
pub open spec fn first_entry(heights: Seq<usize>, top: nat, k: int) -> int
    decreases heights.len() - k,
{
    if k < 0 || k >= heights.len() {
        heights.len() as int
    } else if rows_above(heights, k + 1) > top {
        k
    } else {
        first_entry(heights, top, k + 1)
    }
}

/// The end of the entries from `k` on that reach down to row `bottom`.
pub open spec fn entries_end(heights: Seq<usize>, bottom: nat, k: int) -> int
    decreases heights.len() - k,
{
    if k < 0 || k >= heights.len() {
        heights.len() as int
    } else if rows_above(heights, k + 1) >= bottom {
        k + 1
    } else {
        entries_end(heights, bottom, k + 1)
    }
}

/// The entries that are laid out, and how many rows of the first of them lie above
/// the view.
#[derive(Clone, Copy, Debug, PartialEq, Eq, Structural)]
pub struct Window {
    pub first: usize,
    pub end: usize,
    pub skip: usize,
}

/// The entries in view and one more, so that the last row is not cut off, where the
/// view shows `rows` rows from row `top` on.
pub open spec fn is_window(window: Window, heights: Seq<usize>, top: nat, rows: nat) -> bool {
    let first = first_entry(heights, top, 0);
    &&& window.first == first
    &&& window.end == min(entries_end(heights, top + rows, first) + 1, heights.len() as int)
    &&& window.skip == if first < heights.len() {
        top - rows_above(heights, first)
    } else {
        0
    }
}

pub fn window(heights: &Vec<usize>, top: usize, rows: u16) -> (window: Window)
    requires
        top + rows <= usize::MAX,
    ensures
        is_window(window, heights@, top as nat, rows as nat),
        window.first <= window.end <= heights@.len(),
{
    let len = heights.len();
    let mut above: usize = 0;
    let mut first: usize = 0;
    while first < len && heights[first] <= top - above
        invariant
            first <= len,
            len == heights.len(),
            above <= top,
            above == rows_above(heights@, first as int),
            first_entry(heights@, top as nat, 0) == first_entry(heights@, top as nat, first as int),
        decreases len - first,
    {
        above = above + heights[first];
        first += 1;
    }
    let skip: usize = if first < len {
        top - above
    } else {
        0
    };
    let bottom: usize = top + rows as usize;
    let ghost start = first as int;
    // The rows down to `bottom` that are not taken up yet.
    let mut left: usize = bottom - above;
    let mut end: usize = first;
    let mut done = false;
    while end < len && !done
        invariant
            first <= end <= len,
            len == heights.len(),
            start == first,
            done ==> end == entries_end(heights@, bottom as nat, start),
            done ==> first < end,
            !done ==> left == bottom - rows_above(heights@, end as int),
            !done ==> entries_end(heights@, bottom as nat, start) == entries_end(
                heights@,
                bottom as nat,
                end as int,
            ),
        decreases len - end,
    {
        let rows = heights[end];
        end += 1;
        if rows >= left {
            done = true;
        } else {
            left -= rows;
        }
    }
    let end: usize = if end < len {
        end + 1
    } else {
        len
    };
    Window { first, end, skip }
}

proof fn lemma_first_entry(heights: Seq<usize>, top: nat, k: int)
    requires
        0 <= k <= heights.len(),
        rows_above(heights, k) <= top,
    ensures
        ({
            let first = first_entry(heights, top, k);
            &&& k <= first <= heights.len()
            &&& rows_above(heights, first) <= top
            &&& first < heights.len() ==> top < rows_above(heights, first + 1)
        }),
    decreases heights.len() - k,
{
    if k < heights.len() && rows_above(heights, k + 1) <= top {
        lemma_first_entry(heights, top, k + 1);
    }
}

proof fn lemma_entries_end(heights: Seq<usize>, bottom: nat, k: int)
    requires
        0 <= k <= heights.len(),
    ensures
        ({
            let end = entries_end(heights, bottom, k);
            &&& k <= end <= heights.len()
            &&& end < heights.len() ==> rows_above(heights, end) >= bottom
        }),
    decreases heights.len() - k,
{
    if k < heights.len() && rows_above(heights, k + 1) < bottom {
        lemma_entries_end(heights, bottom, k + 1);
    }
}

proof fn lemma_rows_monotone(heights: Seq<usize>, i: int, j: int)
    requires
        0 <= i <= j <= heights.len(),
    ensures
        rows_above(heights, i) <= rows_above(heights, j),
    decreases j,
{
    if i < j {
        lemma_rows_monotone(heights, i, j - 1);
    }
}

/// The entries that are laid out cover the view: the first of them begins at its top
/// or above it, and they end at its bottom or below it, or with the last entry.
pub proof fn law_window_covers_view(window: Window, heights: Seq<usize>, top: nat, rows: nat)
    requires
        is_window(window, heights, top, rows),
    ensures
        window.first <= window.end <= heights.len(),
        rows_above(heights, window.first as int) <= top,
        window.end == heights.len() || top + rows <= rows_above(heights, window.end as int),
        window.first < heights.len() ==> {
            &&& rows_above(heights, window.first as int) + window.skip == top
            &&& window.skip < heights[window.first as int]
        },
{
    lemma_first_entry(heights, top, 0);
    let first = first_entry(heights, top, 0);
    lemma_entries_end(heights, top + rows, first);
    let end = entries_end(heights, top + rows, first);
    if end < heights.len() {
        lemma_rows_monotone(heights, end, end + 1);
    }
}

proof fn lemma_first_live(display: Seq<DisplayLine>, k: int)
    requires
        0 <= k <= display.len(),
    ensures
        k <= first_live(display, k) <= display.len(),
    decreases display.len() - k,
{
    if k < display.len() {
        lemma_first_live(display, k + 1);
    }
}

/// The heights are those of the entries.
pub open spec fn are_heights(
    heights: Seq<usize>,
    display: Seq<DisplayLine>,
    markdown: Seq<Seq<Seq<SpanView>>>,
    width: u16,
) -> bool {
    forall|i: int|
        0 <= i < heights.len() && i < display.len() ==> #[trigger] heights[i] == height_at(
            display,
            markdown,
            width,
            i,
        )
}

/// Heights that were kept are right as long as only the last two entries and those
/// from the first running tool on have changed.
pub proof fn law_kept_heights_are_right(
    heights: Seq<usize>,
    display: Seq<DisplayLine>,
    markdown: Seq<Seq<Seq<SpanView>>>,
    later: Seq<DisplayLine>,
    later_markdown: Seq<Seq<Seq<SpanView>>>,
    width: u16,
)
    requires
        are_heights(heights, display, markdown, width),
        heights.len() <= display.len(),
        forall|i: int|
            0 <= i < settled(later) && i < heights.len() ==> #[trigger] later[i] == display[i]
                && later_markdown[i] == markdown[i],
    ensures
        measured(heights, later, later_markdown, width).len() == later.len(),
        are_heights(measured(heights, later, later_markdown, width), later, later_markdown, width),
{
    let out = measured(heights, later, later_markdown, width);
    let kept = heights.take(min(settled(later), heights.len() as int));
    lemma_first_live(later, 0);
    assert forall|i: int| 0 <= i < out.len() && i < later.len() implies #[trigger] out[i]
        == height_at(later, later_markdown, width, i) by {
        if i < kept.len() {
            assert(out[i] == heights[i]);
            assert(later[i] == display[i]);
        }
    }
}

/// The rows above an entry are those of all entries before it.
pub proof fn law_rows_above_add_up(heights: Seq<usize>, more: Seq<usize>)
    ensures
        rows_above(Seq::empty(), 0) == 0,
        rows_above(heights + more, (heights.len() + more.len()) as int) == rows_above(
            heights,
            heights.len() as int,
        ) + rows_above(more, more.len() as int),
        forall|h: usize| #[trigger] rows_above(seq![h], 1) == h,
    decreases more.len(),
{
    assert forall|h: usize| #[trigger] rows_above(seq![h], 1) == h by {
        reveal_with_fuel(rows_above, 2);
    }
    lemma_rows_above_added(heights, more, more.len() as int);
}

proof fn lemma_rows_above_added(heights: Seq<usize>, more: Seq<usize>, n: int)
    requires
        0 <= n <= more.len(),
    ensures
        rows_above(heights + more, heights.len() + n) == rows_above(heights, heights.len() as int)
            + rows_above(more, n),
    decreases n,
{
    if n > 0 {
        lemma_rows_above_added(heights, more, n - 1);
        assert((heights + more)[heights.len() + n - 1] == more[n - 1]);
    } else {
        lemma_rows_above_start(heights, heights + more, heights.len() as int);
    }
}

proof fn lemma_rows_above_start(a: Seq<usize>, b: Seq<usize>, n: int)
    requires
        n <= a.len() <= b.len(),
        forall|i: int| 0 <= i < n ==> a[i] == b[i],
    ensures
        rows_above(a, n) == rows_above(b, n),
    decreases n,
{
    if n > 0 {
        lemma_rows_above_start(a, b, n - 1);
    }
}

/// The heights that are kept are those of the entries before the first tool that runs, but
/// not of the last two.
pub proof fn law_running_tools_are_measured_anew(display: Seq<DisplayLine>)
    ensures
        0 <= settled(display) <= display.len(),
        settled(display) <= display.len() - 2 || settled(display) == 0,
        forall|i: int| 0 <= i < settled(display) ==> !((#[trigger] display[i]) is ToolCall),
        settled(display) < display.len() - 2 ==> display[settled(display)] is ToolCall,
{
    lemma_first_live_is_first(display, 0);
}

proof fn lemma_first_live_is_first(display: Seq<DisplayLine>, k: int)
    requires
        0 <= k <= display.len(),
    ensures
        k <= first_live(display, k) <= display.len(),
        forall|i: int| k <= i < first_live(display, k) ==> !((#[trigger] display[i]) is ToolCall),
        first_live(display, k) < display.len() ==> display[first_live(display, k)] is ToolCall,
    decreases display.len() - k,
{
    if k < display.len() && !(display[k] is ToolCall) {
        lemma_first_live_is_first(display, k + 1);
    }
}

/// An entry that is measured anew is as high as its lines together.
pub proof fn law_entry_is_as_high_as_its_lines(
    heights: Seq<usize>,
    display: Seq<DisplayLine>,
    markdown: Seq<Seq<Seq<SpanView>>>,
    width: u16,
    i: int,
)
    requires
        0 <= i < display.len(),
        i >= heights.len() || i >= settled(display),
        width > 0,
        ({
            let lines = entry_lines(display[i], markdown[i]);
            lines_height(lines, lines.len() as int, width as nat) <= usize::MAX
        }),
    ensures
        ({
            let lines = entry_lines(display[i], markdown[i]);
            measured(heights, display, markdown, width)[i] == lines_height(
                lines,
                lines.len() as int,
                width as nat,
            )
        }),
{
    law_running_tools_are_measured_anew(display);
    let kept = heights.take(min(settled(display), heights.len() as int));
    assert(i >= kept.len());
    assert(measured(heights, display, markdown, width)[i] == height_at(
        display,
        markdown,
        width,
        i,
    ) as usize);
}

proof fn lemma_entries_end_is_needed(heights: Seq<usize>, bottom: nat, k: int)
    requires
        0 <= k <= heights.len(),
    ensures
        ({
            let end = entries_end(heights, bottom, k);
            &&& k <= end <= heights.len()
            &&& end < heights.len() ==> rows_above(heights, end) >= bottom
            &&& forall|i: int| k < i < end ==> rows_above(heights, i) < bottom
        }),
    decreases heights.len() - k,
{
    if k < heights.len() && rows_above(heights, k + 1) < bottom {
        lemma_entries_end_is_needed(heights, bottom, k + 1);
    }
}

/// One entry more is laid out than reach down to the last row in view, where there is one,
/// and no more than that.
pub proof fn law_window_holds_one_entry_more(
    window: Window,
    heights: Seq<usize>,
    top: nat,
    rows: nat,
    i: int,
)
    requires
        is_window(window, heights, top, rows),
    ensures
        window.end < heights.len() ==> rows_above(heights, window.end - 1) >= top + rows,
        window.first < i < window.end - 1 ==> rows_above(heights, i) < top + rows,
{
    lemma_first_entry(heights, top, 0);
    let first = first_entry(heights, top, 0);
    lemma_entries_end_is_needed(heights, top + rows, first);
}

} // verus!
