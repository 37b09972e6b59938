//! Views of what has changed in a document since its base version.
//!
//! [`DiffHunkView`] shows the original text of one hunk. [`DiffBaseView`] shows the
//! original on the left and the changed document on the right, either the hunks
//! alone with a few lines around each of them, or both files from end to end.

use vstd::prelude::*;

use vstd::math::{max, min};

use crate::graphics::Rect;
use crate::input::{InputEvent, KeyCode, KeyEvent};
use crate::mcp::buffers::Hunk;
use crate::text::{byte_offset, char_utf8_len, chars_of, decimal, decimal_of, lines, lines_of};
use crate::text::{pad, padded, repeat, repeated, views};
use crate::ui::markdown::code::{code_block, highlighted_code_block, highlights_fit};
use crate::ui::markdown::code::{CodeHighlights, CodeHighlightsView};
use crate::ui::markdown_preview::{PreviewRow, ViewResult};
use crate::ui::scrollbar::{thumb, thumb_height, thumb_start};
use crate::ui::spans::{copy_line, line_view, lines_view, Span, SpanView};

verus! {

/// How many unchanged lines are shown on each side of a hunk.
pub const CONTEXT_LINES: usize = 3;

#[derive(Clone, Copy, Debug, PartialEq, Eq, Structural)]
pub enum RowKind {
    Context,
    Removed,
    Added,
    /// 1-to-1 paired modification (left = before, right = after).
    Modified,
}

/// A row of the two panels: the line that each of them shows, counted from zero.
#[derive(Clone, Copy, Debug, PartialEq, Eq)]
pub struct DiffRow {
    pub left: Option<(usize, RowKind)>,
    pub right: Option<(usize, RowKind)>,
}

/// What a row shows.
pub ghost struct RowView {
    pub left: Option<(nat, RowKind)>,
    pub right: Option<(nat, RowKind)>,
}

pub open spec fn cell_view(cell: Option<(usize, RowKind)>) -> Option<(nat, RowKind)> {
    match cell {
        Some((i, kind)) => Some((i as nat, kind)),
        None => None,
    }
}

impl View for DiffRow {
    type V = RowView;

    open spec fn view(&self) -> RowView {
        RowView { left: cell_view(self.left), right: cell_view(self.right) }
    }
}

pub open spec fn rows_view(rows: Seq<DiffRow>) -> Seq<RowView> {
    Seq::new(rows.len(), |i: int| rows[i]@)
}

/// No line that a row shows is the last that can be counted.
spec fn in_range(row: DiffRow) -> bool {
    &&& row.left matches Some(cell) ==> cell.0 < usize::MAX
    &&& row.right matches Some(cell) ==> cell.0 < usize::MAX
}

spec fn all_in_range(rows: Seq<DiffRow>) -> bool {
    forall|i: int| 0 <= i < rows.len() ==> in_range(#[trigger] rows[i])
}

/// `n` rows that show the lines from `i` on beside those from `j` on.
pub open spec fn paired(i: nat, j: nat, n: nat, kind: RowKind) -> Seq<RowView> {
    Seq::new(
        n,
        |k: int| RowView { left: Some(((i + k) as nat, kind)), right: Some(((j + k) as nat, kind)) },
    )
}

/// `n` rows that show removed lines from `i` on.
pub open spec fn removed(i: nat, n: nat) -> Seq<RowView> {
    Seq::new(
        n,
        |k: int| RowView { left: Some(((i + k) as nat, RowKind::Removed)), right: None },
    )
}

/// `n` rows that show added lines from `j` on.
pub open spec fn added(j: nat, n: nat) -> Seq<RowView> {
    Seq::new(
        n,
        |k: int| RowView { left: None, right: Some(((j + k) as nat, RowKind::Added)) },
    )
}

/// Neither side of the hunk ends before it starts.
pub open spec fn is_hunk(h: Hunk) -> bool {
    &&& h.before_start <= h.before_end
    &&& h.after_start <= h.after_end
    &&& h.after_end + CONTEXT_LINES <= usize::MAX
}

/// The hunk's own rows: the lines side by side where there are as many as before,
/// else what was removed above what was added.
pub open spec fn hunk_rows(h: Hunk) -> Seq<RowView> {
    let before = (h.before_end - h.before_start) as nat;
    let after = (h.after_end - h.after_start) as nat;
    if before > 0 && before == after {
        paired(h.before_start as nat, h.after_start as nat, before, RowKind::Modified)
    } else {
        removed(h.before_start as nat, before) + added(h.after_start as nat, after)
    }
}

/// How many unchanged lines stand above a hunk.
pub open spec fn lines_above(h: Hunk) -> nat {
    min(h.before_start as int, CONTEXT_LINES as int) as nat
}

/// How many unchanged lines stand below a hunk in a base of `base` lines.
pub open spec fn lines_below(h: Hunk, base: nat) -> nat {
    (min(h.before_end + CONTEXT_LINES, base as int) - h.before_end) as nat
}

/// A hunk with the unchanged lines around it.
pub open spec fn section(h: Hunk, base: nat) -> Seq<RowView> {
    let above = lines_above(h);
    paired(
        (h.before_start - above) as nat,
        max(h.after_start - above, 0) as nat,
        above,
        RowKind::Context,
    ) + hunk_rows(h) + paired(
        h.before_end as nat,
        h.after_end as nat,
        lines_below(h, base),
        RowKind::Context,
    )
}

/// The first `n` hunks with the lines around them.
pub open spec fn sections(hunks: Seq<Hunk>, n: int, base: nat) -> Seq<RowView>
    decreases n,
{
    if n <= 0 {
        Seq::empty()
    } else {
        sections(hunks, n - 1, base) + section(hunks[n - 1], base)
    }
}

/// The lines round the cursor, where no hunk is shown.
pub open spec fn cursor_window(cursor: nat, base: nat, doc: nat) -> Seq<RowView> {
    let start = max(cursor - 5, 0);
    let end = min(min((cursor + 6) as int, base as int), doc as int);
    paired(start as nat, start as nat, max(end - start, 0) as nat, RowKind::Context)
}

/// The lines of the base and of the document up to the end of the first `n` hunks.
pub open spec fn base_end(hunks: Seq<Hunk>, n: int) -> nat {
    if n <= 0 {
        0
    } else {
        hunks[n - 1].before_end as nat
    }
}

pub open spec fn doc_end(hunks: Seq<Hunk>, n: int) -> nat {
    if n <= 0 {
        0
    } else {
        hunks[n - 1].after_end as nat
    }
}

/// How many unchanged lines lie between the first `n` hunks and the next one.
pub open spec fn gap(hunks: Seq<Hunk>, n: int) -> nat {
    max(
        min(
            hunks[n].before_start - base_end(hunks, n),
            hunks[n].after_start - doc_end(hunks, n),
        ),
        0,
    ) as nat
}

/// Both files up to the end of the first `n` hunks.
pub open spec fn full_rows(hunks: Seq<Hunk>, n: int) -> Seq<RowView>
    decreases n,
{
    if n <= 0 {
        Seq::empty()
    } else {
        full_rows(hunks, n - 1) + paired(
            base_end(hunks, n - 1),
            doc_end(hunks, n - 1),
            gap(hunks, n - 1),
            RowKind::Context,
        ) + hunk_rows(hunks[n - 1])
    }
}

/// The line `i` of a file of `count` lines, where there is one.
pub open spec fn existing(i: nat, count: nat) -> Option<(nat, RowKind)> {
    if i < count {
        Some((i, RowKind::Context))
    } else {
        None
    }
}

/// What follows the last hunk: the base from line `i` and the document from line
/// `j` on.
pub open spec fn tail_rows(i: nat, j: nat, base: nat, doc: nat) -> Seq<RowView> {
    Seq::new(
        (max(base as int, doc as int) - min(i as int, base as int)) as nat,
        |k: int|
            RowView {
                left: existing((i + k) as nat, base),
                right: existing((j + k) as nat, doc),
            },
    )
}

/// Both files from end to end.
pub open spec fn whole(hunks: Seq<Hunk>, base: nat, doc: nat) -> Seq<RowView> {
    let n = hunks.len() as int;
    full_rows(hunks, n) + tail_rows(base_end(hunks, n), doc_end(hunks, n), base, doc)
}

fn push_pairs(rows: &mut Vec<DiffRow>, i: usize, j: usize, n: usize, kind: RowKind)
    requires
        i + n <= usize::MAX,
        j + n <= usize::MAX,
        all_in_range(old(rows)@),
    ensures
        rows_view(final(rows)@) == rows_view(old(rows)@) + paired(i as nat, j as nat, n as nat, kind),
        all_in_range(final(rows)@),
{
    let ghost start = rows_view(rows@);
    let mut k: usize = 0;
    assert(start =~= start + paired(i as nat, j as nat, 0, kind));
    while k < n
        invariant
            k <= n,
            i + n <= usize::MAX,
            j + n <= usize::MAX,
            all_in_range(rows@),
            rows_view(rows@) == start + paired(i as nat, j as nat, k as nat, kind),
        decreases n - k,
    {
        let ghost before = rows@;
        rows.push(DiffRow { left: Some((i + k, kind)), right: Some((j + k, kind)) });
        assert(rows_view(rows@) =~= rows_view(before).push(rows@.last()@));
        assert(rows_view(rows@) =~= start + paired(i as nat, j as nat, (k + 1) as nat, kind));
        k += 1;
    }
}

fn push_removed(rows: &mut Vec<DiffRow>, i: usize, n: usize)
    requires
        i + n <= usize::MAX,
        all_in_range(old(rows)@),
    ensures
        rows_view(final(rows)@) == rows_view(old(rows)@) + removed(i as nat, n as nat),
        all_in_range(final(rows)@),
{
    let ghost start = rows_view(rows@);
    let mut k: usize = 0;
    assert(start =~= start + removed(i as nat, 0));
    while k < n
        invariant
            k <= n,
            i + n <= usize::MAX,
            all_in_range(rows@),
            rows_view(rows@) == start + removed(i as nat, k as nat),
        decreases n - k,
    {
        let ghost before = rows@;
        rows.push(DiffRow { left: Some((i + k, RowKind::Removed)), right: None });
        assert(rows_view(rows@) =~= rows_view(before).push(rows@.last()@));
        assert(rows_view(rows@) =~= start + removed(i as nat, (k + 1) as nat));
        k += 1;
    }
}

fn push_added(rows: &mut Vec<DiffRow>, j: usize, n: usize)
    requires
        j + n <= usize::MAX,
        all_in_range(old(rows)@),
    ensures
        rows_view(final(rows)@) == rows_view(old(rows)@) + added(j as nat, n as nat),
        all_in_range(final(rows)@),
{
    let ghost start = rows_view(rows@);
    let mut k: usize = 0;
    assert(start =~= start + added(j as nat, 0));
    while k < n
        invariant
            k <= n,
            j + n <= usize::MAX,
            all_in_range(rows@),
            rows_view(rows@) == start + added(j as nat, k as nat),
        decreases n - k,
    {
        let ghost before = rows@;
        rows.push(DiffRow { left: None, right: Some((j + k, RowKind::Added)) });
        assert(rows_view(rows@) =~= rows_view(before).push(rows@.last()@));
        assert(rows_view(rows@) =~= start + added(j as nat, (k + 1) as nat));
        k += 1;
    }
}

fn push_hunk(rows: &mut Vec<DiffRow>, h: Hunk)
    requires
        is_hunk(h),
        all_in_range(old(rows)@),
    ensures
        rows_view(final(rows)@) == rows_view(old(rows)@) + hunk_rows(h),
        all_in_range(final(rows)@),
{
    let before: usize = (h.before_end - h.before_start) as usize;
    let after: usize = (h.after_end - h.after_start) as usize;
    let ghost start = rows_view(rows@);
    if before > 0 && before == after {
        push_pairs(
            rows,
            h.before_start as usize,
            h.after_start as usize,
            before,
            RowKind::Modified,
        );
    } else {
        push_removed(rows, h.before_start as usize, before);
        push_added(rows, h.after_start as usize, after);
        assert(rows_view(rows@) =~= start + hunk_rows(h));
    }
}

fn push_section(rows: &mut Vec<DiffRow>, h: Hunk, base: usize)
    requires
        is_hunk(h),
        h.before_end <= base,
        all_in_range(old(rows)@),
    ensures
        rows_view(final(rows)@) == rows_view(old(rows)@) + section(h, base as nat),
        all_in_range(final(rows)@),
{
    let ghost start = rows_view(rows@);
    let before_start = h.before_start as usize;
    let before_end = h.before_end as usize;
    let above: usize = if before_start < CONTEXT_LINES {
        before_start
    } else {
        CONTEXT_LINES
    };
    push_pairs(
        rows,
        before_start - above,
        (h.after_start as usize).saturating_sub(above),
        above,
        RowKind::Context,
    );
    push_hunk(rows, h);
    let below: usize = if base - before_end < CONTEXT_LINES {
        base - before_end
    } else {
        CONTEXT_LINES
    };
    push_pairs(rows, before_end, h.after_end as usize, below, RowKind::Context);
    assert(rows_view(rows@) =~= start + section(h, base as nat));
}

fn push_tail(rows: &mut Vec<DiffRow>, i: usize, j: usize, base: usize, doc: usize)
    requires
        all_in_range(old(rows)@),
    ensures
        rows_view(final(rows)@) == rows_view(old(rows)@) + tail_rows(
            i as nat,
            j as nat,
            base as nat,
            doc as nat,
        ),
        all_in_range(final(rows)@),
{
    let ghost start = rows_view(rows@);
    let ghost all = tail_rows(i as nat, j as nat, base as nat, doc as nat);
    let longest: usize = if base > doc {
        base
    } else {
        doc
    };
    let used: usize = if i < base {
        i
    } else {
        base
    };
    let remaining: usize = longest - used;
    let mut k: usize = 0;
    assert(start =~= start + all.take(0));
    while k < remaining
        invariant
            k <= remaining,
            remaining == all.len(),
            all == tail_rows(i as nat, j as nat, base as nat, doc as nat),
            all_in_range(rows@),
            rows_view(rows@) == start + all.take(k as int),
        decreases remaining - k,
    {
        let left: Option<(usize, RowKind)> = if i < base && k < base - i {
            Some((i + k, RowKind::Context))
        } else {
            None
        };
        let right: Option<(usize, RowKind)> = if j < doc && k < doc - j {
            Some((j + k, RowKind::Context))
        } else {
            None
        };
        let ghost before = rows@;
        rows.push(DiffRow { left, right });
        assert(rows_view(rows@) =~= rows_view(before).push(rows@.last()@));
        assert(rows@.last()@ == all[k as int]);
        assert(all.take(k + 1) =~= all.take(k as int).push(all[k as int]));
        assert(rows_view(rows@) =~= start + all.take(k + 1));
        k += 1;
    }
    assert(all.take(all.len() as int) =~= all);
}

/// How many lines a text has.
fn line_count(text: &str) -> (n: usize)
    ensures
        n == lines(text@).len(),
{
    let all = lines_of(text);
    assert(views(all@).len() == all@.len());
    all.len()
}

fn hunk_only_rows(hunks: &Vec<Hunk>, cursor: usize, base: usize, doc: usize) -> (rows: Vec<DiffRow>)
    requires
        forall|i: int|
            0 <= i < hunks@.len() ==> is_hunk(#[trigger] hunks@[i]) && hunks@[i].before_end <= base,
        cursor + 6 <= usize::MAX,
    ensures
        rows_view(rows@) == if hunks@.len() == 0 {
            cursor_window(cursor as nat, base as nat, doc as nat)
        } else {
            sections(hunks@, hunks@.len() as int, base as nat)
        },
        all_in_range(rows@),
{
    let mut rows: Vec<DiffRow> = Vec::new();
    assert(rows_view(rows@) =~= Seq::empty());
    if hunks.len() == 0 {
        let start = cursor.saturating_sub(5);
        let mut end: usize = cursor + 6;
        if base < end {
            end = base;
        }
        if doc < end {
            end = doc;
        }
        push_pairs(&mut rows, start, start, end.saturating_sub(start), RowKind::Context);
        assert(rows_view(rows@) =~= cursor_window(cursor as nat, base as nat, doc as nat));
        return rows;
    }
    let mut i: usize = 0;
    while i < hunks.len()
        invariant
            i <= hunks.len(),
            forall|k: int|
                0 <= k < hunks@.len() ==> is_hunk(#[trigger] hunks@[k]) && hunks@[k].before_end
                    <= base,
            rows_view(rows@) == sections(hunks@, i as int, base as nat),
            all_in_range(rows@),
        decreases hunks.len() - i,
    {
        push_section(&mut rows, hunks[i], base);
        i += 1;
    }
    rows
}

fn full_file_rows(hunks: &Vec<Hunk>, base: usize, doc: usize) -> (rows: Vec<DiffRow>)
    requires
        forall|i: int| 0 <= i < hunks@.len() ==> is_hunk(#[trigger] hunks@[i]),
    ensures
        rows_view(rows@) == whole(hunks@, base as nat, doc as nat),
        all_in_range(rows@),
{
    let mut rows: Vec<DiffRow> = Vec::new();
    assert(rows_view(rows@) =~= Seq::empty());
    let mut base_i: usize = 0;
    let mut doc_i: usize = 0;
    let mut i: usize = 0;
    while i < hunks.len()
        invariant
            i <= hunks.len(),
            forall|k: int| 0 <= k < hunks@.len() ==> is_hunk(#[trigger] hunks@[k]),
            base_i == base_end(hunks@, i as int),
            doc_i == doc_end(hunks@, i as int),
            rows_view(rows@) == full_rows(hunks@, i as int),
            all_in_range(rows@),
        decreases hunks.len() - i,
    {
        let h = hunks[i];
        // Unchanged lines before this hunk.
        let base_gap = (h.before_start as usize).saturating_sub(base_i);
        let doc_gap = (h.after_start as usize).saturating_sub(doc_i);
        let unchanged: usize = if base_gap < doc_gap {
            base_gap
        } else {
            doc_gap
        };
        assert(unchanged == gap(hunks@, i as int));
        push_pairs(&mut rows, base_i, doc_i, unchanged, RowKind::Context);
        push_hunk(&mut rows, h);
        base_i = h.before_end as usize;
        doc_i = h.after_end as usize;
        i += 1;
    }
    push_tail(&mut rows, base_i, doc_i, base, doc);
    rows
}

/// What the side-by-side view holds.
pub ghost struct DiffBaseState {
    pub base_text: Seq<char>,
    pub doc_text: Seq<char>,
    pub language: Seq<char>,
    pub hunks: Seq<Hunk>,
    /// Both files are shown from end to end.
    pub full_file: bool,
    /// The first row in view.
    pub scroll: nat,
    /// The line of the document that the cursor is on.
    pub cursor: nat,
    /// How many rows the view had when it was last drawn.
    pub height: nat,
}

impl DiffBaseState {
    pub open spec fn base_lines(self) -> nat {
        lines(self.base_text).len()
    }

    pub open spec fn doc_lines(self) -> nat {
        lines(self.doc_text).len()
    }

    pub open spec fn rows(self) -> Seq<RowView> {
        if self.full_file {
            whole(self.hunks, self.base_lines(), self.doc_lines())
        } else if self.hunks.len() == 0 {
            cursor_window(self.cursor, self.base_lines(), self.doc_lines())
        } else {
            sections(self.hunks, self.hunks.len() as int, self.base_lines())
        }
    }

    pub open spec fn max_scroll(self) -> nat {
        max(self.rows().len() - self.height, 0) as nat
    }

    /// How far a page key scrolls.
    pub open spec fn page(self) -> nat {
        max(self.height as int / 2, 1) as nat
    }

    pub open spec fn down(self, n: nat) -> DiffBaseState {
        DiffBaseState {
            scroll: min((self.scroll + n) as int, self.max_scroll() as int) as nat,
            ..self
        }
    }

    pub open spec fn up(self, n: nat) -> DiffBaseState {
        DiffBaseState { scroll: max(self.scroll - n, 0) as nat, ..self }
    }

    pub open spec fn after_key(self, key: KeyEvent) -> DiffBaseState {
        if moves_down(key) {
            self.down(1)
        } else if moves_up(key) {
            self.up(1)
        } else if pages_down(key) {
            self.down(self.page())
        } else if pages_up(key) {
            self.up(self.page())
        } else {
            self
        }
    }

    /// The view drawn with room for `height` rows.
    pub open spec fn drawn(self, height: nat) -> DiffBaseState {
        let sized = DiffBaseState { height, ..self };
        DiffBaseState { scroll: min(self.scroll as int, sized.max_scroll() as int) as nat, ..sized }
    }
}

pub open spec fn moves_down(key: KeyEvent) -> bool {
    key.is_plain(KeyCode::Char('j')) || key.is_plain(KeyCode::Down)
}

pub open spec fn moves_up(key: KeyEvent) -> bool {
    key.is_plain(KeyCode::Char('k')) || key.is_plain(KeyCode::Up)
}

pub open spec fn pages_down(key: KeyEvent) -> bool {
    key.is_plain(KeyCode::PageDown) || key.is_ctrl('d')
}

pub open spec fn pages_up(key: KeyEvent) -> bool {
    key.is_plain(KeyCode::PageUp) || key.is_ctrl('u')
}

pub open spec fn closes(key: KeyEvent) -> bool {
    key.is_plain(KeyCode::Esc) || key.is_plain(KeyCode::Char('q'))
}

/// The row shows line `line` of the document.
pub open spec fn shows_line(row: RowView, line: nat) -> bool {
    row.right matches Some(cell) && cell.0 == line
}

/// The first of the rows from `k` on that shows line `line` of the document.
pub open spec fn row_of_line(rows: Seq<RowView>, line: nat, k: int) -> Option<nat>
    decreases rows.len() - k,
{
    if k < 0 || k >= rows.len() {
        None
    } else if shows_line(rows[k], line) {
        Some(k as nat)
    } else {
        row_of_line(rows, line, k + 1)
    }
}

/// Where a view of both files begins: three rows above the cursor's line.
pub open spec fn first_scroll(rows: Seq<RowView>, cursor: nat) -> nat {
    let row = match row_of_line(rows, cursor, 0) {
        Some(row) => row,
        None => cursor,
    };
    max(row - 3, 0) as nat
}

fn find_line(rows: &Vec<DiffRow>, line: usize) -> (row: Option<usize>)
    ensures
        match row_of_line(rows_view(rows@), line as nat, 0) {
            Some(k) => row == Some(k as usize) && k < rows@.len(),
            None => row is None,
        },
{
    let ghost all = rows_view(rows@);
    let mut k: usize = 0;
    while k < rows.len()
        invariant
            k <= rows.len(),
            all == rows_view(rows@),
            row_of_line(all, line as nat, 0) == row_of_line(all, line as nat, k as int),
        decreases rows.len() - k,
    {
        assert(all[k as int] == rows@[k as int]@);
        if let Some((i, _)) = rows[k].right {
            if i == line {
                return Some(k);
            }
        }
        k += 1;
    }
    None
}

/// Which of three styles a cell of a panel has.
pub open spec fn cell_style<S>(kind: RowKind, is_left: bool, minus: S, plus: S, normal: S) -> S {
    match kind {
        RowKind::Context => normal,
        RowKind::Removed => minus,
        RowKind::Added => plus,
        RowKind::Modified => if is_left {
            minus
        } else {
            plus
        },
    }
}

/// Which of three styles a cell of a panel has.
pub fn cell_bg<S>(kind: RowKind, is_left: bool, minus: S, plus: S, normal: S) -> (style: S)
    ensures
        style == cell_style(kind, is_left, minus, plus, normal),
{
    match kind {
        RowKind::Context => normal,
        RowKind::Removed => minus,
        RowKind::Added => plus,
        RowKind::Modified => {
            if is_left {
                minus
            } else {
                plus
            }
        },
    }
}

/// The theme's style that fills a cell of a panel.
#[derive(Clone, Copy, Debug, PartialEq, Eq, Structural)]
pub enum CellColor {
    Normal,
    Minus,
    Plus,
}

/// One line of one panel: `[  NNN │ <content>  ]`.
#[derive(Debug)]
pub struct PanelCell {
    pub x: u16,
    pub width: u16,
    pub color: CellColor,
    /// The line number, drawn in the first four columns.
    pub number: Option<String>,
    /// A rule is drawn in the two columns behind the number.
    pub gutter: bool,
    /// The line, drawn in the columns behind the rule.
    pub content: Option<Vec<Span>>,
}

/// The columns of a panel that stand before the text of a line.
pub const GUTTER_WIDTH: u16 = 6;

/// A line number counted from one, set to the right of three columns, and a space.
pub open spec fn numbered(i: nat) -> Seq<char> {
    let digits = decimal(i + 1);
    repeat(' ', max(3 - digits.len(), 0) as nat) + digits + seq![' ']
}

/// `cell` is how the line that a row shows is drawn in `width` columns from `x` on.
pub open spec fn is_drawn(
    cell: PanelCell,
    x: u16,
    width: u16,
    shown: Option<(nat, RowKind)>,
    text: Seq<Seq<SpanView>>,
    is_left: bool,
) -> bool {
    &&& cell.x == x
    &&& cell.width == width
    &&& match shown {
        None => {
            &&& cell.color == CellColor::Normal
            &&& cell.number is None
            &&& !cell.gutter
            &&& cell.content is None
        },
        Some((i, kind)) => {
            &&& cell.color == cell_style(
                kind,
                is_left,
                CellColor::Minus,
                CellColor::Plus,
                CellColor::Normal,
            )
            &&& cell.number is Some <==> width >= 4
            &&& cell.number is Some ==> cell.number->0@ == numbered(i)
            &&& cell.gutter == (width >= GUTTER_WIDTH)
            &&& cell.content is Some <==> width > GUTTER_WIDTH && i < text.len()
            &&& cell.content is Some ==> line_view(cell.content->0@) == text[i as int]
        },
    }
}

fn line_number(i: usize) -> (text: String)
    requires
        i < usize::MAX,
    ensures
        text@ == numbered(i as nat),
{
    let digits = decimal_of(i as u64 + 1);
    let len = digits.as_str().unicode_len();
    let mut text = repeated(' ', 3usize.saturating_sub(len));
    text.append(digits.as_str());
    text.push(' ');
    assert(text@ =~= numbered(i as nat));
    text
}

fn render_panel_cell(
    x: u16,
    width: u16,
    shown: Option<(usize, RowKind)>,
    text: &Vec<Vec<Span>>,
    is_left: bool,
) -> (cell: PanelCell)
    requires
        shown matches Some(shown) ==> shown.0 < usize::MAX,
    ensures
        is_drawn(cell, x, width, cell_view(shown), lines_view(text@), is_left),
{
    match shown {
        None => PanelCell {
            x,
            width,
            color: CellColor::Normal,
            number: None,
            gutter: false,
            content: None,
        },
        Some((i, kind)) => {
            let color = cell_bg(
                kind,
                is_left,
                CellColor::Minus,
                CellColor::Plus,
                CellColor::Normal,
            );
            let number = if width >= 4 {
                Some(line_number(i))
            } else {
                None
            };
            let content = if width > GUTTER_WIDTH && i < text.len() {
                Some(copy_line(&text[i]))
            } else {
                None
            };
            PanelCell { x, width, color, number, gutter: width >= GUTTER_WIDTH, content }
        },
    }
}

/// A row of both panels.
#[derive(Debug)]
pub struct DiffLine {
    pub y: u16,
    pub left: PanelCell,
    pub right: PanelCell,
}

/// What to draw inside the border of a side-by-side view.
#[derive(Debug)]
pub struct DiffFrame {
    pub left_title: String,
    pub right_title: String,
    /// The column of the rule between the panels.
    pub divider_x: u16,
    pub rows: Vec<DiffLine>,
    /// The first row of the scrollbar's thumb and its height, where not all rows
    /// are in view.
    pub thumb: Option<(usize, usize)>,
}

/// Side-by-side diff: original on the left, modified on the right.
#[derive(Debug)]
pub struct DiffBaseView {
    base_text: String,
    doc_text: String,
    language: String,
    hunks: Vec<Hunk>,
    full_file: bool,
    scroll_offset: usize,
    cursor_line: usize,
    /// Content-area height from the last render, used to size page scrolls.
    last_height: usize,
}

impl View for DiffBaseView {
    type V = DiffBaseState;

    closed spec fn view(&self) -> DiffBaseState {
        DiffBaseState {
            base_text: self.base_text@,
            doc_text: self.doc_text@,
            language: self.language@,
            hunks: self.hunks@,
            full_file: self.full_file,
            scroll: self.scroll_offset as nat,
            cursor: self.cursor_line as nat,
            height: self.last_height as nat,
        }
    }
}

impl DiffBaseState {
    /// The hunks lie in order within themselves and, where they are shown alone,
    /// within the base.
    pub open spec fn valid(self) -> bool {
        &&& forall|i: int| 0 <= i < self.hunks.len() ==> is_hunk(#[trigger] self.hunks[i])
        &&& !self.full_file ==> {
            &&& self.cursor + 6 <= usize::MAX
            &&& forall|i: int|
                0 <= i < self.hunks.len() ==> (#[trigger] self.hunks[i]).before_end
                    <= self.base_lines()
        }
    }
}

pub open spec fn optional_highlights(code: Option<&CodeHighlights>) -> Option<CodeHighlightsView> {
    match code {
        Some(code) => Some(code@),
        None => None,
    }
}

impl DiffBaseView {
    pub const ID: &'static str = "diff-base";

    /// Per-hunk side-by-side view (shows only the passed hunks with context).
    pub fn new(
        base_text: String,
        doc_text: String,
        language: String,
        hunks: Vec<Hunk>,
        cursor_line: usize,
    ) -> (r: Self)
        requires
            forall|i: int|
                0 <= i < hunks@.len() ==> is_hunk(#[trigger] hunks@[i]) && hunks@[i].before_end
                    <= lines(base_text@).len(),
            cursor_line + 6 <= usize::MAX,
        ensures
            r@ == (DiffBaseState {
                base_text: base_text@,
                doc_text: doc_text@,
                language: language@,
                hunks: hunks@,
                full_file: false,
                scroll: 0,
                cursor: cursor_line as nat,
                height: 20,
            }),
            r@.valid(),
    {
        Self {
            base_text,
            doc_text,
            language,
            hunks,
            full_file: false,
            scroll_offset: 0,
            cursor_line,
            last_height: 20,
        }
    }

    /// Full-file side-by-side diff.  Initial scroll is set so that
    /// `cursor_line` is visible near the top of the viewport.
    pub fn new_full_file(
        base_text: String,
        doc_text: String,
        language: String,
        hunks: Vec<Hunk>,
        cursor_line: usize,
    ) -> (r: Self)
        requires
            forall|i: int| 0 <= i < hunks@.len() ==> is_hunk(#[trigger] hunks@[i]),
        ensures
            r@ == (DiffBaseState {
                base_text: base_text@,
                doc_text: doc_text@,
                language: language@,
                hunks: hunks@,
                full_file: true,
                scroll: first_scroll(
                    whole(hunks@, lines(base_text@).len(), lines(doc_text@).len()),
                    cursor_line as nat,
                ),
                cursor: cursor_line as nat,
                height: 20,
            }),
            r@.valid(),
    {
        let base = line_count(base_text.as_str());
        let doc = line_count(doc_text.as_str());
        let rows = full_file_rows(&hunks, base, doc);
        let row = match find_line(&rows, cursor_line) {
            Some(row) => row,
            None => cursor_line,
        };
        Self {
            base_text,
            doc_text,
            language,
            hunks,
            full_file: true,
            scroll_offset: row.saturating_sub(3),
            cursor_line,
            last_height: 20,
        }
    }

    pub fn base_text(&self) -> (text: &str)
        ensures
            text@ == self@.base_text,
    {
        self.base_text.as_str()
    }

    pub fn doc_text(&self) -> (text: &str)
        ensures
            text@ == self@.doc_text,
    {
        self.doc_text.as_str()
    }

    pub fn language(&self) -> (language: &str)
        ensures
            language@ == self@.language,
    {
        self.language.as_str()
    }

    fn build_rows(&self) -> (rows: Vec<DiffRow>)
        requires
            self@.valid(),
        ensures
            rows_view(rows@) == self@.rows(),
            all_in_range(rows@),
    {
        let base = line_count(self.base_text.as_str());
        let doc = line_count(self.doc_text.as_str());
        proof {
            let state = self@;
            assert forall|i: int| 0 <= i < self.hunks@.len() implies is_hunk(
                #[trigger] self.hunks@[i],
            ) && (!self.full_file ==> self.hunks@[i].before_end <= base) by {
                assert(is_hunk(state.hunks[i]));
            }
        }
        if self.full_file {
            full_file_rows(&self.hunks, base, doc)
        } else {
            hunk_only_rows(&self.hunks, self.cursor_line, base, doc)
        }
    }

    /// What to draw inside the border, where the title row and the rows fill
    /// `inner`. `None` where there is too little room.
    pub fn render(
        &mut self,
        inner: Rect,
        base_highlights: Option<&CodeHighlights>,
        doc_highlights: Option<&CodeHighlights>,
    ) -> (frame: Option<DiffFrame>)
        requires
            inner.fits(),
            old(self)@.valid(),
            base_highlights is Some ==> highlights_fit(old(self)@.base_text, base_highlights->0@),
            doc_highlights is Some ==> highlights_fit(old(self)@.doc_text, doc_highlights->0@),
        ensures
            final(self)@.valid(),
            frame is None <==> inner.height < 2 || inner.width < 12,
            frame is None ==> final(self)@ == old(self)@,
            frame matches Some(frame) ==> {
                let height = (inner.height - 1) as nat;
                let now = old(self)@.drawn(height);
                let rows = now.rows();
                let panel = inner.width / 2;
                let right = (inner.width - panel - 1) as u16;
                let base = code_block(now.base_text, optional_highlights(base_highlights));
                let doc = code_block(now.doc_text, optional_highlights(doc_highlights));
                &&& final(self)@ == now
                &&& frame.left_title@ == padded(" Original"@, panel as nat)
                &&& frame.right_title@ == padded(" Modified"@, right as nat)
                &&& frame.divider_x == inner.x + panel
                &&& frame.rows@.len() == min(rows.len() - now.scroll, height as int)
                &&& forall|i: int|
                    0 <= i < frame.rows@.len() ==> {
                        let row = rows[now.scroll + i];
                        &&& (#[trigger] frame.rows@[i]).y == inner.y + 1 + i
                        &&& is_drawn(frame.rows@[i].left, inner.x, panel, row.left, base, true)
                        &&& is_drawn(
                            frame.rows@[i].right,
                            (inner.x + panel + 1) as u16,
                            right,
                            row.right,
                            doc,
                            false,
                        )
                    }
                &&& frame.thumb == if rows.len() > height {
                    Some(
                        (
                            thumb_start(height, rows.len(), now.scroll) as usize,
                            thumb_height(height, rows.len()) as usize,
                        ),
                    )
                } else {
                    None
                }
            },
    {
        if inner.height < 2 || inner.width < 12 {
            return None;
        }
        let base = highlighted_code_block(self.base_text.as_str(), base_highlights);
        let doc = highlighted_code_block(self.doc_text.as_str(), doc_highlights);
        let rows = self.build_rows();
        let total = rows.len();
        let ghost all = self@.rows();
        assert(rows_view(rows@).len() == total);

        let height: u16 = inner.height - 1;
        let panel: u16 = inner.width / 2;
        let right_width: u16 = inner.width - panel - 1;
        let divider_x: u16 = inner.x + panel;
        let left_title = pad(" Original", panel as usize);
        let right_title = pad(" Modified", right_width as usize);

        // Clamp scroll.
        let max_scroll = total.saturating_sub(height as usize);
        let scroll: usize = if self.scroll_offset < max_scroll {
            self.scroll_offset
        } else {
            max_scroll
        };
        self.last_height = height as usize;
        self.scroll_offset = scroll;
        assert(self@ == old(self)@.drawn(height as nat));
        assert(self@.rows() == all);

        // Content rows.
        let mut out: Vec<DiffLine> = Vec::new();
        let mut i: u16 = 0;
        while i < height && (i as usize) < total - scroll
            invariant
                i <= height,
                height == inner.height - 1,
                inner.fits(),
                panel == inner.width / 2,
                inner.width >= 12,
                right_width == inner.width - panel - 1,
                divider_x == inner.x + panel,
                i <= total - scroll,
                scroll <= total,
                total == rows.len(),
                all == rows_view(rows@),
                all_in_range(rows@),
                out@.len() == i,
                forall|k: int|
                    0 <= k < i ==> {
                        let row = all[scroll + k];
                        &&& (#[trigger] out@[k]).y == inner.y + 1 + k
                        &&& is_drawn(
                            out@[k].left,
                            inner.x,
                            panel,
                            row.left,
                            lines_view(base@),
                            true,
                        )
                        &&& is_drawn(
                            out@[k].right,
                            (inner.x + panel + 1) as u16,
                            right_width,
                            row.right,
                            lines_view(doc@),
                            false,
                        )
                    },
            decreases height - i,
        {
            let row = rows[scroll + i as usize];
            assert(in_range(rows@[scroll + i]));
            assert(all[scroll + i] == row@);
            let left = render_panel_cell(inner.x, panel, row.left, &base, true);
            let right = render_panel_cell(divider_x + 1, right_width, row.right, &doc, false);
            out.push(DiffLine { y: inner.y + 1 + i, left, right });
            i += 1;
        }

        let bar = if total > height as usize {
            Some(thumb(height, total, scroll))
        } else {
            None
        };
        Some(DiffFrame { left_title, right_title, divider_x, rows: out, thumb: bar })
    }

    /// The view takes all the room there is.
    pub fn required_size(&self, viewport: (u16, u16)) -> (size: Option<(u16, u16)>)
        ensures
            size == Some(viewport),
    {
        Some(viewport)
    }

    /// Scrolls, or asks to be closed.
    pub fn handle_event(&mut self, event: &InputEvent) -> (result: ViewResult)
        requires
            old(self)@.valid(),
        ensures
            final(self)@.valid(),
            match event {
                InputEvent::Key(key) => {
                    &&& final(self)@ == old(self)@.after_key(*key)
                    &&& result == if closes(*key) {
                        ViewResult::Close
                    } else if moves_down(*key) || moves_up(*key) || pages_down(*key) || pages_up(
                        *key,
                    ) {
                        ViewResult::Consumed
                    } else {
                        ViewResult::Ignored
                    }
                },
                _ => final(self)@ == old(self)@ && result == ViewResult::Ignored,
            },
    {
        let key = match event {
            InputEvent::Key(key) => *key,
            _ => {
                return ViewResult::Ignored;
            },
        };
        let half: usize = self.last_height / 2;
        let page: usize = if half < 1 {
            1
        } else {
            half
        };
        let rows = self.build_rows();
        assert(rows_view(rows@).len() == rows@.len());
        let max_scroll = rows.len().saturating_sub(self.last_height);
        if key.plain(KeyCode::Esc) || key.plain(KeyCode::Char('q')) {
            return ViewResult::Close;
        }
        if key.plain(KeyCode::Char('j')) || key.plain(KeyCode::Down) {
            self.scroll_down(1, max_scroll);
        } else if key.plain(KeyCode::Char('k')) || key.plain(KeyCode::Up) {
            self.scroll_offset = self.scroll_offset.saturating_sub(1);
        } else if key.plain(KeyCode::PageDown) || key.ctrl('d') {
            self.scroll_down(page, max_scroll);
        } else if key.plain(KeyCode::PageUp) || key.ctrl('u') {
            self.scroll_offset = self.scroll_offset.saturating_sub(page);
        } else {
            return ViewResult::Ignored;
        }
        ViewResult::Consumed
    }

    fn scroll_down(&mut self, n: usize, max_scroll: usize)
        requires
            max_scroll == old(self)@.max_scroll(),
        ensures
            final(self)@ == old(self)@.down(n as nat),
    {
        let target = self.scroll_offset.saturating_add(n);
        self.scroll_offset = if target < max_scroll {
            target
        } else {
            max_scroll
        };
    }
}

/// Shows the original (base) text of the hunk at the cursor.
#[derive(Debug)]
pub struct DiffHunkView {
    language: String,
    /// The original lines to display (from diff base, scoped to the hunk).
    base_hunk_text: String,
}

/// What the view of a hunk holds.
pub ghost struct DiffHunkState {
    pub language: Seq<char>,
    pub text: Seq<char>,
}

impl View for DiffHunkView {
    type V = DiffHunkState;

    closed spec fn view(&self) -> DiffHunkState {
        DiffHunkState { language: self.language@, text: self.base_hunk_text@ }
    }
}

/// What is left of a count in sixteen bits.
pub open spec fn low_bits(n: nat) -> nat {
    n % 0x10000
}

/// The length in bytes of the longest of the first `n` lines, each taken in sixteen
/// bits.
pub open spec fn longest(text: Seq<Seq<char>>, n: int) -> nat
    decreases n,
{
    if n <= 0 {
        0
    } else {
        let len = low_bits(byte_offset(text[n - 1], text[n - 1].len() as int));
        max(longest(text, n - 1) as int, len as int) as nat
    }
}

/// The columns that the text of a hunk asks for.
pub open spec fn text_width(text: Seq<char>) -> nat {
    let all = lines(text);
    if all.len() == 0 {
        40
    } else {
        longest(all, all.len() as int)
    }
}

fn byte_len(s: &str) -> (n: u16)
    ensures
        n == low_bits(byte_offset(s@, s@.len() as int)),
{
    let v = chars_of(s);
    let mut n: u32 = 0;
    let mut i: usize = 0;
    while i < v.len()
        invariant
            i <= v.len(),
            n == low_bits(byte_offset(v@, i as int)),
        decreases v.len() - i,
    {
        n = (n + char_utf8_len(v[i])) % 0x10000;
        i += 1;
    }
    n as u16
}

impl DiffHunkView {
    pub const ID: &'static str = "diff-hunk";

    pub fn new(language: String, base_hunk_text: String) -> (r: Self)
        ensures
            r@ == (DiffHunkState { language: language@, text: base_hunk_text@ }),
    {
        Self { language, base_hunk_text }
    }

    pub fn language(&self) -> (language: &str)
        ensures
            language@ == self@.language,
    {
        self.language.as_str()
    }

    pub fn text(&self) -> (text: &str)
        ensures
            text@ == self@.text,
    {
        self.base_hunk_text.as_str()
    }

    /// The lines to draw inside the border, as many as `inner` has rows. `None`
    /// where there is no room.
    pub fn render(&self, inner: Rect, highlights: Option<&CodeHighlights>) -> (rows: Option<
        Vec<PreviewRow>,
    >)
        requires
            inner.fits(),
            highlights is Some ==> highlights_fit(self@.text, highlights->0@),
        ensures
            rows is None <==> inner.height == 0 || inner.width == 0,
            rows matches Some(rows) ==> {
                let all = code_block(self@.text, optional_highlights(highlights));
                &&& rows@.len() == min(all.len() as int, inner.height as int)
                &&& forall|i: int|
                    0 <= i < rows@.len() ==> {
                        &&& (#[trigger] rows@[i]).x == inner.x
                        &&& rows@[i].y == inner.y + i
                        &&& line_view(rows@[i].spans@) == all[i]
                    }
            },
    {
        if inner.height == 0 || inner.width == 0 {
            return None;
        }
        let all = highlighted_code_block(self.base_hunk_text.as_str(), highlights);
        let ghost view = lines_view(all@);
        assert(view.len() == all@.len());
        let mut rows: Vec<PreviewRow> = Vec::new();
        let mut i: u16 = 0;
        while i < inner.height && (i as usize) < all.len()
            invariant
                i <= inner.height,
                i <= all.len(),
                inner.fits(),
                view == lines_view(all@),
                rows@.len() == i,
                forall|k: int|
                    0 <= k < i ==> {
                        &&& (#[trigger] rows@[k]).x == inner.x
                        &&& rows@[k].y == inner.y + k
                        &&& line_view(rows@[k].spans@) == view[k]
                    },
            decreases inner.height - i,
        {
            let spans = copy_line(&all[i as usize]);
            assert(view[i as int] == line_view(all@[i as int]@));
            rows.push(PreviewRow { x: inner.x, y: inner.y + i, spans });
            i += 1;
        }
        Some(rows)
    }

    /// The room that the view asks for: that of its text with a margin, within the
    /// window's and at most 120 columns.
    pub fn required_size(&self, viewport: (u16, u16)) -> (size: Option<(u16, u16)>)
        requires
            text_width(self@.text) + 4 <= u16::MAX,
            low_bits(lines(self@.text).len()) + 2 <= u16::MAX,
        ensures
            size is Some,
            size matches Some(size) ==> {
                &&& size.0 == min(
                    min((text_width(self@.text) + 4) as int, max(viewport.0 - 4, 0)),
                    120,
                )
                &&& size.1 == min(
                    (low_bits(lines(self@.text).len()) + 2) as int,
                    max(viewport.1 - 4, 0),
                )
            },
    {
        let all = lines_of(self.base_hunk_text.as_str());
        let ghost view = lines(self@.text);
        assert(views(all@).len() == all@.len());
        let mut widest: u16 = 0;
        let mut i: usize = 0;
        while i < all.len()
            invariant
                i <= all.len(),
                view == views(all@),
                widest == longest(view, i as int),
            decreases all.len() - i,
        {
            assert(view[i as int] == all@[i as int]@);
            let len = byte_len(all[i].as_str());
            if len > widest {
                widest = len;
            }
            i += 1;
        }
        if all.len() == 0 {
            widest = 40;
        }
        let count: u16 = (all.len() % 0x10000) as u16;
        let mut width: u16 = widest + 4;
        let room = viewport.0.saturating_sub(4);
        if room < width {
            width = room;
        }
        if width > 120 {
            width = 120;
        }
        let mut height: u16 = count + 2;
        let room = viewport.1.saturating_sub(4);
        if room < height {
            height = room;
        }
        Some((width, height))
    }

    /// The view leaves every event to others.
    pub fn handle_event(&self, event: &InputEvent) -> (result: ViewResult)
        ensures
            result == ViewResult::Ignored,
    {
        ViewResult::Ignored
    }
}

/// The lines that the left panel shows in the first `n` rows.
pub open spec fn left_lines(rows: Seq<RowView>, n: int) -> Seq<nat>
    decreases n,
{
    if n <= 0 {
        Seq::empty()
    } else {
        match rows[n - 1].left {
            Some(cell) => left_lines(rows, n - 1).push(cell.0),
            None => left_lines(rows, n - 1),
        }
    }
}

/// The lines that the right panel shows in the first `n` rows.
pub open spec fn right_lines(rows: Seq<RowView>, n: int) -> Seq<nat>
    decreases n,
{
    if n <= 0 {
        Seq::empty()
    } else {
        match rows[n - 1].right {
            Some(cell) => right_lines(rows, n - 1).push(cell.0),
            None => right_lines(rows, n - 1),
        }
    }
}

/// The numbers from `i` to below `j`.
pub open spec fn counting(i: nat, j: nat) -> Seq<nat> {
    Seq::new(max(j - i, 0) as nat, |k: int| (i + k) as nat)
}

proof fn lemma_columns_of_parts(a: Seq<RowView>, b: Seq<RowView>, n: int)
    requires
        0 <= n <= b.len(),
    ensures
        left_lines(a + b, a.len() + n) == left_lines(a, a.len() as int) + left_lines(b, n),
        right_lines(a + b, a.len() + n) == right_lines(a, a.len() as int) + right_lines(b, n),
    decreases n,
{
    if n == 0 {
        lemma_columns_of_start(a, b, a.len() as int);
        assert(left_lines(a, a.len() as int) + left_lines(b, n) =~= left_lines(a, a.len() as int));
        assert(right_lines(a, a.len() as int) + right_lines(b, n) =~= right_lines(
            a,
            a.len() as int,
        ));
    } else {
        lemma_columns_of_parts(a, b, n - 1);
        assert((a + b)[a.len() + n - 1] == b[n - 1]);
        assert(left_lines(a + b, a.len() + n) =~= left_lines(a, a.len() as int) + left_lines(b, n));
        assert(right_lines(a + b, a.len() + n) =~= right_lines(a, a.len() as int) + right_lines(
            b,
            n,
        ));
    }
}

proof fn lemma_columns_of_start(a: Seq<RowView>, b: Seq<RowView>, n: int)
    requires
        0 <= n <= a.len(),
    ensures
        left_lines(a + b, n) == left_lines(a, n),
        right_lines(a + b, n) == right_lines(a, n),
    decreases n,
{
    if n > 0 {
        lemma_columns_of_start(a, b, n - 1);
        assert((a + b)[n - 1] == a[n - 1]);
    }
}

proof fn lemma_columns_paired(i: nat, j: nat, n: nat, kind: RowKind, k: int)
    requires
        0 <= k <= n,
    ensures
        left_lines(paired(i, j, n, kind), k) == counting(i, (i + k) as nat),
        right_lines(paired(i, j, n, kind), k) == counting(j, (j + k) as nat),
    decreases k,
{
    let rows = paired(i, j, n, kind);
    if k > 0 {
        lemma_columns_paired(i, j, n, kind, k - 1);
    }
    assert(left_lines(rows, k) =~= counting(i, (i + k) as nat));
    assert(right_lines(rows, k) =~= counting(j, (j + k) as nat));
}

proof fn lemma_columns_removed(i: nat, n: nat, k: int)
    requires
        0 <= k <= n,
    ensures
        left_lines(removed(i, n), k) == counting(i, (i + k) as nat),
        right_lines(removed(i, n), k) == Seq::<nat>::empty(),
    decreases k,
{
    if k > 0 {
        lemma_columns_removed(i, n, k - 1);
    }
    assert(left_lines(removed(i, n), k) =~= counting(i, (i + k) as nat));
}

proof fn lemma_columns_added(j: nat, n: nat, k: int)
    requires
        0 <= k <= n,
    ensures
        left_lines(added(j, n), k) == Seq::<nat>::empty(),
        right_lines(added(j, n), k) == counting(j, (j + k) as nat),
    decreases k,
{
    if k > 0 {
        lemma_columns_added(j, n, k - 1);
    }
    assert(right_lines(added(j, n), k) =~= counting(j, (j + k) as nat));
}

proof fn lemma_columns_hunk(h: Hunk)
    requires
        is_hunk(h),
    ensures
        left_lines(hunk_rows(h), hunk_rows(h).len() as int) == counting(
            h.before_start as nat,
            h.before_end as nat,
        ),
        right_lines(hunk_rows(h), hunk_rows(h).len() as int) == counting(
            h.after_start as nat,
            h.after_end as nat,
        ),
{
    let before = (h.before_end - h.before_start) as nat;
    let after = (h.after_end - h.after_start) as nat;
    let i = h.before_start as nat;
    let j = h.after_start as nat;
    if before > 0 && before == after {
        lemma_columns_paired(i, j, before, RowKind::Modified, before as int);
    } else {
        let a = removed(i, before);
        let b = added(j, after);
        lemma_columns_removed(i, before, before as int);
        lemma_columns_added(j, after, after as int);
        lemma_columns_of_parts(a, b, b.len() as int);
        assert(hunk_rows(h) == a + b);
        assert(left_lines(a + b, (a + b).len() as int) =~= counting(i, h.before_end as nat));
        assert(right_lines(a + b, (a + b).len() as int) =~= counting(j, h.after_end as nat));
    }
}

proof fn lemma_counting_joins(i: nat, j: nat, k: nat)
    requires
        i <= j <= k,
    ensures
        counting(i, j) + counting(j, k) == counting(i, k),
{
    assert(counting(i, j) + counting(j, k) =~= counting(i, k));
}

/// The hunks tell all that differs between a base of `base` lines and a document of
/// `doc` lines: they are in order, and between two of them, before the first and
/// behind the last both files have as many lines.
pub open spec fn hunks_align(hunks: Seq<Hunk>, base: nat, doc: nat) -> bool {
    let n = hunks.len() as int;
    &&& forall|i: int| 0 <= i < n ==> is_hunk(#[trigger] hunks[i])
    &&& forall|i: int|
        0 <= i < n ==> {
            &&& base_end(hunks, i) <= (#[trigger] hunks[i]).before_start
            &&& hunks[i].before_start - base_end(hunks, i) == hunks[i].after_start - doc_end(
                hunks,
                i,
            )
        }
    &&& base_end(hunks, n) <= base
    &&& base - base_end(hunks, n) == doc - doc_end(hunks, n)
}

proof fn lemma_columns_full(hunks: Seq<Hunk>, n: int, base: nat, doc: nat)
    requires
        hunks_align(hunks, base, doc),
        0 <= n <= hunks.len(),
    ensures
        left_lines(full_rows(hunks, n), full_rows(hunks, n).len() as int) == counting(
            0,
            base_end(hunks, n),
        ),
        right_lines(full_rows(hunks, n), full_rows(hunks, n).len() as int) == counting(
            0,
            doc_end(hunks, n),
        ),
    decreases n,
{
    if n == 0 {
        assert(counting(0, 0) =~= Seq::empty());
    } else {
        lemma_columns_full(hunks, n - 1, base, doc);
        let h = hunks[n - 1];
        let i = base_end(hunks, n - 1);
        let j = doc_end(hunks, n - 1);
        let g = gap(hunks, n - 1);
        let a = full_rows(hunks, n - 1);
        let b = paired(i, j, g, RowKind::Context);
        let c = hunk_rows(h);
        lemma_columns_paired(i, j, g, RowKind::Context, g as int);
        lemma_columns_hunk(h);
        lemma_columns_of_parts(a, b, b.len() as int);
        lemma_columns_of_parts(a + b, c, c.len() as int);
        lemma_counting_joins(0, i, h.before_start as nat);
        lemma_counting_joins(0, h.before_start as nat, h.before_end as nat);
        lemma_counting_joins(0, j, h.after_start as nat);
        lemma_counting_joins(0, h.after_start as nat, h.after_end as nat);
        assert(full_rows(hunks, n) == a + b + c);
    }
}

proof fn lemma_columns_tail(i: nat, j: nat, base: nat, doc: nat, k: int)
    requires
        i <= base,
        base - i == doc - j,
        0 <= k <= tail_rows(i, j, base, doc).len(),
    ensures
        left_lines(tail_rows(i, j, base, doc), k) == counting(
            i,
            min(i + k, base as int) as nat,
        ),
        right_lines(tail_rows(i, j, base, doc), k) == counting(
            j,
            min(j + k, doc as int) as nat,
        ),
    decreases k,
{
    let rows = tail_rows(i, j, base, doc);
    if k > 0 {
        lemma_columns_tail(i, j, base, doc, k - 1);
    }
    assert(left_lines(rows, k) =~= counting(i, min(i + k, base as int) as nat));
    assert(right_lines(rows, k) =~= counting(j, min(j + k, doc as int) as nat));
}

/// A view of both files shows every line of the base on the left and every line of
/// the document on the right, each once and in order.
pub proof fn law_full_diff_shows_every_line(hunks: Seq<Hunk>, base: nat, doc: nat)
    requires
        hunks_align(hunks, base, doc),
    ensures
        ({
            let rows = whole(hunks, base, doc);
            &&& left_lines(rows, rows.len() as int) == counting(0, base)
            &&& right_lines(rows, rows.len() as int) == counting(0, doc)
        }),
{
    let n = hunks.len() as int;
    let i = base_end(hunks, n);
    let j = doc_end(hunks, n);
    let a = full_rows(hunks, n);
    let b = tail_rows(i, j, base, doc);
    lemma_columns_full(hunks, n, base, doc);
    lemma_columns_tail(i, j, base, doc, b.len() as int);
    lemma_columns_of_parts(a, b, b.len() as int);
    lemma_counting_joins(0, i, base);
    lemma_counting_joins(0, j, doc);
}

/// With the lines around it a hunk is one stretch of the base: from three lines
/// above it, or the first line, to three lines below it, or the last.
pub proof fn law_hunk_is_shown_with_context(h: Hunk, base: nat)
    requires
        is_hunk(h),
        h.before_end <= base,
    ensures
        left_lines(section(h, base), section(h, base).len() as int) == counting(
            max(h.before_start - CONTEXT_LINES, 0) as nat,
            min(h.before_end + CONTEXT_LINES, base as int) as nat,
        ),
{
    let above = lines_above(h);
    let below = lines_below(h, base);
    let start = (h.before_start - above) as nat;
    let beside = max(h.after_start - above, 0) as nat;
    let a = paired(start, beside, above, RowKind::Context);
    let b = hunk_rows(h);
    let c = paired(h.before_end as nat, h.after_end as nat, below, RowKind::Context);
    lemma_columns_paired(start, beside, above, RowKind::Context, above as int);
    lemma_columns_hunk(h);
    lemma_columns_paired(
        h.before_end as nat,
        h.after_end as nat,
        below,
        RowKind::Context,
        below as int,
    );
    lemma_columns_of_parts(a, b, b.len() as int);
    lemma_columns_of_parts(a + b, c, c.len() as int);
    lemma_counting_joins(start, h.before_start as nat, h.before_end as nat);
    lemma_counting_joins(start, h.before_end as nat, h.before_end as nat + below);
    assert(section(h, base) == a + b + c);
}

proof fn lemma_row_of_line(rows: Seq<RowView>, line: nat, k: int)
    requires
        0 <= k <= rows.len(),
    ensures
        row_of_line(rows, line, k) matches Some(row) ==> k <= row < rows.len() && shows_line(
            rows[row as int],
            line,
        ),
    decreases rows.len() - k,
{
    if k < rows.len() {
        lemma_row_of_line(rows, line, k + 1);
    }
}

/// A new view of both files has the cursor's line near the top of the viewport, or
/// further down where the end of the files is in view.
pub proof fn law_cursor_is_visible_at_first(state: DiffBaseState, height: nat)
    requires
        state.full_file,
        state.scroll == first_scroll(state.rows(), state.cursor),
        row_of_line(state.rows(), state.cursor, 0) is Some,
        height >= 4,
    ensures
        ({
            let now = state.drawn(height);
            let row = row_of_line(state.rows(), state.cursor, 0)->0;
            &&& shows_line(state.rows()[row as int], state.cursor)
            &&& now.rows() == state.rows()
            &&& now.scroll <= row < now.scroll + height
            &&& row <= now.scroll + 3 || now.scroll == now.max_scroll()
        }),
{
    lemma_row_of_line(state.rows(), state.cursor, 0);
}

/// No key scrolls a view past its end that was not past it.
pub proof fn law_diff_stays_in_range(state: DiffBaseState, key: KeyEvent)
    requires
        state.scroll <= state.max_scroll(),
    ensures
        state.after_key(key).scroll <= state.after_key(key).max_scroll(),
{
}


/// With the lines around it a hunk is one stretch of the document too, which begins as many
/// lines above it as the stretch of the base does and ends as many below it.
pub proof fn law_context_is_the_same_on_both_sides(h: Hunk, base: nat)
    requires
        is_hunk(h),
        h.before_end <= base,
        h.after_start >= 3 || h.after_start >= h.before_start,
    ensures
        ({
            let rows = section(h, base);
            let above = if h.before_start < 3 {
                h.before_start as int
            } else {
                3
            };
            let below = if base - h.before_end < 3 {
                base - h.before_end
            } else {
                3
            };
            &&& left_lines(rows, rows.len() as int) == counting(
                (h.before_start - above) as nat,
                (h.before_end + below) as nat,
            )
            &&& right_lines(rows, rows.len() as int) == counting(
                (h.after_start - above) as nat,
                (h.after_end + below) as nat,
            )
        }),
{
    let above = lines_above(h);
    let below = lines_below(h, base);
    let start = (h.before_start - above) as nat;
    let beside = (h.after_start - above) as nat;
    let a = paired(start, beside, above, RowKind::Context);
    let b = hunk_rows(h);
    let c = paired(h.before_end as nat, h.after_end as nat, below, RowKind::Context);
    lemma_columns_paired(start, beside, above, RowKind::Context, above as int);
    lemma_columns_hunk(h);
    lemma_columns_paired(
        h.before_end as nat,
        h.after_end as nat,
        below,
        RowKind::Context,
        below as int,
    );
    lemma_columns_of_parts(a, b, b.len() as int);
    lemma_columns_of_parts(a + b, c, c.len() as int);
    lemma_counting_joins(start, h.before_start as nat, h.before_end as nat);
    lemma_counting_joins(start, h.before_end as nat, h.before_end as nat + below);
    lemma_counting_joins(beside, h.after_start as nat, h.after_end as nat);
    lemma_counting_joins(beside, h.after_end as nat, h.after_end as nat + below);
    assert(section(h, base) == a + b + c);
}

/// A row of unchanged lines shows a line of the base beside the line of the document that
/// is as far from the hunk; both are marked as unchanged. The rows of the hunk lie between
/// those above and those below it.
pub proof fn law_unchanged_lines_stand_beside_each_other(h: Hunk, base: nat, k: int)
    requires
        is_hunk(h),
        h.before_end <= base,
        h.after_start >= 3 || h.after_start >= h.before_start,
        0 <= k < section(h, base).len(),
    ensures
        ({
            let row = section(h, base)[k];
            let above = if h.before_start < 3 {
                h.before_start as int
            } else {
                3
            };
            let own = section(h, base).len() - above - if base - h.before_end < 3 {
                base - h.before_end
            } else {
                3
            };
            &&& own == if h.before_end - h.before_start == h.after_end - h.after_start {
                h.before_end - h.before_start
            } else {
                (h.before_end - h.before_start) + (h.after_end - h.after_start)
            }
            &&& k < above ==> {
                &&& row.left == Some(((h.before_start - above + k) as nat, RowKind::Context))
                &&& row.right == Some(((h.after_start - above + k) as nat, RowKind::Context))
            }
            &&& k >= above + own ==> {
                &&& row.left == Some(((h.before_end + k - above - own) as nat, RowKind::Context))
                &&& row.right == Some(((h.after_end + k - above - own) as nat, RowKind::Context))
            }
            &&& above <= k < above + own ==> {
                &&& row.left matches Some(cell) ==> cell.1 != RowKind::Context && h.before_start
                    <= cell.0 < h.before_end
                &&& row.right matches Some(cell) ==> cell.1 != RowKind::Context && h.after_start
                    <= cell.0 < h.after_end
            }
        }),
{
}

/// A hunk with as many lines as before shows each changed line beside the one that it was.
/// Any other one shows what was removed, with nothing beside it, above what was added.
pub proof fn law_hunk_shows_what_changed(h: Hunk, k: int)
    requires
        is_hunk(h),
        0 <= k < hunk_rows(h).len(),
    ensures
        ({
            let row = hunk_rows(h)[k];
            let before = h.before_end - h.before_start;
            let after = h.after_end - h.after_start;
            if before == after {
                &&& hunk_rows(h).len() == before
                &&& row.left == Some(((h.before_start + k) as nat, RowKind::Modified))
                &&& row.right == Some(((h.after_start + k) as nat, RowKind::Modified))
            } else {
                &&& hunk_rows(h).len() == before + after
                &&& k < before ==> row.left == Some(
                    ((h.before_start + k) as nat, RowKind::Removed),
                ) && row.right is None
                &&& k >= before ==> row.left is None && row.right == Some(
                    ((h.after_start + k - before) as nat, RowKind::Added),
                )
            }
        }),
{
}

/// The hunks follow each other in their order, each with its context.
pub proof fn law_hunks_are_shown_one_after_the_other(hunks: Seq<Hunk>, h: Hunk, base: nat)
    ensures
        sections(Seq::empty(), 0, base) == Seq::<RowView>::empty(),
        sections(hunks.push(h), hunks.len() as int + 1, base) == sections(
            hunks,
            hunks.len() as int,
            base,
        ) + section(h, base),
{
    lemma_sections_prefix(hunks, hunks.push(h), hunks.len() as int, base);
}

proof fn lemma_sections_prefix(a: Seq<Hunk>, b: Seq<Hunk>, n: int, base: nat)
    requires
        n <= a.len() <= b.len(),
        forall|i: int| 0 <= i < n ==> a[i] == b[i],
    ensures
        sections(a, n, base) == sections(b, n, base),
    decreases n,
{
    if n > 0 {
        lemma_sections_prefix(a, b, n - 1, base);
    }
}

/// Line `i` of the base and line `j` of the document lie as far behind hunk `n - 1`, or
/// behind the start, and before hunk `n`.
pub open spec fn lie_between(hunks: Seq<Hunk>, n: int, i: nat, j: nat) -> bool {
    &&& 0 <= n <= hunks.len()
    &&& n == 0 ==> i == j
    &&& n > 0 ==> hunks[n - 1].before_end <= i && i - hunks[n - 1].before_end == j
        - hunks[n - 1].after_end
    &&& n < hunks.len() ==> i < hunks[n].before_start && j < hunks[n].after_start
}

/// A view of both files shows unchanged lines beside each other: those that lie as far
/// behind the last hunk before them, or behind the start, on both sides. The other rows are
/// those of the hunks, and behind all of these empty ones.
pub proof fn law_full_diff_pairs_unchanged_lines(hunks: Seq<Hunk>, base: nat, doc: nat, k: int)
    requires
        hunks_align(hunks, base, doc),
        0 <= k < whole(hunks, base, doc).len(),
    ensures
        ({
            let row = whole(hunks, base, doc)[k];
            let lines = exists|i: nat, j: nat, n: int|
                row.left == Some((i, RowKind::Context)) && row.right == Some((j, RowKind::Context))
                    && #[trigger] lie_between(hunks, n, i, j) && i < base && j < doc;
            let blank = forall|m: int|
                k <= m < whole(hunks, base, doc).len() ==> (#[trigger] whole(
                    hunks,
                    base,
                    doc,
                )[m]).left is None && whole(hunks, base, doc)[m].right is None;
            lines || blank || exists|n: int|
                0 <= n < hunks.len() && hunk_rows(#[trigger] hunks[n]).contains(row)
        }),
{
    let n = hunks.len() as int;
    let rows = full_rows(hunks, n);
    if k < rows.len() {
        lemma_rows_paired(hunks, n, base, doc, k);
    } else {
        let i = (base_end(hunks, n) + k - rows.len()) as nat;
        let j = (doc_end(hunks, n) + k - rows.len()) as nat;
        assert(lie_between(hunks, n, i, j));
    }
}

proof fn lemma_rows_paired(hunks: Seq<Hunk>, n: int, base: nat, doc: nat, k: int)
    requires
        hunks_align(hunks, base, doc),
        0 <= n <= hunks.len(),
        0 <= k < full_rows(hunks, n).len(),
    ensures
        ({
            let row = full_rows(hunks, n)[k];
            let lines = exists|i: nat, j: nat, n: int|
                row.left == Some((i, RowKind::Context)) && row.right == Some((j, RowKind::Context))
                    && #[trigger] lie_between(hunks, n, i, j) && i < base && j < doc;
            lines || exists|n: int|
                0 <= n < hunks.len() && hunk_rows(#[trigger] hunks[n]).contains(row)
        }),
    decreases n,
{
    if n > 0 {
        let before = full_rows(hunks, n - 1);
        let g = gap(hunks, n - 1);
        let h = hunks[n - 1];
        lemma_ends_in_order(hunks, n, base, doc);
        if k < before.len() {
            lemma_rows_paired(hunks, n - 1, base, doc, k);
        } else if k < before.len() + g {
            let i = (base_end(hunks, n - 1) + k - before.len()) as nat;
            let j = (doc_end(hunks, n - 1) + k - before.len()) as nat;
            assert(lie_between(hunks, n - 1, i, j));
        } else {
            let own = hunk_rows(h);
            assert(full_rows(hunks, n)[k] == own[k - before.len() - g]);
            assert(own.contains(full_rows(hunks, n)[k]));
        }
    }
}

proof fn lemma_ends_in_order(hunks: Seq<Hunk>, n: int, base: nat, doc: nat)
    requires
        hunks_align(hunks, base, doc),
        0 <= n <= hunks.len(),
    ensures
        base_end(hunks, n) <= base,
        doc_end(hunks, n) <= doc,
    decreases hunks.len() - n,
{
    if n < hunks.len() {
        lemma_ends_in_order(hunks, n + 1, base, doc);
        assert(is_hunk(hunks[n]));
        assert(base_end(hunks, n) <= hunks[n].before_start);
    }
}

/// Where no hunk is shown, the lines from five above the cursor to five below it are, each
/// beside the one with its number.
pub proof fn law_lines_round_the_cursor_are_shown(cursor: nat, base: nat, doc: nat, k: int)
    requires
        cursor < base,
        cursor < doc,
        0 <= k < cursor_window(cursor, base, doc).len(),
    ensures
        ({
            let rows = cursor_window(cursor, base, doc);
            let first = if cursor < 5 {
                0
            } else {
                cursor - 5
            };
            let line = (first + k) as nat;
            &&& rows[k].left == Some((line, RowKind::Context))
            &&& rows[k].right == Some((line, RowKind::Context))
            &&& line < base && line < doc
            &&& first + rows.len() == cursor + 6 || first + rows.len() == base || first
                + rows.len() == doc
            &&& first + rows.len() <= cursor + 6
            &&& first <= cursor < first + rows.len()
        }),
{
}

/// The lines of a column are those of its rows, in order.
pub proof fn law_column_is_read_row_by_row(rows: Seq<RowView>, row: RowView)
    ensures
        left_lines(Seq::empty(), 0) == Seq::<nat>::empty(),
        right_lines(Seq::empty(), 0) == Seq::<nat>::empty(),
        left_lines(rows.push(row), rows.len() as int + 1) == match row.left {
            Some(cell) => left_lines(rows, rows.len() as int).push(cell.0),
            None => left_lines(rows, rows.len() as int),
        },
        right_lines(rows.push(row), rows.len() as int + 1) == match row.right {
            Some(cell) => right_lines(rows, rows.len() as int).push(cell.0),
            None => right_lines(rows, rows.len() as int),
        },
{
    let one = seq![row];
    assert(rows.push(row) =~= rows + one);
    lemma_columns_of_start(rows, one, rows.len() as int);
    assert((rows + one)[rows.len() as int] == row);
}

/// A diff begins at a row that shows the cursor's line, or at the first one. Until then no
/// row shows it.
pub proof fn law_row_of_a_line_is_the_first(rows: Seq<RowView>, line: nat)
    ensures
        match row_of_line(rows, line, 0) {
            Some(row) => row < rows.len() && (rows[row as int].right matches Some(cell) && cell.0
                == line) && forall|k: int|
                0 <= k < row ==> !((#[trigger] rows[k]).right matches Some(cell) && cell.0 == line),
            None => forall|k: int|
                0 <= k < rows.len() ==> !((#[trigger] rows[k]).right matches Some(cell) && cell.0
                    == line),
        },
{
    lemma_first_row_of_line(rows, line, 0);
}

proof fn lemma_first_row_of_line(rows: Seq<RowView>, line: nat, from: int)
    requires
        0 <= from,
    ensures
        match row_of_line(rows, line, from) {
            Some(row) => from <= row < rows.len() && shows_line(rows[row as int], line) && forall|
                k: int,
            |
                from <= k < row ==> !shows_line(#[trigger] rows[k], line),
            None => forall|k: int| from <= k < rows.len() ==> !shows_line(#[trigger] rows[k], line),
        },
    decreases rows.len() - from,
{
    if from < rows.len() && !shows_line(rows[from], line) {
        lemma_first_row_of_line(rows, line, from + 1);
    }
}

/// A line that was removed has the colour of what is gone, one that was added that of what
/// is new, and one that changed the first on the left and the second on the right. Its
/// number is that of the line, counted from one.
pub proof fn law_cell_shows_its_line(
    cell: PanelCell,
    x: u16,
    width: u16,
    i: nat,
    kind: RowKind,
    text: Seq<Seq<SpanView>>,
    is_left: bool,
)
    requires
        is_drawn(cell, x, width, Some((i, kind)), text, is_left),
    ensures
        kind == RowKind::Context ==> cell.color == CellColor::Normal,
        kind == RowKind::Removed ==> cell.color == CellColor::Minus,
        kind == RowKind::Added ==> cell.color == CellColor::Plus,
        kind == RowKind::Modified && is_left ==> cell.color == CellColor::Minus,
        kind == RowKind::Modified && !is_left ==> cell.color == CellColor::Plus,
        width >= 4 ==> cell.number is Some && exists|blanks: nat|
            cell.number->0@ == #[trigger] repeat(' ', blanks) + decimal(i + 1) + seq![' '],
        width >= 4 && i < 999 ==> cell.number->0@.len() == 4,
        width > 6 && i < text.len() ==> cell.content is Some && line_view(cell.content->0@)
            == text[i as int],
        cell.gutter <==> width >= 6,
        cell.x == x && cell.width == width,
{
    if width >= 4 {
        let digits = decimal(i + 1);
        let blanks = max(3 - digits.len(), 0) as nat;
        assert(cell.number->0@ == repeat(' ', blanks) + digits + seq![' ']);
        if i < 999 {
            lemma_short_number(i + 1);
        }
    }
}

proof fn lemma_short_number(n: nat)
    requires
        n < 1000,
    ensures
        1 <= decimal(n).len() <= 3,
{
    reveal_with_fuel(decimal, 4);
}

/// Where a row shows no line on a side, nothing is drawn there.
pub proof fn law_empty_cell_shows_nothing(
    cell: PanelCell,
    x: u16,
    width: u16,
    text: Seq<Seq<SpanView>>,
    is_left: bool,
)
    requires
        is_drawn(cell, x, width, None, text, is_left),
    ensures
        cell.color == CellColor::Normal && cell.number is None && cell.content is None
            && !cell.gutter,
{
}

/// Scrolling goes by as many rows as asked for and stays within the rows; a page is half of
/// the rows in view, and both kinds of keys do so.
pub proof fn law_diff_scrolls_by_rows(st: DiffBaseState, n: nat, key: KeyEvent)
    requires
        st.scroll <= st.max_scroll(),
    ensures
        st.scroll + n <= st.max_scroll() ==> st.down(n).scroll == st.scroll + n,
        st.scroll + n > st.max_scroll() ==> st.down(n).scroll == st.max_scroll(),
        st.scroll >= n ==> st.up(n).scroll + n == st.scroll,
        st.scroll < n ==> st.up(n).scroll == 0,
        st.height >= 2 ==> 2 * st.page() <= st.height <= 2 * st.page() + 1,
        st.height < 2 ==> st.page() == 1,
        ({
            let m = key.modifiers;
            let bare = !m.shift && !m.control && !m.alt && !m.super_key;
            &&& bare && (key.code == KeyCode::Char('j') || key.code == KeyCode::Down)
                ==> st.after_key(key) == st.down(1)
            &&& bare && (key.code == KeyCode::Char('k') || key.code == KeyCode::Up)
                ==> st.after_key(key) == st.up(1)
            &&& bare && key.code == KeyCode::PageDown ==> st.after_key(key) == st.down(st.page())
            &&& bare && key.code == KeyCode::PageUp ==> st.after_key(key) == st.up(st.page())
            &&& bare && (key.code == KeyCode::Left || key.code == KeyCode::Right) ==> st.after_key(
                key,
            ) == st
            &&& bare && (key.code == KeyCode::Esc || key.code == KeyCode::Char('q')) ==> closes(key)
            &&& closes(key) ==> bare && (key.code == KeyCode::Esc || key.code == KeyCode::Char('q'))
        }),
{
}

/// No line is longer than the longest, and one of them is as long, as far as sixteen bits
/// can count.
pub proof fn law_longest_line_is_one_of_them(text: Seq<Seq<char>>, n: int)
    requires
        0 <= n <= text.len(),
    ensures
        forall|i: int|
            0 <= i < n ==> byte_offset(#[trigger] text[i], text[i].len() as int) % 0x10000
                <= longest(text, n),
        longest(text, n) == 0 || exists|i: int|
            0 <= i < n && byte_offset(#[trigger] text[i], text[i].len() as int) % 0x10000 == longest(
                text,
                n,
            ),
    decreases n,
{
    if n > 0 {
        law_longest_line_is_one_of_them(text, n - 1);
        let last = text[n - 1];
        if byte_offset(last, last.len() as int) % 0x10000 > longest(text, n - 1) {
            assert(byte_offset(text[n - 1], text[n - 1].len() as int) % 0x10000 == longest(text, n));
        } else if longest(text, n - 1) > 0 {
            let i = choose|i: int|
                0 <= i < n - 1 && byte_offset(#[trigger] text[i], text[i].len() as int) % 0x10000
                    == longest(text, n - 1);
            assert(byte_offset(text[i], text[i].len() as int) % 0x10000 == longest(text, n));
        }
    }
}

/// Between two hunks the unchanged lines are shown that both files have there, and none that
/// belongs to the next hunk on either side.
pub proof fn law_lines_between_hunks_end_before_the_next(hunks: Seq<Hunk>, n: int)
    requires
        0 <= n < hunks.len(),
    ensures
        ({
            let base = if n == 0 {
                0
            } else {
                hunks[n - 1].before_end as int
            };
            let doc = if n == 0 {
                0
            } else {
                hunks[n - 1].after_end as int
            };
            let between = full_rows(hunks, n + 1).len() - full_rows(hunks, n).len() - hunk_rows(
                hunks[n],
            ).len();
            &&& between >= 0
            &&& hunks[n].before_start >= base ==> base + between <= hunks[n].before_start
            &&& hunks[n].after_start >= doc ==> doc + between <= hunks[n].after_start
            &&& hunks[n].before_start >= base && hunks[n].after_start >= doc ==> base + between
                == hunks[n].before_start || doc + between == hunks[n].after_start
        }),
{
}

} // verus!
