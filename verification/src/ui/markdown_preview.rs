//! A reading view of a Markdown document.
//!
//! Prose is word-wrapped to the width of the view. Lines of tables and
//! horizontal rules are left as they are; what does not fit is reached by
//! scrolling to the side.

use vstd::math::{max, min};
use vstd::prelude::*;

use crate::graphics::Rect;
use crate::input::{InputEvent, KeyCode, KeyEvent, MouseEventKind};
use crate::text::{chars_of, pad, padded, trim_start};
use crate::ui::markdown::events::events_of;
use crate::ui::markdown::code::CodeHighlights;
use crate::ui::markdown::table::{law_table_lines_begin_with_the_frame, table, Align, RowView};
use crate::ui::markdown::{
    all_fit, all_highlights, blocks_view, layout, shown_lines, Block, Markdown,
};
use crate::ui::scrollbar::{thumb, thumb_height, thumb_start};
use crate::ui::spans::{
    copied_ids, copy_line, line_text, line_view, lines_view, text_of, Span, SpanView,
};
use crate::ui::wrap::{line_columns, restyled, wrapped_line};
use crate::unicode::{char_columns_of, columns, own_columns, width_of};

pub use crate::ui::wrap::wrap_spans;

verus! {

/// How many rows a single mouse-wheel notch scrolls.
pub const MOUSE_SCROLL_LINES: usize = 3;

/// Columns a single horizontal-scroll step moves.
pub const H_SCROLL_STEP: usize = 8;

/// The first character from `k` on that at least `cols` columns precede.
pub open spec fn drop_from(s: Seq<char>, cols: nat, k: int) -> int
    decreases s.len() - k,
{
    if k >= s.len() || own_columns(s, k) >= cols {
        k
    } else {
        drop_from(s, cols, k + 1)
    }
}

/// `s` without the characters that take its first `cols` columns.
pub open spec fn dropped(s: Seq<char>, cols: nat) -> Seq<char> {
    s.skip(drop_from(s, cols, 0))
}

/// Return the tail of `content` after dropping `cols` display columns.
/// Returns `""` if the whole string is within the dropped range. If a wide
/// character straddles the boundary the next full character is kept.
pub fn drop_columns(content: &str, cols: usize) -> (tail: &str)
    ensures
        tail@ == dropped(content@, cols as nat),
{
    if cols == 0 {
        assert(content@.skip(0) =~= content@);
        return content;
    }
    let v = chars_of(content);
    let mut acc: usize = 0;
    let mut k: usize = 0;
    while k < v.len() && acc < cols
        invariant
            k <= v.len(),
            v@ == content@,
            acc == min(own_columns(v@, k as int) as int, usize::MAX as int),
            drop_from(v@, cols as nat, k as int) == drop_from(v@, cols as nat, 0),
        decreases v.len() - k,
    {
        acc = acc.saturating_add(char_columns_of(v[k]));
        k += 1;
    }
    let tail = content.substring_char(k, v.len());
    assert(tail@ =~= content@.skip(k as int));
    tail
}

/// What is dropped takes at least the columns asked for, or is all there is; one
/// character less would not do.
pub proof fn law_dropping_takes_columns(s: Seq<char>, cols: nat)
    ensures
        ({
            let k = s.len() - dropped(s, cols).len();
            &&& dropped(s, cols) == s.skip(k)
            &&& k < s.len() ==> own_columns(s, k) >= cols
            &&& k > 0 ==> own_columns(s, k - 1) < cols
        }),
{
    lemma_drop_from(s, cols, 0);
}

proof fn lemma_drop_from(s: Seq<char>, cols: nat, k: int)
    requires
        0 <= k <= s.len(),
        k > 0 ==> own_columns(s, k - 1) < cols,
    ensures
        ({
            let to = drop_from(s, cols, k);
            &&& k <= to <= s.len()
            &&& to < s.len() ==> own_columns(s, to) >= cols
            &&& to > 0 ==> own_columns(s, to - 1) < cols
        }),
    decreases s.len() - k,
{
    if k < s.len() && own_columns(s, k) < cols {
        lemma_drop_from(s, cols, k + 1);
    }
}

/// A character of the frame of a table, or of a rule.
pub open spec fn is_frame(c: char) -> bool {
    c == '┌' || c == '┐' || c == '└' || c == '┘' || c == '├' || c == '┤' || c == '┬' || c == '┴' || c
        == '┼' || c == '│' || c == '─'
}

/// A line of a table, or a rule: its first character that is not whitespace is
/// one of the frame.
pub open spec fn preformatted(line: Seq<SpanView>) -> bool {
    let text = trim_start(line_text(line));
    text.len() > 0 && is_frame(text[0])
}

/// Lines beginning with one of these characters are preformatted (table borders,
/// table rows or a horizontal rule) and must not be word-wrapped.
pub fn is_protected(line: &Vec<Span>) -> (b: bool)
    ensures
        b == preformatted(line_view(line@)),
{
    let text = text_of(line);
    let v = chars_of(text.as_str());
    let mut i: usize = 0;
    assert(v@.skip(0) =~= v@);
    while i < v.len() && v[i].is_whitespace()
        invariant
            i <= v.len(),
            trim_start(v@.skip(i as int)) == trim_start(v@),
        decreases v.len() - i,
    {
        assert(v@.skip(i as int).drop_first() =~= v@.skip(i + 1));
        i += 1;
    }
    if i == v.len() {
        return false;
    }
    let c = v[i];
    c == '┌' || c == '┐' || c == '└' || c == '┘' || c == '├' || c == '┤' || c == '┬' || c == '┴' || c
        == '┼' || c == '│' || c == '─'
}

/// The rows that the first `n` lines take: a preformatted line takes one, others
/// are wrapped.
pub open spec fn rows_of(lines: Seq<Seq<SpanView>>, n: int, width: nat) -> Seq<Seq<SpanView>>
    decreases n,
{
    if n <= 0 {
        Seq::empty()
    } else {
        let line = lines[n - 1];
        rows_of(lines, n - 1, width) + if preformatted(line) {
            seq![line]
        } else {
            wrapped_line(line, width)
        }
    }
}

/// The rows of a text that is shown `width` columns wide.
pub fn visual_rows(lines: &Vec<Vec<Span>>, width: usize) -> (rows: Vec<Vec<Span>>)
    ensures
        lines_view(rows@) == rows_of(lines_view(lines@), lines@.len() as int, width as nat),
{
    let ghost all = lines_view(lines@);
    let mut rows: Vec<Vec<Span>> = Vec::new();
    let mut i: usize = 0;
    assert(lines_view(rows@) =~= Seq::empty());
    while i < lines.len()
        invariant
            i <= lines.len(),
            all == lines_view(lines@),
            lines_view(rows@) == rows_of(all, i as int, width as nat),
        decreases lines.len() - i,
    {
        let line = &lines[i];
        let ghost before = lines_view(rows@);
        if is_protected(line) {
            rows.push(copy_line(line));
            assert(lines_view(rows@) =~= before + seq![all[i as int]]);
        } else {
            let mut wrapped = wrap_spans(line, width);
            let ghost added = lines_view(wrapped@);
            let ghost old_rows = rows@;
            let ghost old_wrapped = wrapped@;
            rows.append(&mut wrapped);
            assert(rows@ =~= old_rows + old_wrapped);
            assert(lines_view(rows@) =~= before + added);
        }
        i += 1;
    }
    rows
}

/// The columns of the widest of the first `n` lines.
pub open spec fn widest_line(lines: Seq<Seq<SpanView>>, n: int) -> nat
    decreases n,
{
    if n <= 0 {
        0
    } else {
        let before = widest_line(lines, n - 1);
        if line_columns(lines[n - 1]) > before {
            line_columns(lines[n - 1])
        } else {
            before
        }
    }
}

/// The columns of a line, or `usize::MAX` where they are more.
fn line_width(line: &Vec<Span>) -> (width: usize)
    ensures
        width == min(line_columns(line_view(line@)) as int, usize::MAX as int),
{
    let ghost all = line_view(line@);
    let mut width: usize = 0;
    let mut i: usize = 0;
    assert(all.take(0) =~= Seq::empty());
    while i < line.len()
        invariant
            i <= line.len(),
            all == line_view(line@),
            width == min(line_columns(all.take(i as int)) as int, usize::MAX as int),
        decreases line.len() - i,
    {
        assert(all.take(i + 1).drop_last() =~= all.take(i as int));
        width = width.saturating_add(width_of(line[i].content.as_str()));
        i += 1;
    }
    assert(all.take(all.len() as int) =~= all);
    width
}

/// What a preview holds.
pub ghost struct PreviewView {
    pub contents: Seq<char>,
    /// The first row that is shown.
    pub scroll: nat,
    /// The first column that is shown.
    pub h_scroll: nat,
    /// The rows of the document at the width `width`; zero where there are none
    /// yet.
    pub rows: Seq<Seq<SpanView>>,
    pub widest: nat,
    pub width: u16,
    /// The rows of the view.
    pub height: nat,
}

impl PreviewView {
    pub open spec fn max_scroll(self) -> nat {
        max(self.rows.len() - self.height, 0) as nat
    }

    pub open spec fn max_h_scroll(self) -> nat {
        max(self.widest - self.width, 0) as nat
    }

    /// Half the rows of the view, but at least one.
    pub open spec fn page(self) -> nat {
        max((self.height / 2) as int, 1) as nat
    }

    pub open spec fn down(self, n: nat) -> PreviewView {
        PreviewView { scroll: min((self.scroll + n) as int, self.max_scroll() as int) as nat, ..self }
    }

    pub open spec fn up(self, n: nat) -> PreviewView {
        PreviewView { scroll: max(self.scroll - n, 0) as nat, ..self }
    }

    pub open spec fn right(self) -> PreviewView {
        PreviewView {
            h_scroll: min(
                (self.h_scroll + H_SCROLL_STEP) as int,
                self.max_h_scroll() as int,
            ) as nat,
            ..self
        }
    }

    pub open spec fn left(self) -> PreviewView {
        PreviewView { h_scroll: max(self.h_scroll - H_SCROLL_STEP, 0) as nat, ..self }
    }

    /// Both offsets brought back to where there is something to show in a view
    /// that is `width` columns wide.
    pub open spec fn clamped_to(self, width: u16) -> PreviewView {
        PreviewView {
            scroll: min(self.scroll as int, self.max_scroll() as int) as nat,
            h_scroll: min(self.h_scroll as int, max(self.widest - width, 0)) as nat,
            ..self
        }
    }

    pub open spec fn after_key(self, key: KeyEvent) -> PreviewView {
        if key.is_plain(KeyCode::Char('j')) || key.is_plain(KeyCode::Down) {
            self.down(1)
        } else if key.is_plain(KeyCode::Char('k')) || key.is_plain(KeyCode::Up) {
            self.up(1)
        } else if key.is_plain(KeyCode::Char('g')) {
            PreviewView { scroll: 0, ..self }
        } else if key.is_plain(KeyCode::Char('G')) {
            PreviewView { scroll: self.max_scroll(), ..self }
        } else if key.is_plain(KeyCode::Char('l')) || key.is_plain(KeyCode::Right) {
            self.right()
        } else if key.is_plain(KeyCode::Char('h')) || key.is_plain(KeyCode::Left) {
            self.left()
        } else if key.is_plain(KeyCode::Char('0')) {
            PreviewView { h_scroll: 0, ..self }
        } else if key.is_plain(KeyCode::Char('$')) {
            PreviewView { h_scroll: self.max_h_scroll(), ..self }
        } else if key.is_plain(KeyCode::PageDown) || key.is_ctrl('d') || key.is_ctrl('f') {
            self.down(self.page())
        } else if key.is_plain(KeyCode::PageUp) || key.is_ctrl('u') || key.is_ctrl('b') {
            self.up(self.page())
        } else {
            self
        }
    }

    /// The wheel scrolls up and down, and to the side with shift.
    pub open spec fn after_mouse(self, kind: MouseEventKind, shift: bool) -> PreviewView {
        match kind {
            MouseEventKind::ScrollRight => self.right(),
            MouseEventKind::ScrollLeft => self.left(),
            MouseEventKind::ScrollDown => if shift {
                self.right()
            } else {
                self.down(MOUSE_SCROLL_LINES as nat)
            },
            MouseEventKind::ScrollUp => if shift {
                self.left()
            } else {
                self.up(MOUSE_SCROLL_LINES as nat)
            },
            _ => self,
        }
    }
}

/// What becomes of an event.
#[derive(Clone, Copy, Debug, PartialEq, Eq, Structural)]
pub enum ViewResult {
    Ignored,
    Consumed,
    /// The view is to be closed.
    Close,
}

/// A key that closes the view.
pub open spec fn closes(key: KeyEvent) -> bool {
    key.is_plain(KeyCode::Esc) || key.is_plain(KeyCode::Char('q'))
}

/// A key that scrolls the view.
pub open spec fn scrolls(key: KeyEvent) -> bool {
    ||| key.is_plain(KeyCode::Char('j'))
    ||| key.is_plain(KeyCode::Down)
    ||| key.is_plain(KeyCode::Char('k'))
    ||| key.is_plain(KeyCode::Up)
    ||| key.is_plain(KeyCode::Char('g'))
    ||| key.is_plain(KeyCode::Char('G'))
    ||| key.is_plain(KeyCode::Char('l'))
    ||| key.is_plain(KeyCode::Right)
    ||| key.is_plain(KeyCode::Char('h'))
    ||| key.is_plain(KeyCode::Left)
    ||| key.is_plain(KeyCode::Char('0'))
    ||| key.is_plain(KeyCode::Char('$'))
    ||| key.is_plain(KeyCode::PageDown)
    ||| key.is_ctrl('d')
    ||| key.is_ctrl('f')
    ||| key.is_plain(KeyCode::PageUp)
    ||| key.is_ctrl('u')
    ||| key.is_ctrl('b')
}

/// The columns to leave out of span `i` of a line that is scrolled to the side
/// by `cols`.
pub open spec fn skip_at(line: Seq<SpanView>, cols: nat, i: int) -> nat
    decreases i,
{
    if i <= 0 {
        cols
    } else {
        max(skip_at(line, cols, i - 1) - columns(line[i - 1].content), 0) as nat
    }
}

/// What is left of the first `n` spans of a line that is scrolled to the side by
/// `cols`.
pub open spec fn panned(line: Seq<SpanView>, cols: nat, n: int) -> Seq<SpanView>
    decreases n,
{
    if n <= 0 {
        Seq::empty()
    } else {
        let rest = dropped(line[n - 1].content, skip_at(line, cols, n - 1));
        if rest.len() == 0 {
            panned(line, cols, n - 1)
        } else {
            panned(line, cols, n - 1).push(restyled(rest, line[n - 1]))
        }
    }
}

/// What is left of a line that is scrolled to the side by `cols` columns.
pub fn pan(line: &Vec<Span>, cols: usize) -> (out: Vec<Span>)
    ensures
        line_view(out@) == panned(line_view(line@), cols as nat, line@.len() as int),
{
    let ghost all = line_view(line@);
    let mut out: Vec<Span> = Vec::new();
    let mut skip: usize = cols;
    let mut i: usize = 0;
    assert(line_view(out@) =~= Seq::empty());
    while i < line.len()
        invariant
            i <= line.len(),
            all == line_view(line@),
            skip == skip_at(all, cols as nat, i as int),
            line_view(out@) == panned(all, cols as nat, i as int),
        decreases line.len() - i,
    {
        let span = &line[i];
        let content = span.content.as_str();
        let visible = drop_columns(content, skip);
        skip = skip.saturating_sub(width_of(content));
        if visible.unicode_len() > 0 {
            let ghost before = line_view(out@);
            out.push(
                Span {
                    content: visible.to_string(),
                    style: span.style,
                    highlights: copied_ids(&span.highlights),
                },
            );
            assert(line_view(out@) =~= before.push(restyled(visible@, span@)));
        }
        i += 1;
    }
    out
}

/// A row of the document on the screen.
#[derive(Debug)]
pub struct PreviewRow {
    pub x: u16,
    pub y: u16,
    pub spans: Vec<Span>,
}

/// What to draw inside the border of a preview.
#[derive(Debug)]
pub struct PreviewFrame {
    /// The text of the title row.
    pub title: String,
    pub rows: Vec<PreviewRow>,
    /// The column at which rows are cut off.
    pub end_x: u16,
    /// The first row of the scrollbar's thumb and its height, where not all rows
    /// are in view.
    pub thumb: Option<(usize, usize)>,
}

pub open spec fn preview_title() -> Seq<char> {
    " Markdown preview  (Esc/q: close · j/k, wheel, C-u/C-d: scroll · h/l: pan wide tables)"@
}

#[derive(Debug)]
pub struct MarkdownPreview {
    contents: String,
    scroll_offset: usize,
    /// Horizontal scroll offset in columns (for content wider than the view,
    /// e.g. wide tables that must not be wrapped).
    h_scroll: usize,
    /// Visual (already-wrapped) lines, cached for `cached_width`.
    visual_lines: Vec<Vec<Span>>,
    /// Width in columns of the widest visual line (for horizontal scroll clamp).
    max_line_width: usize,
    /// Content width the `visual_lines` cache was built for (0 = not built yet).
    cached_width: u16,
    /// Content-area height from the last render, used to size page scrolls.
    last_height: usize,
}

impl View for MarkdownPreview {
    type V = PreviewView;

    closed spec fn view(&self) -> PreviewView {
        PreviewView {
            contents: self.contents@,
            scroll: self.scroll_offset as nat,
            h_scroll: self.h_scroll as nat,
            rows: lines_view(self.visual_lines@),
            widest: self.max_line_width as nat,
            width: self.cached_width,
            height: self.last_height as nat,
        }
    }
}

impl MarkdownPreview {
    pub fn new(contents: String) -> (r: Self)
        ensures
            r@ == (PreviewView {
                contents: contents@,
                scroll: 0,
                h_scroll: 0,
                rows: Seq::empty(),
                widest: 0,
                width: 0,
                height: 20,
            }),
    {
        let r = Self {
            contents,
            scroll_offset: 0,
            h_scroll: 0,
            visual_lines: Vec::new(),
            max_line_width: 0,
            cached_width: 0,
            last_height: 20,
        };
        assert(r@.rows =~= Seq::empty());
        r
    }

    fn max_scroll(&self) -> (n: usize)
        ensures
            n == self@.max_scroll(),
    {
        self.visual_lines.len().saturating_sub(self.last_height)
    }

    fn max_h_scroll(&self) -> (n: usize)
        ensures
            n == self@.max_h_scroll(),
    {
        self.max_line_width.saturating_sub(self.cached_width as usize)
    }

    /// The width has changed since the rows were laid out.
    pub fn needs_layout(&self, width: u16) -> (b: bool)
        ensures
            b == (self@.width != width),
    {
        self.cached_width != width
    }

    /// The document's lines and code blocks, with tables fitted to `width`.
    pub fn blocks(&self, width: u16) -> (blocks: Vec<Block>)
        ensures
            blocks_view(blocks@) == layout(events_of(self@.contents), Some(width as usize)),
    {
        Markdown::new(self.contents.clone()).with_max_table_width(width as usize).blocks()
    }

    /// Lays out the lines of the document at a new width.
    pub fn set_lines(&mut self, lines: &Vec<Vec<Span>>, width: u16)
        ensures
            ({
                let rows = rows_of(lines_view(lines@), lines@.len() as int, width as nat);
                final(self)@ == (PreviewView {
                    rows,
                    widest: min(
                        widest_line(rows, rows.len() as int) as int,
                        usize::MAX as int,
                    ) as nat,
                    width,
                    ..old(self)@
                })
            }),
    {
        let rows = visual_rows(lines, width as usize);
        let ghost all = lines_view(rows@);
        let mut widest: usize = 0;
        let mut i: usize = 0;
        while i < rows.len()
            invariant
                i <= rows.len(),
                all == lines_view(rows@),
                widest == min(widest_line(all, i as int) as int, usize::MAX as int),
            decreases rows.len() - i,
        {
            let columns = line_width(&rows[i]);
            if columns > widest {
                widest = columns;
            }
            i += 1;
        }
        self.max_line_width = widest;
        self.visual_lines = rows;
        self.cached_width = width;
    }

    /// Lays out the document at a new width, where `highlights` holds those of its code
    /// blocks in order. Where they do not fit, nothing changes and `false` is returned.
    pub fn lay_out(&mut self, highlights: &Vec<Option<CodeHighlights>>, width: u16) -> (done: bool)
        ensures
            ({
                let blocks = layout(events_of(old(self)@.contents), Some(width as usize));
                let given = all_highlights(highlights@);
                let lines = shown_lines(blocks, given);
                let rows = rows_of(lines, lines.len() as int, width as nat);
                &&& done == all_fit(blocks, given)
                &&& done ==> final(self)@ == (PreviewView {
                    rows,
                    widest: min(
                        widest_line(rows, rows.len() as int) as int,
                        usize::MAX as int,
                    ) as nat,
                    width,
                    ..old(self)@
                })
                &&& !done ==> final(self)@ == old(self)@
            }),
    {
        let markdown = Markdown::new(self.contents.clone()).with_max_table_width(width as usize);
        match markdown.parse_highlighted(highlights) {
            Some(lines) => {
                assert(lines_view(lines@).len() == lines@.len());
                self.set_lines(&lines, width);
                true
            },
            None => false,
        }
    }

    /// What to draw inside the border, where the title row and the rows of the
    /// document fill `inner`. `None` where there is too little room.
    pub fn render(&mut self, inner: Rect) -> (frame: Option<PreviewFrame>)
        requires
            inner.fits(),
        ensures
            frame is None <==> inner.height < 2 || inner.width < 4,
            frame is None ==> final(self)@ == old(self)@,
            frame matches Some(frame) ==> {
                let height = (inner.height - 1) as nat;
                let now = (PreviewView { height, ..old(self)@ }).clamped_to(inner.width);
                &&& final(self)@ == now
                &&& frame.title@ == padded(preview_title(), inner.width as nat)
                &&& frame.end_x == inner.x + inner.width
                &&& frame.rows@.len() == min(now.rows.len() - now.scroll, height as int)
                &&& forall|i: int|
                    0 <= i < frame.rows@.len() ==> {
                        let row = now.rows[now.scroll + i];
                        &&& (#[trigger] frame.rows@[i]).x == inner.x
                        &&& frame.rows@[i].y == inner.y + 1 + i
                        &&& line_view(frame.rows@[i].spans@) == panned(
                            row,
                            now.h_scroll,
                            row.len() as int,
                        )
                    }
                &&& frame.thumb == if now.rows.len() > height {
                    Some(
                        (
                            thumb_start(height, now.rows.len(), now.scroll) as usize,
                            thumb_height(height, now.rows.len()) as usize,
                        ),
                    )
                } else {
                    None
                }
            },
    {
        if inner.height < 2 || inner.width < 4 {
            return None;
        }
        let title = pad(
            " Markdown preview  (Esc/q: close · j/k, wheel, C-u/C-d: scroll · h/l: pan wide tables)",
            inner.width as usize,
        );
        // Content area below the title.
        let height: u16 = inner.height - 1;
        self.last_height = height as usize;

        // Clamp both scroll axes.
        let max_scroll = self.max_scroll();
        if self.scroll_offset > max_scroll {
            self.scroll_offset = max_scroll;
        }
        let max_h = self.max_line_width.saturating_sub(inner.width as usize);
        if self.h_scroll > max_h {
            self.h_scroll = max_h;
        }
        let total = self.visual_lines.len();
        let ghost all = lines_view(self.visual_lines@);

        // The visible rows, with the horizontal offset applied.
        let mut rows: Vec<PreviewRow> = Vec::new();
        let mut i: u16 = 0;
        while i < height && (i as usize) < total - self.scroll_offset
            invariant
                i <= height,
                height == inner.height - 1,
                inner.fits(),
                i <= total - self.scroll_offset,
                self.scroll_offset <= total,
                total == self.visual_lines.len(),
                all == lines_view(self.visual_lines@),
                rows@.len() == i,
                forall|k: int|
                    0 <= k < i ==> {
                        let row = all[self.scroll_offset + k];
                        &&& (#[trigger] rows@[k]).x == inner.x
                        &&& rows@[k].y == inner.y + 1 + k
                        &&& line_view(rows@[k].spans@) == panned(
                            row,
                            self.h_scroll as nat,
                            row.len() as int,
                        )
                    },
            decreases height - i,
        {
            let spans = pan(&self.visual_lines[self.scroll_offset + i as usize], self.h_scroll);
            assert(all[self.scroll_offset + i] == line_view(
                self.visual_lines@[self.scroll_offset + i]@,
            ));
            rows.push(PreviewRow { x: inner.x, y: inner.y + 1 + i, spans });
            i += 1;
        }
        let bar = if total > height as usize {
            Some(thumb(height, total, self.scroll_offset))
        } else {
            None
        };
        Some(PreviewFrame { title, rows, end_x: inner.x + inner.width, thumb: bar })
    }

    /// The view takes all the room there is.
    pub fn required_size(&self, viewport: (u16, u16)) -> (size: Option<(u16, u16)>)
        ensures
            size == Some(viewport),
    {
        Some(viewport)
    }

    fn scroll_down(&mut self, n: usize)
        ensures
            final(self)@ == old(self)@.down(n as nat),
    {
        let max_scroll = self.max_scroll();
        let target = self.scroll_offset.saturating_add(n);
        self.scroll_offset = if target < max_scroll {
            target
        } else {
            max_scroll
        };
    }

    fn scroll_up(&mut self, n: usize)
        ensures
            final(self)@ == old(self)@.up(n as nat),
    {
        self.scroll_offset = self.scroll_offset.saturating_sub(n);
    }

    fn pan_right(&mut self)
        ensures
            final(self)@ == old(self)@.right(),
    {
        let max_h = self.max_h_scroll();
        let target = self.h_scroll.saturating_add(H_SCROLL_STEP);
        self.h_scroll = if target < max_h {
            target
        } else {
            max_h
        };
    }

    fn pan_left(&mut self)
        ensures
            final(self)@ == old(self)@.left(),
    {
        self.h_scroll = self.h_scroll.saturating_sub(H_SCROLL_STEP);
    }

    fn handle_key(&mut self, key: KeyEvent) -> (result: ViewResult)
        ensures
            final(self)@ == old(self)@.after_key(key),
            result == if closes(key) {
                ViewResult::Close
            } else if scrolls(key) {
                ViewResult::Consumed
            } else {
                ViewResult::Ignored
            },
    {
        let half: usize = self.last_height / 2;
        let page: usize = if half < 1 {
            1
        } else {
            half
        };
        if key.plain(KeyCode::Esc) || key.plain(KeyCode::Char('q')) {
            return ViewResult::Close;
        }
        if key.plain(KeyCode::Char('j')) || key.plain(KeyCode::Down) {
            self.scroll_down(1);
        } else if key.plain(KeyCode::Char('k')) || key.plain(KeyCode::Up) {
            self.scroll_up(1);
        } else if key.plain(KeyCode::Char('g')) {
            self.scroll_offset = 0;
        } else if key.plain(KeyCode::Char('G')) {
            self.scroll_offset = self.max_scroll();
        } else if key.plain(KeyCode::Char('l')) || key.plain(KeyCode::Right) {
            self.pan_right();
        } else if key.plain(KeyCode::Char('h')) || key.plain(KeyCode::Left) {
            self.pan_left();
        } else if key.plain(KeyCode::Char('0')) {
            self.h_scroll = 0;
        } else if key.plain(KeyCode::Char('$')) {
            self.h_scroll = self.max_h_scroll();
        } else if key.plain(KeyCode::PageDown) || key.ctrl('d') || key.ctrl('f') {
            self.scroll_down(page);
        } else if key.plain(KeyCode::PageUp) || key.ctrl('u') || key.ctrl('b') {
            self.scroll_up(page);
        } else {
            return ViewResult::Ignored;
        }
        ViewResult::Consumed
    }

    /// Scrolls, or asks to be closed. All mouse events are consumed so that they
    /// do not fall through.
    pub fn handle_event(&mut self, event: &InputEvent) -> (result: ViewResult)
        ensures
            match event {
                InputEvent::Mouse(mouse) => {
                    &&& final(self)@ == old(self)@.after_mouse(mouse.kind, mouse.modifiers.shift)
                    &&& result == ViewResult::Consumed
                },
                InputEvent::Key(key) => {
                    &&& final(self)@ == old(self)@.after_key(*key)
                    &&& result == if closes(*key) {
                        ViewResult::Close
                    } else if scrolls(*key) {
                        ViewResult::Consumed
                    } else {
                        ViewResult::Ignored
                    }
                },
                _ => final(self)@ == old(self)@ && result == ViewResult::Ignored,
            },
    {
        match event {
            InputEvent::Mouse(mouse) => {
                let shift = mouse.modifiers.shift;
                match mouse.kind {
                    // Horizontal wheel / trackpad, or Shift + vertical wheel.
                    MouseEventKind::ScrollRight => self.pan_right(),
                    MouseEventKind::ScrollLeft => self.pan_left(),
                    MouseEventKind::ScrollDown => {
                        if shift {
                            self.pan_right();
                        } else {
                            self.scroll_down(MOUSE_SCROLL_LINES);
                        }
                    },
                    MouseEventKind::ScrollUp => {
                        if shift {
                            self.pan_left();
                        } else {
                            self.scroll_up(MOUSE_SCROLL_LINES);
                        }
                    },
                    _ => {},
                }
                ViewResult::Consumed
            },
            InputEvent::Key(key) => self.handle_key(*key),
            _ => ViewResult::Ignored,
        }
    }
}

/// No event scrolls a view past its end that was not past it.
pub proof fn law_preview_stays_in_range(
    st: PreviewView,
    key: KeyEvent,
    kind: MouseEventKind,
    shift: bool,
)
    requires
        st.scroll <= st.max_scroll(),
        st.h_scroll <= st.max_h_scroll(),
    ensures
        st.after_key(key).scroll <= st.max_scroll(),
        st.after_key(key).h_scroll <= st.max_h_scroll(),
        st.after_mouse(kind, shift).scroll <= st.max_scroll(),
        st.after_mouse(kind, shift).h_scroll <= st.max_h_scroll(),
{
}

/// A preformatted line keeps its row to itself and its text as it is.
pub proof fn law_preformatted_lines_are_kept(lines: Seq<Seq<SpanView>>, i: int, width: nat)
    requires
        0 <= i < lines.len(),
        preformatted(lines[i]),
    ensures
        rows_of(lines, i + 1, width) == rows_of(lines, i, width).push(lines[i]),
{
    assert(rows_of(lines, i, width) + seq![lines[i]] =~= rows_of(lines, i, width).push(lines[i]));
}

/// Each line is shown in its order: one of a table, or a rule, as it is, and all others
/// wrapped.
pub proof fn law_lines_are_shown_in_order(lines: Seq<Seq<SpanView>>, n: int, width: nat)
    requires
        0 <= n <= lines.len(),
    ensures
        rows_of(lines, n, width) == lines.take(n).map_values(
            |line: Seq<SpanView>|
                if preformatted(line) {
                    seq![line]
                } else {
                    wrapped_line(line, width)
                },
        ).flatten_alt(),
    decreases n,
{
    if n > 0 {
        law_lines_are_shown_in_order(lines, n - 1, width);
        let all = lines.take(n).map_values(
            |line: Seq<SpanView>|
                if preformatted(line) {
                    seq![line]
                } else {
                    wrapped_line(line, width)
                },
        );
        assert(all.drop_last() =~= lines.take(n - 1).map_values(
            |line: Seq<SpanView>|
                if preformatted(line) {
                    seq![line]
                } else {
                    wrapped_line(line, width)
                },
        ));
    }
}

/// No line is wider than the widest, and one of them is as wide.
pub proof fn law_widest_line_is_one_of_them(lines: Seq<Seq<SpanView>>, n: int)
    requires
        0 <= n <= lines.len(),
    ensures
        forall|i: int| 0 <= i < n ==> line_columns(#[trigger] lines[i]) <= widest_line(lines, n),
        widest_line(lines, n) == 0 || exists|i: int|
            0 <= i < n && line_columns(#[trigger] lines[i]) == widest_line(lines, n),
    decreases n,
{
    if n > 0 {
        law_widest_line_is_one_of_them(lines, n - 1);
        if line_columns(lines[n - 1]) > widest_line(lines, n - 1) {
            assert(line_columns(lines[n - 1]) == widest_line(lines, n));
        } else if widest_line(lines, n - 1) > 0 {
            let i = choose|i: int|
                0 <= i < n - 1 && line_columns(#[trigger] lines[i]) == widest_line(lines, n - 1);
            assert(line_columns(lines[i]) == widest_line(lines, n));
        }
    }
}

/// A line that is scrolled to the side lacks the columns on its left, those of its first
/// spans first; what is left of each span is in its order and in its style.
pub proof fn law_columns_on_the_left_are_left_out(line: Seq<SpanView>, cols: nat, n: int)
    requires
        0 <= n <= line.len(),
    ensures
        line_text(panned(line, cols, n)) == Seq::new(
            n as nat,
            |i: int|
                dropped(
                    line[i].content,
                    if line_columns(line.take(i)) < cols {
                        (cols - line_columns(line.take(i))) as nat
                    } else {
                        0
                    },
                ),
        ).flatten_alt(),
        forall|k: int|
            0 <= k < panned(line, cols, n).len() ==> exists|i: int|
                0 <= i < n && #[trigger] line[i].style == (#[trigger] panned(line, cols, n)[k]).style
                    && line[i].highlights == panned(line, cols, n)[k].highlights,
    decreases n,
{
    let texts = Seq::new(
        n as nat,
        |i: int|
            dropped(
                line[i].content,
                if line_columns(line.take(i)) < cols {
                    (cols - line_columns(line.take(i))) as nat
                } else {
                    0
                },
            ),
    );
    if n > 0 {
        law_columns_on_the_left_are_left_out(line, cols, n - 1);
        lemma_columns_to_leave_out(line, cols, n - 1);
        assert(texts.drop_last() =~= Seq::new(
            (n - 1) as nat,
            |i: int|
                dropped(
                    line[i].content,
                    if line_columns(line.take(i)) < cols {
                        (cols - line_columns(line.take(i))) as nat
                    } else {
                        0
                    },
                ),
        ));
        let before = panned(line, cols, n - 1);
        let now = panned(line, cols, n);
        let rest = texts.last();
        if rest.len() > 0 {
            assert(now.drop_last() =~= before);
        }
        assert(line_text(now) =~= texts.flatten_alt());
        assert forall|k: int| 0 <= k < now.len() implies exists|i: int|
            0 <= i < n && #[trigger] line[i].style == (#[trigger] now[k]).style
                && line[i].highlights == now[k].highlights by {
            if k < before.len() {
                assert(now[k] == before[k]);
                let i = choose|i: int|
                    0 <= i < n - 1 && #[trigger] line[i].style == before[k].style
                        && line[i].highlights == before[k].highlights;
                assert(line[i].style == now[k].style);
            } else {
                assert(line[n - 1].style == now[k].style);
            }
        }
    } else {
        assert(line_text(panned(line, cols, n)) =~= texts.flatten_alt());
    }
}

proof fn lemma_columns_to_leave_out(line: Seq<SpanView>, cols: nat, i: int)
    requires
        0 <= i <= line.len(),
    ensures
        skip_at(line, cols, i) == (if line_columns(line.take(i)) < cols {
            cols - line_columns(line.take(i))
        } else {
            0
        }),
    decreases i,
{
    if i > 0 {
        lemma_columns_to_leave_out(line, cols, i - 1);
        assert(line.take(i).drop_last() =~= line.take(i - 1));
    } else {
        assert(line.take(0) =~= Seq::empty());
    }
}

/// Scrolling goes by as many rows as asked for, and no further than to the last one; a page
/// is half of the rows in view. To the side it goes by eight columns.
pub proof fn law_preview_scrolls_by_rows(st: PreviewView, n: nat)
    requires
        st.scroll <= st.max_scroll(),
        st.h_scroll <= st.max_h_scroll(),
    ensures
        st.rows.len() >= st.height ==> st.max_scroll() + st.height == st.rows.len(),
        st.rows.len() < st.height ==> st.max_scroll() == 0,
        st.scroll + n <= st.max_scroll() ==> st.down(n).scroll == st.scroll + n,
        st.scroll + n > st.max_scroll() ==> st.down(n).scroll == st.max_scroll(),
        st.scroll >= n ==> st.up(n).scroll + n == st.scroll,
        st.scroll < n ==> st.up(n).scroll == 0,
        st.h_scroll + H_SCROLL_STEP <= st.max_h_scroll() ==> st.right().h_scroll == st.h_scroll
            + H_SCROLL_STEP,
        st.h_scroll + H_SCROLL_STEP > st.max_h_scroll() ==> st.right().h_scroll
            == st.max_h_scroll(),
        st.h_scroll >= H_SCROLL_STEP ==> st.left().h_scroll + H_SCROLL_STEP == st.h_scroll,
        st.h_scroll < H_SCROLL_STEP ==> st.left().h_scroll == 0,
        st.height >= 2 ==> 2 * st.page() <= st.height <= 2 * st.page() + 1,
        st.height < 2 ==> st.page() == 1,
        st.down(n).h_scroll == st.h_scroll && st.up(n).h_scroll == st.h_scroll,
        st.left().scroll == st.scroll && st.right().scroll == st.scroll,
{
}

/// Which key scrolls where.
pub proof fn law_keys_of_the_preview(st: PreviewView, key: KeyEvent)
    ensures
        ({
            let m = key.modifiers;
            let bare = !m.shift && !m.control && !m.alt && !m.super_key;
            &&& bare && (key.code == KeyCode::Char('j') || key.code == KeyCode::Down)
                ==> st.after_key(key) == st.down(1)
            &&& bare && (key.code == KeyCode::Char('k') || key.code == KeyCode::Up)
                ==> st.after_key(key) == st.up(1)
            &&& bare && key.code == KeyCode::Char('g') ==> st.after_key(key).scroll == 0
            &&& bare && key.code == KeyCode::Char('G') ==> st.after_key(key).scroll
                == st.max_scroll()
            &&& bare && (key.code == KeyCode::Char('l') || key.code == KeyCode::Right)
                ==> st.after_key(key) == st.right()
            &&& bare && (key.code == KeyCode::Char('h') || key.code == KeyCode::Left)
                ==> st.after_key(key) == st.left()
            &&& bare && key.code == KeyCode::Char('0') ==> st.after_key(key).h_scroll == 0
            &&& bare && key.code == KeyCode::Char('$') ==> st.after_key(key).h_scroll
                == st.max_h_scroll()
            &&& bare && key.code == KeyCode::PageDown ==> st.after_key(key) == st.down(st.page())
            &&& bare && key.code == KeyCode::PageUp ==> st.after_key(key) == st.up(st.page())
            &&& bare && (key.code == KeyCode::Enter || key.code == KeyCode::Tab) ==> st.after_key(
                key,
            ) == st
        }),
{
}

/// The wheel scrolls by rows, and to the side where it is turned sideways or shift is held.
pub proof fn law_wheel_scrolls_the_preview(st: PreviewView, kind: MouseEventKind)
    ensures
        st.after_mouse(MouseEventKind::ScrollDown, false) == st.down(3),
        st.after_mouse(MouseEventKind::ScrollUp, false) == st.up(3),
        st.after_mouse(MouseEventKind::ScrollDown, true) == st.right(),
        st.after_mouse(MouseEventKind::ScrollUp, true) == st.left(),
        st.after_mouse(MouseEventKind::ScrollRight, false) == st.right(),
        st.after_mouse(MouseEventKind::ScrollLeft, false) == st.left(),
        kind == MouseEventKind::Down || kind == MouseEventKind::Up || kind == MouseEventKind::Drag
            || kind == MouseEventKind::Moved ==> st.after_mouse(kind, false) == st,
{
}

/// A view that becomes smaller or larger shows what there is: neither offset goes past the
/// last row or the last column. Keys that do not scroll change nothing.
pub proof fn law_offsets_are_brought_back(st: PreviewView, width: u16, key: KeyEvent)
    ensures
        st.clamped_to(width).scroll <= st.max_scroll(),
        st.scroll <= st.max_scroll() ==> st.clamped_to(width).scroll == st.scroll,
        st.scroll > st.max_scroll() ==> st.clamped_to(width).scroll == st.max_scroll(),
        st.widest <= width ==> st.clamped_to(width).h_scroll == 0,
        st.widest > width && st.h_scroll <= st.widest - width ==> st.clamped_to(width).h_scroll
            == st.h_scroll,
        st.widest > width && st.h_scroll > st.widest - width ==> st.clamped_to(width).h_scroll
            == st.widest - width,
        !scrolls(key) ==> st.after_key(key) == st,
        closes(key) ==> !scrolls(key),
{
}

/// The lines of a table are never wrapped: each of them is shown as it is. Text that begins
/// with a letter is.
pub proof fn law_tables_are_not_wrapped(
    rows: Seq<RowView>,
    aligns: Seq<Align>,
    max_width: Option<usize>,
    i: int,
    line: Seq<SpanView>,
)
    requires
        0 <= i < table(rows, aligns, max_width).len() - 1,
    ensures
        preformatted(table(rows, aligns, max_width)[i]),
        line.len() == 1 && line[0].content.len() > 0 && 'A' <= line[0].content[0] <= 'z'
            ==> !preformatted(line),
        line.len() == 0 ==> !preformatted(line),
{
    reveal_with_fuel(line_text, 2);
    let shown = table(rows, aligns, max_width)[i];
    law_table_lines_begin_with_the_frame(rows, aligns, max_width, i);
    assert(shown.drop_last() =~= Seq::<SpanView>::empty());
    assert(line_text(shown) =~= shown[0].content);
    if line.len() == 1 {
        assert(line.drop_last() =~= Seq::<SpanView>::empty());
        assert(line_text(line) =~= line[0].content);
    }
}

} // verus!
