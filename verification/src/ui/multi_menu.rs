//! A menu whose entries may have a second, dimmed label.

use vstd::math::{max, min};
use vstd::prelude::*;

use crate::graphics::Rect;
use crate::input::{InputEvent, KeyCode, KeyEvent};
use crate::text::{join, views, whitespace, words, words_of};
use crate::ui::prompt::MenuResult;
use crate::unicode::{columns, width_of};

verus! {

// ── Wrapping ─────────────────────────────────────────────────────────────────

/// Lines that are complete, and the words of the line that is not.
pub ghost struct WordWrap {
    pub lines: Seq<Seq<char>>,
    pub line: Seq<char>,
    /// The columns that the incomplete line takes.
    pub used: nat,
}

impl WordWrap {
    /// A word on a line of its own, which is complete where the word is wider than
    /// the line.
    pub open spec fn start_line(self, word: Seq<char>, max: nat) -> WordWrap {
        if columns(word) > max {
            WordWrap { lines: self.lines.push(word), line: Seq::empty(), used: 0 }
        } else {
            WordWrap { lines: self.lines, line: word, used: columns(word) }
        }
    }

    /// The next word: on the line, if it fits there.
    pub open spec fn word(self, word: Seq<char>, max: nat) -> WordWrap {
        if self.line.len() == 0 {
            self.start_line(word, max)
        } else if self.used + 1 + columns(word) <= max {
            WordWrap {
                line: self.line + seq![' '] + word,
                used: self.used + 1 + columns(word),
                ..self
            }
        } else {
            WordWrap { lines: self.lines.push(self.line), line: Seq::empty(), used: 0 }.start_line(
                word,
                max,
            )
        }
    }

    /// The first `n` of `all` words.
    pub open spec fn after(all: Seq<Seq<char>>, n: int, max: nat) -> WordWrap
        decreases n,
    {
        if n <= 0 {
            WordWrap { lines: Seq::empty(), line: Seq::empty(), used: 0 }
        } else {
            WordWrap::after(all, n - 1, max).word(all[n - 1], max)
        }
    }

    /// All lines; at least one.
    pub open spec fn finished(self) -> Seq<Seq<char>> {
        if self.line.len() > 0 {
            self.lines.push(self.line)
        } else if self.lines.len() == 0 {
            seq![Seq::<char>::empty()]
        } else {
            self.lines
        }
    }
}

/// A text wrapped to `max` columns at its words.
pub open spec fn word_wrapped(text: Seq<char>, max: nat) -> Seq<Seq<char>> {
    if max == 0 {
        seq![Seq::<char>::empty()]
    } else {
        WordWrap::after(words(text), words(text).len() as int, max).finished()
    }
}

/// Wrap `text` to fit within `max_width` display columns, splitting on word
/// boundaries.  Always returns at least one element.
pub fn wrap_text(text: &str, max_width: u16) -> (out: Vec<String>)
    ensures
        views(out@) == word_wrapped(text@, max_width as nat),
        out@.len() >= 1,
{
    let mut lines: Vec<String> = Vec::new();
    if max_width == 0 {
        lines.push(String::new());
        assert(lines@[0]@ =~= Seq::empty());
        assert(views(lines@) =~= word_wrapped(text@, 0));
        return lines;
    }
    let max = max_width as usize;
    let all = words_of(text);
    let ghost parts = words(text@);
    let mut current = String::new();
    let mut current_width: usize = 0;
    let mut i: usize = 0;
    assert(views(all@).len() == all@.len());
    assert(views(lines@) =~= Seq::empty());
    assert(current@ =~= Seq::empty());
    while i < all.len()
        invariant
            i <= all.len(),
            max == max_width,
            max <= u16::MAX,
            parts == views(all@),
            current_width <= max,
            (WordWrap {
                lines: views(lines@),
                line: current@,
                used: current_width as nat,
            }) == WordWrap::after(parts, i as int, max as nat),
        decreases all.len() - i,
    {
        let word = all[i].as_str();
        let word_width = width_of(word);
        assert(parts[i as int] == word@);
        let ghost before = views(lines@);
        if current.as_str().unicode_len() > 0 {
            if word_width < max && current_width + 1 <= max - word_width {
                current.push(' ');
                current.append(word);
                assert(current@ =~= WordWrap::after(parts, i as int, max as nat).line + seq![' ']
                    + word@);
                current_width += 1 + word_width;
                i += 1;
                continue;
            }
            lines.push(current);
            assert(views(lines@) =~= before.push(current@));
            current = String::new();
            assert(current@ =~= Seq::empty());
            current_width = 0;
        }
        let ghost flushed = views(lines@);
        if word_width > max {
            lines.push(word.to_string());
            assert(views(lines@) =~= flushed.push(word@));
            assert(current@ =~= Seq::empty());
            current_width = 0;
        } else {
            current = word.to_string();
            current_width = word_width;
        }
        i += 1;
    }
    let ghost before = views(lines@);
    if current.as_str().unicode_len() > 0 {
        lines.push(current);
        assert(views(lines@) =~= before.push(current@));
    } else if lines.len() == 0 {
        lines.push(String::new());
        assert(lines@[0]@ =~= Seq::empty());
        assert(views(lines@) =~= seq![Seq::<char>::empty()]);
    }
    assert(views(lines@).len() == lines@.len());
    lines
}

// ── Items ────────────────────────────────────────────────────────────────────

#[derive(Debug)]
pub struct MultiMenuItem {
    pub label: String,
    pub sublabel: Option<String>,
}

/// The width that is left for a label: a mark or two spaces come before it.
pub open spec fn label_room(width: u16) -> nat {
    max(width - 2, 0) as nat
}

/// The width that is left for a sublabel: four spaces come before it.
pub open spec fn sublabel_room(width: u16) -> nat {
    max(width - 4, 0) as nat
}

pub open spec fn sublabel_lines(item: MultiMenuItem, width: u16) -> Seq<Seq<char>> {
    match item.sublabel {
        Some(text) => word_wrapped(text@, sublabel_room(width)),
        None => Seq::empty(),
    }
}

/// Number of visual rows an item occupies.
pub open spec fn item_height(item: MultiMenuItem, width: u16) -> nat {
    word_wrapped(item.label@, label_room(width)).len() + sublabel_lines(item, width).len()
}

/// The rows that the items from `from` up to, but not including, `to` take.
pub open spec fn rows_between(items: Seq<MultiMenuItem>, from: int, to: int, width: u16) -> nat
    decreases to - from,
{
    if from >= to {
        0
    } else {
        rows_between(items, from, to - 1, width) + item_height(items[to - 1], width)
    }
}

/// Number of visual rows an item occupies given `inner_width`, or `usize::MAX` where
/// they are more.
pub fn item_visual_height(item: &MultiMenuItem, inner_width: u16) -> (rows: usize)
    ensures
        rows == min(item_height(*item, inner_width) as int, usize::MAX as int),
        rows >= 1,
{
    let label = wrap_text(item.label.as_str(), inner_width.saturating_sub(2));
    assert(views(label@).len() == label@.len());
    match &item.sublabel {
        Some(text) => {
            let sublabel = wrap_text(text.as_str(), inner_width.saturating_sub(4));
            assert(views(sublabel@).len() == sublabel@.len());
            label.len().saturating_add(sublabel.len())
        },
        None => label.len(),
    }
}

/// The rows of all items, or `usize::MAX` where they are more.
pub fn total_content_height(items: &Vec<MultiMenuItem>, inner_width: u16) -> (rows: usize)
    ensures
        rows == min(
            rows_between(items@, 0, items@.len() as int, inner_width) as int,
            usize::MAX as int,
        ),
{
    rows_from(items, 0, items.len(), inner_width)
}

/// The rows that items take, or `usize::MAX` where they are more.
fn rows_from(items: &Vec<MultiMenuItem>, from: usize, to: usize, width: u16) -> (rows: usize)
    requires
        from <= to <= items@.len(),
    ensures
        rows == min(
            rows_between(items@, from as int, to as int, width) as int,
            usize::MAX as int,
        ),
{
    let mut rows: usize = 0;
    let mut i: usize = from;
    while i < to
        invariant
            from <= i <= to <= items@.len(),
            rows == min(
                rows_between(items@, from as int, i as int, width) as int,
                usize::MAX as int,
            ),
        decreases to - i,
    {
        rows = rows.saturating_add(item_visual_height(&items[i], width));
        i += 1;
    }
    rows
}

/// The columns that words take with one space between each two.
pub open spec fn words_width(all: Seq<Seq<char>>) -> nat
    decreases all.len(),
{
    if all.len() == 0 {
        0
    } else if all.len() == 1 {
        columns(all[0])
    } else {
        words_width(all.drop_last()) + 1 + columns(all.last())
    }
}

/// The columns that a text takes on one line.
pub open spec fn one_line_width(text: Seq<char>) -> nat {
    words_width(words(text))
}

/// The columns that an item needs for none of its lines to be wrapped.
pub open spec fn item_width(item: MultiMenuItem) -> nat {
    let label = one_line_width(item.label@) + 2;
    match item.sublabel {
        Some(text) => max(label as int, (one_line_width(text@) + 4) as int) as nat,
        None => label,
    }
}

/// The columns that the first `n` items need.
pub open spec fn items_width(items: Seq<MultiMenuItem>, n: int) -> nat
    decreases n,
{
    if n <= 0 {
        2
    } else {
        max(items_width(items, n - 1) as int, item_width(items[n - 1]) as int) as nat
    }
}

/// The rows that the first `n` items take where none is wrapped.
pub open spec fn items_height(items: Seq<MultiMenuItem>, n: int) -> nat
    decreases n,
{
    if n <= 0 {
        0
    } else {
        items_height(items, n - 1) + if items[n - 1].sublabel is Some {
            2nat
        } else {
            1
        }
    }
}

/// The columns of a text on one line. Each word has at most `usize::MAX` of them.
fn one_line_columns(text: &str) -> (width: u128)
    ensures
        width == one_line_width(text@),
        width <= 0x1_0000_0000_0000_0000 * 0x1_0000_0000_0000_0000 - 0x1_0000_0000_0000_0000,
{
    let all = words_of(text);
    let ghost parts = words(text@);
    assert(views(all@).len() == all@.len());
    let mut width: u128 = 0;
    let mut i: usize = 0;
    assert(parts.take(0) =~= Seq::empty());
    while i < all.len()
        invariant
            i <= all.len(),
            parts == views(all@),
            width == words_width(parts.take(i as int)),
            width <= i * 0x1_0000_0000_0000_0000,
        decreases all.len() - i,
    {
        assert(parts[i as int] == all@[i as int]@);
        assert(parts.take(i + 1).drop_last() =~= parts.take(i as int));
        let word = width_of(all[i].as_str());
        width = if i == 0 {
            word as u128
        } else {
            width + 1 + word as u128
        };
        i += 1;
    }
    assert(parts.take(parts.len() as int) =~= parts);
    width
}

// ── The menu ─────────────────────────────────────────────────────────────────

/// What a menu holds.
pub ghost struct MultiMenuView {
    pub items: Seq<MultiMenuItem>,
    pub selected: nat,
    /// The first item that is shown.
    pub scroll: nat,
    /// The size of the menu when it was last drawn.
    pub width: u16,
    pub height: u16,
}

impl MultiMenuView {
    /// An item is selected, if there is any.
    pub open spec fn wf(self) -> bool {
        self.selected < self.items.len() || self.items.len() == 0 && self.selected == 0
    }

    /// There are items to move among, or nothing is shown.
    pub open spec fn can_move(self) -> bool {
        self.items.len() > 0 || self.height == 0
    }

    /// The first item from `from` on to show for the selected one to be in view:
    /// all its rows, if there is room for them.
    pub open spec fn scroll_from(self, from: int) -> int
        decreases self.selected - from,
    {
        if from >= self.selected || rows_between(
            self.items,
            from,
            self.selected as int + 1,
            self.width,
        ) <= self.height {
            from
        } else {
            self.scroll_from(from + 1)
        }
    }

    /// The menu scrolled by as little as brings the selected item into view.
    pub open spec fn showing_selected(self) -> MultiMenuView {
        if self.selected < self.scroll {
            MultiMenuView { scroll: self.selected, ..self }
        } else if self.height == 0 {
            self
        } else {
            MultiMenuView { scroll: self.scroll_from(self.scroll as int) as nat, ..self }
        }
    }

    pub open spec fn up(self) -> MultiMenuView {
        MultiMenuView { selected: max(self.selected - 1, 0) as nat, ..self }.showing_selected()
    }

    pub open spec fn down(self) -> MultiMenuView {
        MultiMenuView {
            selected: min(self.selected as int + 1, max(self.items.len() - 1, 0)) as nat,
            ..self
        }.showing_selected()
    }
}

/// Keys that move the selection up or down.
pub open spec fn moves_up(key: KeyEvent) -> bool {
    key.is_plain(KeyCode::Up) || key.is_plain(KeyCode::Char('k'))
}

pub open spec fn moves_down(key: KeyEvent) -> bool {
    key.is_plain(KeyCode::Down) || key.is_plain(KeyCode::Char('j'))
}

/// Escape, or `c` with the control key.
pub open spec fn aborts(key: KeyEvent) -> bool {
    key.code == KeyCode::Esc || key.code == KeyCode::Char('c') && key.modifiers.control
}

/// How a row of a menu is to look.
#[derive(Clone, Copy, Debug, PartialEq, Eq, Structural)]
pub enum MenuRowStyle {
    Normal,
    Selected,
    Sublabel,
}

/// A row of a menu.
pub ghost struct MenuRowView {
    pub text: Seq<char>,
    pub style: MenuRowStyle,
}

/// A row of a menu on the screen.
#[derive(Debug)]
pub struct MenuRow {
    pub x: u16,
    pub y: u16,
    pub text: String,
    pub width: u16,
    pub style: MenuRowStyle,
}

/// The rows of an item: the selected one is marked.
pub open spec fn rows_of_item(item: MultiMenuItem, is_selected: bool, width: u16) -> Seq<
    MenuRowView,
> {
    let label = word_wrapped(item.label@, label_room(width));
    let sublabel = sublabel_lines(item, width);
    let prefix = if is_selected {
        "▶ "@
    } else {
        "  "@
    };
    let style = if is_selected {
        MenuRowStyle::Selected
    } else {
        MenuRowStyle::Normal
    };
    Seq::new(label.len(), |i: int| MenuRowView { text: prefix + label[i], style }) + Seq::new(
        sublabel.len(),
        |i: int| MenuRowView { text: "    "@ + sublabel[i], style: MenuRowStyle::Sublabel },
    )
}

/// The rows of the items from `from` up to, but not including, `to`.
pub open spec fn rows_of_items(
    items: Seq<MultiMenuItem>,
    from: int,
    to: int,
    selected: nat,
    width: u16,
) -> Seq<MenuRowView>
    decreases to - from,
{
    if from >= to {
        Seq::empty()
    } else {
        rows_of_items(items, from, to - 1, selected, width) + rows_of_item(
            items[to - 1],
            to - 1 == selected,
            width,
        )
    }
}

pub open spec fn shows(row: MenuRow, view: MenuRowView, inner: Rect, i: int) -> bool {
    &&& row.x == inner.x
    &&& row.y == inner.y + i
    &&& row.text@ == view.text
    &&& row.width == inner.width
    &&& row.style == view.style
}

/// A vertical menu where each item may have an optional dimmed sublabel.
///
/// ```text
/// ▶ Allow once
///   Allow always
///     (will not ask again)
///   Deny
/// ```
///
/// `F` is what is to be done right after the menu was closed.
#[derive(Debug)]
pub struct MultiMenu<F> {
    items: Vec<MultiMenuItem>,
    selected: usize,
    scroll: usize,
    last_inner_width: u16,
    last_inner_height: u16,
    on_close: Option<F>,
}

impl<F> View for MultiMenu<F> {
    type V = MultiMenuView;

    closed spec fn view(&self) -> MultiMenuView {
        MultiMenuView {
            items: self.items@,
            selected: self.selected as nat,
            scroll: self.scroll as nat,
            width: self.last_inner_width,
            height: self.last_inner_height,
        }
    }
}

impl<F> MultiMenu<F> {
    /// What is to be done right after the menu was closed.
    pub closed spec fn on_close(self) -> Option<F> {
        self.on_close
    }

    pub fn new(items: Vec<MultiMenuItem>) -> (r: Self)
        ensures
            r@ == (MultiMenuView {
                items: items@,
                selected: 0,
                scroll: 0,
                width: 0,
                height: 0,
            }),
            r@.wf(),
            r.on_close() is None,
    {
        Self {
            items,
            selected: 0,
            scroll: 0,
            last_inner_width: 0,
            last_inner_height: 0,
            on_close: None,
        }
    }

    /// Register a one-shot callback to run immediately after the menu closes on
    /// `Validate` (Enter).
    pub fn with_on_close(self, f: F) -> (r: Self)
        ensures
            r@ == self@,
            r.on_close() == Some(f),
    {
        Self {
            items: self.items,
            selected: self.selected,
            scroll: self.scroll,
            last_inner_width: self.last_inner_width,
            last_inner_height: self.last_inner_height,
            on_close: Some(f),
        }
    }

    /// `(width, height)` required to render all items without wrapping; of the width,
    /// the lower sixteen bits.
    pub fn content_size(&self) -> (size: (u16, u16))
        requires
            items_height(self@.items, self@.items.len() as int) <= u16::MAX,
        ensures
            size.0 == items_width(self@.items, self@.items.len() as int) % 0x10000,
            size.1 == items_height(self@.items, self@.items.len() as int),
    {
        let ghost all = self.items@;
        let mut width: u128 = 2;
        let mut height: u16 = 0;
        let mut i: usize = 0;
        while i < self.items.len()
            invariant
                i <= self.items.len(),
                all == self.items@,
                items_height(all, all.len() as int) <= u16::MAX,
                width == items_width(all, i as int),
                height == items_height(all, i as int),
            decreases self.items.len() - i,
        {
            let item = &self.items[i];
            proof {
                lemma_items_monotone(all, i + 1, all.len() as int);
            }
            let label = one_line_columns(item.label.as_str()) + 2;
            if label > width {
                width = label;
            }
            if let Some(text) = &item.sublabel {
                let sublabel = one_line_columns(text.as_str()) + 4;
                if sublabel > width {
                    width = sublabel;
                }
                height += 2;
            } else {
                height += 1;
            }
            i += 1;
        }
        ((width % 0x10000) as u16, height)
    }

    /// Adjust `self.scroll` so that `self.selected` is visible.
    fn ensure_visible(&mut self)
        requires
            old(self)@.wf(),
            old(self)@.can_move(),
        ensures
            final(self)@ == old(self)@.showing_selected(),
            final(self).on_close() == old(self).on_close(),
    {
        if self.selected < self.scroll {
            self.scroll = self.selected;
            return;
        }
        let w = self.last_inner_width;
        let h = self.last_inner_height as usize;
        if h == 0 {
            return;
        }
        let ghost start = self@;
        while self.scroll < self.selected && rows_from(
            &self.items,
            self.scroll,
            self.selected + 1,
            w,
        ) > h
            invariant
                start.wf(),
                self@ == (MultiMenuView { scroll: self.scroll as nat, ..start }),
                start.scroll <= self.scroll <= self.selected < self.items.len(),
                w == start.width,
                h == start.height,
                start.scroll_from(self.scroll as int) == start.scroll_from(start.scroll as int),
                self.on_close() == old(self).on_close(),
            decreases self.selected - self.scroll,
        {
            self.scroll = self.scroll + 1;
        }
    }

    /// Where the window of the menu is: half as wide as `viewport`, and as high as
    /// its items need, but no higher than nine tenths of it. `None` where there is
    /// no room.
    pub fn window(&self, viewport: Rect) -> (area: Option<Rect>)
        requires
            viewport.fits(),
            viewport.y < u16::MAX,
            viewport.width > 0 ==> (viewport.height - 2) * 9 <= u16::MAX,
        ensures
            ({
                let room = max(viewport.height - 2, 0);
                let width = window_width(viewport);
                let rows = rows_between(
                    self@.items,
                    0,
                    self@.items.len() as int,
                    max(width - 2, 0) as u16,
                );
                let height = min(rows as int + 2, min(max(room * 9 / 10, 3), room));
                &&& area is None <==> viewport.width == 0 || room == 0
                &&& area matches Some(area) ==> {
                    &&& area.x == viewport.x + (viewport.width - width) / 2
                    &&& area.y == viewport.y + 1 + (room - height) / 2
                    &&& area.width == width
                    &&& area.height == height
                }
            }),
    {
        // Reserve top (bufferline) and bottom (statusline/commandline) rows.
        let safe_area = Rect::new(
            viewport.x,
            viewport.y + 1,
            viewport.width,
            viewport.height.saturating_sub(2),
        );
        if safe_area.width == 0 || safe_area.height == 0 {
            return None;
        }
        // Window width: exactly 50% of viewport width, min 20, capped at safe_area.
        let half: u16 = safe_area.width / 2;
        let wide: u16 = if half > 20 {
            half
        } else {
            20
        };
        let win_w: u16 = if wide < safe_area.width {
            wide
        } else {
            safe_area.width
        };
        let inner_w = win_w.saturating_sub(2);
        // Window height: content (with wrap) + 2 border rows, capped at 90% of safe area.
        let total_h = total_content_height(&self.items, inner_w);
        let share: u16 = safe_area.height * 9 / 10;
        let tall: u16 = if share > 3 {
            share
        } else {
            3
        };
        let max_h: u16 = if tall < safe_area.height {
            tall
        } else {
            safe_area.height
        };
        let win_h: u16 = if total_h < max_h as usize && total_h as u16 + 2 < max_h {
            total_h as u16 + 2
        } else {
            max_h
        };
        // Center in safe area.
        let x = safe_area.x + (safe_area.width - win_w) / 2;
        let y = safe_area.y + (safe_area.height - win_h) / 2;
        Some(Rect::new(x, y, win_w, win_h))
    }

    /// The rows to draw inside the border of the window.
    pub fn render(&mut self, inner: Rect) -> (rows: Vec<MenuRow>)
        requires
            inner.fits(),
        ensures
            final(self)@ == (MultiMenuView {
                width: inner.width,
                height: inner.height,
                ..old(self)@
            }),
            final(self).on_close() == old(self).on_close(),
            ({
                let all = rows_of_items(
                    old(self)@.items,
                    old(self)@.scroll as int,
                    old(self)@.items.len() as int,
                    old(self)@.selected,
                    inner.width,
                );
                &&& rows@.len() == min(all.len() as int, inner.height as int)
                &&& forall|i: int|
                    0 <= i < rows@.len() ==> shows(#[trigger] rows@[i], all[i], inner, i)
            }),
    {
        // Remember for scroll management (ensure_visible uses these).
        self.last_inner_width = inner.width;
        self.last_inner_height = inner.height;
        let ghost items = self.items@;
        let ghost from = self.scroll as int;
        let ghost selected = self.selected as nat;
        let mut rows: Vec<MenuRow> = Vec::new();
        let mut i: usize = self.scroll;
        let ghost mut so_far: Seq<MenuRowView> = Seq::empty();
        while i < self.items.len() && rows.len() < inner.height as usize
            invariant
                inner.fits(),
                items == self.items@,
                selected == self.selected,
                from <= i,
                from < items.len() ==> i <= items.len(),
                from >= items.len() ==> i == from,
                so_far == rows_of_items(items, from, i as int, selected, inner.width),
                rows@.len() == min(so_far.len() as int, inner.height as int),
                forall|k: int|
                    0 <= k < rows@.len() ==> shows(#[trigger] rows@[k], so_far[k], inner, k),
            decreases self.items.len() - i,
        {
            let item = &self.items[i];
            let ghost before = so_far;
            let ghost these = rows_of_item(*item, i == selected, inner.width);
            let label = wrap_text(item.label.as_str(), inner.width.saturating_sub(2));
            let is_selected = i == self.selected;
            let prefix = if is_selected {
                "▶ "
            } else {
                "  "
            };
            let style = if is_selected {
                MenuRowStyle::Selected
            } else {
                MenuRowStyle::Normal
            };
            let ghost labels = word_wrapped(item.label@, label_room(inner.width));
            let ghost label_rows = Seq::new(
                labels.len(),
                |i: int| MenuRowView { text: prefix@ + labels[i], style },
            );
            proof {
                so_far = before + label_rows;
                assert(views(label@).len() == label@.len());
                assert forall|k: int| 0 <= k < label@.len() implies #[trigger] label_rows[k] == (
                MenuRowView { text: prefix@ + label@[k]@, style }) by {
                    assert(views(label@)[k] == label@[k]@);
                }
                assert(label_rows =~= Seq::new(
                    label@.len(),
                    |i: int| MenuRowView { text: prefix@ + label@[i]@, style },
                ));
            }
            push_rows(&mut rows, &label, prefix, style, inner, Ghost(before), Ghost(label_rows));
            if let Some(text) = &item.sublabel {
                let sublabel = wrap_text(text.as_str(), inner.width.saturating_sub(4));
                let ghost subs = sublabel_lines(*item, inner.width);
                let ghost sub_rows = Seq::new(
                    subs.len(),
                    |i: int|
                        MenuRowView { text: "    "@ + subs[i], style: MenuRowStyle::Sublabel },
                );
                let ghost with_label = so_far;
                proof {
                    so_far = with_label + sub_rows;
                    assert(views(sublabel@).len() == sublabel@.len());
                    assert forall|k: int| 0 <= k < sublabel@.len() implies #[trigger] sub_rows[k]
                        == (MenuRowView {
                        text: "    "@ + sublabel@[k]@,
                        style: MenuRowStyle::Sublabel,
                    }) by {
                        assert(views(sublabel@)[k] == sublabel@[k]@);
                    }
                    assert(sub_rows =~= Seq::new(
                        sublabel@.len(),
                        |i: int|
                            MenuRowView {
                                text: "    "@ + sublabel@[i]@,
                                style: MenuRowStyle::Sublabel,
                            },
                    ));
                    assert(these =~= label_rows + sub_rows);
                    assert(so_far =~= before + these);
                }
                push_rows(
                    &mut rows,
                    &sublabel,
                    "    ",
                    MenuRowStyle::Sublabel,
                    inner,
                    Ghost(with_label),
                    Ghost(sub_rows),
                );
            } else {
                assert(these =~= label_rows);
            }
            assert(so_far =~= before + these);
            i += 1;
        }
        proof {
            let n = items.len() as int;
            if from < n {
                lemma_rows_of_items_prefix(items, from, i as int, n, selected, inner.width);
            }
        }
        rows
    }

    pub fn handle_event(&mut self, event: &InputEvent) -> (outcome: (MenuResult, Option<F>))
        requires
            old(self)@.wf(),
            event matches InputEvent::Key(key) && (moves_up(*key) || moves_down(*key)) ==> old(
                self,
            )@.can_move(),
        ensures
            match event {
                InputEvent::Key(key) => {
                    &&& final(self)@ == if moves_up(*key) {
                        old(self)@.up()
                    } else if moves_down(*key) {
                        old(self)@.down()
                    } else {
                        old(self)@
                    }
                    &&& outcome.0 == if moves_up(*key) || moves_down(*key) {
                        MenuResult::Consumed
                    } else if key.code == KeyCode::Enter {
                        MenuResult::Validate(old(self)@.selected as usize)
                    } else if aborts(*key) {
                        MenuResult::Abort(old(self)@.selected as usize)
                    } else {
                        MenuResult::Ignored
                    }
                    &&& if key.code == KeyCode::Enter {
                        outcome.1 == old(self).on_close() && final(self).on_close() is None
                    } else {
                        outcome.1 is None && final(self).on_close() == old(self).on_close()
                    }
                },
                _ => {
                    &&& final(self)@ == old(self)@
                    &&& final(self).on_close() == old(self).on_close()
                    &&& outcome.0 == MenuResult::Ignored
                    &&& outcome.1 is None
                },
            },
            final(self)@.wf(),
    {
        let key = match event {
            InputEvent::Key(key) => *key,
            _ => {
                return (MenuResult::Ignored, None);
            },
        };
        if key.plain(KeyCode::Up) || key.plain(KeyCode::Char('k')) {
            self.selected = self.selected.saturating_sub(1);
            self.ensure_visible();
            (MenuResult::Consumed, None)
        } else if key.plain(KeyCode::Down) || key.plain(KeyCode::Char('j')) {
            let last: usize = self.items.len().saturating_sub(1);
            self.selected = if self.selected < last {
                self.selected + 1
            } else {
                last
            };
            self.ensure_visible();
            (MenuResult::Consumed, None)
        } else {
            match key.code {
                KeyCode::Enter => {
                    let mut f: Option<F> = None;
                    std::mem::swap(&mut f, &mut self.on_close);
                    (MenuResult::Validate(self.selected), f)
                },
                KeyCode::Esc => (MenuResult::Abort(self.selected), None),
                KeyCode::Char(c) => {
                    if c == 'c' && key.modifiers.control {
                        (MenuResult::Abort(self.selected), None)
                    } else {
                        (MenuResult::Ignored, None)
                    }
                },
                _ => (MenuResult::Ignored, None),
            }
        }
    }
}

/// The columns of a menu's window.
pub open spec fn window_width(viewport: Rect) -> int {
    min(max(viewport.width as int / 2, 20), viewport.width as int)
}

/// Draws lines below the rows that are drawn, as long as there is room.
fn push_rows(
    rows: &mut Vec<MenuRow>,
    lines: &Vec<String>,
    prefix: &str,
    style: MenuRowStyle,
    inner: Rect,
    Ghost(before): Ghost<Seq<MenuRowView>>,
    Ghost(added): Ghost<Seq<MenuRowView>>,
)
    requires
        inner.fits(),
        added == Seq::new(
            lines@.len(),
            |i: int| MenuRowView { text: prefix@ + lines@[i]@, style },
        ),
        old(rows)@.len() == min(before.len() as int, inner.height as int),
        forall|k: int|
            0 <= k < old(rows)@.len() ==> shows(#[trigger] old(rows)@[k], before[k], inner, k),
    ensures
        final(rows)@.len() == min((before + added).len() as int, inner.height as int),
        forall|k: int|
            0 <= k < final(rows)@.len() ==> shows(
                #[trigger] final(rows)@[k],
                (before + added)[k],
                inner,
                k,
            ),
{
    let mut i: usize = 0;
    while i < lines.len() && rows.len() < inner.height as usize
        invariant
            inner.fits(),
            i <= lines.len(),
            added == Seq::new(
                lines@.len(),
                |i: int| MenuRowView { text: prefix@ + lines@[i]@, style },
            ),
            rows@.len() == min(before.len() + i, inner.height as int),
            forall|k: int|
                0 <= k < rows@.len() ==> shows(
                    #[trigger] rows@[k],
                    (before + added)[k],
                    inner,
                    k,
                ),
        decreases lines.len() - i,
    {
        let mut text = prefix.to_string();
        text.append(lines[i].as_str());
        let y = inner.y + rows.len() as u16;
        rows.push(MenuRow { x: inner.x, y, text, width: inner.width, style });
        i += 1;
    }
}

proof fn lemma_rows_of_items_prefix(
    items: Seq<MultiMenuItem>,
    from: int,
    i: int,
    to: int,
    selected: nat,
    width: u16,
)
    requires
        from <= i <= to,
    ensures
        ({
            let a = rows_of_items(items, from, i, selected, width);
            let b = rows_of_items(items, from, to, selected, width);
            &&& a.len() <= b.len()
            &&& forall|k: int| 0 <= k < a.len() ==> #[trigger] b[k] == a[k]
        }),
    decreases to - i,
{
    if i < to {
        lemma_rows_of_items_prefix(items, from, i, to - 1, selected, width);
    }
}

proof fn lemma_items_monotone(items: Seq<MultiMenuItem>, i: int, n: int)
    requires
        0 <= i <= n <= items.len(),
    ensures
        items_width(items, i) <= items_width(items, n),
        items_height(items, i) <= items_height(items, n),
    decreases n,
{
    if i < n {
        lemma_items_monotone(items, i, n - 1);
    }
}

proof fn lemma_words_nonempty(s: Seq<char>)
    ensures
        forall|i: int| 0 <= i < words(s).len() ==> (#[trigger] words(s)[i]).len() > 0,
        s.len() > 0 && !whitespace(s.last()) ==> words(s).len() > 0,
    decreases s.len(),
{
    if s.len() > 0 {
        let t = s.drop_last();
        lemma_words_nonempty(t);
        if t.len() > 0 {
            assert(t.last() == s[s.len() - 2]);
        }
        let before = words(t);
        let all = words(s);
        assert forall|i: int| 0 <= i < all.len() implies (#[trigger] all[i]).len() > 0 by {
            if i < before.len() {
                assert(before[i].len() > 0);
            }
        }
    }
}

proof fn lemma_wrapped_len(text: Seq<char>, max: nat)
    ensures
        word_wrapped(text, max).len() >= 1,
{
}

proof fn lemma_one_line(all: Seq<Seq<char>>, n: int, max: nat)
    requires
        0 <= n <= all.len(),
        words_width(all) <= max,
        forall|i: int| 0 <= i < all.len() ==> (#[trigger] all[i]).len() > 0,
    ensures
        ({
            let w = WordWrap::after(all, n, max);
            &&& w.lines.len() == 0
            &&& n > 0 ==> w.line.len() > 0 && w.used == words_width(all.take(n))
            &&& n == 0 ==> w.line.len() == 0
        }),
    decreases n,
{
    if n > 0 {
        lemma_one_line(all, n - 1, max);
        lemma_words_width_prefix(all, n);
        assert(all.take(n).drop_last() =~= all.take(n - 1));
        assert(all.take(n).last() == all[n - 1]);
        assert(all[n - 1].len() > 0);
        if n == 1 {
            assert(all.take(1)[0] == all[0]);
        }
    }
}

proof fn lemma_words_width_prefix(all: Seq<Seq<char>>, n: int)
    requires
        0 <= n <= all.len(),
    ensures
        words_width(all.take(n)) <= words_width(all),
    decreases all.len() - n,
{
    if n == all.len() {
        assert(all.take(n) =~= all);
    } else {
        lemma_words_width_prefix(all, n + 1);
        assert(all.take(n + 1).drop_last() =~= all.take(n));
        if n == 0 {
            assert(all.take(0) =~= Seq::empty());
        }
    }
}

proof fn lemma_fits_one_line(text: Seq<char>, max: nat)
    requires
        one_line_width(text) <= max,
    ensures
        word_wrapped(text, max).len() == 1,
{
    if max > 0 {
        lemma_words_nonempty(text);
        lemma_one_line(words(text), words(text).len() as int, max);
    }
}

proof fn lemma_item_fits(items: Seq<MultiMenuItem>, i: int, n: int)
    requires
        0 <= i < n <= items.len(),
    ensures
        item_width(items[i]) <= items_width(items, n),
    decreases n,
{
    if i < n - 1 {
        lemma_item_fits(items, i, n - 1);
    }
}

proof fn lemma_unwrapped_height(items: Seq<MultiMenuItem>, n: int, width: u16)
    requires
        0 <= n <= items.len(),
        items_width(items, items.len() as int) <= width,
    ensures
        rows_between(items, 0, n, width) == items_height(items, n),
    decreases n,
{
    if n > 0 {
        lemma_unwrapped_height(items, n - 1, width);
        lemma_item_fits(items, n - 1, items.len() as int);
        lemma_fits_one_line(items[n - 1].label@, label_room(width));
        if let Some(text) = items[n - 1].sublabel {
            lemma_fits_one_line(text@, sublabel_room(width));
        }
    }
}

/// At the width that is required, or wider, no label is wrapped, and the items
/// take the height that is required.
pub proof fn law_content_size_needs_no_wrapping(items: Seq<MultiMenuItem>, i: int, width: u16)
    requires
        0 <= i < items.len(),
        items_width(items, items.len() as int) <= width,
    ensures
        word_wrapped(items[i].label@, label_room(width)).len() == 1,
        items[i].sublabel matches Some(text) ==> word_wrapped(text@, sublabel_room(width)).len()
            == 1,
        rows_between(items, 0, items.len() as int, width) == items_height(
            items,
            items.len() as int,
        ),
{
    lemma_item_fits(items, i, items.len() as int);
    lemma_fits_one_line(items[i].label@, label_room(width));
    if let Some(text) = items[i].sublabel {
        lemma_fits_one_line(text@, sublabel_room(width));
    }
    lemma_unwrapped_height(items, items.len() as int, width);
}

proof fn lemma_scroll_from(st: MultiMenuView, from: int)
    requires
        from <= st.selected,
    ensures
        from <= st.scroll_from(from) <= st.selected,
        st.scroll_from(from) == st.selected || rows_between(
            st.items,
            st.scroll_from(from),
            st.selected as int + 1,
            st.width,
        ) <= st.height,
    decreases st.selected - from,
{
    if from < st.selected && rows_between(st.items, from, st.selected as int + 1, st.width)
        > st.height {
        lemma_scroll_from(st, from + 1);
    }
}

/// The selected item is in view: its first row is, and all its rows are, if there
/// is room for them.
pub proof fn law_selected_item_is_visible(st: MultiMenuView)
    requires
        st.wf(),
        st.items.len() > 0,
        st.height > 0,
    ensures
        ({
            let shown = st.showing_selected();
            let to = st.selected as int;
            &&& shown.scroll <= shown.selected
            &&& rows_between(st.items, shown.scroll as int, to, st.width) < st.height
            &&& item_height(st.items[to], st.width) <= st.height ==> rows_between(
                st.items,
                shown.scroll as int,
                to + 1,
                st.width,
            ) <= st.height
        }),
{
    let to = st.selected as int;
    lemma_wrapped_len(st.items[to].label@, label_room(st.width));
    if st.selected >= st.scroll {
        lemma_scroll_from(st, st.scroll as int);
    }
    let scroll = st.showing_selected().scroll as int;
    if scroll == to {
        assert(rows_between(st.items, to, to, st.width) == 0);
        assert(rows_between(st.items, to, to + 1, st.width) == item_height(
            st.items[to],
            st.width,
        ));
    }
}

/// The lines of a text that is being wrapped, the incomplete one last.
spec fn all_lines(w: WordWrap) -> Seq<Seq<char>> {
    if w.line.len() > 0 {
        w.lines.push(w.line)
    } else {
        w.lines
    }
}

proof fn lemma_join_push(parts: Seq<Seq<char>>, last: Seq<char>)
    ensures
        join(parts.push(last), seq![' ']) == if parts.len() == 0 {
            last
        } else {
            join(parts, seq![' ']) + seq![' '] + last
        },
{
    assert(parts.push(last).drop_last() =~= parts);
}

proof fn lemma_wrap_joins(all: Seq<Seq<char>>, n: int, max: nat)
    requires
        0 <= n <= all.len(),
        forall|i: int| 0 <= i < all.len() ==> (#[trigger] all[i]).len() > 0,
    ensures
        join(all_lines(WordWrap::after(all, n, max)), seq![' ']) == join(all.take(n), seq![' ']),
        n > 0 ==> all_lines(WordWrap::after(all, n, max)).len() > 0,
        n == 0 ==> all_lines(WordWrap::after(all, n, max)).len() == 0,
    decreases n,
{
    if n == 0 {
        assert(all.take(0) =~= Seq::empty());
        assert(all_lines(WordWrap::after(all, 0, max)) =~= Seq::empty());
    } else {
        lemma_wrap_joins(all, n - 1, max);
        let before = WordWrap::after(all, n - 1, max);
        let after = WordWrap::after(all, n, max);
        let word = all[n - 1];
        assert(all[n - 1].len() > 0);
        lemma_join_push(all.take(n - 1), word);
        assert(all.take(n - 1).push(word) =~= all.take(n));
        if before.line.len() > 0 && before.used + 1 + columns(word) <= max {
            lemma_join_push(before.lines, before.line);
            lemma_join_push(before.lines, after.line);
            assert(all_lines(after) == before.lines.push(after.line));
            assert(join(all_lines(after), seq![' ']) =~= join(all_lines(before), seq![' '])
                + seq![' '] + word);
        } else {
            assert(all_lines(after) =~= all_lines(before).push(word));
            lemma_join_push(all_lines(before), word);
        }
        if n == 1 {
            assert(all.take(0) =~= Seq::empty());
        }
    }
}

/// Wrapping a label only moves line breaks: its words stay as they are.
pub proof fn law_wrapping_keeps_words(text: Seq<char>, max: nat)
    requires
        max > 0,
    ensures
        join(word_wrapped(text, max), seq![' ']) == join(words(text), seq![' ']),
{
    let all = words(text);
    lemma_words_nonempty(text);
    lemma_wrap_joins(all, all.len() as int, max);
    assert(all.take(all.len() as int) =~= all);
    let w = WordWrap::after(all, all.len() as int, max);
    if all.len() == 0 {
        assert(w.finished() =~= seq![Seq::<char>::empty()]);
        assert(join(all, seq![' ']) =~= Seq::empty());
    } else {
        assert(w.finished() =~= all_lines(w));
    }
}

/// Two groups of words behind each other take the columns of both and one for the space
/// between them; a word takes its own.
pub proof fn law_words_take_a_space_between(a: Seq<Seq<char>>, b: Seq<Seq<char>>, word: Seq<char>)
    requires
        a.len() > 0,
        b.len() > 0,
    ensures
        words_width(a + b) == words_width(a) + 1 + words_width(b),
        words_width(seq![word]) == columns(word),
    decreases b.len(),
{
    assert((a + b).drop_last() =~= a + b.drop_last());
    if b.len() > 1 {
        law_words_take_a_space_between(a, b.drop_last(), word);
    } else {
        assert(a + b.drop_last() =~= a);
    }
}

/// How lines are made of groups of words: each group fits, or is a single word that is too
/// wide, and the word that comes next would not fit with it.
spec fn are_groups(
    groups: Seq<Seq<Seq<char>>>,
    out: Seq<Seq<char>>,
    all: Seq<Seq<char>>,
    max: nat,
) -> bool {
    &&& groups.len() == out.len()
    &&& groups.flatten_alt() == all
    &&& forall|i: int|
        0 <= i < groups.len() ==> {
            &&& (#[trigger] groups[i]).len() > 0
            &&& out[i] == join(groups[i], seq![' '])
            &&& words_width(groups[i]) <= max || groups[i].len() == 1
        }
    &&& forall|i: int, k: int|
        #![trigger groups[i], groups[k]]
        0 <= i && k == i + 1 && k < groups.len() ==> words_width(groups[i]) + 1 + columns(
            groups[k][0],
        ) > max
}

proof fn lemma_groups(all: Seq<Seq<char>>, n: int, max: nat) -> (groups: Seq<Seq<Seq<char>>>)
    requires
        0 <= n <= all.len(),
        forall|i: int| 0 <= i < all.len() ==> (#[trigger] all[i]).len() > 0,
    ensures
        ({
            let w = WordWrap::after(all, n, max);
            &&& are_groups(groups, all_lines(w), all.take(n), max)
            &&& w.line.len() > 0 ==> w.used == words_width(groups.last())
            &&& w.line.len() == 0 && groups.len() > 0 ==> words_width(groups.last()) > max
        }),
    decreases n,
{
    if n == 0 {
        let groups = Seq::<Seq<Seq<char>>>::empty();
        assert(groups.flatten_alt() =~= all.take(0));
        assert(all_lines(WordWrap::after(all, 0, max)) =~= Seq::empty());
        groups
    } else {
        let before = WordWrap::after(all, n - 1, max);
        let now = WordWrap::after(all, n, max);
        let old = lemma_groups(all, n - 1, max);
        let word = all[n - 1];
        assert(word.len() > 0);
        assert(all.take(n) =~= all.take(n - 1).push(word));
        if before.line.len() > 0 && before.used + 1 + columns(word) <= max {
            let last = old.last().push(word);
            let groups = old.drop_last().push(last);
            assert(last.drop_last() =~= old.last());
            assert(groups.drop_last() =~= old.drop_last());
            assert(groups.flatten_alt() =~= all.take(n));
            assert(all_lines(now) =~= all_lines(before).drop_last().push(now.line));
            lemma_join_push(old.last(), word);
            assert forall|i: int| 0 <= i < groups.len() implies {
                &&& (#[trigger] groups[i]).len() > 0
                &&& all_lines(now)[i] == join(groups[i], seq![' '])
                &&& words_width(groups[i]) <= max || groups[i].len() == 1
            } by {
                if i < old.len() - 1 {
                    assert(groups[i] == old[i]);
                } else {
                    assert(old[i].len() > 0);
                    assert(all_lines(before)[i] == before.line);
                }
            }
            assert forall|i: int, k: int|
                #![trigger groups[i], groups[k]]
                0 <= i && k == i + 1 && k < groups.len() implies words_width(groups[i]) + 1
                + columns(groups[k][0]) > max by {
                assert(groups[i] == old[i]);
                assert(old[k].len() > 0);
                assert(groups[k][0] == old[k][0]);
            }
            groups
        } else {
            let groups = old.push(seq![word]);
            assert(groups.drop_last() =~= old);
            assert(groups.flatten_alt() =~= all.take(n));
            assert(all_lines(now) =~= all_lines(before).push(word));
            assert forall|i: int| 0 <= i < groups.len() implies {
                &&& (#[trigger] groups[i]).len() > 0
                &&& all_lines(now)[i] == join(groups[i], seq![' '])
                &&& words_width(groups[i]) <= max || groups[i].len() == 1
            } by {
                if i < old.len() {
                    assert(groups[i] == old[i]);
                }
            }
            assert forall|i: int, k: int|
                #![trigger groups[i], groups[k]]
                0 <= i && k == i + 1 && k < groups.len() implies words_width(groups[i]) + 1
                + columns(groups[k][0]) > max by {
                assert(groups[i] == old[i]);
                if k < old.len() {
                    assert(groups[k] == old[k]);
                }
            }
            groups
        }
    }
}

/// A text is wrapped between words only: each line holds the words that come next, as many
/// as fit. A word that is too wide stands on a line of its own.
pub proof fn law_wrapped_lines_hold_as_many_words_as_fit(text: Seq<char>, max: nat)
    requires
        max > 0,
        words(text).len() > 0,
    ensures
        exists|groups: Seq<Seq<Seq<char>>>|
            {
                let out = word_wrapped(text, max);
                &&& groups.len() == out.len()
                &&& #[trigger] groups.flatten_alt() == words(text)
                &&& forall|i: int|
                    0 <= i < groups.len() ==> {
                        &&& (#[trigger] groups[i]).len() > 0
                        &&& out[i] == join(groups[i], seq![' '])
                        &&& words_width(groups[i]) <= max || groups[i].len() == 1
                    }
                &&& forall|i: int, k: int|
                    #![trigger groups[i], groups[k]]
                    0 <= i && k == i + 1 && k < groups.len() ==> words_width(groups[i]) + 1
                        + columns(groups[k][0]) > max
            },
{
    let all = words(text);
    let n = all.len() as int;
    lemma_words_nonempty(text);
    let groups = lemma_groups(all, n, max);
    assert(all.take(n) =~= all);
    lemma_wrap_joins(all, n, max);
    let w = WordWrap::after(all, n, max);
    assert(w.finished() =~= all_lines(w));
    assert(groups.flatten_alt() == words(text));
}

/// The rows of items are those of each item, one after the other: two ranges of items that
/// follow each other take the rows of both.
pub proof fn law_rows_of_items_follow_each_other(
    items: Seq<MultiMenuItem>,
    a: int,
    b: int,
    c: int,
    selected: nat,
    width: u16,
)
    requires
        a <= b <= c,
    ensures
        rows_of_items(items, a, c, selected, width) == rows_of_items(items, a, b, selected, width)
            + rows_of_items(items, b, c, selected, width),
        rows_between(items, a, c, width) == rows_between(items, a, b, width) + rows_between(
            items,
            b,
            c,
            width,
        ),
        rows_of_items(items, a, c, selected, width).len() == rows_between(items, a, c, width),
    decreases c - a,
{
    if a < c {
        if b < c {
            law_rows_of_items_follow_each_other(items, a, b, c - 1, selected, width);
            law_rows_of_items_follow_each_other(items, b, b, c - 1, selected, width);
        } else {
            law_rows_of_items_follow_each_other(items, a, a, c - 1, selected, width);
        }
        assert(rows_of_items(items, a, c, selected, width) =~= rows_of_items(
            items,
            a,
            b,
            selected,
            width,
        ) + rows_of_items(items, b, c, selected, width));
    } else {
        assert(rows_of_items(items, a, c, selected, width) =~= Seq::empty());
        assert(rows_of_items(items, a, b, selected, width) =~= Seq::empty());
    }
}

/// An item takes a row for each line of its label, behind a mark where it is selected, and
/// below them one for each line of its sublabel.
pub proof fn law_rows_of_an_item_are_its_lines(
    items: Seq<MultiMenuItem>,
    at: int,
    selected: nat,
    width: u16,
    i: int,
)
    requires
        0 <= at < items.len(),
        width >= 4,
    ensures
        ({
            let rows = rows_of_items(items, at, at + 1, selected, width);
            let label = word_wrapped(items[at].label@, (width - 2) as nat);
            let below = match items[at].sublabel {
                Some(text) => word_wrapped(text@, (width - 4) as nat),
                None => Seq::empty(),
            };
            &&& rows.len() == label.len() + below.len()
            &&& 0 <= i < label.len() && at == selected ==> rows[i].text == "▶ "@ + label[i]
                && rows[i].style == MenuRowStyle::Selected
            &&& 0 <= i < label.len() && at != selected ==> rows[i].text == "  "@ + label[i]
                && rows[i].style == MenuRowStyle::Normal
            &&& label.len() <= i < rows.len() ==> rows[i].text == "    "@ + below[i - label.len()]
                && rows[i].style == MenuRowStyle::Sublabel
        }),
{
    assert(rows_of_items(items, at, at, selected, width) =~= Seq::empty());
    assert(rows_of_items(items, at, at + 1, selected, width) =~= rows_of_item(
        items[at],
        at == selected,
        width,
    ));
}

/// The menu is scrolled down only past items that leave too little room for the selected
/// one, and up only to it. Nothing else changes.
pub proof fn law_menu_is_scrolled_as_little_as_needed(st: MultiMenuView, i: int)
    requires
        st.height > 0,
    ensures
        ({
            let now = st.showing_selected();
            &&& now.items == st.items && now.selected == st.selected
            &&& st.selected < st.scroll ==> now.scroll == st.selected
            &&& st.selected >= st.scroll ==> now.scroll >= st.scroll
            &&& st.scroll <= i < now.scroll ==> rows_between(
                st.items,
                i,
                st.selected as int + 1,
                st.width,
            ) > st.height
        }),
{
    if st.selected >= st.scroll {
        lemma_scrolled_past(st, st.scroll as int, i);
    }
}

proof fn lemma_scrolled_past(st: MultiMenuView, from: int, i: int)
    requires
        0 <= from <= st.selected,
    ensures
        st.scroll_from(from) >= from,
        from <= i < st.scroll_from(from) ==> rows_between(
            st.items,
            i,
            st.selected as int + 1,
            st.width,
        ) > st.height,
    decreases st.selected - from,
{
    if from < st.selected && rows_between(st.items, from, st.selected as int + 1, st.width)
        > st.height {
        lemma_scrolled_past(st, from + 1, i);
    }
}

/// Up and down select the item before and the item behind, and stop at the first and at the
/// last.
pub proof fn law_selection_moves_by_one(st: MultiMenuView)
    requires
        st.wf(),
    ensures
        st.selected > 0 ==> st.up().selected == st.selected - 1,
        st.selected == 0 ==> st.up().selected == 0,
        st.selected + 1 < st.items.len() ==> st.down().selected == st.selected + 1,
        st.selected + 1 >= st.items.len() ==> st.down().selected == st.selected,
        st.up().items == st.items && st.down().items == st.items,
{
}

/// The content is as wide as the widest of its lines: labels stand behind two columns, and
/// sublabels behind four.
pub proof fn law_content_is_as_wide_as_its_widest_line(items: Seq<MultiMenuItem>, n: int, i: int)
    requires
        0 <= n <= items.len(),
    ensures
        items_width(items, n) >= 2,
        0 <= i < n ==> items_width(items, n) >= words_width(words(items[i].label@)) + 2,
        0 <= i < n && items[i].sublabel is Some ==> items_width(items, n) >= words_width(
            words(items[i].sublabel->0@),
        ) + 4,
        items_width(items, n) == 2 || exists|k: int|
            0 <= k < n && (items_width(items, n) == words_width(words((#[trigger] items[k]).label@))
                + 2 || (items[k].sublabel is Some && items_width(items, n) == words_width(
                words(items[k].sublabel->0@),
            ) + 4)),
    decreases n,
{
    if n > 0 {
        law_content_is_as_wide_as_its_widest_line(items, n - 1, i);
        let before = items_width(items, n - 1);
        if item_width(items[n - 1]) > before {
            let last = items[n - 1];
            assert(items_width(items, n) == item_width(last));
        } else if before != 2 {
            let k = choose|k: int|
                0 <= k < n - 1 && (before == words_width(words((#[trigger] items[k]).label@)) + 2
                    || (items[k].sublabel is Some && before == words_width(
                    words(items[k].sublabel->0@),
                ) + 4));
            let found = items[k];
        }
    }
}

/// Which keys move the selection and which leave the menu.
pub proof fn law_keys_of_the_menu(key: KeyEvent)
    ensures
        ({
            let m = key.modifiers;
            let bare = !m.shift && !m.control && !m.alt && !m.super_key;
            &&& moves_up(key) <==> bare && (key.code == KeyCode::Up || key.code == KeyCode::Char('k'))
            &&& moves_down(key) <==> bare && (key.code == KeyCode::Down || key.code == KeyCode::Char(
                'j',
            ))
            &&& aborts(key) <==> key.code == KeyCode::Esc || (key.code == KeyCode::Char('c')
                && m.control)
        }),
{
}

/// The window of a menu is half as wide as the screen, but twenty columns at least, as far
/// as the screen has them.
pub proof fn law_menu_takes_half_of_the_screen(viewport: Rect)
    ensures
        viewport.width >= 40 ==> 2 * window_width(viewport) <= viewport.width <= 2 * window_width(
            viewport,
        ) + 1,
        20 <= viewport.width < 40 ==> window_width(viewport) == 20,
        viewport.width < 20 ==> window_width(viewport) == viewport.width,
{
}

} // verus!
