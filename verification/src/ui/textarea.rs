//! A multi-line text input that wraps its lines to the width it is drawn at.

use vstd::math::{max, min};
use vstd::prelude::*;

use crate::graphics::Rect;
use crate::text::{
    chars_of, lemma_line_start_monotone, lemma_line_start_total, lemma_lines_before, line_start,
    split, split_on, string_of, substring, views,
};
use crate::unicode::{
    cluster_len, graphemes, graphemes_of, lemma_clusters, lemma_last_cluster, stands_alone,
};

verus! {

/// Whether a character that is not ASCII has one of the Unicode properties
/// `Alphabetic` and `Numeric`.
pub uninterp spec fn other_alphanumeric(c: char) -> bool;

/// Characters with one of the Unicode properties `Alphabetic` and `Numeric`.
pub open spec fn alphanumeric(c: char) -> bool {
    if (c as u32) < 128 {
        'a' <= c <= 'z' || 'A' <= c <= 'Z' || '0' <= c <= '9'
    } else {
        other_alphanumeric(c)
    }
}

/// `char::is_alphanumeric` holds of the ASCII letters and digits and of no other ASCII
/// character. Beyond ASCII it is a function of the character alone.
pub assume_specification[ char::is_alphanumeric ](c: char) -> (b: bool)
    ensures
        b == alphanumeric(c),
        c as u32 >= 128 ==> b == other_alphanumeric(c),
;

/// Characters that make up words.
pub open spec fn word_char(c: char) -> bool {
    alphanumeric(c) || c == '_'
}

pub fn is_word_char(c: char) -> (b: bool)
    ensures
        b == word_char(c),
{
    c.is_alphanumeric() || c == '_'
}

/// How many rows a line of `len` characters needs when it is wrapped at
/// `width` columns. A width of zero does not wrap, and an empty line takes one
/// row.
pub open spec fn line_vrows(len: nat, width: nat) -> nat {
    if width == 0 || len == 0 {
        1
    } else {
        (len + width - 1) as nat / width
    }
}

/// How many visual rows a logical line of `line_chars` chars needs at `width` cols.
pub fn logical_line_vrows(line_chars: usize, width: usize) -> (rows: usize)
    ensures
        rows == line_vrows(line_chars as nat, width as nat),
{
    if width == 0 || line_chars == 0 {
        1
    } else {
        let rows: usize = (line_chars - 1) / width;
        proof {
            let a = (line_chars - 1) as int;
            let w = width as int;
            vstd::arithmetic::div_mod::lemma_div_plus_one(a, w);
            vstd::arithmetic::div_mod::lemma_div_is_ordered_by_denominator(a, 1, w);
            assert(a / 1 == a);
            assert((line_chars + width - 1) as nat / width as nat == (w + a) / w);
        }
        rows + 1
    }
}

/// The rows taken by the first `n` of `pieces`.
pub open spec fn rows_before(pieces: Seq<Seq<char>>, n: int, width: nat) -> nat
    decreases n,
{
    if n <= 0 {
        0
    } else {
        rows_before(pieces, n - 1, width) + line_vrows(pieces[n - 1].len(), width)
    }
}

/// Row `r` of a line that is wrapped at `width` columns.
pub open spec fn line_row(line: Seq<char>, width: nat, r: nat) -> Seq<char> {
    let start = r * width;
    let end = if start + width <= line.len() {
        (start + width) as int
    } else {
        line.len() as int
    };
    line.subrange(start as int, end)
}

/// The rows of a line that is wrapped at `width` columns.
pub open spec fn line_rows(line: Seq<char>, width: nat) -> Seq<Seq<char>> {
    Seq::new(line_vrows(line.len(), width), |r: int| line_row(line, width, r as nat))
}

/// The rows of the first `n` of `pieces`.
pub open spec fn all_rows(pieces: Seq<Seq<char>>, n: int, width: nat) -> Seq<Seq<char>>
    decreases n,
{
    if n <= 0 {
        Seq::empty()
    } else {
        all_rows(pieces, n - 1, width) + line_rows(pieces[n - 1], width)
    }
}

/// Where one gets from `k`, going back over characters that are word
/// characters, or that are none.
pub open spec fn back_over(text: Seq<char>, k: int, over_word: bool) -> int
    decreases k,
{
    if 0 < k && word_char(text[k - 1]) == over_word {
        back_over(text, k - 1, over_word)
    } else {
        k
    }
}

/// Where one gets from `k`, going forward over characters that are word
/// characters, or that are none.
pub open spec fn forward_over(text: Seq<char>, k: int, over_word: bool) -> int
    decreases text.len() - k,
{
    if k < text.len() && word_char(text[k]) == over_word {
        forward_over(text, k + 1, over_word)
    } else {
        k
    }
}

/// What a text area holds.
pub struct TextAreaState {
    pub text: Seq<char>,
    /// Index of the character before which the cursor stands.
    pub cursor: int,
    /// The first visible row.
    pub scroll: int,
    /// How many rows are visible at most.
    pub max_lines: int,
    /// The width that lines are wrapped at; zero does not wrap.
    pub width: nat,
}

impl TextAreaState {
    pub open spec fn lines(self) -> Seq<Seq<char>> {
        split_on(self.text, '\n')
    }

    /// The line that the cursor is in.
    pub open spec fn line(self) -> int {
        split_on(self.text.take(self.cursor), '\n').len() - 1
    }

    /// How many characters of its line stand before the cursor.
    pub open spec fn col(self) -> int {
        split_on(self.text.take(self.cursor), '\n').last().len() as int
    }

    /// The row that the cursor is in, counted over the whole text.
    pub open spec fn cursor_row(self) -> int {
        rows_before(self.lines(), self.line(), self.width) + if self.width == 0 {
            0
        } else {
            self.col() / self.width as int
        }
    }

    /// The column of the cursor within its row.
    pub open spec fn cursor_col(self) -> int {
        if self.width == 0 {
            self.col()
        } else {
            self.col() % (self.width as int)
        }
    }

    /// The rows of the whole text.
    pub open spec fn rows(self, width: nat) -> Seq<Seq<char>> {
        all_rows(self.lines(), self.lines().len() as int, width)
    }

    /// The state scrolled by as little as brings the cursor into view.
    pub open spec fn following_cursor(self) -> TextAreaState {
        let row = self.cursor_row();
        let scroll = if row < self.scroll {
            row
        } else if row >= self.scroll + self.max_lines {
            if self.max_lines == 0 {
                min(row + 1, usize::MAX as int)
            } else {
                row + 1 - self.max_lines
            }
        } else {
            self.scroll
        };
        TextAreaState { scroll, ..self }
    }

    /// The text with `inserted` put in at the cursor, and the cursor behind it.
    pub open spec fn insert(self, inserted: Seq<char>) -> TextAreaState {
        TextAreaState {
            text: self.text.take(self.cursor) + inserted + self.text.skip(self.cursor),
            cursor: self.cursor + inserted.len(),
            ..self
        }
    }

    /// The state with the cursor before character `cursor`.
    pub open spec fn at(self, cursor: int) -> TextAreaState {
        TextAreaState { cursor, ..self }
    }

    /// How many characters the grapheme cluster before the cursor has.
    pub open spec fn cluster_before(self) -> int {
        graphemes_of(self.text.take(self.cursor)).last().len() as int
    }

    /// How many characters the grapheme cluster at the cursor has.
    pub open spec fn cluster_after(self) -> int {
        graphemes_of(self.text.skip(self.cursor)).first().len() as int
    }

    /// The state without the cluster before the cursor.
    pub open spec fn without_before(self) -> TextAreaState {
        let start = self.cursor - self.cluster_before();
        TextAreaState {
            text: self.text.take(start) + self.text.skip(self.cursor),
            cursor: start,
            ..self
        }
    }

    /// The state without the cluster at the cursor.
    pub open spec fn without_after(self) -> TextAreaState {
        TextAreaState {
            text: self.text.take(self.cursor) + self.text.skip(
                self.cursor + self.cluster_after(),
            ),
            ..self
        }
    }

    /// The index of the character at column `col` of a line, or of the line's
    /// end where the line is shorter.
    pub open spec fn index_of(self, line: int, col: int) -> int {
        line_start(self.lines(), line) + min(col, self.lines()[line].len() as int)
    }

    /// The cursor one grapheme cluster further left.
    pub open spec fn moved_left(self) -> TextAreaState {
        if self.cursor == 0 {
            self
        } else {
            self.at(self.cursor - self.cluster_before()).following_cursor()
        }
    }

    /// The cursor one grapheme cluster further right.
    pub open spec fn moved_right(self) -> TextAreaState {
        if self.cursor == self.text.len() {
            self
        } else {
            self.at(self.cursor + self.cluster_after()).following_cursor()
        }
    }

    /// The cursor one line further up.
    pub open spec fn moved_up(self) -> TextAreaState {
        if self.line() == 0 {
            self
        } else {
            self.at(self.index_of(self.line() - 1, self.col())).following_cursor()
        }
    }

    /// The cursor one line further down.
    pub open spec fn moved_down(self) -> TextAreaState {
        if self.line() + 1 >= self.lines().len() {
            self
        } else {
            self.at(self.index_of(self.line() + 1, self.col())).following_cursor()
        }
    }

    /// The cursor at the start of the word that it is in or behind.
    pub open spec fn moved_word_left(self) -> TextAreaState {
        if self.cursor == 0 {
            self
        } else {
            self.at(
                back_over(self.text, back_over(self.text, self.cursor, false), true),
            ).following_cursor()
        }
    }

    /// The cursor at the start of the next word.
    pub open spec fn moved_word_right(self) -> TextAreaState {
        if self.cursor == self.text.len() {
            self
        } else {
            self.at(
                forward_over(self.text, forward_over(self.text, self.cursor, true), false),
            ).following_cursor()
        }
    }

    /// The text without the cluster before the cursor, where there is one.
    pub open spec fn deleted_before(self) -> TextAreaState {
        if self.cursor == 0 {
            self
        } else {
            self.without_before().following_cursor()
        }
    }

    /// The text without the cluster at the cursor, where there is one.
    pub open spec fn deleted_after(self) -> TextAreaState {
        if self.cursor == self.text.len() {
            self
        } else {
            self.without_after()
        }
    }

    /// No text.
    pub open spec fn cleared(self) -> TextAreaState {
        TextAreaState { text: Seq::empty(), cursor: 0, scroll: 0, ..self }
    }

    /// The cursor's row is not scrolled out of view. Behind a line that fills its last
    /// row the cursor stands in a row of its own.
    pub open spec fn cursor_in_view(self) -> bool {
        self.scroll <= self.cursor_row() < self.scroll + self.max_lines
    }

    /// The rows of the text, and that of the cursor where it lies below them, but no
    /// more than are visible.
    pub open spec fn rows_needed(self, width: nat) -> int {
        min(
            max(
                self.rows(width).len() as int,
                (TextAreaState { width, ..self }).cursor_row() + 1,
            ),
            self.max_lines,
        )
    }

    /// The cursor stands within a line end `\r\n`.
    pub open spec fn splits_line_end(self) -> bool {
        &&& 0 < self.cursor < self.text.len()
        &&& self.text[self.cursor - 1] == '\r'
        &&& self.text[self.cursor] == '\n'
    }

    /// The state after the cursor was moved right `n` times.
    pub open spec fn moved_right_times(self, n: nat) -> TextAreaState
        decreases n,
    {
        if n == 0 {
            self
        } else {
            self.moved_right().moved_right_times((n - 1) as nat)
        }
    }

    /// The cursor stands within the text.
    pub open spec fn wf(self) -> bool {
        &&& 0 <= self.cursor <= self.text.len()
        &&& 0 <= self.scroll
        &&& 0 <= self.max_lines
    }
}

/// A row of text to be drawn, cut off after `width` columns.
pub struct DrawnRow {
    pub x: u16,
    pub y: u16,
    pub text: String,
    pub width: u16,
}

/// Callers set `max_lines`. Verus reads a field from outside only where all are public;
/// the others are set by the methods alone.
pub struct TextArea {
    pub text: String,
    /// Char index (not byte index) of the cursor position.
    pub cursor: usize,
    /// Index of the first visible VISUAL row (0-based).
    pub scroll: usize,
    /// Maximum number of visible rows (default 4).
    pub max_lines: usize,
    /// Width passed to the last render(); 0 means wrap disabled.
    pub area_width: u16,
}

impl View for TextArea {
    type V = TextAreaState;

    open spec fn view(&self) -> TextAreaState {
        TextAreaState {
            text: self.text@,
            cursor: self.cursor as int,
            scroll: self.scroll as int,
            max_lines: self.max_lines as int,
            width: self.area_width as nat,
        }
    }
}

/// A line takes at most one row for each of its characters and one more.
proof fn lemma_line_vrows_bound(len: nat, width: nat)
    ensures
        1 <= line_vrows(len, width) <= len + 1,
        len > 0 ==> line_vrows(len, width) <= len,
{
    if width != 0 && len != 0 {
        vstd::arithmetic::div_mod::lemma_div_plus_one((len - 1) as int, width as int);
        vstd::arithmetic::div_mod::lemma_div_is_ordered_by_denominator(
            (len - 1) as int,
            1,
            width as int,
        );
        assert((len - 1) as int / 1 == len - 1);
        assert((len + width - 1) as nat / width == (width as int + (len - 1)) / (width as int));
        assert((len - 1) as int / (width as int) >= 0) by {
            vstd::arithmetic::div_mod::lemma_div_pos_is_pos((len - 1) as int, width as int);
        }
    }
}

/// The rows before a line are no more than the characters before it.
proof fn lemma_rows_before_bound(pieces: Seq<Seq<char>>, n: int, width: nat)
    ensures
        rows_before(pieces, n, width) <= line_start(pieces, n),
    decreases n,
{
    if n > 0 {
        lemma_rows_before_bound(pieces, n - 1, width);
        lemma_line_vrows_bound(pieces[n - 1].len(), width);
    }
}

/// There are as many rows as the lines take together.
proof fn lemma_all_rows_len(pieces: Seq<Seq<char>>, n: int, width: nat)
    ensures
        all_rows(pieces, n, width).len() == rows_before(pieces, n, width),
    decreases n,
{
    if n > 0 {
        lemma_all_rows_len(pieces, n - 1, width);
    }
}

/// The rows of the first lines come first.
proof fn lemma_all_rows_prefix(pieces: Seq<Seq<char>>, m: int, n: int, width: nat)
    requires
        0 <= m <= n,
    ensures
        all_rows(pieces, m, width).len() <= all_rows(pieces, n, width).len(),
        forall|k: int|
            0 <= k < all_rows(pieces, m, width).len() ==> #[trigger] all_rows(pieces, n, width)[k]
                == all_rows(pieces, m, width)[k],
    decreases n,
{
    if m < n {
        lemma_all_rows_prefix(pieces, m, n - 1, width);
    }
}

/// A row of a line starts within the line.
proof fn lemma_row_start(len: nat, width: nat, r: nat)
    requires
        r < line_vrows(len, width),
    ensures
        r * width <= len,
        0 <= r * width,
{
    if width != 0 && len != 0 {
        let rows = line_vrows(len, width);
        assert(rows * width <= len + width - 1) by (nonlinear_arith)
            requires
                rows == (len + width - 1) as nat / width,
                width > 0,
        ;
        assert((r + 1) * width <= rows * width) by (nonlinear_arith)
            requires
                r + 1 <= rows,
        ;
        assert((r + 1) * width == r * width + width) by (nonlinear_arith);
    } else {
        assert(r == 0);
    }
}

impl Default for TextArea {
    fn default() -> (r: Self)
        ensures
            r@ == (TextAreaState {
                text: Seq::empty(),
                cursor: 0,
                scroll: 0,
                max_lines: 4,
                width: 0,
            }),
    {
        Self::new()
    }
}

impl TextArea {
    /// The cursor stands within the text.
    pub open spec fn wf(&self) -> bool {
        self@.wf()
    }

    pub fn new() -> (r: Self)
        ensures
            r@ == (TextAreaState {
                text: Seq::empty(),
                cursor: 0,
                scroll: 0,
                max_lines: 4,
                width: 0,
            }),
            r.wf(),
    {
        Self { text: String::new(), cursor: 0, scroll: 0, max_lines: 4, area_width: 0 }
    }

    pub fn text(&self) -> (r: &str)
        ensures
            r@ == self@.text,
    {
        self.text.as_str()
    }

    /// Reset the widget to empty state.
    pub fn clear(&mut self)
        ensures
            final(self)@ == old(self)@.cleared(),
            final(self).wf(),
    {
        self.text = String::new();
        self.cursor = 0;
        self.scroll = 0;
    }

    // ── Editing ─────────────────────────────────────────────────────────────

    pub fn insert_char(&mut self, c: char)
        requires
            old(self).wf(),
        ensures
            final(self)@ == old(self)@.insert(seq![c]).following_cursor(),
            final(self).wf(),
    {
        let mut v = chars_of(self.text.as_str());
        v.insert(self.cursor, c);
        let ghost new = old(self)@.insert(seq![c]);
        assert(v@ =~= new.text);
        self.text = string_of(&v);
        assert(self.cursor < v.len());
        self.cursor = self.cursor + 1;
        assert(self@ == new);
        self.ensure_cursor_visible();
    }

    pub fn insert_str(&mut self, s: &str)
        requires
            old(self).wf(),
        ensures
            final(self)@ == old(self)@.insert(s@).following_cursor(),
            final(self).wf(),
    {
        let v = chars_of(self.text.as_str());
        let mut text = substring(&v, 0, self.cursor);
        text.append(s);
        text.append(substring(&v, self.cursor, v.len()).as_str());
        let ghost new = old(self)@.insert(s@);
        assert(text@ =~= new.text);
        let total = text.as_str().unicode_len();
        let inserted = s.unicode_len();
        assert(self.cursor + inserted <= total);
        self.text = text;
        self.cursor = self.cursor + inserted;
        assert(self@ == new);
        self.ensure_cursor_visible();
    }

    /// Delete the grapheme cluster immediately before the cursor (Backspace).
    pub fn delete_before(&mut self)
        requires
            old(self).wf(),
        ensures
            final(self)@ == old(self)@.deleted_before(),
            final(self).wf(),
    {
        if self.cursor == 0 {
            return ;
        }
        let n = self.cluster_before();
        let v = chars_of(self.text.as_str());
        let mut text = substring(&v, 0, self.cursor - n);
        text.append(substring(&v, self.cursor, v.len()).as_str());
        assert(text@ =~= old(self)@.without_before().text);
        self.text = text;
        self.cursor = self.cursor - n;
        assert(self@ == old(self)@.without_before());
        self.ensure_cursor_visible();
    }

    /// Delete the grapheme cluster at the cursor (Delete).
    pub fn delete_after(&mut self)
        requires
            old(self).wf(),
        ensures
            final(self)@ == old(self)@.deleted_after(),
            final(self).wf(),
    {
        let v = chars_of(self.text.as_str());
        if self.cursor >= v.len() {
            return ;
        }
        let n = self.cluster_after();
        let mut text = substring(&v, 0, self.cursor);
        text.append(substring(&v, self.cursor + n, v.len()).as_str());
        assert(text@ =~= old(self)@.without_after().text);
        self.text = text;
    }

    /// How many characters the grapheme cluster before the cursor has.
    fn cluster_before(&self) -> (n: usize)
        requires
            self.wf(),
            self@.cursor > 0,
        ensures
            n == self@.cluster_before(),
            0 < n <= self@.cursor,
    {
        let v = chars_of(self.text.as_str());
        let before = substring(&v, 0, self.cursor);
        assert(before@ =~= self@.text.take(self@.cursor));
        let clusters = graphemes(before.as_str());
        proof {
            lemma_clusters(before@);
            assert(clusters@.len() == graphemes_of(before@).len());
            assert(clusters@[clusters@.len() - 1]@ == graphemes_of(before@).last());
        }
        clusters[clusters.len() - 1].unicode_len()
    }

    /// How many characters the grapheme cluster at the cursor has.
    fn cluster_after(&self) -> (n: usize)
        requires
            self.wf(),
            self@.cursor < self@.text.len(),
        ensures
            n == self@.cluster_after(),
            0 < n <= self@.text.len() - self@.cursor,
    {
        let v = chars_of(self.text.as_str());
        let after = substring(&v, self.cursor, v.len());
        assert(after@ =~= self@.text.skip(self@.cursor));
        let clusters = graphemes(after.as_str());
        proof {
            lemma_clusters(after@);
            assert(clusters@.len() == graphemes_of(after@).len());
            assert(clusters@[0]@ == graphemes_of(after@).first());
        }
        clusters[0].unicode_len()
    }

    // ── Navigation ───────────────────────────────────────────────────────────

    pub fn move_left(&mut self)
        requires
            old(self).wf(),
        ensures
            final(self)@ == old(self)@.moved_left(),
            final(self).wf(),
    {
        if self.cursor == 0 {
            return ;
        }
        let n = self.cluster_before();
        self.cursor = self.cursor - n;
        self.ensure_cursor_visible();
    }

    pub fn move_right(&mut self)
        requires
            old(self).wf(),
        ensures
            final(self)@ == old(self)@.moved_right(),
            final(self).wf(),
    {
        let total = self.text.as_str().unicode_len();
        if self.cursor >= total {
            return ;
        }
        let n = self.cluster_after();
        self.cursor = self.cursor + n;
        self.ensure_cursor_visible();
    }

    pub fn move_up(&mut self)
        requires
            old(self).wf(),
        ensures
            final(self)@ == old(self)@.moved_up(),
            final(self).wf(),
    {
        let (line, col) = self.cursor_line_col();
        if line == 0 {
            return ;
        }
        proof {
            lemma_lines_before(self@.text, self@.cursor);
        }
        self.cursor = self.line_col_to_char(line - 1, col);
        self.ensure_cursor_visible();
    }

    pub fn move_down(&mut self)
        requires
            old(self).wf(),
        ensures
            final(self)@ == old(self)@.moved_down(),
            final(self).wf(),
    {
        let (line, col) = self.cursor_line_col();
        let count = self.line_count();
        if line >= count - 1 {
            return ;
        }
        self.cursor = self.line_col_to_char(line + 1, col);
        self.ensure_cursor_visible();
    }

    /// Move backward past non-word chars, then past word chars.
    pub fn move_word_left(&mut self)
        requires
            old(self).wf(),
        ensures
            final(self)@ == old(self)@.moved_word_left(),
            final(self).wf(),
    {
        if self.cursor == 0 {
            return ;
        }
        let v = chars_of(self.text.as_str());
        let mut j: usize = self.cursor;
        let ghost text = self@.text;
        while j > 0 && !is_word_char(v[j - 1])
            invariant
                v@ == text,
                j <= v.len(),
                back_over(text, j as int, false) == back_over(text, self.cursor as int, false),
            decreases j,
        {
            j -= 1;
        }
        let ghost k = j as int;
        assert(k == back_over(text, self.cursor as int, false));
        while j > 0 && is_word_char(v[j - 1])
            invariant
                v@ == text,
                j <= v.len(),
                back_over(text, j as int, true) == back_over(text, k, true),
            decreases j,
        {
            j -= 1;
        }
        self.cursor = j;
        self.ensure_cursor_visible();
    }

    /// Move forward past word chars, then past non-word chars.
    pub fn move_word_right(&mut self)
        requires
            old(self).wf(),
        ensures
            final(self)@ == old(self)@.moved_word_right(),
            final(self).wf(),
    {
        let v = chars_of(self.text.as_str());
        let total = v.len();
        if self.cursor >= total {
            return ;
        }
        let mut j: usize = self.cursor;
        let ghost text = self@.text;
        while j < total && is_word_char(v[j])
            invariant
                v@ == text,
                total == v.len(),
                j <= total,
                forward_over(text, j as int, true) == forward_over(
                    text,
                    self.cursor as int,
                    true,
                ),
            decreases total - j,
        {
            j += 1;
        }
        let ghost k = j as int;
        assert(k == forward_over(text, self.cursor as int, true));
        while j < total && !is_word_char(v[j])
            invariant
                v@ == text,
                total == v.len(),
                j <= total,
                forward_over(text, j as int, false) == forward_over(text, k, false),
            decreases total - j,
        {
            j += 1;
        }
        self.cursor = j;
        self.ensure_cursor_visible();
    }

    // ── Rendering helpers ────────────────────────────────────────────────────

    /// Number of `\n`-separated lines (always at least 1).
    pub fn line_count(&self) -> (n: usize)
        ensures
            n == self@.lines().len(),
            n >= 1,
    {
        proof {
            lemma_line_start_total(self@.text);
        }
        let pieces = split(self.text.as_str(), '\n');
        assert(views(pieces@).len() == pieces@.len());
        pieces.len()
    }

    /// Visual rows when rendered at `width` chars wide, but no more than
    /// `max_lines`.
    pub fn visual_rows_for(&self, width: u16) -> (rows: usize)
        ensures
            rows == min(self@.rows(width as nat).len() as int, self@.max_lines),
    {
        let pieces = split(self.text.as_str(), '\n');
        let ghost all = self@.lines();
        assert(views(pieces@).len() == pieces@.len());
        let mut total: usize = 0;
        let mut i: usize = 0;
        while i < pieces.len()
            invariant
                i <= pieces.len(),
                views(pieces@) == all,
                total == min(rows_before(all, i as int, width as nat) as int, usize::MAX as int),
            decreases pieces.len() - i,
        {
            let rows = logical_line_vrows(pieces[i].as_str().unicode_len(), width as usize);
            assert(all[i as int] == pieces@[i as int]@);
            total = total.saturating_add(rows);
            i += 1;
        }
        proof {
            lemma_all_rows_len(all, all.len() as int, width as nat);
        }
        if total < self.max_lines {
            total
        } else {
            self.max_lines
        }
    }

    /// Number of rows actually visible using the last rendered width.
    pub fn visual_rows(&self) -> (rows: usize)
        ensures
            rows == min(self@.rows(self@.width).len() as int, self@.max_lines),
    {
        self.visual_rows_for(self.area_width)
    }

    /// Rows to set apart when rendered at `width` chars wide: those of the text, and
    /// that of the cursor, but no more than `max_lines`.
    pub fn rows_needed_for(&self, width: u16) -> (rows: usize)
        requires
            self.wf(),
        ensures
            rows == self@.rows_needed(width as nat),
    {
        let rows = self.visual_rows_for(width);
        let (cursor_vrow, _) = self.cursor_visual_row_col(width);
        if cursor_vrow >= self.max_lines {
            self.max_lines
        } else if cursor_vrow >= rows {
            cursor_vrow + 1
        } else {
            rows
        }
    }

    /// The rows of text to draw into `area`, one below the other, beginning
    /// with the first row that is scrolled into view.
    pub fn render(&mut self, area: Rect) -> (drawn: Vec<DrawnRow>)
        requires
            old(self).wf(),
            area.fits(),
        ensures
            final(self)@ == (TextAreaState {
                width: area.width as nat,
                ..old(self)@
            }).following_cursor(),
            final(self).wf(),
            drawn@.len() == min(
                max(final(self)@.rows(area.width as nat).len() - final(self)@.scroll, 0),
                area.height as int,
            ),
            forall|i: int|
                0 <= i < drawn@.len() ==> {
                    &&& (#[trigger] drawn@[i]).x == area.x
                    &&& drawn@[i].y == area.y + i
                    &&& drawn@[i].text@ == final(self)@.rows(area.width as nat)[i + final(self)@.scroll]
                    &&& drawn@[i].width == area.width
                },
    {
        self.area_width = area.width;
        self.ensure_cursor_visible();

        let width = area.width as usize;
        let ghost w = area.width as nat;
        let ghost all = self@.lines();
        let ghost rows = self@.rows(w);
        let pieces = split(self.text.as_str(), '\n');
        assert(views(pieces@).len() == pieces@.len());
        let mut drawn: Vec<DrawnRow> = Vec::new();
        // Rows of the whole text that still lie above the view.
        let mut above: usize = self.scroll;
        let ghost done: int = 0;
        let mut i: usize = 0;
        while i < pieces.len() && drawn.len() < area.height as usize
            invariant
                i <= pieces.len(),
                views(pieces@) == all,
                width == w,
                w == area.width,
                area.fits(),
                drawn@.len() <= area.height,
                done == all_rows(all, i as int, w).len(),
                drawn@.len() < area.height ==> drawn@.len() == max(done - self.scroll, 0),
                above == max(self.scroll - done, 0),
                drawn@.len() <= max(done - self.scroll, 0),
                forall|k: int|
                    0 <= k < drawn@.len() ==> {
                        &&& (#[trigger] drawn@[k]).x == area.x
                        &&& drawn@[k].y == area.y + k
                        &&& self.scroll + k < all_rows(all, i as int, w).len()
                        &&& drawn@[k].text@ == all_rows(all, i as int, w)[self.scroll + k]
                        &&& drawn@[k].width == area.width
                    },
            decreases pieces.len() - i,
        {
            let chars = chars_of(pieces[i].as_str());
            let total = chars.len();
            let vrows = logical_line_vrows(total, width);
            assert(chars@ == all[i as int]);
            let ghost before = all_rows(all, i as int, w);
            let ghost next = all_rows(all, i + 1, w);
            assert(next == before + line_rows(chars@, w));
            let mut vr: usize = 0;
            while vr < vrows && drawn.len() < area.height as usize
                invariant
                    vr <= vrows,
                    vrows == line_vrows(chars@.len(), w),
                    total == chars.len(),
                    width == w,
                    w == area.width,
                    area.fits(),
                    before.len() == done,
                    next == before + line_rows(chars@, w),
                    drawn@.len() <= area.height,
                    drawn@.len() < area.height ==> drawn@.len() == max(
                        done + vr - self.scroll,
                        0,
                    ),
                    above == max(self.scroll - (done + vr), 0),
                    drawn@.len() <= max(done + vr - self.scroll, 0),
                    forall|k: int|
                        0 <= k < drawn@.len() ==> {
                            &&& (#[trigger] drawn@[k]).x == area.x
                            &&& drawn@[k].y == area.y + k
                            &&& self.scroll + k < next.len()
                            &&& drawn@[k].text@ == next[self.scroll + k]
                            &&& drawn@[k].width == area.width
                        },
                decreases vrows - vr,
            {
                if above > 0 {
                    above -= 1;
                } else {
                    proof {
                        lemma_row_start(chars@.len(), w, vr as nat);
                    }
                    let start: usize = vr * width;
                    let end: usize = if total - start < width {
                        total
                    } else {
                        start + width
                    };
                    let row = drawn.len();
                    assert(next[self.scroll + row] == line_row(chars@, w, vr as nat));
                    drawn.push(
                        DrawnRow {
                            x: area.x,
                            y: area.y + row as u16,
                            text: substring(&chars, start, end),
                            width: area.width,
                        },
                    );
                }
                vr += 1;
            }
            proof {
                done = done + line_vrows(chars@.len(), w);
            }
            i += 1;
        }
        proof {
            lemma_all_rows_prefix(all, i as int, all.len() as int, w);
        }
        drawn
    }

    /// Screen position `(col, row)` of the cursor relative to `area`.
    /// Returns `None` if the cursor is scrolled out of view.
    pub fn cursor_screen_pos(&self, area: Rect) -> (pos: Option<(u16, u16)>)
        requires
            self.wf(),
            self@.cursor_in_view() ==> area.x + self@.cursor_col() <= u16::MAX,
            self@.cursor_in_view() ==> area.y + self@.cursor_row() - self@.scroll <= u16::MAX,
        ensures
            match pos {
                Some(p) => {
                    &&& self@.cursor_in_view()
                    &&& p.0 == area.x + self@.cursor_col()
                    &&& p.1 == area.y + self@.cursor_row() - self@.scroll
                },
                None => !self@.cursor_in_view(),
            },
    {
        let (cursor_vrow, cursor_vcol) = self.cursor_visual_row_col(self.area_width);
        if cursor_vrow < self.scroll {
            return None;
        }
        let display_row = cursor_vrow - self.scroll;
        if display_row >= self.max_lines {
            return None;
        }
        Some((area.x + cursor_vcol as u16, area.y + display_row as u16))
    }

    // ── Public position query ────────────────────────────────────────────────

    /// Returns `(line_index, col_char_offset)` of the cursor.
    pub fn cursor_position(&self) -> (pos: (usize, usize))
        requires
            self.wf(),
        ensures
            pos.0 == self@.line(),
            pos.1 == self@.col(),
    {
        self.cursor_line_col()
    }

    // ── Private helpers ──────────────────────────────────────────────────────

    /// `(line_index, col_char_offset)` of the cursor.
    fn cursor_line_col(&self) -> (pos: (usize, usize))
        requires
            self.wf(),
        ensures
            pos.0 == self@.line(),
            pos.1 == self@.col(),
    {
        let v = chars_of(self.text.as_str());
        let before = substring(&v, 0, self.cursor);
        assert(before@ =~= self@.text.take(self@.cursor));
        let parts = split(before.as_str(), '\n');
        proof {
            lemma_line_start_total(before@);
            assert(views(parts@).len() == parts@.len());
        }
        let line = parts.len() - 1;
        (line, parts[line].as_str().unicode_len())
    }

    /// `(visual_row, col_within_visual_row)` for the current cursor when rendered at
    /// `at_width` chars wide.
    fn cursor_visual_row_col(&self, at_width: u16) -> (pos: (usize, usize))
        requires
            self.wf(),
        ensures
            pos.0 == (TextAreaState { width: at_width as nat, ..self@ }).cursor_row(),
            pos.1 == (TextAreaState { width: at_width as nat, ..self@ }).cursor_col(),
    {
        let width = at_width as usize;
        let ghost w = at_width as nat;
        let (cursor_lline, cursor_lcol) = self.cursor_line_col();
        let pieces = split(self.text.as_str(), '\n');
        let ghost all = self@.lines();
        proof {
            assert(views(pieces@).len() == pieces@.len());
            lemma_lines_before(self@.text, self@.cursor);
        }
        let mut vrow: usize = 0;
        let mut i: usize = 0;
        while i < cursor_lline
            invariant
                i <= cursor_lline < pieces.len(),
                views(pieces@) == all,
                width == w,
                vrow == rows_before(all, i as int, w),
                line_start(all, cursor_lline as int) <= self.cursor,
            decreases cursor_lline - i,
        {
            proof {
                lemma_rows_before_bound(all, i + 1, w);
                lemma_line_start_monotone(all, i + 1, cursor_lline as int);
                assert(all[i as int] == pieces@[i as int]@);
            }
            vrow += logical_line_vrows(pieces[i].as_str().unicode_len(), width);
            i += 1;
        }
        proof {
            lemma_rows_before_bound(all, cursor_lline as int, w);
        }
        if width == 0 {
            (vrow, cursor_lcol)
        } else {
            assert(cursor_lcol / width <= cursor_lcol) by {
                vstd::arithmetic::div_mod::lemma_div_is_ordered_by_denominator(
                    cursor_lcol as int,
                    1,
                    width as int,
                );
            }
            (vrow + cursor_lcol / width, cursor_lcol % width)
        }
    }

    /// Adjust `scroll` so the cursor visual row stays in `[scroll, scroll+max_lines)`.
    fn ensure_cursor_visible(&mut self)
        requires
            old(self).wf(),
        ensures
            final(self)@ == old(self)@.following_cursor(),
            final(self).wf(),
    {
        let (cursor_vrow, _) = self.cursor_visual_row_col(self.area_width);
        if cursor_vrow < self.scroll {
            self.scroll = cursor_vrow;
        } else if cursor_vrow - self.scroll >= self.max_lines {
            if self.max_lines == 0 {
                self.scroll = cursor_vrow.saturating_add(1);
            } else {
                self.scroll = cursor_vrow - (self.max_lines - 1);
            }
        }
    }

    /// Convert a `(line, col)` pair to a char index.
    fn line_col_to_char(&self, line: usize, col: usize) -> (idx: usize)
        requires
            line < self@.lines().len(),
        ensures
            idx == self@.index_of(line as int, col as int),
            idx <= self@.text.len(),
    {
        let pieces = split(self.text.as_str(), '\n');
        let ghost all = self@.lines();
        let total = self.text.as_str().unicode_len();
        proof {
            assert(views(pieces@).len() == pieces@.len());
            lemma_line_start_total(self@.text);
        }
        let mut char_idx: usize = 0;
        let mut i: usize = 0;
        while i < line
            invariant
                i <= line < pieces.len(),
                views(pieces@) == all,
                char_idx == line_start(all, i as int),
                total == self@.text.len(),
                line_start(all, all.len() - 1) + all.last().len() == total,
            decreases line - i,
        {
            proof {
                lemma_line_start_monotone(all, i + 1, all.len() - 1);
                assert(all[i as int] == pieces@[i as int]@);
            }
            char_idx += pieces[i].as_str().unicode_len() + 1;
            i += 1;
        }
        let len = pieces[line].as_str().unicode_len();
        proof {
            assert(all[line as int] == pieces@[line as int]@);
            if line + 1 < all.len() {
                lemma_line_start_monotone(all, line + 1, all.len() - 1);
            }
        }
        if col < len {
            char_idx + col
        } else {
            char_idx + len
        }
    }
}

/// The `max_lines` of the model is the field, which a caller may set.
pub proof fn law_max_lines_is_the_field(area: TextArea)
    ensures
        area@.max_lines == area.max_lines,
{
}

/// After every edit and every move the cursor's row is among the `max_lines`
/// rows that are shown, if any row is.
pub proof fn law_cursor_is_scrolled_into_view(st: TextAreaState)
    requires
        st.wf(),
        st.max_lines > 0,
    ensures
        st.following_cursor().cursor_in_view(),
{
}

/// The rows that are set apart hold the cursor's row.
pub proof fn law_needed_rows_hold_the_cursor(st: TextAreaState, width: nat)
    requires
        st.wf(),
        st.max_lines > 0,
    ensures
        ({
            let shown = (TextAreaState { width, ..st }).following_cursor();
            0 <= shown.cursor_row() - shown.scroll < st.rows_needed(width)
        }),
{
    lemma_row_is_nat(TextAreaState { width, ..st });
}

/// A character is taken out again by Backspace, and the cursor is where it was. At the
/// start of the text Backspace changes nothing. Of a `\n` behind a `\r` it takes both,
/// and characters from U+0300 on may join those before them.
pub proof fn law_backspace_undoes_insert(st: TextAreaState, c: char)
    requires
        st.wf(),
        forall|i: int| 0 <= i < st.cursor ==> stands_alone(#[trigger] st.text[i]),
        stands_alone(c),
        !(st.cursor > 0 && st.text[st.cursor - 1] == '\r' && c == '\n'),
    ensures
        ({
            let back = st.insert(seq![c]).following_cursor().deleted_before();
            &&& back.text == st.text
            &&& back.cursor == st.cursor
            &&& back.line() == st.line()
            &&& back.col() == st.col()
        }),
        st.cursor == 0 ==> st.deleted_before() == st,
{
    let typed = st.insert(seq![c]).following_cursor();
    let before = typed.text.take(typed.cursor);
    assert(before =~= st.text.take(st.cursor).push(c));
    lemma_last_cluster(before);
    let back = typed.deleted_before();
    assert(typed.cluster_before() == 1);
    assert(back.text =~= st.text);
}

/// Going left and deleting forwards takes out what Backspace takes out, unless the cursor
/// stands within a line end `\r\n`.
pub proof fn law_delete_after_left_is_backspace(st: TextAreaState)
    requires
        st.wf(),
        forall|i: int| 0 <= i < st.text.len() ==> stands_alone(#[trigger] st.text[i]),
        !st.splits_line_end(),
    ensures
        st.cursor > 0 ==> {
            let one = st.moved_left().deleted_after();
            let other = st.deleted_before();
            &&& one.text == other.text
            &&& one.cursor == other.cursor
        },
{
    if st.cursor > 0 {
        let before = st.text.take(st.cursor);
        assert forall|i: int| 0 <= i < before.len() implies stands_alone(
            #[trigger] before[i],
        ) by {
            assert(before[i] == st.text[i]);
        }
        lemma_last_cluster(before);
        let n = st.cluster_before();
        let left = st.moved_left();
        let after = left.text.skip(left.cursor);
        lemma_clusters(after);
        assert(after[0] == st.text[st.cursor - n]);
        if after.len() > 1 {
            assert(after[1] == st.text[st.cursor - n + 1]);
        }
        assert(left.cluster_after() == n);
        assert(left.deleted_after().text =~= st.deleted_before().text);
    }
}

/// Deleting forwards leaves the cursor and the text before it, whatever the text, and
/// changes nothing at its end.
pub proof fn law_delete_keeps_what_is_before(st: TextAreaState)
    requires
        st.wf(),
    ensures
        st.deleted_after().cursor == st.cursor,
        st.deleted_after().text.take(st.cursor) == st.text.take(st.cursor),
        st.cursor == st.text.len() ==> st.deleted_after() == st,
{
    assert(st.deleted_after().text.take(st.cursor) =~= st.text.take(st.cursor));
}

/// Going right and left again leads back to the cursor. At the start of the text going
/// left changes nothing, and at its end going right.
pub proof fn law_left_undoes_right(st: TextAreaState)
    requires
        st.wf(),
        forall|i: int| 0 <= i < st.text.len() ==> stands_alone(#[trigger] st.text[i]),
        !st.splits_line_end(),
    ensures
        st.cursor < st.text.len() ==> {
            let back = st.moved_right().moved_left();
            &&& back.text == st.text
            &&& back.cursor == st.cursor
        },
        st.cursor == 0 ==> st.moved_left() == st,
        st.cursor == st.text.len() ==> st.moved_right() == st,
{
    if st.cursor < st.text.len() {
        let after = st.text.skip(st.cursor);
        lemma_clusters(after);
        let n = st.cluster_after();
        assert(after[0] == st.text[st.cursor]);
        if after.len() > 1 {
            assert(after[1] == st.text[st.cursor + 1]);
        }
        let right = st.moved_right();
        let before = right.text.take(right.cursor);
        assert forall|i: int| 0 <= i < before.len() implies stands_alone(
            #[trigger] before[i],
        ) by {
            assert(before[i] == st.text[i]);
        }
        lemma_last_cluster(before);
    }
}

/// From the start of the text as many moves right as it has grapheme clusters lead to
/// its end, fewer do not, and none changes the text.
pub proof fn law_moves_right_count_clusters(st: TextAreaState, n: nat)
    requires
        st.wf(),
        st.cursor == 0,
    ensures
        ({
            let moved = st.moved_right_times(n);
            &&& moved.text == st.text
            &&& moved.cursor == st.text.len() <==> n >= graphemes_of(st.text).len()
        }),
{
    assert(st.text.skip(0) =~= st.text);
    lemma_moves_right(st, n);
}

proof fn lemma_moves_right(st: TextAreaState, n: nat)
    requires
        st.wf(),
    ensures
        ({
            let moved = st.moved_right_times(n);
            &&& moved.text == st.text
            &&& moved.cursor == st.text.len() <==> n >= graphemes_of(
                st.text.skip(st.cursor),
            ).len()
        }),
    decreases n,
{
    let after = st.text.skip(st.cursor);
    lemma_clusters(after);
    if n > 0 {
        let next = st.moved_right();
        if st.cursor < st.text.len() {
            let k = cluster_len(after) as int;
            assert(st.cluster_after() == k);
            assert(next.text.skip(next.cursor) =~= after.skip(k));
        }
        assert(next.wf()) by {
            lemma_row_is_nat(st.at(next.cursor));
        }
        lemma_moves_right(next, (n - 1) as nat);
    }
}

proof fn lemma_row_is_nat(st: TextAreaState)
    requires
        0 <= st.cursor <= st.text.len(),
    ensures
        st.cursor_row() >= 0,
{
    if st.width > 0 {
        vstd::arithmetic::div_mod::lemma_div_pos_is_pos(st.col(), st.width as int);
    }
}

/// A line and a column within it name one place in the text.
pub proof fn law_place_has_line_and_column(st: TextAreaState, line: int, col: int)
    requires
        0 <= line < st.lines().len(),
        0 <= col <= st.lines()[line].len(),
    ensures
        0 <= st.index_of(line, col) <= st.text.len(),
        st.at(st.index_of(line, col)).line() == line,
        st.at(st.index_of(line, col)).col() == col,
{
    let p = st.lines();
    let k = st.index_of(line, col);
    lemma_line_start_total(st.text);
    if line < p.len() - 1 {
        lemma_line_start_monotone(p, line + 1, p.len() - 1);
    }
    lemma_lines_before(st.text, k);
    let other = st.at(k).line();
    if other < line {
        lemma_line_start_monotone(p, other + 1, line);
    }
    if line < other {
        lemma_line_start_monotone(p, line + 1, other);
    }
}

/// The cursor's line and column lead back to the cursor.
pub proof fn law_line_and_column_name_the_cursor(st: TextAreaState)
    requires
        st.wf(),
    ensures
        0 <= st.line() < st.lines().len(),
        0 <= st.col() <= st.lines()[st.line()].len(),
        st.index_of(st.line(), st.col()) == st.cursor,
{
    lemma_lines_before(st.text, st.cursor);
}

/// Going down to a line that is long enough and up again leads back.
pub proof fn law_up_undoes_down(st: TextAreaState)
    requires
        st.wf(),
        st.line() + 1 < st.lines().len(),
        st.col() <= st.lines()[st.line() + 1].len(),
    ensures
        ({
            let down = st.at(st.index_of(st.line() + 1, st.col())).following_cursor();
            &&& down.line() == st.line() + 1
            &&& down.col() == st.col()
            &&& down.index_of(down.line() - 1, down.col()) == st.cursor
        }),
{
    lemma_lines_before(st.text, st.cursor);
    law_place_has_line_and_column(st, st.line() + 1, st.col());
}

/// Moving left by a word stops at the start of the text or before the first
/// character of a word that does not go on to the left.
pub proof fn law_word_left_stops_at_word_start(text: Seq<char>, from: int)
    requires
        0 <= from <= text.len(),
    ensures
        ({
            let to = back_over(text, back_over(text, from, false), true);
            &&& 0 <= to <= from
            &&& to > 0 ==> !word_char(text[to - 1]) && word_char(text[to])
        }),
{
    lemma_back_over(text, from, false);
    lemma_back_over(text, back_over(text, from, false), true);
}

/// Moving right by a word stops at the end of the text or at the first
/// character of the next word.
pub proof fn law_word_right_stops_at_word_start(text: Seq<char>, from: int)
    requires
        0 <= from <= text.len(),
    ensures
        ({
            let to = forward_over(text, forward_over(text, from, true), false);
            &&& from <= to <= text.len()
            &&& to < text.len() ==> word_char(text[to])
            &&& from < to < text.len() ==> !word_char(text[to - 1])
        }),
{
    lemma_forward_over(text, from, true);
    lemma_forward_over(text, forward_over(text, from, true), false);
}

proof fn lemma_back_over(text: Seq<char>, k: int, over_word: bool)
    requires
        0 <= k <= text.len(),
    ensures
        0 <= back_over(text, k, over_word) <= k,
        back_over(text, k, over_word) > 0 ==> word_char(text[back_over(text, k, over_word) - 1])
            != over_word,
        forall|i: int| back_over(text, k, over_word) <= i < k ==> word_char(text[i]) == over_word,
    decreases k,
{
    if 0 < k && word_char(text[k - 1]) == over_word {
        lemma_back_over(text, k - 1, over_word);
    }
}

proof fn lemma_forward_over(text: Seq<char>, k: int, over_word: bool)
    requires
        0 <= k <= text.len(),
    ensures
        k <= forward_over(text, k, over_word) <= text.len(),
        forward_over(text, k, over_word) < text.len() ==> word_char(
            text[forward_over(text, k, over_word)],
        ) != over_word,
        forall|i: int|
            k <= i < forward_over(text, k, over_word) ==> word_char(text[i]) == over_word,
    decreases text.len() - k,
{
    if k < text.len() && word_char(text[k]) == over_word {
        lemma_forward_over(text, k + 1, over_word);
    }
}

/// Wrapping a line loses nothing: its rows, none of them wider than the width,
/// make up the line.
pub proof fn law_rows_make_up_line(line: Seq<char>, width: nat)
    requires
        width > 0,
    ensures
        line_rows(line, width).flatten() == line,
        forall|r: int|
            0 <= r < line_rows(line, width).len() ==> (#[trigger] line_rows(line, width)[r]).len()
                <= width,
{
    let rows = line_vrows(line.len(), width);
    lemma_rows_from(line, width, 0);
    assert(Seq::new(rows, |i: int| line_row(line, width, (0 + i) as nat)) =~= line_rows(
        line,
        width,
    ));
    assert(line.skip(0) =~= line);
    assert forall|r: int| 0 <= r < rows implies (#[trigger] line_rows(line, width)[r]).len()
        <= width by {
        lemma_row_start(line.len(), width, r as nat);
    }
}

proof fn lemma_rows_from(line: Seq<char>, width: nat, r: nat)
    requires
        width > 0,
        r <= line_vrows(line.len(), width),
    ensures
        Seq::new(
            (line_vrows(line.len(), width) - r) as nat,
            |i: int| line_row(line, width, (r + i) as nat),
        ).flatten() == line.skip(min((r * width) as int, line.len() as int)),
    decreases line_vrows(line.len(), width) - r,
{
    let rows = line_vrows(line.len(), width);
    let from = Seq::new((rows - r) as nat, |i: int| line_row(line, width, (r + i) as nat));
    if r == rows {
        assert(rows * width >= line.len()) by (nonlinear_arith)
            requires
                width > 0,
                line.len() > 0 ==> rows == (line.len() + width - 1) as nat / width,
        ;
        assert(from =~= Seq::empty());
        assert(line.skip(min((r * width) as int, line.len() as int)) =~= Seq::empty());
    } else {
        lemma_row_start(line.len(), width, r);
        lemma_rows_from(line, width, r + 1);
        let rest = Seq::new(
            (rows - (r + 1)) as nat,
            |i: int| line_row(line, width, (r + 1 + i) as nat),
        );
        assert(from.drop_first() =~= rest);
        assert(from.first() == line_row(line, width, r));
        assert((r + 1) * width == r * width + width) by (nonlinear_arith);
        assert(from.flatten() =~= line.skip(min((r * width) as int, line.len() as int)));
    }
}

/// Going down leads one line further, to the same column or to the end of a shorter
/// line; from the last line it leads nowhere. The text stays as it is.
pub proof fn law_down_leads_to_the_next_line(st: TextAreaState)
    requires
        st.wf(),
    ensures
        st.moved_down().text == st.text,
        st.line() + 1 == st.lines().len() ==> st.moved_down() == st,
        st.line() + 1 < st.lines().len() ==> {
            &&& st.moved_down().line() == st.line() + 1
            &&& st.moved_down().col() == if st.col() <= st.lines()[st.line() + 1].len() {
                st.col()
            } else {
                st.lines()[st.line() + 1].len() as int
            }
        },
{
    lemma_lines_before(st.text, st.cursor);
    if st.line() + 1 < st.lines().len() {
        let len = st.lines()[st.line() + 1].len() as int;
        let col = min(st.col(), len);
        law_place_has_line_and_column(st, st.line() + 1, col);
        assert(st.index_of(st.line() + 1, col) == st.index_of(st.line() + 1, st.col()));
    }
}

/// Going up leads one line back, to the same column or to the end of a shorter line;
/// from the first line it leads nowhere. The text stays as it is.
pub proof fn law_up_leads_to_the_line_before(st: TextAreaState)
    requires
        st.wf(),
    ensures
        st.moved_up().text == st.text,
        st.line() == 0 ==> st.moved_up() == st,
        st.line() > 0 ==> {
            &&& st.moved_up().line() == st.line() - 1
            &&& st.moved_up().col() == if st.col() <= st.lines()[st.line() - 1].len() {
                st.col()
            } else {
                st.lines()[st.line() - 1].len() as int
            }
        },
{
    lemma_lines_before(st.text, st.cursor);
    if st.line() > 0 {
        let len = st.lines()[st.line() - 1].len() as int;
        let col = min(st.col(), len);
        law_place_has_line_and_column(st, st.line() - 1, col);
        assert(st.index_of(st.line() - 1, col) == st.index_of(st.line() - 1, st.col()));
    }
}

/// Going back by a word leads over what is between words and then over one word, to
/// where that word starts.
pub proof fn law_word_left_leads_over_one_word(st: TextAreaState)
    requires
        st.wf(),
    ensures
        st.moved_word_left().text == st.text,
        exists|m: int|
            {
                let to = st.moved_word_left().cursor;
                &&& 0 <= to <= m <= st.cursor
                &&& forall|i: int| m <= i < st.cursor ==> !word_char(#[trigger] st.text[i])
                &&& forall|i: int| to <= i < m ==> word_char(#[trigger] st.text[i])
                &&& to > 0 ==> to < m && !word_char(st.text[to - 1])
                &&& #[trigger] st.at(m).wf()
            },
{
    let m = back_over(st.text, st.cursor, false);
    lemma_back_over(st.text, st.cursor, false);
    lemma_back_over(st.text, m, true);
    assert(st.at(m).wf());
}

/// Going on by a word leads over the rest of the word at the cursor and then over what
/// is between words, to where the next word starts.
pub proof fn law_word_right_leads_over_one_word(st: TextAreaState)
    requires
        st.wf(),
    ensures
        st.moved_word_right().text == st.text,
        exists|m: int|
            {
                let to = st.moved_word_right().cursor;
                &&& st.cursor <= m <= to <= st.text.len()
                &&& forall|i: int| st.cursor <= i < m ==> word_char(#[trigger] st.text[i])
                &&& forall|i: int| m <= i < to ==> !word_char(#[trigger] st.text[i])
                &&& to < st.text.len() ==> m < to && word_char(st.text[to])
                &&& #[trigger] st.at(m).wf()
            },
{
    let m = forward_over(st.text, st.cursor, true);
    lemma_forward_over(st.text, st.cursor, true);
    lemma_forward_over(st.text, m, false);
    assert(st.at(m).wf());
}

/// What is typed stands where the cursor was, and the cursor stands behind it; all else
/// stays. A cleared area holds nothing.
pub proof fn law_typed_text_stands_at_the_cursor(
    st: TextAreaState,
    before: Seq<char>,
    after: Seq<char>,
    typed: Seq<char>,
)
    requires
        st.text == before + after,
        st.cursor == before.len(),
    ensures
        st.insert(typed).text == before + typed + after,
        st.insert(typed).cursor == before.len() + typed.len(),
        st.insert(typed).scroll == st.scroll && st.insert(typed).width == st.width,
        st.cleared().text.len() == 0 && st.cleared().cursor == 0 && st.cleared().scroll == 0,
{
    assert(st.text.take(st.cursor) =~= before);
    assert(st.text.skip(st.cursor) =~= after);
}

/// The view is scrolled by as little as brings the cursor's row into it: not at all
/// where it is there, and else so that it is the first row or the last.
pub proof fn law_scrolling_is_as_little_as_needed(st: TextAreaState)
    requires
        st.wf(),
        st.max_lines > 0,
    ensures
        ({
            let now = st.following_cursor();
            &&& now.text == st.text && now.cursor == st.cursor && now.width == st.width
            &&& now.max_lines == st.max_lines
            &&& st.cursor_in_view() ==> now.scroll == st.scroll
            &&& st.cursor_row() < st.scroll ==> now.scroll == st.cursor_row()
            &&& st.cursor_row() >= st.scroll + st.max_lines ==> now.scroll + st.max_lines
                == st.cursor_row() + 1
        }),
{
}

/// Every row of a wrapped line but its last is full, and the last one is not empty where
/// the line is not. A line takes one row at least.
pub proof fn law_rows_are_filled(line: Seq<char>, width: nat, r: int)
    requires
        width > 0,
        0 <= r < line_rows(line, width).len(),
    ensures
        r + 1 < line_rows(line, width).len() ==> line_rows(line, width)[r].len() == width,
        line.len() > 0 ==> line_rows(line, width)[r].len() > 0,
        line.len() == 0 ==> line_rows(line, width) == seq![Seq::<char>::empty()],
{
    let n = line_vrows(line.len(), width);
    lemma_row_start(line.len(), width, r as nat);
    if line.len() == 0 {
        assert(0 * width == 0) by (nonlinear_arith);
        assert(line_row(line, width, 0) =~= Seq::<char>::empty());
        assert(line_rows(line, width) =~= seq![Seq::<char>::empty()]);
    } else {
        assert(r * width < line.len()) by (nonlinear_arith)
            requires
                0 <= r < n,
                n == (line.len() + width - 1) as nat / width,
                width > 0,
        ;
        if r + 1 < n {
            assert(r * width + width <= line.len()) by (nonlinear_arith)
                requires
                    0 <= r,
                    r + 1 < n,
                    n == (line.len() + width - 1) as nat / width,
                    width > 0,
            ;
        }
    }
}

/// The rows of a text are those of its lines, one line after the other.
pub proof fn law_rows_of_a_text_are_those_of_its_lines(
    pieces: Seq<Seq<char>>,
    n: int,
    width: nat,
)
    requires
        0 <= n <= pieces.len(),
    ensures
        all_rows(pieces, n, width) == pieces.take(n).map_values(
            |line: Seq<char>| line_rows(line, width),
        ).flatten_alt(),
        rows_before(pieces, n, width) == all_rows(pieces, n, width).len(),
    decreases n,
{
    if n > 0 {
        law_rows_of_a_text_are_those_of_its_lines(pieces, n - 1, width);
        let all = pieces.take(n).map_values(|line: Seq<char>| line_rows(line, width));
        assert(all.drop_last() =~= pieces.take(n - 1).map_values(
            |line: Seq<char>| line_rows(line, width),
        ));
        assert(all.last() == line_rows(pieces[n - 1], width));
    }
}

/// The cursor stands below the rows of the lines before its own, as far on in its line
/// as characters come before it: a row holds as many as it is wide.
pub proof fn law_cursor_stands_in_its_row(st: TextAreaState)
    requires
        st.wf(),
    ensures
        ({
            let above = all_rows(st.lines(), st.line(), st.width).len() as int;
            &&& st.width == 0 ==> st.cursor_row() == above && st.cursor_col() == st.col()
            &&& st.width > 0 ==> 0 <= st.cursor_col() < st.width
            &&& st.width > 0 ==> (st.cursor_row() - above) * st.width + st.cursor_col() == st.col()
        }),
{
    lemma_lines_before(st.text, st.cursor);
    law_rows_of_a_text_are_those_of_its_lines(st.lines(), st.line(), st.width);
    if st.width > 0 {
        let c = st.col();
        let w = st.width as int;
        assert((c / w) * w + c % w == c && 0 <= c % w < w) by (nonlinear_arith)
            requires
                w > 0,
        ;
    }
}

/// As many rows are set apart as the text has, or as the cursor needs, where no more
/// than that are shown.
pub proof fn law_rows_set_apart_are_those_needed(st: TextAreaState, width: nat)
    requires
        st.wf(),
    ensures
        ({
            let n = st.rows_needed(width);
            let row = (TextAreaState { width, ..st }).cursor_row();
            &&& n <= st.max_lines
            &&& n < st.max_lines ==> st.rows(width).len() <= n && row < n
            &&& n == st.max_lines || n == st.rows(width).len() || n == row + 1
        }),
{
}

/// Of the ASCII characters the letters, the digits and the underscore make up words.
pub proof fn law_words_are_made_of_letters_and_digits(c: char)
    requires
        (c as u32) < 128,
    ensures
        word_char(c) <==> 'a' <= c <= 'z' || 'A' <= c <= 'Z' || '0' <= c <= '9' || c == '_',
{
}

} // verus!
