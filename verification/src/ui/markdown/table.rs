//! Tables: columns that fit a width, and cells wrapped to their columns.

use vstd::prelude::*;

use crate::ui::spans::{
    line_text, lines_view, one_span, single, Modifier, Role, Span, SpanView, Style,
};
use crate::text::{
    begins_with, chars_of, join, law_splitting_undoes_joining, lemma_join_split_on,
    lemma_split_on_len, lemma_unsplit, repeat, repeated, split, split_on, substring, views,
};

verus! {

/// A word cut into pieces of `width` characters; the last piece may be shorter.
pub open spec fn hard_split(word: Seq<char>, width: nat) -> Seq<Seq<char>>
    decreases word.len(),
{
    if width == 0 || word.len() <= width {
        seq![word]
    } else {
        seq![word.take(width as int)] + hard_split(word.skip(width as int), width)
    }
}

/// Lines made of `words`, each as long as fits into `width` columns. A word
/// that does not fit into any line begins a new one and is cut.
pub open spec fn wrap_words(words: Seq<Seq<char>>, width: nat) -> Seq<Seq<char>>
    decreases words.len(),
{
    if words.len() == 0 {
        seq![Seq::<char>::empty()]
    } else {
        let lines = wrap_words(words.drop_last(), width);
        let done = lines.drop_last();
        let line = lines.last();
        let word = words.last();
        if word.len() > width {
            (if line.len() > 0 {
                lines
            } else {
                done
            }) + hard_split(word, width)
        } else if line.len() == 0 {
            done.push(word)
        } else if line.len() + 1 + word.len() <= width {
            done.push(line + seq![' '] + word)
        } else {
            lines.push(word)
        }
    }
}

/// A cell's text wrapped to `width` columns.
pub open spec fn wrapped(s: Seq<char>, width: nat) -> Seq<Seq<char>> {
    if width == 0 {
        seq![Seq::<char>::empty()]
    } else {
        wrap_words(split_on(s, ' '), width)
    }
}

proof fn lemma_wrap_words_len(words: Seq<Seq<char>>, width: nat)
    ensures
        wrap_words(words, width).len() >= 1,
    decreases words.len(),
{
    if words.len() > 0 {
        lemma_wrap_words_len(words.drop_last(), width);
        lemma_hard_split_len(words.last(), width);
    }
}

proof fn lemma_hard_split_len(word: Seq<char>, width: nat)
    ensures
        hard_split(word, width).len() >= 1,
{
}

/// Word-wrap a plain table cell to `width` columns (counted in characters, to
/// match `align_cell`). Words longer than `width` are hard-split. Always returns
/// at least one (possibly empty) line.
pub fn wrap_text(s: &str, width: usize) -> (out: Vec<String>)
    ensures
        views(out@) == wrapped(s@, width as nat),
        out@.len() >= 1,
{
    let mut out: Vec<String> = Vec::new();
    let mut line = String::new();
    if width == 0 {
        out.push(line);
        assert(views(out@) =~= wrapped(s@, 0));
        return out;
    }
    let words = split(s, ' ');
    let ghost all = split_on(s@, ' ');
    let mut i: usize = 0;
    assert(views(words@).take(0) =~= Seq::empty());
    assert(views(out@).push(line@) =~= wrap_words(Seq::empty(), width as nat));
    while i < words.len()
        invariant
            i <= words.len(),
            width > 0,
            all == views(words@),
            views(out@).push(line@) == wrap_words(all.take(i as int), width as nat),
        decreases words.len() - i,
    {
        let word = words[i].as_str();
        let wlen = word.unicode_len();
        let line_len = line.as_str().unicode_len();
        let ghost lines = views(out@).push(line@);
        proof {
            assert(all.take(i + 1).drop_last() =~= all.take(i as int));
            assert(all.take(i + 1).last() == word@);
            assert(lines.drop_last() =~= views(out@));
        }
        if wlen > width {
            // Flush the current line, then hard-split the over-long word.
            if line_len > 0 {
                out.push(line);
                assert(views(out@) =~= lines);
            }
            line = split_long(word, width, &mut out);
        } else if line_len == 0 {
            line = word.to_string();
        } else if wlen < width && line_len <= width - wlen - 1 {
            line.push(' ');
            line.append(word);
            assert(line@ =~= lines.last() + seq![' '] + word@);
        } else {
            out.push(line);
            assert(views(out@) =~= lines);
            line = word.to_string();
        }
        i += 1;
    }
    assert(all.take(all.len() as int) =~= all);
    let ghost lines = views(out@).push(line@);
    out.push(line);
    assert(views(out@) =~= lines);
    out
}

/// Cuts a word into pieces of `width` characters: all but the last are added to
/// `out`, and the last is returned.
fn split_long(word: &str, width: usize, out: &mut Vec<String>) -> (rest: String)
    requires
        width > 0,
    ensures
        views(final(out)@).push(rest@) == views(old(out)@) + hard_split(word@, width as nat),
{
    let v = chars_of(word);
    let mut start: usize = 0;
    assert(v@.skip(0) =~= v@);
    while v.len() - start > width
        invariant
            width > 0,
            start <= v.len(),
            v@ == word@,
            views(out@) + hard_split(v@.skip(start as int), width as nat) == views(old(out)@)
                + hard_split(word@, width as nat),
        decreases v.len() - start,
    {
        let piece = substring(&v, start, start + width);
        let ghost rest = v@.skip(start as int);
        let ghost before = views(out@);
        assert(rest.take(width as int) =~= piece@);
        assert(rest.skip(width as int) =~= v@.skip(start + width));
        out.push(piece);
        assert(views(out@) =~= before.push(piece@));
        assert(before + hard_split(rest, width as nat) =~= views(out@) + hard_split(
            v@.skip(start + width),
            width as nat,
        ));
        start += width;
    }
    let rest = substring(&v, start, v.len());
    assert(rest@ =~= v@.skip(start as int));
    assert(views(out@).push(rest@) =~= views(out@) + hard_split(rest@, width as nat));
    rest
}

/// The characters of `s` other than spaces.
pub open spec fn without_spaces(s: Seq<char>) -> Seq<char> {
    s.filter(|c: char| c != ' ')
}

proof fn lemma_without_spaces_concat(a: Seq<char>, b: Seq<char>)
    ensures
        without_spaces(a + b) == without_spaces(a) + without_spaces(b),
{
    Seq::filter_distributes_over_add(a, b, |c: char| c != ' ');
}

proof fn lemma_without_spaces_of_space()
    ensures
        without_spaces(seq![' ']) == Seq::<char>::empty(),
        without_spaces(Seq::empty()) == Seq::<char>::empty(),
{
    reveal_with_fuel(Seq::filter, 2);
    assert(seq![' '].drop_last() =~= Seq::<char>::empty());
}

/// The characters of all `parts` other than spaces.
spec fn solid(parts: Seq<Seq<char>>) -> Seq<char>
    decreases parts.len(),
{
    if parts.len() == 0 {
        Seq::empty()
    } else {
        solid(parts.drop_last()) + without_spaces(parts.last())
    }
}

proof fn lemma_solid_join(parts: Seq<Seq<char>>)
    ensures
        without_spaces(join(parts, seq![' '])) == solid(parts),
    decreases parts.len(),
{
    lemma_without_spaces_of_space();
    if parts.len() == 1 {
        assert(parts.drop_last() =~= Seq::empty());
        assert(solid(parts.drop_last()) =~= Seq::empty());
        assert(solid(parts) =~= without_spaces(parts[0]));
    } else if parts.len() > 1 {
        lemma_solid_join(parts.drop_last());
        let before = join(parts.drop_last(), seq![' ']);
        lemma_without_spaces_concat(before + seq![' '], parts.last());
        lemma_without_spaces_concat(before, seq![' ']);
        assert(solid(parts) =~= without_spaces(join(parts, seq![' '])));
    }
}

proof fn lemma_solid_concat(a: Seq<Seq<char>>, b: Seq<Seq<char>>)
    ensures
        solid(a + b) == solid(a) + solid(b),
    decreases b.len(),
{
    if b.len() == 0 {
        assert(a + b =~= a);
        assert(solid(a + b) =~= solid(a) + solid(b));
    } else {
        lemma_solid_concat(a, b.drop_last());
        assert((a + b).drop_last() =~= a + b.drop_last());
        assert(solid(a + b) =~= solid(a) + solid(b));
    }
}

proof fn lemma_solid_one(part: Seq<char>)
    ensures
        solid(seq![part]) == without_spaces(part),
{
    assert(seq![part].drop_last() =~= Seq::empty());
    assert(solid(seq![part].drop_last()) =~= Seq::empty());
    assert(solid(seq![part]) =~= without_spaces(part));
}

proof fn lemma_solid_hard_split(word: Seq<char>, width: nat)
    ensures
        solid(hard_split(word, width)) == without_spaces(word),
    decreases word.len(),
{
    if width == 0 || word.len() <= width {
        lemma_solid_one(word);
    } else {
        let head = word.take(width as int);
        let tail = word.skip(width as int);
        lemma_solid_hard_split(tail, width);
        lemma_solid_concat(seq![head], hard_split(tail, width));
        lemma_solid_one(head);
        lemma_without_spaces_concat(head, tail);
        assert(head + tail =~= word);
    }
}

proof fn lemma_solid_wrap_words(words: Seq<Seq<char>>, width: nat)
    ensures
        solid(wrap_words(words, width)) == solid(words),
    decreases words.len(),
{
    lemma_without_spaces_of_space();
    if words.len() == 0 {
        lemma_solid_one(Seq::empty());
    } else {
        let lines = wrap_words(words.drop_last(), width);
        let done = lines.drop_last();
        let line = lines.last();
        let word = words.last();
        lemma_solid_wrap_words(words.drop_last(), width);
        lemma_wrap_words_len(words.drop_last(), width);
        assert(solid(lines) == solid(done) + without_spaces(line));
        if line.len() == 0 {
            assert(line =~= Seq::empty());
            assert(solid(done) =~= solid(lines));
        }
        if word.len() > width {
            lemma_solid_hard_split(word, width);
            lemma_solid_concat(lines, hard_split(word, width));
            lemma_solid_concat(done, hard_split(word, width));
        } else if line.len() == 0 {
            assert(done.push(word).drop_last() =~= done);
        } else if line.len() + 1 + word.len() <= width {
            let longer = line + seq![' '] + word;
            lemma_without_spaces_concat(line + seq![' '], word);
            lemma_without_spaces_concat(line, seq![' ']);
            assert(done.push(longer).drop_last() =~= done);
            assert(solid(done.push(longer)) =~= solid(words));
        } else {
            assert(lines.push(word).drop_last() =~= lines);
        }
    }
}

/// Wrapping moves line breaks and spaces only: put side by side, the lines hold
/// the characters of the text in their order.
pub proof fn law_wrapping_keeps_text(s: Seq<char>, width: nat)
    requires
        width > 0,
    ensures
        without_spaces(join(wrapped(s, width), seq![' '])) == without_spaces(s),
{
    lemma_solid_join(wrapped(s, width));
    lemma_solid_wrap_words(split_on(s, ' '), width);
    lemma_solid_join(split_on(s, ' '));
    lemma_join_split_on(s, ' ');
}

proof fn lemma_hard_split_fits(word: Seq<char>, width: nat)
    requires
        width > 0,
    ensures
        forall|i: int|
            0 <= i < hard_split(word, width).len() ==> (#[trigger] hard_split(word, width)[i]).len()
                <= width,
    decreases word.len(),
{
    if word.len() > width {
        let tail = hard_split(word.skip(width as int), width);
        lemma_hard_split_fits(word.skip(width as int), width);
        assert forall|i: int| 0 <= i < hard_split(word, width).len() implies (
        #[trigger] hard_split(word, width)[i]).len() <= width by {
            if i > 0 {
                assert(hard_split(word, width)[i] == tail[i - 1]);
            }
        }
    }
}

proof fn lemma_wrap_words_fits(words: Seq<Seq<char>>, width: nat)
    requires
        width > 0,
    ensures
        forall|i: int|
            0 <= i < wrap_words(words, width).len() ==> (#[trigger] wrap_words(words, width)[i]).len()
                <= width,
    decreases words.len(),
{
    if words.len() > 0 {
        lemma_wrap_words_fits(words.drop_last(), width);
        lemma_wrap_words_len(words.drop_last(), width);
        lemma_hard_split_fits(words.last(), width);
    }
}

/// No line of a wrapped cell is wider than the width, and there is always a
/// line.
pub proof fn law_wrapped_lines_fit(s: Seq<char>, width: nat)
    ensures
        wrapped(s, width).len() >= 1,
        forall|i: int|
            0 <= i < wrapped(s, width).len() ==> (#[trigger] wrapped(s, width)[i]).len() <= width,
{
    if width > 0 {
        lemma_wrap_words_len(split_on(s, ' '), width);
        lemma_wrap_words_fits(split_on(s, ' '), width);
    }
}

/// A text that fits on one line is not broken.
pub proof fn law_short_text_is_not_wrapped(s: Seq<char>, width: nat)
    requires
        s.len() <= width,
        !s.contains(' '),
        width > 0,
    ensures
        wrapped(s, width) == seq![s],
{
    lemma_no_separator(s, ' ');
    let words = split_on(s, ' ');
    assert(words.drop_last() =~= Seq::empty());
    let lines = wrap_words(words.drop_last(), width);
    assert(lines =~= seq![Seq::<char>::empty()]);
    assert(lines.drop_last().push(s) =~= seq![s]);
}

proof fn lemma_no_separator(s: Seq<char>, c: char)
    requires
        !s.contains(c),
    ensures
        split_on(s, c) == seq![s],
    decreases s.len(),
{
    if s.len() > 0 {
        let t = s.drop_last();
        assert(s.last() == s[s.len() - 1]);
        assert forall|i: int| 0 <= i < t.len() implies t[i] != c by {
            assert(t[i] == s[i]);
        }
        lemma_no_separator(t, c);
        assert(t.push(s.last()) =~= s);
        assert(split_on(s, c) =~= seq![s]);
    } else {
        assert(s =~= Seq::empty());
    }
}

/// How the text of a column is placed within it.
#[derive(Clone, Copy, Debug, PartialEq, Eq, Structural)]
pub enum Align {
    Unset,
    Left,
    Center,
    Right,
}

/// `text` filled up with spaces to `width` columns.
pub open spec fn aligned(text: Seq<char>, width: nat, align: Align) -> Seq<char> {
    if text.len() >= width {
        text
    } else {
        let pad = (width - text.len()) as nat;
        match align {
            Align::Right => repeat(' ', pad) + text,
            Align::Center => repeat(' ', pad / 2) + text + repeat(' ', (pad - pad / 2) as nat),
            _ => text + repeat(' ', pad),
        }
    }
}

pub fn align_cell(text: &str, width: usize, align: Align) -> (out: String)
    ensures
        out@ == aligned(text@, width as nat, align),
{
    let len = text.unicode_len();
    if len >= width {
        return text.to_string();
    }
    let pad = width - len;
    match align {
        Align::Right => {
            let mut out = repeated(' ', pad);
            out.append(text);
            out
        },
        Align::Center => {
            let left: usize = pad / 2;
            let right = pad - left;
            let mut out = repeated(' ', left);
            out.append(text);
            out.append(repeated(' ', right).as_str());
            out
        },
        _ => {
            let mut out = text.to_string();
            out.append(repeated(' ', pad).as_str());
            out
        },
    }
}

/// A row of a table.
#[derive(Debug)]
pub struct TableRow {
    pub cells: Vec<String>,
    pub is_head: bool,
}

/// What a row of a table holds.
pub ghost struct RowView {
    pub cells: Seq<Seq<char>>,
    pub is_head: bool,
}

impl View for TableRow {
    type V = RowView;

    open spec fn view(&self) -> RowView {
        RowView { cells: views(self.cells@), is_head: self.is_head }
    }
}

/// What rows of a table hold.
pub open spec fn rows_view(rows: Seq<TableRow>) -> Seq<RowView> {
    Seq::new(rows.len(), |i: int| rows[i]@)
}

/// The most cells that any row has.
pub open spec fn column_count(rows: Seq<RowView>) -> nat
    decreases rows.len(),
{
    if rows.len() == 0 {
        0
    } else {
        let before = column_count(rows.drop_last());
        if rows.last().cells.len() > before {
            rows.last().cells.len()
        } else {
            before
        }
    }
}

/// The length of the longest cell in column `col`, but at least one.
pub open spec fn natural_width(rows: Seq<RowView>, col: int) -> nat
    decreases rows.len(),
{
    if rows.len() == 0 {
        1
    } else {
        let before = natural_width(rows.drop_last(), col);
        let cells = rows.last().cells;
        if col < cells.len() && cells[col].len() > before {
            cells[col].len()
        } else {
            before
        }
    }
}

fn count_columns(rows: &Vec<TableRow>) -> (n: usize)
    ensures
        n == column_count(rows_view(rows@)),
{
    let ghost all = rows_view(rows@);
    let mut n: usize = 0;
    let mut i: usize = 0;
    while i < rows.len()
        invariant
            i <= rows.len(),
            all == rows_view(rows@),
            n == column_count(all.take(i as int)),
        decreases rows.len() - i,
    {
        assert(all.take(i + 1).drop_last() =~= all.take(i as int));
        if rows[i].cells.len() > n {
            n = rows[i].cells.len();
        }
        i += 1;
    }
    assert(all.take(all.len() as int) =~= all);
    n
}

fn natural_widths(rows: &Vec<TableRow>, num_cols: usize) -> (widths: Vec<usize>)
    ensures
        widths@.len() == num_cols,
        forall|c: int|
            0 <= c < num_cols ==> #[trigger] widths@[c] == natural_width(rows_view(rows@), c),
{
    let ghost all = rows_view(rows@);
    let mut widths: Vec<usize> = Vec::new();
    while widths.len() < num_cols
        invariant
            widths@.len() <= num_cols,
            all == rows_view(rows@),
            forall|c: int| 0 <= c < widths@.len() ==> #[trigger] widths@[c] == natural_width(all, c),
        decreases num_cols - widths.len(),
    {
        let c = widths.len();
        let mut width: usize = 1;
        let mut i: usize = 0;
        while i < rows.len()
            invariant
                i <= rows.len(),
                all == rows_view(rows@),
                width == natural_width(all.take(i as int), c as int),
            decreases rows.len() - i,
        {
            assert(all.take(i + 1).drop_last() =~= all.take(i as int));
            assert(all[i as int] == rows@[i as int]@);
            if c < rows[i].cells.len() {
                let len = rows[i].cells[c].as_str().unicode_len();
                if len > width {
                    width = len;
                }
            }
            i += 1;
        }
        assert(all.take(all.len() as int) =~= all);
        widths.push(width);
    }
    widths
}

/// The sum of the widths.
pub open spec fn total_width(widths: Seq<usize>) -> nat
    decreases widths.len(),
{
    if widths.len() == 0 {
        0
    } else {
        total_width(widths.drop_last()) + widths.last() as nat
    }
}

/// The last of the widest columns.
pub open spec fn widest(widths: Seq<usize>) -> int
    decreases widths.len(),
{
    if widths.len() <= 1 {
        0
    } else {
        let before = widest(widths.drop_last());
        if widths.last() >= widths[before] {
            widths.len() - 1
        } else {
            before
        }
    }
}

/// Columns are not made narrower than this.
pub const MIN_COL: usize = 3;

/// Narrows the last of the widest columns by one, as often as it takes for the
/// columns to fit into `target` together or to be no wider than `MIN_COL`.
pub open spec fn shrunk(widths: Seq<usize>, target: nat) -> Seq<usize>
    decreases total_width(widths),
{
    let w = widest(widths);
    if widths.len() == 0 || total_width(widths) <= target || widths[w] <= MIN_COL {
        widths
    } else {
        proof {
            lemma_widest(widths);
            lemma_total_width_update(widths, w, (widths[w] - 1) as usize);
        }
        shrunk(widths.update(w, (widths[w] - 1) as usize), target)
    }
}

pub proof fn lemma_widest(widths: Seq<usize>)
    requires
        widths.len() > 0,
    ensures
        0 <= widest(widths) < widths.len(),
        forall|i: int| 0 <= i < widths.len() ==> #[trigger] widths[i] <= widths[widest(widths)],
    decreases widths.len(),
{
    if widths.len() > 1 {
        let before = widths.drop_last();
        lemma_widest(before);
        assert forall|i: int| 0 <= i < widths.len() implies #[trigger] widths[i]
            <= widths[widest(widths)] by {
            if i < before.len() {
                assert(before[i] == widths[i]);
            }
        }
    }
}

pub proof fn lemma_total_width_update(widths: Seq<usize>, k: int, w: usize)
    requires
        0 <= k < widths.len(),
    ensures
        total_width(widths.update(k, w)) == total_width(widths) - widths[k] + w,
    decreases widths.len(),
{
    let next = widths.update(k, w);
    if k == widths.len() - 1 {
        assert(next.drop_last() =~= widths.drop_last());
    } else {
        lemma_total_width_update(widths.drop_last(), k, w);
        assert(next.drop_last() =~= widths.drop_last().update(k, w));
    }
}

/// The sum of the widths, or `usize::MAX` where it is larger.
fn saturating_total(widths: &Vec<usize>) -> (total: usize)
    ensures
        total_width(widths@) <= usize::MAX ==> total == total_width(widths@),
        total_width(widths@) > usize::MAX ==> total == usize::MAX,
{
    let mut total: usize = 0;
    let mut i: usize = 0;
    while i < widths.len()
        invariant
            i <= widths.len(),
            total_width(widths@.take(i as int)) <= usize::MAX ==> total == total_width(
                widths@.take(i as int),
            ),
            total_width(widths@.take(i as int)) > usize::MAX ==> total == usize::MAX,
        decreases widths.len() - i,
    {
        assert(widths@.take(i + 1).drop_last() =~= widths@.take(i as int));
        total = total.saturating_add(widths[i]);
        i += 1;
    }
    assert(widths@.take(widths@.len() as int) =~= widths@);
    total
}

fn widest_column(widths: &Vec<usize>) -> (w: usize)
    requires
        widths@.len() > 0,
    ensures
        w == widest(widths@),
        w < widths@.len(),
{
    let mut w: usize = 0;
    let mut i: usize = 1;
    while i < widths.len()
        invariant
            1 <= i <= widths.len(),
            w < i,
            w == widest(widths@.take(i as int)),
        decreases widths.len() - i,
    {
        let ghost next = widths@.take(i + 1);
        assert(next.drop_last() =~= widths@.take(i as int));
        assert(next[w as int] == widths@[w as int]);
        if widths[i] >= widths[w] {
            w = i;
        }
        i += 1;
    }
    assert(widths@.take(widths@.len() as int) =~= widths@);
    w
}

fn shrink(widths: &mut Vec<usize>, target: usize)
    requires
        target < usize::MAX,
    ensures
        final(widths)@ == shrunk(old(widths)@, target as nat),
{
    while widths.len() > 0 && saturating_total(widths) > target && widths[widest_column(widths)]
        > MIN_COL
        invariant
            target < usize::MAX,
            shrunk(widths@, target as nat) == shrunk(old(widths)@, target as nat),
        decreases total_width(widths@),
    {
        let idx = widest_column(widths);
        let widest = widths[idx];
        proof {
            lemma_total_width_update(widths@, idx as int, (widest - 1) as usize);
        }
        widths.set(idx, widest - 1);
    }
}

/// The columns of a table: as wide as their cells need, but narrowed where the
/// table would otherwise be wider than `max_width`. Every line of a table has
/// one column more than three for each column of the table besides the cells.
pub open spec fn column_widths(rows: Seq<RowView>, max_width: Option<usize>) -> Seq<usize> {
    let n = column_count(rows);
    let natural = Seq::new(n, |c: int| natural_width(rows, c) as usize);
    match max_width {
        Some(max_width) => shrunk(
            natural,
            if max_width >= 1 + 3 * n {
                (max_width - (1 + 3 * n)) as nat
            } else {
                0
            },
        ),
        None => natural,
    }
}

fn fit_columns(rows: &Vec<TableRow>, max_width: Option<usize>) -> (widths: Vec<usize>)
    ensures
        widths@ == column_widths(rows_view(rows@), max_width),
{
    let num_cols = count_columns(rows);
    let mut widths = natural_widths(rows, num_cols);
    assert(widths@ =~= column_widths(rows_view(rows@), None));
    if let Some(max_width) = max_width {
        let target = max_width.saturating_sub(1).saturating_sub(num_cols).saturating_sub(
            num_cols,
        ).saturating_sub(num_cols);
        shrink(&mut widths, target);
    }
    widths
}

/// The dashes and crossings of a frame line over the first `n` columns.
pub open spec fn frame_upto(widths: Seq<usize>, n: int, mid: char, right: char) -> Seq<char>
    decreases n,
{
    if n <= 0 {
        Seq::empty()
    } else {
        frame_upto(widths, n - 1, mid, right) + repeat('─', widths[n - 1] as nat + 2) + seq![
            if n < widths.len() {
                mid
            } else {
                right
            },
        ]
    }
}

/// A line of the frame.
pub open spec fn frame(widths: Seq<usize>, left: char, mid: char, right: char) -> Seq<char> {
    seq![left] + frame_upto(widths, widths.len() as int, mid, right)
}

fn border(widths: &Vec<usize>, left: char, mid: char, right: char) -> (line: String)
    ensures
        line@ == frame(widths@, left, mid, right),
{
    let mut line = String::new();
    line.push(left);
    let mut i: usize = 0;
    assert(line@ =~= seq![left] + frame_upto(widths@, 0, mid, right));
    while i < widths.len()
        invariant
            i <= widths.len(),
            line@ == seq![left] + frame_upto(widths@, i as int, mid, right),
        decreases widths.len() - i,
    {
        let ghost before = line@;
        line.append(repeated('─', widths[i]).as_str());
        line.push('─');
        line.push('─');
        let crossing = if widths.len() - i > 1 {
            mid
        } else {
            right
        };
        line.push(crossing);
        assert(line@ =~= before + repeat('─', widths@[i as int] as nat + 2) + seq![crossing]);
        i += 1;
        assert(line@ =~= seq![left] + frame_upto(widths@, i as int, mid, right));
    }
    line
}

/// The cell of a row in a column; a row may be short.
pub open spec fn cell_of(row: RowView, col: int) -> Seq<char> {
    if col < row.cells.len() {
        row.cells[col]
    } else {
        Seq::empty()
    }
}

/// The alignment of a column; there may be fewer alignments than columns.
pub open spec fn alignment_of(aligns: Seq<Align>, col: int) -> Align {
    if col < aligns.len() {
        aligns[col]
    } else {
        Align::Unset
    }
}

/// The cells of a row, each wrapped to its column.
pub open spec fn wrapped_cells(row: RowView, widths: Seq<usize>) -> Seq<Seq<Seq<char>>> {
    Seq::new(widths.len(), |c: int| wrapped(cell_of(row, c), widths[c] as nat))
}

/// The lines that the tallest of `cells` has.
pub open spec fn tallest(cells: Seq<Seq<Seq<char>>>) -> nat
    decreases cells.len(),
{
    if cells.len() == 0 {
        0
    } else {
        let before = tallest(cells.drop_last());
        if cells.last().len() > before {
            cells.last().len()
        } else {
            before
        }
    }
}

/// Line `k` of a cell; the cell may have fewer lines.
pub open spec fn cell_line(cell: Seq<Seq<char>>, k: int) -> Seq<char> {
    if k < cell.len() {
        cell[k]
    } else {
        Seq::empty()
    }
}

/// Line `k` of a row over the first `n` columns.
pub open spec fn row_upto(
    cells: Seq<Seq<Seq<char>>>,
    widths: Seq<usize>,
    aligns: Seq<Align>,
    k: int,
    n: int,
) -> Seq<char>
    decreases n,
{
    if n <= 0 {
        seq!['│']
    } else {
        row_upto(cells, widths, aligns, k, n - 1) + seq![' '] + aligned(
            cell_line(cells[n - 1], k),
            widths[n - 1] as nat,
            alignment_of(aligns, n - 1),
        ) + seq![' ', '│']
    }
}

/// The style of a row's text.
pub open spec fn row_style(row: RowView) -> Style {
    Style {
        role: Role::Text,
        modifier: if row.is_head {
            Modifier::Bold
        } else {
            Modifier::Regular
        },
    }
}

/// The lines of a row: as many as its tallest cell has, or one where the table
/// has no column.
pub open spec fn row_lines(row: RowView, widths: Seq<usize>, aligns: Seq<Align>) -> Seq<
    Seq<SpanView>,
> {
    let cells = wrapped_cells(row, widths);
    let height = if widths.len() == 0 {
        1
    } else {
        tallest(cells)
    };
    Seq::new(
        height,
        |k: int|
            one_span(row_upto(cells, widths, aligns, k, widths.len() as int), row_style(row)),
    )
}

/// A frame line as styled text.
pub open spec fn frame_line(widths: Seq<usize>, left: char, mid: char, right: char) -> Seq<
    SpanView,
> {
    one_span(frame(widths, left, mid, right), Style::of(Role::Text))
}

/// The lines of the first `n` rows with the frame above them and between them,
/// and below the last.
pub open spec fn rows_upto(
    rows: Seq<RowView>,
    widths: Seq<usize>,
    aligns: Seq<Align>,
    n: int,
) -> Seq<Seq<SpanView>>
    decreases n,
{
    if n <= 0 {
        seq![frame_line(widths, '┌', '┬', '┐')]
    } else {
        rows_upto(rows, widths, aligns, n - 1) + row_lines(rows[n - 1], widths, aligns) + seq![
            if n == rows.len() {
                frame_line(widths, '└', '┴', '┘')
            } else {
                frame_line(widths, '├', '┼', '┤')
            },
        ]
    }
}

/// The lines of a table, and an empty line below it.
pub open spec fn table(rows: Seq<RowView>, aligns: Seq<Align>, max_width: Option<usize>) -> Seq<
    Seq<SpanView>,
> {
    rows_upto(rows, column_widths(rows, max_width), aligns, rows.len() as int).push(Seq::empty())
}

/// The views of the wrapped cells of a row.
spec fn cells_view(cells: Seq<Vec<String>>) -> Seq<Seq<Seq<char>>> {
    Seq::new(cells.len(), |c: int| views(cells[c]@))
}

fn wrap_row(row: &TableRow, widths: &Vec<usize>) -> (cells: Vec<Vec<String>>)
    ensures
        cells_view(cells@) == wrapped_cells(row@, widths@),
{
    let mut cells: Vec<Vec<String>> = Vec::new();
    while cells.len() < widths.len()
        invariant
            cells@.len() <= widths@.len(),
            forall|c: int|
                0 <= c < cells@.len() ==> views(#[trigger] cells@[c]@) == wrapped(
                    cell_of(row@, c),
                    widths@[c] as nat,
                ),
        decreases widths.len() - cells.len(),
    {
        let c = cells.len();
        let cell = if c < row.cells.len() {
            wrap_text(row.cells[c].as_str(), widths[c])
        } else {
            proof {
                reveal_strlit("");
                assert(""@ =~= Seq::<char>::empty());
            }
            wrap_text("", widths[c])
        };
        cells.push(cell);
    }
    assert(cells_view(cells@) =~= wrapped_cells(row@, widths@));
    cells
}

fn row_height(cells: &Vec<Vec<String>>) -> (height: usize)
    ensures
        height == if cells@.len() == 0 {
            1
        } else {
            tallest(cells_view(cells@))
        },
{
    if cells.len() == 0 {
        return 1;
    }
    let ghost all = cells_view(cells@);
    let mut height: usize = 0;
    let mut i: usize = 0;
    while i < cells.len()
        invariant
            i <= cells.len(),
            all == cells_view(cells@),
            height == tallest(all.take(i as int)),
        decreases cells.len() - i,
    {
        assert(all.take(i + 1).drop_last() =~= all.take(i as int));
        assert(all[i as int].len() == cells@[i as int]@.len());
        if cells[i].len() > height {
            height = cells[i].len();
        }
        i += 1;
    }
    assert(all.take(all.len() as int) =~= all);
    height
}

fn row_line(cells: &Vec<Vec<String>>, widths: &Vec<usize>, aligns: &Vec<Align>, k: usize) -> (line:
    String)
    requires
        cells@.len() == widths@.len(),
    ensures
        line@ == row_upto(cells_view(cells@), widths@, aligns@, k as int, widths@.len() as int),
{
    let ghost all = cells_view(cells@);
    let mut line = String::new();
    line.push('│');
    assert(line@ =~= seq!['│']);
    let mut i: usize = 0;
    while i < widths.len()
        invariant
            i <= widths.len(),
            cells@.len() == widths@.len(),
            all == cells_view(cells@),
            line@ == row_upto(all, widths@, aligns@, k as int, i as int),
        decreases widths.len() - i,
    {
        let align = if i < aligns.len() {
            aligns[i]
        } else {
            Align::Unset
        };
        let ghost before = line@;
        let ghost text = cell_line(all[i as int], k as int);
        assert(all[i as int] == views(cells@[i as int]@));
        let piece = if k < cells[i].len() {
            align_cell(cells[i][k].as_str(), widths[i], align)
        } else {
            proof {
                reveal_strlit("");
                assert(""@ =~= Seq::<char>::empty());
            }
            align_cell("", widths[i], align)
        };
        line.push(' ');
        line.append(piece.as_str());
        line.push(' ');
        line.push('│');
        assert(line@ =~= before + seq![' '] + aligned(text, widths@[i as int] as nat, align) + seq![
            ' ',
            '│',
        ]);
        i += 1;
    }
    line
}

/// Lays out a table. Columns are narrowed, and the text of their cells wrapped,
/// where the table would otherwise be wider than `max_width`.
pub fn table_lines(
    rows: &Vec<TableRow>,
    aligns: &Vec<Align>,
    max_width: Option<usize>,
) -> (lines: Vec<Vec<Span>>)
    ensures
        lines_view(lines@) == table(rows_view(rows@), aligns@, max_width),
{
    let widths = fit_columns(rows, max_width);
    let ghost all = rows_view(rows@);
    let mut lines: Vec<Vec<Span>> = Vec::new();
    lines.push(single(border(&widths, '┌', '┬', '┐'), Style::new(Role::Text)));
    assert(lines_view(lines@) =~= rows_upto(all, widths@, aligns@, 0));
    let mut r: usize = 0;
    while r < rows.len()
        invariant
            r <= rows.len(),
            all == rows_view(rows@),
            lines_view(lines@) == rows_upto(all, widths@, aligns@, r as int),
        decreases rows.len() - r,
    {
        // Wrap every cell to its column width; the row spans as many physical
        // lines as the tallest wrapped cell.
        let row = &rows[r];
        let cells = wrap_row(row, &widths);
        let height = row_height(&cells);
        let modifier = if row.is_head {
            Modifier::Bold
        } else {
            Modifier::Regular
        };
        let style = Style::with(Role::Text, modifier);
        let ghost before = lines_view(lines@);
        let ghost these = row_lines(all[r as int], widths@, aligns@);
        assert(cells@.len() == cells_view(cells@).len());
        assert(before =~= before + these.take(0));
        let mut k: usize = 0;
        while k < height
            invariant
                k <= height,
                height == these.len(),
                cells@.len() == widths@.len(),
                r < rows@.len(),
                all[r as int] == rows@[r as int]@,
                style == row_style(all[r as int]),
                cells_view(cells@) == wrapped_cells(all[r as int], widths@),
                these == row_lines(all[r as int], widths@, aligns@),
                lines_view(lines@) == before + these.take(k as int),
            decreases height - k,
        {
            let ghost so_far = lines_view(lines@);
            lines.push(single(row_line(&cells, &widths, aligns, k), style));
            assert(lines_view(lines@) =~= so_far.push(these[k as int]));
            assert(these.take(k + 1) =~= these.take(k as int).push(these[k as int]));
            assert(lines_view(lines@) =~= before + these.take(k + 1));
            k += 1;
        }
        assert(these.take(these.len() as int) =~= these);
        let ghost so_far = lines_view(lines@);
        if r + 1 == rows.len() {
            lines.push(single(border(&widths, '└', '┴', '┘'), Style::new(Role::Text)));
        } else {
            lines.push(single(border(&widths, '├', '┼', '┤'), Style::new(Role::Text)));
        }
        r += 1;
        assert(lines_view(lines@) =~= so_far.push(lines_view(lines@).last()));
        assert(lines_view(lines@) =~= rows_upto(all, widths@, aligns@, r as int));
    }
    let ghost so_far = lines_view(lines@);
    lines.push(Vec::new());
    assert(lines_view(lines@).last() =~= Seq::empty());
    assert(lines_view(lines@) =~= so_far.push(Seq::empty()));
    lines
}

proof fn lemma_shrunk(widths: Seq<usize>, target: nat)
    ensures
        shrunk(widths, target).len() == widths.len(),
        forall|i: int|
            0 <= i < widths.len() ==> {
                &&& #[trigger] shrunk(widths, target)[i] <= widths[i]
                &&& shrunk(widths, target)[i] >= widths[i] || shrunk(widths, target)[i] >= MIN_COL
            },
        total_width(shrunk(widths, target)) <= target || forall|i: int|
            0 <= i < widths.len() ==> #[trigger] shrunk(widths, target)[i] <= MIN_COL,
    decreases total_width(widths),
{
    if widths.len() > 0 {
        let w = widest(widths);
        lemma_widest(widths);
        if total_width(widths) > target && widths[w] > MIN_COL {
            let next = widths.update(w, (widths[w] - 1) as usize);
            lemma_total_width_update(widths, w, (widths[w] - 1) as usize);
            lemma_shrunk(next, target);
        }
    }
}

/// Narrowing columns widens none, takes none below `MIN_COL` that was above it,
/// and stops only where the columns fit or none is wider than `MIN_COL`.
pub proof fn law_shrinking_stops_in_time(widths: Seq<usize>, target: nat)
    ensures
        shrunk(widths, target).len() == widths.len(),
        forall|i: int|
            0 <= i < widths.len() ==> {
                &&& #[trigger] shrunk(widths, target)[i] <= widths[i]
                &&& shrunk(widths, target)[i] >= widths[i] || shrunk(widths, target)[i] >= MIN_COL
            },
        total_width(shrunk(widths, target)) <= target || forall|i: int|
            0 <= i < widths.len() ==> #[trigger] shrunk(widths, target)[i] <= MIN_COL,
{
    lemma_shrunk(widths, target);
}

proof fn lemma_total_width_bound(widths: Seq<usize>, each: nat)
    requires
        forall|i: int| 0 <= i < widths.len() ==> #[trigger] widths[i] <= each,
    ensures
        total_width(widths) <= each * widths.len(),
    decreases widths.len(),
{
    if widths.len() > 0 {
        let before = widths.drop_last();
        assert forall|i: int| 0 <= i < before.len() implies #[trigger] before[i] <= each by {
            assert(before[i] == widths[i]);
        }
        lemma_total_width_bound(before, each);
        assert(each * before.len() + each == each * widths.len()) by (nonlinear_arith)
            requires
                before.len() + 1 == widths.len(),
        ;
    }
}

/// How many columns every line of a table takes.
pub open spec fn table_width(widths: Seq<usize>) -> nat {
    1 + total_width(widths) + 3 * widths.len()
}

proof fn lemma_frame_width(widths: Seq<usize>, n: int, mid: char, right: char)
    requires
        0 <= n <= widths.len(),
    ensures
        frame_upto(widths, n, mid, right).len() == total_width(widths.take(n)) + 3 * n,
    decreases n,
{
    if n > 0 {
        lemma_frame_width(widths, n - 1, mid, right);
        assert(widths.take(n).drop_last() =~= widths.take(n - 1));
    } else {
        assert(widths.take(n) =~= Seq::empty());
    }
}

proof fn lemma_row_width(
    row: RowView,
    widths: Seq<usize>,
    aligns: Seq<Align>,
    k: int,
    n: int,
)
    requires
        0 <= n <= widths.len(),
        0 <= k,
    ensures
        row_upto(wrapped_cells(row, widths), widths, aligns, k, n).len() == 1 + total_width(
            widths.take(n),
        ) + 3 * n,
    decreases n,
{
    if n > 0 {
        lemma_row_width(row, widths, aligns, k, n - 1);
        assert(widths.take(n).drop_last() =~= widths.take(n - 1));
        law_wrapped_lines_fit(cell_of(row, n - 1), widths[n - 1] as nat);
        let line = cell_line(wrapped_cells(row, widths)[n - 1], k);
        assert(line.len() <= widths[n - 1]);
        assert(aligned(line, widths[n - 1] as nat, alignment_of(aligns, n - 1)).len()
            == widths[n - 1]);
    } else {
        assert(widths.take(n) =~= Seq::empty());
    }
}

proof fn lemma_one_span_text(content: Seq<char>, style: Style)
    ensures
        line_text(one_span(content, style)) == content,
{
    let line = one_span(content, style);
    assert(line.drop_last() =~= Seq::empty());
    assert(line_text(line.drop_last()) =~= Seq::empty());
    assert(line_text(line) =~= content);
}

proof fn lemma_rows_width(rows: Seq<RowView>, widths: Seq<usize>, aligns: Seq<Align>, n: int)
    requires
        0 <= n <= rows.len(),
    ensures
        forall|i: int|
            0 <= i < rows_upto(rows, widths, aligns, n).len() ==> line_text(
                #[trigger] rows_upto(rows, widths, aligns, n)[i],
            ).len() == table_width(widths),
    decreases n,
{
    assert forall|left: char, mid: char, right: char|
        line_text(#[trigger] frame_line(widths, left, mid, right)).len() == table_width(widths) by {
        lemma_frame_width(widths, widths.len() as int, mid, right);
        assert(widths.take(widths.len() as int) =~= widths);
        lemma_one_span_text(frame(widths, left, mid, right), Style::of(Role::Text));
    }
    let lines = rows_upto(rows, widths, aligns, n);
    if n <= 0 {
        assert(lines =~= seq![frame_line(widths, '┌', '┬', '┐')]);
    } else {
        lemma_rows_width(rows, widths, aligns, n - 1);
        let before = rows_upto(rows, widths, aligns, n - 1);
        let row = rows[n - 1];
        let these = row_lines(row, widths, aligns);
        assert forall|k: int| 0 <= k < these.len() implies line_text(#[trigger] these[k]).len()
            == table_width(widths) by {
            lemma_row_width(row, widths, aligns, k, widths.len() as int);
            assert(widths.take(widths.len() as int) =~= widths);
            lemma_one_span_text(
                row_upto(
                    wrapped_cells(row, widths),
                    widths,
                    aligns,
                    k,
                    widths.len() as int,
                ),
                row_style(row),
            );
        }
        assert forall|i: int| 0 <= i < lines.len() implies line_text(#[trigger] lines[i]).len()
            == table_width(widths) by {
            if i < before.len() {
                assert(lines[i] == before[i]);
            } else if i < before.len() + these.len() {
                assert(lines[i] == these[i - before.len()]);
            }
        }
    }
}

/// All lines of a table are equally wide, but for the empty one below it.
pub proof fn law_table_lines_are_equally_wide(
    rows: Seq<RowView>,
    aligns: Seq<Align>,
    max_width: Option<usize>,
)
    ensures
        forall|i: int|
            0 <= i < table(rows, aligns, max_width).len() - 1 ==> line_text(
                #[trigger] table(rows, aligns, max_width)[i],
            ).len() == table_width(column_widths(rows, max_width)),
        table(rows, aligns, max_width).last() == Seq::<SpanView>::empty(),
{
    lemma_rows_width(rows, column_widths(rows, max_width), aligns, rows.len() as int);
}

/// A table fits into the width it is limited to, if that leaves room for
/// `MIN_COL` characters in each column.
pub proof fn law_limited_table_fits(rows: Seq<RowView>, aligns: Seq<Align>, max_width: usize)
    requires
        max_width >= 1 + (3 + MIN_COL) * column_count(rows),
    ensures
        forall|i: int|
            0 <= i < table(rows, aligns, Some(max_width)).len() ==> line_text(
                #[trigger] table(rows, aligns, Some(max_width))[i],
            ).len() <= max_width,
{
    let n = column_count(rows);
    let natural = Seq::new(n, |c: int| natural_width(rows, c) as usize);
    let target = (max_width - (1 + 3 * n)) as nat;
    let widths = column_widths(rows, Some(max_width));
    assert((3 + MIN_COL) * n == 6 * n) by (nonlinear_arith);
    assert(widths == shrunk(natural, target));
    lemma_shrunk(natural, target);
    if total_width(widths) > target {
        lemma_total_width_bound(widths, MIN_COL as nat);
    }
    assert(table_width(widths) <= max_width);
    let lines = table(rows, aligns, Some(max_width));
    law_table_lines_are_equally_wide(rows, aligns, Some(max_width));
    assert forall|i: int| 0 <= i < lines.len() implies line_text(#[trigger] lines[i]).len()
        <= max_width by {
        if i == lines.len() - 1 {
            assert(line_text(lines[i]) =~= Seq::empty());
        }
    }
}

/// A limit does not change a table that is narrow enough without it.
pub proof fn law_limit_keeps_narrow_table(
    rows: Seq<RowView>,
    aligns: Seq<Align>,
    max_width: usize,
)
    requires
        table_width(column_widths(rows, None)) <= max_width,
    ensures
        table(rows, aligns, Some(max_width)) == table(rows, aligns, None),
{
}

proof fn lemma_fitting_words(words: Seq<Seq<char>>, width: nat)
    requires
        words.len() > 0,
        join(words, seq![' ']).len() <= width,
    ensures
        wrap_words(words, width).len() == 1,
        wrap_words(words, width)[0].len() <= join(words, seq![' ']).len(),
    decreases words.len(),
{
    if words.len() == 1 {
        assert(words.drop_last() =~= Seq::empty());
        assert(wrap_words(words.drop_last(), width) =~= seq![Seq::<char>::empty()]);
    } else {
        lemma_fitting_words(words.drop_last(), width);
    }
}

proof fn lemma_natural_width(rows: Seq<RowView>, r: int, c: int)
    requires
        0 <= r < rows.len(),
        0 <= c,
    ensures
        cell_of(rows[r], c).len() <= natural_width(rows, c),
        natural_width(rows, c) >= 1,
    decreases rows.len(),
{
    if r < rows.len() - 1 {
        lemma_natural_width(rows.drop_last(), r, c);
    } else if rows.len() > 1 {
        lemma_natural_width(rows.drop_last(), r - 1, c);
    } else {
        assert(rows.drop_last() =~= Seq::empty());
        assert(natural_width(rows.drop_last(), c) == 1);
    }
}

/// Without a limit no cell is wrapped.
pub proof fn law_unlimited_table_does_not_wrap(rows: Seq<RowView>, r: int, c: int)
    requires
        0 <= r < rows.len(),
        0 <= c,
    ensures
        wrapped(cell_of(rows[r], c), natural_width(rows, c)).len() == 1,
{
    let cell = cell_of(rows[r], c);
    lemma_natural_width(rows, r, c);
    lemma_split_on_len(cell, ' ');
    lemma_join_split_on(cell, ' ');
    lemma_fitting_words(split_on(cell, ' '), natural_width(rows, c));
}

/// A cell that is aligned keeps its text and has spaces around it up to the width of its
/// column: before it where it is aligned to the right, on both sides where it is centered,
/// the odd one behind it, and else behind it.
pub proof fn law_aligned_cell_fills_its_column(text: Seq<char>, width: nat, align: Align)
    ensures
        exists|before: Seq<char>, after: Seq<char>|
            {
                &&& aligned(text, width, align) == #[trigger] (before + text + after)
                &&& forall|i: int| 0 <= i < before.len() ==> before[i] == ' '
                &&& forall|i: int| 0 <= i < after.len() ==> after[i] == ' '
                &&& before.len() + after.len() == if text.len() < width {
                    width - text.len()
                } else {
                    0
                }
                &&& align == Align::Right ==> after.len() == 0
                &&& align == Align::Center ==> before.len() <= after.len() <= before.len() + 1
                &&& align == Align::Left || align == Align::Unset ==> before.len() == 0
            },
{
    let pad: nat = if text.len() < width {
        (width - text.len()) as nat
    } else {
        0
    };
    let (before, after): (nat, nat) = match align {
        Align::Right => (pad, 0),
        Align::Center => (pad / 2, (pad - pad / 2) as nat),
        _ => (0, pad),
    };
    assert(aligned(text, width, align) =~= repeat(' ', before) + text + repeat(' ', after));
}

/// A table has as many columns as its longest row has cells, and a column is as wide as its
/// longest cell, but at least one.
pub proof fn law_columns_have_room_for_every_cell(rows: Seq<RowView>, col: int)
    requires
        0 <= col,
    ensures
        forall|r: int|
            0 <= r < rows.len() ==> (#[trigger] rows[r]).cells.len() <= column_count(rows),
        rows.len() > 0 ==> exists|r: int|
            0 <= r < rows.len() && (#[trigger] rows[r]).cells.len() == column_count(rows),
        rows.len() == 0 ==> column_count(rows) == 0,
        natural_width(rows, col) >= 1,
        forall|r: int|
            0 <= r < rows.len() && col < rows[r].cells.len() ==> (#[trigger] rows[r]).cells[col].len()
                <= natural_width(rows, col),
        natural_width(rows, col) == 1 || exists|r: int|
            0 <= r < rows.len() && col < rows[r].cells.len() && (#[trigger] rows[r]).cells[col].len()
                == natural_width(rows, col),
    decreases rows.len(),
{
    if rows.len() > 0 {
        let d = rows.drop_last();
        let n = d.len() as int;
        law_columns_have_room_for_every_cell(d, col);
        assert(rows[n] == rows.last());
        assert forall|r: int| 0 <= r < rows.len() implies (#[trigger] rows[r]).cells.len()
            <= column_count(rows) by {
            if r < n {
                assert(d[r] == rows[r]);
            }
        }
        assert forall|r: int| 0 <= r < rows.len() && col < rows[r].cells.len() implies (
        #[trigger] rows[r]).cells[col].len() <= natural_width(rows, col) by {
            if r < n {
                assert(d[r] == rows[r]);
            }
        }
        if n > 0 {
            let r = choose|r: int|
                0 <= r < d.len() && (#[trigger] d[r]).cells.len() == column_count(d);
            assert(rows[r] == d[r]);
        }
        if natural_width(d, col) != 1 {
            let r = choose|r: int|
                0 <= r < d.len() && col < d[r].cells.len() && (#[trigger] d[r]).cells[col].len()
                    == natural_width(d, col);
            assert(rows[r] == d[r]);
        }
    }
}

/// The columns up to column `c` of a line of a table: their widths, and three for each.
proof fn lemma_row_upto_len(
    cells: Seq<Seq<Seq<char>>>,
    widths: Seq<usize>,
    aligns: Seq<Align>,
    k: int,
    n: int,
)
    requires
        0 <= n <= widths.len(),
        cells.len() == widths.len(),
        0 <= k,
        forall|c: int|
            0 <= c < widths.len() ==> cell_line(#[trigger] cells[c], k).len() <= widths[c],
    ensures
        row_upto(cells, widths, aligns, k, n).len() == 1 + 3 * n + total_width(widths.take(n)),
    decreases n,
{
    if n > 0 {
        lemma_row_upto_len(cells, widths, aligns, k, n - 1);
        assert(cell_line(cells[n - 1], k).len() <= widths[n - 1]);
        assert(widths.take(n).drop_last() =~= widths.take(n - 1));
    } else {
        assert(widths.take(0) =~= Seq::empty());
    }
}

proof fn lemma_row_starts(
    cells: Seq<Seq<Seq<char>>>,
    widths: Seq<usize>,
    aligns: Seq<Align>,
    k: int,
    m: int,
    n: int,
)
    requires
        0 <= m <= n,
    ensures
        row_upto(cells, widths, aligns, k, m).is_prefix_of(
            row_upto(cells, widths, aligns, k, n),
        ),
    decreases n,
{
    let a = row_upto(cells, widths, aligns, k, m);
    let b = row_upto(cells, widths, aligns, k, n);
    if m < n {
        lemma_row_starts(cells, widths, aligns, k, m, n - 1);
        let c = row_upto(cells, widths, aligns, k, n - 1);
        assert(b.subrange(0, c.len() as int) =~= c);
        assert(b.subrange(0, a.len() as int) =~= c.subrange(0, a.len() as int));
    } else {
        assert(b.subrange(0, a.len() as int) =~= a);
    }
}

/// A line of a row shows each of its columns: between two bars, with a space on either side,
/// stands that line of the cell, aligned to its column.
pub proof fn law_row_shows_its_cells(
    row: RowView,
    widths: Seq<usize>,
    aligns: Seq<Align>,
    k: int,
    c: int,
)
    requires
        0 <= c < widths.len(),
        0 <= k < row_lines(row, widths, aligns).len(),
    ensures
        ({
            let line = row_lines(row, widths, aligns)[k];
            let text = line[0].content;
            let at = total_width(widths.take(c)) + 3 * c;
            let cell = wrapped(
                if c < row.cells.len() {
                    row.cells[c]
                } else {
                    Seq::empty()
                },
                widths[c] as nat,
            );
            let part = if k < cell.len() {
                cell[k]
            } else {
                Seq::empty()
            };
            let align = if c < aligns.len() {
                aligns[c]
            } else {
                Align::Unset
            };
            &&& line.len() == 1
            &&& text.len() == 1 + 3 * widths.len() + total_width(widths)
            &&& text[0] == '│'
            &&& text.subrange(at + 1, at + 4 + widths[c]) == seq![' '] + aligned(
                part,
                widths[c] as nat,
                align,
            ) + seq![' ', '│']
            &&& line[0].style == (Style {
                role: Role::Text,
                modifier: if row.is_head {
                    Modifier::Bold
                } else {
                    Modifier::Regular
                },
            })
        }),
{
    let cells = wrapped_cells(row, widths);
    let n = widths.len() as int;
    assert forall|i: int| 0 <= i < n implies cell_line(#[trigger] cells[i], k).len()
        <= widths[i] by {
        law_wrapped_lines_fit(cell_of(row, i), widths[i] as nat);
        if k < cells[i].len() {
            assert(wrapped(cell_of(row, i), widths[i] as nat)[k].len() <= widths[i]);
        }
    }
    lemma_row_upto_len(cells, widths, aligns, k, c);
    lemma_row_upto_len(cells, widths, aligns, k, c + 1);
    lemma_row_upto_len(cells, widths, aligns, k, n);
    lemma_row_starts(cells, widths, aligns, k, 0, n);
    lemma_row_starts(cells, widths, aligns, k, c + 1, n);
    assert(widths.take(n) =~= widths);
    assert(widths.take(c + 1).drop_last() =~= widths.take(c));
    let whole = row_upto(cells, widths, aligns, k, n);
    let upto = row_upto(cells, widths, aligns, k, c + 1);
    let before = row_upto(cells, widths, aligns, k, c);
    let at = total_width(widths.take(c)) + 3 * c;
    let piece = aligned(cell_line(cells[c], k), widths[c] as nat, alignment_of(aligns, c));
    assert(cell_line(cells[c], k).len() <= widths[c]);
    assert(upto.subrange(before.len() as int, upto.len() as int) =~= seq![' '] + piece + seq![
        ' ',
        '│',
    ]);
    assert(upto =~= whole.subrange(0, upto.len() as int));
    assert(whole.subrange(at + 1, at + 4 + widths[c]) =~= upto.subrange(
        before.len() as int,
        upto.len() as int,
    ));
    assert(whole[0] == row_upto(cells, widths, aligns, k, 0)[0]);
}

/// A row has as many lines as its tallest cell, so that each line of a cell has a place.
pub proof fn law_row_is_as_tall_as_its_cells(row: RowView, widths: Seq<usize>, aligns: Seq<Align>)
    requires
        widths.len() > 0,
    ensures
        ({
            let cells = Seq::new(
                widths.len(),
                |c: int|
                    wrapped(
                        if c < row.cells.len() {
                            row.cells[c]
                        } else {
                            Seq::empty()
                        },
                        widths[c] as nat,
                    ),
            );
            let height = row_lines(row, widths, aligns).len();
            &&& forall|c: int| 0 <= c < cells.len() ==> (#[trigger] cells[c]).len() <= height
            &&& exists|c: int| 0 <= c < cells.len() && (#[trigger] cells[c]).len() == height
        }),
{
    let cells = Seq::new(
        widths.len(),
        |c: int|
            wrapped(
                if c < row.cells.len() {
                    row.cells[c]
                } else {
                    Seq::empty()
                },
                widths[c] as nat,
            ),
    );
    assert(cells =~= wrapped_cells(row, widths));
    lemma_tallest(cells);
}

proof fn lemma_tallest(cells: Seq<Seq<Seq<char>>>)
    requires
        cells.len() > 0,
    ensures
        forall|c: int| 0 <= c < cells.len() ==> (#[trigger] cells[c]).len() <= tallest(cells),
        exists|c: int| 0 <= c < cells.len() && (#[trigger] cells[c]).len() == tallest(cells),
    decreases cells.len(),
{
    let d = cells.drop_last();
    let n = d.len() as int;
    assert(cells[n] == cells.last());
    if n > 0 {
        lemma_tallest(d);
        let c = choose|c: int| 0 <= c < d.len() && (#[trigger] d[c]).len() == tallest(d);
        assert(cells[c] == d[c]);
        assert forall|c: int| 0 <= c < cells.len() implies (#[trigger] cells[c]).len()
            <= tallest(cells) by {
            if c < n {
                assert(d[c] == cells[c]);
            }
        }
    } else {
        reveal_with_fuel(tallest, 2);
    }
}

/// Where row `r` begins among the lines of a table: behind the line of the frame above it.
pub open spec fn row_place(rows: Seq<RowView>, widths: Seq<usize>, aligns: Seq<Align>, r: int) -> int
    decreases r,
{
    if r <= 0 {
        1
    } else {
        row_place(rows, widths, aligns, r - 1) + row_lines(rows[r - 1], widths, aligns).len() + 1
    }
}

/// A table shows its rows in their order, with a line of the frame above each of them and
/// below the last, and an empty line at the end.
pub proof fn law_table_shows_its_rows_in_order(
    rows: Seq<RowView>,
    aligns: Seq<Align>,
    max_width: Option<usize>,
    r: int,
)
    requires
        0 <= r < rows.len(),
    ensures
        ({
            let all = table(rows, aligns, max_width);
            let widths = column_widths(rows, max_width);
            let lines = row_lines(rows[r], widths, aligns);
            let at = row_place(rows, widths, aligns, r);
            &&& at >= 1
            &&& at + lines.len() + 1 < all.len()
            &&& forall|k: int| 0 <= k < lines.len() ==> #[trigger] all[at + k] == lines[k]
            &&& r == rows.len() - 1 ==> all.len() == at + lines.len() + 2
            &&& all[0] == frame_line(widths, '┌', '┬', '┐')
            &&& all[at + lines.len()] == if r == rows.len() - 1 {
                frame_line(widths, '└', '┴', '┘')
            } else {
                frame_line(widths, '├', '┼', '┤')
            }
        }),
{
    let widths = column_widths(rows, max_width);
    let n = rows.len() as int;
    lemma_rows_place(rows, widths, aligns, r);
    lemma_rows_place(rows, widths, aligns, r + 1);
    lemma_rows_start(rows, widths, aligns, 0, n);
    lemma_rows_start(rows, widths, aligns, r + 1, n);
    let upto = rows_upto(rows, widths, aligns, r + 1);
    let before = rows_upto(rows, widths, aligns, r);
    let whole = rows_upto(rows, widths, aligns, n);
    let lines = row_lines(rows[r], widths, aligns);
    let at = row_place(rows, widths, aligns, r);
    assert(upto =~= whole.subrange(0, upto.len() as int));
    assert(whole[0] == rows_upto(rows, widths, aligns, 0)[0]);
    assert forall|k: int| 0 <= k < lines.len() implies #[trigger] table(
        rows,
        aligns,
        max_width,
    )[at + k] == lines[k] by {
        assert(whole[at + k] == upto[at + k]);
    }
    assert(whole[at + lines.len()] == upto[at + lines.len()]);
}

proof fn lemma_rows_place(rows: Seq<RowView>, widths: Seq<usize>, aligns: Seq<Align>, r: int)
    requires
        0 <= r <= rows.len(),
    ensures
        rows_upto(rows, widths, aligns, r).len() == row_place(rows, widths, aligns, r),
        row_place(rows, widths, aligns, r) >= 1,
    decreases r,
{
    if r > 0 {
        lemma_rows_place(rows, widths, aligns, r - 1);
    }
}

proof fn lemma_rows_start(
    rows: Seq<RowView>,
    widths: Seq<usize>,
    aligns: Seq<Align>,
    m: int,
    n: int,
)
    requires
        0 <= m <= n,
    ensures
        rows_upto(rows, widths, aligns, m).is_prefix_of(rows_upto(rows, widths, aligns, n)),
    decreases n,
{
    let a = rows_upto(rows, widths, aligns, m);
    let b = rows_upto(rows, widths, aligns, n);
    if m < n {
        lemma_rows_start(rows, widths, aligns, m, n - 1);
        let c = rows_upto(rows, widths, aligns, n - 1);
        assert(b.subrange(0, c.len() as int) =~= c);
        assert(b.subrange(0, a.len() as int) =~= c.subrange(0, a.len() as int));
    } else {
        assert(b.subrange(0, a.len() as int) =~= a);
    }
}

/// Words are neither torn nor parted where they fit: a text of words no longer than the
/// width is shown as lines that, with a space between them, are the text.
pub proof fn law_wrapping_breaks_between_words(words: Seq<Seq<char>>, width: nat)
    requires
        words.len() > 0,
        width > 0,
        forall|i: int|
            0 <= i < words.len() ==> 0 < (#[trigger] words[i]).len() <= width && !words[i].contains(
                ' ',
            ),
    ensures
        join(wrapped(join(words, seq![' ']), width), seq![' ']) == join(words, seq![' ']),
{
    law_splitting_undoes_joining(words, ' ');
    lemma_lines_join(words, width);
}

proof fn lemma_lines_join(words: Seq<Seq<char>>, width: nat)
    requires
        words.len() > 0,
        width > 0,
        forall|i: int| 0 <= i < words.len() ==> 0 < (#[trigger] words[i]).len() <= width,
    ensures
        join(wrap_words(words, width), seq![' ']) == join(words, seq![' ']),
        wrap_words(words, width).last().len() > 0,
    decreases words.len(),
{
    let sep = seq![' '];
    let d = words.drop_last();
    let word = words.last();
    assert(words[words.len() - 1] == word);
    lemma_wrap_words_len(d, width);
    let lines = wrap_words(d, width);
    let done = lines.drop_last();
    let now = wrap_words(words, width);
    if d.len() == 0 {
        assert(lines =~= seq![Seq::<char>::empty()]);
        assert(now =~= seq![word]);
        assert(words =~= seq![word]);
    } else {
        assert forall|i: int| 0 <= i < d.len() implies 0 < (#[trigger] d[i]).len() <= width by {
            assert(d[i] == words[i]);
        }
        lemma_lines_join(d, width);
        let line = lines.last();
        if line.len() + 1 + word.len() <= width {
            let longer = line + sep + word;
            assert(now =~= done.push(longer));
            assert(lines =~= done.push(line));
            assert(now.drop_last() =~= done);
            if done.len() == 0 {
                assert(join(now, sep) == longer);
                assert(join(lines, sep) == line);
            } else {
                assert(join(now, sep) =~= join(lines, sep) + sep + word);
            }
            assert(join(now, sep) =~= join(words, sep));
        } else {
            assert(now =~= lines.push(word));
            assert(now.drop_last() =~= lines);
            assert(join(now, sep) == join(lines, sep) + sep + word);
        }
    }
}

/// No line of a wrapped cell is broken early: the word that begins a line would not have
/// fitted behind the line before it.
pub proof fn law_wrapped_lines_are_filled(words: Seq<Seq<char>>, width: nat, i: int)
    requires
        words.len() > 0,
        width > 0,
        forall|k: int| 0 <= k < words.len() ==> 0 < (#[trigger] words[k]).len() <= width,
        forall|k: int| 0 <= k < words.len() ==> !(#[trigger] words[k]).contains(' '),
        0 <= i < wrapped(join(words, seq![' ']), width).len() - 1,
    ensures
        ({
            let lines = wrapped(join(words, seq![' ']), width);
            exists|k: int|
                0 <= k < words.len() && begins_with(lines[i + 1], #[trigger] words[k])
                    && lines[i].len() + 1 + words[k].len() > width
        }),
{
    law_splitting_undoes_joining(words, ' ');
    lemma_lines_filled(words, width, i);
}

proof fn lemma_lines_filled(words: Seq<Seq<char>>, width: nat, i: int)
    requires
        words.len() > 0,
        width > 0,
        forall|k: int| 0 <= k < words.len() ==> 0 < (#[trigger] words[k]).len() <= width,
        0 <= i < wrap_words(words, width).len() - 1,
    ensures
        ({
            let lines = wrap_words(words, width);
            exists|k: int|
                0 <= k < words.len() && begins_with(lines[i + 1], #[trigger] words[k])
                    && lines[i].len() + 1 + words[k].len() > width
        }),
    decreases words.len(),
{
    let d = words.drop_last();
    let word = words.last();
    let n = d.len() as int;
    assert(words[n] == word);
    lemma_wrap_words_len(d, width);
    let lines = wrap_words(d, width);
    let now = wrap_words(words, width);
    if n == 0 {
        assert(lines =~= seq![Seq::<char>::empty()]);
        assert(now =~= seq![word]);
    } else {
        assert forall|k: int| 0 <= k < d.len() implies 0 < (#[trigger] d[k]).len() <= width by {
            assert(d[k] == words[k]);
        }
        lemma_lines_join(d, width);
        if i < lines.len() - 1 {
            lemma_lines_filled(d, width, i);
            let k = choose|k: int|
                0 <= k < d.len() && begins_with(lines[i + 1], #[trigger] d[k]) && lines[i].len() + 1
                    + d[k].len() > width;
            assert(words[k] == d[k]);
            assert(now[i] == lines[i]);
            assert(now[i + 1].subrange(0, d[k].len() as int) =~= lines[i + 1].subrange(
                0,
                d[k].len() as int,
            ));
        } else {
            assert(now =~= lines.push(word));
            assert(now[i + 1] == words[n]);
            assert(word.subrange(0, word.len() as int) =~= word);
        }
    }
}

proof fn lemma_widest_is_last(widths: Seq<usize>)
    requires
        widths.len() > 0,
    ensures
        forall|j: int| widest(widths) < j < widths.len() ==> #[trigger] widths[j] < widths[widest(
            widths,
        )],
    decreases widths.len(),
{
    if widths.len() > 1 {
        let before = widths.drop_last();
        lemma_widest_is_last(before);
        lemma_widest(before);
        let w = widest(widths);
        assert forall|j: int| w < j < widths.len() implies #[trigger] widths[j] < widths[w] by {
            if j < before.len() {
                assert(before[j] == widths[j]);
            }
        }
    }
}

proof fn lemma_shrinking_is_fair(widths: Seq<usize>, target: nat)
    ensures
        ({
            let r = shrunk(widths, target);
            &&& r.len() == widths.len()
            &&& forall|i: int| 0 <= i < widths.len() ==> #[trigger] r[i] <= widths[i]
            &&& total_width(widths) > target ==> total_width(r) >= target
            &&& total_width(widths) <= target ==> r == widths
            &&& forall|i: int, j: int|
                0 <= i < widths.len() && 0 <= j < widths.len() && #[trigger] r[i] < widths[i]
                    ==> #[trigger] r[j] <= r[i] + 1
            &&& forall|i: int, j: int|
                0 <= i < j < widths.len() && #[trigger] r[i] < widths[i] ==> #[trigger] r[j] <= r[i]
        }),
    decreases total_width(widths),
{
    let w = widest(widths);
    let r = shrunk(widths, target);
    if widths.len() == 0 || total_width(widths) <= target || widths[w] <= MIN_COL {
    } else {
        lemma_widest(widths);
        lemma_widest_is_last(widths);
        let next = widths.update(w, (widths[w] - 1) as usize);
        lemma_total_width_update(widths, w, (widths[w] - 1) as usize);
        lemma_shrinking_is_fair(next, target);
        assert forall|i: int| 0 <= i < widths.len() implies #[trigger] r[i] <= widths[i] by {
            assert(r[i] <= next[i]);
        }
        assert forall|i: int, j: int|
            0 <= i < widths.len() && 0 <= j < widths.len() && #[trigger] r[i]
                < widths[i] implies #[trigger] r[j] <= r[i] + 1 by {
            assert(r[j] <= next[j]);
            assert(widths[j] <= widths[w]);
            if r[i] == next[i] {
                assert(i == w);
            }
        }
        assert forall|i: int, j: int|
            0 <= i < j < widths.len() && #[trigger] r[i] < widths[i] implies #[trigger] r[j]
            <= r[i] by {
            assert(r[j] <= next[j]);
            if r[i] == next[i] {
                assert(i == w);
                assert(widths[j] < widths[w]);
            }
        }
    }
}

/// Columns are narrowed by no more than it takes, and the widest ones are: one that was
/// narrowed is at most one column narrower than any other, and than none that stands behind
/// it.
pub proof fn law_widest_columns_are_narrowed(widths: Seq<usize>, target: nat, i: int, j: int)
    requires
        0 <= i < widths.len(),
        0 <= j < widths.len(),
    ensures
        ({
            let r = shrunk(widths, target);
            &&& total_width(widths) <= target ==> r == widths
            &&& total_width(widths) > target ==> total_width(r) >= target
            &&& r[i] < widths[i] ==> r[j] <= r[i] + 1
            &&& r[i] < widths[i] && i < j ==> r[j] <= r[i]
        }),
{
    lemma_shrinking_is_fair(widths, target);
    let r = shrunk(widths, target);
    assert(r[i] < widths[i] ==> r[j] <= r[i] + 1);
}

proof fn lemma_hard_split(word: Seq<char>, width: nat)
    requires
        width > 0,
    ensures
        hard_split(word, width).flatten() == word,
        forall|i: int|
            0 <= i < hard_split(word, width).len() - 1 ==> (#[trigger] hard_split(word, width)[i]).len()
                == width,
        hard_split(word, width).len() > 0,
        word.len() > 0 ==> 0 < hard_split(word, width).last().len() <= width,
    decreases word.len(),
{
    let all = hard_split(word, width);
    if word.len() > width {
        let rest = word.skip(width as int);
        lemma_hard_split(rest, width);
        assert(all.first() == word.take(width as int));
        assert(all.drop_first() =~= hard_split(rest, width));
        assert(all.flatten() =~= word);
        assert forall|i: int| 0 <= i < all.len() - 1 implies (#[trigger] all[i]).len() == width by {
            if i > 0 {
                assert(all[i] == hard_split(rest, width)[i - 1]);
            }
        }
        assert(all.last() == hard_split(rest, width).last());
    } else {
        assert(all.first() == word);
        all.lemma_flatten_one_element();
    }
}

/// A word that is too long for a line is cut: each piece but the last fills its line, and
/// the pieces make up the word.
pub proof fn law_long_word_is_cut(word: Seq<char>, width: nat)
    requires
        width > 0,
        word.len() > width,
        !word.contains(' '),
    ensures
        wrapped(word, width).flatten() == word,
        forall|i: int|
            0 <= i < wrapped(word, width).len() - 1 ==> (#[trigger] wrapped(word, width)[i]).len()
                == width,
        0 < wrapped(word, width).last().len() <= width,
{
    lemma_unsplit(word, ' ');
    let one = split_on(word, ' ');
    assert(one =~= seq![word]);
    assert(one.drop_last() =~= Seq::<Seq<char>>::empty());
    assert(wrap_words(one.drop_last(), width) =~= seq![Seq::<char>::empty()]);
    assert(wrapped(word, width) =~= hard_split(word, width));
    lemma_hard_split(word, width);
}

proof fn lemma_frame_chars(widths: Seq<usize>, n: int, mid: char, right: char, c: int, d: int)
    requires
        0 <= c < n <= widths.len(),
        0 <= d <= widths[c] + 2,
    ensures
        ({
            let at = total_width(widths.take(c)) + 3 * c;
            let text = frame_upto(widths, n, mid, right);
            &&& at + d < text.len()
            &&& text[at + d] == if d < widths[c] + 2 {
                '─'
            } else if c + 1 < widths.len() {
                mid
            } else {
                right
            }
        }),
    decreases n,
{
    lemma_frame_width(widths, n, mid, right);
    lemma_frame_width(widths, n - 1, mid, right);
    assert(widths.take(n).drop_last() =~= widths.take(n - 1));
    if c < n - 1 {
        lemma_frame_chars(widths, n - 1, mid, right, c, d);
    }
}

/// A line of the frame has a crossing above the rule before each column, a corner at either
/// end, and dashes between them.
pub proof fn law_frame_meets_the_rules(
    widths: Seq<usize>,
    left: char,
    mid: char,
    right: char,
    c: int,
    d: int,
)
    requires
        0 <= c < widths.len(),
        0 < d < widths[c] + 3,
    ensures
        ({
            let at = total_width(widths.take(c)) + 3 * c;
            let text = frame(widths, left, mid, right);
            &&& text[at + d] == '─'
            &&& text[at] == if c == 0 {
                left
            } else {
                mid
            }
            &&& c == widths.len() - 1 ==> text[at + widths[c] + 3] == right && text.len() == at
                + widths[c] + 4
        }),
{
    let n = widths.len() as int;
    let text = frame(widths, left, mid, right);
    lemma_frame_chars(widths, n, mid, right, c, d - 1);
    lemma_frame_chars(widths, n, mid, right, c, widths[c] + 2);
    lemma_frame_width(widths, n, mid, right);
    assert(widths.take(0) =~= Seq::<usize>::empty());
    if c > 0 {
        lemma_frame_chars(widths, n, mid, right, c - 1, widths[c - 1] + 2);
        assert(widths.take(c).drop_last() =~= widths.take(c - 1));
    }
    if c == n - 1 {
        assert(widths.take(n).drop_last() =~= widths.take(c));
    }
}

/// The line is one piece of text that begins with a rule or a corner of the frame.
pub open spec fn begins_with_the_frame(line: Seq<SpanView>) -> bool {
    &&& line.len() == 1
    &&& line[0].content.len() > 0
    &&& line[0].content[0] == '┌' || line[0].content[0] == '├' || line[0].content[0] == '└'
        || line[0].content[0] == '│'
}

proof fn lemma_row_begins_with_a_rule(
    cells: Seq<Seq<Seq<char>>>,
    widths: Seq<usize>,
    aligns: Seq<Align>,
    k: int,
    n: int,
)
    ensures
        row_upto(cells, widths, aligns, k, n).len() > 0,
        row_upto(cells, widths, aligns, k, n)[0] == '│',
    decreases n,
{
    if n > 0 {
        lemma_row_begins_with_a_rule(cells, widths, aligns, k, n - 1);
    }
}

proof fn lemma_rows_begin_with_the_frame(
    rows: Seq<RowView>,
    widths: Seq<usize>,
    aligns: Seq<Align>,
    n: int,
)
    ensures
        forall|i: int|
            0 <= i < rows_upto(rows, widths, aligns, n).len() ==> begins_with_the_frame(
                #[trigger] rows_upto(rows, widths, aligns, n)[i],
            ),
    decreases n,
{
    let all = rows_upto(rows, widths, aligns, n);
    if n > 0 {
        lemma_rows_begin_with_the_frame(rows, widths, aligns, n - 1);
        let before = rows_upto(rows, widths, aligns, n - 1);
        let lines = row_lines(rows[n - 1], widths, aligns);
        let cells = wrapped_cells(rows[n - 1], widths);
        assert forall|i: int| 0 <= i < all.len() implies begins_with_the_frame(
            #[trigger] all[i],
        ) by {
            if i < before.len() {
                assert(all[i] == before[i]);
            } else if i < before.len() + lines.len() {
                let k = i - before.len();
                assert(all[i] == lines[k]);
                lemma_row_begins_with_a_rule(cells, widths, aligns, k, widths.len() as int);
            }
        }
    }
}

/// Every line of a table begins with its frame, but for the empty one below it.
pub proof fn law_table_lines_begin_with_the_frame(
    rows: Seq<RowView>,
    aligns: Seq<Align>,
    max_width: Option<usize>,
    i: int,
)
    requires
        0 <= i < table(rows, aligns, max_width).len() - 1,
    ensures
        begins_with_the_frame(table(rows, aligns, max_width)[i]),
{
    let widths = column_widths(rows, max_width);
    lemma_rows_begin_with_the_frame(rows, widths, aligns, rows.len() as int);
    assert(table(rows, aligns, max_width)[i] == rows_upto(
        rows,
        widths,
        aligns,
        rows.len() as int,
    )[i]);
}

} // verus!
