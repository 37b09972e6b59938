//! Reading and editing files for an agent.

use vstd::math::{max, min};
use vstd::prelude::*;

use crate::rope::{len_lines, line_begin, line_to_char, line_total, rope_of, slice_text};
use crate::text::{
    begins_with, byte_offset, char_utf8_len, chars_of, decimal, decimal_of, has_prefix, join,
    join_strings, law_joining_goes_part_by_part, law_splitting_undoes_joining,
    lemma_line_start_monotone, lemma_line_start_total, line_start, lines, lines_of, split_on,
    substring, views,
};

verus! {

// ── Reading ──────────────────────────────────────────────────────────────────

/// Why a range of lines cannot be read.
#[derive(Clone, Copy, Debug, PartialEq, Eq, Structural)]
pub struct RangeError {
    pub start_line: usize,
    pub end_line: usize,
}

impl RangeError {
    pub fn message(self) -> (text: String)
        ensures
            text@ == "start_line ("@ + decimal(self.start_line as nat) + ") > end_line ("@ + decimal(
                self.end_line as nat,
            ) + ")"@,
    {
        let mut text = "start_line (".to_string();
        text.append(decimal_of(self.start_line as u64).as_str());
        text.append(") > end_line (");
        text.append(decimal_of(self.end_line as u64).as_str());
        text.append(")");
        text
    }
}

pub proof fn lemma_line_begin_bound(text: Seq<char>, i: int, j: int)
    requires
        0 <= i <= j,
    ensures
        0 <= line_begin(text, i) <= line_begin(text, j) <= text.len(),
{
    lemma_line_start_total(text);
    let pieces = split_on(text, '\n');
    if j < pieces.len() {
        lemma_line_start_monotone(pieces, i, j);
        lemma_line_start_monotone(pieces, j, pieces.len() - 1);
    } else if i < pieces.len() {
        lemma_line_start_monotone(pieces, i, pieces.len() - 1);
    }
}

/// The lines from `start_line` to `end_line`, both counted from zero and both
/// meant, with the line feeds that end them. What lies past the end of the text
/// is left out.
pub fn lines_between(text: &str, start_line: usize, end_line: usize) -> (range: String)
    requires
        end_line < usize::MAX,
        line_begin(text@, start_line as int) <= line_begin(text@, end_line + 1),
    ensures
        range@ == text@.subrange(
            line_begin(text@, start_line as int),
            line_begin(text@, end_line + 1),
        ),
{
    let rope = rope_of(text);
    let n = len_lines(&rope);
    let first: usize = if start_line < n {
        start_line
    } else {
        n
    };
    let past: usize = if end_line + 1 < n {
        end_line + 1
    } else {
        n
    };
    proof {
        lemma_line_begin_bound(text@, past as int, past as int);
    }
    let start_char = line_to_char(&rope, first);
    let end_char = line_to_char(&rope, past);
    slice_text(&rope, start_char, end_char)
}

/// The lines from `start_line` to `end_line`, which may not come before it.
pub fn read_range(text: &str, start_line: usize, end_line: usize) -> (result: Result<
    String,
    RangeError,
>)
    requires
        end_line < usize::MAX,
    ensures
        match result {
            Ok(range) => {
                &&& start_line <= end_line
                &&& range@ == text@.subrange(
                    line_begin(text@, start_line as int),
                    line_begin(text@, end_line + 1),
                )
            },
            Err(e) => start_line > end_line && e == (RangeError { start_line, end_line }),
        },
{
    if start_line > end_line {
        return Err(RangeError { start_line, end_line });
    }
    proof {
        lemma_line_begin_bound(text@, start_line as int, end_line + 1);
    }
    Ok(lines_between(text, start_line, end_line))
}

/// Reading all lines gives the whole text.
pub proof fn law_reading_all_lines_gives_text(text: Seq<char>, end_line: int)
    requires
        end_line + 1 >= line_total(text),
    ensures
        text.subrange(line_begin(text, 0), line_begin(text, end_line + 1)) == text,
{
    lemma_line_start_total(text);
    assert(text.subrange(0, text.len() as int) =~= text);
}

/// Ranges that follow each other make up the range that they cover.
pub proof fn law_ranges_join(text: Seq<char>, a: int, b: int, c: int)
    requires
        0 <= a <= b <= c,
    ensures
        text.subrange(line_begin(text, a), line_begin(text, b)) + text.subrange(
            line_begin(text, b),
            line_begin(text, c),
        ) == text.subrange(line_begin(text, a), line_begin(text, c)),
{
    lemma_line_begin_bound(text, a, b);
    lemma_line_begin_bound(text, b, c);
    assert(text.subrange(line_begin(text, a), line_begin(text, b)) + text.subrange(
        line_begin(text, b),
        line_begin(text, c),
    ) =~= text.subrange(line_begin(text, a), line_begin(text, c)));
}

// ── Line edits ───────────────────────────────────────────────────────────────

/// Replaces the lines from `start_line` up to, but not including, `end_line`.
/// Lines are counted from one.
#[derive(Debug)]
pub struct TextEdit {
    pub start_line: usize,
    pub end_line: usize,
    pub new_text: String,
}

/// What an edit says.
pub ghost struct EditView {
    pub start_line: usize,
    pub end_line: usize,
    pub new_text: Seq<char>,
}

impl View for TextEdit {
    type V = EditView;

    open spec fn view(&self) -> EditView {
        EditView {
            start_line: self.start_line,
            end_line: self.end_line,
            new_text: self.new_text@,
        }
    }
}

pub open spec fn edits_view(edits: Seq<TextEdit>) -> Seq<EditView> {
    Seq::new(edits.len(), |i: int| edits[i]@)
}

impl TextEdit {
    /// An edit that puts text in before a line.
    pub fn insertion(line: usize, text: String) -> (edit: TextEdit)
        ensures
            edit@ == (EditView { start_line: line, end_line: line, new_text: text@ }),
    {
        TextEdit { start_line: line, end_line: line, new_text: text }
    }
}

/// `edit` put into edits that are ordered from the last line to the first,
/// behind those of the same line.
pub open spec fn placed(edits: Seq<EditView>, edit: EditView) -> Seq<EditView>
    decreases edits.len(),
{
    if edits.len() == 0 || edits.last().start_line >= edit.start_line {
        edits.push(edit)
    } else {
        placed(edits.drop_last(), edit).push(edits.last())
    }
}

/// Edits ordered from the last line to the first.
pub open spec fn bottom_up(edits: Seq<EditView>) -> Seq<EditView>
    decreases edits.len(),
{
    if edits.len() == 0 {
        Seq::empty()
    } else {
        placed(bottom_up(edits.drop_last()), edits.last())
    }
}

/// Edit `i` reaches into the one before it, which lies further down.
pub open spec fn overlaps_at(edits: Seq<EditView>, i: int) -> bool {
    edits[i].end_line > edits[i - 1].start_line
}

/// Edit `i` is the first that reaches into the one before it.
pub open spec fn first_overlap(edits: Seq<EditView>, i: int) -> bool {
    &&& 0 < i < edits.len()
    &&& overlaps_at(edits, i)
    &&& forall|k: int| 0 < k < i ==> !#[trigger] overlaps_at(edits, k)
}

/// The first line that an edit replaces, counted from zero, in a text of `n`
/// lines.
pub open spec fn edit_start(edit: EditView, n: nat) -> int {
    min(max(edit.start_line - 1, 0), n as int)
}

/// The line behind the last one that an edit replaces.
pub open spec fn edit_end(edit: EditView, n: nat) -> int {
    max(min(max(edit.end_line - 1, 0), n as int), edit_start(edit, n))
}

/// Lines after an edit.
pub open spec fn edited(all: Seq<Seq<char>>, edit: EditView) -> Seq<Seq<char>> {
    all.take(edit_start(edit, all.len())) + lines(edit.new_text) + all.skip(
        edit_end(edit, all.len()),
    )
}

/// Lines after the first `n` edits.
pub open spec fn all_edited(all: Seq<Seq<char>>, edits: Seq<EditView>, n: int) -> Seq<Seq<char>>
    decreases n,
{
    if n <= 0 {
        all
    } else {
        edited(all_edited(all, edits, n - 1), edits[n - 1])
    }
}

/// The lines of a text, and one empty line where it has none.
pub open spec fn lines_to_edit(text: Seq<char>) -> Seq<Seq<char>> {
    if lines(text).len() == 0 {
        seq![Seq::<char>::empty()]
    } else {
        lines(text)
    }
}

pub open spec fn ends_line(text: Seq<char>) -> bool {
    text.len() > 0 && text.last() == '\n'
}

/// Lines as a text that ends with a line feed where the text before did.
pub open spec fn as_text(all: Seq<Seq<char>>, before: Seq<char>) -> Seq<char> {
    let text = join(all, "\n"@);
    if ends_line(before) && !ends_line(text) {
        text.push('\n')
    } else {
        text
    }
}

/// Why edits cannot be made: two of them replace the same line.
#[derive(Clone, Copy, Debug, PartialEq, Eq, Structural)]
pub struct Overlap {
    pub lower_start: usize,
    pub lower_end: usize,
    pub upper_start: usize,
    pub upper_end: usize,
}

pub open spec fn overlap_of(edits: Seq<EditView>, i: int) -> Overlap {
    Overlap {
        lower_start: edits[i].start_line,
        lower_end: edits[i].end_line,
        upper_start: edits[i - 1].start_line,
        upper_end: edits[i - 1].end_line,
    }
}

pub open spec fn overlap_text(e: Overlap) -> Seq<char> {
    "overlapping edits: ["@ + decimal(e.lower_start as nat) + ", "@ + decimal(e.lower_end as nat)
        + ") and ["@ + decimal(e.upper_start as nat) + ", "@ + decimal(e.upper_end as nat) + ")"@
}

impl Overlap {
    pub fn message(self) -> (text: String)
        ensures
            text@ == overlap_text(self),
    {
        let mut text = "overlapping edits: [".to_string();
        text.append(decimal_of(self.lower_start as u64).as_str());
        text.append(", ");
        text.append(decimal_of(self.lower_end as u64).as_str());
        text.append(") and [");
        text.append(decimal_of(self.upper_start as u64).as_str());
        text.append(", ");
        text.append(decimal_of(self.upper_end as u64).as_str());
        text.append(")");
        text
    }
}

/// Puts an edit into edits that are ordered from the last line to the first.
fn place(edits: &mut Vec<TextEdit>, edit: TextEdit)
    ensures
        edits_view(final(edits)@) == placed(edits_view(old(edits)@), edit@),
    decreases old(edits)@.len(),
{
    let n = edits.len();
    let ghost before = edits_view(edits@);
    if n == 0 || edits[n - 1].start_line >= edit.start_line {
        edits.push(edit);
        assert(edits_view(edits@) =~= before.push(edit@));
    } else {
        let last = edits.pop().unwrap();
        assert(edits_view(edits@) =~= before.drop_last());
        place(edits, edit);
        let ghost inner = edits_view(edits@);
        edits.push(last);
        assert(edits_view(edits@) =~= inner.push(last@));
    }
}

fn sort_bottom_up(edits: Vec<TextEdit>) -> (sorted: Vec<TextEdit>)
    ensures
        edits_view(sorted@) == bottom_up(edits_view(edits@)),
    decreases edits@.len(),
{
    let mut rest = edits;
    let ghost all = edits_view(edits@);
    match rest.pop() {
        None => {
            assert(edits_view(rest@) =~= Seq::empty());
            rest
        },
        Some(last) => {
            assert(edits_view(rest@) =~= all.drop_last());
            assert(all.last() == last@);
            let mut sorted = sort_bottom_up(rest);
            place(&mut sorted, last);
            sorted
        },
    }
}

fn copied(all: &Vec<String>, from: usize, to: usize, out: &mut Vec<String>)
    requires
        from <= to <= all@.len(),
    ensures
        views(final(out)@) == views(old(out)@) + views(all@).subrange(from as int, to as int),
{
    let ghost start = views(out@);
    let ghost lines = views(all@);
    let mut i: usize = from;
    assert(start + lines.subrange(from as int, from as int) =~= start);
    while i < to
        invariant
            from <= i <= to <= all@.len(),
            lines == views(all@),
            views(out@) == start + lines.subrange(from as int, i as int),
        decreases to - i,
    {
        let ghost before = views(out@);
        out.push(all[i].clone());
        assert(views(out@) =~= before.push(all@[i as int]@));
        assert(lines.subrange(from as int, i + 1) =~= lines.subrange(from as int, i as int).push(
            lines[i as int],
        ));
        assert(views(out@) =~= start + lines.subrange(from as int, i + 1));
        i += 1;
    }
}

/// Makes one edit.
fn splice(all: &Vec<String>, edit: &TextEdit) -> (out: Vec<String>)
    ensures
        views(out@) == edited(views(all@), edit@),
{
    let n = all.len();
    assert(views(all@).len() == n);
    // From a first line counted from one to one counted from zero.
    let first = edit.start_line.saturating_sub(1);
    let start: usize = if first < n {
        first
    } else {
        n
    };
    // A range that ends before it starts is empty: an insertion.
    let past = edit.end_line.saturating_sub(1);
    let clamped: usize = if past < n {
        past
    } else {
        n
    };
    let end: usize = if clamped > start {
        clamped
    } else {
        start
    };
    let replacement = lines_of(edit.new_text.as_str());
    let mut out: Vec<String> = Vec::new();
    assert(views(out@) =~= Seq::empty());
    copied(all, 0, start, &mut out);
    copied(&replacement, 0, replacement.len(), &mut out);
    copied(all, end, n, &mut out);
    proof {
        let l = views(all@);
        let r = views(replacement@);
        assert(r.subrange(0, r.len() as int) =~= r);
        assert(views(out@) =~= l.take(start as int) + r + l.skip(end as int));
    }
    out
}

/// A text after edits, from the last line to the first so that the numbers of
/// lines stay right. Fails where two edits replace the same line.
pub open spec fn edits_applied(text: Seq<char>, edits: Seq<EditView>) -> Seq<char> {
    let sorted = bottom_up(edits);
    as_text(all_edited(lines_to_edit(text), sorted, sorted.len() as int), text)
}

/// No edit reaches into the next one below it.
pub open spec fn no_overlap(edits: Seq<EditView>) -> bool {
    forall|i: int| 0 < i < bottom_up(edits).len() ==> !#[trigger] overlaps_at(bottom_up(edits), i)
}

fn ends_with_line_feed(text: &str) -> (b: bool)
    ensures
        b == ends_line(text@),
{
    let n = text.unicode_len();
    n > 0 && text.get_char(n - 1) == '\n'
}

fn to_text(all: &Vec<String>, before: &str) -> (text: String)
    ensures
        text@ == as_text(views(all@), before@),
{
    let mut text = join_strings(all, "\n");
    if ends_with_line_feed(before) && !ends_with_line_feed(text.as_str()) {
        text.push('\n');
    }
    text
}

fn editable_lines(text: &str) -> (all: Vec<String>)
    ensures
        views(all@) == lines_to_edit(text@),
{
    let mut all = lines_of(text);
    assert(views(all@).len() == all@.len());
    // At least one line, so that counting from one works.
    if all.len() == 0 {
        all.push(String::new());
        assert(all@[0]@ =~= Seq::empty());
        assert(views(all@) =~= seq![Seq::<char>::empty()]);
    }
    all
}

/// Makes edits to a text.
pub fn apply_edits(text: &str, edits: Vec<TextEdit>) -> (result: Result<String, Overlap>)
    ensures
        match result {
            Ok(new) => no_overlap(edits_view(edits@)) && new@ == edits_applied(
                text@,
                edits_view(edits@),
            ),
            Err(e) => exists|i: int| #[trigger]
                first_overlap(bottom_up(edits_view(edits@)), i) && e == overlap_of(
                    bottom_up(edits_view(edits@)),
                    i,
                ),
        },
{
    let ghost given = edits_view(edits@);
    let sorted = sort_bottom_up(edits);
    let ghost order = edits_view(sorted@);
    let mut i: usize = 1;
    while i < sorted.len()
        invariant
            1 <= i,
            order == edits_view(sorted@),
            order == bottom_up(given),
            given == edits_view(edits@),
            forall|k: int| 0 < k < i && k < order.len() ==> !#[trigger] overlaps_at(order, k),
        decreases sorted.len() - i,
    {
        let upper = &sorted[i - 1];
        let lower = &sorted[i];
        if lower.end_line > upper.start_line {
            assert(first_overlap(order, i as int));
            return Err(
                Overlap {
                    lower_start: lower.start_line,
                    lower_end: lower.end_line,
                    upper_start: upper.start_line,
                    upper_end: upper.end_line,
                },
            );
        }
        i += 1;
    }
    let mut all = editable_lines(text);
    let ghost first = views(all@);
    let mut k: usize = 0;
    while k < sorted.len()
        invariant
            k <= sorted.len(),
            order == edits_view(sorted@),
            views(all@) == all_edited(first, order, k as int),
        decreases sorted.len() - k,
    {
        all = splice(&all, &sorted[k]);
        k += 1;
    }
    Ok(to_text(&all, text))
}

/// The line of the first edit, counted from zero: where to look for the changes.
pub open spec fn first_edited_line(edits: Seq<EditView>) -> int
    decreases edits.len(),
{
    if edits.len() == 0 {
        0
    } else if edits.len() == 1 {
        max(edits[0].start_line - 1, 0)
    } else {
        min(first_edited_line(edits.drop_last()), max(edits.last().start_line - 1, 0))
    }
}

pub fn trace_target_line(edits: &Vec<TextEdit>) -> (line: usize)
    ensures
        line == first_edited_line(edits_view(edits@)),
{
    let ghost all = edits_view(edits@);
    if edits.len() == 0 {
        return 0;
    }
    let mut line: usize = edits[0].start_line.saturating_sub(1);
    let mut i: usize = 1;
    while i < edits.len()
        invariant
            1 <= i <= edits.len(),
            all == edits_view(edits@),
            line == first_edited_line(all.take(i as int)),
        decreases edits.len() - i,
    {
        assert(all.take(i + 1).drop_last() =~= all.take(i as int));
        let start = edits[i].start_line.saturating_sub(1);
        if start < line {
            line = start;
        }
        i += 1;
    }
    assert(all.take(all.len() as int) =~= all);
    line
}

proof fn lemma_placed(edits: Seq<EditView>, edit: EditView)
    requires
        forall|i: int, j: int|
            0 <= i < j < edits.len() ==> (#[trigger] edits[i]).start_line >= (
            #[trigger] edits[j]).start_line,
    ensures
        forall|i: int, j: int|
            0 <= i < j < placed(edits, edit).len() ==> (#[trigger] placed(edits, edit)[i]).start_line
                >= (#[trigger] placed(edits, edit)[j]).start_line,
        placed(edits, edit).len() == edits.len() + 1,
        placed(edits, edit).to_multiset() == edits.to_multiset().insert(edit),
        edits.len() > 0 && edits.last().start_line < edit.start_line ==> placed(
            edits,
            edit,
        ).last() == edits.last(),
        forall|i: int|
            0 <= i < placed(edits, edit).len() ==> (#[trigger] placed(edits, edit)[i]) == edit
                || edits.contains(placed(edits, edit)[i]),
    decreases edits.len(),
{
    broadcast use vstd::seq_lib::group_to_multiset_ensures;

    let p = placed(edits, edit);
    if edits.len() == 0 || edits.last().start_line >= edit.start_line {
        assert forall|i: int| 0 <= i < p.len() implies (#[trigger] p[i]) == edit
            || edits.contains(p[i]) by {
            if i < edits.len() {
                assert(edits[i] == p[i]);
            }
        }
    } else {
        let d = edits.drop_last();
        lemma_placed(d, edit);
        let q = placed(d, edit);
        assert(d.push(edits.last()) =~= edits);
        assert forall|i: int, j: int| 0 <= i < j < p.len() implies (#[trigger] p[i]).start_line >= (
        #[trigger] p[j]).start_line by {
            if j == p.len() - 1 {
                assert(p[i] == q[i]);
                if q[i] != edit {
                    let k = choose|k: int| 0 <= k < d.len() && d[k] == q[i];
                    assert(edits[k] == q[i]);
                }
            } else {
                assert(p[i] == q[i]);
                assert(p[j] == q[j]);
            }
        }
        assert forall|i: int| 0 <= i < p.len() implies (#[trigger] p[i]) == edit
            || edits.contains(p[i]) by {
            if i < q.len() {
                assert(p[i] == q[i]);
                if q[i] != edit {
                    let k = choose|k: int| 0 <= k < d.len() && d[k] == q[i];
                    assert(edits[k] == q[i]);
                }
            } else {
                assert(edits[edits.len() - 1] == p[i]);
            }
        }
        assert(p.to_multiset() =~= edits.to_multiset().insert(edit));
    }
}

/// Ordering edits keeps all of them and puts those of later lines first.
pub proof fn law_bottom_up_orders_edits(edits: Seq<EditView>)
    ensures
        bottom_up(edits).len() == edits.len(),
        bottom_up(edits).to_multiset() == edits.to_multiset(),
        forall|i: int, j: int|
            0 <= i < j < bottom_up(edits).len() ==> (#[trigger] bottom_up(edits)[i]).start_line >= (
            #[trigger] bottom_up(edits)[j]).start_line,
    decreases edits.len(),
{
    broadcast use vstd::seq_lib::group_to_multiset_ensures;

    if edits.len() > 0 {
        let d = edits.drop_last();
        law_bottom_up_orders_edits(d);
        lemma_placed(bottom_up(d), edits.last());
        assert(d.push(edits.last()) =~= edits);
        assert(bottom_up(edits).to_multiset() =~= edits.to_multiset());
    }
}

/// An edit lies within a text of `n` lines, or directly behind it.
pub open spec fn edit_in_range(edit: EditView, n: nat) -> bool {
    edit.start_line <= n + 1 && edit.end_line <= n + 1
}

/// What becomes of the lines from the first one that the first `n` edits replace.
pub open spec fn replaced_from(all: Seq<Seq<char>>, edits: Seq<EditView>, n: int) -> Seq<Seq<char>>
    decreases n,
{
    if n <= 0 {
        Seq::empty()
    } else {
        let next = if n == 1 {
            all.len() as int
        } else {
            edit_start(edits[n - 2], all.len())
        };
        lines(edits[n - 1].new_text) + all.subrange(edit_end(edits[n - 1], all.len()), next)
            + replaced_from(all, edits, n - 1)
    }
}

/// Edits are made as if all at once: each replaces the lines that its numbers
/// mean in the text before, and the lines between the edits stay as they are.
/// An edit that begins behind the end of the text is left out here: what another
/// one appended may then be in its range.
pub proof fn law_edits_are_made_at_once(all: Seq<Seq<char>>, edits: Seq<EditView>, n: int)
    requires
        0 < n <= edits.len(),
        no_overlap(edits),
        forall|i: int| 0 <= i < edits.len() ==> edit_in_range(#[trigger] edits[i], all.len()),
    ensures
        all_edited(all, bottom_up(edits), n) == all.take(
            edit_start(bottom_up(edits)[n - 1], all.len()),
        ) + replaced_from(all, bottom_up(edits), n),
        0 <= edit_start(bottom_up(edits)[n - 1], all.len()) <= edit_end(
            bottom_up(edits)[n - 1],
            all.len(),
        ) <= all.len(),
    decreases n,
{
    broadcast use vstd::seq_lib::group_to_multiset_ensures;

    let sorted = bottom_up(edits);
    law_bottom_up_orders_edits(edits);
    assert forall|i: int| 0 <= i < sorted.len() implies edit_in_range(
        #[trigger] sorted[i],
        all.len(),
    ) by {
        assert(sorted.to_multiset().count(sorted[i]) > 0);
        assert(edits.to_multiset().count(sorted[i]) > 0);
        assert(edits.contains(sorted[i]));
        let k = choose|k: int| 0 <= k < edits.len() && edits[k] == sorted[i];
        assert(edit_in_range(edits[k], all.len()));
    }
    let edit = sorted[n - 1];
    let s = edit_start(edit, all.len());
    let e = edit_end(edit, all.len());
    assert(edit_in_range(edit, all.len()));
    if n == 1 {
        assert(all_edited(all, sorted, 0) == all);
        assert(all.skip(e) =~= all.subrange(e, all.len() as int));
        assert(replaced_from(all, sorted, 0) =~= Seq::empty());
        assert(all_edited(all, sorted, 1) =~= all.take(s) + replaced_from(all, sorted, 1));
    } else {
        law_edits_are_made_at_once(all, edits, n - 1);
        let upper = sorted[n - 2];
        let next = edit_start(upper, all.len());
        let below = replaced_from(all, sorted, n - 1);
        let current = all.take(next) + below;
        assert(!overlaps_at(sorted, n - 1));
        assert(edit_in_range(upper, all.len()));
        assert(edit_start(edit, current.len()) == s);
        assert(edit_end(edit, current.len()) == e);
        assert(current.take(s) =~= all.take(s));
        assert(current.skip(e) =~= all.subrange(e, next) + below);
        assert(edited(current, edit) =~= all.take(s) + replaced_from(all, sorted, n));
    }
}

// ── Replacing text ───────────────────────────────────────────────────────────

/// `part` stands in `text` from `k` on.
pub open spec fn stands_at(text: Seq<char>, part: Seq<char>, k: int) -> bool {
    0 <= k && k + part.len() <= text.len() && text.subrange(k, k + part.len()) == part
}

/// The first place from `k` on where `part` stands in `text`.
pub open spec fn find_from(text: Seq<char>, part: Seq<char>, k: int) -> Option<int>
    decreases text.len() + 1 - k,
{
    if k > text.len() {
        None
    } else if stands_at(text, part, k) {
        Some(k)
    } else {
        find_from(text, part, k + 1)
    }
}

pub open spec fn holds_part(text: Seq<char>, part: Seq<char>) -> bool {
    find_from(text, part, 0) is Some
}

/// The first place of `part` replaced.
pub open spec fn replaced_first(text: Seq<char>, part: Seq<char>, new: Seq<char>) -> Seq<char> {
    match find_from(text, part, 0) {
        Some(k) => text.take(k) + new + text.skip(k + part.len()),
        None => text,
    }
}

/// All places of `part` from `k` on replaced, from left to right. The empty part
/// stands before each character and at the end.
pub open spec fn replaced_all(text: Seq<char>, part: Seq<char>, new: Seq<char>, k: int) -> Seq<char>
    decreases text.len() + 1 - k,
{
    if k > text.len() {
        Seq::empty()
    } else if part.len() == 0 {
        if k == text.len() {
            new
        } else {
            new + seq![text[k]] + replaced_all(text, part, new, k + 1)
        }
    } else {
        match find_from(text, part, k) {
            Some(at) => {
                proof {
                    lemma_find_from(text, part, k);
                }
                text.subrange(k, at) + new + replaced_all(text, part, new, at + part.len())
            },
            None => text.skip(k),
        }
    }
}

pub proof fn lemma_find_from(text: Seq<char>, part: Seq<char>, k: int)
    ensures
        find_from(text, part, k) matches Some(at) ==> k <= at && stands_at(text, part, at),
    decreases text.len() + 1 - k,
{
    if k <= text.len() && !stands_at(text, part, k) {
        lemma_find_from(text, part, k + 1);
    }
}

fn at_place(text: &Vec<char>, part: &Vec<char>, k: usize) -> (b: bool)
    requires
        k <= text@.len(),
    ensures
        b == stands_at(text@, part@, k as int),
{
    if part.len() > text.len() - k {
        return false;
    }
    let mut i: usize = 0;
    while i < part.len()
        invariant
            k + part.len() <= text.len(),
            i <= part.len(),
            forall|j: int| 0 <= j < i ==> text@[k + j] == part@[j],
        decreases part.len() - i,
    {
        if text[k + i] != part[i] {
            assert(text@.subrange(k as int, k + part@.len())[i as int] != part@[i as int]);
            return false;
        }
        i += 1;
    }
    assert(text@.subrange(k as int, k + part@.len()) =~= part@);
    true
}

fn find(text: &Vec<char>, part: &Vec<char>, from: usize) -> (at: Option<usize>)
    requires
        from <= text@.len(),
    ensures
        match at {
            Some(k) => find_from(text@, part@, from as int) == Some(k as int) && from <= k && k
                + part@.len() <= text@.len(),
            None => find_from(text@, part@, from as int) is None,
        },
{
    let mut k: usize = from;
    loop
        invariant
            from <= k <= text.len(),
            find_from(text@, part@, from as int) == find_from(text@, part@, k as int),
        decreases text.len() - k,
    {
        if at_place(text, part, k) {
            return Some(k);
        }
        if k == text.len() {
            assert(find_from(text@, part@, k + 1) is None);
            return None;
        }
        k += 1;
    }
}

fn replace_first(text: &str, part: &str, new: &str) -> (out: String)
    ensures
        out@ == replaced_first(text@, part@, new@),
{
    let v = chars_of(text);
    let p = chars_of(part);
    match find(&v, &p, 0) {
        Some(k) => {
            let total = v.len();
            let mut out = substring(&v, 0, k);
            out.append(new);
            out.append(substring(&v, k + p.len(), total).as_str());
            assert(out@ =~= replaced_first(text@, part@, new@));
            out
        },
        None => text.to_string(),
    }
}

fn replace_all_from(v: &Vec<char>, p: &Vec<char>, new: &str, from: usize) -> (out: String)
    requires
        from <= v@.len(),
    ensures
        out@ == replaced_all(v@, p@, new@, from as int),
{
    let mut out = String::new();
    let mut k: usize = from;
    let ghost goal = replaced_all(v@, p@, new@, from as int);
    assert(out@ + goal =~= goal);
    loop
        invariant
            from <= k <= v.len(),
            goal == replaced_all(v@, p@, new@, from as int),
            out@ + replaced_all(v@, p@, new@, k as int) == goal,
        decreases v.len() - k,
    {
        let ghost before = out@;
        if p.len() == 0 {
            out.append(new);
            if k == v.len() {
                assert(out@ =~= goal);
                return out;
            }
            out.push(v[k]);
            assert(before + replaced_all(v@, p@, new@, k as int) =~= out@ + replaced_all(
                v@,
                p@,
                new@,
                k + 1,
            ));
            k += 1;
        } else {
            match find(v, p, k) {
                Some(at) => {
                    out.append(substring(v, k, at).as_str());
                    out.append(new);
                    assert(before + replaced_all(v@, p@, new@, k as int) =~= out@ + replaced_all(
                        v@,
                        p@,
                        new@,
                        at + p@.len(),
                    ));
                    k = at + p.len();
                },
                None => {
                    out.append(substring(v, k, v.len()).as_str());
                    assert(v@.skip(k as int) =~= v@.subrange(k as int, v@.len() as int));
                    assert(out@ =~= goal);
                    return out;
                },
            }
        }
    }
}

/// All places of a part replaced.
pub fn replace_all(text: &str, part: &str, new: &str) -> (out: String)
    ensures
        out@ == replaced_all(text@, part@, new@, 0),
{
    replace_all_from(&chars_of(text), &chars_of(part), new, 0)
}

proof fn lemma_replaced_by_itself(text: Seq<char>, part: Seq<char>, k: int)
    requires
        0 <= k <= text.len(),
    ensures
        replaced_all(text, part, part, k) == text.skip(k),
    decreases text.len() - k,
{
    if part.len() == 0 {
        if k < text.len() {
            lemma_replaced_by_itself(text, part, k + 1);
        }
        assert(replaced_all(text, part, part, k) =~= text.skip(k));
    } else {
        lemma_find_from(text, part, k);
        match find_from(text, part, k) {
            Some(at) => {
                lemma_replaced_by_itself(text, part, at + part.len());
                assert(part == text.subrange(at, at + part.len()));
                assert(replaced_all(text, part, part, k) =~= text.skip(k));
            },
            None => {},
        }
    }
}

/// Replacing a part by itself changes nothing.
pub proof fn law_replacing_by_itself_changes_nothing(text: Seq<char>, part: Seq<char>)
    ensures
        replaced_first(text, part, part) == text,
        replaced_all(text, part, part, 0) == text,
{
    lemma_replaced_by_itself(text, part, 0);
    assert(text.skip(0) =~= text);
    lemma_find_from(text, part, 0);
    match find_from(text, part, 0) {
        Some(k) => {
            assert(text.take(k) + part + text.skip(k + part.len()) =~= text.take(k)
                + text.subrange(k, k + part.len()) + text.skip(k + part.len()));
            assert(text.take(k) + text.subrange(k, k + part.len()) + text.skip(k + part.len())
                =~= text);
        },
        None => {},
    }
}

/// What to change in a file: a part of its text, or whole lines. Lines are
/// counted from one, and `end_line` is not one of them.
#[derive(Debug)]
pub struct FileEdit {
    pub old_string: Option<String>,
    pub new_string: String,
    pub start_line: Option<usize>,
    pub end_line: Option<usize>,
    pub replace_all: bool,
}

/// The first line of the range that the text is looked for in, counted from
/// zero, in a text of `n` lines.
pub open spec fn scope_start(edit: FileEdit, n: nat) -> int {
    match edit.start_line {
        Some(line) => min(max(line - 1, 0), n as int),
        None => 0,
    }
}

/// The line behind that range.
pub open spec fn scope_end(edit: FileEdit, n: nat) -> int {
    match edit.end_line {
        Some(line) => min(max(line - 1, 0), n as int),
        None => n as int,
    }
}

/// The text that is looked for stands in the lines asked for.
pub open spec fn in_scope(text: Seq<char>, edit: FileEdit, find: Seq<char>) -> bool {
    if edit.start_line is Some || edit.end_line is Some {
        let all = lines(text);
        holds_part(
            join(all.subrange(scope_start(edit, all.len()), scope_end(edit, all.len())), "\n"@),
            find,
        )
    } else {
        holds_part(text, find)
    }
}

/// The edit that replaces the lines of a range: from the first one, or up to the
/// last one, where the range leaves that open.
pub open spec fn line_edit(edit: FileEdit) -> EditView {
    EditView {
        start_line: match edit.start_line {
            Some(line) => line,
            None => 1,
        },
        end_line: match edit.end_line {
            Some(line) => line,
            None => usize::MAX,
        },
        new_text: edit.new_string@,
    }
}

/// Why a file cannot be changed.
#[derive(Clone, Copy, Debug, PartialEq, Eq, Structural)]
pub enum EditFileError {
    /// The text to replace does not stand in the lines asked for.
    NotInRange,
    /// The text to replace does not stand in the file.
    NotInFile,
}

impl EditFileError {
    pub fn message(self) -> (text: &'static str)
        ensures
            text@ == match self {
                EditFileError::NotInRange =>
                    "old_string not found within the specified line range"@,
                EditFileError::NotInFile => "old_string not found in the file"@,
            },
    {
        match self {
            EditFileError::NotInRange => "old_string not found within the specified line range",
            EditFileError::NotInFile => "old_string not found in the file",
        }
    }
}

/// Changes a text: the part asked for, which is looked for in the range of lines
/// and replaced in the whole text, or else the lines of the range.
pub fn edit_file(old: &str, edit: &FileEdit) -> (result: Result<String, EditFileError>)
    requires
        edit.old_string is Some && (edit.start_line is Some || edit.end_line is Some)
            ==> scope_start(*edit, lines(old@).len()) <= scope_end(*edit, lines(old@).len()),
    ensures
        match edit.old_string {
            Some(find) => match result {
                Ok(new) => in_scope(old@, *edit, find@) && new@ == if edit.replace_all {
                    replaced_all(old@, find@, edit.new_string@, 0)
                } else {
                    replaced_first(old@, find@, edit.new_string@)
                },
                Err(e) => !in_scope(old@, *edit, find@) && e == if edit.start_line is Some {
                    EditFileError::NotInRange
                } else {
                    EditFileError::NotInFile
                },
            },
            None => result matches Ok(new) && new@ == as_text(
                edited(lines_to_edit(old@), line_edit(*edit)),
                old@,
            ),
        },
{
    match &edit.old_string {
        Some(find_text) => {
            let part = chars_of(find_text.as_str());
            let found = if edit.start_line.is_some() || edit.end_line.is_some() {
                let all = lines_of(old);
                assert(views(all@).len() == all@.len());
                let n = all.len();
                let s: usize = match edit.start_line {
                    Some(line) => {
                        let first = line.saturating_sub(1);
                        if first < n {
                            first
                        } else {
                            n
                        }
                    },
                    None => 0,
                };
                let e: usize = match edit.end_line {
                    Some(line) => {
                        let past = line.saturating_sub(1);
                        if past < n {
                            past
                        } else {
                            n
                        }
                    },
                    None => n,
                };
                let mut range: Vec<String> = Vec::new();
                assert(views(range@) =~= Seq::empty());
                copied(&all, s, e, &mut range);
                assert(views(range@) =~= views(all@).subrange(s as int, e as int));
                let text = join_strings(&range, "\n");
                find(&chars_of(text.as_str()), &part, 0).is_some()
            } else {
                find(&chars_of(old), &part, 0).is_some()
            };
            if !found {
                return Err(
                    if edit.start_line.is_some() {
                        EditFileError::NotInRange
                    } else {
                        EditFileError::NotInFile
                    },
                );
            }
            if edit.replace_all {
                Ok(replace_all(old, find_text.as_str(), edit.new_string.as_str()))
            } else {
                Ok(replace_first(old, find_text.as_str(), edit.new_string.as_str()))
            }
        },
        None => {
            let all = editable_lines(old);
            let whole = TextEdit {
                start_line: match edit.start_line {
                    Some(line) => line,
                    None => 1,
                },
                end_line: match edit.end_line {
                    Some(line) => line,
                    None => usize::MAX,
                },
                new_text: edit.new_string.clone(),
            };
            let new = splice(&all, &whole);
            Ok(to_text(&new, old))
        },
    }
}

// ── Diffs ────────────────────────────────────────────────────────────────────

/// The unified diff between two texts whose names are given.
pub uninterp spec fn unified_diff_of(
    old: Seq<char>,
    new: Seq<char>,
    old_name: Seq<char>,
    new_name: Seq<char>,
) -> Seq<char>;

/// `similar::TextDiff::from_lines` as a unified diff with a header. It is a
/// function of the two texts and the two names.
#[verifier::external_body]
fn diff_lines(old: &str, new: &str, old_name: &str, new_name: &str) -> (diff: String)
    ensures
        diff@ == unified_diff_of(old@, new@, old_name@, new_name@),
{
    similar::TextDiff::from_lines(old, new).unified_diff().header(old_name, new_name).to_string()
}

/// Generate a unified diff string between `old` and `new` content.
pub fn mcp_unified_diff(old: &str, new: &str, path: &str) -> (diff: String)
    ensures
        diff@ == unified_diff_of(old@, new@, "a/"@ + path@, "b/"@ + path@),
{
    let mut old_name = "a/".to_string();
    old_name.append(path);
    let mut new_name = "b/".to_string();
    new_name.append(path);
    diff_lines(old, new, old_name.as_str(), new_name.as_str())
}

/// A line of a unified diff that was added or removed.
pub open spec fn is_change(line: Seq<char>) -> bool {
    &&& line.len() > 0 && (line[0] == '+' || line[0] == '-')
    &&& !begins_with(line, "+++"@)
    &&& !begins_with(line, "---"@)
}

/// How many of the first `n` lines were added or removed.
pub open spec fn changes(all: Seq<Seq<char>>, n: int) -> nat
    decreases n,
{
    if n <= 0 {
        0
    } else {
        changes(all, n - 1) + if is_change(all[n - 1]) {
            1nat
        } else {
            0
        }
    }
}

/// How many lines a unified diff adds and removes.
pub fn lines_changed(diff: &str) -> (count: usize)
    ensures
        count == changes(lines(diff@), lines(diff@).len() as int),
{
    let all = lines_of(diff);
    let ghost texts = lines(diff@);
    let mut count: usize = 0;
    let mut i: usize = 0;
    assert(views(all@).len() == all@.len());
    while i < all.len()
        invariant
            i <= all.len(),
            texts == views(all@),
            count <= i,
            count == changes(texts, i as int),
        decreases all.len() - i,
    {
        let line = all[i].as_str();
        assert(texts[i as int] == line@);
        if line.unicode_len() > 0 && (line.get_char(0) == '+' || line.get_char(0) == '-')
            && !has_prefix(line, "+++") && !has_prefix(line, "---") {
            count += 1;
        }
        i += 1;
    }
    count
}

/// The last of the first `n` characters that begins at byte `limit` or before,
/// or the first one.
pub open spec fn last_within(text: Seq<char>, limit: nat, n: int) -> int
    decreases n,
{
    if n <= 1 {
        0
    } else if byte_offset(text, n - 1) <= limit {
        n - 1
    } else {
        last_within(text, limit, n - 1)
    }
}

/// The first twenty lines.
pub open spec fn first_lines(text: Seq<char>) -> Seq<char> {
    let all = lines(text);
    join(all.take(min(all.len() as int, 20)), "\n"@)
}

/// The start of a diff: no more than twenty lines, cut before the last character
/// within four hundred bytes.
pub open spec fn diff_preview(diff: Seq<char>) -> Seq<char> {
    if diff.len() == 0 {
        Seq::empty()
    } else {
        let text = first_lines(diff);
        text.take(last_within(text, 400, text.len() as int)).push('\u{2026}')
    }
}

/// Build a truncated diff preview string for MCP approval dialogs.
pub fn mcp_diff_preview(diff: &str) -> (preview: String)
    ensures
        preview@ == diff_preview(diff@),
{
    if diff.unicode_len() == 0 {
        let none = String::new();
        assert(none@ =~= Seq::empty());
        return none;
    }
    let all = lines_of(diff);
    assert(views(all@).len() == all@.len());
    let mut first: Vec<String> = Vec::new();
    assert(views(first@) =~= Seq::empty());
    let count: usize = if all.len() < 20 {
        all.len()
    } else {
        20
    };
    copied(&all, 0, count, &mut first);
    assert(views(first@) =~= lines(diff@).take(count as int));
    let text = join_strings(&first, "\n");
    let v = chars_of(text.as_str());
    let mut cut: usize = 0;
    let mut bytes: usize = 0;
    let mut k: usize = 0;
    // The last character that begins within the limit; bytes are counted until
    // they exceed it.
    while k < v.len() && bytes <= 400
        invariant
            k <= v.len(),
            bytes <= 404,
            bytes == byte_offset(v@, k as int),
            cut == last_within(v@, 400, k as int),
            cut <= k,
            k > 0 ==> cut < k,
        decreases v.len() - k,
    {
        cut = k;
        bytes += char_utf8_len(v[k]) as usize;
        k += 1;
    }
    proof {
        lemma_last_within(v@, 400, k as int, v@.len() as int);
    }
    let mut preview = substring(&v, 0, cut);
    preview.push('\u{2026}');
    assert(preview@ =~= diff_preview(diff@));
    preview
}

proof fn lemma_last_within(text: Seq<char>, limit: nat, k: int, n: int)
    requires
        0 <= k <= n <= text.len(),
        k == n || byte_offset(text, k) > limit,
    ensures
        last_within(text, limit, k) == last_within(text, limit, n),
    decreases n,
{
    if k < n {
        crate::text::lemma_byte_offset_monotone(text, k, n - 1);
        lemma_last_within(text, limit, k, n - 1);
    }
}

/// A preview is a start of the first lines of a diff, with an ellipsis behind it.
pub proof fn law_preview_is_a_start_of_the_diff(diff: Seq<char>)
    requires
        diff.len() > 0,
    ensures
        diff_preview(diff).last() == '\u{2026}',
        begins_with(first_lines(diff), diff_preview(diff).drop_last()),
        byte_offset(diff_preview(diff), diff_preview(diff).len() - 1) <= 400,
{
    let text = first_lines(diff);
    let n = text.len() as int;
    let cut = last_within(text, 400, n);
    lemma_last_within_bound(text, 400, n);
    let preview = diff_preview(diff);
    assert(preview.drop_last() =~= text.take(cut));
    assert(text.subrange(0, cut) =~= text.take(cut));
    lemma_byte_offset_prefix(text, preview, cut);
}

proof fn lemma_last_within_bound(text: Seq<char>, limit: nat, n: int)
    requires
        0 <= n <= text.len(),
    ensures
        0 <= last_within(text, limit, n) <= n,
        byte_offset(text, last_within(text, limit, n)) <= limit,
    decreases n,
{
    if n > 1 && byte_offset(text, n - 1) > limit {
        lemma_last_within_bound(text, limit, n - 1);
    }
}

proof fn lemma_byte_offset_prefix(a: Seq<char>, b: Seq<char>, n: int)
    requires
        n <= a.len(),
        n <= b.len(),
        forall|i: int| 0 <= i < n ==> a[i] == b[i],
    ensures
        byte_offset(a, n) == byte_offset(b, n),
    decreases n,
{
    if n > 0 {
        lemma_byte_offset_prefix(a, b, n - 1);
    }
}

// ── What the edits come to ───────────────────────────────────────────────────

/// Where the lines of a text begin.
pub proof fn lemma_text_from_line(all: Seq<Seq<char>>, k: int)
    requires
        all.len() > 0,
        0 <= k <= all.len(),
        forall|i: int| 0 <= i < all.len() ==> !(#[trigger] all[i]).contains('\n'),
    ensures
        ({
            let text = join(all, "\n"@);
            let start = if k == 0 {
                Seq::empty()
            } else if k < all.len() {
                join(all.take(k), "\n"@) + "\n"@
            } else {
                text
            };
            &&& start.len() == line_begin(text, k)
            &&& text == start + join(all.skip(k), "\n"@)
            &&& split_on(text, '\n') == all
        }),
{
    reveal_strlit("\n");
    assert("\n"@ =~= seq!['\n']);
    let text = join(all, "\n"@);
    law_splitting_undoes_joining(all, '\n');
    if k == 0 {
        assert(all.skip(0) =~= all);
    } else if k == all.len() {
        assert(all.skip(k) =~= Seq::empty());
        assert(text + Seq::<char>::empty() =~= text);
    } else {
        assert(all.take(k) + all.skip(k) =~= all);
        law_joining_goes_part_by_part(all.take(k), all.skip(k), Seq::empty(), "\n"@);
        lemma_start_is_what_is_joined(all, k);
    }
}

proof fn lemma_start_is_what_is_joined(all: Seq<Seq<char>>, k: int)
    requires
        0 < k <= all.len(),
    ensures
        line_start(all, k) == join(all.take(k), "\n"@).len() + 1,
    decreases k,
{
    reveal_strlit("\n");
    if k == 1 {
        assert(all.take(1) =~= seq![all[0]]);
        assert(line_start(all, 0) == 0);
    } else {
        lemma_start_is_what_is_joined(all, k - 1);
        assert(all.take(k).drop_last() =~= all.take(k - 1));
    }
}

/// Reading a range of lines gives these lines, each with its line feed: from the first
/// one to the last one, both counted from zero and both meant.
pub proof fn law_range_holds_its_lines(all: Seq<Seq<char>>, first: int, last: int)
    requires
        forall|i: int| 0 <= i < all.len() ==> !(#[trigger] all[i]).contains('\n'),
        0 <= first <= last < all.len(),
    ensures
        ({
            let text = join(all, "\n"@);
            text.subrange(line_begin(text, first), line_begin(text, last + 1)) == join(
                all.subrange(first, last + 1),
                "\n"@,
            ) + if last + 1 < all.len() {
                "\n"@
            } else {
                Seq::empty()
            }
        }),
{
    let sep = "\n"@;
    let text = join(all, sep);
    let part = all.subrange(first, last + 1);
    lemma_text_from_line(all, first);
    lemma_text_from_line(all, last + 1);
    let a = line_begin(text, first);
    let b = line_begin(text, last + 1);
    lemma_line_begin_bound(text, first, last + 1);
    let end = if last + 1 < all.len() {
        sep
    } else {
        Seq::empty()
    };
    assert(text.take(b) =~= join(all.take(last + 1), sep) + end) by {
        if last + 1 == all.len() {
            assert(all.take(last + 1) =~= all);
            assert(text.take(b) =~= text);
        }
    }
    if first == 0 {
        assert(part =~= all.take(last + 1));
        assert(text.subrange(a, b) =~= text.take(b));
    } else {
        assert(all.take(last + 1) =~= all.take(first) + part);
        law_joining_goes_part_by_part(all.take(first), part, Seq::empty(), sep);
        assert(text.subrange(a, b) =~= text.take(b).skip(a));
        assert(text.take(b) =~= (join(all.take(first), sep) + sep) + (join(part, sep) + end));
        assert(text.take(b).skip(a) =~= join(part, sep) + end);
    }
}

/// An edit takes out the lines from `start_line` up to, but not including, `end_line`,
/// both counted from one, and puts its own lines in their place, be they none.
pub proof fn law_edit_replaces_its_lines(all: Seq<Seq<char>>, edit: EditView)
    requires
        1 <= edit.start_line <= edit.end_line <= all.len() + 1,
    ensures
        edited(all, edit) == all.take(edit.start_line - 1) + lines(edit.new_text) + all.skip(
            edit.end_line - 1,
        ),
        edited(all, edit).len() == all.len() - (edit.end_line - edit.start_line) + lines(
            edit.new_text,
        ).len(),
{
}

/// Numbers outside of a text mean its ends: one before the first line the first line, and
/// one behind the last line the end. A range that ends before it begins takes out nothing.
pub proof fn law_edit_outside_the_text_is_at_its_ends(all: Seq<Seq<char>>, edit: EditView)
    ensures
        edit.start_line == 0 ==> edited(all, edit) == edited(
            all,
            EditView { start_line: 1, ..edit },
        ),
        edit.start_line > all.len() ==> edited(all, edit) == all + lines(edit.new_text),
        1 <= edit.start_line <= all.len() + 1 && edit.end_line < edit.start_line ==> edited(
            all,
            edit,
        ) == all.take(edit.start_line - 1) + lines(edit.new_text) + all.skip(edit.start_line - 1),
        1 <= edit.start_line <= all.len() + 1 && edit.end_line > all.len() ==> edited(all, edit)
            == all.take(edit.start_line - 1) + lines(edit.new_text),
{
    let n = all.len() as int;
    assert(all.take(n) =~= all);
    assert(all.skip(n) =~= Seq::empty());
    if edit.start_line > all.len() {
        assert(edited(all, edit) =~= all + lines(edit.new_text));
    }
    if 1 <= edit.start_line <= all.len() + 1 && edit.end_line > all.len() {
        assert(edited(all, edit) =~= all.take(edit.start_line - 1) + lines(edit.new_text));
    }
}

/// The text after one edit: the lines before the range, those of the edit and those behind
/// the range, joined by line feeds, and one at the end where the text had one there. A text
/// without a line counts as one that is empty.
pub proof fn law_one_edit_changes_the_text(text: Seq<char>, edit: EditView)
    requires
        1 <= edit.start_line <= edit.end_line,
        edit.end_line <= lines(text).len() + 1 || (edit.end_line <= 2 && lines(text).len() == 0),
    ensures
        ({
            let all = if lines(text).len() == 0 {
                seq![Seq::<char>::empty()]
            } else {
                lines(text)
            };
            let new = join(
                all.take(edit.start_line - 1) + lines(edit.new_text) + all.skip(
                    edit.end_line - 1,
                ),
                "\n"@,
            );
            let ended = text.len() > 0 && text[text.len() - 1] == '\n';
            let new_ended = new.len() > 0 && new[new.len() - 1] == '\n';
            edits_applied(text, seq![edit]) == if ended && !new_ended {
                new + seq!['\n']
            } else {
                new
            }
        }),
{
    let all = lines_to_edit(text);
    let one = seq![edit];
    assert(one.drop_last() =~= Seq::<EditView>::empty());
    reveal_with_fuel(bottom_up, 2);
    assert(bottom_up(one) =~= one);
    reveal_with_fuel(all_edited, 2);
    law_edit_replaces_its_lines(all, edit);
    let new = join(edited(all, edit), "\n"@);
    assert(new.push('\n') =~= new + seq!['\n']);
}

proof fn lemma_placed_first(edits: Seq<EditView>, edit: EditView)
    requires
        forall|i: int| 0 <= i < edits.len() ==> (#[trigger] edits[i]).start_line < edit.start_line,
    ensures
        placed(edits, edit) == seq![edit] + edits,
    decreases edits.len(),
{
    if edits.len() == 0 {
        assert(placed(edits, edit) =~= seq![edit] + edits);
    } else {
        let d = edits.drop_last();
        assert forall|i: int| 0 <= i < d.len() implies (#[trigger] d[i]).start_line
            < edit.start_line by {
            assert(d[i] == edits[i]);
        }
        assert(edits[edits.len() - 1].start_line < edit.start_line);
        lemma_placed_first(d, edit);
        assert(placed(edits, edit) =~= seq![edit] + edits);
    }
}

proof fn lemma_placed_behind_first(first: EditView, edits: Seq<EditView>, edit: EditView)
    requires
        edit.start_line <= first.start_line,
    ensures
        placed(seq![first] + edits, edit) == seq![first] + placed(edits, edit),
    decreases edits.len(),
{
    let all = seq![first] + edits;
    if edits.len() == 0 {
        assert(all =~= seq![first]);
        assert(placed(all, edit) =~= seq![first] + placed(edits, edit));
    } else {
        assert(all.last() == edits.last());
        assert(all.drop_last() =~= seq![first] + edits.drop_last());
        if edits.last().start_line < edit.start_line {
            lemma_placed_behind_first(first, edits.drop_last(), edit);
        }
        assert(placed(all, edit) =~= seq![first] + placed(edits, edit));
    }
}

proof fn lemma_lowest_comes_first(edits: Seq<EditView>, at: int, low: EditView)
    requires
        0 <= at <= edits.len(),
        forall|i: int| 0 <= i < edits.len() ==> (#[trigger] edits[i]).start_line < low.start_line,
    ensures
        bottom_up(edits.insert(at, low)) == seq![low] + bottom_up(edits),
    decreases edits.len(),
{
    broadcast use vstd::seq_lib::group_to_multiset_ensures;

    let whole = edits.insert(at, low);
    if at == edits.len() {
        assert(whole.drop_last() =~= edits);
        let sorted = bottom_up(edits);
        law_bottom_up_orders_edits(edits);
        assert forall|i: int| 0 <= i < sorted.len() implies (#[trigger] sorted[i]).start_line
            < low.start_line by {
            assert(sorted.to_multiset().count(sorted[i]) > 0);
            assert(edits.contains(sorted[i]));
            let k = choose|k: int| 0 <= k < edits.len() && edits[k] == sorted[i];
            assert(edits[k].start_line < low.start_line);
        }
        lemma_placed_first(sorted, low);
    } else {
        let d = edits.drop_last();
        assert forall|i: int| 0 <= i < d.len() implies (#[trigger] d[i]).start_line
            < low.start_line by {
            assert(d[i] == edits[i]);
        }
        lemma_lowest_comes_first(d, at, low);
        assert(whole.drop_last() =~= d.insert(at, low));
        assert(whole.last() == edits.last());
        assert(edits[edits.len() - 1].start_line < low.start_line);
        lemma_placed_behind_first(low, bottom_up(d), edits.last());
    }
}

proof fn lemma_edits_in_front(
    start: Seq<Seq<char>>,
    rest: Seq<Seq<char>>,
    edits: Seq<EditView>,
    n: int,
)
    requires
        0 <= n <= edits.len(),
        forall|i: int|
            0 <= i < edits.len() ==> (#[trigger] edits[i]).start_line <= start.len() + 1
                && edits[i].end_line <= start.len() + 1,
        forall|i: int, j: int|
            0 <= i < j < edits.len() ==> (#[trigger] edits[i]).start_line >= (
            #[trigger] edits[j]).start_line && edits[j].end_line <= edits[i].start_line,
    ensures
        all_edited(start + rest, edits, n) == all_edited(start, edits, n) + rest,
        n > 0 ==> all_edited(start, edits, n).len() >= edits[n - 1].start_line - 1,
    decreases n,
{
    if n > 0 {
        lemma_edits_in_front(start, rest, edits, n - 1);
        let now = all_edited(start, edits, n - 1);
        let edit = edits[n - 1];
        if n > 1 {
            assert(edits[n - 2].start_line >= edit.start_line);
        }
        assert(edit.start_line - 1 <= now.len());
        assert(edit.end_line - 1 <= now.len());
        assert(edited(now + rest, edit) =~= edited(now, edit) + rest);
    }
}

/// Edits change the text as if each were made on its own: the lowest of them, wherever it
/// stands in the list, replaces its lines, what lies behind these stays, and what lies
/// before them becomes what the other edits make of it. Without an edit all stays.
pub proof fn law_lowest_edit_leaves_the_rest(
    all: Seq<Seq<char>>,
    edits: Seq<EditView>,
    at: int,
    low: EditView,
)
    requires
        0 <= at <= edits.len(),
        1 <= low.start_line <= low.end_line <= all.len() + 1,
        forall|i: int|
            0 <= i < edits.len() ==> (#[trigger] edits[i]).start_line < low.start_line
                && edits[i].end_line <= low.start_line,
        no_overlap(edits),
    ensures
        ({
            let n = edits.len() as int;
            all_edited(all, bottom_up(edits.insert(at, low)), n + 1) == all_edited(
                all.take(low.start_line - 1),
                bottom_up(edits),
                n,
            ) + lines(low.new_text) + all.skip(low.end_line - 1)
        }),
        all_edited(all, bottom_up(Seq::empty()), 0) == all,
{
    broadcast use vstd::seq_lib::group_to_multiset_ensures;

    let n = edits.len() as int;
    let sorted = bottom_up(edits);
    law_bottom_up_orders_edits(edits);
    lemma_lowest_comes_first(edits, at, low);
    let start = all.take(low.start_line - 1);
    let rest = lines(low.new_text) + all.skip(low.end_line - 1);
    law_edit_replaces_its_lines(all, low);
    assert(edited(all, low) =~= start + rest);
    lemma_after_first(all, low, sorted, n);
    assert forall|i: int| 0 <= i < sorted.len() implies (#[trigger] sorted[i]).start_line
        <= start.len() + 1 && sorted[i].end_line <= start.len() + 1 by {
        assert(sorted.to_multiset().count(sorted[i]) > 0);
        assert(edits.contains(sorted[i]));
        let k = choose|k: int| 0 <= k < edits.len() && edits[k] == sorted[i];
        assert(edits[k].start_line < low.start_line);
    }
    lemma_chain_is_apart(sorted);
    lemma_edits_in_front(start, rest, sorted, n);
    assert(all_edited(start, sorted, n) + rest =~= all_edited(start, sorted, n) + lines(
        low.new_text,
    ) + all.skip(low.end_line - 1));
}

proof fn lemma_after_first(
    all: Seq<Seq<char>>,
    first: EditView,
    edits: Seq<EditView>,
    n: int,
)
    requires
        0 <= n <= edits.len(),
    ensures
        all_edited(all, seq![first] + edits, n + 1) == all_edited(edited(all, first), edits, n),
    decreases n,
{
    let whole = seq![first] + edits;
    if n == 0 {
        assert(all_edited(all, whole, 0) == all);
        assert(whole[0] == first);
    } else {
        lemma_after_first(all, first, edits, n - 1);
        assert(whole[n] == edits[n - 1]);
    }
}

/// Edits that are in order, each of which ends before the one in front of it begins, are
/// apart from each other.
proof fn lemma_chain_is_apart(sorted: Seq<EditView>)
    requires
        forall|i: int, j: int|
            0 <= i < j < sorted.len() ==> (#[trigger] sorted[i]).start_line >= (
            #[trigger] sorted[j]).start_line,
        forall|i: int| 0 < i < sorted.len() ==> !#[trigger] overlaps_at(sorted, i),
    ensures
        forall|i: int, j: int|
            0 <= i < j < sorted.len() ==> (#[trigger] sorted[j]).end_line <= (
            #[trigger] sorted[i]).start_line,
{
    assert forall|i: int, j: int| 0 <= i < j < sorted.len() implies (
    #[trigger] sorted[j]).end_line <= (#[trigger] sorted[i]).start_line by {
        assert(!overlaps_at(sorted, j));
        if i < j - 1 {
            assert(sorted[i].start_line >= sorted[j - 1].start_line);
        }
    }
}

/// Two edits of a list, the first of which stands before the second in it, do not meet: the
/// one that begins further up ends before the other begins. Of two that begin at one line
/// the second takes out no line.
pub open spec fn are_apart(first: EditView, second: EditView) -> bool {
    if first.start_line >= second.start_line {
        second.end_line <= first.start_line
    } else {
        first.end_line <= second.start_line
    }
}

/// Each edit ends before those in front of it begin.
spec fn is_chain(edits: Seq<EditView>) -> bool {
    forall|i: int, j: int|
        0 <= i < j < edits.len() ==> (#[trigger] edits[j]).end_line <= (
        #[trigger] edits[i]).start_line
}

/// Each edit is apart from another one that follows them.
spec fn all_apart(edits: Seq<EditView>, edit: EditView) -> bool {
    forall|i: int| 0 <= i < edits.len() ==> are_apart(#[trigger] edits[i], edit)
}

/// Each two edits are apart.
spec fn each_apart(edits: Seq<EditView>) -> bool {
    forall|i: int, j: int|
        0 <= i < j < edits.len() ==> are_apart(#[trigger] edits[i], #[trigger] edits[j])
}

/// The edits descend by the line that they begin with.
spec fn descends(edits: Seq<EditView>) -> bool {
    forall|i: int, j: int|
        0 <= i < j < edits.len() ==> (#[trigger] edits[i]).start_line >= (
        #[trigger] edits[j]).start_line
}

proof fn lemma_placed_holds(edits: Seq<EditView>, edit: EditView)
    ensures
        forall|i: int|
            0 <= i < edits.len() ==> placed(edits, edit).contains(#[trigger] edits[i]),
        placed(edits, edit).contains(edit),
    decreases edits.len(),
{
    let all = placed(edits, edit);
    let n = edits.len() as int;
    if n == 0 || edits.last().start_line >= edit.start_line {
        assert(all =~= edits.push(edit));
        assert(all[n] == edit);
        assert forall|i: int| 0 <= i < n implies all.contains(#[trigger] edits[i]) by {
            assert(all[i] == edits[i]);
        }
    } else {
        let d = edits.drop_last();
        lemma_placed_holds(d, edit);
        let q = placed(d, edit);
        assert(all =~= q.push(edits.last()));
        assert(all[q.len() as int] == edits.last());
        assert forall|i: int| 0 <= i < n implies all.contains(#[trigger] edits[i]) by {
            if i < n - 1 {
                assert(q.contains(d[i]));
                let k = choose|k: int| 0 <= k < q.len() && q[k] == d[i];
                assert(all[k] == edits[i]);
            }
        }
        let e = choose|k: int| 0 <= k < q.len() && q[k] == edit;
        assert(all[e] == edit);
    }
}

proof fn lemma_drop_last_descends(edits: Seq<EditView>)
    requires
        descends(edits),
        edits.len() > 0,
    ensures
        descends(edits.drop_last()),
        forall|i: int| 0 <= i < edits.len() - 1 ==> #[trigger] edits[i] == edits.drop_last()[i],
        forall|i: int|
            0 <= i < edits.len() ==> (#[trigger] edits[i]).start_line >= edits.last().start_line,
{
    let d = edits.drop_last();
    assert forall|i: int, j: int| 0 <= i < j < d.len() implies (#[trigger] d[i]).start_line >= (
    #[trigger] d[j]).start_line by {
        assert(d[i] == edits[i] && d[j] == edits[j]);
    }
}

proof fn lemma_chain_was_apart(edits: Seq<EditView>, edit: EditView)
    requires
        descends(edits),
        is_chain(placed(edits, edit)),
    ensures
        is_chain(edits),
        all_apart(edits, edit),
    decreases edits.len(),
{
    let all = placed(edits, edit);
    let n = edits.len() as int;
    if n == 0 || edits.last().start_line >= edit.start_line {
        assert(all =~= edits.push(edit));
        assert forall|i: int, j: int| 0 <= i < j < n implies (#[trigger] edits[j]).end_line <= (
        #[trigger] edits[i]).start_line by {
            assert(all[i] == edits[i] && all[j] == edits[j]);
        }
        assert forall|i: int| 0 <= i < n implies are_apart(#[trigger] edits[i], edit) by {
            assert(all[i] == edits[i] && all[n] == edit);
            lemma_drop_last_descends(edits);
        }
    } else {
        let d = edits.drop_last();
        let last = edits.last();
        let q = placed(d, edit);
        let m = q.len() as int;
        lemma_drop_last_descends(edits);
        assert(all =~= q.push(last));
        assert(all[m] == last);
        assert forall|i: int, j: int| 0 <= i < j < m implies (#[trigger] q[j]).end_line <= (
        #[trigger] q[i]).start_line by {
            assert(all[i] == q[i] && all[j] == q[j]);
        }
        lemma_chain_was_apart(d, edit);
        lemma_placed_holds(d, edit);
        assert forall|k: int| 0 <= k < m implies last.end_line <= (#[trigger] q[k]).start_line by {
            assert(all[m].end_line <= all[k].start_line);
        }
        let e = choose|k: int| 0 <= k < m && q[k] == edit;
        assert(last.end_line <= q[e].start_line);
        assert forall|i: int, j: int| 0 <= i < j < n implies (#[trigger] edits[j]).end_line <= (
        #[trigger] edits[i]).start_line by {
            if j < n - 1 {
                assert(d[i] == edits[i] && d[j] == edits[j]);
            } else {
                assert(q.contains(d[i]));
                let k = choose|k: int| 0 <= k < m && q[k] == d[i];
                assert(last.end_line <= q[k].start_line);
            }
        }
        assert forall|i: int| 0 <= i < n implies are_apart(#[trigger] edits[i], edit) by {
            if i < n - 1 {
                assert(are_apart(d[i], edit));
            }
        }
    }
}

proof fn lemma_apart_is_chain(edits: Seq<EditView>, edit: EditView)
    requires
        descends(edits),
        is_chain(edits),
        all_apart(edits, edit),
    ensures
        is_chain(placed(edits, edit)),
    decreases edits.len(),
{
    let all = placed(edits, edit);
    let n = edits.len() as int;
    if n == 0 || edits.last().start_line >= edit.start_line {
        assert(all =~= edits.push(edit));
        assert forall|i: int, j: int| 0 <= i < j < all.len() implies (#[trigger] all[j]).end_line
            <= (#[trigger] all[i]).start_line by {
            assert(all[i] == edits[i]);
            if j < n {
                assert(all[j] == edits[j]);
            } else {
                assert(are_apart(edits[i], edit));
                lemma_drop_last_descends(edits);
            }
        }
    } else {
        let d = edits.drop_last();
        let last = edits.last();
        let q = placed(d, edit);
        let m = q.len() as int;
        lemma_drop_last_descends(edits);
        assert(all =~= q.push(last));
        assert forall|i: int, j: int| 0 <= i < j < d.len() implies (#[trigger] d[j]).end_line <= (
        #[trigger] d[i]).start_line by {
            assert(d[i] == edits[i] && d[j] == edits[j]);
        }
        assert forall|i: int| 0 <= i < d.len() implies are_apart(#[trigger] d[i], edit) by {
            assert(d[i] == edits[i]);
        }
        lemma_apart_is_chain(d, edit);
        lemma_placed(d, edit);
        assert(are_apart(edits[n - 1], edit));
        assert forall|k: int| 0 <= k < m implies last.end_line <= (#[trigger] q[k]).start_line by {
            if q[k] != edit {
                assert(q.contains(q[k]));
                let i = choose|i: int| 0 <= i < d.len() && d[i] == q[k];
                assert(edits[n - 1].end_line <= edits[i].start_line);
            }
        }
        assert forall|i: int, j: int| 0 <= i < j < all.len() implies (#[trigger] all[j]).end_line
            <= (#[trigger] all[i]).start_line by {
            assert(all[i] == q[i]);
            if j < m {
                assert(all[j] == q[j]);
            } else {
                assert(last.end_line <= q[i].start_line);
            }
        }
    }
}

proof fn lemma_placed_apart(edits: Seq<EditView>, edit: EditView)
    requires
        descends(edits),
    ensures
        is_chain(placed(edits, edit)) <==> is_chain(edits) && all_apart(edits, edit),
        forall|i: int|
            0 <= i < edits.len() ==> placed(edits, edit).contains(#[trigger] edits[i]),
        placed(edits, edit).contains(edit),
{
    lemma_placed_holds(edits, edit);
    if is_chain(placed(edits, edit)) {
        lemma_chain_was_apart(edits, edit);
    }
    if is_chain(edits) && all_apart(edits, edit) {
        lemma_apart_is_chain(edits, edit);
    }
}

proof fn lemma_sorted_apart(edits: Seq<EditView>)
    ensures
        is_chain(bottom_up(edits)) <==> each_apart(edits),
    decreases edits.len(),
{
    broadcast use vstd::seq_lib::group_to_multiset_ensures;

    if edits.len() > 0 {
        let d = edits.drop_last();
        let last = edits.last();
        let n = d.len() as int;
        lemma_sorted_apart(d);
        law_bottom_up_orders_edits(d);
        let before = bottom_up(d);
        lemma_placed_apart(before, last);
        assert(all_apart(before, last) <==> all_apart(d, last)) by {
            if all_apart(before, last) {
                assert forall|i: int| 0 <= i < d.len() implies are_apart(#[trigger] d[i], last) by {
                    assert(d.to_multiset().count(d[i]) > 0);
                    assert(before.contains(d[i]));
                    let k = choose|k: int| 0 <= k < before.len() && before[k] == d[i];
                    assert(are_apart(before[k], last));
                }
            }
            if all_apart(d, last) {
                assert forall|i: int| 0 <= i < before.len() implies are_apart(
                    #[trigger] before[i],
                    last,
                ) by {
                    assert(before.to_multiset().count(before[i]) > 0);
                    assert(d.contains(before[i]));
                    let k = choose|k: int| 0 <= k < d.len() && d[k] == before[i];
                    assert(are_apart(d[k], last));
                }
            }
        }
        if each_apart(edits) {
            assert forall|i: int, j: int| 0 <= i < j < d.len() implies are_apart(
                #[trigger] d[i],
                #[trigger] d[j],
            ) by {
                assert(d[i] == edits[i] && d[j] == edits[j]);
            }
            assert forall|i: int| 0 <= i < d.len() implies are_apart(#[trigger] d[i], last) by {
                assert(d[i] == edits[i] && edits[n] == last);
            }
        }
        if each_apart(d) && all_apart(d, last) {
            assert forall|i: int, j: int| 0 <= i < j < edits.len() implies are_apart(
                #[trigger] edits[i],
                #[trigger] edits[j],
            ) by {
                assert(d[i] == edits[i]);
                if j < n {
                    assert(d[j] == edits[j]);
                }
            }
        }
    }
}

/// Edits are made where no two of them meet, and refused where two do.
pub proof fn law_edits_that_meet_are_refused(edits: Seq<EditView>)
    ensures
        no_overlap(edits) <==> forall|i: int, j: int|
            0 <= i < j < edits.len() ==> {
                let first = #[trigger] edits[i];
                let second = #[trigger] edits[j];
                if first.start_line >= second.start_line {
                    second.end_line <= first.start_line
                } else {
                    first.end_line <= second.start_line
                }
            },
{
    let sorted = bottom_up(edits);
    law_bottom_up_orders_edits(edits);
    lemma_sorted_apart(edits);
    if no_overlap(edits) {
        lemma_chain_is_apart(sorted);
        assert forall|i: int, j: int| 0 <= i < j < edits.len() implies {
            let first = #[trigger] edits[i];
            let second = #[trigger] edits[j];
            if first.start_line >= second.start_line {
                second.end_line <= first.start_line
            } else {
                first.end_line <= second.start_line
            }
        } by {
            assert(are_apart(edits[i], edits[j]));
        }
    }
    if forall|i: int, j: int|
        0 <= i < j < edits.len() ==> {
            let first = #[trigger] edits[i];
            let second = #[trigger] edits[j];
            if first.start_line >= second.start_line {
                second.end_line <= first.start_line
            } else {
                first.end_line <= second.start_line
            }
        } {
        assert forall|i: int, j: int| 0 <= i < j < edits.len() implies are_apart(
            #[trigger] edits[i],
            #[trigger] edits[j],
        ) by {}
        assert forall|i: int| 0 < i < sorted.len() implies !#[trigger] overlaps_at(sorted, i) by {
            assert(sorted[i].end_line <= sorted[i - 1].start_line);
        }
    }
}

/// An overlap that is reported is one of two edits of the list.
pub proof fn law_reported_overlap_is_one_of_the_list(edits: Seq<EditView>, i: int)
    requires
        first_overlap(bottom_up(edits), i),
    ensures
        ({
            let e = overlap_of(bottom_up(edits), i);
            &&& e.lower_end > e.upper_start
            &&& e.lower_start <= e.upper_start
            &&& exists|a: int, b: int|
                0 <= a < edits.len() && 0 <= b < edits.len() && (#[trigger] edits[a]).start_line
                    == e.lower_start && edits[a].end_line == e.lower_end && (
                #[trigger] edits[b]).start_line == e.upper_start && edits[b].end_line
                    == e.upper_end
        }),
{
    broadcast use vstd::seq_lib::group_to_multiset_ensures;

    let sorted = bottom_up(edits);
    law_bottom_up_orders_edits(edits);
    assert(sorted.to_multiset().count(sorted[i]) > 0);
    assert(sorted.to_multiset().count(sorted[i - 1]) > 0);
    assert(edits.contains(sorted[i]));
    assert(edits.contains(sorted[i - 1]));
    let a = choose|a: int| 0 <= a < edits.len() && edits[a] == sorted[i];
    let b = choose|b: int| 0 <= b < edits.len() && edits[b] == sorted[i - 1];
    assert(edits[a].start_line == sorted[i].start_line);
    assert(edits[b].start_line == sorted[i - 1].start_line);
}

/// Of two edits that begin at one line the second puts its lines in front of those of the
/// first.
pub proof fn law_later_insertion_comes_first(all: Seq<Seq<char>>, first: EditView, second: EditView)
    requires
        1 <= first.start_line <= first.end_line <= all.len() + 1,
        second.start_line == first.start_line,
        second.end_line <= second.start_line,
    ensures
        no_overlap(seq![first, second]),
        all_edited(all, bottom_up(seq![first, second]), 2) == all.take(first.start_line - 1)
            + lines(second.new_text) + lines(first.new_text) + all.skip(first.end_line - 1),
{
    let both = seq![first, second];
    assert(both.drop_last() =~= seq![first]);
    assert(seq![first].drop_last() =~= Seq::<EditView>::empty());
    reveal_with_fuel(bottom_up, 3);
    assert(bottom_up(seq![first]) =~= seq![first]);
    assert(bottom_up(both) =~= both);
    reveal_with_fuel(all_edited, 3);
    let now = edited(all, first);
    assert(now =~= all.take(first.start_line - 1) + lines(first.new_text) + all.skip(
        first.end_line - 1,
    ));
    assert(edited(now, second) =~= all.take(first.start_line - 1) + lines(second.new_text) + lines(
        first.new_text,
    ) + all.skip(first.end_line - 1));
}

/// The line at which changes are looked for is that of one of the edits, and no edit begins
/// further up.
pub proof fn law_first_edited_line_is_the_topmost(edits: Seq<EditView>)
    requires
        edits.len() > 0,
        forall|i: int| 0 <= i < edits.len() ==> (#[trigger] edits[i]).start_line >= 1,
    ensures
        forall|i: int|
            0 <= i < edits.len() ==> first_edited_line(edits) <= (#[trigger] edits[i]).start_line
                - 1,
        exists|i: int|
            0 <= i < edits.len() && first_edited_line(edits) == (#[trigger] edits[i]).start_line
                - 1,
    decreases edits.len(),
{
    if edits.len() == 1 {
        assert(edits[0].start_line >= 1);
    } else {
        let d = edits.drop_last();
        assert forall|i: int| 0 <= i < d.len() implies (#[trigger] d[i]).start_line >= 1 by {
            assert(d[i] == edits[i]);
        }
        law_first_edited_line_is_the_topmost(d);
        let n = edits.len() - 1;
        assert(edits[n].start_line >= 1);
        assert forall|i: int| 0 <= i < edits.len() implies first_edited_line(edits) <= (
        #[trigger] edits[i]).start_line - 1 by {
            if i < n {
                assert(d[i] == edits[i]);
            }
        }
        let k = choose|k: int|
            0 <= k < d.len() && first_edited_line(d) == (#[trigger] d[k]).start_line - 1;
        assert(edits[k] == d[k]);
    }
}

// ── What replacing comes to ──────────────────────────────────────────────────

/// A part is found where it stands first.
pub proof fn law_found_place_is_the_first(text: Seq<char>, part: Seq<char>, from: int)
    requires
        0 <= from,
    ensures
        match find_from(text, part, from) {
            Some(at) => {
                &&& from <= at
                &&& at + part.len() <= text.len()
                &&& text.subrange(at, at + part.len()) == part
                &&& forall|k: int|
                    from <= k < at ==> #[trigger] text.subrange(k, k + part.len()) != part
            },
            None => forall|k: int|
                from <= k <= text.len() - part.len() ==> #[trigger] text.subrange(
                    k,
                    k + part.len(),
                ) != part,
        },
    decreases text.len() + 1 - from,
{
    if from <= text.len() && !stands_at(text, part, from) {
        law_found_place_is_the_first(text, part, from + 1);
    }
}

/// The pieces of a text from `k` on, between the places of a part.
pub open spec fn pieces_from(text: Seq<char>, part: Seq<char>, k: int) -> Seq<Seq<char>>
    decreases text.len() + 1 - k,
{
    if k > text.len() || part.len() == 0 {
        Seq::empty()
    } else {
        match find_from(text, part, k) {
            Some(at) => {
                proof {
                    lemma_find_from(text, part, k);
                }
                seq![text.subrange(k, at)] + pieces_from(text, part, at + part.len())
            },
            None => seq![text.skip(k)],
        }
    }
}

/// No place of the part begins in any of the pieces, not even where the part follows the
/// piece.
pub open spec fn holds_no_place(pieces: Seq<Seq<char>>, part: Seq<char>) -> bool {
    &&& forall|i: int, k: int|
        0 <= i < pieces.len() - 1 && 0 <= k < pieces[i].len() ==> #[trigger] (pieces[i]
            + part).subrange(k, k + part.len()) != part
    &&& forall|k: int|
        0 <= k <= pieces.last().len() - part.len() ==> #[trigger] pieces.last().subrange(
            k,
            k + part.len(),
        ) != part
}

proof fn lemma_pieces(text: Seq<char>, part: Seq<char>, new: Seq<char>, k: int)
    requires
        0 <= k <= text.len(),
        part.len() > 0,
    ensures
        pieces_from(text, part, k).len() > 0,
        join(pieces_from(text, part, k), part) == text.skip(k),
        join(pieces_from(text, part, k), new) == replaced_all(text, part, new, k),
        holds_no_place(pieces_from(text, part, k), part),
    decreases text.len() - k,
{
    let pieces = pieces_from(text, part, k);
    law_found_place_is_the_first(text, part, k);
    match find_from(text, part, k) {
        Some(at) => {
            let first = text.subrange(k, at);
            let next = at + part.len();
            let rest = pieces_from(text, part, next);
            lemma_pieces(text, part, new, next);
            law_joining_goes_part_by_part(seq![first], rest, first, part);
            law_joining_goes_part_by_part(seq![first], rest, first, new);
            assert(first + part + text.skip(next) =~= text.skip(k));
            assert forall|i: int, j: int|
                0 <= i < pieces.len() - 1 && 0 <= j < pieces[i].len() implies #[trigger] (pieces[i]
                + part).subrange(j, j + part.len()) != part by {
                if i == 0 {
                    assert((first + part).subrange(j, j + part.len()) =~= text.subrange(
                        k + j,
                        k + j + part.len(),
                    ));
                } else {
                    assert(pieces[i] == rest[i - 1]);
                    assert((rest[i - 1] + part).subrange(j, j + part.len()) != part);
                }
            }
            assert(pieces.last() == rest.last());
        },
        None => {
            assert(pieces =~= seq![text.skip(k)]);
            assert forall|j: int|
                0 <= j <= pieces.last().len() - part.len() implies #[trigger] pieces.last().subrange(
                j,
                j + part.len(),
            ) != part by {
                assert(pieces.last().subrange(j, j + part.len()) =~= text.subrange(
                    k + j,
                    k + j + part.len(),
                ));
            }
        },
    }
}

/// Replacing a part everywhere puts the new text in its place between the pieces that it
/// leaves of the text, whatever the new text is, be it empty. The pieces are those of the
/// text: with the part between them they make it up, and the part begins nowhere in them.
pub proof fn law_every_place_is_replaced(text: Seq<char>, part: Seq<char>, new: Seq<char>)
    requires
        part.len() > 0,
    ensures
        exists|pieces: Seq<Seq<char>>|
            {
                &&& pieces.len() > 0
                &&& #[trigger] join(pieces, part) == text
                &&& join(pieces, new) == replaced_all(text, part, new, 0)
                &&& forall|i: int, k: int|
                    0 <= i < pieces.len() - 1 && 0 <= k < pieces[i].len() ==> #[trigger] (pieces[i]
                        + part).subrange(k, k + part.len()) != part
                &&& forall|k: int|
                    0 <= k <= pieces[pieces.len() - 1].len() - part.len()
                        ==> #[trigger] pieces[pieces.len() - 1].subrange(k, k + part.len()) != part
            },
{
    let pieces = pieces_from(text, part, 0);
    lemma_pieces(text, part, new, 0);
    assert(text.skip(0) =~= text);
    assert(join(pieces, part) == text);
    assert(pieces.last() == pieces[pieces.len() - 1]);
}

/// The pieces with which a part is replaced do not depend on the new text: what two new
/// texts give has the same pieces.
pub proof fn law_pieces_do_not_depend_on_the_new_text(
    text: Seq<char>,
    part: Seq<char>,
    new: Seq<char>,
    other: Seq<char>,
)
    requires
        part.len() > 0,
    ensures
        exists|pieces: Seq<Seq<char>>|
            #[trigger] join(pieces, part) == text && join(pieces, new) == replaced_all(
                text,
                part,
                new,
                0,
            ) && join(pieces, other) == replaced_all(text, part, other, 0),
{
    lemma_pieces(text, part, new, 0);
    lemma_pieces(text, part, other, 0);
    assert(text.skip(0) =~= text);
    assert(join(pieces_from(text, part, 0), part) == text);
}

/// The empty part stands before each character and at the end: the new text goes there.
pub proof fn law_empty_part_stands_everywhere(text: Seq<char>, new: Seq<char>)
    ensures
        replaced_all(text, Seq::empty(), new, 0) == join(
            seq![Seq::<char>::empty()] + Seq::new(text.len(), |i: int| seq![text[i]]) + seq![
                Seq::<char>::empty(),
            ],
            new,
        ),
{
    lemma_empty_part(text, new, 0);
    let all = Seq::new(text.len(), |i: int| seq![text[i]]) + seq![Seq::<char>::empty()];
    let from = Seq::new((text.len() - 0) as nat, |i: int| seq![text[0 + i]]) + seq![
        Seq::<char>::empty(),
    ];
    assert(from =~= all);
    let start = seq![Seq::<char>::empty()];
    law_joining_goes_part_by_part(start, all, Seq::empty(), new);
    assert(start + Seq::new(text.len(), |i: int| seq![text[i]]) + seq![Seq::<char>::empty()]
        =~= start + all);
    assert(Seq::<char>::empty() + new + join(all, new) =~= new + join(all, new));
}

proof fn lemma_empty_part(text: Seq<char>, new: Seq<char>, k: int)
    requires
        0 <= k <= text.len(),
    ensures
        replaced_all(text, Seq::empty(), new, k) == new + join(
            Seq::new((text.len() - k) as nat, |i: int| seq![text[k + i]]) + seq![
                Seq::<char>::empty(),
            ],
            new,
        ),
    decreases text.len() - k,
{
    let end = seq![Seq::<char>::empty()];
    let from = Seq::new((text.len() - k) as nat, |i: int| seq![text[k + i]]);
    if k == text.len() {
        assert(from + end =~= end);
        assert(new + Seq::<char>::empty() =~= new);
    } else {
        lemma_empty_part(text, new, k + 1);
        let next = Seq::new((text.len() - (k + 1)) as nat, |i: int| seq![text[k + 1 + i]]);
        let one = seq![seq![text[k]]];
        assert(from + end =~= one + (next + end));
        law_joining_goes_part_by_part(one, next + end, seq![text[k]], new);
        assert(replaced_all(text, Seq::empty(), new, k) =~= new + join(from + end, new));
    }
}

/// Replacing a part once changes its first place and nothing else.
pub proof fn law_first_place_is_replaced(
    before: Seq<char>,
    part: Seq<char>,
    after: Seq<char>,
    new: Seq<char>,
)
    requires
        forall|k: int|
            0 <= k < before.len() ==> #[trigger] (before + part).subrange(k, k + part.len())
                != part,
    ensures
        replaced_first(before + part + after, part, new) == before + new + after,
{
    let text = before + part + after;
    let n = before.len() as int;
    law_found_place_is_the_first(text, part, 0);
    assert(text.subrange(n, n + part.len()) =~= part);
    assert forall|k: int| 0 <= k < n implies #[trigger] text.subrange(k, k + part.len())
        != part by {
        assert(text.subrange(k, k + part.len()) =~= (before + part).subrange(k, k + part.len()));
    }
    assert(find_from(text, part, 0) == Some(n));
    assert(text.take(n) + new + text.skip(n + part.len()) =~= before + new + after);
}

/// A text that a part does not stand in stays as it is.
pub proof fn law_nothing_is_replaced_without_a_place(
    text: Seq<char>,
    part: Seq<char>,
    new: Seq<char>,
)
    requires
        forall|k: int|
            0 <= k <= text.len() - part.len() ==> #[trigger] text.subrange(k, k + part.len())
                != part,
    ensures
        replaced_first(text, part, new) == text,
        replaced_all(text, part, new, 0) == text,
{
    law_found_place_is_the_first(text, part, 0);
    assert(text.skip(0) =~= text);
    if part.len() == 0 {
        assert(text.subrange(0, 0) =~= part);
    }
}

/// What an agent asks to be replaced is found where it stands in the lines asked for: from
/// `start_line` up to `end_line`, counted from one, or in the whole text where no line is
/// given.
pub proof fn law_text_is_looked_for_in_its_lines(
    text: Seq<char>,
    edit: FileEdit,
    find: Seq<char>,
    range: Seq<char>,
)
    requires
        edit.start_line matches Some(line) ==> 1 <= line <= lines(text).len() + 1,
        edit.end_line matches Some(line) ==> 1 <= line <= lines(text).len() + 1,
        range == if edit.start_line is None && edit.end_line is None {
            text
        } else {
            join(
                lines(text).subrange(
                    match edit.start_line {
                        Some(line) => line - 1,
                        None => 0,
                    },
                    match edit.end_line {
                        Some(line) => line - 1,
                        None => lines(text).len() as int,
                    },
                ),
                "\n"@,
            )
        },
    ensures
        in_scope(text, edit, find) <==> exists|k: int|
            0 <= k <= range.len() - find.len() && #[trigger] range.subrange(k, k + find.len())
                == find,
{
    law_found_place_is_the_first(range, find, 0);
    if let Some(at) = find_from(range, find, 0) {
        assert(range.subrange(at, at + find.len()) == find);
    }
}

/// Without a text to look for the lines from `start_line`, or the first, up to `end_line`,
/// or the end, are replaced by the new ones.
pub proof fn law_range_of_a_file_is_replaced(all: Seq<Seq<char>>, edit: FileEdit)
    requires
        edit.start_line matches Some(line) ==> 1 <= line <= all.len() + 1,
        edit.end_line matches Some(line) ==> line <= all.len() + 1,
        edit.start_line is Some && edit.end_line is Some ==> edit.start_line->0 <= edit.end_line->0,
        edit.end_line matches Some(line) ==> 1 <= line,
        all.len() < usize::MAX,
    ensures
        ({
            let first = match edit.start_line {
                Some(line) => line - 1,
                None => 0,
            };
            let past = match edit.end_line {
                Some(line) => line - 1,
                None => all.len() as int,
            };
            edited(all, line_edit(edit)) == all.take(first) + lines(edit.new_string@) + all.skip(
                past,
            )
        }),
{
    let e = line_edit(edit);
    if edit.end_line is None {
        assert(all.skip(all.len() as int) =~= Seq::empty());
        law_edit_outside_the_text_is_at_its_ends(all, e);
        if e.start_line > all.len() {
            assert(all.take(all.len() as int) =~= all);
        }
        assert(edited(all, e) =~= all.take(e.start_line - 1) + lines(e.new_text) + all.skip(
            all.len() as int,
        ));
    } else {
        law_edit_replaces_its_lines(all, e);
    }
}

/// Of a diff those lines count as changes that begin with one or two plus signs or
/// minus signs: three of a sign begin the name of a file.
pub proof fn law_changed_lines_are_counted(all: Seq<Seq<char>>, n: int)
    requires
        0 <= n <= all.len(),
    ensures
        changes(all, n) == all.take(n).filter(
            |line: Seq<char>|
                line.len() > 0 && (line[0] == '+' || line[0] == '-') && !(line.len() >= 3 && line[1]
                    == line[0] && line[2] == line[0]),
        ).len(),
    decreases n,
{
    reveal(Seq::filter);
    reveal_strlit("+++");
    reveal_strlit("---");
    if n > 0 {
        law_changed_lines_are_counted(all, n - 1);
        assert(all.take(n).drop_last() =~= all.take(n - 1));
        let line = all[n - 1];
        if line.len() >= 3 {
            let start = line.subrange(0, 3);
            assert(start[0] == line[0] && start[1] == line[1] && start[2] == line[2]);
            if line[0] == '+' && line[1] == '+' && line[2] == '+' {
                assert(start =~= "+++"@);
            }
            if line[0] == '-' && line[1] == '-' && line[2] == '-' {
                assert(start =~= "---"@);
            }
        }
    }
}

/// The preview of a diff is cut only where another character would begin past its
/// four hundredth byte, or before its last character.
pub proof fn law_preview_is_no_shorter_than_it_must_be(diff: Seq<char>)
    requires
        diff.len() > 0,
    ensures
        ({
            let text = if lines(diff).len() < 20 {
                join(lines(diff), "\n"@)
            } else {
                join(lines(diff).take(20), "\n"@)
            };
            let kept = diff_preview(diff).len() - 1;
            &&& diff_preview(diff).drop_last() == text.take(kept)
            &&& kept + 1 >= text.len() || byte_offset(text, kept + 1) > 400
            &&& kept < text.len() || text.len() == 0
        }),
{
    let text = first_lines(diff);
    let all = lines(diff);
    if all.len() < 20 {
        assert(all.take(all.len() as int) =~= all);
    }
    let n = text.len() as int;
    lemma_last_within_is_last(text, 400, n);
    assert(diff_preview(diff).drop_last() =~= text.take(diff_preview(diff).len() - 1));
}

proof fn lemma_last_within_is_last(text: Seq<char>, limit: nat, n: int)
    requires
        0 <= n <= text.len(),
    ensures
        ({
            let k = last_within(text, limit, n);
            &&& 0 <= k
            &&& k < n || n == 0
            &&& k + 1 >= n || byte_offset(text, k + 1) > limit
        }),
    decreases n,
{
    if n > 1 {
        lemma_last_within_is_last(text, limit, n - 1);
    }
}

} // verus!
