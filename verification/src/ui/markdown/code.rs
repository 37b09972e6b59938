//! Code blocks, with or without syntax highlighting.

use vstd::math::max;
use vstd::prelude::*;

use crate::text::{
    byte_offset, char_utf8_len, chars_of, lemma_byte_offset_monotone, lemma_split_on_concat, lines,
    lines_of, repeat, split, split_on, substring, views,
};
use crate::ui::spans::{
    copied_ids, line_text, line_view, lines_view, one_span, single, Role, Span, SpanView, Style,
};

verus! {

/// A place at which highlights begin or end.
#[derive(Debug)]
pub struct HighlightStep {
    /// Index of a byte of the text.
    pub offset: u32,
    /// The highlights in force end here.
    pub refresh: bool,
    /// The highlights that begin here.
    pub highlights: Vec<u32>,
}

/// What a step says.
pub ghost struct StepView {
    pub offset: u32,
    pub refresh: bool,
    pub highlights: Seq<u32>,
}

impl View for HighlightStep {
    type V = StepView;

    open spec fn view(&self) -> StepView {
        StepView { offset: self.offset, refresh: self.refresh, highlights: self.highlights@ }
    }
}

/// The highlights of a piece of code: those of its syntax, and those that go
/// over them.
#[derive(Debug)]
pub struct CodeHighlights {
    pub syntax: Vec<HighlightStep>,
    pub overlay: Vec<HighlightStep>,
}

/// What the highlights of a piece of code are.
pub ghost struct CodeHighlightsView {
    pub syntax: Seq<StepView>,
    pub overlay: Seq<StepView>,
}

pub open spec fn steps_view(steps: Seq<HighlightStep>) -> Seq<StepView> {
    Seq::new(steps.len(), |i: int| steps[i]@)
}

impl View for CodeHighlights {
    type V = CodeHighlightsView;

    open spec fn view(&self) -> CodeHighlightsView {
        CodeHighlightsView {
            syntax: steps_view(self.syntax@),
            overlay: steps_view(self.overlay@),
        }
    }
}

/// The first character from `k` on that does not begin before byte `offset`.
pub open spec fn char_index_from(s: Seq<char>, offset: nat, k: int) -> int
    decreases s.len() - k,
{
    if k >= s.len() || byte_offset(s, k) >= offset {
        k
    } else {
        char_index_from(s, offset, k + 1)
    }
}

/// The first character that does not begin before byte `offset`.
pub open spec fn char_index(s: Seq<char>, offset: nat) -> int {
    char_index_from(s, offset, 0)
}

/// A character begins at byte `offset`, or the text ends there.
pub open spec fn is_boundary(s: Seq<char>, offset: nat) -> bool {
    byte_offset(s, char_index(s, offset)) == offset
}

/// The text between two bytes.
pub open spec fn slice(s: Seq<char>, start: nat, end: nat) -> Seq<char> {
    s.subrange(char_index(s, start), char_index(s, end))
}

proof fn lemma_char_index_from(s: Seq<char>, offset: nat, k: int)
    requires
        0 <= k <= s.len(),
    ensures
        k <= char_index_from(s, offset, k) <= s.len(),
    decreases s.len() - k,
{
    if k < s.len() && byte_offset(s, k) < offset {
        lemma_char_index_from(s, offset, k + 1);
    }
}

proof fn lemma_char_index_unique(s: Seq<char>, offset: nat, k: int, found: int)
    requires
        0 <= k <= found <= s.len(),
        byte_offset(s, found) == offset,
    ensures
        char_index_from(s, offset, k) == found,
    decreases found - k,
{
    if k < found {
        lemma_byte_offset_monotone(s, k, found);
        lemma_char_index_unique(s, offset, k + 1, found);
    }
}

proof fn lemma_char_index_monotone(s: Seq<char>, a: nat, b: nat)
    requires
        is_boundary(s, a),
        is_boundary(s, b),
        a <= b,
    ensures
        0 <= char_index(s, a) <= char_index(s, b) <= s.len(),
{
    lemma_char_index_from(s, a, 0);
    lemma_char_index_from(s, b, 0);
    if char_index(s, b) < char_index(s, a) {
        lemma_byte_offset_monotone(s, char_index(s, b), char_index(s, a));
    }
}

/// Where the step `i` is; past the last step, nowhere.
pub open spec fn step_offset(steps: Seq<StepView>, i: int) -> u32 {
    if i < steps.len() {
        steps[i].offset
    } else {
        u32::MAX
    }
}

/// The highlights in force after a step.
pub open spec fn after_step(stack: Seq<u32>, step: StepView) -> Seq<u32> {
    if step.refresh {
        step.highlights
    } else {
        stack + step.highlights
    }
}

/// A stretch of text with the same highlights.
pub ghost struct Segment {
    pub start: nat,
    pub end: nat,
    pub highlights: Seq<u32>,
}

/// Where highlighting has got to: the next step of the syntax and of the
/// overlay, the highlights of each that are in force, and the byte.
pub ghost struct Progress {
    pub i: int,
    pub j: int,
    pub syntax: Seq<u32>,
    pub overlay: Seq<u32>,
    pub pos: nat,
}

/// Takes the step that lies at the current byte, if there is one: the syntax
/// goes first.
pub open spec fn take_step(code: CodeHighlightsView, at: Progress) -> Progress {
    if at.pos == step_offset(code.syntax, at.i) {
        Progress {
            i: at.i + 1,
            syntax: after_step(at.syntax, code.syntax[at.i]),
            ..at
        }
    } else if at.pos == step_offset(code.overlay, at.j) {
        Progress {
            j: at.j + 1,
            overlay: after_step(at.overlay, code.overlay[at.j]),
            ..at
        }
    } else {
        at
    }
}

/// The byte at which the next step lies; the end of the text where there is
/// none.
pub open spec fn next_stop(code: CodeHighlightsView, at: Progress, len: nat) -> nat {
    let a = step_offset(code.syntax, at.i);
    let b = step_offset(code.overlay, at.j);
    let next = if a <= b {
        a
    } else {
        b
    };
    if next == u32::MAX {
        len
    } else {
        next as nat
    }
}

/// The stretches of a text of `len` bytes. There are none where a step lies
/// before one that was already taken.
pub open spec fn segments(code: CodeHighlightsView, at: Progress, len: nat) -> Option<
    Seq<Segment>,
>
    decreases (code.syntax.len() - at.i) + (code.overlay.len() - at.j), max(len - at.pos, 0),
    when at.i <= code.syntax.len() && at.j <= code.overlay.len() && len < u32::MAX
{
    if at.pos >= len {
        Some(Seq::empty())
    } else {
        let taken = take_step(code, at);
        let next = next_stop(code, taken, len);
        if next < at.pos {
            None
        } else if next == at.pos {
            segments(code, taken, len)
        } else {
            match segments(code, Progress { pos: next, ..taken }, len) {
                Some(rest) => Some(
                    seq![
                        Segment {
                            start: at.pos,
                            end: next,
                            highlights: taken.syntax + taken.overlay,
                        },
                    ] + rest,
                ),
                None => None,
            }
        }
    }
}

/// Highlighting that has not begun.
pub open spec fn beginning() -> Progress {
    Progress { i: 0, j: 0, syntax: Seq::empty(), overlay: Seq::empty(), pos: 0 }
}

/// The text with four spaces for each tab.
pub open spec fn without_tabs(s: Seq<char>) -> Seq<char>
    decreases s.len(),
{
    if s.len() == 0 {
        Seq::empty()
    } else {
        without_tabs(s.drop_last()) + if s.last() == '\t' {
            repeat(' ', 4)
        } else {
            seq![s.last()]
        }
    }
}

/// Highlighted text as a span.
pub open spec fn code_span(text: Seq<char>, highlights: Seq<u32>) -> SpanView {
    SpanView { content: without_tabs(text), style: Style::of(Role::Text), highlights }
}

/// Lines that are complete, and the spans of the one that is not.
pub ghost struct Laid {
    pub lines: Seq<Seq<SpanView>>,
    pub spans: Seq<SpanView>,
}

/// Completes a line with each of the first `n` pieces.
pub open spec fn lay_pieces(laid: Laid, pieces: Seq<Seq<char>>, n: int, highlights: Seq<u32>) -> Laid
    decreases n,
{
    if n <= 0 {
        laid
    } else {
        let before = lay_pieces(laid, pieces, n - 1, highlights);
        Laid {
            lines: before.lines.push(before.spans.push(code_span(pieces[n - 1], highlights))),
            spans: Seq::empty(),
        }
    }
}

/// Adds a stretch of text: each line feed completes a line.
pub open spec fn lay_text(laid: Laid, text: Seq<char>, highlights: Seq<u32>) -> Laid {
    let pieces = split_on(text, '\n');
    let before = lay_pieces(laid, pieces, pieces.len() - 1, highlights);
    if pieces.last().len() == 0 {
        before
    } else {
        Laid { spans: before.spans.push(code_span(pieces.last(), highlights)), ..before }
    }
}

/// Adds the first `n` stretches of a text.
pub open spec fn lay_segments(s: Seq<char>, parts: Seq<Segment>, n: int) -> Laid
    decreases n,
{
    if n <= 0 {
        Laid { lines: Seq::empty(), spans: Seq::empty() }
    } else {
        let part = parts[n - 1];
        lay_text(lay_segments(s, parts, n - 1), slice(s, part.start, part.end), part.highlights)
    }
}

/// All lines, the last one even if it is not complete.
pub open spec fn all_lines(laid: Laid) -> Seq<Seq<SpanView>> {
    if laid.spans.len() == 0 {
        laid.lines
    } else {
        laid.lines.push(laid.spans)
    }
}

/// Each line of the text as one span in the style of code.
pub open spec fn unhighlighted(s: Seq<char>) -> Seq<Seq<SpanView>> {
    Seq::new(lines(s).len(), |i: int| one_span(lines(s)[i], Style::of(Role::Code)))
}

/// The lines of a code block.
pub open spec fn code_block(s: Seq<char>, code: Option<CodeHighlightsView>) -> Seq<Seq<SpanView>> {
    match code {
        None => unhighlighted(s),
        Some(code) => match segments(code, beginning(), byte_offset(s, s.len() as int)) {
            None => unhighlighted(s),
            Some(parts) => all_lines(lay_segments(s, parts, parts.len() as int)),
        },
    }
}

/// All steps lie between two characters of the text.
pub open spec fn steps_fit(s: Seq<char>, steps: Seq<StepView>) -> bool {
    forall|i: int|
        0 <= i < steps.len() ==> (#[trigger] steps[i]).offset == u32::MAX || is_boundary(
            s,
            steps[i].offset as nat,
        )
}

/// All highlights begin and end between two characters of the text, whose
/// bytes a `u32` can count.
pub open spec fn highlights_fit(s: Seq<char>, code: CodeHighlightsView) -> bool {
    &&& byte_offset(s, s.len() as int) < u32::MAX
    &&& steps_fit(s, code.syntax)
    &&& steps_fit(s, code.overlay)
}

fn styled_multiline_text(text: &str, style: Style) -> (out: Vec<Vec<Span>>)
    ensures
        lines_view(out@) == Seq::new(lines(text@).len(), |i: int| one_span(lines(text@)[i], style)),
{
    let all = lines_of(text);
    let mut out: Vec<Vec<Span>> = Vec::new();
    let mut i: usize = 0;
    while i < all.len()
        invariant
            i <= all.len(),
            views(all@) == lines(text@),
            out@.len() == i,
            forall|k: int|
                0 <= k < i ==> line_view(#[trigger] out@[k]@) == one_span(lines(text@)[k], style),
        decreases all.len() - i,
    {
        assert(views(all@)[i as int] == all@[i as int]@);
        out.push(single(all[i].clone(), style));
        i += 1;
    }
    assert(views(all@).len() == all@.len());
    assert(lines_view(out@) =~= Seq::new(
        lines(text@).len(),
        |i: int| one_span(lines(text@)[i], style),
    ));
    out
}

fn replace_tabs(text: &str) -> (out: String)
    ensures
        out@ == without_tabs(text@),
{
    let v = chars_of(text);
    let mut out = String::new();
    let mut i: usize = 0;
    assert(v@.take(0) =~= Seq::empty());
    while i < v.len()
        invariant
            i <= v.len(),
            out@ == without_tabs(v@.take(i as int)),
        decreases v.len() - i,
    {
        let ghost before = out@;
        assert(v@.take(i + 1).drop_last() =~= v@.take(i as int));
        if v[i] == '\t' {
            proof {
                reveal_strlit("    ");
                assert("    "@ =~= repeat(' ', 4));
            }
            out.append("    ");
        } else {
            out.push(v[i]);
            assert(out@ =~= before + seq![v@[i as int]]);
        }
        i += 1;
    }
    assert(v@.take(v@.len() as int) =~= v@);
    out
}

fn add_all(stack: &mut Vec<u32>, ids: &Vec<u32>)
    ensures
        final(stack)@ == old(stack)@ + ids@,
{
    let mut i: usize = 0;
    assert(stack@ =~= stack@ + ids@.take(0));
    while i < ids.len()
        invariant
            i <= ids.len(),
            stack@ == old(stack)@ + ids@.take(i as int),
        decreases ids.len() - i,
    {
        stack.push(ids[i]);
        assert(ids@.take(i + 1) =~= ids@.take(i as int).push(ids@[i as int]));
        assert(stack@ =~= old(stack)@ + ids@.take(i + 1));
        i += 1;
    }
    assert(ids@.take(ids@.len() as int) =~= ids@);
}

/// The lines that are complete, and the spans of the one that is not.
struct CodeLines {
    lines: Vec<Vec<Span>>,
    spans: Vec<Span>,
}

impl CodeLines {
    spec fn laid(self) -> Laid {
        Laid { lines: lines_view(self.lines@), spans: line_view(self.spans@) }
    }

    fn add(&mut self, text: &str, highlights: &Vec<u32>)
        ensures
            final(self).laid() == lay_text(old(self).laid(), text@, highlights@),
    {
        let pieces = split(text, '\n');
        let ghost all = split_on(text@, '\n');
        let ghost start = self.laid();
        let mut i: usize = 0;
        proof {
            crate::text::lemma_split_on_len(text@, '\n');
            assert(views(pieces@).len() == pieces@.len());
        }
        while i < pieces.len() - 1
            invariant
                0 < pieces.len(),
                i <= pieces.len() - 1,
                all == views(pieces@),
                self.laid() == lay_pieces(start, all, i as int, highlights@),
            decreases pieces.len() - i,
        {
            let ghost before = self.laid();
            self.push_span(pieces[i].as_str(), highlights);
            let mut spans: Vec<Span> = Vec::new();
            std::mem::swap(&mut spans, &mut self.spans);
            let ghost whole = line_view(spans@);
            assert(line_view(self.spans@) =~= Seq::empty());
            self.lines.push(spans);
            assert(lines_view(self.lines@) =~= before.lines.push(whole));
            i += 1;
        }
        let last = pieces[pieces.len() - 1].as_str();
        if last.unicode_len() > 0 {
            self.push_span(last, highlights);
        }
    }

    fn push_span(&mut self, text: &str, highlights: &Vec<u32>)
        ensures
            final(self).laid() == (Laid {
                spans: old(self).laid().spans.push(code_span(text@, highlights@)),
                ..old(self).laid()
            }),
    {
        let ghost before = line_view(self.spans@);
        self.spans.push(
            Span {
                content: replace_tabs(text),
                style: Style::new(Role::Text),
                highlights: copied_ids(highlights),
            },
        );
        assert(line_view(self.spans@) =~= before.push(code_span(text@, highlights@)));
    }
}

/// `whole` is `done` followed by what remains; nothing is known of it where
/// nothing is known of what remains.
spec fn remaining(
    whole: Option<Seq<Segment>>,
    done: Seq<Segment>,
    rest: Option<Seq<Segment>>,
) -> bool {
    match rest {
        Some(rest) => whole == Some(done + rest),
        None => whole is None,
    }
}

/// What one step of highlighting comes to.
proof fn lemma_segments_step(code: CodeHighlightsView, at: Progress, len: nat)
    requires
        0 <= at.i <= code.syntax.len(),
        0 <= at.j <= code.overlay.len(),
        len < u32::MAX,
        at.pos < len,
    ensures
        ({
            let taken = take_step(code, at);
            let next = next_stop(code, taken, len);
            let rest = segments(code, Progress { pos: next, ..taken }, len);
            &&& next < at.pos ==> segments(code, at, len) is None
            &&& next == at.pos ==> segments(code, at, len) == segments(code, taken, len)
            &&& next > at.pos ==> segments(code, at, len) == match rest {
                Some(rest) => Some(
                    seq![
                        Segment {
                            start: at.pos,
                            end: next,
                            highlights: taken.syntax + taken.overlay,
                        },
                    ] + rest,
                ),
                None => None,
            }
        }),
{
}

proof fn lemma_stop_is_boundary(s: Seq<char>, code: CodeHighlightsView, at: Progress, len: nat)
    requires
        0 <= at.i <= code.syntax.len(),
        0 <= at.j <= code.overlay.len(),
        len == byte_offset(s, s.len() as int),
        highlights_fit(s, code),
    ensures
        is_boundary(s, next_stop(code, at, len)),
        next_stop(code, at, len) <= len,
{
    let next = next_stop(code, at, len);
    lemma_char_index_unique(s, len, 0, s.len() as int);
    if at.i < code.syntax.len() {
        let step = code.syntax[at.i];
    }
    if at.j < code.overlay.len() {
        let step = code.overlay[at.j];
    }
    assert(is_boundary(s, next));
    lemma_char_index_from(s, next, 0);
    lemma_byte_offset_monotone(s, char_index(s, next), s.len() as int);
}

/// Goes from character `from`, at byte `pos`, to the character at byte `next`.
fn walk(v: &Vec<char>, from: usize, pos: u32, next: u32) -> (to: usize)
    requires
        from <= v@.len(),
        byte_offset(v@, from as int) == pos,
        is_boundary(v@, next as nat),
        pos <= next,
    ensures
        from <= to <= v@.len(),
        from == char_index(v@, pos as nat),
        to == char_index(v@, next as nat),
        byte_offset(v@, to as int) == next,
{
    let ghost s = v@;
    let ghost target = char_index(s, next as nat);
    let mut at = from;
    let mut reached = pos;
    proof {
        lemma_char_index_unique(s, pos as nat, 0, from as int);
        lemma_char_index_monotone(s, pos as nat, next as nat);
    }
    while reached < next
        invariant
            s == v@,
            from <= at <= target <= s.len(),
            reached == byte_offset(s, at as int),
            next == byte_offset(s, target),
            reached <= next,
        decreases target - at,
    {
        proof {
            lemma_byte_offset_monotone(s, at + 1, target);
        }
        reached += char_utf8_len(v[at]);
        assert(at < v.len());
        at += 1;
    }
    proof {
        lemma_byte_offset_monotone(s, at as int, target);
    }
    at
}

/// Where highlighting has got to.
struct Highlighting {
    i: usize,
    j: usize,
    syntax: Vec<u32>,
    overlay: Vec<u32>,
    pos: u32,
}

impl Highlighting {
    spec fn progress(self) -> Progress {
        Progress {
            i: self.i as int,
            j: self.j as int,
            syntax: self.syntax@,
            overlay: self.overlay@,
            pos: self.pos as nat,
        }
    }

    spec fn wf(self, code: CodeHighlightsView) -> bool {
        self.i <= code.syntax.len() && self.j <= code.overlay.len()
    }

    spec fn steps_left(self, code: CodeHighlightsView) -> int {
        (code.syntax.len() - self.i) + (code.overlay.len() - self.j)
    }

    fn take(&mut self, code: &CodeHighlights)
        requires
            old(self).wf(code@),
            old(self).pos < u32::MAX,
        ensures
            final(self).wf(code@),
            final(self).progress() == take_step(code@, old(self).progress()),
            final(self).pos == old(self).pos,
            final(self).steps_left(code@) <= old(self).steps_left(code@),
            final(self).progress() != old(self).progress() ==> final(self).steps_left(code@) < old(
                self).steps_left(code@),
    {
        if self.i < code.syntax.len() && code.syntax[self.i].offset == self.pos {
            let step = &code.syntax[self.i];
            apply_step(&mut self.syntax, step);
            self.i = self.i + 1;
        } else if self.j < code.overlay.len() && code.overlay[self.j].offset == self.pos {
            let step = &code.overlay[self.j];
            apply_step(&mut self.overlay, step);
            self.j = self.j + 1;
        }
    }

    fn stop(&self, code: &CodeHighlights, len: u32) -> (next: u32)
        requires
            self.wf(code@),
        ensures
            next == next_stop(code@, self.progress(), len as nat),
    {
        let a: u32 = if self.i < code.syntax.len() {
            code.syntax[self.i].offset
        } else {
            u32::MAX
        };
        let b: u32 = if self.j < code.overlay.len() {
            code.overlay[self.j].offset
        } else {
            u32::MAX
        };
        let next: u32 = if a <= b {
            a
        } else {
            b
        };
        if next == u32::MAX {
            len
        } else {
            next
        }
    }
}

fn apply_step(stack: &mut Vec<u32>, step: &HighlightStep)
    ensures
        final(stack)@ == after_step(old(stack)@, step@),
{
    if step.refresh {
        stack.clear();
    }
    add_all(stack, &step.highlights);
    assert(stack@ =~= after_step(old(stack)@, step@));
}

/// The bytes of a text, where a `u32` can count them and one more.
fn byte_len(v: &Vec<char>) -> (len: Option<u32>)
    ensures
        match len {
            Some(len) => len == byte_offset(v@, v@.len() as int) && len < u32::MAX,
            None => byte_offset(v@, v@.len() as int) >= u32::MAX,
        },
{
    let mut len: u32 = 0;
    let mut k: usize = 0;
    while k < v.len()
        invariant
            k <= v.len(),
            len == byte_offset(v@, k as int),
            len < u32::MAX,
        decreases v.len() - k,
    {
        let next: u32 = char_utf8_len(v[k]);
        if next >= u32::MAX - len {
            proof {
                lemma_byte_offset_monotone(v@, k + 1, v@.len() as int);
            }
            return None;
        }
        len += next;
        k += 1;
    }
    Some(len)
}

fn boundary_at(v: &Vec<char>, offset: u32) -> (b: bool)
    requires
        byte_offset(v@, v@.len() as int) < u32::MAX,
    ensures
        b == is_boundary(v@, offset as nat),
{
    let mut reached: u32 = 0;
    let mut at: usize = 0;
    while at < v.len() && reached < offset
        invariant
            at <= v.len(),
            byte_offset(v@, v@.len() as int) < u32::MAX,
            reached == byte_offset(v@, at as int),
            char_index(v@, offset as nat) == char_index_from(v@, offset as nat, at as int),
        decreases v.len() - at,
    {
        proof {
            lemma_byte_offset_monotone(v@, at + 1, v@.len() as int);
        }
        reached += char_utf8_len(v[at]);
        at += 1;
    }
    reached == offset
}

fn all_in(v: &Vec<char>, steps: &Vec<HighlightStep>) -> (b: bool)
    requires
        byte_offset(v@, v@.len() as int) < u32::MAX,
    ensures
        b == steps_fit(v@, steps_view(steps@)),
{
    let ghost all = steps_view(steps@);
    let mut i: usize = 0;
    while i < steps.len()
        invariant
            i <= steps.len(),
            all == steps_view(steps@),
            byte_offset(v@, v@.len() as int) < u32::MAX,
            forall|k: int|
                0 <= k < i ==> (#[trigger] all[k]).offset == u32::MAX || is_boundary(
                    v@,
                    all[k].offset as nat,
                ),
        decreases steps.len() - i,
    {
        let offset = steps[i].offset;
        assert(all[i as int].offset == offset);
        if offset != u32::MAX && !boundary_at(v, offset) {
            return false;
        }
        i += 1;
    }
    true
}

/// Whether all highlights begin and end between two characters of the text.
pub fn fits(text: &str, code: &CodeHighlights) -> (b: bool)
    ensures
        b == highlights_fit(text@, code@),
{
    let v = chars_of(text);
    match byte_len(&v) {
        None => false,
        Some(_) => all_in(&v, &code.syntax) && all_in(&v, &code.overlay),
    }
}

/// Lays out a code block. Without highlights every line is one span in the
/// style of code; so it is where the highlights are out of order.
pub fn highlighted_code_block(text: &str, highlights: Option<&CodeHighlights>) -> (out: Vec<
    Vec<Span>,
>)
    requires
        highlights is Some ==> highlights_fit(text@, highlights->0@),
    ensures
        lines_view(out@) == code_block(
            text@,
            match highlights {
                Some(code) => Some(code@),
                None => None,
            },
        ),
{
    let code = match highlights {
        Some(code) => code,
        None => {
            return styled_multiline_text(text, Style::new(Role::Code));
        },
    };
    let v = chars_of(text);
    let total = v.len();
    let mut len: u32 = 0;
    let mut k: usize = 0;
    while k < total
        invariant
            k <= total,
            total == v.len(),
            byte_offset(v@, total as int) < u32::MAX,
            len == byte_offset(v@, k as int),
        decreases total - k,
    {
        proof {
            lemma_byte_offset_monotone(v@, k + 1, total as int);
        }
        len += char_utf8_len(v[k]);
        k += 1;
    }

    let ghost s = v@;
    let ghost whole = segments(code@, beginning(), len as nat);
    let mut at = Highlighting {
        i: 0,
        j: 0,
        syntax: Vec::new(),
        overlay: Vec::new(),
        pos: 0,
    };
    // The character that begins at the byte that has been reached.
    let mut from: usize = 0;
    let mut out = CodeLines { lines: Vec::new(), spans: Vec::new() };
    let ghost mut done: Seq<Segment> = Seq::empty();
    proof {
        assert(out.laid().lines =~= Seq::empty());
        assert(out.laid().spans =~= Seq::empty());
        assert(at.progress() == beginning());
        assert(whole matches Some(parts) ==> parts =~= done + parts);
    }
    while at.pos < len
        invariant
            at.wf(code@),
            s == v@,
            s == text@,
            len < u32::MAX,
            len == byte_offset(s, s.len() as int),
            highlights_fit(s, code@),
            at.pos <= len,
            from <= s.len(),
            byte_offset(s, from as int) == at.pos,
            out.laid() == lay_segments(s, done, done.len() as int),
            whole == segments(code@, beginning(), len as nat),
            remaining(whole, done, segments(code@, at.progress(), len as nat)),
            highlights == Some(code),
        decreases at.steps_left(code@), len - at.pos,
    {
        let ghost here = at.progress();
        at.take(code);
        let ghost taken = at.progress();
        let start = at.pos;
        let next = at.stop(code, len);
        proof {
            lemma_segments_step(code@, here, len as nat);
            lemma_stop_is_boundary(s, code@, taken, len as nat);
        }
        if next < start {
            // A highlighter that does not move forward is not followed.
            return styled_multiline_text(text, Style::new(Role::Code));
        }
        if next > start {
            let to = walk(&v, from, start, next);
            at.pos = next;
            let mut ids = copied_ids(&at.syntax);
            add_all(&mut ids, &at.overlay);
            let ghost part = Segment { start: start as nat, end: next as nat, highlights: ids@ };
            let ghost before = done;
            let piece = substring(&v, from, to);
            out.add(piece.as_str(), &ids);
            from = to;
            proof {
                done = before.push(part);
                lemma_lay_segments_prefix(s, before, done, before.len() as int);
                assert(piece@ == slice(s, part.start, part.end));
                match segments(code@, at.progress(), len as nat) {
                    Some(rest) => {
                        assert(before + (seq![part] + rest) =~= done + rest);
                    },
                    None => {},
                }
            }
        }
    }
    proof {
        assert(done + Seq::<Segment>::empty() =~= done);
    }
    let CodeLines { lines, spans } = out;
    let mut lines = lines;
    if spans.len() > 0 {
        let ghost before = lines_view(lines@);
        let ghost last = line_view(spans@);
        lines.push(spans);
        assert(lines_view(lines@) =~= before.push(last));
    }
    lines
}

proof fn lemma_lay_segments_prefix(s: Seq<char>, a: Seq<Segment>, b: Seq<Segment>, n: int)
    requires
        n <= a.len(),
        n <= b.len(),
        forall|i: int| 0 <= i < n ==> a[i] == b[i],
    ensures
        lay_segments(s, a, n) == lay_segments(s, b, n),
    decreases n,
{
    if n > 0 {
        lemma_lay_segments_prefix(s, a, b, n - 1);
    }
}

/// The texts of lines.
pub open spec fn line_texts(lines: Seq<Seq<SpanView>>) -> Seq<Seq<char>> {
    Seq::new(lines.len(), |i: int| line_text(lines[i]))
}

proof fn lemma_without_tabs_concat(a: Seq<char>, b: Seq<char>)
    ensures
        without_tabs(a + b) == without_tabs(a) + without_tabs(b),
    decreases b.len(),
{
    if b.len() == 0 {
        assert(a + b =~= a);
        assert(without_tabs(a + b) =~= without_tabs(a) + without_tabs(b));
    } else {
        lemma_without_tabs_concat(a, b.drop_last());
        assert((a + b).drop_last() =~= a + b.drop_last());
        assert(without_tabs(a + b) =~= without_tabs(a) + without_tabs(b));
    }
}

proof fn lemma_split_without_tabs(s: Seq<char>)
    ensures
        split_on(without_tabs(s), '\n').len() == split_on(s, '\n').len(),
        forall|i: int|
            0 <= i < split_on(s, '\n').len() ==> #[trigger] split_on(without_tabs(s), '\n')[i]
                == without_tabs(split_on(s, '\n')[i]),
    decreases s.len(),
{
    let p = split_on(s, '\n');
    let q = split_on(without_tabs(s), '\n');
    if s.len() == 0 {
        assert(without_tabs(s) =~= Seq::empty());
        assert(p =~= seq![Seq::<char>::empty()]);
        assert(q =~= seq![Seq::<char>::empty()]);
        assert(without_tabs(p[0]) =~= Seq::empty());
    } else {
        let t = s.drop_last();
        let c = s.last();
        let before = split_on(t, '\n');
        let shown = split_on(without_tabs(t), '\n');
        lemma_split_without_tabs(t);
        crate::text::lemma_split_on_len(t, '\n');
        if c == '\t' {
            lemma_split_on_concat(without_tabs(t), repeat(' ', 4), '\n');
            lemma_no_line_feed(repeat(' ', 4));
            assert(q =~= shown.drop_last().push(shown.last() + repeat(' ', 4)));
        } else {
            assert(without_tabs(s) =~= without_tabs(t).push(c));
            assert(without_tabs(s).drop_last() =~= without_tabs(t));
        }
        if c != '\n' {
            let longer = before.last().push(c);
            assert(longer.drop_last() =~= before.last());
            assert(without_tabs(longer) == without_tabs(before.last()) + if c == '\t' {
                repeat(' ', 4)
            } else {
                seq![c]
            });
            assert(q.last() =~= without_tabs(longer));
        } else {
            assert(without_tabs(Seq::empty()) =~= Seq::empty());
        }
        assert forall|i: int| 0 <= i < p.len() implies #[trigger] q[i] == without_tabs(p[i]) by {
            if i < before.len() - 1 {
                assert(p[i] == before[i]);
                assert(q[i] == shown[i]);
            } else if c == '\n' && i == before.len() - 1 {
                assert(p[i] == before[i]);
                assert(q[i] == shown[i]);
            }
        }
    }
}

proof fn lemma_no_line_feed(s: Seq<char>)
    requires
        !s.contains('\n'),
    ensures
        split_on(s, '\n') == seq![s],
    decreases s.len(),
{
    if s.len() == 0 {
        assert(s =~= Seq::empty());
    } else {
        let t = s.drop_last();
        assert(s.contains(s.last()));
        assert forall|i: int| 0 <= i < t.len() implies t[i] != '\n' by {
            assert(s.contains(s[i]));
        }
        lemma_no_line_feed(t);
        assert(t.push(s.last()) =~= s);
        assert(split_on(s, '\n') =~= seq![s]);
    }
}

/// The texts of all lines, with that of the incomplete line last.
spec fn laid_texts(laid: Laid) -> Seq<Seq<char>> {
    line_texts(laid.lines).push(line_text(laid.spans))
}

/// An incomplete line has spans just if it has text.
spec fn laid_wf(laid: Laid) -> bool {
    laid.spans.len() == 0 <==> line_text(laid.spans).len() == 0
}

proof fn lemma_lay_pieces_texts(laid: Laid, pieces: Seq<Seq<char>>, n: int, highlights: Seq<u32>)
    requires
        0 < n <= pieces.len(),
    ensures
        ({
            let after = lay_pieces(laid, pieces, n, highlights);
            &&& line_texts(after.lines) == line_texts(laid.lines) + seq![
                line_text(laid.spans) + without_tabs(pieces[0]),
            ] + Seq::new((n - 1) as nat, |i: int| without_tabs(pieces[i + 1]))
            &&& after.spans == Seq::<SpanView>::empty()
        }),
    decreases n,
{
    let before = lay_pieces(laid, pieces, n - 1, highlights);
    let after = lay_pieces(laid, pieces, n, highlights);
    let span = code_span(pieces[n - 1], highlights);
    let line = before.spans.push(span);
    assert(line.drop_last() =~= before.spans);
    assert(line_text(line) == line_text(before.spans) + without_tabs(pieces[n - 1]));
    assert(line_texts(after.lines) =~= line_texts(before.lines).push(line_text(line)));
    if n == 1 {
        assert(line_texts(after.lines) =~= line_texts(laid.lines) + seq![
            line_text(laid.spans) + without_tabs(pieces[0]),
        ] + Seq::new((n - 1) as nat, |i: int| without_tabs(pieces[i + 1])));
    } else {
        lemma_lay_pieces_texts(laid, pieces, n - 1, highlights);
        assert(line_text(before.spans) =~= Seq::empty());
        assert(line_text(line) =~= without_tabs(pieces[n - 1]));
        assert(line_texts(after.lines) =~= line_texts(laid.lines) + seq![
            line_text(laid.spans) + without_tabs(pieces[0]),
        ] + Seq::new((n - 1) as nat, |i: int| without_tabs(pieces[i + 1])));
    }
}

proof fn lemma_without_tabs_len(s: Seq<char>)
    ensures
        without_tabs(s).len() >= s.len(),
    decreases s.len(),
{
    if s.len() > 0 {
        lemma_without_tabs_len(s.drop_last());
    }
}

proof fn lemma_lay_text(laid: Laid, before: Seq<char>, text: Seq<char>, highlights: Seq<u32>)
    requires
        laid_wf(laid),
        laid_texts(laid) == split_on(without_tabs(before), '\n'),
    ensures
        laid_wf(lay_text(laid, text, highlights)),
        laid_texts(lay_text(laid, text, highlights)) == split_on(
            without_tabs(before + text),
            '\n',
        ),
{
    let pieces = split_on(text, '\n');
    let n = pieces.len() - 1;
    let last = pieces.last();
    let mid = lay_pieces(laid, pieces, n, highlights);
    let after = lay_text(laid, text, highlights);
    let shown = split_on(without_tabs(text), '\n');
    crate::text::lemma_split_on_len(text, '\n');
    lemma_split_without_tabs(text);
    lemma_without_tabs_concat(before, text);
    lemma_split_on_concat(without_tabs(before), without_tabs(text), '\n');
    let old_texts = laid_texts(laid);
    let claim = old_texts.drop_last() + seq![old_texts.last() + shown.first()]
        + shown.drop_first();
    assert(old_texts.drop_last() =~= line_texts(laid.lines));
    lemma_without_tabs_len(last);
    if last.len() > 0 {
        assert(after.spans.drop_last() =~= mid.spans);
        assert(line_text(after.spans) == line_text(mid.spans) + without_tabs(last));
    } else {
        assert(last =~= Seq::empty());
        assert(without_tabs(last) =~= Seq::empty());
        assert(line_text(after.spans) =~= line_text(mid.spans) + without_tabs(last));
    }
    assert(shown[n] == without_tabs(pieces[n]));
    if n == 0 {
        assert(shown.drop_first() =~= Seq::empty());
        assert(laid_texts(after) =~= claim);
    } else {
        lemma_lay_pieces_texts(laid, pieces, n, highlights);
        assert(line_text(mid.spans) =~= Seq::empty());
        assert(line_text(after.spans) =~= without_tabs(last));
        assert(shown[0] == without_tabs(pieces[0]));
        assert forall|i: int| 0 <= i < n implies #[trigger] shown.drop_first()[i] == without_tabs(
            pieces[i + 1],
        ) by {
            assert(shown[i + 1] == without_tabs(pieces[i + 1]));
        }
        assert(laid_texts(after) =~= claim);
    }
}

/// Stretches that follow each other from byte `from` to byte `to`.
spec fn contiguous(s: Seq<char>, parts: Seq<Segment>, from: nat, to: nat) -> bool {
    &&& parts.len() == 0 ==> from == to
    &&& parts.len() > 0 ==> parts[0].start == from && parts.last().end == to
    &&& forall|i: int|
        0 <= i < parts.len() ==> {
            &&& (#[trigger] parts[i]).start < parts[i].end
            &&& is_boundary(s, parts[i].start)
            &&& is_boundary(s, parts[i].end)
        }
    &&& forall|i: int, j: int|
        0 <= i < parts.len() && j == i + 1 && j < parts.len() ==> #[trigger] parts[i].end
            == #[trigger] parts[j].start
}

proof fn lemma_segments_contiguous(s: Seq<char>, code: CodeHighlightsView, at: Progress, len: nat)
    requires
        0 <= at.i <= code.syntax.len(),
        0 <= at.j <= code.overlay.len(),
        len == byte_offset(s, s.len() as int),
        highlights_fit(s, code),
        at.pos <= len,
        is_boundary(s, at.pos),
    ensures
        segments(code, at, len) matches Some(parts) ==> contiguous(s, parts, at.pos, len),
    decreases (code.syntax.len() - at.i) + (code.overlay.len() - at.j), len - at.pos,
{
    if at.pos < len {
        let taken = take_step(code, at);
        let next = next_stop(code, taken, len);
        lemma_segments_step(code, at, len);
        lemma_stop_is_boundary(s, code, taken, len);
        if next == at.pos {
            lemma_segments_contiguous(s, code, taken, len);
        } else if next > at.pos {
            let then = Progress { pos: next, ..taken };
            lemma_segments_contiguous(s, code, then, len);
            match segments(code, then, len) {
                Some(rest) => {
                    let parts = segments(code, at, len)->0;
                    assert forall|i: int| 0 <= i < parts.len() implies {
                        &&& (#[trigger] parts[i]).start < parts[i].end
                        &&& is_boundary(s, parts[i].start)
                        &&& is_boundary(s, parts[i].end)
                    } by {
                        if i > 0 {
                            assert(parts[i] == rest[i - 1]);
                        }
                    }
                    assert forall|i: int, j: int|
                        0 <= i < parts.len() && j == i + 1 && j
                            < parts.len() implies #[trigger] parts[i].end
                        == #[trigger] parts[j].start by {
                        assert(parts[j] == rest[j - 1]);
                        if i > 0 {
                            assert(parts[i] == rest[i - 1]);
                        }
                    }
                    if rest.len() > 0 {
                        assert(parts.last() == rest.last());
                    }
                },
                None => {},
            }
        }
    }
}

proof fn lemma_lay_segments_texts(s: Seq<char>, parts: Seq<Segment>, to: nat, n: int)
    requires
        contiguous(s, parts, 0, to),
        0 <= n <= parts.len(),
    ensures
        laid_wf(lay_segments(s, parts, n)),
        laid_texts(lay_segments(s, parts, n)) == split_on(
            without_tabs(
                s.take(
                    if n == 0 {
                        0
                    } else {
                        char_index(s, parts[n - 1].end)
                    },
                ),
            ),
            '\n',
        ),
    decreases n,
{
    if n == 0 {
        let none = lay_segments(s, parts, 0);
        assert(s.take(0) =~= Seq::empty());
        assert(without_tabs(s.take(0)) =~= Seq::empty());
        assert(laid_texts(none) =~= seq![Seq::<char>::empty()]);
    } else {
        let part = parts[n - 1];
        lemma_lay_segments_texts(s, parts, to, n - 1);
        lemma_char_index_monotone(s, part.start, part.end);
        let start = char_index(s, part.start);
        let end = char_index(s, part.end);
        if n == 1 {
            lemma_char_index_unique(s, 0, 0, 0);
        } else {
            assert(parts[n - 2].end == part.start);
        }
        lemma_lay_text(
            lay_segments(s, parts, n - 1),
            s.take(start),
            slice(s, part.start, part.end),
            part.highlights,
        );
        assert(s.take(start) + s.subrange(start, end) =~= s.take(end));
    }
}

/// Highlighting gives styles only: the lines of a highlighted code block are
/// those of its text, with four spaces for each tab.
pub proof fn law_highlighting_keeps_text(s: Seq<char>, code: CodeHighlightsView)
    requires
        highlights_fit(s, code),
        segments(code, beginning(), byte_offset(s, s.len() as int)) is Some,
    ensures
        ({
            let shown = split_on(without_tabs(s), '\n');
            line_texts(code_block(s, Some(code))) == if shown.last().len() == 0 {
                shown.drop_last()
            } else {
                shown
            }
        }),
{
    let len = byte_offset(s, s.len() as int);
    let parts = segments(code, beginning(), len)->0;
    lemma_char_index_unique(s, 0, 0, 0);
    lemma_segments_contiguous(s, code, beginning(), len);
    lemma_lay_segments_texts(s, parts, len, parts.len() as int);
    lemma_char_index_unique(s, len, 0, s.len() as int);
    let laid = lay_segments(s, parts, parts.len() as int);
    if parts.len() == 0 {
        lemma_byte_offset_monotone(s, 0, s.len() as int);
        assert(s.len() == 0);
    }
    assert(s.take(s.len() as int) =~= s);
    let shown = split_on(without_tabs(s), '\n');
    assert(laid_texts(laid) == shown);
    assert(shown.drop_last() =~= line_texts(laid.lines));
    assert(line_texts(all_lines(laid)) =~= if shown.last().len() == 0 {
        shown.drop_last()
    } else {
        shown
    });
}

/// Without highlights a code block shows its lines as they are.
pub proof fn law_unhighlighted_block_shows_lines(s: Seq<char>)
    ensures
        line_texts(code_block(s, None)) == lines(s),
{
    let block = unhighlighted(s);
    assert forall|i: int| 0 <= i < block.len() implies #[trigger] line_texts(block)[i] == lines(
        s,
    )[i] by {
        let line = block[i];
        assert(line.drop_last() =~= Seq::empty());
        assert(line_text(line.drop_last()) =~= Seq::empty());
        assert(line_text(line) =~= lines(s)[i]);
    }
    assert(line_texts(block) =~= lines(s));
}

proof fn lemma_tabs_concat(a: Seq<char>, b: Seq<char>)
    ensures
        without_tabs(a + b) == without_tabs(a) + without_tabs(b),
    decreases b.len(),
{
    if b.len() > 0 {
        lemma_tabs_concat(a, b.drop_last());
        assert((a + b).drop_last() =~= a + b.drop_last());
        assert((a + b).last() == b.last());
        assert(without_tabs(a + b) =~= without_tabs(a) + without_tabs(b));
    } else {
        assert(a + b =~= a);
        assert(without_tabs(b) =~= Seq::<char>::empty());
        assert(without_tabs(a) + without_tabs(b) =~= without_tabs(a));
    }
}

proof fn lemma_no_tabs(s: Seq<char>)
    requires
        forall|i: int| 0 <= i < s.len() ==> #[trigger] s[i] != '\t',
    ensures
        without_tabs(s) == s,
    decreases s.len(),
{
    if s.len() > 0 {
        let start = s.drop_last();
        assert forall|i: int| 0 <= i < start.len() implies #[trigger] start[i] != '\t' by {
            assert(start[i] == s[i]);
        }
        lemma_no_tabs(start);
        assert(s.last() == s[s.len() - 1]);
        assert(without_tabs(s) =~= s);
    } else {
        assert(without_tabs(s) =~= s);
    }
}

/// A tab is shown as four spaces; all other characters are shown as they are.
pub proof fn law_tabs_are_shown_as_four_spaces(a: Seq<char>, b: Seq<char>)
    ensures
        without_tabs(a + b) == without_tabs(a) + without_tabs(b),
        without_tabs(seq!['\t']) == seq![' ', ' ', ' ', ' '],
        !a.contains('\t') ==> without_tabs(a) == a,
{
    lemma_tabs_concat(a, b);
    if !a.contains('\t') {
        assert forall|i: int| 0 <= i < a.len() implies #[trigger] a[i] != '\t' by {
            assert(a.contains(a[i]));
        }
        lemma_no_tabs(a);
    }
    let tab = seq!['\t'];
    assert(tab.drop_last() =~= Seq::<char>::empty());
    lemma_no_tabs(tab.drop_last());
    assert(without_tabs(tab) =~= seq![' ', ' ', ' ', ' ']);
}

/// Where no step is left, the rest of the text has the highlights in force.
pub proof fn law_rest_has_the_highlights_in_force(
    code: CodeHighlightsView,
    at: Progress,
    len: nat,
)
    requires
        at.i == code.syntax.len(),
        at.j == code.overlay.len(),
        at.pos < len < u32::MAX,
    ensures
        segments(code, at, len) == Some(
            seq![Segment { start: at.pos, end: len, highlights: at.syntax + at.overlay }],
        ),
{
    let after = Progress { pos: len, ..at };
    assert(segments(code, after, len) == Some(Seq::<Segment>::empty()));
    let one = seq![Segment { start: at.pos, end: len, highlights: at.syntax + at.overlay }];
    assert(one + Seq::<Segment>::empty() =~= one);
}

/// A step of the syntax at the place reached changes the highlights of the syntax from
/// there on: it adds its own, or puts them in place of all.
pub proof fn law_step_changes_the_highlights(code: CodeHighlightsView, at: Progress, len: nat)
    requires
        0 <= at.i < code.syntax.len(),
        0 <= at.j <= code.overlay.len(),
        at.pos < len < u32::MAX,
        code.syntax[at.i].offset == at.pos,
    ensures
        ({
            let step = code.syntax[at.i];
            let now = if step.refresh {
                step.highlights
            } else {
                at.syntax + step.highlights
            };
            segments(code, at, len) == segments(code, Progress { i: at.i + 1, syntax: now, ..at }, len)
        }),
{
    let step = code.syntax[at.i];
    let now = if step.refresh {
        step.highlights
    } else {
        at.syntax + step.highlights
    };
    let taken = Progress { i: at.i + 1, syntax: now, ..at };
    assert(take_step(code, at) == taken);
    let next = next_stop(code, taken, len);
    if next == at.pos {
    } else if next > at.pos {
        assert(take_step(code, taken) == taken);
    } else {
        let more = take_step(code, taken);
        assert(next_stop(code, more, len) < at.pos);
    }
}

/// A step of what lies over the syntax does so with the highlights that lie over it, where
/// no step of the syntax is at that place.
pub proof fn law_step_changes_what_lies_over(code: CodeHighlightsView, at: Progress, len: nat)
    requires
        0 <= at.i <= code.syntax.len(),
        0 <= at.j < code.overlay.len(),
        at.pos < len < u32::MAX,
        at.i < code.syntax.len() ==> code.syntax[at.i].offset > at.pos,
        code.overlay[at.j].offset == at.pos,
    ensures
        ({
            let step = code.overlay[at.j];
            let now = if step.refresh {
                step.highlights
            } else {
                at.overlay + step.highlights
            };
            segments(code, at, len) == segments(
                code,
                Progress { j: at.j + 1, overlay: now, ..at },
                len,
            )
        }),
{
    let step = code.overlay[at.j];
    let now = if step.refresh {
        step.highlights
    } else {
        at.overlay + step.highlights
    };
    let taken = Progress { j: at.j + 1, overlay: now, ..at };
    assert(take_step(code, at) == taken);
    let next = next_stop(code, taken, len);
    if next == at.pos {
    } else if next > at.pos {
        assert(take_step(code, taken) == taken);
    } else {
        let more = take_step(code, taken);
        assert(next_stop(code, more, len) < at.pos);
    }
}

/// Where no step is at the place reached, the text up to the next step of either kind has
/// the highlights in force.
pub proof fn law_stretch_reaches_to_the_next_step(
    code: CodeHighlightsView,
    at: Progress,
    len: nat,
    next: nat,
)
    requires
        0 <= at.i <= code.syntax.len(),
        0 <= at.j <= code.overlay.len(),
        at.pos < next < u32::MAX,
        at.pos < len < u32::MAX,
        at.i < code.syntax.len() ==> code.syntax[at.i].offset >= next,
        at.j < code.overlay.len() ==> code.overlay[at.j].offset >= next,
        (at.i < code.syntax.len() && code.syntax[at.i].offset == next) || (at.j
            < code.overlay.len() && code.overlay[at.j].offset == next),
    ensures
        match segments(code, Progress { pos: next, ..at }, len) {
            Some(rest) => segments(code, at, len) == Some(
                seq![Segment { start: at.pos, end: next, highlights: at.syntax + at.overlay }]
                    + rest,
            ),
            None => segments(code, at, len) is None,
        },
{
    assert(take_step(code, at) == at);
    assert(next_stop(code, at, len) == next);
}

} // verus!
