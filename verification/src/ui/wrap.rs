//! Word-wrapping of styled lines.

use vstd::math::max;
use vstd::prelude::*;

use crate::text::{chars_of, substring};
use crate::ui::spans::{copied_ids, line_text, line_view, lines_view, Span, SpanView};
use crate::unicode::{
    char_columns, char_columns_of, columns, columns_upto, law_ascii_takes_a_column_each,
    law_columns_add_up, lemma_columns_without_emoji, lemma_own_columns_prefix, own_columns, width_of,
};

verus! {

/// Space at which a line can be broken.
pub open spec fn is_gap(c: char) -> bool {
    c == ' ' || c == '\t'
}

/// Runs of characters that are all gaps, or none of them, as long as they can be.
pub open spec fn runs(s: Seq<char>) -> Seq<Seq<char>>
    decreases s.len(),
{
    if s.len() == 0 {
        Seq::empty()
    } else {
        let before = runs(s.drop_last());
        if s.len() > 1 && is_gap(s[s.len() - 2]) == is_gap(s.last()) {
            before.drop_last().push(before.last().push(s.last()))
        } else {
            before.push(seq![s.last()])
        }
    }
}

/// Lines that are complete, and the line that is not.
pub ghost struct Wrapping {
    pub lines: Seq<Seq<SpanView>>,
    pub line: Seq<SpanView>,
    /// The columns that the incomplete line takes.
    pub used: nat,
    /// No line has been completed.
    pub first: bool,
}

/// Text in the style of a span.
pub open spec fn restyled(content: Seq<char>, span: SpanView) -> SpanView {
    SpanView { content, ..span }
}

/// `n` spans of one space each.
pub open spec fn spaces(n: nat, span: SpanView) -> Seq<SpanView> {
    Seq::new(n, |i: int| restyled(seq![' '], span))
}

impl Wrapping {
    pub open spec fn start() -> Wrapping {
        Wrapping { lines: Seq::empty(), line: Seq::empty(), used: 0, first: true }
    }

    pub open spec fn with(self, span: SpanView, width: nat) -> Wrapping {
        Wrapping { line: self.line.push(span), used: self.used + width, ..self }
    }

    /// Completes the line.
    pub open spec fn broken(self) -> Wrapping {
        Wrapping {
            lines: self.lines.push(self.line),
            line: Seq::empty(),
            used: 0,
            first: false,
        }
    }

    /// A gap: dropped at the start of every line but the first, and cut off
    /// where the line is full, which completes it.
    pub open spec fn gap(self, n: nat, span: SpanView, width: nat) -> Wrapping {
        if self.used == 0 && !self.first {
            self
        } else if self.used + n <= width {
            Wrapping { line: self.line + spaces(n, span), used: self.used + n, ..self }
        } else {
            let fits = max(width - self.used, 0) as nat;
            Wrapping { line: self.line + spaces(fits, span), ..self }.broken()
        }
    }

    /// A word: on the line if it fits there, on the next if it fits there, and
    /// cut into pieces else.
    pub open spec fn word(self, word: Seq<char>, span: SpanView, width: nat) -> Wrapping {
        let w = columns(word);
        if self.used + w <= width || w == 0 {
            self.with(restyled(word, span), w)
        } else if w <= width {
            self.broken().with(restyled(word, span), w)
        } else {
            Cutting::of(self, word, word.len() as int, span, width).finished(span)
        }
    }

    pub open spec fn run(self, run: Seq<char>, span: SpanView, width: nat) -> Wrapping {
        if is_gap(run[0]) {
            self.gap(run.len(), span, width)
        } else {
            self.word(run, span, width)
        }
    }

    /// The first `n` of the runs of a span.
    pub open spec fn runs(self, all: Seq<Seq<char>>, n: int, span: SpanView, width: nat) -> Wrapping
        decreases n,
    {
        if n <= 0 {
            self
        } else {
            self.runs(all, n - 1, span, width).run(all[n - 1], span, width)
        }
    }

    /// The first `n` spans of a line.
    pub open spec fn after(line: Seq<SpanView>, n: int, width: nat) -> Wrapping
        decreases n,
    {
        if n <= 0 {
            Wrapping::start()
        } else {
            let all = runs(line[n - 1].content);
            Wrapping::after(line, n - 1, width).runs(all, all.len() as int, line[n - 1], width)
        }
    }
}

/// A word that is being cut into pieces.
pub ghost struct Cutting {
    pub wrapping: Wrapping,
    /// The piece that is not complete, and the columns it takes.
    pub piece: Seq<char>,
    pub piece_width: nat,
}

impl Cutting {
    /// Puts the piece on the line.
    pub open spec fn finished(self, span: SpanView) -> Wrapping {
        if self.piece.len() == 0 {
            self.wrapping
        } else {
            self.wrapping.with(restyled(self.piece, span), self.piece_width)
        }
    }

    /// The next character, on a new line if it does not fit on this one.
    pub open spec fn next(self, c: char, span: SpanView, width: nat) -> Cutting {
        let w = char_columns(c);
        if self.wrapping.used + self.piece_width + w > width {
            Cutting {
                wrapping: self.finished(span).broken(),
                piece: seq![c],
                piece_width: w,
            }
        } else {
            Cutting {
                piece: self.piece.push(c),
                piece_width: self.piece_width + w,
                ..self
            }
        }
    }

    /// The first `n` characters of a word.
    pub open spec fn of(
        wrapping: Wrapping,
        word: Seq<char>,
        n: int,
        span: SpanView,
        width: nat,
    ) -> Cutting
        decreases n,
    {
        if n <= 0 {
            Cutting { wrapping, piece: Seq::empty(), piece_width: 0 }
        } else {
            Cutting::of(wrapping, word, n - 1, span, width).next(word[n - 1], span, width)
        }
    }
}

/// A line wrapped to `width` columns, but at least to one.
pub open spec fn wrapped_line(line: Seq<SpanView>, width: nat) -> Seq<Seq<SpanView>> {
    Wrapping::after(
        line,
        line.len() as int,
        if width < 1 {
            1
        } else {
            width
        },
    ).broken().lines
}

/// Lines that are complete, and the line that is not.
struct Wrapper {
    lines: Vec<Vec<Span>>,
    line: Vec<Span>,
    used: usize,
    first: bool,
}

fn styled_like(content: String, span: &Span) -> (out: Span)
    ensures
        out@ == restyled(content@, span@),
{
    Span { content, style: span.style, highlights: copied_ids(&span.highlights) }
}

/// No more columns than this are used where lines are `width` wide: a character
/// may be wider than a line.
spec fn bound(width: int) -> int {
    max(width, 2)
}

impl Wrapper {
    spec fn view(self) -> Wrapping {
        Wrapping {
            lines: lines_view(self.lines@),
            line: line_view(self.line@),
            used: self.used as nat,
            first: self.first,
        }
    }

    fn break_line(&mut self)
        ensures
            final(self)@ == old(self)@.broken(),
    {
        let ghost before = self@;
        let mut line: Vec<Span> = Vec::new();
        std::mem::swap(&mut line, &mut self.line);
        assert(self@.line =~= Seq::empty());
        self.lines.push(line);
        assert(self@.lines =~= before.lines.push(before.line));
        self.used = 0;
        self.first = false;
    }

    fn push(&mut self, content: String, span: &Span, width: usize)
        requires
            old(self).used + width <= usize::MAX,
        ensures
            final(self)@ == old(self)@.with(restyled(content@, span@), width as nat),
    {
        let ghost before = self@;
        self.line.push(styled_like(content, span));
        assert(self@.line =~= before.line.push(restyled(content@, span@)));
        self.used = self.used + width;
    }

    fn gap(&mut self, n: usize, span: &Span, width: usize)
        requires
            n > 0,
            width >= 1,
            old(self).used <= bound(width as int),
        ensures
            final(self)@ == old(self)@.gap(n as nat, span@, width as nat),
            final(self).used <= bound(width as int),
    {
        // Drop whitespace at the start of a continuation line.
        if self.used == 0 && !self.first {
            return ;
        }
        let ghost start = self@;
        let mut i: usize = 0;
        assert(start.line + spaces(0, span@) =~= start.line);
        while i < n
            invariant
                i <= n,
                width >= 1,
                start == old(self)@,
                start.used <= bound(width as int),
                start.used > 0 || start.first,
                i > 0 ==> start.used + i <= width,
                self@ == (Wrapping {
                    line: start.line + spaces(i as nat, span@),
                    used: start.used + i as nat,
                    ..start
                }),
            decreases n - i,
        {
            if self.used >= width {
                // collapse the wrap-point whitespace
                self.break_line();
                assert(i == max(width - start.used, 0));
                return ;
            }
            let mut space = String::new();
            space.push(' ');
            assert(space@ =~= seq![' ']);
            self.push(space, span, 1);
            assert(start.line + spaces(i as nat, span@).push(restyled(seq![' '], span@))
                =~= start.line + spaces((i + 1) as nat, span@));
            assert(self@.line =~= start.line + spaces((i + 1) as nat, span@));
            i += 1;
        }
    }

    fn cut(&mut self, v: &Vec<char>, from: usize, to: usize, span: &Span, width: usize)
        requires
            from <= to <= v@.len(),
            width >= 1,
            old(self).used <= bound(width as int),
        ensures
            ({
                let word = v@.subrange(from as int, to as int);
                final(self)@ == Cutting::of(
                    old(self)@,
                    word,
                    word.len() as int,
                    span@,
                    width as nat,
                ).finished(span@)
            }),
            final(self).used <= bound(width as int),
    {
        let ghost start = self@;
        let ghost word = v@.subrange(from as int, to as int);
        let mut piece = String::new();
        let mut piece_width: usize = 0;
        let mut i: usize = from;
        assert(piece@ =~= Seq::empty());
        while i < to
            invariant
                from <= i <= to <= v@.len(),
                width >= 1,
                word == v@.subrange(from as int, to as int),
                self.used + piece_width <= bound(width as int),
                (Cutting { wrapping: self@, piece: piece@, piece_width: piece_width as nat })
                    == Cutting::of(start, word, i - from, span@, width as nat),
                piece@.len() == 0 ==> piece_width == 0,
            decreases to - i,
        {
            let c = v[i];
            assert(word[i - from] == c);
            let w = char_columns_of(c);
            if w > width || self.used + piece_width > width - w {
                if piece.as_str().unicode_len() > 0 {
                    self.push(piece, span, piece_width);
                }
                self.break_line();
                piece = String::new();
                piece_width = 0;
                piece.push(c);
                assert(piece@ =~= seq![c]);
                piece_width = w;
            } else {
                piece.push(c);
                piece_width += w;
            }
            i += 1;
        }
        if piece.as_str().unicode_len() > 0 {
            self.push(piece, span, piece_width);
        }
    }

    fn word(&mut self, v: &Vec<char>, from: usize, to: usize, span: &Span, width: usize)
        requires
            from <= to <= v@.len(),
            width >= 1,
            old(self).used <= bound(width as int),
        ensures
            final(self)@ == old(self)@.word(
                v@.subrange(from as int, to as int),
                span@,
                width as nat,
            ),
            final(self).used <= bound(width as int),
    {
        let token = substring(v, from, to);
        let word_w = width_of(token.as_str());
        if word_w <= width.saturating_sub(self.used) {
            self.push(token, span, word_w);
        } else if word_w <= width {
            // Fits on a line of its own: wrap first, then place it.
            self.break_line();
            self.push(token, span, word_w);
        } else {
            // Longer than a whole line: hard-split by column width.
            self.cut(v, from, to, span, width);
        }
    }

    fn span(&mut self, span: &Span, width: usize)
        requires
            width >= 1,
            old(self).used <= bound(width as int),
        ensures
            final(self)@ == old(self)@.runs(
                runs(span@.content),
                runs(span@.content).len() as int,
                span@,
                width as nat,
            ),
            final(self).used <= bound(width as int),
    {
        let v = chars_of(span.content.as_str());
        let ghost all = runs(v@);
        let ghost start = self@;
        let mut from: usize = 0;
        let ghost mut done: int = 0;
        assert(v@.take(0) =~= Seq::empty());
        assert(runs(v@.take(0)) =~= all.take(0));
        while from < v.len()
            invariant
                from <= v.len(),
                width >= 1,
                v@ == span@.content,
                all == runs(v@),
                0 <= done <= all.len(),
                runs(v@.take(from as int)) == all.take(done),
                0 < from < v.len() ==> is_gap(v@[from - 1]) != is_gap(v@[from as int]),
                self@ == start.runs(all, done, span@, width as nat),
                self.used <= bound(width as int),
            decreases v.len() - from,
        {
            let is_space = v[from] == ' ' || v[from] == '\t';
            // Collect a run of same-class characters (all-space or all-non-space).
            let mut to: usize = from + 1;
            while to < v.len() && (v[to] == ' ' || v[to] == '\t') == is_space
                invariant
                    from < to <= v.len(),
                    forall|k: int| from <= k < to ==> is_gap(#[trigger] v@[k]) == is_space,
                decreases v.len() - to,
            {
                to += 1;
            }
            let ghost run = v@.subrange(from as int, to as int);
            proof {
                lemma_next_run(v@, from as int, to as int, is_space);
                assert(runs(v@.take(to as int)) == all.take(done).push(run));
                lemma_runs_prefix(v@, to as int);
                assert(all[done] == all.take(done + 1)[done]);
                assert(all.take(done).push(run)[done] == run);
            }
            if is_space {
                self.gap(to - from, span, width);
            } else {
                self.word(&v, from, to, span, width);
            }
            proof {
                done = done + 1;
            }
            from = to;
        }
        proof {
            assert(v@.take(v@.len() as int) =~= v@);
            assert(all.take(done) == all);
            assert(done == all.len());
        }
    }
}

/// A run that is followed by nothing, or by a character of the other kind, is
/// the next one.
proof fn lemma_next_run(s: Seq<char>, from: int, to: int, is_space: bool)
    requires
        0 <= from < to <= s.len(),
        forall|k: int| from <= k < to ==> is_gap(#[trigger] s[k]) == is_space,
        from > 0 ==> is_gap(s[from - 1]) != is_space,
    ensures
        runs(s.take(to)) == runs(s.take(from)).push(s.subrange(from, to)),
    decreases to - from,
{
    let t = s.take(to);
    assert(t.drop_last() =~= s.take(to - 1));
    assert(t.last() == s[to - 1]);
    if to == from + 1 {
        assert(s.subrange(from, to) =~= seq![s[from]]);
        if from > 0 {
            assert(t[t.len() - 2] == s[from - 1]);
        }
    } else {
        lemma_next_run(s, from, to - 1, is_space);
        assert(t[t.len() - 2] == s[to - 2]);
        let before = runs(s.take(to - 1));
        assert(before.drop_last() =~= runs(s.take(from)));
        assert(s.subrange(from, to - 1).push(s[to - 1]) =~= s.subrange(from, to));
    }
}

/// Up to a change of kind, the runs of the start of a text are runs of the text.
proof fn lemma_runs_prefix(s: Seq<char>, k: int)
    requires
        0 < k <= s.len(),
        k < s.len() ==> is_gap(s[k - 1]) != is_gap(s[k]),
    ensures
        runs(s.take(k)).len() <= runs(s).len(),
        runs(s.take(k)) == runs(s).take(runs(s.take(k)).len() as int),
{
    let p = runs(s.take(k));
    lemma_runs_extend(s, k, s.len() as int);
    assert(s.take(s.len() as int) =~= s);
}

proof fn lemma_runs_extend(s: Seq<char>, k: int, n: int)
    requires
        0 < k <= n <= s.len(),
        k < s.len() ==> is_gap(s[k - 1]) != is_gap(s[k]),
    ensures
        ({
            let p = runs(s.take(k));
            let q = runs(s.take(n));
            &&& p.len() <= q.len()
            &&& n > k ==> p.len() < q.len()
            &&& p == q.take(p.len() as int)
        }),
    decreases n,
{
    let p = runs(s.take(k));
    let q = runs(s.take(n));
    if n == k {
        assert(q.take(p.len() as int) =~= p);
    } else {
        lemma_runs_extend(s, k, n - 1);
        let t = s.take(n);
        let before = runs(s.take(n - 1));
        assert(t.drop_last() =~= s.take(n - 1));
        assert(t.last() == s[n - 1]);
        assert(t[t.len() - 2] == s[n - 2]);
        assert(q.take(p.len() as int) =~= before.take(p.len() as int));
    }
}

/// Word-wrap a styled line to `width` columns, preserving each span's style.
/// Leading whitespace is kept on the first visual line (indentation) but dropped
/// at the start of continuation lines. Words longer than `width` are hard-split.
pub fn wrap_spans(line: &Vec<Span>, width: usize) -> (out: Vec<Vec<Span>>)
    ensures
        lines_view(out@) == wrapped_line(line_view(line@), width as nat),
{
    let width: usize = if width < 1 {
        1
    } else {
        width
    };
    let ghost all = line_view(line@);
    let mut wrapper = Wrapper { lines: Vec::new(), line: Vec::new(), used: 0, first: true };
    assert(wrapper@.lines =~= Seq::empty());
    assert(wrapper@.line =~= Seq::empty());
    let mut i: usize = 0;
    while i < line.len()
        invariant
            i <= line.len(),
            width >= 1,
            all == line_view(line@),
            wrapper@ == Wrapping::after(all, i as int, width as nat),
            wrapper.used <= bound(width as int),
        decreases line.len() - i,
    {
        wrapper.span(&line[i], width);
        i += 1;
    }
    wrapper.break_line();
    wrapper.lines
}

/// The columns that a line takes.
pub open spec fn line_columns(line: Seq<SpanView>) -> nat
    decreases line.len(),
{
    if line.len() == 0 {
        0
    } else {
        line_columns(line.drop_last()) + columns(line.last().content)
    }
}

/// No character asks for another one to be shown as an emoji.
pub open spec fn no_emoji_selector(line: Seq<SpanView>) -> bool {
    forall|i: int| 0 <= i < line.len() ==> !(#[trigger] line[i]).content.contains('\u{FE0F}')
}

/// All lines so far fit, and the columns of the last are counted.
spec fn fits(w: Wrapping, width: nat) -> bool {
    &&& w.used == line_columns(w.line)
    &&& w.used <= width
    &&& forall|i: int| 0 <= i < w.lines.len() ==> line_columns(#[trigger] w.lines[i]) <= width
}

proof fn lemma_with_fits(w: Wrapping, span: SpanView, width: nat)
    requires
        fits(w, width),
        w.used + columns(span.content) <= width,
    ensures
        fits(w.with(span, columns(span.content)), width),
{
    assert(w.line.push(span).drop_last() =~= w.line);
}

proof fn lemma_broken_fits(w: Wrapping, width: nat)
    requires
        fits(w, width),
    ensures
        fits(w.broken(), width),
{
    let b = w.broken();
    assert forall|i: int| 0 <= i < b.lines.len() implies line_columns(#[trigger] b.lines[i])
        <= width by {
        if i < w.lines.len() {
            assert(b.lines[i] == w.lines[i]);
        }
    }
}

proof fn lemma_spaces_columns(line: Seq<SpanView>, n: nat, span: SpanView)
    ensures
        line_columns(line + spaces(n, span)) == line_columns(line) + n,
    decreases n,
{
    let all = line + spaces(n, span);
    if n == 0 {
        assert(all =~= line);
    } else {
        let m = (n - 1) as nat;
        lemma_spaces_columns(line, m, span);
        assert(all.drop_last() =~= line + spaces(m, span));
        assert(all.last() == restyled(seq![' '], span));
        let s = seq![' '];
        assert(columns_upto(s, 0) == 0);
        assert(columns(s) == 1);
    }
}

proof fn lemma_gap_fits(w: Wrapping, n: nat, span: SpanView, width: nat)
    requires
        fits(w, width),
    ensures
        fits(w.gap(n, span, width), width),
{
    if w.used == 0 && !w.first {
    } else if w.used + n <= width {
        lemma_spaces_columns(w.line, n, span);
    } else {
        let room = (width - w.used) as nat;
        lemma_spaces_columns(w.line, room, span);
        let full = Wrapping { line: w.line + spaces(room, span), used: width, ..w };
        lemma_broken_fits(full, width);
    }
}

/// A word that is being cut fits so far.
spec fn cutting_fits(c: Cutting, width: nat) -> bool {
    &&& fits(c.wrapping, width)
    &&& c.piece_width == own_columns(c.piece, c.piece.len() as int)
    &&& c.wrapping.used + c.piece_width <= width
    &&& !c.piece.contains('\u{FE0F}')
}

proof fn lemma_finished_fits(c: Cutting, span: SpanView, width: nat)
    requires
        cutting_fits(c, width),
    ensures
        fits(c.finished(span), width),
{
    if c.piece.len() > 0 {
        lemma_columns_without_emoji(c.piece, c.piece.len() as int);
        lemma_with_fits(c.wrapping, restyled(c.piece, span), width);
    }
}

proof fn lemma_cut_fits(w: Wrapping, word: Seq<char>, n: int, span: SpanView, width: nat)
    requires
        width >= 2,
        0 <= n <= word.len(),
        fits(w, width),
        !word.contains('\u{FE0F}'),
    ensures
        cutting_fits(Cutting::of(w, word, n, span, width), width),
    decreases n,
{
    if n > 0 {
        lemma_cut_fits(w, word, n - 1, span, width);
        let before = Cutting::of(w, word, n - 1, span, width);
        let c = word[n - 1];
        assert(word.contains(c));
        let after = before.next(c, span, width);
        if before.wrapping.used + before.piece_width + char_columns(c) > width {
            lemma_finished_fits(before, span, width);
            lemma_broken_fits(before.finished(span), width);
            assert(own_columns(after.piece, 0) == 0);
            assert(own_columns(after.piece, 1) == char_columns(c));
        } else {
            lemma_own_columns_prefix(before.piece, after.piece, before.piece.len() as int);
            assert forall|i: int| 0 <= i < after.piece.len() implies after.piece[i]
                != '\u{FE0F}' by {
                if i < before.piece.len() {
                    assert(before.piece.contains(before.piece[i]));
                }
            }
        }
    }
}

proof fn lemma_run_fits(w: Wrapping, run: Seq<char>, span: SpanView, width: nat)
    requires
        width >= 2,
        fits(w, width),
        !run.contains('\u{FE0F}'),
    ensures
        fits(w.run(run, span, width), width),
{
    if is_gap(run[0]) {
        lemma_gap_fits(w, run.len(), span, width);
    } else {
        let n = columns(run);
        if w.used + n <= width {
            lemma_with_fits(w, restyled(run, span), width);
        } else if n <= width {
            lemma_broken_fits(w, width);
            assert(line_columns(Seq::empty()) == 0);
            lemma_with_fits(w.broken(), restyled(run, span), width);
        } else {
            lemma_cut_fits(w, run, run.len() as int, span, width);
            lemma_finished_fits(
                Cutting::of(w, run, run.len() as int, span, width),
                span,
                width,
            );
        }
    }
}

/// The runs of a text hold its characters.
proof fn lemma_runs_hold(s: Seq<char>)
    ensures
        forall|i: int, c: char|
            0 <= i < runs(s).len() && #[trigger] runs(s)[i].contains(c) ==> s.contains(c),
        forall|i: int| 0 <= i < runs(s).len() ==> (#[trigger] runs(s)[i]).len() > 0,
        s.len() > 0 ==> runs(s).len() > 0,
    decreases s.len(),
{
    if s.len() > 0 {
        let t = s.drop_last();
        lemma_runs_hold(t);
        let before = runs(t);
        let all = runs(s);
        assert forall|i: int, c: char|
            0 <= i < all.len() && #[trigger] all[i].contains(c) implies s.contains(c) by {
            let k = choose|k: int| 0 <= k < all[i].len() && all[i][k] == c;
            if i < before.len() && k < before[i].len() && all[i][k] == before[i][k] {
                assert(before[i].contains(c));
                let j = choose|j: int| 0 <= j < t.len() && t[j] == c;
                assert(s[j] == c);
            } else {
                assert(c == s.last());
                assert(s[s.len() - 1] == c);
            }
        }
    }
}

proof fn lemma_runs_fit(
    w: Wrapping,
    all: Seq<Seq<char>>,
    n: int,
    span: SpanView,
    width: nat,
)
    requires
        width >= 2,
        0 <= n <= all.len(),
        fits(w, width),
        forall|i: int| 0 <= i < all.len() ==> !(#[trigger] all[i]).contains('\u{FE0F}'),
    ensures
        fits(w.runs(all, n, span, width), width),
    decreases n,
{
    if n > 0 {
        lemma_runs_fit(w, all, n - 1, span, width);
        lemma_run_fits(w.runs(all, n - 1, span, width), all[n - 1], span, width);
    }
}

proof fn lemma_after_fits(line: Seq<SpanView>, n: int, width: nat)
    requires
        width >= 2,
        0 <= n <= line.len(),
        no_emoji_selector(line),
    ensures
        fits(Wrapping::after(line, n, width), width),
    decreases n,
{
    if n > 0 {
        lemma_after_fits(line, n - 1, width);
        let s = line[n - 1].content;
        let all = runs(s);
        lemma_runs_hold(s);
        assert forall|i: int| 0 <= i < all.len() implies !(#[trigger] all[i]).contains(
            '\u{FE0F}',
        ) by {
            if all[i].contains('\u{FE0F}') {
                assert(s.contains('\u{FE0F}'));
            }
        }
        lemma_runs_fit(
            Wrapping::after(line, n - 1, width),
            all,
            all.len() as int,
            line[n - 1],
            width,
        );
    }
}

/// Every line of a wrapped line fits into the width, if that has room for any
/// character and no character is shown as an emoji.
pub proof fn law_wrapped_line_fits(line: Seq<SpanView>, width: nat)
    requires
        width >= 2,
        no_emoji_selector(line),
    ensures
        forall|i: int|
            0 <= i < wrapped_line(line, width).len() ==> line_columns(
                #[trigger] wrapped_line(line, width)[i],
            ) <= width,
{
    lemma_after_fits(line, line.len() as int, width);
    lemma_broken_fits(Wrapping::after(line, line.len() as int, width), width);
}

/// The characters of `s` at which a line cannot be broken.
pub open spec fn without_gaps(s: Seq<char>) -> Seq<char> {
    s.filter(|c: char| !is_gap(c))
}

/// The text of lines, one after the other.
pub open spec fn lines_text(lines: Seq<Seq<SpanView>>) -> Seq<char>
    decreases lines.len(),
{
    if lines.len() == 0 {
        Seq::empty()
    } else {
        lines_text(lines.drop_last()) + line_text(lines.last())
    }
}

/// The text that is laid out so far, without gaps.
spec fn kept(w: Wrapping) -> Seq<char> {
    without_gaps(lines_text(w.lines) + line_text(w.line))
}

proof fn lemma_without_gaps_concat(a: Seq<char>, b: Seq<char>)
    ensures
        without_gaps(a + b) == without_gaps(a) + without_gaps(b),
{
    Seq::filter_distributes_over_add(a, b, |c: char| !is_gap(c));
}

proof fn lemma_with_kept(w: Wrapping, span: SpanView, width: nat)
    ensures
        kept(w.with(span, width)) == kept(w) + without_gaps(span.content),
{
    let line = w.line.push(span);
    assert(line.drop_last() =~= w.line);
    let before = lines_text(w.lines) + line_text(w.line);
    assert(lines_text(w.lines) + line_text(line) =~= before + span.content);
    lemma_without_gaps_concat(before, span.content);
}

proof fn lemma_broken_kept(w: Wrapping)
    ensures
        kept(w.broken()) == kept(w),
{
    let b = w.broken();
    assert(b.lines.drop_last() =~= w.lines);
    assert(line_text(b.line) =~= Seq::empty());
    assert(lines_text(b.lines) + line_text(b.line) =~= lines_text(w.lines) + line_text(w.line));
}

proof fn lemma_spaces_kept(w: Wrapping, n: nat, span: SpanView)
    ensures
        kept(Wrapping { line: w.line + spaces(n, span), ..w }) == kept(w),
    decreases n,
{
    if n == 0 {
        assert(w.line + spaces(n, span) =~= w.line);
    } else {
        let m = (n - 1) as nat;
        let before = Wrapping { line: w.line + spaces(m, span), ..w };
        let space = restyled(seq![' '], span);
        lemma_spaces_kept(w, m, span);
        lemma_with_kept(before, space, 0);
        assert(before.line.push(space) =~= w.line + spaces(n, span));
        reveal_with_fuel(Seq::filter, 2);
        assert(seq![' '].drop_last() =~= Seq::<char>::empty());
        assert(without_gaps(seq![' ']) =~= Seq::empty());
        assert(kept(before) + Seq::empty() =~= kept(before));
        let after = Wrapping { line: w.line + spaces(n, span), ..w };
        assert(kept(after) == kept(before.with(space, 0)));
    }
}

proof fn lemma_all_gaps(s: Seq<char>)
    requires
        forall|i: int| 0 <= i < s.len() ==> is_gap(#[trigger] s[i]),
    ensures
        without_gaps(s) == Seq::<char>::empty(),
    decreases s.len(),
{
    reveal(Seq::filter);
    if s.len() > 0 {
        lemma_all_gaps(s.drop_last());
    }
}

proof fn lemma_cut_kept(w: Wrapping, word: Seq<char>, n: int, span: SpanView, width: nat)
    requires
        0 <= n <= word.len(),
    ensures
        kept(Cutting::of(w, word, n, span, width).finished(span)) == kept(w) + without_gaps(
            word.take(n),
        ),
    decreases n,
{
    let after = Cutting::of(w, word, n, span, width);
    if n <= 0 {
        assert(word.take(n) =~= Seq::empty());
        lemma_all_gaps(word.take(n));
        assert(kept(w) + Seq::empty() =~= kept(w));
    } else {
        lemma_cut_kept(w, word, n - 1, span, width);
        let before = Cutting::of(w, word, n - 1, span, width);
        let c = word[n - 1];
        lemma_without_gaps_concat(word.take(n - 1), seq![c]);
        assert(word.take(n - 1) + seq![c] =~= word.take(n));
        if before.wrapping.used + before.piece_width + char_columns(c) > width {
            lemma_broken_kept(before.finished(span));
            lemma_with_kept(after.wrapping, restyled(after.piece, span), after.piece_width);
            assert(after == before.next(c, span, width));
            assert(kept(after.finished(span)) == kept(before.finished(span)) + without_gaps(
                seq![c],
            ));
        } else {
            assert(after == before.next(c, span, width));
            lemma_with_kept(after.wrapping, restyled(after.piece, span), after.piece_width);
            lemma_with_kept(before.wrapping, restyled(before.piece, span), before.piece_width);
            lemma_without_gaps_concat(before.piece, seq![c]);
            assert(before.piece + seq![c] =~= after.piece);
            if before.piece.len() == 0 {
                lemma_all_gaps(before.piece);
                assert(kept(before.wrapping) + Seq::empty() =~= kept(before.wrapping));
            }
            assert(kept(before.finished(span)) == kept(before.wrapping) + without_gaps(
                before.piece,
            ));
            assert(kept(after.finished(span)) =~= kept(before.finished(span)) + without_gaps(
                seq![c],
            ));
        }
        assert(kept(after.finished(span)) =~= kept(w) + without_gaps(word.take(n)));
    }
}

proof fn lemma_run_kept(w: Wrapping, run: Seq<char>, span: SpanView, width: nat)
    requires
        run.len() > 0,
        is_gap(run[0]) ==> forall|i: int| 0 <= i < run.len() ==> is_gap(#[trigger] run[i]),
    ensures
        kept(w.run(run, span, width)) == kept(w) + without_gaps(run),
{
    if is_gap(run[0]) {
        lemma_all_gaps(run);
        assert(kept(w) + Seq::empty() =~= kept(w));
        if w.used == 0 && !w.first {
        } else if w.used + run.len() <= width {
            lemma_spaces_kept(w, run.len(), span);
            let after = Wrapping { line: w.line + spaces(run.len(), span), ..w };
            assert(kept(w.run(run, span, width)) == kept(after));
        } else {
            let room = max(width - w.used, 0) as nat;
            lemma_spaces_kept(w, room, span);
            lemma_broken_kept(Wrapping { line: w.line + spaces(room, span), ..w });
        }
    } else {
        let n = columns(run);
        if w.used + n <= width || n == 0 {
            lemma_with_kept(w, restyled(run, span), n);
        } else if n <= width {
            lemma_broken_kept(w);
            lemma_with_kept(w.broken(), restyled(run, span), n);
        } else {
            lemma_cut_kept(w, run, run.len() as int, span, width);
            assert(run.take(run.len() as int) =~= run);
        }
    }
}

/// Runs are all gaps or none, and make up the text.
proof fn lemma_runs_make_up(s: Seq<char>)
    ensures
        forall|i: int, k: int|
            0 <= i < runs(s).len() && 0 <= k < runs(s)[i].len() ==> is_gap(
                #[trigger] runs(s)[i][k],
            ) == is_gap(runs(s)[i][0]),
        s.len() > 0 ==> runs(s).last().last() == s.last(),
        joined(runs(s), runs(s).len() as int) == s,
    decreases s.len(),
{
    lemma_runs_hold(s);
    if s.len() > 0 {
        let t = s.drop_last();
        lemma_runs_make_up(t);
        lemma_runs_hold(t);
        let before = runs(t);
        let all = runs(s);
        let c = s.last();
        if t.len() > 0 {
            assert(t.last() == s[s.len() - 2]);
            assert(before.last().last() == before.last()[before.last().len() - 1]);
        }
        assert forall|i: int, k: int| 0 <= i < all.len() && 0 <= k < all[i].len() implies is_gap(
            #[trigger] all[i][k],
        ) == is_gap(all[i][0]) by {
            if i < before.len() {
                assert(all[i][0] == before[i][0]);
                if k < before[i].len() {
                    assert(all[i][k] == before[i][k]);
                }
            }
        }
        if s.len() > 1 && is_gap(s[s.len() - 2]) == is_gap(c) {
            lemma_joined_prefix(before, all, before.len() - 1);
            assert(joined(all, all.len() as int) =~= joined(before, before.len() as int).push(c));
        } else {
            lemma_joined_prefix(before, all, before.len() as int);
            assert(joined(all, all.len() as int) =~= joined(before, before.len() as int).push(c));
        }
        assert(t.push(c) =~= s);
    } else {
        assert(joined(runs(s), 0) =~= s);
    }
}

/// The first `n` parts, one after the other.
spec fn joined(parts: Seq<Seq<char>>, n: int) -> Seq<char>
    decreases n,
{
    if n <= 0 {
        Seq::empty()
    } else {
        joined(parts, n - 1) + parts[n - 1]
    }
}

proof fn lemma_joined_prefix(a: Seq<Seq<char>>, b: Seq<Seq<char>>, n: int)
    requires
        n <= a.len(),
        n <= b.len(),
        forall|i: int| 0 <= i < n ==> a[i] == b[i],
    ensures
        joined(a, n) == joined(b, n),
    decreases n,
{
    if n > 0 {
        lemma_joined_prefix(a, b, n - 1);
    }
}

proof fn lemma_runs_kept(
    w: Wrapping,
    all: Seq<Seq<char>>,
    n: int,
    span: SpanView,
    width: nat,
)
    requires
        0 <= n <= all.len(),
        forall|i: int| 0 <= i < all.len() ==> (#[trigger] all[i]).len() > 0,
        forall|i: int, k: int|
            0 <= i < all.len() && 0 <= k < all[i].len() ==> is_gap(#[trigger] all[i][k]) == is_gap(
                all[i][0],
            ),
    ensures
        kept(w.runs(all, n, span, width)) == kept(w) + without_gaps(joined(all, n)),
    decreases n,
{
    if n > 0 {
        lemma_runs_kept(w, all, n - 1, span, width);
        let before = w.runs(all, n - 1, span, width);
        lemma_run_kept(before, all[n - 1], span, width);
        lemma_without_gaps_concat(joined(all, n - 1), all[n - 1]);
        assert(kept(w.runs(all, n, span, width)) =~= kept(w) + without_gaps(joined(all, n)));
    } else {
        lemma_all_gaps(joined(all, 0));
        assert(kept(w) + Seq::empty() =~= kept(w));
    }
}

proof fn lemma_after_kept(line: Seq<SpanView>, n: int, width: nat)
    requires
        0 <= n <= line.len(),
    ensures
        kept(Wrapping::after(line, n, width)) == without_gaps(line_text(line.take(n))),
    decreases n,
{
    if n > 0 {
        lemma_after_kept(line, n - 1, width);
        let span = line[n - 1];
        let all = runs(span.content);
        lemma_runs_hold(span.content);
        lemma_runs_make_up(span.content);
        let before = Wrapping::after(line, n - 1, width);
        lemma_runs_kept(before, all, all.len() as int, span, width);
        assert(line.take(n).drop_last() =~= line.take(n - 1));
        lemma_without_gaps_concat(line_text(line.take(n - 1)), span.content);
    } else {
        assert(line.take(n) =~= Seq::empty());
        assert(lines_text(Seq::empty()) + line_text(Seq::empty()) =~= line_text(line.take(n)));
    }
}

/// Wrapping a line loses nothing but spaces and tabs.
pub proof fn law_wrapping_a_line_keeps_text(line: Seq<SpanView>, width: nat)
    ensures
        without_gaps(lines_text(wrapped_line(line, width))) == without_gaps(line_text(line)),
        wrapped_line(line, width).len() >= 1,
{
    let w = if width < 1 {
        1
    } else {
        width
    };
    let last = Wrapping::after(line, line.len() as int, w);
    lemma_after_kept(line, line.len() as int, w);
    lemma_broken_kept(last);
    assert(line.take(line.len() as int) =~= line);
    assert(line_text(last.broken().line) =~= Seq::empty());
    assert(lines_text(last.broken().lines) + Seq::empty() =~= lines_text(last.broken().lines));
}

proof fn lemma_spaces_text(line: Seq<SpanView>, n: nat, span: SpanView)
    ensures
        line_text(line + spaces(n, span)) == line_text(line) + Seq::new(n, |i: int| ' '),
    decreases n,
{
    let all = line + spaces(n, span);
    if n == 0 {
        assert(all =~= line);
        assert(line_text(line) + Seq::new(0, |i: int| ' ') =~= line_text(line));
    } else {
        let m = (n - 1) as nat;
        lemma_spaces_text(line, m, span);
        assert(all.drop_last() =~= line + spaces(m, span));
        assert(all.last().content == seq![' ']);
        assert(line_text(all) =~= line_text(line) + Seq::new(n, |i: int| ' '));
    }
}

proof fn lemma_spaces_width(n: nat)
    ensures
        columns(Seq::new(n, |i: int| ' ')) == n,
{
    law_ascii_takes_a_column_each(Seq::new(n, |i: int| ' '));
}

proof fn lemma_joined_holds(all: Seq<Seq<char>>, n: int, c: char)
    requires
        0 <= n <= all.len(),
        forall|i: int| 0 <= i < all.len() ==> !(#[trigger] all[i]).contains(c),
    ensures
        !joined(all, n).contains(c),
    decreases n,
{
    if n > 0 {
        lemma_joined_holds(all, n - 1, c);
        let s = joined(all, n);
        let before = joined(all, n - 1);
        assert(!all[n - 1].contains(c));
        if s.contains(c) {
            let i = choose|i: int| 0 <= i < s.len() && s[i] == c;
            if i < before.len() {
                assert(before[i] == c);
            } else {
                assert(all[n - 1][i - before.len()] == c);
            }
        }
    }
}

proof fn lemma_runs_fit_on_the_line(
    w: Wrapping,
    all: Seq<Seq<char>>,
    n: int,
    span: SpanView,
    width: nat,
)
    requires
        0 <= n <= all.len(),
        forall|i: int| 0 <= i < all.len() ==> (#[trigger] all[i]).len() > 0,
        forall|i: int| 0 <= i < all.len() ==> !(#[trigger] all[i]).contains('\u{FE0F}'),
        forall|i: int| 0 <= i < all.len() ==> !(#[trigger] all[i]).contains('\t'),
        forall|i: int, k: int|
            0 <= i < all.len() && 0 <= k < all[i].len() ==> is_gap(#[trigger] all[i][k]) == is_gap(
                all[i][0],
            ),
        w.lines.len() == 0,
        w.first,
        w.used + columns(joined(all, n)) <= width,
    ensures
        ({
            let now = w.runs(all, n, span, width);
            &&& now.lines.len() == 0
            &&& now.first
            &&& now.used == w.used + columns(joined(all, n))
            &&& line_text(now.line) == line_text(w.line) + joined(all, n)
        }),
    decreases n,
{
    if n > 0 {
        let run = all[n - 1];
        lemma_joined_holds(all, n - 1, '\u{FE0F}');
        law_columns_add_up(joined(all, n - 1), run);
        lemma_runs_fit_on_the_line(w, all, n - 1, span, width);
        let before = w.runs(all, n - 1, span, width);
        if is_gap(run[0]) {
            assert forall|k: int| 0 <= k < run.len() implies run[k] == ' ' by {
                assert(is_gap(all[n - 1][k]));
                assert(run.contains(run[k]));
            }
            assert(run =~= Seq::new(run.len(), |i: int| ' '));
            lemma_spaces_width(run.len());
            lemma_spaces_text(before.line, run.len(), span);
        } else {
            assert(before.line.push(restyled(run, span)).drop_last() =~= before.line);
        }
        assert(line_text(w.runs(all, n, span, width).line) =~= line_text(w.line) + joined(all, n));
    } else {
        assert(line_text(w.line) + joined(all, n) =~= line_text(w.line));
        assert(columns_upto(joined(all, n), 0) == 0);
    }
}

proof fn lemma_line_columns_grow(line: Seq<SpanView>, n: int)
    requires
        0 <= n <= line.len(),
    ensures
        line_columns(line.take(n)) <= line_columns(line),
    decreases line.len(),
{
    if n < line.len() {
        lemma_line_columns_grow(line.drop_last(), n);
        assert(line.drop_last().take(n) =~= line.take(n));
    } else {
        assert(line.take(n) =~= line);
    }
}

proof fn lemma_fits_on_the_line(line: Seq<SpanView>, n: int, width: nat)
    requires
        0 <= n <= line.len(),
        no_emoji_selector(line),
        forall|i: int| 0 <= i < line.len() ==> !(#[trigger] line[i]).content.contains('\t'),
        line_columns(line) <= width,
    ensures
        ({
            let now = Wrapping::after(line, n, width);
            &&& now.lines.len() == 0
            &&& now.first
            &&& now.used == line_columns(line.take(n))
            &&& line_text(now.line) == line_text(line.take(n))
        }),
    decreases n,
{
    if n > 0 {
        lemma_fits_on_the_line(line, n - 1, width);
        let span = line[n - 1];
        let all = runs(span.content);
        lemma_runs_hold(span.content);
        lemma_runs_make_up(span.content);
        lemma_line_columns_grow(line, n);
        assert(line.take(n).drop_last() =~= line.take(n - 1));
        assert(!line[n - 1].content.contains('\u{FE0F}'));
        assert(!line[n - 1].content.contains('\t'));
        lemma_runs_fit_on_the_line(
            Wrapping::after(line, n - 1, width),
            all,
            all.len() as int,
            span,
            width,
        );
    } else {
        assert(line.take(n) =~= Seq::empty());
    }
}

/// A line that takes no more columns than there are is not broken, and keeps all its
/// text, spaces too.
pub proof fn law_line_that_fits_stays_whole(line: Seq<SpanView>, width: nat)
    requires
        no_emoji_selector(line),
        forall|i: int| 0 <= i < line.len() ==> !(#[trigger] line[i]).content.contains('\t'),
        line_columns(line) <= width,
        width > 0,
    ensures
        wrapped_line(line, width).len() == 1,
        line_text(wrapped_line(line, width)[0]) == line_text(line),
{
    lemma_fits_on_the_line(line, line.len() as int, width);
    assert(line.take(line.len() as int) =~= line);
}

/// What is laid out in `w` is laid out in `v` too, and in the same place.
spec fn extends(w: Wrapping, v: Wrapping) -> bool {
    &&& w.lines.len() <= v.lines.len()
    &&& forall|k: int| 0 <= k < w.lines.len() ==> #[trigger] v.lines[k] == w.lines[k]
    &&& w.line.is_prefix_of(v.lines.push(v.line)[w.lines.len() as int])
}

proof fn lemma_extends_on(a: Wrapping, b: Wrapping, c: Wrapping)
    requires
        extends(a, b),
        extends(b, c),
    ensures
        extends(a, c),
{
    assert forall|k: int| 0 <= k < a.lines.len() implies #[trigger] c.lines[k] == a.lines[k] by {
        assert(c.lines[k] == b.lines[k]);
    }
    let n = a.lines.len() as int;
    let there = b.lines.push(b.line)[n];
    let then = c.lines.push(c.line)[n];
    if n < b.lines.len() {
        assert(c.lines[n] == b.lines[n]);
    }
    assert(there.is_prefix_of(then));
    assert(a.line =~= then.subrange(0, a.line.len() as int)) by {
        assert(a.line =~= there.subrange(0, a.line.len() as int));
        assert(there =~= then.subrange(0, there.len() as int));
        assert forall|i: int| 0 <= i < a.line.len() implies a.line[i] == then[i] by {
            assert(there[i] == then.subrange(0, there.len() as int)[i]);
            assert(a.line[i] == there.subrange(0, a.line.len() as int)[i]);
        }
    }
}

proof fn lemma_extends_itself(w: Wrapping)
    ensures
        extends(w, w),
        extends(w, w.broken()),
{
    assert(w.line =~= w.line.subrange(0, w.line.len() as int));
}

proof fn lemma_with_extends(w: Wrapping, more: Seq<SpanView>, v: Wrapping)
    requires
        v.lines == w.lines,
        v.line == w.line + more,
    ensures
        extends(w, v),
{
    assert(w.line =~= v.line.subrange(0, w.line.len() as int));
}

proof fn lemma_finished_extends(c: Cutting, span: SpanView)
    ensures
        extends(c.wrapping, c.finished(span)),
{
    lemma_extends_itself(c.wrapping);
    if c.piece.len() > 0 {
        let piece = restyled(c.piece, span);
        assert(c.wrapping.line.push(piece) =~= c.wrapping.line + seq![piece]);
        lemma_with_extends(c.wrapping, seq![piece], c.finished(span));
    }
}

proof fn lemma_cut_extends(w: Wrapping, word: Seq<char>, n: int, span: SpanView, width: nat)
    requires
        0 <= n <= word.len(),
    ensures
        extends(w, Cutting::of(w, word, n, span, width).wrapping),
    decreases n,
{
    if n > 0 {
        lemma_cut_extends(w, word, n - 1, span, width);
        let before = Cutting::of(w, word, n - 1, span, width);
        let now = Cutting::of(w, word, n, span, width);
        if now.wrapping != before.wrapping {
            lemma_finished_extends(before, span);
            lemma_extends_itself(before.finished(span));
            lemma_extends_on(w, before.wrapping, before.finished(span));
            lemma_extends_on(w, before.finished(span), now.wrapping);
        }
    } else {
        lemma_extends_itself(w);
    }
}

proof fn lemma_run_extends(w: Wrapping, run: Seq<char>, span: SpanView, width: nat)
    ensures
        extends(w, w.run(run, span, width)),
{
    lemma_extends_itself(w);
    let v = w.run(run, span, width);
    if is_gap(run[0]) {
        if w.used == 0 && !w.first {
        } else if w.used + run.len() <= width {
            lemma_with_extends(w, spaces(run.len(), span), v);
        } else {
            let room = max(width - w.used, 0) as nat;
            let full = Wrapping { line: w.line + spaces(room, span), ..w };
            lemma_with_extends(w, spaces(room, span), full);
            lemma_extends_itself(full);
            lemma_extends_on(w, full, v);
        }
    } else {
        let one = restyled(run, span);
        let n = columns(run);
        if w.used + n <= width || n == 0 {
            assert(w.line.push(one) =~= w.line + seq![one]);
            lemma_with_extends(w, seq![one], v);
        } else if n <= width {
            let b = w.broken();
            assert(b.line.push(one) =~= b.line + seq![one]);
            lemma_with_extends(b, seq![one], v);
            lemma_extends_on(w, b, v);
        } else {
            let c = Cutting::of(w, run, run.len() as int, span, width);
            lemma_cut_extends(w, run, run.len() as int, span, width);
            lemma_finished_extends(c, span);
            lemma_extends_on(w, c.wrapping, v);
        }
    }
}

proof fn lemma_runs_extend_from(
    w: Wrapping,
    all: Seq<Seq<char>>,
    m: int,
    n: int,
    span: SpanView,
    width: nat,
)
    requires
        0 <= m <= n <= all.len(),
    ensures
        extends(w.runs(all, m, span, width), w.runs(all, n, span, width)),
    decreases n - m,
{
    let from = w.runs(all, m, span, width);
    lemma_extends_itself(from);
    if m < n {
        lemma_runs_extend_from(w, all, m, n - 1, span, width);
        let before = w.runs(all, n - 1, span, width);
        lemma_run_extends(before, all[n - 1], span, width);
        lemma_extends_on(from, before, w.runs(all, n, span, width));
    }
}

proof fn lemma_after_extends(line: Seq<SpanView>, m: int, n: int, width: nat)
    requires
        0 <= m <= n <= line.len(),
    ensures
        extends(Wrapping::after(line, m, width), Wrapping::after(line, n, width)),
    decreases n - m,
{
    let from = Wrapping::after(line, m, width);
    lemma_extends_itself(from);
    if m < n {
        lemma_after_extends(line, m, n - 1, width);
        let before = Wrapping::after(line, n - 1, width);
        let all = runs(line[n - 1].content);
        lemma_runs_extend_from(before, all, 0, all.len() as int, line[n - 1], width);
        lemma_extends_on(from, before, Wrapping::after(line, n, width));
    }
}

/// A word that fits on a line is not cut: it stands whole on one of the lines, in its own
/// style.
pub proof fn law_words_that_fit_are_not_cut(line: Seq<SpanView>, width: nat, i: int, r: int)
    requires
        width > 0,
        0 <= i < line.len(),
        0 <= r < runs(line[i].content).len(),
        !is_gap(runs(line[i].content)[r][0]),
        columns(runs(line[i].content)[r]) <= width,
    ensures
        exists|k: int, m: int|
            0 <= k < wrapped_line(line, width).len() && 0 <= m < wrapped_line(line, width)[k].len()
                && (#[trigger] wrapped_line(line, width)[k][m]).content == runs(line[i].content)[r]
                && wrapped_line(line, width)[k][m].style == line[i].style && wrapped_line(
                line,
                width,
            )[k][m].highlights == line[i].highlights,
{
    let span = line[i];
    let all = runs(span.content);
    let word = all[r];
    let before = Wrapping::after(line, i, width).runs(all, r, span, width);
    let placed = Wrapping::after(line, i, width).runs(all, r + 1, span, width);
    assert(placed == before.run(word, span, width));
    let here = placed.line.len() - 1;
    assert(placed.line[here] == restyled(word, span));
    let through = Wrapping::after(line, i + 1, width);
    lemma_runs_extend_from(
        Wrapping::after(line, i, width),
        all,
        r + 1,
        all.len() as int,
        span,
        width,
    );
    lemma_after_extends(line, i + 1, line.len() as int, width);
    let last = Wrapping::after(line, line.len() as int, width);
    lemma_extends_on(placed, through, last);
    let k = placed.lines.len() as int;
    let out = wrapped_line(line, width);
    assert(out =~= last.lines.push(last.line));
    assert(placed.line =~= out[k].subrange(0, placed.line.len() as int));
    assert(out[k][here] == placed.line[here]);
}

/// No line but the first begins with a space.
spec fn is_flush(w: Wrapping) -> bool {
    &&& w.first <==> w.lines.len() == 0
    &&& w.line.len() == 0 ==> w.used == 0
    &&& forall|k: int|
        1 <= k < w.lines.len() && (#[trigger] w.lines[k]).len() > 0 ==> w.lines[k][0].content
            != seq![' ']
    &&& w.lines.len() > 0 && w.line.len() > 0 ==> w.line[0].content != seq![' ']
}

proof fn lemma_broken_is_flush(w: Wrapping)
    requires
        is_flush(w),
    ensures
        is_flush(w.broken()),
{
    let b = w.broken();
    assert forall|k: int|
        1 <= k < b.lines.len() && (#[trigger] b.lines[k]).len() > 0 implies b.lines[k][0].content
        != seq![' '] by {
        if k < w.lines.len() {
            assert(b.lines[k] == w.lines[k]);
        }
    }
}

proof fn lemma_with_is_flush(w: Wrapping, span: SpanView, width: nat)
    requires
        is_flush(w),
        span.content != seq![' '],
    ensures
        is_flush(w.with(span, width)),
{
}

proof fn lemma_cut_is_flush(w: Wrapping, word: Seq<char>, n: int, span: SpanView, width: nat)
    requires
        0 <= n <= word.len(),
        is_flush(w),
        !word.contains(' '),
    ensures
        is_flush(Cutting::of(w, word, n, span, width).finished(span)),
        is_flush(Cutting::of(w, word, n, span, width).wrapping),
        !Cutting::of(w, word, n, span, width).piece.contains(' '),
    decreases n,
{
    let now = Cutting::of(w, word, n, span, width);
    if n > 0 {
        lemma_cut_is_flush(w, word, n - 1, span, width);
        let before = Cutting::of(w, word, n - 1, span, width);
        let c = word[n - 1];
        assert(word.contains(c));
        if before.wrapping.used + before.piece_width + char_columns(c) > width {
            lemma_broken_is_flush(before.finished(span));
            assert(now.piece =~= seq![c]);
        } else {
            assert(now.piece =~= before.piece.push(c));
            assert forall|i: int| 0 <= i < now.piece.len() implies now.piece[i] != ' ' by {
                if i < before.piece.len() {
                    assert(before.piece.contains(before.piece[i]));
                }
            }
        }
    }
    if now.piece.len() > 0 {
        assert(now.piece.contains(now.piece[0]));
        assert(restyled(now.piece, span).content != seq![' ']) by {
            assert(seq![' '][0] == ' ');
        }
        lemma_with_is_flush(now.wrapping, restyled(now.piece, span), now.piece_width);
    }
}

proof fn lemma_run_is_flush(w: Wrapping, run: Seq<char>, span: SpanView, width: nat)
    requires
        is_flush(w),
        run.len() > 0,
        forall|k: int| 0 <= k < run.len() ==> is_gap(#[trigger] run[k]) == is_gap(run[0]),
    ensures
        is_flush(w.run(run, span, width)),
{
    if is_gap(run[0]) {
        if w.used == 0 && !w.first {
        } else if w.used + run.len() <= width {
            let v = w.run(run, span, width);
            if w.line.len() > 0 {
                assert(v.line[0] == w.line[0]);
            }
        } else {
            let room = max(width - w.used, 0) as nat;
            let full = Wrapping { line: w.line + spaces(room, span), ..w };
            if w.line.len() > 0 {
                assert(full.line[0] == w.line[0]);
            }
            let b = full.broken();
            assert forall|k: int|
                1 <= k < b.lines.len() && (#[trigger] b.lines[k]).len() > 0 implies b.lines[k][0].content
                != seq![' '] by {
                if k < w.lines.len() {
                    assert(b.lines[k] == w.lines[k]);
                }
            }
        }
    } else {
        let one = restyled(run, span);
        let n = columns(run);
        assert(one.content != seq![' ']) by {
            assert(seq![' '][0] == ' ');
        }
        if w.used + n <= width || n == 0 {
            lemma_with_is_flush(w, one, n);
        } else if n <= width {
            lemma_broken_is_flush(w);
            lemma_with_is_flush(w.broken(), one, n);
        } else {
            assert forall|k: int| 0 <= k < run.len() implies run[k] != ' ' by {
                assert(!is_gap(run[k]));
            }
            lemma_cut_is_flush(w, run, run.len() as int, span, width);
        }
    }
}

proof fn lemma_runs_are_flush(
    w: Wrapping,
    all: Seq<Seq<char>>,
    n: int,
    span: SpanView,
    width: nat,
)
    requires
        is_flush(w),
        0 <= n <= all.len(),
        forall|i: int| 0 <= i < all.len() ==> (#[trigger] all[i]).len() > 0,
        forall|i: int, k: int|
            0 <= i < all.len() && 0 <= k < all[i].len() ==> is_gap(#[trigger] all[i][k]) == is_gap(
                all[i][0],
            ),
    ensures
        is_flush(w.runs(all, n, span, width)),
    decreases n,
{
    if n > 0 {
        lemma_runs_are_flush(w, all, n - 1, span, width);
        let run = all[n - 1];
        assert forall|k: int| 0 <= k < run.len() implies is_gap(#[trigger] run[k]) == is_gap(
            run[0],
        ) by {
            assert(is_gap(all[n - 1][k]) == is_gap(all[n - 1][0]));
        }
        lemma_run_is_flush(w.runs(all, n - 1, span, width), run, span, width);
    }
}

proof fn lemma_after_is_flush(line: Seq<SpanView>, n: int, width: nat)
    requires
        0 <= n <= line.len(),
    ensures
        is_flush(Wrapping::after(line, n, width)),
    decreases n,
{
    if n > 0 {
        lemma_after_is_flush(line, n - 1, width);
        let all = runs(line[n - 1].content);
        lemma_runs_hold(line[n - 1].content);
        lemma_runs_make_up(line[n - 1].content);
        lemma_runs_are_flush(
            Wrapping::after(line, n - 1, width),
            all,
            all.len() as int,
            line[n - 1],
            width,
        );
    }
}

/// Where a line is broken at a space, the space is not carried over: no line but the first
/// begins with one.
pub proof fn law_broken_lines_begin_with_words(line: Seq<SpanView>, width: nat, k: int)
    requires
        1 <= k < wrapped_line(line, width).len(),
        wrapped_line(line, width)[k].len() > 0,
    ensures
        wrapped_line(line, width)[k][0].content != seq![' '],
{
    let w = if width < 1 {
        1
    } else {
        width
    };
    let last = Wrapping::after(line, line.len() as int, w);
    lemma_after_is_flush(line, line.len() as int, w);
    lemma_broken_is_flush(last);
    assert(wrapped_line(line, width) == last.broken().lines);
}

/// How a word is cut so far: each line but the last is one piece, to which the next character
/// could not be added.
spec fn is_cut(c: Cutting, n: int, width: nat) -> bool {
    &&& c.wrapping.line.len() == 0
    &&& c.wrapping.used == 0
    &&& c.piece_width == own_columns(c.piece, c.piece.len() as int)
    &&& c.piece_width <= width
    &&& n > 0 <==> c.piece.len() > 0
    &&& n == 0 ==> c.wrapping.lines.len() == 0
    &&& forall|k: int|
        0 <= k < c.wrapping.lines.len() ==> (#[trigger] c.wrapping.lines[k]).len() == 1
            && c.wrapping.lines[k][0].content.len() > 0
    &&& forall|k: int, m: int|
        #![trigger c.wrapping.lines[k], c.wrapping.lines[m]]
        0 <= k && m == k + 1 && m < c.wrapping.lines.len() ==> own_columns(
            c.wrapping.lines[k][0].content,
            c.wrapping.lines[k][0].content.len() as int,
        ) + char_columns(c.wrapping.lines[m][0].content[0]) > width
    &&& c.wrapping.lines.len() > 0 ==> own_columns(
        c.wrapping.lines.last()[0].content,
        c.wrapping.lines.last()[0].content.len() as int,
    ) + char_columns(c.piece[0]) > width
}

proof fn lemma_is_cut(word: Seq<char>, n: int, span: SpanView, width: nat)
    requires
        width >= 2,
        0 <= n <= word.len(),
    ensures
        is_cut(Cutting::of(Wrapping::start(), word, n, span, width), n, width),
    decreases n,
{
    if n > 0 {
        lemma_is_cut(word, n - 1, span, width);
        let before = Cutting::of(Wrapping::start(), word, n - 1, span, width);
        let now = Cutting::of(Wrapping::start(), word, n, span, width);
        let c = word[n - 1];
        assert(now == before.next(c, span, width));
        if before.wrapping.used + before.piece_width + char_columns(c) > width {
            if before.piece.len() == 0 {
                assert(own_columns(before.piece, 0) == 0);
            }
            let old = before.wrapping.lines;
            let all = now.wrapping.lines;
            assert(before.piece.len() > 0);
            assert(before.wrapping.line.push(restyled(before.piece, span)) =~= seq![
                restyled(before.piece, span),
            ]);
            assert(all =~= old.push(seq![restyled(before.piece, span)]));
            assert(own_columns(now.piece, 0) == 0);
            assert(own_columns(now.piece, 1) == char_columns(c));
            assert forall|k: int| 0 <= k < all.len() implies (#[trigger] all[k]).len() == 1
                && all[k][0].content.len() > 0 by {
                if k < old.len() {
                    assert(all[k] == old[k]);
                }
            }
            assert forall|k: int, m: int|
                #![trigger all[k], all[m]]
                0 <= k && m == k + 1 && m < all.len() implies own_columns(
                all[k][0].content,
                all[k][0].content.len() as int,
            ) + char_columns(all[m][0].content[0]) > width by {
                assert(all[k] == old[k]);
                if m < old.len() {
                    assert(all[m] == old[m]);
                }
            }
        } else {
            assert(now.piece =~= before.piece.push(c));
            lemma_own_columns_prefix(now.piece, before.piece, before.piece.len() as int);
            if before.piece.len() == 0 {
                assert(before.wrapping.lines.len() == 0);
            }
        }
    }
}

/// A word that is too wide for a line is cut only where it must be: to each piece but the
/// last the next character could not be added.
pub proof fn law_long_word_fills_its_lines(span: SpanView, width: nat, k: int)
    requires
        width >= 2,
        span.content.len() > 0,
        forall|i: int| 0 <= i < span.content.len() ==> !is_gap(#[trigger] span.content[i]),
        columns(span.content) > width,
        0 <= k < wrapped_line(seq![span], width).len() - 1,
    ensures
        ({
            let out = wrapped_line(seq![span], width);
            let piece = out[k][0].content;
            &&& out[k].len() == 1 && out[k + 1].len() == 1
            &&& own_columns(piece, piece.len() as int) <= width
            &&& own_columns(piece, piece.len() as int) + char_columns(out[k + 1][0].content[0])
                > width
        }),
{
    let line = seq![span];
    let word = span.content;
    let n = word.len() as int;
    lemma_next_run(word, 0, n, false);
    assert(word.take(n) =~= word);
    assert(word.take(0) =~= Seq::<char>::empty());
    assert(word.subrange(0, n) =~= word);
    let all = runs(word);
    assert(all =~= seq![word]);
    let start = Wrapping::start();
    assert(Wrapping::after(line, 0, width) == start);
    assert(start.runs(all, 0, span, width) == start);
    assert(start.runs(all, 1, span, width) == start.run(word, span, width));
    let c = Cutting::of(start, word, n, span, width);
    assert(Wrapping::after(line, 1, width) == c.finished(span));
    lemma_is_cut(word, n, span, width);
    lemma_cut_pieces_fit(word, n, span, width);
    let out = wrapped_line(line, width);
    assert(c.wrapping.line.push(restyled(c.piece, span)) =~= seq![restyled(c.piece, span)]);
    assert(out =~= c.wrapping.lines.push(seq![restyled(c.piece, span)]));
    assert(out[k] == c.wrapping.lines[k]);
    if k + 1 < c.wrapping.lines.len() {
        assert(out[k + 1] == c.wrapping.lines[k + 1]);
    }
}

proof fn lemma_cut_pieces_fit(word: Seq<char>, n: int, span: SpanView, width: nat)
    requires
        width >= 2,
        0 <= n <= word.len(),
    ensures
        ({
            let lines = Cutting::of(Wrapping::start(), word, n, span, width).wrapping.lines;
            forall|k: int|
                0 <= k < lines.len() ==> own_columns(
                    (#[trigger] lines[k])[0].content,
                    lines[k][0].content.len() as int,
                ) <= width
        }),
    decreases n,
{
    if n > 0 {
        lemma_cut_pieces_fit(word, n - 1, span, width);
        lemma_is_cut(word, n - 1, span, width);
        let before = Cutting::of(Wrapping::start(), word, n - 1, span, width);
        let now = Cutting::of(Wrapping::start(), word, n, span, width);
        assert(now == before.next(word[n - 1], span, width));
        if before.wrapping.used + before.piece_width + char_columns(word[n - 1]) > width {
            let old = before.wrapping.lines;
            let all = now.wrapping.lines;
            if before.piece.len() == 0 {
                assert(own_columns(before.piece, 0) == 0);
            }
            assert(before.piece.len() > 0);
            assert(before.wrapping.line.push(restyled(before.piece, span)) =~= seq![
                restyled(before.piece, span),
            ]);
            assert(all =~= old.push(seq![restyled(before.piece, span)]));
            assert forall|k: int| 0 <= k < all.len() implies own_columns(
                (#[trigger] all[k])[0].content,
                all[k][0].content.len() as int,
            ) <= width by {
                if k < old.len() {
                    assert(all[k] == old[k]);
                }
            }
        }
    }
}

} // verus!
