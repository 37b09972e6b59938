//! Characters, lines and words of a piece of text.

use vstd::prelude::*;

verus! {

/// `String::push` appends one character.
pub assume_specification[ String::push ](s: &mut String, c: char)
    ensures
        final(s)@ == old(s)@.push(c),
;

/// The characters with the Unicode property `White_Space`.
pub open spec fn whitespace(c: char) -> bool {
    ||| '\u{9}' <= c <= '\u{D}'
    ||| c == ' '
    ||| c == '\u{85}'
    ||| c == '\u{A0}'
    ||| c == '\u{1680}'
    ||| '\u{2000}' <= c <= '\u{200A}'
    ||| c == '\u{2028}'
    ||| c == '\u{2029}'
    ||| c == '\u{202F}'
    ||| c == '\u{205F}'
    ||| c == '\u{3000}'
}

/// `char::is_whitespace` holds of the characters with the property `White_Space`,
/// which the Unicode Character Database lists.
pub assume_specification[ char::is_whitespace ](c: char) -> (b: bool)
    ensures
        b == whitespace(c),
;

/// The views of a list of strings.
pub open spec fn views(v: Seq<String>) -> Seq<Seq<char>> {
    Seq::new(v.len(), |i: int| v[i]@)
}

/// The pieces of `s` between the occurrences of `c`. There is one piece more
/// than there are occurrences.
pub open spec fn split_on(s: Seq<char>, c: char) -> Seq<Seq<char>>
    decreases s.len(),
{
    if s.len() == 0 {
        seq![Seq::<char>::empty()]
    } else {
        let before = split_on(s.drop_last(), c);
        if s.last() == c {
            before.push(Seq::empty())
        } else {
            before.drop_last().push(before.last().push(s.last()))
        }
    }
}

/// `parts` in order, with `sep` between each two of them.
pub open spec fn join(parts: Seq<Seq<char>>, sep: Seq<char>) -> Seq<char>
    decreases parts.len(),
{
    if parts.len() == 0 {
        Seq::empty()
    } else if parts.len() == 1 {
        parts[0]
    } else {
        join(parts.drop_last(), sep) + sep + parts.last()
    }
}

/// `s` without one carriage return at its end.
pub open spec fn without_cr(s: Seq<char>) -> Seq<char> {
    if s.len() > 0 && s.last() == '\r' {
        s.drop_last()
    } else {
        s
    }
}

/// The lines of `s`: a line ends at a line feed, or at a carriage return
/// followed by a line feed; the ending of the last line may be missing.
pub open spec fn lines(s: Seq<char>) -> Seq<Seq<char>> {
    let pieces = split_on(s, '\n');
    let ended = Seq::new((pieces.len() - 1) as nat, |i: int| without_cr(pieces[i]));
    if pieces.last().len() == 0 {
        ended
    } else {
        ended.push(pieces.last())
    }
}

/// The maximal runs of characters that are not whitespace.
pub open spec fn words(s: Seq<char>) -> Seq<Seq<char>>
    decreases s.len(),
{
    if s.len() == 0 {
        Seq::empty()
    } else {
        let before = words(s.drop_last());
        let c = s.last();
        if whitespace(c) {
            before
        } else if s.len() >= 2 && !whitespace(s[s.len() - 2]) {
            before.drop_last().push(before.last().push(c))
        } else {
            before.push(seq![c])
        }
    }
}

/// `s` without the whitespace at its start.
pub open spec fn trim_start(s: Seq<char>) -> Seq<char>
    decreases s.len(),
{
    if s.len() > 0 && whitespace(s[0]) {
        trim_start(s.drop_first())
    } else {
        s
    }
}

/// `s` without the whitespace at its end.
pub open spec fn trim_end(s: Seq<char>) -> Seq<char>
    decreases s.len(),
{
    if s.len() > 0 && whitespace(s.last()) {
        trim_end(s.drop_last())
    } else {
        s
    }
}

/// `s` without the whitespace at either end.
pub open spec fn trim(s: Seq<char>) -> Seq<char> {
    trim_end(trim_start(s))
}

/// `n` times `c`.
pub open spec fn repeat(c: char, n: nat) -> Seq<char> {
    Seq::new(n, |i: int| c)
}

/// Splitting always yields at least one piece.
pub proof fn lemma_split_on_len(s: Seq<char>, c: char)
    ensures
        split_on(s, c).len() >= 1,
    decreases s.len(),
{
    if s.len() > 0 {
        lemma_split_on_len(s.drop_last(), c);
    }
}

/// No piece holds the character that separates the pieces.
pub proof fn lemma_split_on_pieces(s: Seq<char>, c: char)
    ensures
        forall|i: int|
            0 <= i < split_on(s, c).len() ==> !(#[trigger] split_on(s, c)[i]).contains(c),
    decreases s.len(),
{
    lemma_split_on_len(s, c);
    if s.len() > 0 {
        let t = s.drop_last();
        lemma_split_on_len(t, c);
        lemma_split_on_pieces(t, c);
        let before = split_on(t, c);
        assert forall|i: int| 0 <= i < split_on(s, c).len() implies !(#[trigger] split_on(
            s,
            c,
        )[i]).contains(c) by {
            if i < before.len() - 1 {
                assert(split_on(s, c)[i] == before[i]);
            } else if s.last() == c {
                if i < before.len() {
                    assert(split_on(s, c)[i] == before[i]);
                }
            } else {
                assert(!before[before.len() - 1].contains(c));
                let p = split_on(s, c)[i];
                assert(p == before.last().push(s.last()));
                if p.contains(c) {
                    let k = choose|k: int| 0 <= k < p.len() && p[k] == c;
                    assert(before.last()[k] == c);
                }
            }
        }
    }
}

/// Joining the pieces of `s` with the character that separates them gives `s`
/// back.
pub proof fn lemma_join_split_on(s: Seq<char>, c: char)
    ensures
        join(split_on(s, c), seq![c]) == s,
    decreases s.len(),
{
    if s.len() > 0 {
        let t = s.drop_last();
        lemma_join_split_on(t, c);
        lemma_split_on_len(t, c);
        let before = split_on(t, c);
        let after = split_on(s, c);
        if s.last() == c {
            assert(after.drop_last() =~= before);
            assert(join(after, seq![c]) =~= t + seq![c] + Seq::<char>::empty());
            assert(t + seq![c] + Seq::<char>::empty() =~= s);
        } else {
            assert(after.drop_last() =~= before.drop_last());
            if before.len() == 1 {
                assert(after[0] =~= s);
            } else {
                assert(join(after, seq![c]) =~= join(before.drop_last(), seq![c]) + seq![c]
                    + before.last().push(s.last()));
                assert(join(after, seq![c]) =~= t.push(s.last()));
            }
            assert(t.push(s.last()) =~= s);
        }
    } else {
        assert(split_on(s, c)[0] =~= s);
    }
}

/// The pieces of two texts put together: the last of the first and the first of
/// the second become one.
pub proof fn lemma_split_on_concat(a: Seq<char>, b: Seq<char>, c: char)
    ensures
        split_on(a + b, c) == split_on(a, c).drop_last() + seq![
            split_on(a, c).last() + split_on(b, c).first(),
        ] + split_on(b, c).drop_first(),
    decreases b.len(),
{
    lemma_split_on_len(a, c);
    lemma_split_on_len(b, c);
    let p = split_on(a, c);
    if b.len() == 0 {
        assert(a + b =~= a);
        assert(b =~= Seq::empty());
        assert(split_on(b, c) =~= seq![Seq::<char>::empty()]);
        assert(p.last() + Seq::<char>::empty() =~= p.last());
        assert(split_on(a, c) =~= p.drop_last() + seq![p.last()] + Seq::empty());
        assert(split_on(b, c).drop_first() =~= Seq::empty());
    } else {
        let d = b.drop_last();
        lemma_split_on_concat(a, d, c);
        lemma_split_on_len(d, c);
        assert((a + b).drop_last() =~= a + d);
        assert((a + b).last() == b.last());
        let q = split_on(d, c);
        let r = split_on(b, c);
        let whole = split_on(a + d, c);
        let claim = p.drop_last() + seq![p.last() + r.first()] + r.drop_first();
        if b.last() == c {
            assert(r.first() == q.first());
            assert(r.drop_first() =~= q.drop_first().push(Seq::empty()));
            assert(whole.push(Seq::empty()) =~= claim);
        } else if q.len() == 1 {
            assert(q.drop_first() =~= Seq::empty());
            assert(r.drop_first() =~= Seq::empty());
            assert(whole.last() == p.last() + q.first());
            assert(whole.last().push(b.last()) =~= p.last() + r.first());
            assert(whole.drop_last() =~= p.drop_last());
            assert(whole.drop_last().push(whole.last().push(b.last())) =~= claim);
        } else {
            assert(whole.last() == q.last());
            assert(r.first() == q.first());
            assert(r.drop_first() =~= q.drop_first().drop_last().push(q.last().push(b.last())));
            assert(whole.drop_last().push(whole.last().push(b.last())) =~= claim);
        }
    }
}

/// The index in the text of the first character of line `n`.
pub open spec fn line_start(pieces: Seq<Seq<char>>, n: int) -> nat
    decreases n,
{
    if n <= 0 {
        0
    } else {
        line_start(pieces, n - 1) + pieces[n - 1].len() + 1
    }
}

/// The index of a line's first character depends on the lines before it only.
pub proof fn lemma_line_start_prefix(p: Seq<Seq<char>>, q: Seq<Seq<char>>, n: int)
    requires
        n <= p.len(),
        n <= q.len(),
        forall|i: int| 0 <= i < n ==> p[i] == q[i],
    ensures
        line_start(p, n) == line_start(q, n),
    decreases n,
{
    if n > 0 {
        lemma_line_start_prefix(p, q, n - 1);
    }
}

/// The last line ends where the text ends.
pub proof fn lemma_line_start_total(s: Seq<char>)
    ensures
        split_on(s, '\n').len() >= 1,
        line_start(split_on(s, '\n'), split_on(s, '\n').len() - 1) + split_on(
            s,
            '\n',
        ).last().len() == s.len(),
    decreases s.len(),
{
    if s.len() > 0 {
        let t = s.drop_last();
        lemma_line_start_total(t);
        let before = split_on(t, '\n');
        let after = split_on(s, '\n');
        if s.last() == '\n' {
            lemma_line_start_prefix(before, after, before.len() - 1);
            assert(after[before.len() - 1] == before.last());
        } else {
            lemma_line_start_prefix(before, after, before.len() - 1);
        }
    }
}

/// Complete lines of the start of a text are lines of the text, and the rest is
/// the start of the next one.
pub proof fn lemma_lines_before(s: Seq<char>, k: int)
    requires
        0 <= k <= s.len(),
    ensures
        ({
            let p = split_on(s, '\n');
            let q = split_on(s.take(k), '\n');
            &&& 1 <= q.len() <= p.len()
            &&& forall|i: int| 0 <= i < q.len() - 1 ==> q[i] == p[i]
            &&& q.last().len() <= p[q.len() - 1].len()
            &&& q.last() == p[q.len() - 1].take(q.last().len() as int)
            &&& line_start(p, q.len() - 1) + q.last().len() == k
        }),
    decreases s.len(),
{
    lemma_line_start_total(s);
    if k == s.len() {
        assert(s.take(k) =~= s);
        let q = split_on(s, '\n');
        assert(q.last() =~= q.last().take(q.last().len() as int));
    } else {
        let t = s.drop_last();
        lemma_lines_before(t, k);
        assert(t.take(k) =~= s.take(k));
        let p0 = split_on(t, '\n');
        let p = split_on(s, '\n');
        let q = split_on(s.take(k), '\n');
        lemma_line_start_prefix(p0, p, q.len() - 1);
        if s.last() == '\n' {
            assert(p[q.len() - 1] == p0[q.len() - 1]);
        } else if q.len() == p0.len() {
            assert(p[q.len() - 1] == p0.last().push(s.last()));
            assert(q.last() =~= p[q.len() - 1].take(q.last().len() as int));
        }
    }
}

/// Later lines do not start earlier.
pub proof fn lemma_line_start_monotone(pieces: Seq<Seq<char>>, i: int, j: int)
    requires
        i <= j,
    ensures
        line_start(pieces, i) <= line_start(pieces, j),
    decreases j - i,
{
    if i < j {
        lemma_line_start_monotone(pieces, i, j - 1);
    }
}

/// The characters of `s`, in order.
pub fn chars_of(s: &str) -> (v: Vec<char>)
    ensures
        v@ == s@,
{
    let mut v: Vec<char> = Vec::new();
    for c in it: s.chars()
        invariant
            v@ == s@.take(it.index() as int),
            it.seq() == s@,
    {
        v.push(c);
        assert(s@.take(it.index() as int).push(c) =~= s@.take(it.index() + 1));
    }
    assert(s@.take(s@.len() as int) =~= s@);
    v
}

/// The text made of the characters `v`.
pub fn string_of(v: &[char]) -> (s: String)
    ensures
        s@ == v@,
{
    let mut s: String = String::new();
    let mut i: usize = 0;
    while i < v.len()
        invariant
            i <= v.len(),
            s@ == v@.take(i as int),
        decreases v.len() - i,
    {
        s.push(v[i]);
        assert(v@.take(i as int).push(v@[i as int]) =~= v@.take(i + 1));
        i += 1;
    }
    assert(v@.take(v@.len() as int) =~= v@);
    s
}

/// The text made of the characters `v[start..end]`.
pub fn substring(v: &[char], start: usize, end: usize) -> (s: String)
    requires
        start <= end <= v.len(),
    ensures
        s@ == v@.subrange(start as int, end as int),
{
    let mut s: String = String::new();
    let mut i: usize = start;
    while i < end
        invariant
            start <= i <= end <= v.len(),
            s@ == v@.subrange(start as int, i as int),
        decreases end - i,
    {
        s.push(v[i]);
        assert(v@.subrange(start as int, i as int).push(v@[i as int]) =~= v@.subrange(
            start as int,
            i + 1,
        ));
        i += 1;
    }
    s
}

/// The pieces of `s` between the occurrences of `sep`.
pub fn split(s: &str, sep: char) -> (pieces: Vec<String>)
    ensures
        views(pieces@) == split_on(s@, sep),
{
    let v = chars_of(s);
    let mut pieces: Vec<String> = Vec::new();
    let mut piece: String = String::new();
    let mut i: usize = 0;
    assert(views(pieces@).push(piece@) =~= split_on(v@.take(0), sep));
    while i < v.len()
        invariant
            i <= v.len(),
            views(pieces@).push(piece@) == split_on(v@.take(i as int), sep),
        decreases v.len() - i,
    {
        let c = v[i];
        let ghost before = views(pieces@).push(piece@);
        assert(v@.take(i + 1).drop_last() =~= v@.take(i as int));
        assert(v@.take(i + 1).last() == c);
        assert(before.drop_last() =~= views(pieces@));
        if c == sep {
            pieces.push(piece);
            piece = String::new();
            assert(views(pieces@) =~= before);
        } else {
            piece.push(c);
        }
        i += 1;
    }
    assert(v@.take(v@.len() as int) =~= v@);
    let ghost before = views(pieces@).push(piece@);
    pieces.push(piece);
    assert(views(pieces@) =~= before);
    pieces
}

/// `s` without one carriage return at its end.
fn strip_cr(s: &str) -> (r: String)
    ensures
        r@ == without_cr(s@),
{
    let v = chars_of(s);
    if v.len() > 0 && v[v.len() - 1] == '\r' {
        let r = substring(&v, 0, v.len() - 1);
        assert(r@ =~= s@.drop_last());
        r
    } else {
        s.to_string()
    }
}

/// The lines of `s`.
pub fn lines_of(s: &str) -> (out: Vec<String>)
    ensures
        views(out@) == lines(s@),
{
    let pieces = split(s, '\n');
    proof {
        lemma_split_on_len(s@, '\n');
        assert(views(pieces@).len() == pieces@.len());
    }
    let mut out: Vec<String> = Vec::new();
    let n: usize = pieces.len() - 1;
    let mut i: usize = 0;
    while i < n
        invariant
            i <= n,
            n == pieces.len() - 1,
            views(out@) == Seq::new(i as nat, |k: int| without_cr(views(pieces@)[k])),
        decreases n - i,
    {
        let ghost before = views(out@);
        out.push(strip_cr(pieces[i].as_str()));
        assert(views(out@) =~= before.push(without_cr(views(pieces@)[i as int])));
        assert(views(out@) =~= Seq::new((i + 1) as nat, |k: int| without_cr(views(pieces@)[k])));
        i += 1;
    }
    let last = &pieces[n];
    assert(views(pieces@).last() == last@);
    if !last.as_str().is_empty() {
        let ghost before = views(out@);
        out.push(last.clone());
        assert(views(out@) =~= before.push(last@));
    }
    out
}

/// `parts` in order, with `sep` between each two of them.
pub fn join_strings(parts: &Vec<String>, sep: &str) -> (s: String)
    ensures
        s@ == join(views(parts@), sep@),
{
    let mut s: String = String::new();
    let mut i: usize = 0;
    let ghost all = views(parts@);
    assert(all.take(0) =~= Seq::empty());
    while i < parts.len()
        invariant
            i <= parts.len(),
            all == views(parts@),
            s@ == join(all.take(i as int), sep@),
        decreases parts.len() - i,
    {
        assert(all.take(i + 1).drop_last() =~= all.take(i as int));
        assert(all.take(i + 1).last() == parts@[i as int]@);
        if i > 0 {
            s.append(sep);
            s.append(parts[i].as_str());
        } else {
            s.append(parts[i].as_str());
            assert(s@ =~= parts@[0]@);
        }
        i += 1;
    }
    assert(all.take(all.len() as int) =~= all);
    s
}

/// The maximal runs of characters of `s` that are not whitespace.
pub fn words_of(s: &str) -> (out: Vec<String>)
    ensures
        views(out@) == words(s@),
{
    let v = chars_of(s);
    let mut out: Vec<String> = Vec::new();
    let mut word: String = String::new();
    let mut i: usize = 0;
    assert(views(out@) =~= words(v@.take(0)));
    while i < v.len()
        invariant
            i <= v.len(),
            word@.len() > 0 <==> (i > 0 && !whitespace(v@[i - 1])),
            words(v@.take(i as int)) == (if word@.len() > 0 {
                views(out@).push(word@)
            } else {
                views(out@)
            }),
        decreases v.len() - i,
    {
        let c = v[i];
        let ghost t = v@.take(i + 1);
        let ghost before = words(v@.take(i as int));
        let ghost out0 = views(out@);
        assert(t.drop_last() =~= v@.take(i as int));
        assert(t.last() == c);
        assert(i > 0 ==> t[t.len() - 2] == v@[i - 1]);
        if c.is_whitespace() {
            if !word.as_str().is_empty() {
                out.push(word);
                word = String::new();
                assert(views(out@) =~= before);
            }
        } else {
            assert(word@.len() > 0 ==> out0.push(word@).drop_last() =~= out0);
            assert(word@.len() == 0 ==> word@.push(c) =~= seq![c]);
            word.push(c);
        }
        i += 1;
    }
    assert(v@.take(v@.len() as int) =~= v@);
    if !word.as_str().is_empty() {
        let ghost before = views(out@);
        out.push(word);
        assert(views(out@) =~= before.push(word@));
    }
    out
}

/// `s` without the whitespace at either end.
pub fn trimmed(s: &str) -> (r: String)
    ensures
        r@ == trim(s@),
{
    let v = chars_of(s);
    let mut start: usize = 0;
    assert(v@.skip(0) =~= v@);
    while start < v.len() && v[start].is_whitespace()
        invariant
            start <= v.len(),
            trim_start(v@) == trim_start(v@.skip(start as int)),
        decreases v.len() - start,
    {
        assert(v@.skip(start as int).drop_first() =~= v@.skip(start + 1));
        start += 1;
    }
    let mut end: usize = v.len();
    let ghost body = v@.skip(start as int);
    assert(v@.subrange(start as int, end as int) =~= body);
    while end > start && v[end - 1].is_whitespace()
        invariant
            start <= end <= v.len(),
            trim_end(body) == trim_end(v@.subrange(start as int, end as int)),
        decreases end,
    {
        assert(v@.subrange(start as int, end as int).drop_last() =~= v@.subrange(
            start as int,
            end - 1,
        ));
        assert(v@.subrange(start as int, end as int).last() == v@[end - 1]);
        end -= 1;
    }
    assert(end > start ==> v@.subrange(start as int, end as int).last() == v@[end - 1]);
    substring(&v, start, end)
}

/// `n` times `c`.
pub fn repeated(c: char, n: usize) -> (s: String)
    ensures
        s@ == repeat(c, n as nat),
{
    let mut s: String = String::new();
    let mut i: usize = 0;
    assert(s@ =~= repeat(c, 0));
    while i < n
        invariant
            i <= n,
            s@ == repeat(c, i as nat),
        decreases n - i,
    {
        s.push(c);
        assert(s@ =~= repeat(c, (i + 1) as nat));
        i += 1;
    }
    s
}

/// The decimal digit of a number below ten.
pub open spec fn digit(d: nat) -> char {
    seq!['0', '1', '2', '3', '4', '5', '6', '7', '8', '9'][d as int]
}

/// A number in decimal digits.
pub open spec fn decimal(n: nat) -> Seq<char>
    decreases n,
{
    if n < 10 {
        seq![digit(n)]
    } else {
        decimal(n / 10).push(digit(n % 10))
    }
}

/// A number in decimal digits.
pub fn decimal_of(n: u64) -> (s: String)
    ensures
        s@ == decimal(n as nat),
    decreases n,
{
    let mut s = if n < 10 {
        String::new()
    } else {
        decimal_of(n / 10)
    };
    let c = match n % 10 {
        0 => '0',
        1 => '1',
        2 => '2',
        3 => '3',
        4 => '4',
        5 => '5',
        6 => '6',
        7 => '7',
        8 => '8',
        _ => '9',
    };
    s.push(c);
    assert(c == digit((n % 10) as nat));
    assert(s@ =~= decimal(n as nat));
    s
}

/// Whether two texts are the same.
pub fn same(a: &str, b: &str) -> (eq: bool)
    ensures
        eq == (a@ == b@),
{
    let v = chars_of(a);
    let w = chars_of(b);
    if v.len() != w.len() {
        return false;
    }
    prefix_at(&v, &w, 0)
}

/// Whether `w` stands in `v` from `start` on.
fn prefix_at(v: &Vec<char>, w: &Vec<char>, start: usize) -> (eq: bool)
    requires
        start + w@.len() <= v@.len(),
    ensures
        eq == (v@.subrange(start as int, start + w@.len()) == w@),
        start == 0 && w@.len() == v@.len() ==> eq == (v@ == w@),
{
    let mut i: usize = 0;
    while i < w.len()
        invariant
            start + w.len() <= v.len(),
            i <= w.len(),
            forall|k: int| 0 <= k < i ==> v@[start + k] == w@[k],
        decreases w.len() - i,
    {
        if v[start + i] != w[i] {
            assert(v@.subrange(start as int, start + w@.len())[i as int] != w@[i as int]);
            return false;
        }
        i += 1;
    }
    assert(v@.subrange(start as int, start + w@.len()) =~= w@);
    assert(start == 0 && w@.len() == v@.len() ==> v@ =~= w@);
    true
}

/// Whether `s` begins with `prefix`.
pub open spec fn begins_with(s: Seq<char>, prefix: Seq<char>) -> bool {
    prefix.len() <= s.len() && s.subrange(0, prefix.len() as int) == prefix
}

/// Whether `s` begins with `prefix`.
pub fn has_prefix(s: &str, prefix: &str) -> (b: bool)
    ensures
        b == begins_with(s@, prefix@),
{
    let v = chars_of(s);
    let w = chars_of(prefix);
    if w.len() > v.len() {
        return false;
    }
    prefix_at(&v, &w, 0)
}

/// `s` with spaces behind it, where it has fewer than `width` characters.
pub open spec fn padded(s: Seq<char>, width: nat) -> Seq<char> {
    if s.len() >= width {
        s
    } else {
        s + repeat(' ', (width - s.len()) as nat)
    }
}

/// `s` with spaces behind it, where it has fewer than `width` characters.
pub fn pad(s: &str, width: usize) -> (out: String)
    ensures
        out@ == padded(s@, width as nat),
{
    let len = s.unicode_len();
    let mut out = s.to_string();
    if len < width {
        out.append(repeated(' ', width - len).as_str());
    }
    out
}

/// How many bytes a character takes in UTF-8.
pub open spec fn utf8_len(c: char) -> nat {
    if (c as u32) < 0x80 {
        1
    } else if (c as u32) < 0x800 {
        2
    } else if (c as u32) < 0x10000 {
        3
    } else {
        4
    }
}

/// How many bytes the first `k` characters take.
pub open spec fn byte_offset(s: Seq<char>, k: int) -> nat
    decreases k,
{
    if k <= 0 {
        0
    } else {
        byte_offset(s, k - 1) + utf8_len(s[k - 1])
    }
}

/// More characters take more bytes.
pub proof fn lemma_byte_offset_monotone(s: Seq<char>, i: int, j: int)
    requires
        0 <= i <= j <= s.len(),
    ensures
        byte_offset(s, i) <= byte_offset(s, j),
        i < j ==> byte_offset(s, i) < byte_offset(s, j),
    decreases j,
{
    if i < j {
        lemma_byte_offset_monotone(s, i, j - 1);
    }
}

/// How many bytes a character takes in UTF-8.
pub fn char_utf8_len(c: char) -> (n: u32)
    ensures
        n == utf8_len(c),
{
    let code = c as u32;
    if code < 0x80 {
        1
    } else if code < 0x800 {
        2
    } else if code < 0x10000 {
        3
    } else {
        4
    }
}

/// Joining goes part by part: with one part nothing is put in, and two lists of parts
/// that follow each other have the separator between them.
pub proof fn law_joining_goes_part_by_part(
    a: Seq<Seq<char>>,
    b: Seq<Seq<char>>,
    part: Seq<char>,
    sep: Seq<char>,
)
    ensures
        join(Seq::<Seq<char>>::empty(), sep) == Seq::<char>::empty(),
        join(seq![part], sep) == part,
        a.len() > 0 && b.len() > 0 ==> join(a + b, sep) == join(a, sep) + sep + join(b, sep),
    decreases b.len(),
{
    if a.len() > 0 && b.len() == 1 {
        assert((a + b).drop_last() =~= a);
        assert(join(a + b, sep) == join(a, sep) + sep + b[0]);
    } else if a.len() > 0 && b.len() > 1 {
        let d = b.drop_last();
        law_joining_goes_part_by_part(a, d, part, sep);
        assert((a + b).drop_last() =~= a + d);
        assert(join(a + b, sep) =~= join(a, sep) + sep + join(b, sep));
    }
}

/// Splitting finds the parts that were joined, where none of them holds the separator.
pub proof fn law_splitting_undoes_joining(parts: Seq<Seq<char>>, c: char)
    requires
        parts.len() > 0,
        forall|i: int| 0 <= i < parts.len() ==> !(#[trigger] parts[i]).contains(c),
    ensures
        split_on(join(parts, seq![c]), c) == parts,
    decreases parts.len(),
{
    if parts.len() == 1 {
        lemma_unsplit(parts[0], c);
        assert(parts =~= seq![parts[0]]);
    } else {
        let d = parts.drop_last();
        let last = parts.last();
        assert forall|i: int| 0 <= i < d.len() implies !(#[trigger] d[i]).contains(c) by {
            assert(d[i] == parts[i]);
        }
        law_splitting_undoes_joining(d, c);
        assert(!parts[parts.len() - 1].contains(c));
        lemma_unsplit(last, c);
        let start = join(d, seq![c]) + seq![c];
        assert(start.drop_last() =~= join(d, seq![c]));
        assert(split_on(start, c) == d.push(Seq::empty()));
        lemma_split_on_concat(start, last, c);
        assert(Seq::<char>::empty() + last =~= last);
        assert(split_on(start + last, c) =~= parts);
    }
}

/// A text without the separator is one piece.
pub proof fn lemma_unsplit(s: Seq<char>, c: char)
    requires
        !s.contains(c),
    ensures
        split_on(s, c) == seq![s],
    decreases s.len(),
{
    if s.len() > 0 {
        let t = s.drop_last();
        assert(s[s.len() - 1] != c);
        assert forall|i: int| 0 <= i < t.len() implies t[i] != c by {
            assert(t[i] == s[i]);
        }
        lemma_unsplit(t, c);
        assert(t.push(s.last()) =~= s);
        assert(split_on(s, c) =~= seq![s]);
    } else {
        assert(s =~= Seq::empty());
    }
}

/// Lines are found one after the other: what stands before a line feed is a line,
/// without the carriage return in front of that, and the rest has the lines that it has
/// on its own. A rest without a line feed is a line unless it is empty.
pub proof fn law_lines_follow_each_other(line: Seq<char>, rest: Seq<char>)
    requires
        !line.contains('\n'),
    ensures
        lines(Seq::<char>::empty()) == Seq::<Seq<char>>::empty(),
        line.len() > 0 ==> lines(line) == seq![line],
        lines(line + seq!['\n'] + rest) == seq![
            if line.len() > 0 && line.last() == '\r' {
                line.drop_last()
            } else {
                line
            },
        ] + lines(rest),
{
    let empty = Seq::<char>::empty();
    lemma_unsplit(line, '\n');
    assert(lines(empty) =~= Seq::<Seq<char>>::empty());
    if line.len() > 0 {
        assert(lines(line) =~= seq![line]);
    }
    let start = line + seq!['\n'];
    assert(start.drop_last() =~= line);
    assert(split_on(start, '\n') =~= seq![line, empty]);
    lemma_split_on_concat(start, rest, '\n');
    lemma_split_on_len(rest, '\n');
    let p = split_on(rest, '\n');
    assert(empty + p.first() =~= p.first());
    assert(split_on(start + rest, '\n') =~= seq![line] + p);
    assert(lines(start + rest) =~= seq![without_cr(line)] + lines(rest));
}

/// The first line feed of a text, or its end.
pub proof fn lemma_first_line(s: Seq<char>) -> (k: int)
    ensures
        0 <= k <= s.len(),
        !s.take(k).contains('\n'),
        k < s.len() ==> s[k] == '\n' && s == s.take(k) + seq!['\n'] + s.skip(k + 1),
        k == s.len() ==> s.take(k) == s,
    decreases s.len(),
{
    if s.len() == 0 || s[0] == '\n' {
        if s.len() > 0 {
            assert(s =~= s.take(0) + seq!['\n'] + s.skip(1));
        }
        assert(s.len() == 0 ==> s.take(0) =~= s);
        0
    } else {
        let t = s.drop_first();
        let j = lemma_first_line(t);
        let start = s.take(j + 1);
        assert forall|i: int| 0 <= i < start.len() implies start[i] != '\n' by {
            if i > 0 {
                assert(t.take(j)[i - 1] == s[i]);
                assert(t.take(j).contains(t.take(j)[i - 1]));
            }
        }
        if j < t.len() {
            assert(s[j + 1] == t[j]);
            assert(s =~= s.take(j + 1) + seq!['\n'] + s.skip(j + 2));
        } else {
            assert(s.take(j + 1) =~= s);
        }
        j + 1
    }
}

/// Lines put together with line feeds, and one behind the last, are read back.
pub proof fn law_joined_lines_are_read_back(all: Seq<Seq<char>>)
    requires
        forall|i: int|
            0 <= i < all.len() ==> !(#[trigger] all[i]).contains('\n') && !(all[i].len() > 0
                && all[i].last() == '\r'),
    ensures
        all.len() > 0 ==> lines(join(all, "\n"@) + "\n"@) == all,
        all.len() > 0 && all.last().len() > 0 ==> lines(join(all, "\n"@)) == all,
{
    reveal_strlit("\n");
    assert("\n"@ =~= seq!['\n']);
    if all.len() > 0 {
        law_splitting_undoes_joining(all, '\n');
        let text = join(all, "\n"@);
        let ended = text + "\n"@;
        assert(ended.drop_last() =~= text);
        assert(split_on(ended, '\n') == all.push(Seq::empty()));
        assert(lines(ended) =~= all);
        assert(!all[all.len() - 1].contains('\n'));
        if all.last().len() > 0 {
            assert(lines(text) =~= all);
        }
    }
}

/// Words are found one after the other: what stands before whitespace is a word unless
/// it is empty, and the rest has the words that it has on its own.
pub proof fn law_words_follow_each_other(word: Seq<char>, c: char, rest: Seq<char>)
    requires
        forall|i: int| 0 <= i < word.len() ==> !whitespace(#[trigger] word[i]),
        whitespace(c),
    ensures
        word.len() == 0 ==> words(word) == Seq::<Seq<char>>::empty(),
        word.len() > 0 ==> words(word) == seq![word],
        words(word + seq![c] + rest) == words(word) + words(rest),
{
    lemma_one_word(word);
    let start = word + seq![c];
    assert(start.drop_last() =~= word);
    assert(words(start) == words(word));
    lemma_words_behind(start, rest);
}

proof fn lemma_one_word(word: Seq<char>)
    requires
        forall|i: int| 0 <= i < word.len() ==> !whitespace(#[trigger] word[i]),
    ensures
        words(word) == if word.len() == 0 {
            Seq::<Seq<char>>::empty()
        } else {
            seq![word]
        },
    decreases word.len(),
{
    if word.len() > 0 {
        let t = word.drop_last();
        assert forall|i: int| 0 <= i < t.len() implies !whitespace(#[trigger] t[i]) by {
            assert(t[i] == word[i]);
        }
        lemma_one_word(t);
        assert(!whitespace(word[word.len() - 1]));
        assert(t.push(word.last()) =~= word);
        if word.len() >= 2 {
            assert(!whitespace(word[word.len() - 2]));
        } else {
            assert(seq![word.last()] =~= word);
        }
        assert(words(word) =~= seq![word]);
    }
}

proof fn lemma_words_behind(start: Seq<char>, rest: Seq<char>)
    requires
        start.len() > 0,
        whitespace(start.last()),
    ensures
        words(start + rest) == words(start) + words(rest),
        rest.len() > 0 && !whitespace(rest.last()) ==> words(rest).len() > 0,
    decreases rest.len(),
{
    let whole = start + rest;
    if rest.len() == 0 {
        assert(whole =~= start);
        assert(words(start) + words(rest) =~= words(start));
    } else {
        let t = rest.drop_last();
        lemma_words_behind(start, t);
        assert(whole.drop_last() =~= start + t);
        assert(whole.last() == rest.last());
        let c = rest.last();
        if !whitespace(c) {
            if rest.len() >= 2 {
                assert(whole[whole.len() - 2] == rest[rest.len() - 2]);
                assert(t.last() == rest[rest.len() - 2]);
            } else {
                assert(whole[whole.len() - 2] == start.last());
            }
        }
        assert(words(whole) =~= words(start) + words(rest));
    }
}

/// Trimming takes whitespace from both ends, and all of it.
pub proof fn law_trimming_takes_the_whitespace_around(before: Seq<char>, s: Seq<char>, after: Seq<char>)
    requires
        forall|i: int| 0 <= i < before.len() ==> whitespace(#[trigger] before[i]),
        forall|i: int| 0 <= i < after.len() ==> whitespace(#[trigger] after[i]),
        s.len() > 0 ==> !whitespace(s[0]) && !whitespace(s.last()),
    ensures
        trim(before + s + after) == s,
        trim_start(before + s) == s,
        trim_end(s + after) == s,
{
    lemma_trim_start(before, s + after);
    lemma_trim_start(before, s);
    lemma_trim_end(s, after);
    assert(before + s + after =~= before + (s + after));
    if s.len() > 0 {
        assert((s + after)[0] == s[0]);
    } else {
        lemma_trim_start(after, s);
        assert(s + after =~= after + s);
        assert(trim_start(s + after) =~= s);
        assert(trim_end(s) =~= s);
    }
}

proof fn lemma_trim_start(before: Seq<char>, s: Seq<char>)
    requires
        forall|i: int| 0 <= i < before.len() ==> whitespace(#[trigger] before[i]),
    ensures
        trim_start(before + s) == trim_start(s),
    decreases before.len(),
{
    if before.len() == 0 {
        assert(before + s =~= s);
    } else {
        let t = before.drop_first();
        assert forall|i: int| 0 <= i < t.len() implies whitespace(#[trigger] t[i]) by {
            assert(t[i] == before[i + 1]);
        }
        lemma_trim_start(t, s);
        assert(whitespace(before[0]));
        assert((before + s).drop_first() =~= t + s);
    }
}

proof fn lemma_trim_end(s: Seq<char>, after: Seq<char>)
    requires
        forall|i: int| 0 <= i < after.len() ==> whitespace(#[trigger] after[i]),
    ensures
        trim_end(s + after) == trim_end(s),
    decreases after.len(),
{
    if after.len() == 0 {
        assert(s + after =~= s);
    } else {
        let t = after.drop_last();
        assert forall|i: int| 0 <= i < t.len() implies whitespace(#[trigger] t[i]) by {
            assert(t[i] == after[i]);
        }
        lemma_trim_end(s, t);
        assert(whitespace(after[after.len() - 1]));
        assert((s + after).drop_last() =~= s + t);
    }
}

/// The number that decimal digits stand for.
pub open spec fn number_of(digits: Seq<char>) -> nat
    decreases digits.len(),
{
    if digits.len() == 0 {
        0
    } else {
        10 * number_of(digits.drop_last()) + (digits.last() as u32 - '0' as u32) as nat
    }
}

/// The digits of a number stand for it, and there is no zero in front of others.
pub proof fn law_digits_stand_for_their_number(n: nat)
    ensures
        number_of(decimal(n)) == n,
        decimal(n).len() > 0,
        forall|i: int| 0 <= i < decimal(n).len() ==> '0' <= #[trigger] decimal(n)[i] <= '9',
        decimal(n).len() > 1 ==> decimal(n)[0] != '0',
    decreases n,
{
    reveal_with_fuel(number_of, 2);
    assert(digit(n % 10) as u32 == '0' as u32 + n % 10);
    if n < 10 {
        assert(n % 10 == n);
        assert(decimal(n).drop_last() =~= Seq::empty());
    } else {
        law_digits_stand_for_their_number(n / 10);
        let d = decimal(n / 10);
        assert(decimal(n).drop_last() =~= d);
        assert(n == 10 * (n / 10) + n % 10);
        assert forall|i: int| 0 <= i < decimal(n).len() implies '0' <= #[trigger] decimal(n)[i]
            <= '9' by {
            if i < d.len() {
                assert(decimal(n)[i] == d[i]);
            }
        }
        assert(decimal(n)[0] == d[0]);
        if d.len() == 1 {
            assert(d =~= seq![digit(n / 10)]);
            if d[0] == '0' {
                assert(n / 10 == 0);
            }
        }
    }
}

/// A text takes as many bytes as its parts, and ASCII takes one for each character.
pub proof fn law_bytes_add_up(a: Seq<char>, b: Seq<char>, n: int)
    requires
        0 <= n <= b.len(),
    ensures
        byte_offset(a + b, a.len() + n) == byte_offset(a, a.len() as int) + byte_offset(b, n),
        (forall|i: int| 0 <= i < n ==> (#[trigger] b[i] as u32) < 0x80) ==> byte_offset(b, n) == n,
    decreases n,
{
    if n > 0 {
        law_bytes_add_up(a, b, n - 1);
        assert((a + b)[a.len() + n - 1] == b[n - 1]);
    } else {
        lemma_bytes_of_start(a, b, a.len() as int);
    }
}

proof fn lemma_bytes_of_start(a: Seq<char>, b: Seq<char>, n: int)
    requires
        0 <= n <= a.len(),
    ensures
        byte_offset(a + b, n) == byte_offset(a, n),
    decreases n,
{
    if n > 0 {
        lemma_bytes_of_start(a, b, n - 1);
    }
}

/// A text that is padded begins with itself and goes on with spaces, up to its width; a
/// longer text stays as it is.
pub proof fn law_padding_adds_spaces_behind(s: Seq<char>, width: nat, i: int)
    ensures
        s.len() >= width ==> padded(s, width) == s,
        s.len() < width ==> padded(s, width).len() == width,
        padded(s, width).take(s.len() as int) == s,
        s.len() <= i < padded(s, width).len() ==> padded(s, width)[i] == ' ',
{
    assert(padded(s, width).take(s.len() as int) =~= s);
}

} // verus!
