//! Grapheme clusters and display widths.

use unicode_segmentation::UnicodeSegmentation;
use unicode_width::{UnicodeWidthChar, UnicodeWidthStr};
use vstd::prelude::*;

verus! {

/// Characters before U+0300. Between two of them lies a cluster boundary, except
/// within a line end `\r\n`.
pub open spec fn stands_alone(c: char) -> bool {
    (c as u32) < 0x300
}

/// How many characters the first grapheme cluster of a text has that begins with
/// two characters of which one is from U+0300 on.
pub uninterp spec fn first_cluster(text: Seq<char>) -> nat;

/// How many characters the first grapheme cluster of a text has.
pub open spec fn cluster_len(text: Seq<char>) -> nat {
    if text.len() <= 1 {
        text.len()
    } else if stands_alone(text[0]) && stands_alone(text[1]) {
        if text[0] == '\r' && text[1] == '\n' {
            2
        } else {
            1
        }
    } else if first_cluster(text) < 1 {
        1
    } else if first_cluster(text) > text.len() {
        text.len()
    } else {
        first_cluster(text)
    }
}

/// The extended grapheme clusters of a text, in order: the first one, and those of
/// the text behind it.
pub open spec fn graphemes_of(text: Seq<char>) -> Seq<Seq<char>>
    decreases text.len(),
{
    if text.len() == 0 {
        Seq::empty()
    } else {
        seq![text.take(cluster_len(text) as int)] + graphemes_of(
            text.skip(cluster_len(text) as int),
        )
    }
}

/// `UnicodeSegmentation::graphemes` with extended clusters. The clusters follow each
/// other without a gap, none is empty, and a text behind a boundary has the clusters
/// that it has on its own. Two characters before U+0300 are parted unless they are
/// `\r\n`. How long a first cluster is that begins with other characters is a function
/// of the text alone.
#[verifier::external_body]
pub(crate) fn graphemes(text: &str) -> (out: Vec<&str>)
    ensures
        Seq::new(out@.len(), |i: int| out@[i]@) == graphemes_of(text@),
        text@.len() >= 2 && !(stands_alone(text@[0]) && stands_alone(text@[1]))
            ==> out@[0]@.len() == first_cluster(text@),
{
    text.graphemes(true).collect()
}

/// No cluster is empty, and a text with any character has a cluster.
pub proof fn lemma_clusters(text: Seq<char>)
    ensures
        forall|i: int|
            0 <= i < graphemes_of(text).len() ==> 0 < (#[trigger] graphemes_of(text)[i]).len()
                <= text.len(),
        text.len() > 0 <==> graphemes_of(text).len() > 0,
        text.len() > 0 ==> graphemes_of(text).first() == text.take(cluster_len(text) as int),
    decreases text.len(),
{
    if text.len() > 0 {
        let rest = text.skip(cluster_len(text) as int);
        lemma_clusters(rest);
        assert forall|i: int| 0 <= i < graphemes_of(text).len() implies 0 < (
        #[trigger] graphemes_of(text)[i]).len() <= text.len() by {
            if i > 0 {
                assert(graphemes_of(text)[i] == graphemes_of(rest)[i - 1]);
            }
        }
    }
}

/// The clusters of a text, put together, are the text.
pub proof fn law_clusters_make_up_text(text: Seq<char>)
    ensures
        graphemes_of(text).flatten() == text,
    decreases text.len(),
{
    if text.len() > 0 {
        let n = cluster_len(text) as int;
        law_clusters_make_up_text(text.skip(n));
        assert(graphemes_of(text).first() == text.take(n));
        assert(graphemes_of(text).drop_first() =~= graphemes_of(text.skip(n)));
        assert(text.take(n) + text.skip(n) =~= text);
    }
}

/// In a text of characters before U+0300 the last cluster is one character, or the
/// line end `\r\n`.
pub proof fn lemma_last_cluster(text: Seq<char>)
    requires
        text.len() > 0,
        forall|i: int| 0 <= i < text.len() ==> stands_alone(#[trigger] text[i]),
    ensures
        graphemes_of(text).last().len() == if text.len() >= 2 && text[text.len() - 2] == '\r'
            && text.last() == '\n' {
            2nat
        } else {
            1nat
        },
    decreases text.len(),
{
    let n = cluster_len(text) as int;
    let rest = text.skip(n);
    if rest.len() == 0 {
        assert(graphemes_of(text) =~= seq![text.take(n)]);
        assert(graphemes_of(text).last() =~= text);
        if text.len() >= 2 {
            assert(text[0] == '\r' && text[1] == '\n');
        }
    } else {
        assert forall|i: int| 0 <= i < rest.len() implies stands_alone(#[trigger] rest[i]) by {
            assert(rest[i] == text[n + i]);
        }
        lemma_last_cluster(rest);
        lemma_clusters(rest);
        assert(graphemes_of(text).last() == graphemes_of(rest).last());
        if rest.len() == 1 {
            assert(text.len() == n + 1);
            if text[text.len() - 2] == '\r' && text.last() == '\n' {
                assert(n == 1 || n == 2);
                assert(stands_alone(text[0]) && stands_alone(text[1]));
            }
        }
    }
}

/// How many columns of a terminal a character takes.
pub ghost enum CharWidth {
    /// A control character takes no column and has no width of its own.
    Control,
    Zero,
    One,
    Two,
}

/// The columns of a width.
pub open spec fn width_columns(width: CharWidth) -> nat {
    match width {
        CharWidth::Control => 0,
        CharWidth::Zero => 0,
        CharWidth::One => 1,
        CharWidth::Two => 2,
    }
}

/// The width of a character that is neither ASCII nor a control character.
pub uninterp spec fn wide_table(c: char) -> CharWidth;

/// The width of a character.
pub open spec fn char_width(c: char) -> CharWidth {
    if c == '\0' {
        CharWidth::Zero
    } else if (c as u32) < 0x20 || 0x7f <= c as u32 && (c as u32) < 0xa0 {
        CharWidth::Control
    } else if (c as u32) < 0x7f {
        CharWidth::One
    } else {
        wide_table(c)
    }
}

/// A width as a number, where there is one.
pub open spec fn width_number(width: CharWidth) -> Option<usize> {
    match width {
        CharWidth::Control => None,
        CharWidth::Zero => Some(0),
        CharWidth::One => Some(1),
        CharWidth::Two => Some(2),
    }
}

/// The width of a character that U+FE0F follows, which asks for it to be shown
/// as an emoji.
pub uninterp spec fn emoji_width(c: char) -> CharWidth;

/// The columns that a character takes on its own.
pub open spec fn char_columns(c: char) -> nat {
    width_columns(char_width(c))
}

/// The columns that the last character of `s` takes where `next` follows it.
pub open spec fn columns_before(c: char, next: Option<char>) -> nat {
    if c == '\u{FE0F}' {
        0
    } else if next == Some('\u{FE0F}') {
        width_columns(emoji_width(c))
    } else {
        char_columns(c)
    }
}

/// The columns that the first `n` characters of a text take.
pub open spec fn columns_upto(s: Seq<char>, n: int) -> nat
    decreases n,
{
    if n <= 0 {
        0
    } else {
        columns_upto(s, n - 1) + columns_before(
            s[n - 1],
            if n < s.len() {
                Some(s[n])
            } else {
                None
            },
        )
    }
}

/// The columns that a text takes.
pub open spec fn columns(s: Seq<char>) -> nat {
    columns_upto(s, s.len() as int)
}

/// `UnicodeWidthChar::width`: `None` for a control character other than NUL,
/// zero for NUL, one for the other ASCII characters, and else zero, one or two.
/// Which of these it is from U+00A0 on is a function of the character alone.
#[verifier::external_body]
pub(crate) fn width_of_char(c: char) -> (width: Option<usize>)
    ensures
        width == width_number(char_width(c)),
        c as u32 >= 0xa0 ==> width == width_number(wide_table(c)),
{
    c.width()
}

/// `UnicodeWidthStr::width`: the sum of the widths of the characters, where
/// control characters and U+FE0F count nothing and a character before U+FE0F has
/// the width that it has as an emoji, a function of that character alone.
#[verifier::external_body]
pub(crate) fn width_of(text: &str) -> (width: usize)
    ensures
        width == columns(text@),
        text@.len() == 2 && text@[0] != '\u{FE0F}' && text@[1] == '\u{FE0F}' ==> width
            == width_columns(emoji_width(text@[0])),
{
    text.width()
}

/// The columns that a character takes on its own.
pub fn char_columns_of(c: char) -> (n: usize)
    ensures
        n == char_columns(c),
        n <= 2,
{
    match width_of_char(c) {
        Some(n) => n,
        None => 0,
    }
}

/// The sum of the columns that each of the first `n` characters takes on its
/// own.
pub open spec fn own_columns(s: Seq<char>, n: int) -> nat
    decreases n,
{
    if n <= 0 {
        0
    } else {
        own_columns(s, n - 1) + char_columns(s[n - 1])
    }
}

/// Without U+FE0F each character takes the columns that it takes on its own.
pub proof fn lemma_columns_without_emoji(s: Seq<char>, n: int)
    requires
        0 <= n <= s.len(),
        !s.contains('\u{FE0F}'),
    ensures
        columns_upto(s, n) == own_columns(s, n),
    decreases n,
{
    if n > 0 {
        lemma_columns_without_emoji(s, n - 1);
        assert(s.contains(s[n - 1]));
        if n < s.len() {
            assert(s.contains(s[n]));
        }
    }
}

/// The columns of the first characters depend on these alone.
pub proof fn lemma_own_columns_prefix(s: Seq<char>, t: Seq<char>, n: int)
    requires
        n <= s.len(),
        n <= t.len(),
        forall|i: int| 0 <= i < n ==> s[i] == t[i],
    ensures
        own_columns(s, n) == own_columns(t, n),
    decreases n,
{
    if n > 0 {
        lemma_own_columns_prefix(s, t, n - 1);
    }
}

proof fn lemma_own_columns_add(a: Seq<char>, b: Seq<char>, n: int)
    requires
        0 <= n <= b.len(),
    ensures
        own_columns(a + b, a.len() + n) == own_columns(a, a.len() as int) + own_columns(b, n),
    decreases n,
{
    if n > 0 {
        lemma_own_columns_add(a, b, n - 1);
        assert((a + b)[a.len() + n - 1] == b[n - 1]);
    } else {
        lemma_own_columns_prefix(a, a + b, a.len() as int);
    }
}

/// Two texts behind each other take as many columns as both of them, where no
/// character asks for another one to be shown as an emoji.
pub proof fn law_columns_add_up(a: Seq<char>, b: Seq<char>)
    requires
        !a.contains('\u{FE0F}'),
        !b.contains('\u{FE0F}'),
    ensures
        columns(a + b) == columns(a) + columns(b),
{
    let both = a + b;
    if both.contains('\u{FE0F}') {
        let i = choose|i: int| 0 <= i < both.len() && both[i] == '\u{FE0F}';
        if i < a.len() {
            assert(a[i] == '\u{FE0F}');
        } else {
            assert(b[i - a.len()] == '\u{FE0F}');
        }
    }
    lemma_columns_without_emoji(a, a.len() as int);
    lemma_columns_without_emoji(b, b.len() as int);
    lemma_columns_without_emoji(both, both.len() as int);
    lemma_own_columns_add(a, b, b.len() as int);
}

/// A text of printable ASCII characters takes a column for each of them.
pub proof fn law_ascii_takes_a_column_each(s: Seq<char>)
    requires
        forall|i: int| 0 <= i < s.len() ==> ' ' <= #[trigger] s[i] <= '~',
    ensures
        columns(s) == s.len(),
    decreases s.len(),
{
    if s.len() > 0 {
        let start = s.drop_last();
        law_ascii_takes_a_column_each(start);
        lemma_own_columns_prefix(s, start, start.len() as int);
        assert(!s.contains('\u{FE0F}'));
        assert(!start.contains('\u{FE0F}'));
        lemma_columns_without_emoji(s, s.len() as int);
        lemma_columns_without_emoji(start, start.len() as int);
    }
}

/// A character takes as many columns as its width is, and none where it has no width; no
/// character takes more than two.
pub proof fn law_character_takes_its_width(c: char)
    ensures
        width_number(char_width(c)) is Some ==> columns(seq![c]) == width_number(char_width(c))->0
            || c == '\u{FE0F}',
        width_number(char_width(c)) is None ==> columns(seq![c]) == 0,
        columns(seq![c]) <= 2,
{
    let one = seq![c];
    assert(columns_upto(one, 0) == 0);
    assert(columns(one) == columns_upto(one, 1));
    assert(one[0] == c);
}

} // verus!
