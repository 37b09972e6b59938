//! Styled text: spans, and lines made of spans.

use vstd::prelude::*;

verus! {

/// The part that a text plays, from which the theme gives it a style.
#[derive(Clone, Copy, Debug, PartialEq, Eq, Structural)]
pub enum Role {
    /// No style at all.
    Plain,
    Text,
    Code,
    Rule,
    UnnumberedList,
    NumberedList,
    /// A heading of level one to six.
    Heading(u8),
}

/// What is added to the style that the theme gives.
#[derive(Clone, Copy, Debug, PartialEq, Eq, Structural)]
pub enum Modifier {
    Regular,
    Bold,
    Italic,
    CrossedOut,
}

#[derive(Clone, Copy, Debug, PartialEq, Eq, Structural)]
pub struct Style {
    pub role: Role,
    pub modifier: Modifier,
}

impl Style {
    pub open spec fn of(role: Role) -> Style {
        Style { role, modifier: Modifier::Regular }
    }

    pub fn new(role: Role) -> (style: Style)
        ensures
            style == Style::of(role),
    {
        Style { role, modifier: Modifier::Regular }
    }

    pub fn with(role: Role, modifier: Modifier) -> (style: Style)
        ensures
            style == (Style { role, modifier }),
    {
        Style { role, modifier }
    }
}

/// The key by which the theme knows a role.
pub open spec fn role_key(role: Role) -> Seq<char> {
    match role {
        Role::Plain => ""@,
        Role::Text => "ui.text"@,
        Role::Code => "markup.raw.inline"@,
        Role::Rule => "punctuation.special"@,
        Role::UnnumberedList => "markup.list.unnumbered"@,
        Role::NumberedList => "markup.list.numbered"@,
        Role::Heading(1) => "markup.heading.1"@,
        Role::Heading(2) => "markup.heading.2"@,
        Role::Heading(3) => "markup.heading.3"@,
        Role::Heading(4) => "markup.heading.4"@,
        Role::Heading(5) => "markup.heading.5"@,
        Role::Heading(_) => "markup.heading.6"@,
    }
}

impl Role {
    pub fn key(self) -> (key: &'static str)
        ensures
            key@ == role_key(self),
    {
        match self {
            Role::Plain => "",
            Role::Text => "ui.text",
            Role::Code => "markup.raw.inline",
            Role::Rule => "punctuation.special",
            Role::UnnumberedList => "markup.list.unnumbered",
            Role::NumberedList => "markup.list.numbered",
            Role::Heading(1) => "markup.heading.1",
            Role::Heading(2) => "markup.heading.2",
            Role::Heading(3) => "markup.heading.3",
            Role::Heading(4) => "markup.heading.4",
            Role::Heading(5) => "markup.heading.5",
            Role::Heading(_) => "markup.heading.6",
        }
    }
}

/// A run of text in one style. The styles of `highlights`, in order, go over
/// the span's own.
#[derive(Debug)]
pub struct Span {
    pub content: String,
    pub style: Style,
    pub highlights: Vec<u32>,
}

/// What a span shows.
pub ghost struct SpanView {
    pub content: Seq<char>,
    pub style: Style,
    pub highlights: Seq<u32>,
}

impl View for Span {
    type V = SpanView;

    open spec fn view(&self) -> SpanView {
        SpanView { content: self.content@, style: self.style, highlights: self.highlights@ }
    }
}

/// A span without highlights.
pub open spec fn plain_span(content: Seq<char>, style: Style) -> SpanView {
    SpanView { content, style, highlights: Seq::empty() }
}

impl Span {
    pub fn styled(content: String, style: Style) -> (span: Span)
        ensures
            span@ == plain_span(content@, style),
    {
        Span { content, style, highlights: Vec::new() }
    }
}

/// What a line of spans shows.
pub open spec fn line_view(line: Seq<Span>) -> Seq<SpanView> {
    Seq::new(line.len(), |i: int| line[i]@)
}

/// What lines of spans show.
pub open spec fn lines_view(lines: Seq<Vec<Span>>) -> Seq<Seq<SpanView>> {
    Seq::new(lines.len(), |i: int| line_view(lines[i]@))
}

/// The text of a line, without its styles.
pub open spec fn line_text(line: Seq<SpanView>) -> Seq<char>
    decreases line.len(),
{
    if line.len() == 0 {
        Seq::empty()
    } else {
        line_text(line.drop_last()) + line.last().content
    }
}

/// A line of one span without highlights.
pub open spec fn one_span(content: Seq<char>, style: Style) -> Seq<SpanView> {
    seq![plain_span(content, style)]
}

/// A line of one span.
pub fn single(content: String, style: Style) -> (line: Vec<Span>)
    ensures
        line_view(line@) == one_span(content@, style),
{
    let line = vec![Span::styled(content, style)];
    assert(line_view(line@) =~= one_span(content@, style));
    line
}

/// The text of a line, without its styles.
pub fn text_of(line: &Vec<Span>) -> (text: String)
    ensures
        text@ == line_text(line_view(line@)),
{
    let mut text = String::new();
    let ghost all = line_view(line@);
    assert(all.take(0) =~= Seq::empty());
    for i in 0..line.len()
        invariant
            all == line_view(line@),
            text@ == line_text(all.take(i as int)),
    {
        assert(all.take(i + 1).drop_last() =~= all.take(i as int));
        text.append(line[i].content.as_str());
    }
    assert(all.take(all.len() as int) =~= all);
    text
}

/// A copy of a list of highlights.
pub(crate) fn copied_ids(ids: &Vec<u32>) -> (out: Vec<u32>)
    ensures
        out@ == ids@,
{
    let mut out: Vec<u32> = Vec::new();
    let mut i: usize = 0;
    while i < ids.len()
        invariant
            i <= ids.len(),
            out@ == ids@.take(i as int),
        decreases ids.len() - i,
    {
        out.push(ids[i]);
        assert(ids@.take(i + 1) =~= ids@.take(i as int).push(ids@[i as int]));
        i += 1;
    }
    assert(ids@.take(ids@.len() as int) =~= ids@);
    out
}

/// A copy of a line.
pub fn copy_line(line: &Vec<Span>) -> (out: Vec<Span>)
    ensures
        line_view(out@) == line_view(line@),
{
    let mut out: Vec<Span> = Vec::new();
    let mut i: usize = 0;
    while i < line.len()
        invariant
            i <= line.len(),
            out@.len() == i,
            forall|k: int| 0 <= k < i ==> (#[trigger] out@[k])@ == line@[k]@,
        decreases line.len() - i,
    {
        let span = &line[i];
        out.push(
            Span {
                content: span.content.clone(),
                style: span.style,
                highlights: copied_ids(&span.highlights),
            },
        );
        i += 1;
    }
    assert(line_view(out@) =~= line_view(line@));
    out
}

/// The text of a line is that of its spans, one after the other.
pub proof fn law_line_text_is_that_of_its_spans(a: Seq<SpanView>, b: Seq<SpanView>, span: SpanView)
    ensures
        line_text(Seq::empty()) == Seq::<char>::empty(),
        line_text(seq![span]) == span.content,
        line_text(a + b) == line_text(a) + line_text(b),
    decreases b.len(),
{
    reveal_with_fuel(line_text, 2);
    assert(seq![span].drop_last() =~= Seq::empty());
    assert(line_text(seq![span]) =~= span.content);
    if b.len() == 0 {
        assert(a + b =~= a);
        assert(line_text(a) + line_text(b) =~= line_text(a));
    } else {
        law_line_text_is_that_of_its_spans(a, b.drop_last(), span);
        assert((a + b).drop_last() =~= a + b.drop_last());
        assert(line_text(a + b) =~= line_text(a) + line_text(b));
    }
}

} // verus!
