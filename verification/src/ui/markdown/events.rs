//! What a Markdown text is made of.

use vstd::prelude::*;

use super::table::Align;

verus! {

/// The start of a part of the text.
#[derive(Debug)]
pub enum Part {
    /// A heading of level one to six.
    Heading(u8),
    /// A code block; a fenced one names its language.
    CodeBlock(Option<String>),
    /// A list; a numbered one has the number of its first item.
    List(Option<u64>),
    Item,
    Table(Vec<Align>),
    TableHead,
    TableRow,
    TableCell,
    Emphasis,
    Strong,
    Strikethrough,
    Other,
}

/// The end of a part of the text.
#[derive(Clone, Copy, Debug, PartialEq, Eq, Structural)]
pub enum PartEnd {
    Paragraph,
    Heading,
    CodeBlock,
    List,
    Item,
    Table,
    TableHead,
    TableRow,
    TableCell,
    Other,
}

#[derive(Debug)]
pub enum Event {
    Start(Part),
    End(PartEnd),
    Text(String),
    Code(String),
    Html(String),
    SoftBreak,
    HardBreak,
    Rule,
    Other,
}

/// What the start of a part says.
pub ghost enum PartView {
    Heading(u8),
    CodeBlock(Option<Seq<char>>),
    List(Option<u64>),
    Item,
    Table(Seq<Align>),
    TableHead,
    TableRow,
    TableCell,
    Emphasis,
    Strong,
    Strikethrough,
    Other,
}

impl View for Part {
    type V = PartView;

    open spec fn view(&self) -> PartView {
        match self {
            Part::Heading(level) => PartView::Heading(*level),
            Part::CodeBlock(Some(language)) => PartView::CodeBlock(Some(language@)),
            Part::CodeBlock(None) => PartView::CodeBlock(None),
            Part::List(number) => PartView::List(*number),
            Part::Item => PartView::Item,
            Part::Table(aligns) => PartView::Table(aligns@),
            Part::TableHead => PartView::TableHead,
            Part::TableRow => PartView::TableRow,
            Part::TableCell => PartView::TableCell,
            Part::Emphasis => PartView::Emphasis,
            Part::Strong => PartView::Strong,
            Part::Strikethrough => PartView::Strikethrough,
            Part::Other => PartView::Other,
        }
    }
}

/// What an event says.
pub ghost enum EventView {
    Start(PartView),
    End(PartEnd),
    Text(Seq<char>),
    Code(Seq<char>),
    Html(Seq<char>),
    SoftBreak,
    HardBreak,
    Rule,
    Other,
}

impl View for Event {
    type V = EventView;

    open spec fn view(&self) -> EventView {
        match self {
            Event::Start(tag) => EventView::Start(tag@),
            Event::End(tag) => EventView::End(*tag),
            Event::Text(text) => EventView::Text(text@),
            Event::Code(text) => EventView::Code(text@),
            Event::Html(text) => EventView::Html(text@),
            Event::SoftBreak => EventView::SoftBreak,
            Event::HardBreak => EventView::HardBreak,
            Event::Rule => EventView::Rule,
            Event::Other => EventView::Other,
        }
    }
}

pub open spec fn events_view(events: Seq<Event>) -> Seq<EventView> {
    Seq::new(events.len(), |i: int| events[i]@)
}

#[verifier::external_type_specification]
#[verifier::external_body]
pub struct ExTag<'a>(pulldown_cmark::Tag<'a>);

#[verifier::external_type_specification]
#[verifier::external_body]
pub struct ExTagEnd(pulldown_cmark::TagEnd);

#[verifier::external_type_specification]
#[verifier::external_body]
pub struct ExCodeBlockKind<'a>(pulldown_cmark::CodeBlockKind<'a>);

#[verifier::external_type_specification]
#[verifier::external_body]
pub struct ExAlignment(pulldown_cmark::Alignment);

/// The events of a Markdown text with tables and strikethrough.
pub uninterp spec fn events_of(text: Seq<char>) -> Seq<EventView>;

/// `pulldown_cmark::Parser::new_ext` with the options for strikethrough and
/// tables, run to its end. The events are a function of the text alone.
#[verifier::external_body]
pub(crate) fn parse_events(text: &str) -> (events: Vec<Event>)
    ensures
        events_view(events@) == events_of(text@),
{
    let options =
        pulldown_cmark::Options::ENABLE_STRIKETHROUGH | pulldown_cmark::Options::ENABLE_TABLES;
    pulldown_cmark::Parser::new_ext(text, options).map(|event| match event {
        pulldown_cmark::Event::Start(tag) => Event::Start(part_of(tag)),
        pulldown_cmark::Event::End(tag) => Event::End(part_end_of(tag)),
        pulldown_cmark::Event::Text(text) => Event::Text(text.to_string()),
        pulldown_cmark::Event::Code(text) => Event::Code(text.to_string()),
        pulldown_cmark::Event::Html(text) => Event::Html(text.to_string()),
        pulldown_cmark::Event::SoftBreak => Event::SoftBreak,
        pulldown_cmark::Event::HardBreak => Event::HardBreak,
        pulldown_cmark::Event::Rule => Event::Rule,
        _ => Event::Other,
    }).collect()
}

/// Tells the variants of `pulldown_cmark::Tag` apart for `parse_events`; those
/// that the layout has no use for become `Part::Other`.
#[verifier::external_body]
fn part_of(tag: pulldown_cmark::Tag<'_>) -> Part {
    match tag {
        pulldown_cmark::Tag::Heading { level, .. } => Part::Heading(level as u8),
        pulldown_cmark::Tag::CodeBlock(kind) => Part::CodeBlock(language_of(kind)),
        pulldown_cmark::Tag::List(number) => Part::List(number),
        pulldown_cmark::Tag::Item => Part::Item,
        pulldown_cmark::Tag::Table(aligns) => Part::Table(aligns.into_iter().map(align_of).collect()),
        pulldown_cmark::Tag::TableHead => Part::TableHead,
        pulldown_cmark::Tag::TableRow => Part::TableRow,
        pulldown_cmark::Tag::TableCell => Part::TableCell,
        pulldown_cmark::Tag::Emphasis => Part::Emphasis,
        pulldown_cmark::Tag::Strong => Part::Strong,
        pulldown_cmark::Tag::Strikethrough => Part::Strikethrough,
        _ => Part::Other,
    }
}

/// The language of a `pulldown_cmark::CodeBlockKind::Fenced`, for `part_of`.
#[verifier::external_body]
fn language_of(kind: pulldown_cmark::CodeBlockKind<'_>) -> Option<String> {
    match kind {
        pulldown_cmark::CodeBlockKind::Fenced(language) => Some(language.to_string()),
        pulldown_cmark::CodeBlockKind::Indented => None,
    }
}

/// Tells the variants of `pulldown_cmark::Alignment` apart, for `part_of`.
#[verifier::external_body]
fn align_of(align: pulldown_cmark::Alignment) -> Align {
    match align {
        pulldown_cmark::Alignment::None => Align::Unset,
        pulldown_cmark::Alignment::Left => Align::Left,
        pulldown_cmark::Alignment::Center => Align::Center,
        pulldown_cmark::Alignment::Right => Align::Right,
    }
}

/// Tells the variants of `pulldown_cmark::TagEnd` apart for `parse_events`;
/// those that the layout has no use for become `PartEnd::Other`.
#[verifier::external_body]
fn part_end_of(tag: pulldown_cmark::TagEnd) -> PartEnd {
    match tag {
        pulldown_cmark::TagEnd::Paragraph => PartEnd::Paragraph,
        pulldown_cmark::TagEnd::Heading(_) => PartEnd::Heading,
        pulldown_cmark::TagEnd::CodeBlock => PartEnd::CodeBlock,
        pulldown_cmark::TagEnd::List(_) => PartEnd::List,
        pulldown_cmark::TagEnd::Item => PartEnd::Item,
        pulldown_cmark::TagEnd::Table => PartEnd::Table,
        pulldown_cmark::TagEnd::TableHead => PartEnd::TableHead,
        pulldown_cmark::TagEnd::TableRow => PartEnd::TableRow,
        pulldown_cmark::TagEnd::TableCell => PartEnd::TableCell,
        _ => PartEnd::Other,
    }
}

} // verus!
