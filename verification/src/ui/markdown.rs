//! Markdown laid out as lines of styled text.

use vstd::prelude::*;

use crate::text::{begins_with, decimal, decimal_of, has_prefix, repeat, repeated, same, views};
use crate::ui::spans::{
    copy_line, line_text, line_view, lines_view, one_span, plain_span, single, Modifier, Role, Span,
    SpanView, Style,
};

pub mod code;
pub mod events;
pub mod table;

pub use code::highlighted_code_block;
pub use table::wrap_text;

use code::{code_block, fits, highlights_fit, CodeHighlights, CodeHighlightsView};
use events::{events_of, events_view, parse_events, Event, EventView, Part, PartEnd, PartView};
use table::{
    column_widths, law_limit_keeps_narrow_table, rows_view, table, table_lines, table_width, Align,
    RowView, TableRow,
};

verus! {

/// A line of text, or a code block that is yet to be highlighted.
#[derive(Debug)]
pub enum Block {
    Line(Vec<Span>),
    Code { language: String, text: String },
}

/// What a block shows.
pub ghost enum BlockView {
    Line(Seq<SpanView>),
    Code { language: Seq<char>, text: Seq<char> },
}

impl View for Block {
    type V = BlockView;

    open spec fn view(&self) -> BlockView {
        match self {
            Block::Line(spans) => BlockView::Line(line_view(spans@)),
            Block::Code { language, text } => BlockView::Code { language: language@, text: text@ },
        }
    }
}

pub open spec fn blocks_view(blocks: Seq<Block>) -> Seq<BlockView> {
    Seq::new(blocks.len(), |i: int| blocks[i]@)
}

/// Lines as blocks.
pub open spec fn as_blocks(lines: Seq<Seq<SpanView>>) -> Seq<BlockView> {
    Seq::new(lines.len(), |i: int| BlockView::Line(lines[i]))
}

/// The empty line.
pub open spec fn blank() -> BlockView {
    BlockView::Line(Seq::empty())
}

/// The space before what stands in a list: two columns for each list around it.
pub open spec fn indent(depth: nat) -> Seq<char> {
    repeat(
        ' ',
        if depth < 1 {
            0
        } else {
            (2 * (depth - 1)) as nat
        },
    )
}

/// What comes before an item of a list: a bullet, or its number.
pub open spec fn bullet(list: Option<u64>) -> Seq<char> {
    match list {
        Some(number) => decimal(number as nat) + ". "@,
        None => "• "@,
    }
}

/// A layout that is not finished.
pub ghost struct LayoutView {
    /// The parts that are open, outermost first. Lists and tables are not here.
    pub parts: Seq<PartView>,
    /// The spans of the line that is not complete.
    pub spans: Seq<SpanView>,
    pub blocks: Seq<BlockView>,
    /// The lists that are open, outermost first, with the number of the next
    /// item where they are numbered.
    pub lists: Seq<Option<u64>>,
    /// Between the tags `<code>` and `</code>`.
    pub in_code: bool,
    pub in_table: bool,
    pub aligns: Seq<Align>,
    pub rows: Seq<RowView>,
    pub row: Seq<Seq<char>>,
    pub cell: Seq<char>,
}

/// An opening tag for code.
pub open spec fn opens_code(html: Seq<char>) -> bool {
    begins_with(html, "<code"@) && html.len() > 5 && (html[5] == ' ' || html[5] == '>')
}

impl LayoutView {
    pub open spec fn empty() -> LayoutView {
        LayoutView {
            parts: Seq::empty(),
            spans: Seq::empty(),
            blocks: Seq::empty(),
            lists: Seq::empty(),
            in_code: false,
            in_table: false,
            aligns: Seq::empty(),
            rows: Seq::empty(),
            row: Seq::empty(),
            cell: Seq::empty(),
        }
    }

    /// Completes the line, if it has any spans.
    pub open spec fn flushed(self) -> LayoutView {
        if self.spans.len() == 0 {
            self
        } else {
            LayoutView {
                spans: Seq::empty(),
                blocks: self.blocks.push(BlockView::Line(self.spans)),
                ..self
            }
        }
    }

    pub open spec fn with_span(self, span: SpanView) -> LayoutView {
        LayoutView { spans: self.spans.push(span), ..self }
    }

    pub open spec fn with_block(self, block: BlockView) -> LayoutView {
        LayoutView { blocks: self.blocks.push(block), ..self }
    }

    /// Begins a line within a list with the list's indent.
    pub open spec fn indented(self) -> LayoutView {
        self.with_span(plain_span(indent(self.lists.len()), Style::of(Role::Plain)))
    }

    /// A list in another one begins on a line of its own.
    pub open spec fn start_list(self, number: Option<u64>) -> LayoutView {
        let before = if self.lists.len() > 0 {
            self.flushed()
        } else {
            self
        };
        LayoutView { lists: self.lists.push(number), ..before }
    }

    /// An empty line follows the outermost list.
    pub open spec fn end_list(self) -> LayoutView {
        let after = LayoutView {
            lists: if self.lists.len() > 0 {
                self.lists.drop_last()
            } else {
                self.lists
            },
            ..self
        };
        if after.lists.len() == 0 {
            after.with_block(blank())
        } else {
            after
        }
    }

    pub open spec fn start_item(self) -> LayoutView {
        let list = if self.lists.len() > 0 {
            self.lists.last()
        } else {
            None
        };
        let role = match list {
            Some(_) => Role::NumberedList,
            None => Role::UnnumberedList,
        };
        LayoutView {
            parts: self.parts.push(PartView::Item),
            spans: self.spans.push(
                plain_span(indent(self.lists.len()) + bullet(list), Style::of(role)),
            ),
            lists: match list {
                Some(number) => self.lists.update(
                    self.lists.len() - 1,
                    Some(number.wrapping_add(1)),
                ),
                None => self.lists,
            },
            ..self
        }
    }

    pub open spec fn end_row(self, is_head: bool) -> LayoutView {
        LayoutView {
            rows: self.rows.push(RowView { cells: self.row, is_head }),
            row: Seq::empty(),
            ..self
        }
    }

    pub open spec fn end_table(self, max_width: Option<usize>) -> LayoutView {
        LayoutView {
            in_table: false,
            blocks: self.blocks + as_blocks(table(self.rows, self.aligns, max_width)),
            ..self
        }
    }

    pub open spec fn start(self, part: PartView) -> LayoutView {
        match part {
            PartView::List(number) => self.start_list(number),
            PartView::Item => self.start_item(),
            PartView::Table(aligns) => LayoutView {
                aligns,
                rows: Seq::empty(),
                in_table: true,
                ..self
            },
            PartView::TableHead | PartView::TableRow => LayoutView { row: Seq::empty(), ..self },
            PartView::TableCell => LayoutView { cell: Seq::empty(), ..self },
            _ => {
                let opened = LayoutView { parts: self.parts.push(part), ..self };
                if self.spans.len() == 0 && self.lists.len() > 0 {
                    opened.indented()
                } else {
                    opened
                }
            },
        }
    }

    /// Headings, paragraphs, code blocks and items end their line; an empty line
    /// follows all of them but items.
    pub open spec fn end_part(self, end: PartEnd) -> LayoutView {
        let closed = LayoutView {
            parts: if self.parts.len() > 0 {
                self.parts.drop_last()
            } else {
                self.parts
            },
            ..self
        };
        match end {
            PartEnd::Heading | PartEnd::Paragraph | PartEnd::CodeBlock => closed.flushed().with_block(
                blank(),
            ),
            PartEnd::Item => closed.flushed(),
            _ => closed,
        }
    }

    pub open spec fn end(self, end: PartEnd, max_width: Option<usize>) -> LayoutView {
        match end {
            PartEnd::List => self.end_list(),
            PartEnd::TableCell => LayoutView {
                row: self.row.push(self.cell),
                cell: Seq::empty(),
                ..self
            },
            PartEnd::TableHead => self.end_row(true),
            PartEnd::TableRow => self.end_row(false),
            PartEnd::Table => self.end_table(max_width),
            _ => self.end_part(end),
        }
    }

    /// The style of text: that of the innermost part.
    pub open spec fn text_style(self) -> Style {
        if self.parts.len() == 0 {
            Style::of(Role::Text)
        } else {
            match self.parts.last() {
                PartView::Heading(level) => Style::of(Role::Heading(level)),
                PartView::Emphasis => Style { role: Role::Text, modifier: Modifier::Italic },
                PartView::Strong => Style { role: Role::Text, modifier: Modifier::Bold },
                PartView::Strikethrough => Style {
                    role: Role::Text,
                    modifier: Modifier::CrossedOut,
                },
                _ => Style::of(Role::Text),
            }
        }
    }

    pub open spec fn in_cell(self, text: Seq<char>) -> LayoutView {
        LayoutView { cell: self.cell + text, ..self }
    }

    pub open spec fn text(self, text: Seq<char>) -> LayoutView {
        if self.in_table {
            self.in_cell(text)
        } else if self.parts.len() > 0 && self.parts.last() is CodeBlock {
            self.with_block(
                BlockView::Code {
                    language: match self.parts.last()->CodeBlock_0 {
                        Some(language) => language,
                        None => Seq::empty(),
                    },
                    text,
                },
            )
        } else {
            self.with_span(plain_span(text, self.text_style()))
        }
    }

    pub open spec fn raw(self, text: Seq<char>) -> LayoutView {
        if self.in_table {
            self.in_cell(text)
        } else {
            self.with_span(plain_span(text, Style::of(Role::Code)))
        }
    }

    pub open spec fn line_break(self) -> LayoutView {
        if self.lists.len() > 0 {
            self.flushed().indented()
        } else {
            self.flushed()
        }
    }

    /// The layout after one more event.
    pub open spec fn step(self, event: EventView, max_width: Option<usize>) -> LayoutView {
        match event {
            EventView::Start(part) => self.start(part),
            EventView::End(end) => self.end(end, max_width),
            EventView::Text(text) => if self.in_code {
                self.raw(text)
            } else {
                self.text(text)
            },
            EventView::Code(text) => self.raw(text),
            EventView::Html(html) => if opens_code(html) {
                LayoutView { in_code: true, ..self }
            } else if html == "</code>"@ {
                LayoutView { in_code: false, ..self }
            } else {
                self.raw(html)
            },
            EventView::SoftBreak | EventView::HardBreak => self.line_break(),
            EventView::Rule => self.with_block(
                BlockView::Line(one_span("───"@, Style::of(Role::Rule))),
            ).with_block(blank()),
            EventView::Other => self,
        }
    }

    /// The layout after the first `n` events.
    pub open spec fn after(events: Seq<EventView>, n: int, max_width: Option<usize>) -> LayoutView
        decreases n,
    {
        if n <= 0 {
            LayoutView::empty()
        } else {
            LayoutView::after(events, n - 1, max_width).step(events[n - 1], max_width)
        }
    }
}

/// The blocks that events come to.
pub open spec fn layout(events: Seq<EventView>, max_width: Option<usize>) -> Seq<BlockView> {
    LayoutView::after(events, events.len() as int, max_width).flushed().blocks
}

/// A layout that is not finished.
struct Layout {
    parts: Vec<Part>,
    spans: Vec<Span>,
    blocks: Vec<Block>,
    lists: Vec<Option<u64>>,
    in_code: bool,
    in_table: bool,
    aligns: Vec<Align>,
    rows: Vec<TableRow>,
    row: Vec<String>,
    cell: String,
}

spec fn parts_view(parts: Seq<Part>) -> Seq<PartView> {
    Seq::new(parts.len(), |i: int| parts[i]@)
}

/// Two spaces for each list but the outermost.
fn indent_of(depth: usize) -> (out: String)
    ensures
        out@ == indent(depth as nat),
{
    if depth < 1 {
        let out = String::new();
        assert(out@ =~= indent(depth as nat));
        out
    } else {
        let mut out = repeated(' ', depth - 1);
        out.append(repeated(' ', depth - 1).as_str());
        assert(out@ =~= indent(depth as nat));
        out
    }
}

fn copy_part(part: &Part) -> (out: Part)
    ensures
        out@ == part@,
{
    match part {
        Part::Heading(level) => Part::Heading(*level),
        Part::CodeBlock(Some(language)) => Part::CodeBlock(Some(language.clone())),
        Part::CodeBlock(None) => Part::CodeBlock(None),
        Part::List(number) => Part::List(*number),
        Part::Item => Part::Item,
        Part::Table(aligns) => Part::Table(copy_aligns(aligns)),
        Part::TableHead => Part::TableHead,
        Part::TableRow => Part::TableRow,
        Part::TableCell => Part::TableCell,
        Part::Emphasis => Part::Emphasis,
        Part::Strong => Part::Strong,
        Part::Strikethrough => Part::Strikethrough,
        Part::Other => Part::Other,
    }
}

fn copy_aligns(aligns: &Vec<Align>) -> (out: Vec<Align>)
    ensures
        out@ == aligns@,
{
    let mut out: Vec<Align> = Vec::new();
    let mut i: usize = 0;
    while i < aligns.len()
        invariant
            i <= aligns.len(),
            out@ == aligns@.take(i as int),
        decreases aligns.len() - i,
    {
        out.push(aligns[i]);
        assert(aligns@.take(i + 1) =~= aligns@.take(i as int).push(aligns@[i as int]));
        i += 1;
    }
    assert(aligns@.take(aligns@.len() as int) =~= aligns@);
    out
}

impl Layout {
    spec fn view(self) -> LayoutView {
        LayoutView {
            parts: parts_view(self.parts@),
            spans: line_view(self.spans@),
            blocks: blocks_view(self.blocks@),
            lists: self.lists@,
            in_code: self.in_code,
            in_table: self.in_table,
            aligns: self.aligns@,
            rows: rows_view(self.rows@),
            row: views(self.row@),
            cell: self.cell@,
        }
    }

    fn new() -> (r: Layout)
        ensures
            r@ == LayoutView::empty(),
    {
        let r = Layout {
            parts: Vec::new(),
            spans: Vec::new(),
            blocks: Vec::new(),
            lists: Vec::new(),
            in_code: false,
            in_table: false,
            aligns: Vec::new(),
            rows: Vec::new(),
            row: Vec::new(),
            cell: String::new(),
        };
        assert(r@.parts =~= Seq::empty());
        assert(r@.spans =~= Seq::empty());
        assert(r@.blocks =~= Seq::empty());
        assert(r@.rows =~= Seq::empty());
        assert(r@.row =~= Seq::empty());
        assert(r@.cell =~= Seq::empty());
        r
    }

    fn push_span(&mut self, content: String, style: Style)
        ensures
            final(self)@ == old(self)@.with_span(plain_span(content@, style)),
    {
        let ghost before = self@.spans;
        self.spans.push(Span::styled(content, style));
        assert(self@.spans =~= before.push(plain_span(content@, style)));
    }

    fn push_block(&mut self, block: Block)
        ensures
            final(self)@ == old(self)@.with_block(block@),
    {
        let ghost before = self@.blocks;
        self.blocks.push(block);
        assert(self@.blocks =~= before.push(block@));
    }

    fn push_blank(&mut self)
        ensures
            final(self)@ == old(self)@.with_block(blank()),
    {
        let line: Vec<Span> = Vec::new();
        assert(line_view(line@) =~= Seq::empty());
        self.push_block(Block::Line(line));
    }

    fn push_line(&mut self)
        ensures
            final(self)@ == old(self)@.flushed(),
    {
        if self.spans.len() > 0 {
            let ghost before = self@;
            let mut spans: Vec<Span> = Vec::new();
            std::mem::swap(&mut spans, &mut self.spans);
            assert(self@.spans =~= Seq::empty());
            assert(line_view(spans@) == before.spans);
            self.push_block(Block::Line(spans));
        }
    }

    fn push_indent(&mut self)
        ensures
            final(self)@ == old(self)@.indented(),
    {
        let content = indent_of(self.lists.len());
        self.push_span(content, Style::new(Role::Plain));
    }

    fn start_list(&mut self, number: Option<u64>)
        ensures
            final(self)@ == old(self)@.start_list(number),
    {
        // A list in another one: the current line is complete.
        if self.lists.len() > 0 {
            self.push_line();
        }
        self.lists.push(number);
    }

    fn end_list(&mut self)
        ensures
            final(self)@ == old(self)@.end_list(),
    {
        if self.lists.len() > 0 {
            let _ = self.lists.pop();
        }
        // whenever top-level list closes, empty line
        if self.lists.len() == 0 {
            self.push_blank();
        }
    }

    fn start_item(&mut self)
        ensures
            final(self)@ == old(self)@.start_item(),
    {
        let depth = self.lists.len();
        let list: Option<u64> = if depth > 0 {
            self.lists[depth - 1]
        } else {
            None
        };
        let ghost before = self@;
        let mut prefix = indent_of(depth);
        let role = match list {
            Some(number) => {
                let mut mark = decimal_of(number);
                mark.append(". ");
                prefix.append(mark.as_str());
                self.lists.set(depth - 1, Some(number.wrapping_add(1)));
                Role::NumberedList
            },
            None => {
                prefix.append("• ");
                Role::UnnumberedList
            },
        };
        self.push_span(prefix, Style::new(role));
        let ghost parts = self@.parts;
        self.parts.push(Part::Item);
        assert(self@.parts =~= parts.push(PartView::Item));
    }

    fn end_row(&mut self, is_head: bool)
        ensures
            final(self)@ == old(self)@.end_row(is_head),
    {
        let ghost before = self@;
        let mut cells: Vec<String> = Vec::new();
        std::mem::swap(&mut cells, &mut self.row);
        assert(self@.row =~= Seq::empty());
        self.rows.push(TableRow { cells, is_head });
        assert(self@.rows =~= before.rows.push(RowView { cells: before.row, is_head }));
    }

    fn end_cell(&mut self)
        ensures
            final(self)@ == old(self)@.end(PartEnd::TableCell, None),
    {
        let ghost before = self@;
        let mut cell = String::new();
        std::mem::swap(&mut cell, &mut self.cell);
        assert(self@.cell =~= Seq::empty());
        self.row.push(cell);
        assert(self@.row =~= before.row.push(before.cell));
    }

    fn end_table(&mut self, max_width: Option<usize>)
        ensures
            final(self)@ == old(self)@.end_table(max_width),
    {
        self.in_table = false;
        let mut lines = table_lines(&self.rows, &self.aligns, max_width);
        let ghost before = self@;
        let ghost all = lines_view(lines@);
        proof {
            assert(lines@.skip(0) =~= lines@);
            assert(before.blocks + as_blocks(all).take(0) =~= before.blocks);
        }
        let ghost given = lines@;
        let count = lines.len();
        let mut i: usize = 0;
        while i < count
            invariant
                i <= count,
                count == given.len(),
                lines@.len() == count,
                all == lines_view(given),
                forall|k: int| i <= k < count ==> lines@[k] == given[k],
                self@ == (LayoutView {
                    blocks: before.blocks + as_blocks(all).take(i as int),
                    ..before
                }),
            decreases count - i,
        {
            let mut line: Vec<Span> = Vec::new();
            std::mem::swap(&mut line, &mut lines[i]);
            assert(line@ == given[i as int]@);
            let ghost so_far = self@.blocks;
            self.push_block(Block::Line(line));
            assert(as_blocks(all).take(i + 1) =~= as_blocks(all).take(i as int).push(
                as_blocks(all)[i as int],
            ));
            assert(self@.blocks =~= before.blocks + as_blocks(all).take(i + 1));
            i += 1;
        }
        assert(as_blocks(all).take(all.len() as int) =~= as_blocks(all));
    }

    fn start(&mut self, part: &Part)
        ensures
            final(self)@ == old(self)@.start(part@),
    {
        match part {
            Part::List(number) => self.start_list(*number),
            Part::Item => self.start_item(),
            Part::Table(aligns) => {
                self.aligns = copy_aligns(aligns);
                self.rows = Vec::new();
                assert(self@.rows =~= Seq::empty());
                self.in_table = true;
            },
            Part::TableHead | Part::TableRow => {
                self.row = Vec::new();
                assert(self@.row =~= Seq::empty());
            },
            Part::TableCell => {
                self.cell = String::new();
                assert(self@.cell =~= Seq::empty());
            },
            _ => {
                let ghost parts = self@.parts;
                self.parts.push(copy_part(part));
                assert(self@.parts =~= parts.push(part@));
                if self.spans.len() == 0 && self.lists.len() > 0 {
                    self.push_indent();
                }
            },
        }
    }

    fn end_part(&mut self, end: PartEnd)
        ensures
            final(self)@ == old(self)@.end_part(end),
    {
        if self.parts.len() > 0 {
            let ghost parts = self@.parts;
            let _ = self.parts.pop();
            assert(self@.parts =~= parts.drop_last());
        }
        match end {
            PartEnd::Heading | PartEnd::Paragraph | PartEnd::CodeBlock => {
                self.push_line();
                // whenever heading, code block or paragraph closes, empty line
                self.push_blank();
            },
            PartEnd::Item => self.push_line(),
            _ => (),
        }
    }

    fn end(&mut self, end: PartEnd, max_width: Option<usize>)
        ensures
            final(self)@ == old(self)@.end(end, max_width),
    {
        match end {
            PartEnd::List => self.end_list(),
            PartEnd::TableCell => self.end_cell(),
            PartEnd::TableHead => self.end_row(true),
            PartEnd::TableRow => self.end_row(false),
            PartEnd::Table => self.end_table(max_width),
            _ => self.end_part(end),
        }
    }

    fn text(&mut self, text: &str)
        ensures
            final(self)@ == old(self)@.text(text@),
    {
        if self.in_table {
            self.cell.append(text);
            return ;
        }
        let depth = self.parts.len();
        let mut style = Style::new(Role::Text);
        if depth > 0 {
            assert(self@.parts.last() == self.parts@[depth - 1]@);
            match &self.parts[depth - 1] {
                Part::CodeBlock(kind) => {
                    let language = match kind {
                        Some(language) => language.clone(),
                        None => {
                            let none = String::new();
                            assert(none@ =~= Seq::empty());
                            none
                        },
                    };
                    self.push_block(Block::Code { language, text: text.to_string() });
                    return ;
                },
                Part::Heading(level) => {
                    style = Style::new(Role::Heading(*level));
                },
                Part::Emphasis => {
                    style = Style::with(Role::Text, Modifier::Italic);
                },
                Part::Strong => {
                    style = Style::with(Role::Text, Modifier::Bold);
                },
                Part::Strikethrough => {
                    style = Style::with(Role::Text, Modifier::CrossedOut);
                },
                _ => {},
            }
        }
        self.push_span(text.to_string(), style);
    }

    fn raw(&mut self, text: &str)
        ensures
            final(self)@ == old(self)@.raw(text@),
    {
        if self.in_table {
            self.cell.append(text);
        } else {
            self.push_span(text.to_string(), Style::new(Role::Code));
        }
    }

    fn html(&mut self, html: &str)
        ensures
            final(self)@ == old(self)@.step(EventView::Html(html@), None),
    {
        proof {
            reveal_strlit("<code");
        }
        if has_prefix(html, "<code") && html.unicode_len() > 5 && (html.get_char(5) == ' '
            || html.get_char(5) == '>') {
            self.in_code = true;
        } else if same(html, "</code>") {
            self.in_code = false;
        } else {
            self.raw(html);
        }
    }

    fn line_break(&mut self)
        ensures
            final(self)@ == old(self)@.line_break(),
    {
        self.push_line();
        if self.lists.len() > 0 {
            self.push_indent();
        }
    }

    fn step(&mut self, event: &Event, max_width: Option<usize>)
        ensures
            final(self)@ == old(self)@.step(event@, max_width),
    {
        match event {
            Event::Start(part) => self.start(part),
            Event::End(end) => self.end(*end, max_width),
            Event::Text(text) => {
                if self.in_code {
                    self.raw(text.as_str());
                } else {
                    self.text(text.as_str());
                }
            },
            Event::Code(text) => self.raw(text.as_str()),
            Event::Html(html) => self.html(html.as_str()),
            Event::SoftBreak | Event::HardBreak => self.line_break(),
            Event::Rule => {
                self.push_block(Block::Line(single("───".to_string(), Style::new(Role::Rule))));
                self.push_blank();
            },
            Event::Other => {},
        }
    }
}

/// Lays out events as lines and code blocks.
pub fn layout_events(events: &Vec<Event>, max_table_width: Option<usize>) -> (blocks: Vec<Block>)
    ensures
        blocks_view(blocks@) == layout(events_view(events@), max_table_width),
{
    let mut so_far = Layout::new();
    let ghost all = events_view(events@);
    let mut i: usize = 0;
    while i < events.len()
        invariant
            i <= events.len(),
            all == events_view(events@),
            so_far@ == LayoutView::after(all, i as int, max_table_width),
        decreases events.len() - i,
    {
        so_far.step(&events[i], max_table_width);
        i += 1;
    }
    so_far.push_line();
    so_far.blocks
}

/// How many of the first `n` blocks are code blocks.
pub open spec fn code_count(blocks: Seq<BlockView>, n: int) -> nat
    decreases n,
{
    if n <= 0 {
        0
    } else {
        code_count(blocks, n - 1) + if blocks[n - 1] is Code {
            1nat
        } else {
            0
        }
    }
}

/// The highlights of the code block that `k` others precede, if it has any.
pub open spec fn highlights_of(highlights: Seq<Option<CodeHighlightsView>>, k: nat) -> Option<
    CodeHighlightsView,
> {
    if k < highlights.len() {
        highlights[k as int]
    } else {
        None
    }
}

/// The lines of the first `n` blocks.
pub open spec fn expanded(
    blocks: Seq<BlockView>,
    highlights: Seq<Option<CodeHighlightsView>>,
    n: int,
) -> Seq<Seq<SpanView>>
    decreases n,
{
    if n <= 0 {
        Seq::empty()
    } else {
        let before = expanded(blocks, highlights, n - 1);
        match blocks[n - 1] {
            BlockView::Line(spans) => before.push(spans),
            BlockView::Code { language, text } => before + code_block(
                text,
                highlights_of(highlights, code_count(blocks, n - 1)),
            ),
        }
    }
}

/// The lines of a text, without an empty one at the end.
pub open spec fn shown_lines(
    blocks: Seq<BlockView>,
    highlights: Seq<Option<CodeHighlightsView>>,
) -> Seq<Seq<SpanView>> {
    let lines = expanded(blocks, highlights, blocks.len() as int);
    if lines.len() > 0 && lines.last().len() == 0 {
        lines.drop_last()
    } else {
        lines
    }
}

/// The highlights of each code block fit its text.
pub open spec fn all_fit(
    blocks: Seq<BlockView>,
    highlights: Seq<Option<CodeHighlightsView>>,
) -> bool {
    forall|i: int|
        0 <= i < blocks.len() && (#[trigger] blocks[i]) is Code && highlights_of(
            highlights,
            code_count(blocks, i),
        ) is Some ==> highlights_fit(
            blocks[i]->text,
            highlights_of(highlights, code_count(blocks, i))->0,
        )
}

pub open spec fn all_highlights(highlights: Seq<Option<CodeHighlights>>) -> Seq<
    Option<CodeHighlightsView>,
> {
    Seq::new(
        highlights.len(),
        |i: int|
            match highlights[i] {
                Some(code) => Some(code@),
                None => None,
            },
    )
}

/// The lines that blocks come to, where `highlights` holds those of the code
/// blocks in order. Code blocks without highlights are shown as they are.
pub fn show(blocks: &Vec<Block>, highlights: &Vec<Option<CodeHighlights>>) -> (lines: Vec<
    Vec<Span>,
>)
    requires
        all_fit(blocks_view(blocks@), all_highlights(highlights@)),
    ensures
        lines_view(lines@) == shown_lines(blocks_view(blocks@), all_highlights(highlights@)),
{
    let ghost all = blocks_view(blocks@);
    let ghost given = all_highlights(highlights@);
    let mut lines: Vec<Vec<Span>> = Vec::new();
    let mut code_blocks: usize = 0;
    let mut i: usize = 0;
    assert(lines_view(lines@) =~= Seq::empty());
    while i < blocks.len()
        invariant
            i <= blocks.len(),
            all == blocks_view(blocks@),
            given == all_highlights(highlights@),
            all_fit(all, given),
            code_blocks <= i,
            code_blocks == code_count(all, i as int),
            lines_view(lines@) == expanded(all, given, i as int),
        decreases blocks.len() - i,
    {
        let ghost before = lines_view(lines@);
        assert(all[i as int] == blocks@[i as int]@);
        match &blocks[i] {
            Block::Line(spans) => {
                lines.push(copy_line(spans));
                assert(lines_view(lines@) =~= before.push(line_view(spans@)));
            },
            Block::Code { language, text } => {
                let found: Option<&CodeHighlights> = if code_blocks < highlights.len() {
                    match &highlights[code_blocks] {
                        Some(code) => Some(code),
                        None => None,
                    }
                } else {
                    None
                };
                let mut block = highlighted_code_block(text.as_str(), found);
                let ghost added = lines_view(block@);
                let ghost old_lines = lines@;
                let ghost old_block = block@;
                lines.append(&mut block);
                assert(lines@ =~= old_lines + old_block);
                assert(lines_view(lines@) =~= before + added);
                code_blocks += 1;
            },
        }
        i += 1;
    }
    // if last line is empty, remove it
    let count = lines.len();
    if count > 0 {
        assert(lines_view(lines@).last() == line_view(lines@[count - 1]@));
        if lines[count - 1].len() == 0 {
            let ghost before = lines_view(lines@);
            let _ = lines.pop();
            assert(lines_view(lines@) =~= before.drop_last());
        }
    }
    lines
}

/// Whether the highlights of each code block fit its text.
pub fn fit(blocks: &Vec<Block>, highlights: &Vec<Option<CodeHighlights>>) -> (b: bool)
    ensures
        b == all_fit(blocks_view(blocks@), all_highlights(highlights@)),
{
    let ghost all = blocks_view(blocks@);
    let ghost given = all_highlights(highlights@);
    let mut code_blocks: usize = 0;
    let mut i: usize = 0;
    while i < blocks.len()
        invariant
            i <= blocks.len(),
            all == blocks_view(blocks@),
            given == all_highlights(highlights@),
            code_blocks <= i,
            code_blocks == code_count(all, i as int),
            forall|k: int|
                0 <= k < i && (#[trigger] all[k]) is Code && highlights_of(
                    given,
                    code_count(all, k),
                ) is Some ==> highlights_fit(
                    all[k]->text,
                    highlights_of(given, code_count(all, k))->0,
                ),
        decreases blocks.len() - i,
    {
        assert(all[i as int] == blocks@[i as int]@);
        if let Block::Code { language, text } = &blocks[i] {
            if code_blocks < highlights.len() {
                if let Some(code) = &highlights[code_blocks] {
                    assert(highlights_of(given, code_blocks as nat) == Some(code@));
                    if !fits(text.as_str(), code) {
                        return false;
                    }
                }
            }
            code_blocks += 1;
        }
        i += 1;
    }
    true
}

/// A Markdown text.
#[derive(Debug)]
pub struct Markdown {
    contents: String,
    /// When set, tables wider than this many columns are shrunk (columns
    /// narrowed, cell text wrapped) so the whole table fits. `None` keeps the
    /// natural, content-sized table (the default for hover/agent panel/etc.).
    max_table_width: Option<usize>,
}

impl Markdown {
    pub closed spec fn contents(self) -> Seq<char> {
        self.contents@
    }

    pub closed spec fn max_table_width(self) -> Option<usize> {
        self.max_table_width
    }

    pub fn new(contents: String) -> (r: Self)
        ensures
            r.contents() == contents@,
            r.max_table_width() is None,
    {
        Self { contents, max_table_width: None }
    }

    /// Constrain rendered tables to at most `width` columns, wrapping cell text
    /// across multiple rows as needed.
    pub fn with_max_table_width(self, width: usize) -> (r: Self)
        ensures
            r.contents() == self.contents(),
            r.max_table_width() == Some(width),
    {
        Self { contents: self.contents, max_table_width: Some(width) }
    }

    /// The lines and the code blocks of the text.
    pub fn blocks(&self) -> (blocks: Vec<Block>)
        ensures
            blocks_view(blocks@) == layout(events_of(self.contents()), self.max_table_width()),
    {
        let events = parse_events(self.contents.as_str());
        layout_events(&events, self.max_table_width)
    }

    /// The lines of the text, without highlighting.
    pub fn parse(&self) -> (lines: Vec<Vec<Span>>)
        ensures
            lines_view(lines@) == shown_lines(
                layout(events_of(self.contents()), self.max_table_width()),
                Seq::empty(),
            ),
    {
        let none: Vec<Option<CodeHighlights>> = Vec::new();
        assert(all_highlights(none@) =~= Seq::empty());
        show(&self.blocks(), &none)
    }

    /// The lines of the text, where `highlights` holds those of its code blocks in
    /// order. `None` where they do not fit the text.
    pub fn parse_highlighted(&self, highlights: &Vec<Option<CodeHighlights>>) -> (lines: Option<
        Vec<Vec<Span>>,
    >)
        ensures
            ({
                let blocks = layout(events_of(self.contents()), self.max_table_width());
                let given = all_highlights(highlights@);
                match lines {
                    Some(lines) => all_fit(blocks, given) && lines_view(lines@) == shown_lines(
                        blocks,
                        given,
                    ),
                    None => !all_fit(blocks, given),
                }
            }),
    {
        let blocks = self.blocks();
        if fit(&blocks, highlights) {
            Some(show(&blocks, highlights))
        } else {
            None
        }
    }

    /// The width to wrap the text at in a popup that may be as large as
    /// `viewport`.
    pub fn wrap_width(viewport: (u16, u16)) -> (width: u16)
        ensures
            width == if viewport.0 < 2 {
                0
            } else if viewport.0 - 2 < 120 {
                viewport.0 - 2
            } else {
                120
            },
    {
        let width = viewport.0.saturating_sub(2);
        if width < 120 {
            width
        } else {
            120
        }
    }

    /// The size of a popup around a text of the given size.
    pub fn required_size(text_size: (u16, u16)) -> (size: (u16, u16))
        requires
            text_size.0 + 2 <= u16::MAX,
            text_size.1 + 2 <= u16::MAX,
        ensures
            size.0 == text_size.0 + 2,
            size.1 == text_size.1 + 2,
    {
        let padding: u16 = 2;
        (text_size.0 + padding, text_size.1 + padding)
    }
}

/// Without a limit, every table of the first `n` events is at most `width`
/// columns wide.
pub open spec fn tables_within(events: Seq<EventView>, n: int, width: usize) -> bool {
    forall|i: int|
        0 <= i < n && #[trigger] events[i] == EventView::End(PartEnd::Table) ==> table_width(
            column_widths(LayoutView::after(events, i, None).rows, None),
        ) <= width
}

proof fn lemma_limit_changes_nothing(events: Seq<EventView>, n: int, width: usize)
    requires
        n <= events.len(),
        tables_within(events, n, width),
    ensures
        LayoutView::after(events, n, Some(width)) == LayoutView::after(events, n, None),
    decreases n,
{
    if n > 0 {
        lemma_limit_changes_nothing(events, n - 1, width);
        let before = LayoutView::after(events, n - 1, None);
        if events[n - 1] == EventView::End(PartEnd::Table) {
            law_limit_keeps_narrow_table(before.rows, before.aligns, width);
        }
    }
}

/// A limit on the width of tables changes nothing where all tables are narrower
/// without it.
pub proof fn law_limit_keeps_text_with_narrow_tables(events: Seq<EventView>, width: usize)
    requires
        tables_within(events, events.len() as int, width),
    ensures
        layout(events, Some(width)) == layout(events, None),
{
    lemma_limit_changes_nothing(events, events.len() as int, width);
}

/// Line breaks and ends of parts never leave an empty line: one is only put
/// where a heading, a paragraph, a code block, a list, a table or a rule ends.
pub proof fn law_flushing_adds_no_empty_line(st: LayoutView)
    ensures
        st.flushed().spans.len() == 0,
        st.flushed().blocks == st.blocks || st.flushed().blocks == st.blocks.push(
            BlockView::Line(st.spans),
        ) && st.spans.len() > 0,
{
}

// ── What the layout shows ────────────────────────────────────────────────────

/// The text that an event stands for where it is shown.
pub open spec fn text_of_event(event: EventView) -> Seq<char> {
    match event {
        EventView::Text(text) => text,
        EventView::Code(text) => text,
        _ => Seq::empty(),
    }
}

/// The texts of the events from `i` up to, but not including, `j`, one after the other.
pub open spec fn texts_between(events: Seq<EventView>, i: int, j: int) -> Seq<char>
    decreases j - i,
{
    if j <= i {
        Seq::empty()
    } else {
        texts_between(events, i, j - 1) + text_of_event(events[j - 1])
    }
}

/// Events that stand within a line: text, code, and where emphasis and links begin and end.
pub open spec fn is_inline(event: EventView) -> bool {
    match event {
        EventView::Text(_) => true,
        EventView::Code(_) => true,
        EventView::Start(part) => part is Emphasis || part is Strong || part is Strikethrough
            || part is Other,
        EventView::End(end) => end == PartEnd::Other,
        EventView::Other => true,
        _ => false,
    }
}

/// All text of a cell is in it: the row gains one cell, which holds the texts and the code
/// between the start and the end of the cell, one after the other. The other rows stay.
pub proof fn law_cell_holds_all_its_text(
    events: Seq<EventView>,
    i: int,
    j: int,
    max_width: Option<usize>,
)
    requires
        0 <= i < j < events.len(),
        events[i] == EventView::Start(PartView::TableCell),
        events[j] == EventView::End(PartEnd::TableCell),
        forall|k: int| i < k < j ==> is_inline(#[trigger] events[k]),
        LayoutView::after(events, i, max_width).in_table,
    ensures
        ({
            let before = LayoutView::after(events, i, max_width);
            let after = LayoutView::after(events, j + 1, max_width);
            &&& after.row == before.row.push(texts_between(events, i + 1, j))
            &&& after.rows == before.rows
            &&& after.blocks == before.blocks
            &&& after.in_table
        }),
{
    assert(LayoutView::after(events, i + 1, max_width).cell =~= texts_between(
        events,
        i + 1,
        i + 1,
    ));
    lemma_cell_grows(events, i, j, max_width);
}

proof fn lemma_cell_grows(events: Seq<EventView>, i: int, k: int, max_width: Option<usize>)
    requires
        0 <= i < k <= events.len(),
        events[i] == EventView::Start(PartView::TableCell),
        forall|m: int| i < m < k ==> is_inline(#[trigger] events[m]),
        LayoutView::after(events, i, max_width).in_table,
    ensures
        ({
            let before = LayoutView::after(events, i, max_width);
            let now = LayoutView::after(events, k, max_width);
            &&& now.cell == texts_between(events, i + 1, k)
            &&& now.row == before.row
            &&& now.rows == before.rows
            &&& now.blocks == before.blocks
            &&& now.in_table
        }),
    decreases k,
{
    if k == i + 1 {
        assert(LayoutView::after(events, k, max_width).cell =~= texts_between(events, i + 1, k));
    } else {
        lemma_cell_grows(events, i, k - 1, max_width);
        assert(is_inline(events[k - 1]));
        assert(LayoutView::after(events, k, max_width).cell =~= texts_between(events, i + 1, k));
    }
}

/// A row holds its cells in their order, and a table its rows: each cell that ends is put
/// behind those of the row, and each row that ends behind those of the table, which begins
/// without any.
pub proof fn law_table_gathers_its_rows(st: LayoutView, aligns: Seq<Align>, max_width: Option<usize>)
    ensures
        ({
            let begun = st.step(EventView::Start(PartView::Table(aligns)), max_width);
            &&& begun.in_table
            &&& begun.rows == Seq::<RowView>::empty()
            &&& begun.aligns == aligns
            &&& begun.blocks == st.blocks
        }),
        st.step(EventView::Start(PartView::TableRow), max_width).row == Seq::<Seq<char>>::empty(),
        st.step(EventView::Start(PartView::TableHead), max_width).row == Seq::<Seq<char>>::empty(),
        st.step(EventView::End(PartEnd::TableCell), max_width).row == st.row.push(st.cell),
        st.step(EventView::End(PartEnd::TableRow), max_width).rows == st.rows.push(
            RowView { cells: st.row, is_head: false },
        ),
        st.step(EventView::End(PartEnd::TableHead), max_width).rows == st.rows.push(
            RowView { cells: st.row, is_head: true },
        ),
        ({
            let shown = table(st.rows, st.aligns, max_width);
            let ended = st.step(EventView::End(PartEnd::Table), max_width);
            &&& !ended.in_table
            &&& ended.blocks.len() == st.blocks.len() + shown.len()
            &&& forall|k: int|
                0 <= k < st.blocks.len() ==> #[trigger] ended.blocks[k] == st.blocks[k]
            &&& forall|k: int|
                st.blocks.len() <= k < ended.blocks.len() ==> #[trigger] ended.blocks[k]
                    == BlockView::Line(shown[k - st.blocks.len()])
        }),
{
}

/// Outside of tables and code blocks all text of a line is shown in it: between two places
/// with nothing but text, code and emphasis the line gains their texts, one after the other,
/// and no line is ended.
pub proof fn law_line_shows_all_its_text(
    events: Seq<EventView>,
    i: int,
    j: int,
    max_width: Option<usize>,
)
    requires
        0 <= i <= j <= events.len(),
        forall|k: int| i <= k < j ==> is_inline(#[trigger] events[k]),
        ({
            let before = LayoutView::after(events, i, max_width);
            &&& !before.in_table
            &&& before.lists.len() == 0
            &&& forall|k: int|
                0 <= k < before.parts.len() ==> !((#[trigger] before.parts[k]) is CodeBlock)
        }),
    ensures
        ({
            let before = LayoutView::after(events, i, max_width);
            let now = LayoutView::after(events, j, max_width);
            &&& line_text(now.spans) == line_text(before.spans) + texts_between(events, i, j)
            &&& before.spans.is_prefix_of(now.spans)
            &&& now.blocks == before.blocks
            &&& !now.in_table
            &&& now.lists.len() == 0
            &&& now.in_code == before.in_code
        }),
{
    lemma_line_grows(events, i, j, max_width);
}

proof fn lemma_line_grows(events: Seq<EventView>, i: int, j: int, max_width: Option<usize>)
    requires
        0 <= i <= j <= events.len(),
        forall|k: int| i <= k < j ==> is_inline(#[trigger] events[k]),
        ({
            let before = LayoutView::after(events, i, max_width);
            &&& !before.in_table
            &&& before.lists.len() == 0
            &&& forall|k: int|
                0 <= k < before.parts.len() ==> !((#[trigger] before.parts[k]) is CodeBlock)
        }),
    ensures
        ({
            let before = LayoutView::after(events, i, max_width);
            let now = LayoutView::after(events, j, max_width);
            &&& line_text(now.spans) == line_text(before.spans) + texts_between(events, i, j)
            &&& before.spans.is_prefix_of(now.spans)
            &&& now.blocks == before.blocks
            &&& !now.in_table
            &&& now.lists.len() == 0
            &&& now.in_code == before.in_code
            &&& forall|k: int|
                0 <= k < now.parts.len() ==> !((#[trigger] now.parts[k]) is CodeBlock)
        }),
    decreases j - i,
{
    let before = LayoutView::after(events, i, max_width);
    if i == j {
        assert(line_text(before.spans) + texts_between(events, i, j) =~= line_text(before.spans));
    } else {
        lemma_line_grows(events, i, j - 1, max_width);
        let last = LayoutView::after(events, j - 1, max_width);
        let now = LayoutView::after(events, j, max_width);
        assert(is_inline(events[j - 1]));
        if last.parts.len() > 0 {
            assert(!(last.parts[last.parts.len() - 1] is CodeBlock));
        }
        if now.spans != last.spans {
            assert(now.spans.drop_last() =~= last.spans);
        }
        assert(line_text(now.spans) =~= line_text(before.spans) + texts_between(events, i, j));
        assert forall|k: int| 0 <= k < now.parts.len() implies !((
        #[trigger] now.parts[k]) is CodeBlock) by {
            if k < last.parts.len() {
                assert(now.parts[k] == last.parts[k]);
            }
        }
    }
}

/// A paragraph or a heading is one line, however many texts it is made of, and an empty line
/// follows it.
pub proof fn law_paragraph_is_a_line(
    events: Seq<EventView>,
    i: int,
    j: int,
    max_width: Option<usize>,
)
    requires
        0 <= i < j < events.len(),
        events[i] == EventView::Start(PartView::Other) || events[i] matches EventView::Start(
            PartView::Heading(_),
        ),
        events[j] == EventView::End(PartEnd::Paragraph) || events[j] == EventView::End(
            PartEnd::Heading,
        ),
        forall|k: int| i < k < j ==> is_inline(#[trigger] events[k]),
        texts_between(events, i + 1, j).len() > 0,
        ({
            let before = LayoutView::after(events, i, max_width);
            &&& !before.in_table
            &&& before.lists.len() == 0
            &&& before.spans.len() == 0
            &&& forall|k: int|
                0 <= k < before.parts.len() ==> !((#[trigger] before.parts[k]) is CodeBlock)
        }),
    ensures
        ({
            let before = LayoutView::after(events, i, max_width);
            let after = LayoutView::after(events, j + 1, max_width);
            &&& after.spans.len() == 0
            &&& after.blocks.len() == before.blocks.len() + 2
            &&& before.blocks.is_prefix_of(after.blocks)
            &&& after.blocks[before.blocks.len() as int] matches BlockView::Line(line)
                && line_text(line) == texts_between(events, i + 1, j)
            &&& after.blocks[before.blocks.len() as int + 1] == BlockView::Line(Seq::empty())
        }),
{
    let before = LayoutView::after(events, i, max_width);
    let begun = LayoutView::after(events, i + 1, max_width);
    assert forall|k: int| 0 <= k < begun.parts.len() implies !((
    #[trigger] begun.parts[k]) is CodeBlock) by {
        if k < before.parts.len() {
            assert(begun.parts[k] == before.parts[k]);
        }
    }
    lemma_line_grows(events, i + 1, j, max_width);
    let now = LayoutView::after(events, j, max_width);
    assert(line_text(begun.spans) =~= Seq::empty());
    assert(line_text(now.spans) =~= texts_between(events, i + 1, j));
    if now.spans.len() == 0 {
        assert(line_text(now.spans).len() == 0);
    }
}

/// Text has the style of the part that it stands directly in, and code one of its own.
pub proof fn law_text_has_the_style_of_its_part(
    st: LayoutView,
    part: PartView,
    text: Seq<char>,
    max_width: Option<usize>,
)
    requires
        !st.in_table,
        !st.in_code,
        st.lists.len() == 0,
        !(part is CodeBlock || part is List || part is Item || part is Table || part is TableHead
            || part is TableRow || part is TableCell),
    ensures
        ({
            let shown = st.step(EventView::Start(part), max_width).step(
                EventView::Text(text),
                max_width,
            );
            let style = shown.spans.last().style;
            &&& shown.spans.last().content == text
            &&& shown.spans.len() == st.spans.len() + 1
            &&& part matches PartView::Heading(level) ==> style == (Style {
                role: Role::Heading(level),
                modifier: Modifier::Regular,
            })
            &&& part is Emphasis ==> style == (Style {
                role: Role::Text,
                modifier: Modifier::Italic,
            })
            &&& part is Strong ==> style == (Style { role: Role::Text, modifier: Modifier::Bold })
            &&& part is Strikethrough ==> style == (Style {
                role: Role::Text,
                modifier: Modifier::CrossedOut,
            })
            &&& part is Other ==> style == (Style {
                role: Role::Text,
                modifier: Modifier::Regular,
            })
            &&& st.step(EventView::Code(text), max_width).spans.last() == (SpanView {
                content: text,
                style: Style { role: Role::Code, modifier: Modifier::Regular },
                highlights: Seq::empty(),
            })
        }),
{
}

/// A code block is shown with all its text, under the language that it names, and an empty
/// line follows it.
pub proof fn law_code_block_keeps_its_text(
    st: LayoutView,
    language: Option<Seq<char>>,
    text: Seq<char>,
    max_width: Option<usize>,
)
    requires
        !st.in_table,
        !st.in_code,
        st.lists.len() == 0,
        st.spans.len() == 0,
    ensures
        ({
            let shown = st.step(
                EventView::Start(PartView::CodeBlock(language)),
                max_width,
            ).step(EventView::Text(text), max_width).step(
                EventView::End(PartEnd::CodeBlock),
                max_width,
            );
            let named = match language {
                Some(language) => language,
                None => Seq::empty(),
            };
            &&& shown.blocks == st.blocks + seq![
                BlockView::Code { language: named, text },
                BlockView::Line(Seq::empty()),
            ]
            &&& shown.parts == st.parts
            &&& shown.spans == st.spans
        }),
{
    let begun = st.step(EventView::Start(PartView::CodeBlock(language)), max_width);
    let shown = begun.step(EventView::Text(text), max_width).step(
        EventView::End(PartEnd::CodeBlock),
        max_width,
    );
    assert(shown.parts =~= st.parts);
    let named = match language {
        Some(language) => language,
        None => Seq::empty(),
    };
    assert(shown.blocks =~= st.blocks + seq![
        BlockView::Code { language: named, text },
        BlockView::Line(Seq::empty()),
    ]);
}

/// A line break ends the line that has been begun.
pub proof fn law_break_ends_the_line(st: LayoutView, max_width: Option<usize>)
    requires
        st.lists.len() == 0,
        st.spans.len() > 0,
    ensures
        ({
            let soft = st.step(EventView::SoftBreak, max_width);
            let hard = st.step(EventView::HardBreak, max_width);
            &&& soft == hard
            &&& soft.spans.len() == 0
            &&& soft.blocks == st.blocks.push(BlockView::Line(st.spans))
        }),
{
}

/// The items of a numbered list count up from its number, and those of other lists have a
/// bullet. Each list around them moves them in by two columns.
pub proof fn law_items_are_numbered_in_order(
    st: LayoutView,
    number: u64,
    max_width: Option<usize>,
)
    requires
        number < u64::MAX,
        st.spans.len() == 0,
    ensures
        ({
            let listed = st.step(EventView::Start(PartView::List(Some(number))), max_width);
            let first = listed.step(EventView::Start(PartView::Item), max_width);
            let again = first.step(EventView::End(PartEnd::Item), max_width);
            let second = again.step(EventView::Start(PartView::Item), max_width);
            let depth = 2 * st.lists.len();
            &&& listed.blocks == st.blocks
            &&& first.spans.len() == 1
            &&& first.spans[0].content == Seq::new(depth, |k: int| ' ') + decimal(number as nat)
                + ". "@
            &&& first.spans[0].style.role == Role::NumberedList
            &&& again.blocks == st.blocks.push(BlockView::Line(first.spans))
            &&& second.spans[0].content == Seq::new(depth, |k: int| ' ') + decimal(
                (number + 1) as nat,
            ) + ". "@
        }),
        ({
            let listed = st.step(EventView::Start(PartView::List(None)), max_width);
            let first = listed.step(EventView::Start(PartView::Item), max_width);
            &&& first.spans.len() == 1
            &&& first.spans[0].content == Seq::new(2 * st.lists.len(), |k: int| ' ') + "• "@
            &&& first.spans[0].style.role == Role::UnnumberedList
            &&& first.step(EventView::End(PartEnd::Item), max_width).lists == listed.lists
        }),
{
    let depth = 2 * st.lists.len();
    let spaces = Seq::new(depth, |k: int| ' ');
    let listed = st.step(EventView::Start(PartView::List(Some(number))), max_width);
    assert(listed.lists.len() == st.lists.len() + 1);
    assert(indent(listed.lists.len()) =~= spaces);
    let first = listed.step(EventView::Start(PartView::Item), max_width);
    assert(first.spans[0].content =~= spaces + decimal(number as nat) + ". "@);
    let again = first.step(EventView::End(PartEnd::Item), max_width);
    let second = again.step(EventView::Start(PartView::Item), max_width);
    assert(again.lists.last() == Some((number + 1) as u64));
    assert(second.spans[0].content =~= spaces + decimal((number + 1) as nat) + ". "@);
    let other = st.step(EventView::Start(PartView::List(None)), max_width);
    assert(indent(other.lists.len()) =~= spaces);
    let bulleted = other.step(EventView::Start(PartView::Item), max_width);
    assert(bulleted.spans[0].content =~= spaces + "• "@);
}

/// A list that ends gives back the one around it; behind the outermost one an empty line
/// follows.
pub proof fn law_list_ends_where_it_began(
    st: LayoutView,
    number: Option<u64>,
    max_width: Option<usize>,
)
    requires
        st.spans.len() == 0,
    ensures
        ({
            let ended = st.step(EventView::Start(PartView::List(number)), max_width).step(
                EventView::End(PartEnd::List),
                max_width,
            );
            &&& ended.lists == st.lists
            &&& ended.blocks == if st.lists.len() == 0 {
                st.blocks.push(BlockView::Line(Seq::empty()))
            } else {
                st.blocks
            }
        }),
{
    let ended = st.step(EventView::Start(PartView::List(number)), max_width).step(
        EventView::End(PartEnd::List),
        max_width,
    );
    assert(ended.lists =~= st.lists);
}

/// The lines of a text are its blocks in their order: a line as it is, and a code block
/// with its lines. An empty line at the end is left out.
pub proof fn law_blocks_are_shown_in_order(
    blocks: Seq<BlockView>,
    block: BlockView,
    highlights: Seq<Option<CodeHighlightsView>>,
)
    ensures
        expanded(Seq::empty(), highlights, 0) == Seq::<Seq<SpanView>>::empty(),
        expanded(blocks.push(block), highlights, blocks.len() as int + 1) == expanded(
            blocks,
            highlights,
            blocks.len() as int,
        ) + match block {
            BlockView::Line(line) => seq![line],
            BlockView::Code { language, text } => code_block(
                text,
                if code_count(blocks, blocks.len() as int) < highlights.len() {
                    highlights[code_count(blocks, blocks.len() as int) as int]
                } else {
                    None
                },
            ),
        },
        ({
            let all = expanded(blocks, highlights, blocks.len() as int);
            shown_lines(blocks, highlights) == if all.len() > 0 && all[all.len() - 1].len() == 0 {
                all.take(all.len() - 1)
            } else {
                all
            }
        }),
{
    let more = blocks.push(block);
    let n = blocks.len() as int;
    lemma_expanded_prefix(blocks, more, highlights, n);
    let all = expanded(blocks, highlights, n);
    if block is Line {
        assert(expanded(more, highlights, n + 1) =~= all + seq![block->Line_0]);
    }
    assert(all.len() > 0 ==> all.drop_last() =~= all.take(all.len() - 1));
}

proof fn lemma_expanded_prefix(
    a: Seq<BlockView>,
    b: Seq<BlockView>,
    highlights: Seq<Option<CodeHighlightsView>>,
    n: int,
)
    requires
        n <= a.len() <= b.len(),
        forall|i: int| 0 <= i < n ==> a[i] == b[i],
    ensures
        expanded(a, highlights, n) == expanded(b, highlights, n),
        code_count(a, n) == code_count(b, n),
    decreases n,
{
    if n > 0 {
        lemma_expanded_prefix(a, b, highlights, n - 1);
    }
}

/// Text stands on the line where it comes, in a list too; code within a line does so in the
/// style of code.
pub proof fn law_text_stands_on_the_line(st: LayoutView, text: Seq<char>, max_width: Option<usize>)
    requires
        !st.in_table,
        st.parts.len() == 0 || !(st.parts.last() is CodeBlock),
    ensures
        ({
            let shown = st.step(EventView::Text(text), max_width);
            &&& shown.spans.len() == st.spans.len() + 1
            &&& shown.spans.drop_last() == st.spans
            &&& shown.spans.last().content == text
            &&& st.in_code ==> shown.spans.last().style.role == Role::Code
            &&& shown.blocks == st.blocks && shown.lists == st.lists && shown.parts == st.parts
        }),
        ({
            let shown = st.step(EventView::Code(text), max_width);
            &&& shown.spans.drop_last() == st.spans
            &&& shown.spans.last().content == text
            &&& shown.spans.last().style.role == Role::Code
            &&& shown.blocks == st.blocks
        }),
{
    assert(st.step(EventView::Text(text), max_width).spans.drop_last() =~= st.spans);
    assert(st.step(EventView::Code(text), max_width).spans.drop_last() =~= st.spans);
}

/// Between the tags for code text is shown as code; the tags themselves are not shown, and
/// all other tags are.
pub proof fn law_tags_for_code_are_heeded(st: LayoutView, html: Seq<char>, max_width: Option<usize>)
    requires
        !st.in_table,
    ensures
        st.step(EventView::Html("<code>"@), max_width) == (LayoutView { in_code: true, ..st }),
        st.step(EventView::Html("</code>"@), max_width) == (LayoutView { in_code: false, ..st }),
        html.len() < 6 ==> {
            let shown = st.step(EventView::Html(html), max_width);
            &&& shown.spans.last().content == html
            &&& shown.spans.len() == st.spans.len() + 1
            &&& shown.in_code == st.in_code
        },
{
    reveal_strlit("<code>");
    reveal_strlit("<code");
    reveal_strlit("</code>");
    assert("<code>"@.subrange(0, 5) =~= "<code"@);
    let end = "</code>"@;
    assert(end.subrange(0, 5)[1] == '/');
    assert("<code"@[1] == 'c');
}

/// A rule is a line of its own, with an empty line below it.
pub proof fn law_rule_is_a_line(st: LayoutView, max_width: Option<usize>)
    ensures
        ({
            let shown = st.step(EventView::Rule, max_width);
            let n = st.blocks.len() as int;
            &&& shown.blocks.len() == n + 2
            &&& shown.blocks.take(n) == st.blocks
            &&& shown.blocks[n] matches BlockView::Line(line) && line.len() == 1 && line[0].content
                == "───"@ && line[0].style.role == Role::Rule
            &&& shown.blocks[n + 1] == BlockView::Line(Seq::empty())
            &&& shown.spans == st.spans
        }),
{
    let shown = st.step(EventView::Rule, max_width);
    assert(shown.blocks.take(st.blocks.len() as int) =~= st.blocks);
}

/// In a list a line that goes on begins with the indent of the list: two columns for each
/// list around it. So does a paragraph on a new line.
pub proof fn law_lines_of_a_list_are_indented(
    st: LayoutView,
    max_width: Option<usize>,
)
    requires
        st.lists.len() > 0,
    ensures
        ({
            let broken = st.step(EventView::SoftBreak, max_width);
            &&& broken.spans.len() == 1
            &&& broken.spans[0].content == Seq::new((2 * (st.lists.len() - 1)) as nat, |k: int| ' ')
            &&& st.spans.len() > 0 ==> broken.blocks == st.blocks.push(BlockView::Line(st.spans))
            &&& st.spans.len() == 0 ==> broken.blocks == st.blocks
            &&& st.step(EventView::HardBreak, max_width) == broken
        }),
        ({
            let begun = st.step(EventView::Start(PartView::Other), max_width);
            &&& st.spans.len() > 0 ==> begun.spans == st.spans
            &&& st.spans.len() == 0 ==> begun.spans.len() == 1 && begun.spans[0].content == Seq::new(
                (2 * (st.lists.len() - 1)) as nat,
                |k: int| ' ',
            )
            &&& begun.blocks == st.blocks
        }),
{
    let depth = (2 * (st.lists.len() - 1)) as nat;
    assert(indent(st.lists.len()) =~= Seq::new(depth, |k: int| ' '));
}

/// A list within another one begins on a line of its own, and an item ends its line.
pub proof fn law_nested_list_begins_a_line(
    st: LayoutView,
    number: Option<u64>,
    max_width: Option<usize>,
)
    requires
        st.lists.len() > 0,
        st.spans.len() > 0,
    ensures
        ({
            let begun = st.step(EventView::Start(PartView::List(number)), max_width);
            &&& begun.spans.len() == 0
            &&& begun.blocks == st.blocks.push(BlockView::Line(st.spans))
            &&& begun.lists == st.lists.push(number)
        }),
        ({
            let ended = st.step(EventView::End(PartEnd::Item), max_width);
            &&& ended.spans.len() == 0
            &&& ended.blocks == st.blocks.push(BlockView::Line(st.spans))
            &&& ended.lists == st.lists
        }),
{
}

/// The highlights of a code block are those at its place among the code blocks alone.
pub proof fn law_code_blocks_are_counted(blocks: Seq<BlockView>, n: int)
    requires
        0 <= n <= blocks.len(),
    ensures
        code_count(blocks, n) == blocks.take(n).filter(|x: BlockView| x is Code).len(),
    decreases n,
{
    reveal(Seq::filter);
    if n > 0 {
        law_code_blocks_are_counted(blocks, n - 1);
        assert(blocks.take(n).drop_last() =~= blocks.take(n - 1));
    }
}

} // verus!
