//! The lines that show the conversation with an agent.

use vstd::prelude::*;

use vstd::math::{max, min};

use crate::acp::client::DisplayLine;
use crate::text::{lines, lines_of, repeat, repeated, same, views};
use crate::ui::markdown::events::events_of;
use crate::ui::markdown::code::{CodeHighlights, CodeHighlightsView};
use crate::ui::markdown::{all_fit, all_highlights, layout, shown_lines, BlockView, Markdown};
use crate::ui::spans::{copied_ids, line_view, lines_view, Role, Span, SpanView, Style};
use crate::unicode::{columns, width_of};

verus! {

/// What gives a span its colors.
#[derive(Clone, Copy, Debug, PartialEq, Eq, Structural)]
pub enum Paint {
    /// Its own style.
    Own,
    /// Its own style, dim and italic.
    Faint,
    /// The mark of a tool that is running: yellow and bold.
    Running,
    /// The mark of a tool that has succeeded: green and bold.
    Succeeded,
    /// The mark of a tool that has failed: red and bold.
    Failed,
    /// The style of information, bold.
    Tool,
    /// The style of information, dim.
    Done,
    /// The style of information.
    Info,
    /// The style of information, dim and italic.
    Thought,
    /// The style of text, bold.
    User,
}

/// A run of text in a line of the panel.
#[derive(Debug)]
pub struct AgentSpan {
    pub span: Span,
    pub paint: Paint,
}

/// What a run of text is.
pub ghost struct AgentSpanView {
    pub span: SpanView,
    pub paint: Paint,
}

impl View for AgentSpan {
    type V = AgentSpanView;

    open spec fn view(&self) -> AgentSpanView {
        AgentSpanView { span: self.span@, paint: self.paint }
    }
}

pub open spec fn agent_line(line: Seq<AgentSpan>) -> Seq<AgentSpanView> {
    Seq::new(line.len(), |i: int| line[i]@)
}

pub open spec fn agent_lines(all: Seq<Vec<AgentSpan>>) -> Seq<Seq<AgentSpanView>> {
    Seq::new(all.len(), |i: int| agent_line(all[i]@))
}

/// A run of text that has no style of its own.
pub open spec fn run(content: Seq<char>, paint: Paint) -> AgentSpanView {
    AgentSpanView {
        span: SpanView { content, style: Style::of(Role::Plain), highlights: Seq::empty() },
        paint,
    }
}

pub open spec fn painted_line(line: Seq<SpanView>, paint: Paint) -> Seq<AgentSpanView> {
    Seq::new(line.len(), |i: int| AgentSpanView { span: line[i], paint })
}

pub open spec fn painted(all: Seq<Seq<SpanView>>, paint: Paint) -> Seq<Seq<AgentSpanView>> {
    Seq::new(all.len(), |i: int| painted_line(all[i], paint))
}

/// A tool's name, with its input in brackets where it has any.
pub open spec fn tool_label(name: Seq<char>, input: Seq<char>) -> Seq<char> {
    if input.len() == 0 {
        name
    } else {
        name + seq!['('] + input + seq![')']
    }
}

/// The line that stands for a tool.
pub open spec fn tool_line(bullet: Paint, label: Seq<char>, paint: Paint) -> Seq<AgentSpanView> {
    seq![run("● "@, bullet), run(label, paint)]
}

/// The lines, each behind `first` or, from the second on, behind `rest`.
pub open spec fn prefixed(
    all: Seq<Seq<char>>,
    first: Seq<char>,
    rest: Seq<char>,
    paint: Paint,
) -> Seq<Seq<AgentSpanView>> {
    Seq::new(
        all.len(),
        |i: int|
            seq![
                run(
                    (if i == 0 {
                        first
                    } else {
                        rest
                    }) + all[i],
                    paint,
                ),
            ],
    )
}

/// The tool has done what it was asked to.
pub open spec fn is_success(status: Seq<char>) -> bool {
    status == "done"@ || status == "completed"@
}

/// The lines of an entry, where `markdown` is what its text is laid out to.
pub open spec fn entry_lines(entry: DisplayLine, markdown: Seq<Seq<SpanView>>) -> Seq<
    Seq<AgentSpanView>,
> {
    match entry {
        DisplayLine::Text(_) => painted(markdown, Paint::Own),
        DisplayLine::Thought(_) => painted(markdown, Paint::Faint),
        DisplayLine::ToolCall { name, input } => seq![
            tool_line(Paint::Running, tool_label(name@, input@), Paint::Tool),
        ],
        DisplayLine::ToolDone { name, input, status, output } => {
            let bullet = if is_success(status@) {
                Paint::Succeeded
            } else {
                Paint::Failed
            };
            seq![tool_line(bullet, tool_label(name@, input@), Paint::Done)] + if output@.len() == 0 {
                seq![seq![run("  ⎿  Done"@, Paint::Thought)]]
            } else {
                prefixed(views(output@), "  ⎿  "@, "     "@, Paint::Thought)
            }
        },
        DisplayLine::PlanStep { done, description } => seq![
            seq![
                run(
                    (if done {
                        "[x] "@
                    } else {
                        "[-] "@
                    }) + description@,
                    if done {
                        Paint::Done
                    } else {
                        Paint::Info
                    },
                ),
            ],
        ],
        DisplayLine::UserMessage(text) => prefixed(
            lines(text@),
            "You: "@,
            "     "@,
            Paint::User,
        ),
        DisplayLine::Separator => seq![seq![run(repeat('─', 40), Paint::Thought)]],
    }
}

/// The lines and the code blocks that the text of an entry is laid out to.
pub open spec fn entry_blocks(entry: DisplayLine) -> Seq<BlockView> {
    match entry {
        DisplayLine::Text(text) => layout(events_of(text@), None),
        DisplayLine::Thought(text) => layout(events_of(text@), None),
        _ => Seq::empty(),
    }
}

/// The lines that the text of an entry is laid out to, where `highlights` holds those of
/// its code blocks in order.
pub open spec fn rich_markdown(
    entry: DisplayLine,
    highlights: Seq<Option<CodeHighlightsView>>,
) -> Seq<Seq<SpanView>> {
    shown_lines(entry_blocks(entry), highlights)
}

/// The Markdown that the text of an entry is laid out to, without highlighting.
pub fn markdown_of(entry: &DisplayLine) -> (out: Vec<Vec<Span>>)
    ensures
        lines_view(out@) == rich_markdown(*entry, Seq::empty()),
{
    match entry {
        DisplayLine::Text(text) => Markdown::new(text.clone()).parse(),
        DisplayLine::Thought(text) => Markdown::new(text.clone()).parse(),
        _ => {
            let out: Vec<Vec<Span>> = Vec::new();
            assert(lines_view(out@) =~= Seq::empty());
            out
        },
    }
}

/// The Markdown that the text of an entry is laid out to, where `highlights` holds those
/// of its code blocks in order. `None` where they do not fit the text.
pub fn highlighted_markdown_of(
    entry: &DisplayLine,
    highlights: &Vec<Option<CodeHighlights>>,
) -> (out: Option<Vec<Vec<Span>>>)
    ensures
        ({
            let given = all_highlights(highlights@);
            match out {
                Some(out) => all_fit(entry_blocks(*entry), given) && lines_view(out@)
                    == rich_markdown(*entry, given),
                None => !all_fit(entry_blocks(*entry), given),
            }
        }),
{
    match entry {
        DisplayLine::Text(text) => Markdown::new(text.clone()).parse_highlighted(highlights),
        DisplayLine::Thought(text) => Markdown::new(text.clone()).parse_highlighted(highlights),
        _ => {
            let out: Vec<Vec<Span>> = Vec::new();
            assert(lines_view(out@) =~= Seq::empty());
            Some(out)
        },
    }
}

fn styled(content: String, paint: Paint) -> (span: AgentSpan)
    ensures
        span@ == run(content@, paint),
{
    let span = AgentSpan { span: Span::styled(content, Style::new(Role::Plain)), paint };
    assert(span@.span.highlights =~= Seq::empty());
    span
}

pub fn one(content: String, paint: Paint) -> (line: Vec<AgentSpan>)
    ensures
        agent_line(line@) == seq![run(content@, paint)],
{
    let mut line: Vec<AgentSpan> = Vec::new();
    line.push(styled(content, paint));
    assert(agent_line(line@) =~= seq![run(content@, paint)]);
    line
}

fn paint_line(line: &Vec<Span>, paint: Paint) -> (out: Vec<AgentSpan>)
    ensures
        agent_line(out@) == painted_line(line_view(line@), paint),
{
    let mut out: Vec<AgentSpan> = Vec::new();
    let mut i: usize = 0;
    while i < line.len()
        invariant
            i <= line.len(),
            out@.len() == i,
            forall|k: int|
                0 <= k < i ==> (#[trigger] out@[k])@ == (AgentSpanView { span: line@[k]@, paint }),
        decreases line.len() - i,
    {
        let span = &line[i];
        out.push(
            AgentSpan {
                span: Span {
                    content: span.content.clone(),
                    style: span.style,
                    highlights: copied_ids(&span.highlights),
                },
                paint,
            },
        );
        i += 1;
    }
    assert(agent_line(out@) =~= painted_line(line_view(line@), paint));
    out
}

fn paint_lines(all: &Vec<Vec<Span>>, paint: Paint) -> (out: Vec<Vec<AgentSpan>>)
    ensures
        agent_lines(out@) == painted(lines_view(all@), paint),
{
    let mut out: Vec<Vec<AgentSpan>> = Vec::new();
    let mut i: usize = 0;
    while i < all.len()
        invariant
            i <= all.len(),
            out@.len() == i,
            forall|k: int|
                0 <= k < i ==> agent_line((#[trigger] out@[k])@) == painted_line(
                    line_view(all@[k]@),
                    paint,
                ),
        decreases all.len() - i,
    {
        out.push(paint_line(&all[i], paint));
        i += 1;
    }
    assert(agent_lines(out@) =~= painted(lines_view(all@), paint));
    out
}

fn label_of(name: &str, input: &str) -> (label: String)
    ensures
        label@ == tool_label(name@, input@),
{
    let mut label = name.to_string();
    if !input.is_empty() {
        label.push('(');
        label.append(input);
        label.push(')');
    }
    assert(label@ =~= tool_label(name@, input@));
    label
}

fn tool(bullet: Paint, name: &str, input: &str, paint: Paint) -> (line: Vec<AgentSpan>)
    ensures
        agent_line(line@) == tool_line(bullet, tool_label(name@, input@), paint),
{
    let mut line: Vec<AgentSpan> = Vec::new();
    line.push(styled("● ".to_string(), bullet));
    line.push(styled(label_of(name, input), paint));
    assert(agent_line(line@) =~= tool_line(bullet, tool_label(name@, input@), paint));
    line
}

fn push_prefixed(
    out: &mut Vec<Vec<AgentSpan>>,
    all: &Vec<String>,
    first: &str,
    rest: &str,
    paint: Paint,
)
    ensures
        agent_lines(final(out)@) == agent_lines(old(out)@) + prefixed(
            views(all@),
            first@,
            rest@,
            paint,
        ),
{
    let ghost start = agent_lines(out@);
    let ghost added = prefixed(views(all@), first@, rest@, paint);
    let mut i: usize = 0;
    assert(start =~= start + added.take(0));
    while i < all.len()
        invariant
            i <= all.len(),
            added == prefixed(views(all@), first@, rest@, paint),
            agent_lines(out@) == start + added.take(i as int),
        decreases all.len() - i,
    {
        let mut text = if i == 0 {
            first.to_string()
        } else {
            rest.to_string()
        };
        text.append(all[i].as_str());
        let ghost before = out@;
        out.push(one(text, paint));
        assert(agent_lines(out@) =~= agent_lines(before).push(agent_line(out@.last()@)));
        assert(agent_line(out@.last()@) == added[i as int]);
        assert(added.take(i + 1) =~= added.take(i as int).push(added[i as int]));
        assert(agent_lines(out@) =~= start + added.take(i + 1));
        i += 1;
    }
    assert(added.len() == all@.len());
    assert(added.take(added.len() as int) =~= added);
}

fn lone(line: Vec<AgentSpan>) -> (out: Vec<Vec<AgentSpan>>)
    ensures
        agent_lines(out@) == seq![agent_line(line@)],
{
    let mut out: Vec<Vec<AgentSpan>> = Vec::new();
    out.push(line);
    assert(agent_lines(out@) =~= seq![agent_line(line@)]);
    out
}

/// The lines of an entry, where `markdown` is what its text is laid out to.
pub fn lines_of_entry(entry: &DisplayLine, markdown: &Vec<Vec<Span>>) -> (out: Vec<Vec<AgentSpan>>)
    ensures
        agent_lines(out@) == entry_lines(*entry, lines_view(markdown@)),
{
    match entry {
        DisplayLine::Text(_) => paint_lines(markdown, Paint::Own),
        DisplayLine::Thought(_) => paint_lines(markdown, Paint::Faint),
        DisplayLine::ToolCall { name, input } => {
            lone(tool(Paint::Running, name.as_str(), input.as_str(), Paint::Tool))
        },
        DisplayLine::ToolDone { name, input, status, output } => {
            let success = same(status.as_str(), "done") || same(status.as_str(), "completed");
            let bullet = if success {
                Paint::Succeeded
            } else {
                Paint::Failed
            };
            let mut out = lone(tool(bullet, name.as_str(), input.as_str(), Paint::Done));
            let ghost head = agent_lines(out@);
            // Show ALL output lines: first gets "  ⎿  ", rest get "     ".
            if output.len() == 0 {
                out.push(one("  ⎿  Done".to_string(), Paint::Thought));
                assert(agent_lines(out@) =~= head + seq![seq![run("  ⎿  Done"@, Paint::Thought)]]);
            } else {
                push_prefixed(&mut out, output, "  ⎿  ", "     ", Paint::Thought);
            }
            out
        },
        DisplayLine::PlanStep { done, description } => {
            let mut text = if *done {
                "[x] ".to_string()
            } else {
                "[-] ".to_string()
            };
            text.append(description.as_str());
            lone(
                one(
                    text,
                    if *done {
                        Paint::Done
                    } else {
                        Paint::Info
                    },
                ),
            )
        },
        DisplayLine::UserMessage(text) => {
            let mut out: Vec<Vec<AgentSpan>> = Vec::new();
            let all = lines_of(text.as_str());
            assert(agent_lines(out@) =~= Seq::empty());
            push_prefixed(&mut out, &all, "You: ", "     ", Paint::User);
            assert(agent_lines(out@) =~= prefixed(lines(text@), "You: "@, "     "@, Paint::User));
            out
        },
        DisplayLine::Separator => lone(one(repeated('─', 40), Paint::Thought)),
    }
}

/// What the texts of the entries are laid out to.
pub open spec fn markdown_view(markdown: Seq<Vec<Vec<Span>>>) -> Seq<Seq<Seq<SpanView>>> {
    Seq::new(markdown.len(), |i: int| lines_view(markdown[i]@))
}

/// The highlights of entry `i`; an entry beyond the end of the list has none.
pub open spec fn given_for(highlights: Seq<Vec<Option<CodeHighlights>>>, i: int) -> Seq<
    Option<CodeHighlightsView>,
> {
    if i < highlights.len() {
        all_highlights(highlights[i]@)
    } else {
        Seq::empty()
    }
}

/// The highlights of each entry fit its text.
pub open spec fn entries_fit(
    display: Seq<DisplayLine>,
    highlights: Seq<Vec<Option<CodeHighlights>>>,
) -> bool {
    forall|i: int|
        0 <= i < display.len() ==> all_fit(
            entry_blocks(#[trigger] display[i]),
            given_for(highlights, i),
        )
}

/// What the texts of the entries are laid out to, each with its highlights.
pub open spec fn laid_out(
    display: Seq<DisplayLine>,
    highlights: Seq<Vec<Option<CodeHighlights>>>,
) -> Seq<Seq<Seq<SpanView>>> {
    Seq::new(display.len(), |i: int| rich_markdown(display[i], given_for(highlights, i)))
}

/// What the texts of the entries are laid out to, where `highlights` holds for each entry
/// those of its code blocks. `None` where they do not fit the texts.
pub fn lay_out(display: &Vec<DisplayLine>, highlights: &Vec<Vec<Option<CodeHighlights>>>) -> (out:
    Option<Vec<Vec<Vec<Span>>>>)
    ensures
        match out {
            Some(out) => {
                &&& entries_fit(display@, highlights@)
                &&& out@.len() == display@.len()
                &&& markdown_view(out@) == laid_out(display@, highlights@)
            },
            None => !entries_fit(display@, highlights@),
        },
{
    let none: Vec<Option<CodeHighlights>> = Vec::new();
    assert(all_highlights(none@) =~= Seq::empty());
    let mut out: Vec<Vec<Vec<Span>>> = Vec::new();
    let mut i: usize = 0;
    while i < display.len()
        invariant
            i <= display.len(),
            out@.len() == i,
            all_highlights(none@) == Seq::<Option<CodeHighlightsView>>::empty(),
            forall|k: int|
                0 <= k < i ==> all_fit(
                    entry_blocks(#[trigger] display@[k]),
                    given_for(highlights@, k),
                ),
            forall|k: int|
                0 <= k < i ==> lines_view((#[trigger] out@[k])@) == rich_markdown(
                    display@[k],
                    given_for(highlights@, k),
                ),
        decreases display.len() - i,
    {
        let given = if i < highlights.len() {
            &highlights[i]
        } else {
            &none
        };
        assert(all_highlights(given@) == given_for(highlights@, i as int));
        match highlighted_markdown_of(&display[i], given) {
            Some(lines) => out.push(lines),
            None => {
                assert(!all_fit(entry_blocks(display@[i as int]), given_for(highlights@, i as int)));
                return None;
            },
        }
        i += 1;
    }
    assert(markdown_view(out@) =~= laid_out(display@, highlights@));
    Some(out)
}

/// The lines of the entries from `first` to below `n`.
pub open spec fn built(
    display: Seq<DisplayLine>,
    markdown: Seq<Seq<Seq<SpanView>>>,
    first: int,
    n: int,
) -> Seq<Seq<AgentSpanView>>
    decreases n - first,
{
    if n <= first {
        Seq::empty()
    } else {
        built(display, markdown, first, n - 1) + entry_lines(display[n - 1], markdown[n - 1])
    }
}

/// The lines of the entries from `first` to below `end`.
pub fn build_lines(
    display: &Vec<DisplayLine>,
    markdown: &Vec<Vec<Vec<Span>>>,
    first: usize,
    end: usize,
) -> (out: Vec<Vec<AgentSpan>>)
    requires
        end <= display@.len(),
        markdown@.len() == display@.len(),
    ensures
        agent_lines(out@) == built(
            display@,
            markdown_view(markdown@),
            first as int,
            end as int,
        ),
{
    let ghost laid_out = markdown_view(markdown@);
    let mut out: Vec<Vec<AgentSpan>> = Vec::new();
    assert(agent_lines(out@) =~= Seq::empty());
    let mut i: usize = first;
    while i < end
        invariant
            first <= i,
            first <= end ==> i <= end,
            first > end ==> i == first,
            end <= display@.len(),
            markdown@.len() == display@.len(),
            laid_out == markdown_view(markdown@),
            agent_lines(out@) == built(display@, laid_out, first as int, i as int),
        decreases end - i,
    {
        let ghost before = out@;
        let mut next = lines_of_entry(&display[i], &markdown[i]);
        let ghost added = next@;
        out.append(&mut next);
        assert(out@ =~= before + added);
        assert(agent_lines(out@) =~= agent_lines(before) + agent_lines(added));
        i += 1;
    }
    out
}

/// The lines of the entries from `first` to below `end`, where `highlights` holds for each
/// entry those of its code blocks. `None` where they do not fit the texts.
pub fn build_highlighted(
    display: &Vec<DisplayLine>,
    highlights: &Vec<Vec<Option<CodeHighlights>>>,
    first: usize,
    end: usize,
) -> (out: Option<Vec<Vec<AgentSpan>>>)
    requires
        end <= display@.len(),
    ensures
        match out {
            Some(out) => entries_fit(display@, highlights@) && agent_lines(out@) == built(
                display@,
                laid_out(display@, highlights@),
                first as int,
                end as int,
            ),
            None => !entries_fit(display@, highlights@),
        },
{
    match lay_out(display, highlights) {
        Some(markdown) => Some(build_lines(display, &markdown, first, end)),
        None => None,
    }
}

/// The columns of the first `n` runs of a line.
pub open spec fn run_columns(line: Seq<AgentSpanView>, n: int) -> nat
    decreases n,
{
    if n <= 0 {
        0
    } else {
        run_columns(line, n - 1) + columns(line[n - 1].span.content)
    }
}

/// The rows that a line takes in a panel `width` columns wide.
pub open spec fn line_height(line: Seq<AgentSpanView>, width: nat) -> nat {
    let wide = min(run_columns(line, line.len() as int) as int, usize::MAX as int);
    max((wide + width - 1) / width as int, 1) as nat
}

/// The rows of the first `n` lines.
pub open spec fn lines_height(all: Seq<Seq<AgentSpanView>>, n: int, width: nat) -> nat
    decreases n,
{
    if n <= 0 {
        0
    } else {
        lines_height(all, n - 1, width) + line_height(all[n - 1], width)
    }
}

/// The rows that an entry of the given lines takes in a panel `width` columns wide.
pub open spec fn height(all: Seq<Seq<AgentSpanView>>, width: nat) -> nat {
    let rows = if width == 0 {
        max(all.len() as int, 1)
    } else {
        lines_height(all, all.len() as int, width) as int
    };
    min(rows, usize::MAX as int) as nat
}

fn height_of_line(line: &Vec<AgentSpan>, width: usize) -> (rows: usize)
    requires
        width > 0,
    ensures
        rows == line_height(agent_line(line@), width as nat),
{
    let ghost all = agent_line(line@);
    let mut wide: usize = 0;
    let mut i: usize = 0;
    while i < line.len()
        invariant
            i <= line.len(),
            all == agent_line(line@),
            wide == min(run_columns(all, i as int) as int, usize::MAX as int),
        decreases line.len() - i,
    {
        assert(all[i as int] == line@[i as int]@);
        wide = wide.saturating_add(width_of(line[i].span.content.as_str()));
        i += 1;
    }
    let full: usize = wide / width;
    let rest: usize = wide % width;
    proof {
        lemma_round_up(wide as int, width as int);
    }
    if rest > 0 {
        full + 1
    } else if full > 0 {
        full
    } else {
        1
    }
}

proof fn lemma_round_up(wide: int, width: int)
    requires
        0 <= wide,
        0 < width,
    ensures
        (wide + width - 1) / width == wide / width + if wide % width > 0 {
            1int
        } else {
            0
        },
        wide / width <= wide,
        wide % width > 0 ==> wide / width < wide,
{
    let full = wide / width;
    let rest = wide % width;
    assert(wide == full * width + rest && 0 <= rest < width) by (nonlinear_arith)
        requires
            full == wide / width,
            rest == wide % width,
            0 < width,
    ;
    assert(full <= full * width) by (nonlinear_arith)
        requires
            0 < width,
            0 <= full,
    ;
    if rest > 0 {
        assert((full * width + rest + width - 1) / width == full + 1) by (nonlinear_arith)
            requires
                0 < rest < width,
        ;
    } else {
        assert((full * width + width - 1) / width == full) by (nonlinear_arith)
            requires
                0 < width,
        ;
    }
}

/// Returns the estimated visual row height of a single entry for the given panel
/// content width: `ceil(char_width / content_width)` for each of its lines, at least
/// one.
pub fn entry_height(entry: &DisplayLine, markdown: &Vec<Vec<Span>>, content_width: u16) -> (rows:
    usize)
    ensures
        rows == height(entry_lines(*entry, lines_view(markdown@)), content_width as nat),
{
    let all = lines_of_entry(entry, markdown);
    let ghost laid_out = agent_lines(all@);
    assert(laid_out.len() == all@.len());
    if content_width == 0 {
        return if all.len() > 1 {
            all.len()
        } else {
            1
        };
    }
    let mut rows: usize = 0;
    let mut i: usize = 0;
    while i < all.len()
        invariant
            i <= all.len(),
            content_width > 0,
            laid_out == agent_lines(all@),
            rows == min(
                lines_height(laid_out, i as int, content_width as nat) as int,
                usize::MAX as int,
            ),
        decreases all.len() - i,
    {
        assert(laid_out[i as int] == agent_line(all@[i as int]@));
        rows = rows.saturating_add(height_of_line(&all[i], content_width as usize));
        i += 1;
    }
    rows
}

/// The rows that an entry takes, where `highlights` holds those of its code blocks. `None`
/// where they do not fit its text.
pub fn highlighted_height(
    entry: &DisplayLine,
    highlights: &Vec<Option<CodeHighlights>>,
    content_width: u16,
) -> (rows: Option<usize>)
    ensures
        ({
            let given = all_highlights(highlights@);
            match rows {
                Some(rows) => all_fit(entry_blocks(*entry), given) && rows == height(
                    entry_lines(*entry, rich_markdown(*entry, given)),
                    content_width as nat,
                ),
                None => !all_fit(entry_blocks(*entry), given),
            }
        }),
{
    match highlighted_markdown_of(entry, highlights) {
        Some(markdown) => Some(entry_height(entry, &markdown, content_width)),
        None => None,
    }
}

/// Entries are shown in their order, each with its own lines.
pub proof fn law_entries_are_shown_in_order(
    display: Seq<DisplayLine>,
    markdown: Seq<Seq<Seq<SpanView>>>,
    a: int,
    b: int,
    c: int,
)
    requires
        a <= b <= c,
    ensures
        built(display, markdown, a, a) == Seq::<Seq<AgentSpanView>>::empty(),
        built(display, markdown, a, a + 1) == entry_lines(display[a], markdown[a]),
        built(display, markdown, a, b) + built(display, markdown, b, c) == built(
            display,
            markdown,
            a,
            c,
        ),
    decreases c - b,
{
    assert(built(display, markdown, a, a) =~= Seq::empty());
    assert(built(display, markdown, a, a + 1) =~= entry_lines(display[a], markdown[a]));
    if b == c {
        assert(built(display, markdown, b, c) =~= Seq::empty());
        assert(built(display, markdown, a, b) + built(display, markdown, b, c) =~= built(
            display,
            markdown,
            a,
            c,
        ));
    } else {
        law_entries_are_shown_in_order(display, markdown, a, b, c - 1);
        assert(built(display, markdown, a, b) + built(display, markdown, b, c) =~= built(
            display,
            markdown,
            a,
            c,
        ));
    }
}

/// The text of a line of runs.
pub open spec fn runs_text(line: Seq<AgentSpanView>) -> Seq<char>
    decreases line.len(),
{
    if line.len() == 0 {
        Seq::empty()
    } else {
        runs_text(line.drop_last()) + line.last().span.content
    }
}

/// A message of the user is shown with all its lines: the first behind `You: `, and the
/// others as far to the right.
pub proof fn law_user_message_shows_its_lines(text: String, markdown: Seq<Seq<SpanView>>, i: int)
    requires
        0 <= i < lines(text@).len(),
    ensures
        ({
            let shown = entry_lines(DisplayLine::UserMessage(text), markdown);
            let line = runs_text(shown[i]);
            &&& shown.len() == lines(text@).len()
            &&& line.skip(5) == lines(text@)[i]
            &&& i == 0 ==> line.take(5) == "You: "@
            &&& i > 0 ==> forall|k: int| 0 <= k < 5 ==> line[k] == ' '
            &&& shown[i][0].paint == Paint::User
        }),
{
    reveal_strlit("You: ");
    reveal_strlit("     ");
    reveal_with_fuel(runs_text, 2);
    let shown = entry_lines(DisplayLine::UserMessage(text), markdown);
    let line = runs_text(shown[i]);
    assert(shown[i].drop_last() =~= Seq::empty());
    let start = if i == 0 {
        "You: "@
    } else {
        "     "@
    };
    assert(line =~= start + lines(text@)[i]);
    assert(line.skip(5) =~= lines(text@)[i]);
    assert(line.take(5) =~= start);
}

/// A tool that has ended is shown by its name and input, marked by whether it succeeded, and
/// with every line of its output below.
pub proof fn law_ended_tool_shows_its_output(
    name: String,
    input: String,
    status: String,
    output: Vec<String>,
    markdown: Seq<Seq<SpanView>>,
)
    ensures
        ({
            let shown = entry_lines(
                DisplayLine::ToolDone { name, input, status, output },
                markdown,
            );
            let succeeded = status@ == "done"@ || status@ == "completed"@;
            &&& shown[0].len() == 2
            &&& shown[0][0].paint == if succeeded {
                Paint::Succeeded
            } else {
                Paint::Failed
            }
            &&& shown[0][1].span.content == if input@.len() == 0 {
                name@
            } else {
                name@ + "("@ + input@ + ")"@
            }
            &&& shown.len() == 1 + if output@.len() == 0 {
                1
            } else {
                output@.len() as int
            }
            &&& forall|i: int|
                0 <= i < output@.len() ==> runs_text(#[trigger] shown[i + 1]).skip(5)
                    == output@[i]@
        }),
{
    reveal_strlit("(");
    reveal_strlit(")");
    reveal_strlit("  ⎿  ");
    reveal_strlit("     ");
    let shown = entry_lines(DisplayLine::ToolDone { name, input, status, output }, markdown);
    assert(name@ + seq!['('] + input@ + seq![')'] =~= name@ + "("@ + input@ + ")"@);
    assert forall|i: int| 0 <= i < output@.len() implies runs_text(#[trigger] shown[i + 1]).skip(5)
        == output@[i]@ by {
        reveal_with_fuel(runs_text, 2);
        let start = if i == 0 {
            "  ⎿  "@
        } else {
            "     "@
        };
        assert(shown[i + 1].drop_last() =~= Seq::empty());
        assert(runs_text(shown[i + 1]) =~= start + output@[i]@);
        assert(runs_text(shown[i + 1]).skip(5) =~= output@[i]@);
    }
}

/// A text or a thought is shown as it is laid out: every span of every line with its text
/// and its style.
pub proof fn law_text_is_shown_as_laid_out(
    entry: DisplayLine,
    markdown: Seq<Seq<SpanView>>,
    i: int,
    k: int,
)
    requires
        entry is Text || entry is Thought,
        0 <= i < markdown.len(),
        0 <= k < markdown[i].len(),
    ensures
        ({
            let shown = entry_lines(entry, markdown);
            &&& shown.len() == markdown.len()
            &&& shown[i].len() == markdown[i].len()
            &&& shown[i][k].span == markdown[i][k]
            &&& shown[i][k].paint == if entry is Text {
                Paint::Own
            } else {
                Paint::Faint
            }
        }),
{
}

/// A line takes the rows that its columns need, and at least one: its columns fit into them,
/// and would not fit into one row less.
pub proof fn law_line_has_the_rows_it_needs(line: Seq<AgentSpanView>, width: nat)
    requires
        width > 0,
        run_columns(line, line.len() as int) <= usize::MAX,
    ensures
        ({
            let columns = run_columns(line, line.len() as int);
            let rows = line_height(line, width);
            &&& rows >= 1
            &&& columns <= rows * width
            &&& rows > 1 ==> (rows - 1) * width < columns
        }),
{
    let wide = run_columns(line, line.len() as int) as int;
    let w = width as int;
    let all = wide + w - 1;
    let rows = all / w;
    vstd::arithmetic::div_mod::lemma_fundamental_div_mod(all, w);
    vstd::arithmetic::div_mod::lemma_mod_bound(all, w);
    assert(w * rows == rows * w && (rows - 1) * w == rows * w - w) by (nonlinear_arith);
    assert(rows >= 0) by (nonlinear_arith)
        requires
            rows * w > -w,
            w > 0,
    ;
    let h = line_height(line, width) as int;
    if rows >= 1 {
        assert(h == rows);
    } else {
        assert(h == 1);
        assert(h * w == w && rows * w == 0) by (nonlinear_arith)
            requires
                h == 1,
                rows == 0,
        ;
    }
}

/// The columns of a line are those of its runs together, and the rows of an entry those of
/// its lines.
pub proof fn law_columns_and_rows_add_up(
    line: Seq<AgentSpanView>,
    span: AgentSpanView,
    all: Seq<Seq<AgentSpanView>>,
    width: nat,
)
    ensures
        run_columns(Seq::empty(), 0) == 0,
        run_columns(line.push(span), line.len() as int + 1) == run_columns(
            line,
            line.len() as int,
        ) + columns(span.span.content),
        lines_height(Seq::empty(), 0, width) == 0,
        lines_height(all.push(line), all.len() as int + 1, width) == lines_height(
            all,
            all.len() as int,
            width,
        ) + line_height(line, width),
{
    lemma_run_columns_prefix(line, line.push(span), line.len() as int);
    lemma_lines_height_prefix(all, all.push(line), all.len() as int, width);
}

proof fn lemma_run_columns_prefix(a: Seq<AgentSpanView>, b: Seq<AgentSpanView>, n: int)
    requires
        n <= a.len() <= b.len(),
        forall|i: int| 0 <= i < n ==> a[i] == b[i],
    ensures
        run_columns(a, n) == run_columns(b, n),
    decreases n,
{
    if n > 0 {
        lemma_run_columns_prefix(a, b, n - 1);
    }
}

proof fn lemma_lines_height_prefix(
    a: Seq<Seq<AgentSpanView>>,
    b: Seq<Seq<AgentSpanView>>,
    n: int,
    width: nat,
)
    requires
        n <= a.len() <= b.len(),
        forall|i: int| 0 <= i < n ==> a[i] == b[i],
    ensures
        lines_height(a, n, width) == lines_height(b, n, width),
    decreases n,
{
    if n > 0 {
        lemma_lines_height_prefix(a, b, n - 1, width);
    }
}

/// A tool that runs is shown by a mark and its name, with its input in brackets where it has
/// any; a step of a plan by a box, which is ticked where the step is done.
pub proof fn law_tools_and_plans_are_shown(
    name: String,
    input: String,
    description: String,
    markdown: Seq<Seq<SpanView>>,
)
    ensures
        ({
            let shown = entry_lines(DisplayLine::ToolCall { name, input }, markdown);
            &&& shown.len() == 1 && shown[0].len() == 2
            &&& shown[0][0].span.content == "● "@ && shown[0][0].paint == Paint::Running
            &&& input@.len() == 0 ==> shown[0][1].span.content == name@
            &&& input@.len() > 0 ==> shown[0][1].span.content == name@ + seq!['('] + input@
                + seq![')']
        }),
        ({
            let shown = entry_lines(DisplayLine::PlanStep { done: true, description }, markdown);
            &&& shown.len() == 1 && shown[0].len() == 1
            &&& shown[0][0].span.content == "[x] "@ + description@
            &&& shown[0][0].paint == Paint::Done
        }),
        ({
            let shown = entry_lines(DisplayLine::PlanStep { done: false, description }, markdown);
            &&& shown.len() == 1 && shown[0].len() == 1
            &&& shown[0][0].span.content == "[-] "@ + description@
            &&& shown[0][0].paint == Paint::Info
        }),
{
}

} // verus!
