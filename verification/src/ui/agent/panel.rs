//! The state of the agent panel, how it is drawn and what its keys do.

use vstd::prelude::*;

use vstd::math::{max, min};

use crate::acp::client::{all_choices, choices_view, copied_text, select_from, text_view};
use crate::acp::client::{AgentClient, AgentId, Choice, DisplayLine, SessionUsage};
use crate::graphics::Rect;
use crate::input::{InputEvent, KeyCode, KeyEvent, Modifiers, MouseEvent, MouseEventKind};
use crate::text::{
    chars_of, law_trimming_takes_the_whitespace_around, repeat, repeated, same, substring, trim,
    trimmed, views,
};
use crate::ui::agent::border::{border_pos, border_trail, perimeter, trail_len};
use crate::ui::agent::lines::{
    agent_lines, build_lines, built, entries_fit, laid_out, lay_out, markdown_view,
};
use crate::ui::agent::lines::{one, run, AgentSpan, AgentSpanView, Paint};
use crate::ui::agent::menus::{choice_items, choice_menu, command_items, command_menu};
use crate::ui::agent::menus::{history, history_items, history_menu, items_view};
use crate::ui::agent::menus::{no_option, option_choices, user_messages};
use crate::ui::agent::title::{has_session, panel_title, session_index, sessions_before, title};
use crate::ui::agent::window::{all_rows, count_rows, is_window, measure, measured, window};
use crate::ui::agent::window::Window;
use crate::ui::markdown::code::CodeHighlights;
use crate::ui::multi_menu::MultiMenuItem;
use crate::ui::spans::{Span, SpanView};
use crate::ui::textarea::{
    law_needed_rows_hold_the_cursor, DrawnRow, TextArea, TextAreaState,
};

verus! {

/// What the panel holds.
pub ghost struct PanelView {
    pub agent_id: AgentId,
    /// The first row of the conversation in view.
    pub scroll: nat,
    /// The panel follows the end of the conversation.
    pub pinned: bool,
    /// The rows of the conversation in view.
    pub page_height: nat,
    pub input: TextAreaState,
    pub input_area: Rect,
    pub area: Rect,
    /// The rows of each entry of the conversation.
    pub heights: Seq<usize>,
    /// The width that the heights were found for.
    pub width: u16,
    pub fullscreen: bool,
    /// When the stripe round the border began to run, in milliseconds.
    pub anim_start: Option<usize>,
}

/// The state of the agent panel.
pub struct AgentPanel {
    pub agent_id: AgentId,
    scroll: usize,
    /// When true the panel follows the bottom of the buffer during streaming.
    /// Set to false as soon as the user manually scrolls up.
    pinned: bool,
    page_height: usize,
    input: TextArea,
    /// Set during render(); used by cursor() to report screen position.
    input_area: Rect,
    /// Set by place(); used by handle_event() for mouse hit-testing.
    area: Rect,
    /// Cached visual-row height per entry, which must be invalidated when the
    /// content width changes.
    line_heights: Vec<usize>,
    last_content_width: u16,
    /// When true the panel fills the entire terminal viewport.
    fullscreen: bool,
    /// Animation start time for gradient border animation (active while is_prompting).
    anim_start: Option<usize>,
}

impl View for AgentPanel {
    type V = PanelView;

    closed spec fn view(&self) -> PanelView {
        PanelView {
            agent_id: self.agent_id,
            scroll: self.scroll as nat,
            pinned: self.pinned,
            page_height: self.page_height as nat,
            input: self.input@,
            input_area: self.input_area,
            area: self.area,
            heights: self.line_heights@,
            width: self.last_content_width,
            fullscreen: self.fullscreen,
            anim_start: self.anim_start,
        }
    }
}

pub open spec fn no_rect() -> Rect {
    Rect { x: 0, y: 0, width: 0, height: 0 }
}

/// Where the panel lies: over the whole window, or at its bottom right with three
/// fifths of its width and four fifths of its height.
pub open spec fn panel_area(viewport: Rect, fullscreen: bool) -> Rect {
    if fullscreen {
        Rect { x: 0, y: 0, width: viewport.width, height: viewport.height }
    } else {
        let width = min(max(viewport.width * 3 / 5, 40), viewport.width as int);
        let height = min(max(viewport.height * 4 / 5, 6), max(viewport.height - 2, 0));
        Rect {
            x: (viewport.width - width) as u16,
            y: max(viewport.height - (height + 2), 0) as u16,
            width: width as u16,
            height: height as u16,
        }
    }
}

/// The rows of the conversation that are in view in an area of `height` rows, above
/// a rule and `input_rows` rows of input.
pub open spec fn content_height(height: u16, input_rows: int) -> nat {
    max(height - (1 + input_rows), 0) as nat
}

impl PanelView {
    pub open spec fn wf(self) -> bool {
        &&& self.input.wf()
        &&& self.input.max_lines == 4
        &&& self.input.width == self.input_area.width
        &&& self.input_area.x + self.input_area.width <= u16::MAX
        &&& self.input_area.y + 4 <= u16::MAX
    }

    pub open spec fn with_input(self, input: TextAreaState) -> PanelView {
        PanelView { input, ..self }
    }

    /// The text put into the input at the cursor.
    pub open spec fn inserted(self, text: Seq<char>) -> PanelView {
        self.with_input(self.input.insert(text).following_cursor())
    }

    pub open spec fn up(self, n: nat) -> PanelView {
        PanelView { scroll: max(self.scroll - n, 0) as nat, pinned: false, ..self }
    }

    pub open spec fn down(self, n: nat) -> PanelView {
        PanelView {
            scroll: min((self.scroll + n) as int, usize::MAX as int) as nat,
            pinned: false,
            ..self
        }
    }

    /// How far a page key scrolls.
    pub open spec fn page(self) -> nat {
        max(self.page_height as int, 1) as nat
    }

    /// The rows that the input takes.
    pub open spec fn input_rows(self, width: u16) -> int {
        self.input.rows_needed(width as nat)
    }

    /// The panel with the heights of all entries at `width`. Where the conversation
    /// has become shorter it is followed from its start.
    pub open spec fn with_heights(
        self,
        display: Seq<DisplayLine>,
        markdown: Seq<Seq<Seq<SpanView>>>,
        width: u16,
    ) -> PanelView {
        let heights = if self.width == width {
            self.heights
        } else {
            Seq::empty()
        };
        let shrank = heights.len() > display.len();
        PanelView {
            heights: measured(heights, display, markdown, width),
            width,
            pinned: self.pinned || shrank,
            scroll: if shrank {
                0
            } else {
                self.scroll
            },
            ..self
        }
    }

    /// The last row that `rows` rows can begin with.
    pub open spec fn max_scroll(self, rows: nat) -> nat {
        max(all_rows(self.heights) - rows, 0) as nat
    }

    /// The panel scrolled for a view of `rows` rows: to the end where it is pinned,
    /// else no further than to the end. It is pinned again where it reaches the end
    /// of a conversation that does not fit.
    pub open spec fn settled(self, rows: nat) -> PanelView {
        let end = self.max_scroll(rows);
        PanelView {
            page_height: rows,
            scroll: if self.pinned {
                end
            } else {
                min(self.scroll as int, end as int) as nat
            },
            pinned: self.pinned || (end > 0 && self.scroll >= end),
            ..self
        }
    }
}

/// What to draw in the panel.
pub struct AgentFrame {
    pub title: String,
    /// The cells of the stripe that runs round the border, from its head on.
    pub trail: Vec<(u16, u16)>,
    /// The entries that `lines` shows.
    pub window: Window,
    pub lines: Vec<Vec<AgentSpan>>,
    pub content_area: Rect,
    /// How many rows of the wrapped lines lie above the view.
    pub scroll: u16,
    pub separator: String,
    pub separator_y: u16,
    pub hint: String,
    pub hint_x: u16,
    pub input: Vec<DrawnRow>,
}

/// The lines in view, or a placeholder while the first chunk is in flight.
pub open spec fn shown(all: Seq<Seq<AgentSpanView>>, is_prompting: bool) -> Seq<Seq<AgentSpanView>> {
    if all.len() == 0 && is_prompting {
        seq![seq![run("..."@, Paint::Thought)]]
    } else {
        all
    }
}

pub open spec fn commands_hint(has_commands: bool) -> Seq<char> {
    if has_commands {
        " /: commands "@
    } else {
        Seq::empty()
    }
}

/// When the stripe began to run, if it runs at `now`.
pub open spec fn running_since(start: Option<usize>, is_prompting: bool, now: usize) -> Option<usize> {
    if !is_prompting {
        None
    } else if start is Some {
        start
    } else {
        Some(now)
    }
}

/// The agents stand with whether each of them has a session; `text` is the title of the
/// panel of one of them.
pub open spec fn is_title(
    text: Seq<char>,
    client: AgentClient,
    agents: Seq<(AgentId, bool)>,
    id: AgentId,
) -> bool {
    let index = if has_session(agents, id) {
        Some(sessions_before(agents, id, agents.len() as int) as usize)
    } else {
        None
    };
    text == panel_title(
        client.name@,
        index,
        client.config_options@,
        text_view(client.current_mode),
        client.usage,
    )
}

/// The rows that the input takes hold the row of the cursor.
proof fn lemma_cursor_within_input(panel: PanelView, width: u16)
    requires
        panel.wf(),
    ensures
        ({
            let input = (TextAreaState { width: width as nat, ..panel.input }).following_cursor();
            &&& 0 <= panel.input_rows(width) <= 4
            &&& input.cursor_in_view()
            &&& input.cursor_row() - input.scroll < panel.input_rows(width)
        }),
{
    law_needed_rows_hold_the_cursor(panel.input, width as nat);
}

/// What is drawn, and what the panel is then like, where the texts of the entries are laid
/// out to `laid_out`.
pub open spec fn renders(
    before: PanelView,
    after: PanelView,
    frame: AgentFrame,
    inner: Rect,
    client: AgentClient,
    agents: Seq<(AgentId, bool)>,
    laid_out: Seq<Seq<Seq<SpanView>>>,
    now: usize,
) -> bool {
    let input_rows = before.input_rows(inner.width);
    let rows = content_height(inner.height, input_rows);
    let placed = before.with_heights(client.display@, laid_out, inner.width);
    let now_shown = placed.settled(rows);
    let y = inner.y + rows;
    let input_area = Rect {
        x: inner.x,
        y: (y + 1) as u16,
        width: inner.width,
        height: input_rows as u16,
    };
    let hint = commands_hint(client.available_commands@.len() > 0);
    let rule = max(inner.width - hint.len(), 0);
    let start = running_since(before.anim_start, client.is_prompting, now);
    let input = (TextAreaState {
        width: inner.width as nat,
        ..before.input
    }).following_cursor();
    &&& after == (PanelView {
        input,
        input_area,
        anim_start: start,
        ..now_shown
    })
    &&& is_title(frame.title@, client, agents, before.agent_id)
    &&& frame.trail@.len() == if client.is_prompting {
        trail_len(before.area)
    } else {
        0
    }
    &&& forall|i: int|
        0 <= i < frame.trail@.len() ==> {
            let cell = #[trigger] frame.trail@[i];
            let head = max(now - start->0, 0) as nat / 80;
            (cell.0 as int, cell.1 as int) == border_pos(
                before.area,
                (head + perimeter(before.area) - i) as nat,
            )
        }
    &&& is_window(frame.window, now_shown.heights, now_shown.scroll, rows)
    &&& agent_lines(frame.lines@) == shown(
        built(
            client.display@,
            laid_out,
            frame.window.first as int,
            frame.window.end as int,
        ),
        client.is_prompting,
    )
    &&& frame.content_area == (Rect {
        x: inner.x,
        y: inner.y,
        width: inner.width,
        height: rows as u16,
    })
    &&& frame.scroll == frame.window.skip % 0x10000
    &&& frame.separator@ == repeat('─', rule as nat)
    &&& frame.separator_y == y
    &&& frame.hint@ == hint
    &&& frame.hint_x == inner.x + rule
    &&& frame.input@.len() == min(
        max(input.rows(inner.width as nat).len() - input.scroll, 0),
        input_rows,
    )
    &&& forall|i: int|
        0 <= i < frame.input@.len() ==> {
            &&& (#[trigger] frame.input@[i]).x == input_area.x
            &&& frame.input@[i].y == input_area.y + i
            &&& frame.input@[i].text@ == input.rows(inner.width as nat)[i
                + input.scroll]
            &&& frame.input@[i].width == input_area.width
        }
    &&& input.cursor_in_view()
    &&& input.cursor_row() - input.scroll < input_area.height
}

impl AgentPanel {
    pub const ID: &'static str = "agent-panel";

    pub fn new(agent_id: AgentId) -> (r: Self)
        ensures
            r@.wf(),
            r@ == (PanelView {
                agent_id,
                scroll: 0,
                pinned: true,
                page_height: 10,
                input: TextAreaState {
                    text: Seq::empty(),
                    cursor: 0,
                    scroll: 0,
                    max_lines: 4,
                    width: 0,
                },
                input_area: no_rect(),
                area: no_rect(),
                heights: Seq::empty(),
                width: 0,
                fullscreen: false,
                anim_start: None,
            }),
    {
        Self {
            agent_id,
            scroll: 0,
            pinned: true,
            page_height: 10,
            input: TextArea::new(),
            input_area: Rect::new(0, 0, 0, 0),
            area: Rect::new(0, 0, 0, 0),
            line_heights: Vec::new(),
            last_content_width: 0,
            fullscreen: false,
            anim_start: None,
        }
    }

    /// Where the panel lies in the window.
    pub fn place(&mut self, viewport: Rect) -> (area: Rect)
        requires
            !old(self)@.fullscreen ==> viewport.width * 3 <= u16::MAX,
            !old(self)@.fullscreen ==> viewport.height * 4 <= u16::MAX,
        ensures
            area == panel_area(viewport, old(self)@.fullscreen),
            area.fits(),
            final(self)@ == (PanelView { area, ..old(self)@ }),
    {
        let area = if self.fullscreen {
            Rect::new(0, 0, viewport.width, viewport.height)
        } else {
            let mut width: u16 = viewport.width * 3 / 5;
            if width < 40 {
                width = 40;
            }
            if width > viewport.width {
                width = viewport.width;
            }
            let mut height: u16 = viewport.height * 4 / 5;
            if height < 6 {
                height = 6;
            }
            let room = viewport.height.saturating_sub(2);
            if height > room {
                height = room;
            }
            // +2 for statusline
            Rect::new(
                viewport.width - width,
                viewport.height.saturating_sub(height + 2),
                width,
                height,
            )
        };
        self.area = area;
        area
    }

    /// What to draw in the panel, where `inner` lies inside its border and
    /// `markdown` is what the text of each entry is laid out to.
    #[verifier::spinoff_prover]
    #[verifier::rlimit(60)]
    pub fn render(
        &mut self,
        inner: Rect,
        client: &AgentClient,
        agents: &Vec<(AgentId, bool)>,
        markdown: &Vec<Vec<Vec<Span>>>,
        now: usize,
    ) -> (frame: AgentFrame)
        requires
            old(self)@.wf(),
            inner.x + inner.width <= u16::MAX,
            inner.y + inner.height + 6 <= u16::MAX,
            markdown@.len() == client.display@.len(),
            client.is_prompting ==> old(self)@.area.fits() && old(self)@.area.width >= 1
                && old(self)@.area.height >= 1,
        ensures
            final(self)@.wf(),
            renders(
                old(self)@,
                final(self)@,
                frame,
                inner,
                *client,
                agents@,
                markdown_view(markdown@),
                now,
            ),
    {
        let ghost before = self@;
        let ghost laid_out = markdown_view(markdown@);
        let index = session_index(agents, self.agent_id);
        let title = title(
            client.name.as_str(),
            index,
            &client.config_options,
            &client.current_mode,
            &client.usage,
        );

        // Gradient stripe runs clockwise around the border while the agent is thinking.
        let mut trail: Vec<(u16, u16)> = Vec::new();
        if client.is_prompting {
            let start = match self.anim_start {
                Some(start) => start,
                None => now,
            };
            self.anim_start = Some(start);
            let elapsed = now.saturating_sub(start);
            // ~12 cells/sec
            trail = border_trail(self.area, elapsed / 80);
        } else {
            self.anim_start = None;
        }

        // Invalidate cache on width change so heights are recomputed for new wrap.
        if inner.width != self.last_content_width {
            self.line_heights.clear();
            self.last_content_width = inner.width;
        }
        // If display shrank (new session / cleared messages), reset auto-scroll
        // so the new conversation is followed from the start.
        if self.line_heights.len() > client.display.len() {
            self.pinned = true;
            self.scroll = 0;
        }
        measure(&mut self.line_heights, &client.display, markdown, inner.width);
        let ghost placed = before.with_heights(client.display@, laid_out, inner.width);
        assert(self.line_heights@ == placed.heights);

        // Reserve: 1 separator row + input_rows.
        let input_rows: u16 = self.input.rows_needed_for(inner.width) as u16;
        let rows: u16 = inner.height.saturating_sub(1 + input_rows);
        self.page_height = rows as usize;

        // Auto-scroll: pin to bottom while streaming (unless user scrolled up).
        let total = count_rows(&self.line_heights);
        let max_scroll = total.saturating_sub(rows as usize);
        if self.pinned {
            self.scroll = max_scroll;
        } else if self.scroll >= max_scroll {
            // Clamp to prevent scrolling past bottom, and restore auto-scroll when
            // the user has scrolled back to the bottom of overflowing content.
            self.scroll = max_scroll;
            self.pinned = max_scroll > 0;
        }
        let ghost now_shown = placed.settled(rows as nat);
        assert(self@ == (PanelView { anim_start: self@.anim_start, ..now_shown }));

        let window = window(&self.line_heights, self.scroll, rows);
        let mut lines = build_lines(&client.display, markdown, window.first, window.end);
        assert(agent_lines(lines@).len() == lines@.len());
        // Show a placeholder while the first chunk is in flight.
        if lines.len() == 0 && client.is_prompting {
            lines.push(one("...".to_string(), Paint::Thought));
            assert(agent_lines(lines@) =~= seq![seq![run("..."@, Paint::Thought)]]);
        }
        let content_area = Rect::new(inner.x, inner.y, inner.width, rows);

        // Horizontal separator above the input field. When commands are available,
        // a hint stands on its right.
        proof {
            reveal_strlit(" /: commands ");
        }
        let hint = if client.available_commands.len() > 0 {
            " /: commands ".to_string()
        } else {
            String::new()
        };
        assert(hint@ =~= commands_hint(client.available_commands@.len() > 0));
        let separator_y: u16 = inner.y + rows;
        let rule: usize = (inner.width as usize).saturating_sub(hint.as_str().unicode_len());
        let separator = repeated('─', rule);
        let hint_x: u16 = inner.x + rule as u16;

        let input_area = Rect::new(inner.x, separator_y + 1, inner.width, input_rows);
        self.input_area = input_area;
        let ghost typed = (TextAreaState { width: inner.width as nat, ..before.input });
        proof {
            lemma_cursor_within_input(before, inner.width);
        }
        let input = self.input.render(input_area);
        assert(self@ == (PanelView {
            input: typed.following_cursor(),
            input_area,
            anim_start: running_since(before.anim_start, client.is_prompting, now),
            ..now_shown
        }));
        AgentFrame {
            title,
            trail,
            window,
            lines,
            content_area,
            scroll: (window.skip % 0x10000) as u16,
            separator,
            separator_y,
            hint,
            hint_x,
            input,
        }
    }

    /// What to draw in the panel, where `inner` lies inside its border and `highlights`
    /// holds for each entry those of its code blocks. Where they do not fit the texts,
    /// nothing changes and nothing is drawn.
    pub fn draw(
        &mut self,
        inner: Rect,
        client: &AgentClient,
        agents: &Vec<(AgentId, bool)>,
        highlights: &Vec<Vec<Option<CodeHighlights>>>,
        now: usize,
    ) -> (frame: Option<AgentFrame>)
        requires
            old(self)@.wf(),
            inner.x + inner.width <= u16::MAX,
            inner.y + inner.height + 6 <= u16::MAX,
            client.is_prompting ==> old(self)@.area.fits() && old(self)@.area.width >= 1
                && old(self)@.area.height >= 1,
        ensures
            final(self)@.wf(),
            match frame {
                Some(frame) => entries_fit(client.display@, highlights@) && renders(
                    old(self)@,
                    final(self)@,
                    frame,
                    inner,
                    *client,
                    agents@,
                    laid_out(client.display@, highlights@),
                    now,
                ),
                None => !entries_fit(client.display@, highlights@) && final(self)@ == old(self)@,
            },
    {
        match lay_out(&client.display, highlights) {
            Some(markdown) => Some(self.render(inner, client, agents, &markdown, now)),
            None => None,
        }
    }
}

/// What a key does in the panel.
#[derive(Clone, Copy, Debug, PartialEq, Eq, Structural)]
pub enum PanelKey {
    Cancel,
    Left,
    Right,
    WordLeft,
    WordRight,
    Up,
    Down,
    PageUp,
    PageDown,
    Home,
    End,
    Backspace,
    Delete,
    Newline,
    Submit,
    Slash,
    PickModel,
    PickMode,
    History,
    Fullscreen,
    Insert(char),
    Unknown,
}

pub open spec fn panel_key(key: KeyEvent) -> PanelKey {
    let m = key.modifiers;
    let plain = m == Modifiers::none();
    let alt = m == Modifiers::only_alt();
    match key.code {
        KeyCode::Esc => PanelKey::Cancel,
        KeyCode::Left if plain => PanelKey::Left,
        KeyCode::Left if m == Modifiers::only_control() => PanelKey::WordLeft,
        KeyCode::Right if plain => PanelKey::Right,
        KeyCode::Right if m == Modifiers::only_control() => PanelKey::WordRight,
        KeyCode::Up if plain => PanelKey::Up,
        KeyCode::Down if plain => PanelKey::Down,
        KeyCode::PageUp => PanelKey::PageUp,
        KeyCode::PageDown => PanelKey::PageDown,
        KeyCode::Home => PanelKey::Home,
        KeyCode::End => PanelKey::End,
        KeyCode::Backspace => PanelKey::Backspace,
        KeyCode::Delete => PanelKey::Delete,
        KeyCode::Enter => if m.control || m.alt {
            PanelKey::Submit
        } else {
            PanelKey::Newline
        },
        KeyCode::Char(c) => if c == '/' && plain {
            PanelKey::Slash
        } else if c == 'm' && alt {
            PanelKey::PickModel
        } else if c == 'p' && alt {
            PanelKey::PickMode
        } else if c == '/' && alt {
            PanelKey::History
        } else if c == 'F' && m.alt && !m.control && !m.super_key {
            PanelKey::Fullscreen
        } else if !m.control && !m.alt {
            PanelKey::Insert(c)
        } else {
            PanelKey::Unknown
        },
        _ => PanelKey::Unknown,
    }
}

fn classify(key: KeyEvent) -> (k: PanelKey)
    ensures
        k == panel_key(key),
{
    let m = key.modifiers;
    let plain = !m.shift && !m.control && !m.alt && !m.super_key;
    let control = !m.shift && m.control && !m.alt && !m.super_key;
    let alt = !m.shift && !m.control && m.alt && !m.super_key;
    match key.code {
        KeyCode::Esc => PanelKey::Cancel,
        KeyCode::Left => if plain {
            PanelKey::Left
        } else if control {
            PanelKey::WordLeft
        } else {
            PanelKey::Unknown
        },
        KeyCode::Right => if plain {
            PanelKey::Right
        } else if control {
            PanelKey::WordRight
        } else {
            PanelKey::Unknown
        },
        KeyCode::Up => if plain {
            PanelKey::Up
        } else {
            PanelKey::Unknown
        },
        KeyCode::Down => if plain {
            PanelKey::Down
        } else {
            PanelKey::Unknown
        },
        KeyCode::PageUp => PanelKey::PageUp,
        KeyCode::PageDown => PanelKey::PageDown,
        KeyCode::Home => PanelKey::Home,
        KeyCode::End => PanelKey::End,
        KeyCode::Backspace => PanelKey::Backspace,
        KeyCode::Delete => PanelKey::Delete,
        // Alt+Enter is the reliable fallback for terminals that can't
        // distinguish Ctrl+Enter from plain Enter.
        KeyCode::Enter => if m.control || m.alt {
            PanelKey::Submit
        } else {
            PanelKey::Newline
        },
        KeyCode::Char(c) => if c == '/' && plain {
            PanelKey::Slash
        } else if c == 'm' && alt {
            PanelKey::PickModel
        } else if c == 'p' && alt {
            PanelKey::PickMode
        } else if c == '/' && alt {
            PanelKey::History
        } else if c == 'F' && m.alt && !m.control && !m.super_key {
            PanelKey::Fullscreen
        } else if !m.control && !m.alt {
            PanelKey::Insert(c)
        } else {
            PanelKey::Unknown
        },
        _ => PanelKey::Unknown,
    }
}

/// What becomes of an event in the panel.
pub enum PanelOutcome {
    Ignored,
    Consumed,
    /// The work was cancelled: the session, where there is one, is to be told.
    Cancelled(Option<String>),
    /// The agent is to be stopped and all of its panels and dialogs closed.
    Ended,
    /// The text is to be sent to the agent.
    Prompt { session_id: String, text: String, clears: bool },
    /// The agent has no session yet.
    NotReady,
    /// The menu of commands is to be opened.
    Commands(Vec<MultiMenuItem>),
    /// The menu of earlier messages is to be opened.
    Messages { items: Vec<MultiMenuItem>, messages: Vec<String> },
    /// The menu of the choices of an option is to be opened.
    Choices { items: Vec<MultiMenuItem>, choices: Vec<Choice> },
    /// The option that was to be set does not exist.
    NoOption(String),
}

impl PanelView {
    /// What a key does that concerns the panel alone.
    pub open spec fn after_key(self, key: PanelKey) -> PanelView {
        match key {
            PanelKey::Left => self.with_input(self.input.moved_left()),
            PanelKey::Right => self.with_input(self.input.moved_right()),
            PanelKey::WordLeft => self.with_input(self.input.moved_word_left()),
            PanelKey::WordRight => self.with_input(self.input.moved_word_right()),
            // Out of the first line the conversation is scrolled instead.
            PanelKey::Up => if self.input.line() == 0 {
                self.up(1)
            } else {
                self.with_input(self.input.moved_up())
            },
            // Out of the last line the conversation is scrolled instead.
            PanelKey::Down => if self.input.line() >= self.input.lines().len() - 1 {
                self.down(1)
            } else {
                self.with_input(self.input.moved_down())
            },
            PanelKey::PageUp => self.up(self.page()),
            PanelKey::PageDown => self.down(self.page()),
            PanelKey::Home => PanelView { scroll: 0, pinned: false, ..self },
            PanelKey::End => PanelView { pinned: true, ..self },
            PanelKey::Backspace => self.with_input(self.input.deleted_before()),
            PanelKey::Delete => self.with_input(self.input.deleted_after()),
            PanelKey::Newline => self.inserted(seq!['\n']),
            PanelKey::Fullscreen => PanelView { fullscreen: !self.fullscreen, ..self },
            PanelKey::Insert(c) => self.inserted(seq![c]),
            _ => self,
        }
    }

    /// The cell lies in the panel.
    pub open spec fn covers(self, x: u16, y: u16) -> bool {
        &&& self.area.x <= x < min(self.area.x + self.area.width, u16::MAX as int)
        &&& self.area.y <= y < min(self.area.y + self.area.height, u16::MAX as int)
    }
}

/// What the wheel does over the panel.
pub open spec fn after_mouse(
    before: PanelView,
    mouse: MouseEvent,
    after: PanelView,
    outcome: PanelOutcome,
) -> bool {
    if !before.covers(mouse.column, mouse.row) {
        after == before && outcome == PanelOutcome::Ignored
    } else {
        match mouse.kind {
            MouseEventKind::ScrollUp => after == before.up(3) && outcome == PanelOutcome::Consumed,
            MouseEventKind::ScrollDown => after == before.down(3) && outcome
                == PanelOutcome::Consumed,
            _ => after == before && outcome == PanelOutcome::Ignored,
        }
    }
}

/// The text without the line breaks at its end.
pub open spec fn without_newlines(s: Seq<char>) -> Seq<char>
    decreases s.len(),
{
    if s.len() > 0 && s.last() == '\n' {
        without_newlines(s.drop_last())
    } else {
        s
    }
}

fn strip_newlines(s: &str) -> (text: String)
    ensures
        text@ == without_newlines(s@),
{
    let v = chars_of(s);
    let mut end: usize = v.len();
    assert(v@.take(end as int) =~= v@);
    while end > 0 && v[end - 1] == '\n'
        invariant
            end <= v.len(),
            without_newlines(v@) == without_newlines(v@.take(end as int)),
        decreases end,
    {
        assert(v@.take(end as int).drop_last() =~= v@.take(end - 1));
        end -= 1;
    }
    assert(end > 0 ==> v@.take(end as int).last() == v@[end - 1]);
    let text = substring(&v, 0, end);
    assert(text@ =~= v@.take(end as int));
    text
}

/// The conversation with a message of the user behind it, set off by a rule.
pub open spec fn is_asked(before: Seq<DisplayLine>, after: Seq<DisplayLine>, text: Seq<char>) -> bool {
    let rule = if before.len() > 0 {
        seq![DisplayLine::Separator]
    } else {
        Seq::empty()
    };
    &&& after.len() > 0
    &&& after.drop_last() == before + rule
    &&& after.last() matches DisplayLine::UserMessage(message) && message@ == text
}

/// The outcome is that the text is to be sent in the client's session.
pub open spec fn sends(
    outcome: PanelOutcome,
    session: Seq<char>,
    message: Seq<char>,
    clear: bool,
) -> bool {
    outcome matches PanelOutcome::Prompt { session_id, text, clears } && session_id@ == session
        && text@ == message && clears == clear
}

/// What submitting the input does.
pub open spec fn submitted(
    before: PanelView,
    client: Option<AgentClient>,
    after: PanelView,
    now: Option<AgentClient>,
    outcome: PanelOutcome,
) -> bool {
    let text = without_newlines(before.input.text);
    let emptied = before.with_input(before.input.cleared());
    if text.len() == 0 {
        after == before && now == client && outcome == PanelOutcome::Consumed
    } else if trim(text) == "/exit"@ {
        after == emptied && now == client && outcome == PanelOutcome::Ended
    } else if trim(text) == "/clear"@ {
        &&& after == (PanelView { scroll: 0, pinned: true, heights: Seq::empty(), ..emptied })
        &&& match client {
            None => now is None && outcome == PanelOutcome::Consumed,
            Some(old_client) => {
                &&& now matches Some(new_client)
                &&& new_client == (AgentClient {
                    display: new_client.display,
                    usage: SessionUsage {
                        context_used: 0,
                        context_size: 0,
                        total_used: 0,
                        percent: 0,
                        cost: None,
                    },
                    is_prompting: old_client.is_prompting || old_client.session_id is Some,
                    ..old_client
                })
                &&& new_client.display@.len() == 0
                &&& match old_client.session_id {
                    Some(session) => sends(outcome, session@, text, true),
                    None => outcome == PanelOutcome::Consumed,
                }
            },
        }
    } else if client is Some && client->0.session_id is Some {
        &&& after == (PanelView { pinned: true, ..emptied })
        &&& sends(outcome, client->0.session_id->0@, text, false)
        &&& now matches Some(new_client)
        &&& new_client == (AgentClient {
            display: new_client.display,
            is_prompting: true,
            ..client->0
        })
        &&& is_asked(client->0.display@, new_client.display@, text)
    } else {
        after == emptied && now == client && outcome == PanelOutcome::NotReady
    }
}

/// What asking for the choices of an option does.
pub open spec fn picks(client: Option<AgentClient>, option_id: Seq<char>, outcome: PanelOutcome) -> bool {
    match client {
        None => outcome == PanelOutcome::Consumed,
        Some(client) => match select_from(client.config_options@, option_id, 0) {
            Some(select) => {
                &&& outcome matches PanelOutcome::Choices { items, choices }
                &&& choices_view(choices@) == all_choices(select.options)
                &&& items_view(items@) == choice_menu(all_choices(select.options))
            },
            None => outcome matches PanelOutcome::NoOption(text) && text@ == no_option(option_id),
        },
    }
}

/// What a key does.
pub open spec fn key_handled(
    before: PanelView,
    client: Option<AgentClient>,
    key: PanelKey,
    after: PanelView,
    now: Option<AgentClient>,
    outcome: PanelOutcome,
) -> bool {
    match key {
        PanelKey::Cancel => {
            &&& after == before
            &&& if client is Some && client->0.is_prompting {
                &&& now == Some(AgentClient { is_prompting: false, ..client->0 })
                &&& outcome matches PanelOutcome::Cancelled(session) && text_view(session)
                    == text_view(client->0.session_id)
            } else {
                now == client && outcome == PanelOutcome::Consumed
            }
        },
        PanelKey::Submit => submitted(before, client, after, now, outcome),
        PanelKey::Slash => {
            &&& now == client
            &&& if before.input.text.len() > 0 {
                after == before.inserted(seq!['/']) && outcome == PanelOutcome::Consumed
            } else {
                let commands = match client {
                    Some(client) => client.available_commands@,
                    None => Seq::empty(),
                };
                &&& after == before
                &&& outcome matches PanelOutcome::Commands(items) && items_view(items@)
                    == command_menu(commands)
            }
        },
        PanelKey::PickModel => after == before && now == client && picks(
            client,
            "model"@,
            outcome,
        ),
        PanelKey::PickMode => after == before && now == client && picks(client, "mode"@, outcome),
        PanelKey::History => {
            let sent = match client {
                Some(client) => user_messages(client.display@, 0),
                None => Seq::empty(),
            };
            &&& after == before
            &&& now == client
            &&& if sent.len() == 0 {
                outcome == PanelOutcome::Consumed
            } else {
                &&& outcome matches PanelOutcome::Messages { items, messages }
                &&& views(messages@) == sent
                &&& items_view(items@) == history_menu(sent)
            }
        },
        PanelKey::Unknown => after == before && now == client && outcome == PanelOutcome::Ignored,
        _ => after == before.after_key(key) && now == client && outcome == PanelOutcome::Consumed,
    }
}

/// A command that was picked from the menu of commands is waiting.
pub open spec fn has_pending(client: Option<AgentClient>) -> bool {
    client is Some && client->0.pending_command is Some
}

impl AgentPanel {
    /// The row and the column of the text cursor, where it is shown.
    pub fn cursor(&self) -> (pos: Option<(usize, usize)>)
        requires
            self@.wf(),
            self@.input_area.width == 0 ==> self@.input_area.x + self@.input.cursor_col()
                <= u16::MAX,
        ensures
            pos is Some <==> self@.input_area != no_rect() && self@.input.cursor_in_view(),
            pos matches Some(pos) ==> {
                &&& pos.0 == self@.input_area.y + self@.input.cursor_row() - self@.input.scroll
                &&& pos.1 == self@.input_area.x + self@.input.cursor_col()
            },
    {
        let a = self.input_area;
        if a.x == 0 && a.y == 0 && a.width == 0 && a.height == 0 {
            return None;
        }
        match self.input.cursor_screen_pos(self.input_area) {
            Some((col, row)) => Some((row as usize, col as usize)),
            None => None,
        }
    }

    /// Insert `text` at the current cursor position in the input field.
    /// Used when a menu is closed, to avoid a second keypress.
    pub fn insert_input_text(&mut self, text: &str)
        requires
            old(self)@.wf(),
        ensures
            final(self)@ == old(self)@.inserted(text@),
            final(self)@.wf(),
    {
        self.input.insert_str(text);
    }

    fn scroll_up(&mut self, n: usize)
        requires
            old(self)@.wf(),
        ensures
            final(self)@ == old(self)@.up(n as nat),
            final(self)@.wf(),
    {
        self.scroll = self.scroll.saturating_sub(n);
        self.pinned = false;
    }

    fn scroll_down(&mut self, n: usize)
        requires
            old(self)@.wf(),
        ensures
            final(self)@ == old(self)@.down(n as nat),
            final(self)@.wf(),
    {
        self.scroll = self.scroll.saturating_add(n);
        self.pinned = false;
    }

    fn handle_mouse(&mut self, mouse: &MouseEvent) -> (outcome: PanelOutcome)
        requires
            old(self)@.wf(),
        ensures
            after_mouse(old(self)@, *mouse, final(self)@, outcome),
            final(self)@.wf(),
    {
        let a = self.area;
        let within = mouse.column >= a.x && mouse.column < a.x.saturating_add(a.width)
            && mouse.row >= a.y && mouse.row < a.y.saturating_add(a.height);
        if !within {
            return PanelOutcome::Ignored;
        }
        match mouse.kind {
            MouseEventKind::ScrollUp => {
                self.scroll_up(3);
                PanelOutcome::Consumed
            },
            MouseEventKind::ScrollDown => {
                self.scroll_down(3);
                PanelOutcome::Consumed
            },
            _ => PanelOutcome::Ignored,
        }
    }

    /// Open a picker menu for a session config option (e.g. "model" or "mode").
    pub fn open_config_option_menu(&self, client: &Option<AgentClient>, option_id: &str) -> (outcome:
        PanelOutcome)
        ensures
            picks(*client, option_id@, outcome),
    {
        match client {
            None => PanelOutcome::Consumed,
            Some(client) => match option_choices(&client.config_options, option_id) {
                Ok(choices) => PanelOutcome::Choices { items: choice_items(&choices), choices },
                Err(text) => PanelOutcome::NoOption(text),
            },
        }
    }

    fn submit(&mut self, client: &mut Option<AgentClient>) -> (outcome: PanelOutcome)
        requires
            old(self)@.wf(),
        ensures
            submitted(old(self)@, *old(client), final(self)@, *final(client), outcome),
            final(self)@.wf(),
    {
        let text = strip_newlines(self.input.text());
        if text.as_str().is_empty() {
            return PanelOutcome::Consumed;
        }
        self.input.clear();
        let command = trimmed(text.as_str());

        // Handle /exit: stop the agent subprocess and remove all agent UI.
        if same(command.as_str(), "/exit") {
            return PanelOutcome::Ended;
        }

        // Handle /clear: reset local display and scroll, then send to agent.
        if same(command.as_str(), "/clear") {
            self.scroll = 0;
            self.pinned = true;
            self.line_heights = Vec::new();
            return match client {
                None => PanelOutcome::Consumed,
                Some(client) => {
                    client.display = Vec::new();
                    client.usage = SessionUsage::none();
                    match &client.session_id {
                        // Send /clear as a prompt so the agent clears its context too.
                        Some(session) => {
                            let session_id = session.clone();
                            client.is_prompting = true;
                            PanelOutcome::Prompt { session_id, text, clears: true }
                        },
                        None => PanelOutcome::Consumed,
                    }
                },
            };
        }

        match client {
            None => PanelOutcome::NotReady,
            Some(client) => match &client.session_id {
                None => PanelOutcome::NotReady,
                Some(session) => {
                    let session_id = session.clone();
                    let ghost before = client.display@;
                    if client.display.len() > 0 {
                        client.display.push(DisplayLine::Separator);
                    }
                    let ghost ruled = client.display@;
                    client.display.push(DisplayLine::UserMessage(text.clone()));
                    assert(client.display@.drop_last() =~= ruled);
                    assert(ruled =~= before + if before.len() > 0 {
                        seq![DisplayLine::Separator]
                    } else {
                        Seq::empty()
                    });
                    client.is_prompting = true;
                    self.pinned = true;
                    PanelOutcome::Prompt { session_id, text, clears: false }
                },
            },
        }
    }

    fn type_key(&mut self, key: PanelKey)
        requires
            old(self)@.wf(),
        ensures
            final(self)@ == old(self)@.after_key(key),
            final(self)@.wf(),
    {
        match key {
            PanelKey::Left => self.input.move_left(),
            PanelKey::Right => self.input.move_right(),
            PanelKey::WordLeft => self.input.move_word_left(),
            PanelKey::WordRight => self.input.move_word_right(),
            PanelKey::Up => {
                let (line, _) = self.input.cursor_position();
                if line == 0 {
                    self.scroll_up(1);
                } else {
                    self.input.move_up();
                }
            },
            PanelKey::Down => {
                let (line, _) = self.input.cursor_position();
                let last_line: usize = self.input.line_count() - 1;
                if line >= last_line {
                    self.scroll_down(1);
                } else {
                    self.input.move_down();
                }
            },
            PanelKey::PageUp => {
                let page: usize = if self.page_height > 1 {
                    self.page_height
                } else {
                    1
                };
                self.scroll_up(page);
            },
            PanelKey::PageDown => {
                let page: usize = if self.page_height > 1 {
                    self.page_height
                } else {
                    1
                };
                self.scroll_down(page);
            },
            PanelKey::Home => {
                self.scroll = 0;
                self.pinned = false;
            },
            // render() will snap scroll to bottom
            PanelKey::End => {
                self.pinned = true;
            },
            PanelKey::Backspace => self.input.delete_before(),
            PanelKey::Delete => self.input.delete_after(),
            PanelKey::Newline => self.input.insert_char('\n'),
            PanelKey::Fullscreen => {
                self.fullscreen = !self.fullscreen;
            },
            PanelKey::Insert(c) => self.input.insert_char(c),
            _ => {},
        }
    }

    fn handle_key(&mut self, key: KeyEvent, client: &mut Option<AgentClient>) -> (outcome:
        PanelOutcome)
        requires
            old(self)@.wf(),
        ensures
            key_handled(
                old(self)@,
                *old(client),
                panel_key(key),
                final(self)@,
                *final(client),
                outcome,
            ),
            final(self)@.wf(),
    {
        let key = classify(key);
        match key {
            // Cancel running agent (Esc).
            PanelKey::Cancel => match client {
                None => PanelOutcome::Consumed,
                Some(client) => {
                    if client.is_prompting {
                        let session = copied_text(&client.session_id);
                        client.is_prompting = false;
                        PanelOutcome::Cancelled(session)
                    } else {
                        PanelOutcome::Consumed
                    }
                },
            },
            PanelKey::Submit => self.submit(client),
            // '/': open slash-command menu when input is empty and this is the first char.
            PanelKey::Slash => {
                if !self.input.text().is_empty() {
                    self.input.insert_char('/');
                    return PanelOutcome::Consumed;
                }
                let items = match client {
                    Some(client) => command_items(&client.available_commands),
                    None => command_items(&Vec::new()),
                };
                PanelOutcome::Commands(items)
            },
            PanelKey::PickModel => self.open_config_option_menu(client, "model"),
            PanelKey::PickMode => self.open_config_option_menu(client, "mode"),
            // Sent-message history picker.
            PanelKey::History => match client {
                None => PanelOutcome::Consumed,
                Some(client) => {
                    let messages = history(&client.display);
                    assert(views(messages@).len() == messages@.len());
                    if messages.len() == 0 {
                        return PanelOutcome::Consumed;
                    }
                    PanelOutcome::Messages { items: history_items(&messages), messages }
                },
            },
            PanelKey::Unknown => PanelOutcome::Ignored,
            _ => {
                self.type_key(key);
                PanelOutcome::Consumed
            },
        }
    }

    /// Takes an event: a command that was picked is put into the input first, and
    /// then keys, pasted text and the wheel do what they are for.
    pub fn handle_event(&mut self, event: &InputEvent, client: &mut Option<AgentClient>) -> (outcome:
        PanelOutcome)
        requires
            old(self)@.wf(),
        ensures
            final(self)@.wf(),
            if has_pending(*old(client)) {
                let pending = old(client)->0.pending_command->0;
                &&& final(self)@ == old(self)@.inserted(pending@)
                &&& *final(client) == Some(
                    AgentClient { pending_command: None, ..old(client)->0 },
                )
                &&& outcome == PanelOutcome::Consumed
            } else {
                match event {
                    InputEvent::Paste(data) => {
                        &&& final(self)@ == old(self)@.inserted(data@)
                        &&& *final(client) == *old(client)
                        &&& outcome == PanelOutcome::Consumed
                    },
                    InputEvent::Mouse(mouse) => {
                        &&& after_mouse(old(self)@, *mouse, final(self)@, outcome)
                        &&& *final(client) == *old(client)
                    },
                    InputEvent::Key(key) => key_handled(
                        old(self)@,
                        *old(client),
                        panel_key(*key),
                        final(self)@,
                        *final(client),
                        outcome,
                    ),
                    InputEvent::Other => {
                        &&& final(self)@ == old(self)@
                        &&& *final(client) == *old(client)
                        &&& outcome == PanelOutcome::Ignored
                    },
                }
            },
    {
        // Drain any command selected from the command menu.
        if let Some(client) = client {
            if let Some(command) = client.pending_command.take() {
                self.input.insert_str(command.as_str());
                return PanelOutcome::Consumed;
            }
        }
        match event {
            // Paste: insert clipboard text at cursor.
            InputEvent::Paste(data) => {
                self.input.insert_str(data.as_str());
                PanelOutcome::Consumed
            },
            InputEvent::Mouse(mouse) => self.handle_mouse(mouse),
            InputEvent::Key(key) => self.handle_key(*key, client),
            InputEvent::Other => PanelOutcome::Ignored,
        }
    }
}

/// A message in the status line.
pub enum Notice {
    Status(String),
    Error(String),
}

/// The status line says this, as an error or not.
pub open spec fn says(notice: Option<Notice>, text: Seq<char>, is_error: bool) -> bool {
    match notice {
        Some(Notice::Status(said)) => !is_error && said@ == text,
        Some(Notice::Error(said)) => is_error && said@ == text,
        None => false,
    }
}

impl PanelOutcome {
    /// What the status line says of it.
    pub fn notice(&self) -> (notice: Option<Notice>)
        ensures
            match self {
                PanelOutcome::Cancelled(_) => says(notice, "Agent cancelled"@, false),
                PanelOutcome::Ended => says(notice, "Agent session ended"@, false),
                PanelOutcome::Prompt { session_id, text, clears } => says(
                    notice,
                    if *clears {
                        "Clearing context\u{2026}"@
                    } else {
                        "Agent thinking\u{2026}"@
                    },
                    false,
                ),
                PanelOutcome::NotReady => says(notice, "Agent is still initializing"@, true),
                PanelOutcome::NoOption(text) => says(notice, text@, true),
                _ => notice is None,
            },
    {
        match self {
            PanelOutcome::Cancelled(_) => Some(Notice::Status("Agent cancelled".to_string())),
            PanelOutcome::Ended => Some(Notice::Status("Agent session ended".to_string())),
            PanelOutcome::Prompt { session_id, text, clears } => if *clears {
                Some(Notice::Status("Clearing context\u{2026}".to_string()))
            } else {
                Some(Notice::Status("Agent thinking\u{2026}".to_string()))
            },
            PanelOutcome::NotReady => Some(
                Notice::Error("Agent is still initializing".to_string()),
            ),
            PanelOutcome::NoOption(text) => Some(Notice::Error(text.clone())),
            _ => None,
        }
    }
}

/// The agent has answered a prompt, or it could not be asked: `answer` holds the
/// reason why it stopped, or the error.
pub fn prompt_done(
    client: &mut Option<AgentClient>,
    clears: bool,
    answer: &Result<String, String>,
) -> (notice: Notice)
    ensures
        match *old(client) {
            None => *final(client) is None,
            Some(before) => {
                &&& *final(client) matches Some(after)
                &&& after == (AgentClient {
                    is_prompting: false,
                    display: after.display,
                    ..before
                })
                // The agent may have echoed messages while it cleared its context.
                &&& if clears && answer is Ok {
                    after.display@.len() == 0
                } else {
                    after.display == before.display
                }
            },
        },
        match answer {
            Ok(stop) => says(
                Some(notice),
                if clears {
                    "Context cleared"@
                } else {
                    "Agent done ("@ + stop@ + ")"@
                },
                false,
            ),
            Err(error) => says(Some(notice), "Agent error: "@ + error@, true),
        },
{
    if let Some(client) = client {
        client.is_prompting = false;
        if clears && answer.is_ok() {
            client.display = Vec::new();
        }
    }
    match answer {
        Ok(stop) => {
            if clears {
                return Notice::Status("Context cleared".to_string());
            }
            let mut text = "Agent done (".to_string();
            text.append(stop.as_str());
            text.append(")");
            Notice::Status(text)
        },
        Err(error) => {
            let mut text = "Agent error: ".to_string();
            text.append(error.as_str());
            Notice::Error(text)
        },
    }
}

/// A panel that follows the end shows the last row of the conversation, and goes on
/// following it.
pub proof fn law_pinned_panel_shows_the_end(panel: PanelView, rows: nat)
    requires
        panel.pinned,
    ensures
        panel.settled(rows).pinned,
        panel.settled(rows).scroll + rows >= all_rows(panel.heights),
{
}

/// A panel that was scrolled up stays where it is as the conversation grows.
pub proof fn law_scrolled_panel_keeps_its_place(panel: PanelView, rows: nat, heights: Seq<usize>)
    requires
        !panel.pinned,
        panel.scroll < panel.max_scroll(rows),
        all_rows(heights) >= all_rows(panel.heights),
    ensures
        ({
            let grown = (PanelView { heights, ..panel }).settled(rows);
            &&& grown.scroll == panel.scroll
            &&& !grown.pinned
        }),
{
}

/// Scrolling up ends the following of the conversation, and scrolling down to its
/// end begins it again.
pub proof fn law_scrolling_unpins_and_pins(panel: PanelView, n: nat, rows: nat)
    ensures
        !panel.up(n).pinned,
        panel.max_scroll(rows) > 0 && panel.scroll + n >= panel.max_scroll(rows)
            && panel.max_scroll(rows) <= usize::MAX ==> panel.down(n).settled(rows).pinned,
{
}

proof fn lemma_messages_of_longer(display: Seq<DisplayLine>, entry: DisplayLine, k: int)
    requires
        0 <= k <= display.len(),
    ensures
        user_messages(display.push(entry), k) == (match entry {
            DisplayLine::UserMessage(text) => seq![text@],
            _ => Seq::empty(),
        }) + user_messages(display, k),
    decreases display.len() - k,
{
    let longer = display.push(entry);
    if k < display.len() {
        lemma_messages_of_longer(display, entry, k + 1);
        assert(longer[k] == display[k]);
        assert(user_messages(longer, k) =~= (match entry {
            DisplayLine::UserMessage(text) => seq![text@],
            _ => Seq::empty(),
        }) + user_messages(display, k));
    } else {
        reveal_with_fuel(user_messages, 2);
        assert(user_messages(longer, k) =~= (match entry {
            DisplayLine::UserMessage(text) => seq![text@],
            _ => Seq::empty(),
        }) + user_messages(display, k));
    }
}

/// What was sent last is the first of the earlier messages, and the others follow it.
pub proof fn law_sent_message_heads_the_history(
    before: Seq<DisplayLine>,
    after: Seq<DisplayLine>,
    text: Seq<char>,
)
    requires
        is_asked(before, after, text),
    ensures
        user_messages(after, 0) == seq![text] + user_messages(before, 0),
{
    let ruled = after.drop_last();
    assert(after =~= ruled.push(after.last()));
    lemma_messages_of_longer(ruled, after.last(), 0);
    if before.len() > 0 {
        assert(ruled =~= before.push(DisplayLine::Separator));
        lemma_messages_of_longer(before, DisplayLine::Separator, 0);
        assert(Seq::<Seq<char>>::empty() + user_messages(before, 0) =~= user_messages(before, 0));
    } else {
        assert(ruled =~= before);
    }
}

/// The panel lies at the right of the window and two rows above its bottom, within it,
/// and takes three fifths of its width and four fifths of its height where that leaves
/// enough; over the whole window it takes all of it.
pub proof fn law_panel_lies_in_the_window(viewport: Rect)
    ensures
        ({
            let area = panel_area(viewport, false);
            &&& area.x + area.width == viewport.width
            &&& viewport.height >= 2 ==> area.y + area.height + 2 == viewport.height
            &&& viewport.height < 2 ==> area.y == 0 && area.height == 0
            &&& viewport.width >= 67 ==> 5 * area.width <= 3 * viewport.width < 5 * area.width + 5
            &&& 40 <= viewport.width < 67 ==> area.width == 40
            &&& viewport.width < 40 ==> area.width == viewport.width
            &&& viewport.height >= 10 ==> 5 * area.height <= 4 * viewport.height < 5 * area.height
                + 5
            &&& viewport.height == 8 || viewport.height == 9 ==> 6 <= area.height <= 7
        }),
        panel_area(viewport, true) == (Rect {
            x: 0,
            y: 0,
            width: viewport.width,
            height: viewport.height,
        }),
{
}

/// Line breaks at the end of what was typed are not sent.
pub proof fn law_line_breaks_at_the_end_are_dropped(s: Seq<char>, n: nat)
    requires
        s.len() == 0 || s.last() != '\n',
    ensures
        without_newlines(s + repeat('\n', n)) == s,
    decreases n,
{
    let all = s + repeat('\n', n);
    if n > 0 {
        law_line_breaks_at_the_end_are_dropped(s, (n - 1) as nat);
        assert(all.drop_last() =~= s + repeat('\n', (n - 1) as nat));
    } else {
        assert(all =~= s);
    }
}

/// What was typed is sent in the session, without the line breaks at its end; the input
/// is empty then, the conversation ends with the message and is followed, and the agent
/// is at work.
pub proof fn law_submitted_text_is_sent(
    before: PanelView,
    client: AgentClient,
    after: PanelView,
    now: Option<AgentClient>,
    outcome: PanelOutcome,
    message: Seq<char>,
    breaks: nat,
)
    requires
        submitted(before, Some(client), after, now, outcome),
        before.input.text == message + repeat('\n', breaks),
        message.len() > 0 && message.last() != '\n',
        trim(message) != "/exit"@ && trim(message) != "/clear"@,
        client.session_id is Some,
    ensures
        outcome matches PanelOutcome::Prompt { session_id, text, clears } && session_id@
            == client.session_id->0@ && text@ == message && !clears,
        after.input.text.len() == 0 && after.input.cursor == 0 && after.pinned,
        now is Some && now->0.is_prompting && now->0.display@.len() > 0,
        now->0.display@.last() matches DisplayLine::UserMessage(said) && said@ == message,
        client.display@.len() == 0 ==> now->0.display@.len() == 1,
        client.display@.len() > 0 ==> now->0.display@.len() == client.display@.len() + 2
            && now->0.display@[client.display@.len() as int] == DisplayLine::Separator,
        forall|i: int|
            0 <= i < client.display@.len() ==> #[trigger] now->0.display@[i] == client.display@[i],
{
    law_line_breaks_at_the_end_are_dropped(message, breaks);
    let shown = now->0.display@;
    assert(without_newlines(before.input.text) == message);
    assert(is_asked(client.display@, shown, message));
    assert(shown.drop_last().len() == shown.len() - 1);
    assert forall|i: int| 0 <= i < client.display@.len() implies #[trigger] shown[i]
        == client.display@[i] by {
        assert(shown.drop_last()[i] == shown[i]);
    }
    if client.display@.len() > 0 {
        let n = client.display@.len() as int;
        assert(shown.drop_last()[n] == shown[n]);
    }
}

/// Nothing is sent of an empty input. An agent without a session is sent nothing: its
/// input is emptied, and the user is told.
pub proof fn law_nothing_is_sent_without_text_or_session(
    before: PanelView,
    client: Option<AgentClient>,
    after: PanelView,
    now: Option<AgentClient>,
    outcome: PanelOutcome,
    breaks: nat,
)
    requires
        submitted(before, client, after, now, outcome),
    ensures
        before.input.text == repeat('\n', breaks) ==> after == before && now == client && outcome
            == PanelOutcome::Consumed,
        before.input.text == "/exit"@ ==> outcome == PanelOutcome::Ended && now == client,
        client is None || client->0.session_id is None ==> !(outcome is Prompt),
{
    law_line_breaks_at_the_end_are_dropped(Seq::empty(), breaks);
    assert(Seq::<char>::empty() + repeat('\n', breaks) =~= repeat('\n', breaks));
    if before.input.text == "/exit"@ {
        reveal_strlit("/exit");
        let text = before.input.text;
        law_line_breaks_at_the_end_are_dropped(text, 0);
        assert(text + repeat('\n', 0) =~= text);
        law_trimming_takes_the_whitespace_around(Seq::empty(), text, Seq::empty());
        assert(Seq::<char>::empty() + text + Seq::<char>::empty() =~= text);
    }
}

/// Scrolling goes by the rows asked for and stops at the start. The wheel scrolls by
/// three rows, and only over the panel.
pub proof fn law_scrolling_goes_by_rows(
    panel: PanelView,
    n: nat,
    mouse: MouseEvent,
    after: PanelView,
    outcome: PanelOutcome,
)
    requires
        after_mouse(panel, mouse, after, outcome),
    ensures
        panel.scroll >= n ==> panel.up(n).scroll + n == panel.scroll,
        panel.scroll < n ==> panel.up(n).scroll == 0,
        panel.scroll + n <= usize::MAX ==> panel.down(n).scroll == panel.scroll + n,
        !panel.up(n).pinned && !panel.down(n).pinned,
        panel.up(n).input == panel.input && panel.down(n).input == panel.input,
        panel.after_key(PanelKey::PageUp).scroll == (if panel.page_height == 0 {
            panel.up(1).scroll
        } else {
            panel.up(panel.page_height).scroll
        }),
        panel.after_key(PanelKey::PageDown).scroll == (if panel.page_height == 0 {
            panel.down(1).scroll
        } else {
            panel.down(panel.page_height).scroll
        }),
        panel.after_key(PanelKey::Home).scroll == 0 && !panel.after_key(PanelKey::Home).pinned,
        panel.after_key(PanelKey::End).pinned,
        mouse.kind == MouseEventKind::ScrollUp && outcome == PanelOutcome::Consumed ==> after
            == panel.up(3),
        mouse.kind == MouseEventKind::ScrollDown && outcome == PanelOutcome::Consumed ==> after
            == panel.down(3),
        outcome != PanelOutcome::Consumed ==> after == panel,
        outcome == PanelOutcome::Consumed <==> (mouse.kind == MouseEventKind::ScrollUp || mouse.kind
            == MouseEventKind::ScrollDown) && panel.area.x <= mouse.column < u16::MAX && mouse.column
            < panel.area.x + panel.area.width && panel.area.y <= mouse.row < u16::MAX && mouse.row
            < panel.area.y + panel.area.height,
{
}

/// Up and down move the cursor in the input, and scroll the conversation where the
/// input has no further line.
pub proof fn law_arrows_move_in_the_input_first(panel: PanelView)
    ensures
        panel.input.line() > 0 ==> panel.after_key(PanelKey::Up).scroll == panel.scroll
            && panel.after_key(PanelKey::Up).input == panel.input.moved_up(),
        panel.input.line() == 0 ==> panel.after_key(PanelKey::Up).input == panel.input
            && panel.after_key(PanelKey::Up).scroll == (if panel.scroll > 0 {
            panel.scroll - 1
        } else {
            0
        }),
        panel.input.line() + 1 < panel.input.lines().len() ==> panel.after_key(
            PanelKey::Down,
        ).scroll == panel.scroll && panel.after_key(PanelKey::Down).input
            == panel.input.moved_down(),
        panel.input.line() + 1 >= panel.input.lines().len() ==> panel.after_key(
            PanelKey::Down,
        ).input == panel.input && !panel.after_key(PanelKey::Down).pinned,
{
}

/// A character is typed where neither the control key nor the alt key is held, but for a
/// bare slash, which asks for the commands.
pub proof fn law_characters_are_typed(key: KeyEvent, c: char)
    requires
        key.code == KeyCode::Char(c),
    ensures
        ({
            let m = key.modifiers;
            let held = m.shift || m.control || m.alt || m.super_key;
            &&& !m.control && !m.alt && (c != '/' || held) ==> panel_key(key) == PanelKey::Insert(c)
            &&& c == '/' && !held ==> panel_key(key) == PanelKey::Slash
            &&& m.control ==> panel_key(key) == PanelKey::Unknown
            &&& m.alt && !m.control && !m.shift && !m.super_key ==> panel_key(key) == (if c == 'm' {
                PanelKey::PickModel
            } else if c == 'p' {
                PanelKey::PickMode
            } else if c == '/' {
                PanelKey::History
            } else if c == 'F' {
                PanelKey::Fullscreen
            } else {
                PanelKey::Unknown
            })
            &&& m.alt && c != 'm' && c != 'p' && c != '/' && c != 'F' ==> panel_key(key)
                == PanelKey::Unknown
        }),
{
}

/// The keys that are no characters: Enter sends where the control key or the alt key is
/// held and breaks the line else; the control key makes the arrows go by words.
pub proof fn law_other_keys_of_the_panel(key: KeyEvent)
    ensures
        ({
            let m = key.modifiers;
            let bare = !m.shift && !m.control && !m.alt && !m.super_key;
            let control = m.control && !m.shift && !m.alt && !m.super_key;
            &&& key.code == KeyCode::Enter && (m.control || m.alt) ==> panel_key(key)
                == PanelKey::Submit
            &&& key.code == KeyCode::Enter && !m.control && !m.alt ==> panel_key(key)
                == PanelKey::Newline
            &&& key.code == KeyCode::Esc <==> panel_key(key) == PanelKey::Cancel
            &&& key.code == KeyCode::Left && bare <==> panel_key(key) == PanelKey::Left
            &&& key.code == KeyCode::Right && bare <==> panel_key(key) == PanelKey::Right
            &&& key.code == KeyCode::Left && control <==> panel_key(key) == PanelKey::WordLeft
            &&& key.code == KeyCode::Right && control <==> panel_key(key) == PanelKey::WordRight
            &&& key.code == KeyCode::Up && bare <==> panel_key(key) == PanelKey::Up
            &&& key.code == KeyCode::Down && bare <==> panel_key(key) == PanelKey::Down
            &&& key.code == KeyCode::PageUp <==> panel_key(key) == PanelKey::PageUp
            &&& key.code == KeyCode::PageDown <==> panel_key(key) == PanelKey::PageDown
            &&& key.code == KeyCode::Home <==> panel_key(key) == PanelKey::Home
            &&& key.code == KeyCode::End <==> panel_key(key) == PanelKey::End
            &&& key.code == KeyCode::Backspace <==> panel_key(key) == PanelKey::Backspace
            &&& key.code == KeyCode::Delete <==> panel_key(key) == PanelKey::Delete
            &&& key.code == KeyCode::Tab || key.code == KeyCode::Other ==> panel_key(key)
                == PanelKey::Unknown
        }),
{
}

/// Escape stops an agent that is at work and tells it so; nothing else of it changes.
pub proof fn law_escape_stops_the_agent(
    before: PanelView,
    client: AgentClient,
    after: PanelView,
    now: Option<AgentClient>,
    outcome: PanelOutcome,
)
    requires
        key_handled(before, Some(client), PanelKey::Cancel, after, now, outcome),
    ensures
        after == before,
        now is Some && !now->0.is_prompting && now->0.display == client.display
            && now->0.session_id == client.session_id,
        client.is_prompting <==> outcome is Cancelled,
        !client.is_prompting ==> now->0 == client,
{
}

/// A slash is typed into a text that was begun, and asks for the commands else.
pub proof fn law_slash_asks_for_commands_at_the_start(
    before: PanelView,
    client: Option<AgentClient>,
    after: PanelView,
    now: Option<AgentClient>,
    outcome: PanelOutcome,
)
    requires
        key_handled(before, client, PanelKey::Slash, after, now, outcome),
    ensures
        now == client,
        before.input.text.len() == 0 ==> after == before && outcome is Commands,
        before.input.text.len() > 0 ==> outcome == PanelOutcome::Consumed && after.input.text
            == before.input.text.take(before.input.cursor) + seq!['/'] + before.input.text.skip(
            before.input.cursor,
        ),
{
}

/// The conversation, a rule and the input lie in this order below each other, and fill
/// the panel where it has room for the rule and the input.
pub proof fn law_conversation_rule_and_input_fill_the_panel(
    before: PanelView,
    after: PanelView,
    frame: AgentFrame,
    inner: Rect,
    client: AgentClient,
    agents: Seq<(AgentId, bool)>,
    laid_out: Seq<Seq<Seq<SpanView>>>,
    now: usize,
)
    requires
        renders(before, after, frame, inner, client, agents, laid_out, now),
        before.input_rows(inner.width) >= 0,
        1 + before.input_rows(inner.width) <= inner.height,
        inner.y + inner.height <= u16::MAX,
    ensures
        frame.content_area.y == inner.y,
        frame.content_area.height + 1 + after.input_area.height == inner.height,
        frame.separator_y == inner.y + frame.content_area.height,
        after.input_area.y == frame.separator_y + 1,
        after.input_area.height == before.input_rows(inner.width),
        frame.content_area.x == inner.x && after.input_area.x == inner.x,
        frame.content_area.width == inner.width && after.input_area.width == inner.width,
        frame.hint@.len() <= inner.width ==> frame.separator@.len() + frame.hint@.len()
            == inner.width && frame.hint_x == inner.x + frame.separator@.len(),
        frame.hint@.len() == 0 <==> client.available_commands@.len() == 0,
        !client.is_prompting ==> frame.trail@.len() == 0 && after.anim_start is None,
        client.is_prompting && before.anim_start is Some ==> after.anim_start == before.anim_start,
        client.is_prompting && before.anim_start is None ==> after.anim_start == Some(now),
{
    reveal_strlit(" /: commands ");
}

/// At a new width all entries are measured anew; a conversation that has become shorter is
/// followed from its start.
pub proof fn law_new_width_measures_anew(
    panel: PanelView,
    display: Seq<DisplayLine>,
    markdown: Seq<Seq<Seq<SpanView>>>,
    width: u16,
)
    ensures
        ({
            let now = panel.with_heights(display, markdown, width);
            &&& now.width == width
            &&& now.heights.len() == display.len()
            &&& panel.width != width ==> now.heights == measured(
                Seq::empty(),
                display,
                markdown,
                width,
            ) && now.scroll == panel.scroll && now.pinned == panel.pinned
            &&& panel.width == width && panel.heights.len() > display.len() ==> now.scroll == 0
                && now.pinned
            &&& panel.width == width && panel.heights.len() <= display.len() ==> now.scroll
                == panel.scroll && now.pinned == panel.pinned
            &&& now.input == panel.input && now.area == panel.area
        }),
{
}

/// The keys for the model and for the mode offer the choices of that option; where the agent
/// has no such option the user is told.
pub proof fn law_choices_of_an_option_are_offered(
    client: AgentClient,
    option_id: Seq<char>,
    outcome: PanelOutcome,
)
    requires
        picks(Some(client), option_id, outcome),
    ensures
        select_from(client.config_options@, option_id, 0) is None ==> outcome is NoOption
            && outcome->NoOption_0@ == "No config option '"@ + option_id + "' available"@,
        select_from(client.config_options@, option_id, 0) is Some ==> outcome is Choices,
        outcome matches PanelOutcome::Choices { items, choices } ==> choices_view(choices@)
            == all_choices(select_from(client.config_options@, option_id, 0)->0.options)
            && items@.len() == choices@.len(),
{
    if let PanelOutcome::Choices { items, choices } = outcome {
        assert(items_view(items@).len() == choices_view(choices@).len());
    }
}

/// The title of a panel tells the place of its agent among those that have a session, and
/// none where the agent has no session.
pub proof fn law_title_tells_the_place_of_the_agent(
    text: Seq<char>,
    client: AgentClient,
    agents: Seq<(AgentId, bool)>,
    id: AgentId,
)
    requires
        is_title(text, client, agents, id),
    ensures
        has_session(agents, id) ==> text == panel_title(
            client.name@,
            Some(sessions_before(agents, id, agents.len() as int) as usize),
            client.config_options@,
            text_view(client.current_mode),
            client.usage,
        ),
        !has_session(agents, id) ==> text == panel_title(
            client.name@,
            None,
            client.config_options@,
            text_view(client.current_mode),
            client.usage,
        ),
{
}

/// The keys that ask for something leave the panel and the agent as they are, and offer the
/// models, the modes or what was sent; the keys that edit or scroll change the panel alone.
pub proof fn law_keys_offer_what_they_ask_for(
    before: PanelView,
    client: Option<AgentClient>,
    after: PanelView,
    now: Option<AgentClient>,
    outcome: PanelOutcome,
)
    ensures
        key_handled(before, client, PanelKey::PickModel, after, now, outcome) ==> after == before
            && now == client && picks(client, "model"@, outcome),
        key_handled(before, client, PanelKey::PickMode, after, now, outcome) ==> after == before
            && now == client && picks(client, "mode"@, outcome),
        key_handled(before, client, PanelKey::History, after, now, outcome) ==> after == before
            && now == client,
        key_handled(before, client, PanelKey::History, after, now, outcome) && client is Some
            && user_messages(client->0.display@, 0).len() > 0 ==> outcome is Messages && views(
            outcome->messages@,
        ) == user_messages(client->0.display@, 0),
        key_handled(before, client, PanelKey::History, after, now, outcome) && client is None
            ==> outcome == PanelOutcome::Consumed,
        key_handled(before, client, PanelKey::Backspace, after, now, outcome) ==> now == client
            && outcome == PanelOutcome::Consumed && after.input == before.input.deleted_before()
            && after.scroll == before.scroll,
        key_handled(before, client, PanelKey::Delete, after, now, outcome) ==> now == client
            && outcome == PanelOutcome::Consumed && after.input == before.input.deleted_after(),
        key_handled(before, client, PanelKey::Left, after, now, outcome) ==> now == client
            && after.input == before.input.moved_left(),
        key_handled(before, client, PanelKey::Right, after, now, outcome) ==> now == client
            && after.input == before.input.moved_right(),
        key_handled(before, client, PanelKey::WordLeft, after, now, outcome) ==> after.input
            == before.input.moved_word_left(),
        key_handled(before, client, PanelKey::WordRight, after, now, outcome) ==> after.input
            == before.input.moved_word_right(),
        key_handled(before, client, PanelKey::Newline, after, now, outcome) ==> after.input.text
            == before.input.insert(seq!['\n']).text,
        key_handled(before, client, PanelKey::Fullscreen, after, now, outcome) ==> after.fullscreen
            != before.fullscreen && after.input == before.input,
        key_handled(before, client, PanelKey::Unknown, after, now, outcome) ==> after == before
            && outcome == PanelOutcome::Ignored,
        forall|c: char| #[trigger]
            key_handled(before, client, PanelKey::Insert(c), after, now, outcome) ==> now == client
                && after.input.text == before.input.insert(seq![c]).text && after.input.cursor
                == before.input.cursor + 1,
{
}

/// The command that clears empties the conversation and what was counted of it, and the
/// panel follows it from its start; the agent is told in its session.
pub proof fn law_clear_empties_the_conversation(
    before: PanelView,
    client: AgentClient,
    after: PanelView,
    now: Option<AgentClient>,
    outcome: PanelOutcome,
)
    requires
        submitted(before, Some(client), after, now, outcome),
        before.input.text == "/clear"@,
    ensures
        after.input.text.len() == 0 && after.scroll == 0 && after.pinned && after.heights.len() == 0,
        now is Some && now->0.display@.len() == 0,
        now->0.usage.context_used == 0 && now->0.usage.context_size == 0 && now->0.usage.total_used
            == 0 && now->0.usage.percent == 0 && now->0.usage.cost is None,
        now->0.session_id == client.session_id && now->0.config_options == client.config_options,
        client.session_id is Some ==> now->0.is_prompting && (outcome matches PanelOutcome::Prompt {
            session_id,
            text,
            clears,
        } && session_id@ == client.session_id->0@ && text@ == "/clear"@ && clears),
        client.session_id is None ==> now->0.is_prompting == client.is_prompting && outcome
            == PanelOutcome::Consumed,
{
    reveal_strlit("/clear");
    reveal_strlit("/exit");
    let text = before.input.text;
    law_line_breaks_at_the_end_are_dropped(text, 0);
    assert(text + repeat('\n', 0) =~= text);
    law_trimming_takes_the_whitespace_around(Seq::empty(), text, Seq::empty());
    assert(Seq::<char>::empty() + text + Seq::<char>::empty() =~= text);
    assert("/clear"@.len() != "/exit"@.len());
}

} // verus!
