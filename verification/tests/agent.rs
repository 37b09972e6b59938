use helix_term::acp::client::{
    config_option_current_label, find_label_for_value, AgentClient, AgentCommand, AgentId, Choice,
    ConfigKind, ConfigOption, ConfigSelect, DisplayLine, SelectOptions, SessionUsage,
};
use helix_term::graphics::Rect;
use helix_term::input::{
    InputEvent, KeyCode, KeyEvent, Modifiers, MouseEvent, MouseEventKind,
};
use helix_term::ui::agent::border::{border_cell_pos, border_trail};
use helix_term::ui::agent::lines::{
    build_highlighted, build_lines, entry_height, highlighted_height, lay_out, markdown_of,
    AgentSpan, Paint,
};
use helix_term::ui::agent::menus::{
    command_items, command_text, config_change, history, history_items, option_choices, shorten,
};
use helix_term::ui::agent::panel::{prompt_done, Notice, PanelOutcome};
use helix_term::ui::agent::title::{session_index, strip_suffix, title};
use helix_term::ui::agent::tokens::fmt_tokens;
use helix_term::ui::agent::window::{count_rows, measure, window};
use helix_term::ui::markdown::code::{CodeHighlights, HighlightStep};
use helix_term::ui::spans::Span;
use helix_term::ui::AgentPanel;

const NONE: Modifiers = Modifiers { shift: false, control: false, alt: false, super_key: false };
const CONTROL: Modifiers = Modifiers { shift: false, control: true, alt: false, super_key: false };
const ALT: Modifiers = Modifiers { shift: false, control: false, alt: true, super_key: false };

fn press(code: KeyCode, modifiers: Modifiers) -> InputEvent {
    InputEvent::Key(KeyEvent { code, modifiers })
}

fn choice(value: &str, name: &str) -> Choice {
    Choice { value: value.to_string(), name: name.to_string(), description: None }
}

fn option(id: &str, current: &str, options: SelectOptions) -> ConfigOption {
    let select = ConfigSelect { current_value: current.to_string(), options };
    ConfigOption { id: id.to_string(), kind: ConfigKind::Select(select) }
}

fn options() -> Vec<ConfigOption> {
    vec![
        ConfigOption { id: "model".to_string(), kind: ConfigKind::Other },
        option("model", "large", SelectOptions::Ungrouped(vec![choice("large", "Large")])),
        option(
            "mode",
            "default",
            SelectOptions::Grouped(vec![
                vec![choice("default", "Default (recommended)")],
                vec![choice("plan", "Plan")],
            ]),
        ),
    ]
}

fn client() -> AgentClient {
    AgentClient {
        id: AgentId(4),
        name: "agent".to_string(),
        session_id: Some("s1".to_string()),
        current_mode: None,
        config_options: Vec::new(),
        usage: SessionUsage::none(),
        display: Vec::new(),
        is_prompting: false,
        available_commands: Vec::new(),
        pending_command: None,
        auto_continue: false,
        auto_accept_edits: false,
        pending_edits: Vec::new(),
        pending_clean_context: None,
    }
}

// ── Token counts ─────────────────────────────────────────────────────────────

#[test]
fn token_counts_are_compact() {
    assert_eq!(fmt_tokens(0), "0");
    assert_eq!(fmt_tokens(999), "999");
    assert_eq!(fmt_tokens(1234), "1.2k");
    assert_eq!(fmt_tokens(1234567), "1.2M");
    assert_eq!(fmt_tokens(1250), "1.2k");
    assert_eq!(fmt_tokens(1350), "1.4k");
    assert_eq!(fmt_tokens(999_999), "1000.0k");
}

#[test]
fn token_counts_are_rounded_as_doubles_are() {
    let mut n: u64 = 1;
    let mut samples: Vec<u64> = (0..40_000).map(|i| 1000 + i * 50).collect();
    for _ in 0..2000 {
        n = n.wrapping_mul(6364136223846793005).wrapping_add(1442695040888963407);
        samples.push(n >> (n % 40));
    }
    samples.push(u64::MAX);
    samples.push((1 << 53) + 1);
    for n in samples {
        let expected = if n >= 1_000_000 {
            format!("{:.1}M", n as f64 / 1_000_000.0)
        } else if n >= 1_000 {
            format!("{:.1}k", n as f64 / 1_000.0)
        } else {
            n.to_string()
        };
        assert_eq!(fmt_tokens(n), expected);
    }
}

// ── Border ───────────────────────────────────────────────────────────────────

#[test]
fn border_is_gone_round_clockwise() {
    let area = Rect::new(2, 3, 3, 3);
    let cells: Vec<(u16, u16)> = (0..8).map(|i| border_cell_pos(area, i)).collect();
    assert_eq!(
        cells,
        vec![(2, 3), (3, 3), (4, 3), (4, 4), (4, 5), (3, 5), (2, 5), (2, 4)]
    );
    assert_eq!(border_cell_pos(area, 8), (2, 3));
    assert_eq!(border_cell_pos(Rect::new(0, 0, 1, 3), 3), (0, 1));
    assert_eq!(border_cell_pos(Rect::new(0, 0, 3, 1), 3), (1, 0));
}

#[test]
fn trail_follows_its_head() {
    let area = Rect::new(0, 0, 30, 20);
    let trail = border_trail(area, 5);
    assert_eq!(trail.len(), 20);
    assert_eq!(trail[0], (5, 0));
    assert_eq!(trail[5], (0, 0));
    assert_eq!(trail[6], (0, 1));
    assert_eq!(border_trail(area, 6)[1..], trail[..19]);
    assert_eq!(border_trail(Rect::new(0, 0, 3, 3), 0).len(), 4);
    assert_eq!(border_trail(Rect::new(0, 0, 1, 1), 7), vec![]);
}

// ── Title ────────────────────────────────────────────────────────────────────

#[test]
fn labels_are_looked_up_in_the_options() {
    let all = options();
    assert_eq!(config_option_current_label(&all, "model").as_deref(), Some("large"));
    assert_eq!(config_option_current_label(&all, "other"), None);
    assert_eq!(find_label_for_value(&all, "mode", "plan").as_deref(), Some("Plan"));
    assert_eq!(find_label_for_value(&all, "mode", "x").as_deref(), Some("x"));
    assert_eq!(find_label_for_value(&all, "other", "x"), None);
}

#[test]
fn sessions_are_counted_in_the_order_of_their_agents() {
    let agents = vec![(AgentId(9), true), (AgentId(2), false), (AgentId(4), true), (AgentId(1), true)];
    assert_eq!(session_index(&agents, AgentId(4)), Some(1));
    assert_eq!(session_index(&agents, AgentId(9)), Some(2));
    assert_eq!(session_index(&agents, AgentId(2)), None);
}

#[test]
fn title_tells_model_mode_and_usage() {
    let usage = SessionUsage {
        context_used: 1234,
        context_size: 200_000,
        total_used: 2_500_000,
        percent: 0,
        cost: Some("0.42USD".to_string()),
    };
    let mode = Some("default".to_string());
    assert_eq!(
        title("agent", Some(0), &options(), &mode, &usage),
        " agent [1] [large] [Default] [0% 1.2k/200.0k/2.5M 0.42USD] "
    );
    let none = SessionUsage::none();
    assert_eq!(title("agent", None, &Vec::new(), &None, &none), " agent ");
    let auto = Some("acceptEdits".to_string());
    assert_eq!(title("agent", None, &Vec::new(), &auto, &none), " agent [edit] ");
    let plan = Some("planMode".to_string());
    assert_eq!(title("agent", None, &Vec::new(), &plan, &none), " agent [plan] ");
    let tokens = SessionUsage { total_used: 900, ..SessionUsage::none() };
    assert_eq!(title("a", None, &Vec::new(), &None, &tokens), " a [900] ");
    assert_eq!(strip_suffix("Default (recommended)"), "Default");
    assert_eq!(strip_suffix("a(b)"), "a(b)");
}

// ── Lines ────────────────────────────────────────────────────────────────────

fn text_of(line: &[AgentSpan]) -> String {
    line.iter().map(|s| s.span.content.as_str()).collect()
}

fn lines(display: &Vec<DisplayLine>) -> Vec<String> {
    let markdown: Vec<Vec<Vec<Span>>> = display.iter().map(markdown_of).collect();
    let all = build_lines(display, &markdown, 0, display.len());
    all.iter().map(|line| text_of(line)).collect()
}

fn done(output: &[&str], status: &str) -> DisplayLine {
    DisplayLine::ToolDone {
        name: "Read".to_string(),
        input: "a.rs".to_string(),
        status: status.to_string(),
        output: output.iter().map(|s| s.to_string()).collect(),
    }
}

#[test]
fn entries_become_lines() {
    let display = vec![
        DisplayLine::Text("Some *text*".to_string()),
        DisplayLine::ToolCall { name: "Bash".to_string(), input: String::new() },
        done(&[], "done"),
        done(&["one", "two"], "failed"),
        DisplayLine::PlanStep { done: true, description: "first".to_string() },
        DisplayLine::PlanStep { done: false, description: "second".to_string() },
        DisplayLine::UserMessage("hi\nthere".to_string()),
        DisplayLine::Separator,
    ];
    assert_eq!(
        lines(&display),
        vec![
            "Some text".to_string(),
            "● Bash".to_string(),
            "● Read(a.rs)".to_string(),
            "  ⎿  Done".to_string(),
            "● Read(a.rs)".to_string(),
            "  ⎿  one".to_string(),
            "     two".to_string(),
            "[x] first".to_string(),
            "[-] second".to_string(),
            "You: hi".to_string(),
            "     there".to_string(),
            "─".repeat(40),
        ]
    );
}

#[test]
fn lines_are_painted_by_what_they_say() {
    let display = vec![done(&[], "completed"), done(&[], "failed")];
    let markdown: Vec<Vec<Vec<Span>>> = display.iter().map(markdown_of).collect();
    let all = build_lines(&display, &markdown, 0, 2);
    assert_eq!(all[0][0].paint, Paint::Succeeded);
    assert_eq!(all[0][1].paint, Paint::Done);
    assert_eq!(all[1][0].paint, Paint::Thought);
    assert_eq!(all[2][0].paint, Paint::Failed);
    let thought = vec![DisplayLine::Thought("hm".to_string())];
    let markdown: Vec<Vec<Vec<Span>>> = thought.iter().map(markdown_of).collect();
    assert_eq!(build_lines(&thought, &markdown, 0, 1)[0][0].paint, Paint::Faint);
}

#[test]
fn entries_take_the_rows_of_their_lines() {
    let entry = DisplayLine::UserMessage("x".repeat(20));
    assert_eq!(entry_height(&entry, &Vec::new(), 10), 3);
    assert_eq!(entry_height(&entry, &Vec::new(), 25), 1);
    assert_eq!(entry_height(&entry, &Vec::new(), 0), 1);
    assert_eq!(entry_height(&done(&["a", "b"], "done"), &Vec::new(), 40), 3);
}

#[test]
fn window_covers_the_view() {
    let heights = vec![3, 2, 4, 1, 5];
    assert_eq!(count_rows(&heights), 15);
    let w = window(&heights, 4, 4);
    assert_eq!((w.first, w.end, w.skip), (1, 4, 1));
    let w = window(&heights, 0, 3);
    assert_eq!((w.first, w.end, w.skip), (0, 2, 0));
    let w = window(&heights, 15, 3);
    assert_eq!((w.first, w.end, w.skip), (5, 5, 0));
    let w = window(&Vec::new(), 0, 3);
    assert_eq!((w.first, w.end, w.skip), (0, 0, 0));
}

#[test]
fn settled_heights_are_kept() {
    let display: Vec<DisplayLine> =
        (0..5).map(|_| DisplayLine::UserMessage("x".to_string())).collect();
    let markdown: Vec<Vec<Vec<Span>>> = display.iter().map(markdown_of).collect();
    let mut heights = vec![7, 7, 7, 7, 7];
    measure(&mut heights, &display, &markdown, 40);
    assert_eq!(heights, vec![7, 7, 7, 1, 1]);
    let mut live = display;
    live[1] = DisplayLine::ToolCall { name: "a".to_string(), input: "b".to_string() };
    let markdown: Vec<Vec<Vec<Span>>> = live.iter().map(markdown_of).collect();
    let mut heights = vec![7, 7, 7];
    measure(&mut heights, &live, &markdown, 40);
    assert_eq!(heights, vec![7, 1, 1, 1, 1]);
}

// ── Menus ────────────────────────────────────────────────────────────────────

fn commands() -> Vec<AgentCommand> {
    vec![
        AgentCommand {
            name: "init".to_string(),
            description: "Start".to_string(),
            takes_input: false,
        },
        AgentCommand {
            name: "ask".to_string(),
            description: "Ask".to_string(),
            takes_input: true,
        },
    ]
}

#[test]
fn commands_of_the_panel_come_first() {
    let items = command_items(&commands());
    let labels: Vec<&str> = items.iter().map(|i| i.label.as_str()).collect();
    assert_eq!(labels, vec!["/exit", "/clear", "/init", "/ask"]);
    assert_eq!(items[0].sublabel.as_deref(), Some("End session and close panel"));
    assert_eq!(items[3].sublabel.as_deref(), Some("Ask"));
    assert_eq!(command_text(&commands(), 1).as_deref(), Some("/clear"));
    assert_eq!(command_text(&commands(), 2).as_deref(), Some("/init"));
    assert_eq!(command_text(&commands(), 3).as_deref(), Some("/ask "));
    assert_eq!(command_text(&commands(), 4), None);
}

#[test]
fn history_begins_with_the_last_message() {
    let display = vec![
        DisplayLine::UserMessage("one".to_string()),
        DisplayLine::Separator,
        DisplayLine::UserMessage("x".repeat(90)),
    ];
    let messages = history(&display);
    assert_eq!(messages, vec!["x".repeat(90), "one".to_string()]);
    let items = history_items(&messages);
    assert_eq!(items[0].label, format!("{}\u{2026}", "x".repeat(80)));
    assert_eq!(items[1].label, "one");
    assert_eq!(shorten(&"x".repeat(80)), "x".repeat(80));
}

#[test]
fn options_are_changed_by_their_choices() {
    let choices = option_choices(&options(), "mode").unwrap();
    assert_eq!(choices.len(), 2);
    assert_eq!(
        config_change("mode", &choices, 1),
        Some(("mode".to_string(), "plan".to_string()))
    );
    assert_eq!(config_change("mode", &choices, 2), None);
    assert_eq!(
        option_choices(&options(), "speed").unwrap_err(),
        "No config option 'speed' available"
    );
}

// ── Panel ────────────────────────────────────────────────────────────────────

fn frame_lines(panel: &mut AgentPanel, client: &AgentClient, height: u16) -> (Vec<String>, u16) {
    let markdown: Vec<Vec<Vec<Span>>> = client.display.iter().map(markdown_of).collect();
    let agents = vec![(client.id, client.session_id.is_some())];
    let frame = panel.render(Rect::new(1, 1, 40, height), client, &agents, &markdown, 0);
    (frame.lines.iter().map(|l| text_of(l)).collect(), frame.scroll)
}

fn talk(n: usize) -> AgentClient {
    let mut client = client();
    client.display = (0..n).map(|i| DisplayLine::UserMessage(format!("{i}"))).collect();
    client
}

#[test]
fn entries_are_laid_out_with_their_highlights() {
    let step = |offset, id| HighlightStep { offset, refresh: false, highlights: vec![id] };
    let code = |at| Some(CodeHighlights { syntax: vec![step(0, 3), step(at, 4)], overlay: vec![] });
    let entry = || DisplayLine::Text("```rust\nlet é;\n```".to_string());
    let display = vec![DisplayLine::Separator, entry(), entry()];
    let given = vec![vec![], vec![code(6)]];
    let all = build_highlighted(&display, &given, 1, 3).unwrap();
    assert_eq!(all.len(), 2);
    assert_eq!(text_of(&all[0]), "let é;");
    assert_eq!(all[0][0].span.highlights, vec![3]);
    assert_eq!(all[0][1].span.highlights, vec![3, 4]);
    assert_eq!(all[1].len(), 1);
    assert!(all[1][0].span.highlights.is_empty());
    let bad = vec![vec![], vec![code(5)]];
    assert!(build_highlighted(&display, &bad, 1, 3).is_none());
    assert_eq!(highlighted_height(&display[1], &given[1], 3), Some(2));
    assert_eq!(highlighted_height(&display[1], &bad[1], 3), None);
    assert!(lay_out(&display, &bad).is_none());
    assert_eq!(lay_out(&display, &given).unwrap().len(), 3);

    let mut client = client();
    client.display = display;
    let mut panel = AgentPanel::new(AgentId(4));
    let inner = Rect::new(1, 1, 40, 10);
    assert!(panel.draw(inner, &client, &vec![], &bad, 0).is_none());
    let frame = panel.draw(inner, &client, &vec![], &given, 0).unwrap();
    assert_eq!(frame.lines.len(), 3);
    assert_eq!(frame.lines[1][1].span.highlights, vec![3, 4]);
}

#[test]
fn cursor_of_the_panel_is_within_its_input() {
    let mut panel = AgentPanel::new(AgentId(4));
    let client = client();
    let inner = Rect::new(1, 1, 5, 12);
    panel.insert_input_text("hello");
    let frame = panel.draw(inner, &client, &vec![], &vec![], 0).unwrap();
    // Two rows are set apart below the rule: the full one and that of the cursor.
    assert_eq!(frame.separator_y, 10);
    assert_eq!(frame.input.len(), 1);
    assert_eq!(panel.cursor(), Some((12, 1)));
}

#[test]
fn panel_lies_at_the_bottom_right() {
    let mut panel = AgentPanel::new(AgentId(4));
    assert_eq!(panel.place(Rect::new(0, 0, 100, 50)), Rect::new(40, 8, 60, 40));
    assert_eq!(panel.place(Rect::new(0, 0, 30, 50)), Rect::new(0, 8, 30, 40));
    let mut client = Some(client());
    panel.handle_event(&press(KeyCode::Char('F'), ALT), &mut client);
    assert_eq!(panel.place(Rect::new(0, 0, 100, 50)), Rect::new(0, 0, 100, 50));
    assert_eq!(panel.place(Rect::new(0, 0, 60000, 60000)), Rect::new(0, 0, 60000, 60000));
}

#[test]
fn panel_follows_the_end() {
    let mut panel = AgentPanel::new(AgentId(4));
    let client = talk(30);
    let (lines, _) = frame_lines(&mut panel, &client, 12);
    assert_eq!(lines.last().unwrap(), "You: 29");
    let longer = talk(40);
    let (lines, _) = frame_lines(&mut panel, &longer, 12);
    assert_eq!(lines.last().unwrap(), "You: 39");
}

#[test]
fn panel_stays_where_it_was_scrolled_to() {
    let mut panel = AgentPanel::new(AgentId(4));
    let mut client = Some(talk(30));
    frame_lines(&mut panel, client.as_ref().unwrap(), 12);
    panel.handle_event(&press(KeyCode::PageUp, NONE), &mut client);
    let (before, _) = frame_lines(&mut panel, client.as_ref().unwrap(), 12);
    assert_eq!(before[0], "You: 10");
    let (after, _) = frame_lines(&mut panel, &talk(40), 12);
    assert_eq!(after[0], "You: 10");
    panel.handle_event(&press(KeyCode::End, NONE), &mut client);
    let (end, _) = frame_lines(&mut panel, &talk(40), 12);
    assert_eq!(end.last().unwrap(), "You: 39");
    panel.handle_event(&press(KeyCode::Home, NONE), &mut client);
    let (start, _) = frame_lines(&mut panel, &talk(40), 12);
    assert_eq!(start[0], "You: 0");
}

#[test]
fn panel_is_drawn_with_its_input_and_hint() {
    let mut panel = AgentPanel::new(AgentId(4));
    let mut client = client();
    client.available_commands = commands();
    client.is_prompting = true;
    panel.place(Rect::new(0, 0, 100, 50));
    panel.insert_input_text("hello");
    let agents = vec![(AgentId(4), true)];
    let frame = panel.render(Rect::new(42, 9, 56, 38), &client, &agents, &Vec::new(), 160);
    assert_eq!(frame.title, " agent [1] ");
    assert_eq!(frame.hint, " /: commands ");
    assert_eq!(frame.separator, "─".repeat(43));
    assert_eq!(frame.hint_x, 85);
    assert_eq!(frame.separator_y, 45);
    assert_eq!(frame.content_area, Rect::new(42, 9, 56, 36));
    assert_eq!(frame.input[0].text, "hello");
    assert_eq!(frame.input[0].y, 46);
    assert_eq!(text_of(&frame.lines[0]), "...");
    assert_eq!(frame.trail.len(), 20);
    assert_eq!(frame.trail[0], (40, 8));
    assert_eq!(panel.cursor(), Some((46, 47)));
    let frame = panel.render(Rect::new(42, 9, 56, 38), &client, &agents, &Vec::new(), 340);
    assert_eq!(frame.trail[0], (42, 8));
}

#[test]
fn cursor_is_hidden_until_the_panel_is_drawn() {
    assert_eq!(AgentPanel::new(AgentId(4)).cursor(), None);
}

#[test]
fn message_is_sent_and_shown() {
    let mut panel = AgentPanel::new(AgentId(4));
    let mut client = Some(client());
    panel.insert_input_text("hello\n\n");
    match panel.handle_event(&press(KeyCode::Enter, CONTROL), &mut client) {
        PanelOutcome::Prompt { session_id, text, clears } => {
            assert_eq!((session_id.as_str(), text.as_str(), clears), ("s1", "hello", false));
        }
        _ => panic!(),
    }
    let now = client.as_ref().unwrap();
    assert!(now.is_prompting);
    assert_eq!(lines(&now.display), vec!["You: hello".to_string()]);
    panel.insert_input_text("again");
    panel.handle_event(&press(KeyCode::Enter, ALT), &mut client);
    let display = &client.as_ref().unwrap().display;
    assert_eq!(display.len(), 3);
    assert!(matches!(display[1], DisplayLine::Separator));
    let notice = prompt_done(&mut client, false, &Ok("EndTurn".to_string()));
    assert!(matches!(notice, Notice::Status(text) if text == "Agent done (EndTurn)"));
    assert!(!client.as_ref().unwrap().is_prompting);
    let notice = prompt_done(&mut client, false, &Err("broken".to_string()));
    assert!(matches!(notice, Notice::Error(text) if text == "Agent error: broken"));
}

#[test]
fn message_waits_for_a_session() {
    let mut panel = AgentPanel::new(AgentId(4));
    let mut client = Some(AgentClient { session_id: None, ..client() });
    panel.insert_input_text("hello");
    let outcome = panel.handle_event(&press(KeyCode::Enter, CONTROL), &mut client);
    assert!(matches!(outcome, PanelOutcome::NotReady));
    match outcome.notice() {
        Some(Notice::Error(text)) => assert_eq!(text, "Agent is still initializing"),
        _ => panic!(),
    }
    let outcome = panel.handle_event(&press(KeyCode::Enter, CONTROL), &mut client);
    assert!(matches!(outcome, PanelOutcome::Consumed));
}

#[test]
fn commands_of_the_panel_are_carried_out() {
    let mut panel = AgentPanel::new(AgentId(4));
    let mut client = Some(talk(3));
    panel.insert_input_text(" /clear ");
    match panel.handle_event(&press(KeyCode::Enter, CONTROL), &mut client) {
        PanelOutcome::Prompt { text, clears, .. } => {
            assert_eq!((text.as_str(), clears), (" /clear ", true));
        }
        _ => panic!(),
    }
    assert_eq!(client.as_ref().unwrap().display.len(), 0);
    client.as_mut().unwrap().display.push(DisplayLine::Separator);
    let notice = prompt_done(&mut client, true, &Ok("EndTurn".to_string()));
    assert!(matches!(notice, Notice::Status(text) if text == "Context cleared"));
    assert_eq!(client.as_ref().unwrap().display.len(), 0);
    panel.insert_input_text("/exit");
    let outcome = panel.handle_event(&press(KeyCode::Enter, CONTROL), &mut client);
    assert!(matches!(outcome, PanelOutcome::Ended));
    assert!(matches!(outcome.notice(), Some(Notice::Status(t)) if t == "Agent session ended"));
}

#[test]
fn escape_cancels_the_work() {
    let mut panel = AgentPanel::new(AgentId(4));
    let mut client = Some(AgentClient { is_prompting: true, ..client() });
    match panel.handle_event(&press(KeyCode::Esc, NONE), &mut client) {
        PanelOutcome::Cancelled(session) => assert_eq!(session.as_deref(), Some("s1")),
        _ => panic!(),
    }
    assert!(!client.as_ref().unwrap().is_prompting);
    let outcome = panel.handle_event(&press(KeyCode::Esc, NONE), &mut client);
    assert!(matches!(outcome, PanelOutcome::Consumed));
}

#[test]
fn keys_open_menus() {
    let mut panel = AgentPanel::new(AgentId(4));
    let mut client = Some(AgentClient {
        config_options: options(),
        available_commands: commands(),
        ..talk(2)
    });
    match panel.handle_event(&press(KeyCode::Char('/'), NONE), &mut client) {
        PanelOutcome::Commands(items) => assert_eq!(items.len(), 4),
        _ => panic!(),
    }
    match panel.handle_event(&press(KeyCode::Char('m'), ALT), &mut client) {
        PanelOutcome::Choices { items, .. } => assert_eq!(items[0].label, "Large"),
        _ => panic!(),
    }
    match panel.handle_event(&press(KeyCode::Char('p'), ALT), &mut client) {
        PanelOutcome::Choices { choices, .. } => assert_eq!(choices[1].value, "plan"),
        _ => panic!(),
    }
    match panel.handle_event(&press(KeyCode::Char('/'), ALT), &mut client) {
        PanelOutcome::Messages { messages, .. } => {
            assert_eq!(messages, vec!["1".to_string(), "0".to_string()])
        }
        _ => panic!(),
    }
    let mut bare = Some(self::client());
    match panel.handle_event(&press(KeyCode::Char('m'), ALT), &mut bare) {
        PanelOutcome::NoOption(text) => assert_eq!(text, "No config option 'model' available"),
        _ => panic!(),
    }
    panel.insert_input_text("a");
    let outcome = panel.handle_event(&press(KeyCode::Char('/'), NONE), &mut client);
    assert!(matches!(outcome, PanelOutcome::Consumed));
}

#[test]
fn picked_command_goes_into_the_input() {
    let mut panel = AgentPanel::new(AgentId(4));
    let mut client = Some(AgentClient { pending_command: Some("/init".to_string()), ..client() });
    let outcome = panel.handle_event(&InputEvent::Other, &mut client);
    assert!(matches!(outcome, PanelOutcome::Consumed));
    assert_eq!(client.as_ref().unwrap().pending_command, None);
    match panel.handle_event(&press(KeyCode::Enter, CONTROL), &mut client) {
        PanelOutcome::Prompt { text, .. } => assert_eq!(text, "/init"),
        _ => panic!(),
    }
}

#[test]
fn input_is_edited_by_key() {
    let mut panel = AgentPanel::new(AgentId(4));
    let mut client = Some(client());
    for c in "ab".chars() {
        panel.handle_event(&press(KeyCode::Char(c), NONE), &mut client);
    }
    panel.handle_event(&InputEvent::Paste("cd".to_string()), &mut client);
    panel.handle_event(&press(KeyCode::Left, NONE), &mut client);
    panel.handle_event(&press(KeyCode::Backspace, NONE), &mut client);
    panel.handle_event(&press(KeyCode::Delete, NONE), &mut client);
    panel.handle_event(&press(KeyCode::Enter, NONE), &mut client);
    panel.handle_event(&press(KeyCode::Char('x'), NONE), &mut client);
    match panel.handle_event(&press(KeyCode::Enter, CONTROL), &mut client) {
        PanelOutcome::Prompt { text, .. } => assert_eq!(text, "ab\nx"),
        _ => panic!(),
    }
    let outcome = panel.handle_event(&press(KeyCode::Char('x'), CONTROL), &mut client);
    assert!(matches!(outcome, PanelOutcome::Ignored));
}

#[test]
fn wheel_scrolls_over_the_panel_only() {
    let mut panel = AgentPanel::new(AgentId(4));
    let mut client = Some(talk(30));
    panel.place(Rect::new(0, 0, 100, 50));
    let wheel = |column: u16, row: u16| {
        InputEvent::Mouse(MouseEvent {
            kind: MouseEventKind::ScrollUp,
            column,
            row,
            modifiers: NONE,
        })
    };
    assert!(matches!(panel.handle_event(&wheel(3, 3), &mut client), PanelOutcome::Ignored));
    assert!(matches!(panel.handle_event(&wheel(50, 20), &mut client), PanelOutcome::Consumed));
    assert!(matches!(panel.handle_event(&wheel(50, 48), &mut client), PanelOutcome::Ignored));
}
