use helix_term::acp::client::{AgentClient, AgentId, DisplayLine, SessionUsage};
use helix_term::acp::events::{
    read_reply, AcpEvent, AcpSideEffect, AgentChange, Cost, FileRequest, PlanEntry, SessionUpdate,
    ToolCallNews, ToolCallStart, ToolKind, ToolStatus,
};
use helix_term::acp::permission::{
    flush_clean_context, on_choice, show_acp_permission_dialog, PermOption, PermissionKind,
    PermissionOption, PermissionOutcome, PermissionRequest, PermissionStep,
};
use helix_term::acp::tools::{
    format_tool_input, truncate_display, Content, ToolContent, ToolLocation,
};
use helix_term::editor::{
    after_reload, Editor, FileStep, OpenDocument, ReloadTarget, Reloading, ViewSelection,
};
use helix_term::json::{Json, JsonEntry};
use helix_term::mcp::positions::Selection;
use helix_term::session::SessionEntry;
use helix_term::ui::prompt::PromptEvent;

fn agent(id: u64) -> AgentClient {
    AgentClient {
        id: AgentId(id),
        name: "agent".to_string(),
        session_id: None,
        current_mode: None,
        config_options: Vec::new(),
        usage: SessionUsage::none(),
        display: Vec::new(),
        is_prompting: false,
        available_commands: Vec::new(),
        pending_command: None,
        auto_continue: false,
        auto_accept_edits: false,
        pending_edits: Vec::new(),
        pending_clean_context: None,
    }
}

fn open_doc(id: usize, path: &str, views: &[usize]) -> OpenDocument {
    let selection = Selection { anchor: 0, head: 0 };
    OpenDocument {
        id,
        path: Some(path.to_string()),
        text: String::new(),
        selections: views.iter().map(|&view| ViewSelection { view, selection }).collect(),
    }
}

fn editor() -> Editor {
    Editor {
        agents: vec![agent(1), agent(2)],
        documents: vec![open_doc(7, "/a.rs", &[3, 4]), open_doc(8, "/b.rs", &[])],
        focus: 3,
        focused_doc: 7,
        claude_ide: None,
        claude_diff_views: Vec::new(),
        ide_name: String::new(),
        notify_selection: true,
    }
}

fn location(path: &str, name: Option<&str>) -> ToolLocation {
    ToolLocation { path: path.to_string(), file_name: name.map(|n| n.to_string()) }
}

fn object(entries: &[(&str, Json)]) -> Json {
    let mut all = Vec::new();
    for (key, value) in entries {
        let value = match value {
            Json::Text(text) => Json::Text(text.clone()),
            Json::Number(number) => Json::Number(number.clone()),
            _ => Json::Null,
        };
        all.push(JsonEntry { key: key.to_string(), value });
    }
    Json::Object(all)
}

fn text(s: &str) -> Json {
    Json::Text(s.to_string())
}

#[test]
fn long_texts_are_truncated() {
    assert_eq!(truncate_display("short", 60), "short");
    assert_eq!(truncate_display(&"x".repeat(60), 60), "x".repeat(60));
    assert_eq!(truncate_display(&"x".repeat(61), 60), format!("{}…", "x".repeat(57)));
    // Characters are counted, not bytes.
    assert_eq!(truncate_display(&"é".repeat(40), 60), "é".repeat(40));
}

#[test]
fn tool_input_prefers_file_names() {
    let locations = vec![location("/x/a.rs", Some("a.rs")), location("/..", None)];
    assert_eq!(format_tool_input(&None, &locations), "a.rs, /..");
    let raw = Some(object(&[
        ("command", text("ls")),
        ("flag", Json::Bool(true)),
        ("n", Json::Number("3".to_string())),
    ]));
    assert_eq!(format_tool_input(&raw, &Vec::new()), "ls, 3");
    assert_eq!(format_tool_input(&Some(Json::Null), &Vec::new()), "");
    assert_eq!(format_tool_input(&None, &Vec::new()), "");
    let long = Some(object(&[("command", text(&"x".repeat(100)))]));
    assert_eq!(format_tool_input(&long, &Vec::new()).chars().count(), 58);
}

fn session(update: SessionUpdate) -> AcpEvent {
    AcpEvent::SessionNotification(update)
}

#[test]
fn chunks_are_put_behind_the_conversation() {
    let chunk = || Content::Text("hi".to_string());
    let step = editor()
        .handle_acp_event(AgentId(1), session(SessionUpdate::AgentMessageChunk(chunk())));
    assert!(matches!(step.change, Some(AgentChange::AppendText(t)) if t == "hi"));
    let step = editor()
        .handle_acp_event(AgentId(1), session(SessionUpdate::AgentThoughtChunk(chunk())));
    assert!(matches!(step.change, Some(AgentChange::AppendThought(t)) if t == "hi"));
    let step = editor()
        .handle_acp_event(AgentId(1), session(SessionUpdate::UserMessageChunk(Content::Other)));
    assert!(step.change.is_none());
    let step = editor()
        .handle_acp_event(AgentId(9), session(SessionUpdate::AgentMessageChunk(chunk())));
    assert!(step.change.is_none());
}

fn call(kind: ToolKind) -> SessionUpdate {
    SessionUpdate::ToolCall(ToolCallStart {
        id: "t1".to_string(),
        title: "Read".to_string(),
        kind,
        locations: vec![location("/x/a.rs", Some("a.rs"))],
        raw_input: None,
    })
}

#[test]
fn files_that_are_read_are_opened() {
    let step = editor().handle_acp_event(AgentId(1), session(call(ToolKind::Read)));
    assert_eq!(step.opens, vec!["/x/a.rs".to_string()]);
    match step.change {
        Some(AgentChange::StartToolCall { id, title, input, edit_paths }) => {
            assert_eq!((id.as_str(), title.as_str(), input.as_str()), ("t1", "Read", "a.rs"));
            assert!(edit_paths.is_none());
        }
        _ => panic!(),
    }
    let step = editor().handle_acp_event(AgentId(1), session(call(ToolKind::Edit)));
    assert!(step.opens.is_empty());
    match step.change {
        Some(AgentChange::StartToolCall { edit_paths, .. }) => {
            assert_eq!(edit_paths, Some(vec!["/x/a.rs".to_string()]));
        }
        _ => panic!(),
    }
}

#[test]
fn news_of_a_tool_are_gathered() {
    let news = ToolCallNews {
        id: "t1".to_string(),
        title: None,
        status: Some(ToolStatus::Completed),
        locations: Some(vec![location("/x/a.rs", Some("a.rs"))]),
        raw_input: Some(object(&[("file_path", text("/x/b.rs"))])),
        content: Some(vec![
            ToolContent::Content(Content::Text("one\ntwo".to_string())),
            ToolContent::Diff("/x/c.rs".to_string()),
            ToolContent::Other,
        ]),
    };
    let step = editor().handle_acp_event(AgentId(1), session(SessionUpdate::ToolCallUpdate(news)));
    match step.change {
        Some(AgentChange::UpdateToolCall(update)) => {
            assert_eq!(update.paths, vec!["/x/a.rs".to_string(), "/x/b.rs".to_string()]);
            assert_eq!(
                update.output,
                vec!["one".to_string(), "two".to_string(), "~ /x/c.rs".to_string()]
            );
            assert_eq!(update.input, "a.rs");
            assert!(update.is_completed);
            assert!(!update.is_failed);
        }
        _ => panic!(),
    }
}

#[test]
fn state_of_the_agent_is_kept_up_to_date() {
    let mut editor = editor();
    editor.handle_acp_event(
        AgentId(2),
        session(SessionUpdate::CurrentModeUpdate("plan".to_string())),
    );
    assert_eq!(editor.agents[1].current_mode.as_deref(), Some("plan"));
    assert_eq!(editor.agents[0].current_mode, None);
    let step = editor.handle_acp_event(AgentId(1), AcpEvent::Disconnected);
    assert!(step.stop);
    assert_eq!(editor.agents.len(), 1);
    assert_eq!(editor.agents[0].id, AgentId(2));
    let plan = vec![PlanEntry { content: "one".to_string(), completed: true }];
    let step = editor.handle_acp_event(AgentId(2), session(SessionUpdate::Plan(plan)));
    assert!(matches!(step.change, Some(AgentChange::SetPlan(p)) if p[0].completed));
}

#[test]
fn files_are_read_and_written_for_the_agent() {
    let mut editor = editor();
    let step = editor.handle_acp_event(AgentId(1), AcpEvent::ReadTextFile { path: "/a".to_string() });
    assert!(matches!(step.file, Some(FileRequest::Read { path }) if path == "/a"));
    let step = editor.handle_acp_event(
        AgentId(1),
        AcpEvent::WriteTextFile { path: "/a".to_string(), content: "x".to_string() },
    );
    assert!(matches!(step.file, Some(FileRequest::Write { content, .. }) if content == "x"));
    assert_eq!(read_reply(Some("x".to_string())), "x");
    assert_eq!(read_reply(None), "");
    let step = editor.handle_acp_event(
        AgentId(1),
        AcpEvent::UsageUpdate {
            used: 1,
            size: 2,
            cost: Cost { amount: 0, currency: "USD".to_string() },
        },
    );
    assert!(matches!(step.change, Some(AgentChange::UpdateUsage { used: 1, size: 2, .. })));
    let step = editor.handle_acp_event(
        AgentId(1),
        AcpEvent::TurnTokens {
            input_tokens: 1,
            output_tokens: 2,
            cache_read_tokens: 3,
            cache_write_tokens: 4,
        },
    );
    assert!(matches!(step.change, Some(AgentChange::AddTurnTokens { cache_write_tokens: 4, .. })));
}

fn permission(id: &str, kind: PermissionKind) -> PermissionOption {
    PermissionOption { option_id: id.to_string(), name: format!("name of {id}"), kind }
}

fn request(raw_input: Option<Json>) -> PermissionRequest {
    PermissionRequest {
        title: Some("Edit".to_string()),
        raw_input,
        options: vec![
            permission("always", PermissionKind::AllowAlways),
            permission("once", PermissionKind::AllowOnce),
            permission("no", PermissionKind::RejectOnce),
        ],
    }
}

#[test]
fn questions_and_plans_are_shown_in_the_conversation() {
    let question = PermissionRequest {
        title: Some("AskUserQuestion".to_string()),
        ..request(Some(object(&[("question", text("Why?"))])))
    };
    let step = editor().handle_acp_event(AgentId(1), AcpEvent::RequestPermission(question));
    assert!(matches!(step.change, Some(AgentChange::AppendText(t)) if t == "Why?"));
    match step.effect {
        AcpSideEffect::QuestionDialog { agent_id, question, options } => {
            assert_eq!((agent_id, question.as_str(), options.len()), (AgentId(1), "Why?", 3));
        }
        _ => panic!(),
    }
    let plan = request(Some(object(&[("plan", text("1. go"))])));
    let step = editor().handle_acp_event(AgentId(1), AcpEvent::RequestPermission(plan));
    assert!(matches!(step.change, Some(AgentChange::AppendText(t)) if t == "1. go"));
    assert!(matches!(step.effect, AcpSideEffect::PermissionDialog { .. }));
}

fn labels(step: PermissionStep) -> Vec<String> {
    match step {
        PermissionStep::Ask(dialog) => {
            assert_eq!(dialog.id(), Some("acp-permission"));
            assert!(!dialog.auto_close());
            dialog.options().iter().map(|o| o.format().to_string()).collect()
        }
        PermissionStep::Reply(_) => panic!(),
    }
}

#[test]
fn dialog_puts_allowing_for_good_last() {
    assert_eq!(
        labels(show_acp_permission_dialog(request(None))),
        vec!["name of once", "name of no", "name of always"]
    );
    assert_eq!(
        labels(show_acp_permission_dialog(request(Some(object(&[("plan", text("p"))]))))),
        vec!["Apply (clean context)", "name of once", "name of no", "name of always"]
    );
    let empty = PermissionRequest { title: None, raw_input: None, options: Vec::new() };
    assert!(matches!(
        show_acp_permission_dialog(empty),
        PermissionStep::Reply(PermissionOutcome::Cancelled)
    ));
    let untitled = PermissionRequest { title: None, ..request(None) };
    match show_acp_permission_dialog(untitled) {
        PermissionStep::Ask(dialog) => assert_eq!(dialog.message(), "Permission required"),
        _ => panic!(),
    }
}

#[test]
fn choices_are_answered() {
    let mut client = Some(agent(1));
    let once = PermOption::Agent(permission("once", PermissionKind::AllowOnce));
    assert!(on_choice(PromptEvent::Update, &once, &mut client).is_none());
    assert!(matches!(
        on_choice(PromptEvent::Abort, &once, &mut client),
        Some(PermissionOutcome::Cancelled)
    ));
    let reply = on_choice(PromptEvent::Validate, &once, &mut client);
    assert!(matches!(reply, Some(PermissionOutcome::Selected(id)) if id == "once"));
    assert!(!client.as_ref().unwrap().auto_accept_edits);
    let always = PermOption::Agent(permission("always", PermissionKind::AllowAlways));
    on_choice(PromptEvent::Validate, &always, &mut client);
    assert!(client.as_ref().unwrap().auto_accept_edits);
    assert!(client.as_ref().unwrap().auto_continue);
}

#[test]
fn clean_context_is_answered_later() {
    let mut client = Some(agent(1));
    client.as_mut().unwrap().display.push(DisplayLine::Separator);
    let clean = PermOption::CleanContext { allow_always_id: "always".to_string() };
    assert!(on_choice(PromptEvent::Validate, &clean, &mut client).is_none());
    let mut client = client.unwrap();
    assert!(client.auto_continue);
    let reply = flush_clean_context(&mut client);
    assert!(matches!(reply, Some(PermissionOutcome::Selected(id)) if id == "always"));
    assert!(client.display.is_empty());
    assert!(flush_clean_context(&mut client).is_none());
}

#[test]
fn written_files_are_opened_or_reloaded() {
    let editor = editor();
    let target = ReloadTarget { doc: 7, view: 3 };
    assert_eq!(editor.acp_open_or_reload("/a.rs"), FileStep::Reload(target));
    assert_eq!(editor.acp_open_or_reload("/b.rs"), FileStep::Nothing);
    assert_eq!(editor.acp_open_or_reload("/c.rs"), FileStep::Open);
    assert_eq!(editor.acp_reload_document("/a.rs"), Some(target));
    assert_eq!(editor.acp_reload_document("/c.rs"), None);
    let after = after_reload(true, &Some("/a.rs".to_string()));
    assert!(after.show_cursor);
    assert_eq!(after.changed.as_deref(), Some("/a.rs"));
    assert!(after_reload(false, &Some("/a.rs".to_string())).changed.is_none());
}

#[test]
fn first_edited_file_is_switched_to() {
    let editor = editor();
    let mut files = Reloading::new();
    let step = files.next(&editor, "/c.rs", true);
    assert_eq!((step.switch_to, step.reload), (None, None));
    let step = files.next(&editor, "/b.rs", false);
    assert_eq!((step.switch_to, step.reload), (Some(8), None));
    let step = files.next(&editor, "/a.rs", false);
    assert_eq!(step.switch_to, None);
    assert_eq!(step.reload, Some(ReloadTarget { doc: 7, view: 3 }));
}

#[test]
fn session_entries_can_be_copied() {
    let entry = SessionEntry {
        session_id: "0123456789".to_string(),
        slug: "01234567".to_string(),
        git_branch: String::new(),
        timestamp: "2025-01-01T00:00:00Z".to_string(),
        summary: String::new(),
    };
    assert_eq!(entry.clone().slug, "01234567");
}

#[test]
fn every_agent_that_waits_gets_its_answer() {
    let mut editor = editor();
    editor.agents[0].display.push(DisplayLine::Separator);
    editor.agents[1].display.push(DisplayLine::Separator);
    editor.agents[1].pending_edits.push("/a.rs".to_string());
    editor.agents[1].pending_clean_context = Some("always".to_string());
    let replies = editor.flush_clean_contexts();
    assert_eq!(replies.len(), 1);
    assert_eq!(replies[0].agent_id, AgentId(2));
    assert!(matches!(&replies[0].outcome, PermissionOutcome::Selected(id) if id == "always"));
    assert_eq!(editor.agents[0].display.len(), 1);
    assert!(editor.agents[1].display.is_empty());
    assert!(editor.agents[1].pending_edits.is_empty());
    assert!(editor.flush_clean_contexts().is_empty());
}
