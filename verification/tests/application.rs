use helix_term::application::events::{
    accepts, claim_again, close, event_loop_step, exit_code, handle_config_events, handle_editor_event,
    handle_idle_timeout, handle_signals, handle_terminal_events, load_configured_theme, redraws,
    refresh_message, stop_exit_code, ConfigEvent, ConfiguredTheme, Drawing, EditorEvent, LoopEvent, Signal,
    SignalStep, TerminalEvent, TerminalStep, ThemeChoice,
};
use helix_term::application::language_server::{
    action_reply, config_section, drop_server_diagnostics, edit_response, handle_notification, handle_request,
    handle_show_document, is_answered, kept_indices, server_exit, shown_selection,
    workspace_configuration, ActionReply,
    EditFailure, ErrorCode,
    FileDiagnostics, LspDisplay, LspNotification, LspRequest, MessageType, NotificationStep,
    ProgressChange, Registration, RequestStep, ServerInfo, Severity, ShowStep, StatusChange,
    WorkDone,
};
use helix_term::application::saving::{format_size, handle_document_write, SaveStep, SavedDocument};
use helix_term::application::startup::{
    auto_approves, count_files, opening, Action, FileArg, Layout, OpenOutcome, Opened, Opening,
    OpeningFiles,
};
use helix_term::application::typing::{applies, formats_after, TypingTriggers};
use helix_term::claude_ide::{
    accept_split, check_start, closed_proposal, current_split, focused_selection, ide_name,
    lock_after_stop, reject_split, resolve_split, selection_info, split_for_doc, start,
    stop, ClaudeDiffView, Session,
    DiffOutcome, Position, SplitError, StartError,
};
use helix_term::editor::{Editor, OpenDocument, ViewSelection};
use helix_term::json::{Json, JsonEntry};
use helix_term::mcp::positions::Selection;
use helix_term::ui::prompt::PromptEvent;

// ── Starting ─────────────────────────────────────────────────────────────────

fn file(path: &str, is_dir: bool) -> FileArg {
    FileArg { path: path.to_string(), is_dir }
}

#[test]
fn first_directory_opens_a_picker() {
    assert_eq!(opening(true, &Vec::new(), true), Opening::Tutor);
    assert_eq!(opening(false, &Vec::new(), true), Opening::Empty { picker: false });
    assert_eq!(opening(false, &Vec::new(), false), Opening::Stdin);
    let dir = vec![file("src", true)];
    assert_eq!(opening(false, &dir, true), Opening::Empty { picker: true });
    let both = vec![file("src", true), file("a.rs", false)];
    assert_eq!(opening(false, &both, true), Opening::Files { picker: true, first: 1 });
    let one = vec![file("a.rs", false)];
    assert_eq!(opening(false, &one, true), Opening::Files { picker: false, first: 0 });
}

#[test]
fn files_are_split_as_asked() {
    let mut files = OpeningFiles::new(Some(Layout::Horizontal));
    assert_eq!(files.next(&file("a", false), "\"a\""), Ok(Action::VerticalSplit));
    files.opened(OpenOutcome::Irregular);
    assert_eq!(files.next(&file("b", false), "\"b\""), Ok(Action::VerticalSplit));
    files.opened(OpenOutcome::Opened);
    assert_eq!(files.next(&file("c", false), "\"c\""), Ok(Action::HorizontalSplit));
    files.opened(OpenOutcome::AlreadyOpen);
    assert_eq!(
        files.next(&file("d", true), "\"d\"").unwrap_err(),
        "expected a path to file, but found a directory: \"d\". \
         (to open a directory pass it as first argument)"
    );
    assert!(matches!(files.finish(), Opened::Status(text) if text == "Loaded 1 file."));
    let mut loaded = OpeningFiles::new(None);
    loaded.opened(OpenOutcome::Opened);
    assert_eq!(loaded.next(&file("c", false), "\"c\""), Ok(Action::Load));
}

#[test]
fn opened_files_are_counted() {
    let outcomes = vec![OpenOutcome::Opened, OpenOutcome::AlreadyOpen, OpenOutcome::Opened];
    assert!(matches!(count_files(&outcomes), Opened::Status(text) if text == "Loaded 2 files."));
    assert!(matches!(count_files(&vec![OpenOutcome::Irregular]), Opened::Empty));
    assert!(auto_approves(true, true));
    assert!(!auto_approves(false, true));
}

// ── Saving ───────────────────────────────────────────────────────────────────

#[test]
fn sizes_are_shown_in_the_largest_unit() {
    assert_eq!(format_size(0), "0B");
    assert_eq!(format_size(1023), "1023B");
    assert_eq!(format_size(1024), "1.0KiB");
    assert_eq!(format_size(1536), "1.5KiB");
    assert_eq!(format_size(5 * 1024 * 1024), "5.0MiB");
    assert_eq!(format_size(3 * 1024 * 1024 * 1024), "3.0GiB");
    assert_eq!(format_size(5000 * 1024 * 1024 * 1024), "5000.0GiB");
}

#[test]
fn sizes_are_rounded_as_singles_are() {
    let suffixes = ["B", "KiB", "MiB", "GiB"];
    let mut n: u64 = 7;
    let mut samples: Vec<u64> = (0..4000).map(|i| 1024 + i * 13).collect();
    for _ in 0..4000 {
        n = n.wrapping_mul(6364136223846793005).wrapping_add(1442695040888963407);
        samples.push((n >> (n % 50)).max(1024));
    }
    samples.push(1024 * 1024 - 1);
    samples.push(1024 * 1024 * 1024 - 1);
    for bytes in samples {
        let mut size = bytes as f32;
        let mut i = 0;
        while i < suffixes.len() - 1 && size >= 1024.0 {
            size /= 1024.0;
            i += 1;
        }
        assert_eq!(format_size(bytes), format!("{size:.1}{}", suffixes[i]));
    }
}

#[test]
fn written_documents_are_reported() {
    let saved = || {
        Ok(SavedDocument { path: "src/a.rs".to_string(), lines: 12, size: 2048 })
    };
    match handle_document_write(&saved(), true) {
        SaveStep::Saved(text) => assert_eq!(text, "'src/a.rs' written, 12L 2.0KiB"),
        _ => panic!(),
    }
    assert!(matches!(handle_document_write(&saved(), false), SaveStep::Unknown));
    let failed = Err("disk full".to_string());
    assert!(matches!(handle_document_write(&failed, true), SaveStep::Error(t) if t == "disk full"));
}

// ── Typing ───────────────────────────────────────────────────────────────────

#[test]
fn formatting_follows_its_triggers() {
    let triggers = TypingTriggers {
        first: "}".to_string(),
        more: Some(vec![";".to_string(), "\n".to_string()]),
    };
    assert!(formats_after(&triggers, '}'));
    assert!(formats_after(&triggers, '\n'));
    assert!(!formats_after(&triggers, 'x'));
    let one = TypingTriggers { first: "}".to_string(), more: None };
    assert!(!formats_after(&one, ';'));
    assert!(applies(Some(2), 4, Some(4)));
    assert!(!applies(Some(0), 4, Some(4)));
    assert!(!applies(Some(2), 4, Some(5)));
    assert!(!applies(None, 4, Some(4)));
    assert!(!applies(Some(2), 4, None));
}

// ── Events ───────────────────────────────────────────────────────────────────

#[test]
fn changed_theme_leaves_the_editor_alone() {
    let step = handle_config_events(ConfigEvent::ThemeChanged);
    assert!(step.set_background && !step.refresh_editor && !step.reload && !step.store);
    let step = handle_config_events(ConfigEvent::Refresh);
    assert!(step.reload && step.refresh_editor && !step.store);
    let step = handle_config_events(ConfigEvent::Update);
    assert!(step.store && step.refresh_editor && !step.reload);
    assert_eq!(refresh_message(&Ok(())), ("Config refreshed".to_string(), false));
    assert_eq!(refresh_message(&Err("bad".to_string())), ("bad".to_string(), true));
}

#[test]
fn themes_need_their_colors() {
    let rich = ConfiguredTheme::Loaded { is_16_color: false };
    let plain = ConfiguredTheme::Loaded { is_16_color: true };
    assert_eq!(load_configured_theme(false, true, false, rich), ThemeChoice::Configured);
    assert_eq!(
        load_configured_theme(false, false, false, rich),
        ThemeChoice::Default { true_color: false }
    );
    assert_eq!(load_configured_theme(false, false, false, plain), ThemeChoice::Configured);
    assert_eq!(
        load_configured_theme(true, false, false, ConfiguredTheme::Missing),
        ThemeChoice::Default { true_color: true }
    );
}

#[test]
fn signals_are_handled() {
    assert_eq!(handle_signals(Signal::Suspend), SignalStep::Stop);
    assert_eq!(handle_signals(Signal::Resume), SignalStep::Claim);
    assert_eq!(handle_signals(Signal::Reload), SignalStep::RefreshConfig);
    assert_eq!(handle_signals(Signal::Terminate), SignalStep::Quit);
    assert_eq!(handle_signals(Signal::Interrupt), SignalStep::Quit);
    assert!(claim_again(9));
    assert!(!claim_again(10));
    assert_eq!(stop_exit_code(Some(4)), 4);
    assert_eq!(stop_exit_code(None), 1);
}

#[test]
fn screen_is_drawn_when_it_changes() {
    assert_eq!(handle_editor_event(EditorEvent::Redraw), Drawing::Now);
    assert_eq!(handle_editor_event(EditorEvent::LanguageServerMessage), Drawing::Requested);
    let quiet = EditorEvent::DebuggerEvent { needs_render: false };
    assert_eq!(handle_editor_event(quiet), Drawing::Nothing);
    assert!(handle_idle_timeout(false, true));
    assert!(!handle_idle_timeout(false, false));
    let resized = TerminalEvent::Resized { columns: 3, rows: 4 };
    let step = handle_terminal_events(resized);
    assert_eq!(step, TerminalStep::Resize { columns: 3, rows: 4 });
    assert!(redraws(step, true, false));
    assert!(!redraws(step, true, true));
    assert_eq!(handle_terminal_events(TerminalEvent::KeyReleased), TerminalStep::Ignore);
    assert!(!redraws(TerminalStep::Ignore, true, false));
    assert!(redraws(TerminalStep::LoadTheme, false, false));
    assert!(accepts(TerminalEvent::ThemeReported));
    assert!(!accepts(TerminalEvent::Escape));
}

#[test]
fn failures_on_the_way_out_are_seen() {
    let mut editor = editor(Vec::new());
    let errors = close(&mut editor, Some("job".to_string()), None, true).errors;
    assert_eq!(
        errors,
        vec![
            "job".to_string(),
            "Timed out waiting for language servers to shutdown".to_string()
        ]
    );
    assert_eq!(exit_code(0, &errors), 1);
    let none = close(&mut editor, None, None, false);
    assert_eq!(exit_code(5, &none.errors), 5);
    assert!(none.session.is_none());
}

#[test]
fn end_of_the_application_stops_the_server() {
    let mut editor = editor(vec![proposal("a", 1, 2)]);
    let session = || Session { lock_path: "/tmp/9.lock".to_string() };
    assert_eq!(start(&mut editor, false, session()), Err(StartError::NoChannel));
    assert!(editor.claude_ide.is_none());
    assert_eq!(start(&mut editor, true, session()), Ok(()));
    assert_eq!(start(&mut editor, true, session()), Err(StartError::AlreadyRunning));
    let closing = close(&mut editor, None, None, false);
    assert!(closing.errors.is_empty());
    assert!(editor.claude_ide.is_none());
    assert_eq!(editor.claude_diff_views.len(), 1);
    let stopped = closing.session.unwrap();
    assert_eq!(stopped.lock_path, "/tmp/9.lock");
    assert_eq!(lock_after_stop(Some("/tmp/9.lock".to_string()), &stopped.lock_path), None);
    assert!(stop(&mut editor).is_none());
    assert_eq!(start(&mut editor, true, session()), Ok(()));
    assert_eq!(stop(&mut editor).unwrap().lock_path, "/tmp/9.lock");
    assert!(editor.claude_ide.is_none());
}

// ── Language servers ─────────────────────────────────────────────────────────

fn server(is_initialized: bool) -> Option<ServerInfo> {
    Some(ServerInfo { name: "ra".to_string(), is_initialized, has_config: true })
}

const SHOWN: LspDisplay =
    LspDisplay { display_messages: true, display_progress: true, prompt_open: false };

fn progress(work: WorkDone, known: Option<&str>) -> (StatusChange, ProgressChange) {
    let known = known.map(|k| k.to_string());
    match handle_notification(LspNotification::Progress(work), &server(true), &known, SHOWN) {
        NotificationStep::Progress(step) => (step.status, step.change),
        _ => panic!(),
    }
}

#[test]
fn progress_is_told_in_the_status_line() {
    let begin = WorkDone::Begin {
        title: "Indexing".to_string(),
        message: Some("core".to_string()),
        percentage: Some(5),
    };
    let (status, change) = progress(begin, None);
    assert!(matches!(status, StatusChange::Say(text) if text == "ra:  5% Indexing ⋅ core"));
    assert_eq!(change, ProgressChange::Begin);
    let report = WorkDone::Report { message: None, percentage: Some(50) };
    let (status, change) = progress(report, Some("Indexing"));
    assert!(matches!(status, StatusChange::Say(text) if text == "ra: 50% Indexing"));
    assert_eq!(change, ProgressChange::Update);
    let (status, change) = progress(WorkDone::End { message: None }, Some("Indexing"));
    assert!(matches!(status, StatusChange::Clear));
    assert_eq!(change, ProgressChange::End);
    let done = WorkDone::End { message: Some("done".to_string()) };
    let (status, _) = progress(done, None);
    assert!(matches!(status, StatusChange::Say(text) if text == "ra: done"));
    let (status, change) = progress(WorkDone::Report { message: None, percentage: None }, None);
    assert!(matches!(status, StatusChange::Keep));
    assert_eq!(change, ProgressChange::Update);
}

#[test]
fn notifications_of_unknown_servers_are_dropped() {
    let step = |n: LspNotification, s: &Option<ServerInfo>| handle_notification(n, s, &None, SHOWN);
    assert!(matches!(step(LspNotification::Initialized, &None), NotificationStep::Ignore));
    assert!(matches!(
        step(LspNotification::Initialized, &server(true)),
        NotificationStep::Initialized { send_config: true }
    ));
    let diagnostics = || LspNotification::PublishDiagnostics(Some("/a.rs".to_string()));
    assert!(matches!(step(diagnostics(), &server(false)), NotificationStep::Ignore));
    assert!(matches!(
        step(diagnostics(), &server(true)),
        NotificationStep::Diagnostics(path) if path == "/a.rs"
    ));
    assert!(matches!(
        step(LspNotification::ShowMessage(MessageType::Warning), &None),
        NotificationStep::Show(Severity::Warning)
    ));
    assert!(matches!(
        step(LspNotification::Exit, &None),
        NotificationStep::Exited { status } if status == "Language server exited"
    ));
    assert!(matches!(step(LspNotification::LogMessage, &None), NotificationStep::Ignore));
    let hidden = LspDisplay { prompt_open: true, ..SHOWN };
    let work = WorkDone::Report { message: None, percentage: Some(1) };
    let step = handle_notification(LspNotification::Progress(work), &server(true), &None, hidden);
    assert!(matches!(step, NotificationStep::Ignore));
}

#[test]
fn diagnostics_of_a_gone_server_are_dropped() {
    let files = vec![
        FileDiagnostics { path: "a".to_string(), providers: vec![Some(1), Some(2), None] },
        FileDiagnostics { path: "b".to_string(), providers: vec![Some(1)] },
    ];
    let rest = drop_server_diagnostics(&files, 1);
    assert_eq!(rest.len(), 1);
    assert_eq!(rest[0].path, "a");
    assert_eq!(rest[0].providers, vec![Some(2), None]);
    assert_eq!(kept_indices(&files[0].providers, 1), [1, 2]);
    assert_eq!(kept_indices(&files[0].providers, 2), [0, 2]);
    assert!(kept_indices(&files[1].providers, 1).is_empty());
    let documents = vec![vec![None, Some(1), Some(1), Some(3)], vec![]];
    let exit = server_exit(&files, &documents, &vec![4, 1, 2], 1);
    assert_eq!(exit.files, [vec![1, 2], vec![]]);
    assert_eq!(exit.documents, [vec![0, 3], vec![]]);
    assert_eq!(exit.servers, [4, 2]);
}

fn nested(keys: &[&str]) -> Json {
    match keys.split_first() {
        None => Json::Number("1".to_string()),
        Some((first, rest)) => Json::Object(vec![JsonEntry {
            key: first.to_string(),
            value: nested(rest),
        }]),
    }
}

#[test]
fn configuration_is_found_by_section() {
    let config = nested(&["a", "b"]);
    let section = |s: &str| Some(s.to_string());
    assert!(matches!(config_section(Some(&config), &section("a.b")), Some(Json::Number(_))));
    assert!(matches!(config_section(Some(&config), &section("a")), Some(Json::Object(_))));
    assert!(config_section(Some(&config), &section("a.c.d")).is_none());
    assert!(matches!(config_section(Some(&config), &section("")), Some(Json::Object(_))));
    assert!(config_section(None, &section("a")).is_none());
    let all = workspace_configuration(Some(&config), &vec![None, section("x"), section("a.b")]);
    assert!(all[0].is_some() && all[1].is_none() && all[2].is_some());
}

fn registration(method: &str, has_options: bool) -> Registration {
    Registration { method: method.to_string(), has_options }
}

#[test]
fn requests_are_answered() {
    let answer = |r: &LspRequest, s: &Option<ServerInfo>| handle_request(r, s, true);
    match answer(&LspRequest::Unhandled("x/y".to_string()), &None) {
        RequestStep::Fail { code, message } => {
            assert_eq!((code, message.as_str()), (ErrorCode::MethodNotFound, "Method not found: x/y"))
        }
        _ => panic!(),
    }
    match answer(&LspRequest::Malformed("x/y".to_string()), &None) {
        RequestStep::Fail { code, message } => {
            assert_eq!(code, ErrorCode::ParseError);
            assert_eq!(message, "Malformed method call: x/y");
        }
        _ => panic!(),
    }
    match answer(&LspRequest::ApplyWorkspaceEdit, &server(false)) {
        RequestStep::Fail { code, .. } => assert_eq!(code, ErrorCode::InvalidRequest),
        _ => panic!(),
    }
    assert!(matches!(answer(&LspRequest::ApplyWorkspaceEdit, &None), RequestStep::Drop));
    assert!(matches!(
        answer(&LspRequest::ApplyWorkspaceEdit, &server(true)),
        RequestStep::ApplyEdits
    ));
    let watched = "workspace/didChangeWatchedFiles";
    let all = vec![registration("x", true), registration(watched, false), registration(watched, true)];
    match answer(&LspRequest::RegisterCapability(all), &server(true)) {
        RequestStep::Register(indices) => assert_eq!(indices, vec![2]),
        _ => panic!(),
    }
    let all = vec![registration("x", true), registration(watched, false)];
    match answer(&LspRequest::UnregisterCapability(all), &None) {
        RequestStep::Unregister(indices) => assert_eq!(indices, vec![1]),
        _ => panic!(),
    }
    let ask = LspRequest::ShowMessageRequest { typ: MessageType::Error, actions: 2 };
    assert!(matches!(answer(&ask, &None), RequestStep::Ask));
    let show = LspRequest::ShowMessageRequest { typ: MessageType::Error, actions: 0 };
    assert!(matches!(answer(&show, &None), RequestStep::Show(Some(Severity::Error))));
    assert!(matches!(answer(&LspRequest::CodeLensRefresh, &None), RequestStep::Acknowledge));
    assert!(matches!(answer(&LspRequest::WorkspaceFolders, &None), RequestStep::Drop));
}

#[test]
fn edits_are_answered() {
    let response = edit_response(&None);
    assert!(response.applied && response.failure_reason.is_none());
    let failed = edit_response(&Some(EditFailure { reason: "no file".to_string(), index: 3 }));
    assert!(!failed.applied);
    assert_eq!(failed.failure_reason.as_deref(), Some("no file"));
    assert_eq!(failed.failed_change, Some(3));
}

#[test]
fn documents_are_shown_for_a_server() {
    let path = || Some("/a.rs".to_string());
    assert!(matches!(handle_show_document(Some(true), None, None), ShowStep::External));
    assert!(matches!(handle_show_document(Some(false), None, None), ShowStep::Fail));
    assert!(matches!(
        handle_show_document(None, path(), Some(true)),
        ShowStep::Open { action: Action::Replace, .. }
    ));
    assert!(matches!(
        handle_show_document(None, path(), None),
        ShowStep::Open { action: Action::VerticalSplit, .. }
    ));
    let turned = shown_selection(Selection { anchor: 2, head: 5 });
    assert_eq!((turned.anchor, turned.head), (5, 2));
}

// ── The editor as an IDE ─────────────────────────────────────────────────────

fn proposal(tab: &str, left: usize, right: usize) -> ClaudeDiffView {
    ClaudeDiffView { tab_name: tab.to_string(), path: format!("/{tab}.rs"), left, right }
}

fn doc(id: usize, text: &str, anchor: usize, head: usize) -> OpenDocument {
    OpenDocument {
        id,
        path: Some(format!("/{id}.rs")),
        text: text.to_string(),
        selections: vec![ViewSelection { view: 1, selection: Selection { anchor, head } }],
    }
}

fn editor(views: Vec<ClaudeDiffView>) -> Editor {
    Editor {
        agents: Vec::new(),
        documents: vec![doc(10, "one\ntwo\n", 0, 1), doc(11, "proposed", 0, 1)],
        focus: 1,
        focused_doc: 10,
        claude_ide: None,
        claude_diff_views: views,
        ide_name: "  ".to_string(),
        notify_selection: true,
    }
}

#[test]
fn name_of_the_editor_is_found() {
    let mut editor = editor(Vec::new());
    assert_eq!(ide_name(&editor, Some(" flag "), Some("dir")), "flag");
    assert_eq!(ide_name(&editor, Some("  "), Some("dir")), "dir");
    assert_eq!(ide_name(&editor, None, Some("")), "Helix");
    assert_eq!(ide_name(&editor, None, None), "Helix");
    editor.ide_name = " configured ".to_string();
    assert_eq!(ide_name(&editor, None, Some("dir")), "configured");
}

#[test]
fn one_server_runs_at_a_time() {
    assert_eq!(check_start(true, true), Err(StartError::AlreadyRunning));
    assert_eq!(check_start(false, false), Err(StartError::NoChannel));
    assert_eq!(check_start(false, true), Ok(()));
    assert_eq!(StartError::NoChannel.message("Agent"), "editor command channel is not initialised");
    assert_eq!(StartError::AlreadyRunning.message("Agent"), "Agent IDE server is already running");
    assert_eq!(lock_after_stop(Some("/l".to_string()), "/l"), None);
    assert_eq!(lock_after_stop(Some("/m".to_string()), "/l").as_deref(), Some("/m"));
}

#[test]
fn proposals_are_found_by_document() {
    let many = editor(vec![proposal("a", 1, 2), proposal("b", 10, 11)]);
    assert_eq!(split_for_doc(&many, 2).unwrap().tab_name, "a");
    assert_eq!(split_for_doc(&many, 1).unwrap().tab_name, "a");
    assert!(split_for_doc(&many, 5).is_none());
    assert_eq!(current_split(&many).unwrap().tab_name, "b");
    let other = editor(vec![proposal("a", 1, 2)]);
    assert_eq!(current_split(&other).unwrap().tab_name, "a");
    let none = current_split(&editor(Vec::new())).unwrap_err();
    assert_eq!(none, SplitError::NoProposal);
    assert_eq!(none.message("Agent"), "no Agent proposal is open");
    let two = editor(vec![proposal("a", 1, 2), proposal("b", 3, 4)]);
    let several = current_split(&two).unwrap_err();
    assert_eq!(several, SplitError::Several);
    assert_eq!(
        several.message("Agent"),
        "several Agent proposals are open; focus one of them first"
    );
    assert_eq!(closed_proposal(&many, 2).unwrap().tab_name, "a");
    assert!(closed_proposal(&many, 1).is_none());
}

#[test]
fn proposals_are_accepted_with_their_text() {
    let mut editor = editor(vec![proposal("a", 1, 2), proposal("b", 10, 11), proposal("c", 3, 4)]);
    let tabs = |editor: &Editor| {
        let all = editor.claude_diff_views.iter();
        all.map(|view| view.tab_name.clone()).collect::<Vec<String>>()
    };
    let view = proposal("b", 10, 11);
    let gone = proposal("b", 10, 99);
    assert_eq!(accept_split(&mut editor, &gone).unwrap_err(), "the proposal buffer is gone");
    assert_eq!(tabs(&editor), ["a", "b", "c"]);
    let step = accept_split(&mut editor, &view).unwrap().unwrap();
    assert!(matches!(step.outcome, DiffOutcome::Saved(text) if text == "proposed"));
    assert_eq!(step.reload.as_deref(), Some("/b.rs"));
    assert_eq!(tabs(&editor), ["a", "c"]);
    assert!(accept_split(&mut editor, &view).unwrap().is_none());
    assert_eq!(tabs(&editor), ["a", "c"]);
    let step = reject_split(&mut editor, &proposal("a", 1, 2)).unwrap();
    assert!(matches!(step.outcome, DiffOutcome::Rejected));
    assert_eq!(step.reload, None);
    assert!(resolve_split(&mut editor, "a", DiffOutcome::Rejected).is_none());
    assert_eq!(tabs(&editor), ["c"]);
    assert!(resolve_split(&mut editor, "c", DiffOutcome::Rejected).is_some());
    assert!(tabs(&editor).is_empty());
}

#[test]
fn bare_cursor_is_an_empty_selection() {
    let editor = editor(Vec::new());
    let info = focused_selection(&editor).unwrap();
    assert_eq!(info.file_path, "/10.rs");
    assert_eq!(info.text, "");
    assert_eq!(info.start, Position { line: 0, character: 0 });
    assert_eq!(info.end, info.start);
    let quiet = Editor { notify_selection: false, ..self::editor(Vec::new()) };
    assert!(focused_selection(&quiet).is_none());
}

#[test]
fn selections_are_reported_with_their_text() {
    let info = selection_info(&doc(1, "one\ntwo\n", 6, 1), 1).unwrap();
    assert_eq!(info.text, "ne\ntw");
    assert_eq!(info.start, Position { line: 0, character: 1 });
    assert_eq!(info.end, Position { line: 1, character: 2 });
    let cluster = selection_info(&doc(1, "ae\u{301}b", 2, 3), 1).unwrap();
    assert_eq!(cluster.start, Position { line: 0, character: 1 });
    assert!(selection_info(&doc(1, "x", 0, 1), 2).is_none());
    let scratch = OpenDocument { path: None, ..doc(1, "x", 0, 1) };
    assert!(selection_info(&scratch, 1).is_none());
}

#[test]
fn a_signal_or_closing_ends_the_loop() {
    assert!(!event_loop_step(LoopEvent::Signal { goes_on: false }, false).goes_on);
    assert!(event_loop_step(LoopEvent::Signal { goes_on: true }, false).goes_on);
    assert!(event_loop_step(LoopEvent::Terminal, false).goes_on);
    assert!(!event_loop_step(LoopEvent::Terminal, true).goes_on);
    assert_eq!(event_loop_step(LoopEvent::Callback, false).drawing, Drawing::Now);
    assert_eq!(event_loop_step(LoopEvent::Finished, false).drawing, Drawing::Now);
    assert_eq!(event_loop_step(LoopEvent::StatusMessage, false).drawing, Drawing::Requested);
    assert_eq!(event_loop_step(LoopEvent::Command, false).drawing, Drawing::Nothing);
}

#[test]
fn a_server_that_is_gone_gets_no_answer() {
    assert!(is_answered(&RequestStep::Acknowledge, true));
    assert!(!is_answered(&RequestStep::Acknowledge, false));
    assert!(!is_answered(&RequestStep::Ask, true));
    assert!(!is_answered(&RequestStep::Drop, true));
    assert_eq!(action_reply(PromptEvent::Update), ActionReply::Wait);
    assert_eq!(action_reply(PromptEvent::Validate), ActionReply::Chosen);
    assert_eq!(action_reply(PromptEvent::Abort), ActionReply::Declined);
}
