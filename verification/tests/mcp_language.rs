use helix_term::json::{Json, JsonEntry};
use helix_term::mcp::debug::{
    bp_to_info, breakpoint_request, check_launch, choose_template, dap_status, debugger_reply,
    is_path_parameter, launch_args, launch_request, list_templates, map_dap_value, stack_trace, terminate_request,
    thread_to_control, Breakpoint, Breakpoints, DebugError, DebugParameter, DebugTemplate,
    Debugger, LaunchError, LaunchRequest, RemoveError, StackFrame, ThreadFrames,
};
use helix_term::mcp::lsp::{
    all_diagnostics, code_action_items, completion_items, count_changes, document_diagnostics,
    failure_message, hover_text, inlay_hint_items, is_optional, open_failure, parameter_label,
    problem_message, rename_question, setup_problem, signature_infos, CodeActionOrCommand,
    Completion, CompletionKind, Diagnostic, DocumentChanges, DocumentDiagnostics, Feature,
    HoverContents, InlayHint, InlayHintKind, InlayHintLabel, MarkedString, NumberOrString,
    Parameter, ParameterLabel, SetupProblem, Severity, Signature,
};
use helix_term::mcp::queries::{
    code_actions_reply, completions_reply, hover_reply, inlay_hints_reply, signature_help_reply,
    QueryOutcome, SignatureHelp,
};

#[test]
fn the_first_missing_thing_is_the_problem() {
    assert_eq!(setup_problem(false, false, false), Some(SetupProblem::NoDocument));
    assert_eq!(setup_problem(true, false, false), Some(SetupProblem::NoServer));
    assert_eq!(setup_problem(true, true, false), Some(SetupProblem::Unsupported));
    assert_eq!(setup_problem(true, true, true), None);
}

#[test]
fn problems_are_told_by_feature() {
    assert_eq!(
        problem_message(Feature::Rename, SetupProblem::NoServer, "a.rs"),
        "no language server with rename support for a.rs"
    );
    assert_eq!(
        problem_message(Feature::Hover, SetupProblem::Unsupported, "a.rs"),
        "LSP does not support hover"
    );
    assert_eq!(
        problem_message(Feature::References, SetupProblem::NoDocument, "a.rs"),
        "document not found: a.rs"
    );
    assert_eq!(failure_message(Feature::Completion, "late"), "LSP completion error: late");
    assert_eq!(open_failure("a.rs", "gone"), "could not open a.rs: gone");
    let _ = is_optional(Feature::Hover);
}

#[test]
fn a_rename_counts_its_edits() {
    assert_eq!(count_changes(Some(&vec![2, 3]), None), 5);
    assert_eq!(count_changes(None, Some(&DocumentChanges::Edits(vec![1, 1]))), 2);
    assert_eq!(count_changes(None, Some(&DocumentChanges::Operations(4))), 4);
    assert_eq!(count_changes(None, None), 0);
    assert_eq!(rename_question("x", 2), "rename_symbol \u{2192} 'x' \u{2014} 2 edit(s)");
}

fn diagnostic(severity: Option<Severity>, code: Option<NumberOrString>) -> Diagnostic {
    Diagnostic {
        line: 3,
        start: 7,
        severity,
        message: "bad".to_string(),
        source: Some("rustc".to_string()),
        code,
    }
}

#[test]
fn diagnostics_are_listed_by_document() {
    let all = vec![
        diagnostic(Some(Severity::Error), Some(NumberOrString::Number(-3))),
        diagnostic(None, Some(NumberOrString::Text("E1".to_string()))),
    ];
    let items = document_diagnostics("a.rs", &all);
    assert_eq!(items[0].severity, "error");
    assert_eq!(items[0].code.as_deref(), Some("-3"));
    assert_eq!(items[1].severity, "hint");
    assert_eq!(items[1].code.as_deref(), Some("E1"));
    assert_eq!(items[0].path, "a.rs");
    assert_eq!(items[0].message, "bad");
    let docs = vec![
        DocumentDiagnostics { path: None, diagnostics: vec![diagnostic(None, None)] },
        DocumentDiagnostics {
            path: Some("b.rs".to_string()),
            diagnostics: vec![diagnostic(Some(Severity::Warning), None)],
        },
    ];
    let items = all_diagnostics(&docs);
    assert_eq!(items.len(), 2);
    assert_eq!(items[0].path, "");
    assert_eq!(items[1].severity, "warning");
    assert_eq!(items[1].path, "b.rs");
}

#[test]
fn hovers_become_text() {
    assert_eq!(hover_text(&HoverContents::Markup("m".to_string())), "m");
    let code = MarkedString::Code { language: "rust".to_string(), value: "fn f()".to_string() };
    let text = hover_text(&HoverContents::Array(vec![
        MarkedString::Text("one".to_string()),
        code,
    ]));
    assert!(text.starts_with("one\n"));
    assert!(text.contains("fn f()"));
    assert_eq!(hover_text(&HoverContents::Scalar(MarkedString::Text("s".to_string()))), "s");
}

#[test]
fn code_actions_keep_their_kind() {
    let items = code_action_items(&vec![
        CodeActionOrCommand::CodeAction {
            title: "Fix".to_string(),
            kind: Some("quickfix".to_string()),
        },
        CodeActionOrCommand::Command { title: "Run".to_string() },
    ]);
    assert_eq!(items[0].title, "Fix");
    assert_eq!(items[0].kind.as_deref(), Some("quickfix"));
    assert_eq!(items[1].title, "Run");
}

#[test]
fn inlay_hints_have_a_place() {
    let hints = vec![
        InlayHint {
            index: Some(3),
            label: InlayHintLabel::Parts(vec![": ".to_string(), "u8".to_string()]),
            kind: Some(InlayHintKind::Type),
        },
        InlayHint { index: None, label: InlayHintLabel::Text("x".to_string()), kind: None },
    ];
    let items = inlay_hint_items("a\nbc\n", &hints);
    assert_eq!(items[0].label, ": u8");
    assert_eq!(items[0].kind, "type");
}

#[test]
fn completions_prefer_the_edit() {
    let items = completion_items(&vec![
        Completion {
            label: "l".to_string(),
            kind: Some(CompletionKind::Method),
            detail: None,
            edit_text: Some("edit".to_string()),
            insert_text: Some("insert".to_string()),
        },
        Completion {
            label: "m".to_string(),
            kind: None,
            detail: Some("d".to_string()),
            edit_text: None,
            insert_text: Some("insert".to_string()),
        },
    ]);
    assert_eq!(items[0].label, "l");
    assert_eq!(items[1].insert_text.as_deref(), Some("insert"));
    assert_eq!(items[1].detail.as_deref(), Some("d"));
    assert_eq!(CompletionKind::TypeParameter.name(), "type_parameter");
}

#[test]
fn signatures_name_their_parameters() {
    assert_eq!(parameter_label(&ParameterLabel::Offsets(2, 5)), "[2,5]");
    let infos = signature_infos(&vec![Signature {
        label: "f(a)".to_string(),
        documentation: None,
        parameters: vec![Parameter {
            label: ParameterLabel::Simple("a".to_string()),
            documentation: Some("first".to_string()),
        }],
    }]);
    assert_eq!(infos[0].label, "f(a)");
    assert_eq!(infos[0].parameters[0].label, "a");
    assert_eq!(infos[0].parameters[0].documentation.as_deref(), Some("first"));
}

#[test]
fn breakpoints_are_set_and_removed() {
    let mut all = Breakpoints::new();
    let i = all.set("a.rs", 4, Some("x > 1".to_string()));
    let info = all.info("a.rs", i).unwrap();
    assert_eq!((info.line, info.condition.as_deref()), (4, Some("x > 1")));
    assert!(!info.verified);
    all.set("b.rs", 1, None);
    assert_eq!(all.paths(), vec!["a.rs".to_string(), "b.rs".to_string()]);
    assert_eq!(all.list("a.rs").len(), 1);
    assert!(matches!(all.remove("c.rs", 1), Err(RemoveError::NoFile)));
    let error = all.remove("a.rs", 9).unwrap_err();
    assert_eq!(error.message(), "No breakpoint at line 9");
    assert_eq!(RemoveError::NoFile.message(), "No breakpoints in that file");
    assert!(all.remove("a.rs", 4).is_ok());
    assert_eq!(all.list("a.rs").len(), 0);
}

#[test]
fn answers_of_a_debugger_are_taken_over() {
    let known = |line, id: usize, verified| Breakpoint {
        id: Some(id),
        verified,
        message: Some("moved".to_string()),
        line,
        column: Some(2),
        condition: None,
        hit_condition: None,
        log_message: None,
    };
    let mut all = Breakpoints::new();
    all.set("b.rs", 7, None);
    all.set("a.rs", 1, None);
    let i = all.set("a.rs", 4, None);
    assert_eq!(i, 1);
    assert_eq!(all.in_file("a.rs").unwrap().len(), 2);
    assert!(all.in_file("c.rs").is_none());
    let info = all.answered("a.rs", i, Some(vec![known(1, 8, false), known(5, 9, true)]));
    assert_eq!((info.line, info.id, info.verified, info.column), (5, Some(9), true, Some(2)));
    assert_eq!(info.message.as_deref(), Some("moved"));
    let ids = |all: &Breakpoints| all.list_all().iter().map(|b| b.id).collect::<Vec<_>>();
    assert_eq!(ids(&all), [None, Some(8), Some(9)]);
    assert!(all.list("a.rs")[1].verified);
    assert!(all.remove("a.rs", 1).is_ok());
    all.synced("a.rs", vec![known(5, 10, true)]);
    assert_eq!(ids(&all), [None, Some(10)]);
    assert_eq!(all.info("a.rs", 0).unwrap().id, Some(10));
    // Without a debugger the breakpoint is as it was set.
    let i = all.set("b.rs", 9, Some("x".to_string()));
    let info = all.answered("b.rs", i, None);
    assert_eq!((info.line, info.id, info.verified), (9, None, false));
    assert_eq!(info.condition.as_deref(), Some("x"));
}

#[test]
fn a_breakpoint_is_asked_for() {
    let dialog = breakpoint_request("a.rs", 3, Some("x"), false).unwrap();
    assert_eq!(dialog.message, "set_breakpoint 'a.rs:3' [cond: x]");
    assert_eq!(dialog.id, "mcp-set-breakpoint");
    assert!(breakpoint_request("a.rs", 3, None, true).is_none());
    let b = Breakpoint {
        id: Some(2),
        verified: true,
        message: Some("ok".to_string()),
        line: 5,
        column: Some(1),
        condition: None,
        hit_condition: None,
        log_message: None,
    };
    let info = bp_to_info("a.rs", &b);
    assert_eq!((info.line, info.id, info.verified), (5, Some(2), true));
    assert_eq!(info.message.as_deref(), Some("ok"));
}

fn debugger(thread: Option<i64>) -> Debugger {
    Debugger {
        thread_id: thread,
        active_frame: Some(1),
        stacks: vec![ThreadFrames {
            thread_id: 7,
            frames: vec![
                StackFrame {
                    id: 10,
                    name: "inner".to_string(),
                    path: Some("a.rs".to_string()),
                    line: 3,
                    column: 1,
                },
                StackFrame { id: 11, name: "outer".to_string(), path: None, line: 9, column: 2 },
            ],
        }],
    }
}

#[test]
fn a_paused_debugger_can_be_controlled() {
    let paused = debugger(Some(7));
    let status = dap_status(Some(&paused));
    assert!(status.active && status.paused);
    assert_eq!(status.thread_id, Some(7));
    assert!(!dap_status(None).active);
    assert_eq!(thread_to_control(Some(&paused)).unwrap(), 7);
    assert!(matches!(thread_to_control(None), Err(DebugError::NoDebugger)));
    assert!(matches!(
        thread_to_control(Some(&debugger(None))),
        Err(DebugError::NotPaused) | Err(DebugError::NoThread)
    ));
    assert_eq!(DebugError::NoDebugger.message(), "No active debugger");
}

#[test]
fn the_stack_of_a_thread_is_listed() {
    let paused = debugger(Some(7));
    let frames = stack_trace(Some(&paused), None).unwrap();
    assert_eq!(frames.len(), 2);
    assert_eq!(frames[0].name, "inner");
    assert!(!frames[0].is_active);
    assert!(frames[1].is_active);
    assert!(matches!(stack_trace(Some(&paused), Some(8)), Err(DebugError::NoFrames)));
    assert!(matches!(stack_trace(None, None), Err(DebugError::NoDebugger)));
}

fn template() -> DebugTemplate {
    DebugTemplate {
        name: "binary".to_string(),
        request: "launch".to_string(),
        parameters: vec![
            DebugParameter::Named("program".to_string()),
            DebugParameter::Advanced {
                name: Some("file".to_string()),
                completion: Some("filename".to_string()),
                default: None,
            },
        ],
        args: vec![JsonEntry {
            key: "program".to_string(),
            value: Json::Text("{0}/{1}".to_string()),
        }],
    }
}

#[test]
fn templates_are_listed_and_chosen() {
    let all = vec![template()];
    let infos = list_templates(Some(&all)).unwrap();
    assert_eq!(infos[0].name, "binary");
    assert_eq!(infos[0].params[1].completion.as_deref(), Some("filename"));
    assert!(matches!(list_templates(None), Err(LaunchError::NotConfigured)));
    assert_eq!(choose_template(&all, None).unwrap().name, "binary");
    assert_eq!(choose_template(&all, Some("binary")).unwrap().name, "binary");
    assert!(matches!(choose_template(&all, Some("x")), Err(LaunchError::NoTemplate)));
    assert!(!is_path_parameter(&all[0], 0));
    assert!(is_path_parameter(&all[0], 1));
    assert!(matches!(check_launch(true, true), Err(LaunchError::AlreadyRunning)));
    assert!(matches!(check_launch(false, false), Err(LaunchError::NotConfigured)));
    assert!(check_launch(false, true).is_ok());
    assert_eq!(LaunchError::NoTemplate.message(), "no matching debug template");
}

#[test]
fn parameters_go_into_the_arguments() {
    let params = vec!["a".to_string(), "b".to_string()];
    match map_dap_value(&Json::Text("{0}/{1}".to_string()), &params) {
        Json::Text(text) => assert_eq!(text, "a/b"),
        _ => panic!(),
    }
    let args = launch_args(&template(), &params, "/home");
    assert_eq!(args[0].key, "program");
    assert!(args.iter().any(|e| e.key == "cwd" && matches!(&e.value, Json::Text(t) if t == "/home")));
}

#[test]
fn requests_are_launch_or_attach() {
    assert!(matches!(launch_request(&template()), Ok(LaunchRequest::Launch)));
    let mut other = template();
    other.request = "attach".to_string();
    assert!(matches!(launch_request(&other), Ok(LaunchRequest::Attach)));
    other.request = "fly".to_string();
    let error = launch_request(&other).unwrap_err();
    assert_eq!(error.message(), "unsupported DAP request type: fly");
    assert_eq!(terminate_request(true, Some(true)), Ok(true));
    assert_eq!(terminate_request(true, None), Ok(false));
    assert!(terminate_request(false, None).is_err());
}

// ── Replies ──────────────────────────────────────────────────────────────────

#[test]
fn help_is_empty_where_nobody_can_be_asked() {
    let alone = || SetupProblem::NoServer;
    assert_eq!(hover_reply("a.rs", &QueryOutcome::Problem(alone())).unwrap(), None);
    assert_eq!(hover_reply("a.rs", &QueryOutcome::Nothing).unwrap(), None);
    let contents = HoverContents::Markup("text".to_string());
    assert_eq!(
        hover_reply("a.rs", &QueryOutcome::Answer(contents)).unwrap().as_deref(),
        Some("text")
    );
    assert_eq!(
        hover_reply("a.rs", &QueryOutcome::Failed("late".to_string())).unwrap_err(),
        "LSP hover error: late"
    );
    assert!(code_actions_reply("a.rs", &QueryOutcome::Problem(alone())).unwrap().is_empty());
    let command = CodeActionOrCommand::Command { title: "run".to_string() };
    let items = code_actions_reply("a.rs", &QueryOutcome::Answer(vec![command])).unwrap();
    assert_eq!(items[0].title, "run");
    assert!(completions_reply("a.rs", &QueryOutcome::Problem(alone())).unwrap().is_empty());
    assert!(signature_help_reply("a.rs", &QueryOutcome::Problem(alone())).unwrap().is_none());
    let help = SignatureHelp {
        signatures: vec![Signature {
            label: "f(x)".to_string(),
            documentation: None,
            parameters: Vec::new(),
        }],
        active_signature: Some(0),
        active_parameter: Some(1),
    };
    let info = signature_help_reply("a.rs", &QueryOutcome::Answer(help)).unwrap().unwrap();
    assert_eq!(info.signatures[0].label, "f(x)");
    assert_eq!((info.active_signature, info.active_parameter), (Some(0), Some(1)));
}

#[test]
fn hints_need_an_open_buffer() {
    let hints = || {
        QueryOutcome::Answer(vec![InlayHint {
            index: Some(2),
            label: InlayHintLabel::Text("u8".to_string()),
            kind: Some(InlayHintKind::Type),
        }])
    };
    let items = inlay_hints_reply("a.rs", &hints(), Some("a\nb")).unwrap();
    assert_eq!((items[0].line, items[0].col, items[0].kind), (1, 0, "type"));
    assert!(inlay_hints_reply("a.rs", &hints(), None).unwrap().is_empty());
}

#[test]
fn all_breakpoints_are_listed_file_by_file() {
    let mut all = Breakpoints::new();
    let info = all.set_breakpoint("a.rs", 4, Some("x".to_string()));
    assert_eq!((info.path.as_str(), info.line, info.verified), ("a.rs", 4, false));
    all.set_breakpoint("b.rs", 1, None);
    all.set_breakpoint("a.rs", 2, None);
    let shown: Vec<(String, usize)> =
        all.list_all().iter().map(|b| (b.path.clone(), b.line)).collect();
    assert_eq!(
        shown,
        vec![("a.rs".to_string(), 4), ("a.rs".to_string(), 2), ("b.rs".to_string(), 1)]
    );
}

#[test]
fn only_a_running_debugger_answers() {
    assert_eq!(debugger_reply(true, Ok(3)), Ok(3));
    assert_eq!(debugger_reply::<u8>(false, Ok(3)).unwrap_err(), "No active debugger");
}
