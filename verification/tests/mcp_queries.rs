use helix_term::mcp::buffers::{
    check_register, diff_hunks, diff_result, jumplist, load_file, loaded_message, no_diff_base,
    open_buffers, unload_file, unload_result, CloseOutcome, DocumentInfo, Hunk, HunkKind, Jump,
    LoadStep, UnloadStep,
};
use helix_term::mcp::positions::{
    cursor_state, line_and_column, line_starts, query_position, selection_ranges, view_for,
    viewport, EditorMode, Selection, ViewInfo,
};
use helix_term::mcp::lsp::{Feature, SetupProblem};
use helix_term::mcp::queries::{
    find_refs_reply, overview_reply, query_error, read_symbol_reply, symbol_matches,
    workspace_symbols_reply, QueryOutcome,
};
use helix_term::mcp::symbols::{
    filter_by_path, is_within, line_preview, not_found_message, read_symbol, ref_locations,
    replace_symbol, resolve, scan_symbol, split_name_path, symbol_match, symbols_overview,
    FoundLocation, LineRange, Symbol, SymbolKind, SymbolResponse, WorkspaceSymbol,
};

const TEXT: &str = "fn one() {\n    two();\n}\n\nfn two() {}\n";

fn document(path: Option<&str>) -> DocumentInfo {
    DocumentInfo {
        path: path.map(|p| p.to_string()),
        language: Some("rust".to_string()),
        is_modified: true,
        line_count: 7,
        lsp_servers: vec!["ra".to_string()],
    }
}

#[test]
fn only_documents_with_a_path_are_listed() {
    let buffers = open_buffers(vec![document(None), document(Some("a.rs")), document(Some("b.rs"))]);
    assert_eq!(buffers.len(), 2);
    assert_eq!(buffers[0].path, "a.rs");
    assert_eq!(buffers[1].path, "b.rs");
    assert_eq!(buffers[0].language.as_deref(), Some("rust"));
    assert!(buffers[0].is_modified);
    assert_eq!(buffers[0].line_count, 7);
    assert_eq!(buffers[0].lsp_servers, vec!["ra".to_string()]);
}

#[test]
fn files_are_loaded_once() {
    match load_file(true, "a.rs") {
        LoadStep::Reply(text) => assert_eq!(text, "File already loaded: a.rs"),
        LoadStep::Open => panic!(),
    }
    assert!(matches!(load_file(false, "a.rs"), LoadStep::Open));
    assert_eq!(loaded_message("a.rs"), "Loaded: a.rs");
}

#[test]
fn visible_files_stay_loaded() {
    match unload_file(false, false, "a.rs") {
        UnloadStep::NotLoaded(text) => assert_eq!(text, "File was not loaded: a.rs"),
        _ => panic!(),
    }
    match unload_file(true, true, "a.rs") {
        UnloadStep::Visible(text) => {
            assert_eq!(text, "Cannot unload: file is currently visible in the editor")
        }
        _ => panic!(),
    }
    assert!(matches!(unload_file(true, false, "a.rs"), UnloadStep::Close));
    assert_eq!(unload_result(&CloseOutcome::Closed, "a.rs"), Ok("Unloaded: a.rs".to_string()));
    assert_eq!(
        unload_result(&CloseOutcome::DoesNotExist, "a.rs"),
        Ok("File was not loaded: a.rs".to_string())
    );
    assert_eq!(
        unload_result(&CloseOutcome::Modified("a.rs".to_string()), "a.rs"),
        Err("Cannot unload modified buffer: a.rs".to_string())
    );
    assert_eq!(
        unload_result(&CloseOutcome::SaveError("full".to_string()), "a.rs"),
        Err("Save error while unloading: full".to_string())
    );
}

#[test]
fn letters_name_registers() {
    assert_eq!(check_register('a'), Ok(()));
    assert_eq!(check_register('é'), Ok(()));
    assert_eq!(check_register('%'), Err("Register '%' is read-only".to_string()));
}

#[test]
fn jumps_are_told_by_their_line() {
    let jump = |path: Option<&str>, anchor: usize, head: usize| Jump {
        path: path.map(|p| p.to_string()),
        text: TEXT.to_string(),
        selection: Selection { anchor, head },
    };
    let entries = jumplist(&vec![
        jump(Some("a.rs"), 15, 16),
        jump(None, 0, 1),
        jump(Some("b.rs"), 3, 11),
    ]);
    assert_eq!(entries.len(), 2);
    assert_eq!(entries[0].path, "a.rs");
    assert_eq!((entries[0].line, entries[0].col), (2, 1));
    // The cursor is on the line feed, which still belongs to the first line.
    assert_eq!(entries[1].path, "b.rs");
    assert_eq!((entries[1].line, entries[1].col), (1, 1));
}

#[test]
fn hunks_are_told_by_what_they_do() {
    let hunk = |a: u32, b: u32, c: u32, d: u32| Hunk {
        before_start: a,
        before_end: b,
        after_start: c,
        after_end: d,
    };
    let hunks = vec![hunk(1, 1, 1, 3), hunk(4, 6, 6, 6), hunk(8, 9, 8, 10)];
    let infos = diff_hunks(&hunks);
    assert!(matches!(infos[0].kind, HunkKind::Added));
    assert!(matches!(infos[1].kind, HunkKind::Deleted));
    assert!(matches!(infos[2].kind, HunkKind::Modified));
    assert_eq!((infos[2].before_start, infos[2].before_end), (8, 9));
    assert_eq!((infos[2].after_start, infos[2].after_end), (8, 10));
    let head = || Some("main".to_string());
    assert_eq!(
        diff_result("a.rs", false, Some(&hunks), head()).unwrap_err(),
        "File not open in editor — open the file to enable diff tracking"
    );
    let result = diff_result("a.rs", true, Some(&hunks), head()).unwrap();
    assert_eq!((result.path.as_str(), result.head_ref.as_deref()), ("a.rs", Some("main")));
    assert_eq!(result.hunks, infos);
    let result = diff_result("a.rs", true, None, head()).unwrap();
    assert_eq!((result.hunks.len(), result.head_ref), (0, None));
    assert_eq!(no_diff_base("a.rs"), "No diff base available for: a.rs");
}

#[test]
fn places_have_a_line_and_a_column() {
    assert_eq!(line_and_column(TEXT, 0), (0, 0));
    assert_eq!(line_and_column(TEXT, 15), (1, 4));
    assert_eq!(line_and_column(TEXT, 10), (0, 10));
    assert_eq!(line_and_column("é\nx", 2), (1, 0));
    assert_eq!(query_position(TEXT, 1, 4), 15);
    assert_eq!(query_position(TEXT, 1, 400), 21);
    assert_eq!(query_position(TEXT, 400, 3), TEXT.chars().count());
}

#[test]
fn cursor_counts_from_one() {
    let primary = Selection { anchor: 14, head: 16 };
    let state = cursor_state(Some("a.rs".to_string()), TEXT, primary, EditorMode::Normal, 2);
    assert_eq!(state.path.as_deref(), Some("a.rs"));
    assert_eq!((state.line, state.col, state.selection_count), (2, 5, 2));
    assert_eq!(state.mode, EditorMode::Normal);
}

#[test]
fn selections_hold_their_text() {
    let sels = vec![Selection { anchor: 3, head: 6 }, Selection { anchor: 18, head: 15 }];
    let ranges = selection_ranges(TEXT, &sels, 1);
    assert_eq!(ranges[0].text, "one");
    assert_eq!(ranges[1].text, "two");
    assert!(!ranges[0].is_primary);
    assert!(ranges[1].is_primary);
    assert_eq!((ranges[1].anchor_line, ranges[1].anchor_col), (1, 7));
    assert_eq!((ranges[1].head_line, ranges[1].head_col), (1, 4));
}

#[test]
fn a_view_of_the_document_is_preferred() {
    let views = vec![
        ViewInfo { id: 1, doc: 7, height: 10 },
        ViewInfo { id: 2, doc: 8, height: 20 },
    ];
    assert_eq!(view_for(&views, 8, 1), (2, 20));
    assert_eq!(view_for(&views, 9, 1).0, 1);
}

#[test]
fn viewport_is_as_high_as_its_view() {
    let info = viewport(TEXT, 11, 2, 3);
    assert_eq!(info.first_visible_line, 2);
    assert_eq!(info.height_lines, 2);
    assert_eq!(info.horizontal_offset, 3);
    assert_eq!(info.last_visible_line, 3);
    assert_eq!(viewport(TEXT, 0, 100, 0).last_visible_line, 100);
    assert_eq!(viewport(TEXT, 4000, 1, 0).first_visible_line, 6);
}

#[test]
fn line_ranges_become_character_ranges() {
    assert_eq!(line_starts(TEXT, 0, 2), (0, 22));
    assert_eq!(line_starts(TEXT, 4, 400), (25, TEXT.chars().count()));
}

fn symbol(name: &str, kind: SymbolKind, start: usize, end: usize, children: Vec<Symbol>) -> Symbol {
    Symbol {
        name: name.to_string(),
        kind,
        range: LineRange { start_line: start, end_line: end },
        children,
    }
}

fn nested() -> SymbolResponse {
    SymbolResponse::Nested(vec![
        symbol(
            "one",
            SymbolKind::Function,
            0,
            2,
            vec![symbol("inner", SymbolKind::Variable, 1, 1, Vec::new())],
        ),
        symbol("two", SymbolKind::Function, 4, 4, Vec::new()),
    ])
}

#[test]
fn names_are_split_at_the_first_slash() {
    assert_eq!(split_name_path("one"), ("one".to_string(), None));
    let (first, second) = split_name_path("one/inner");
    assert_eq!((first.as_str(), second.as_deref()), ("one", Some("inner")));
}

#[test]
fn symbols_are_found_by_their_path() {
    let response = nested();
    assert_eq!(resolve(&response, "two").unwrap().range.start_line, 4);
    assert_eq!(resolve(&response, "one/inner").unwrap().range.start_line, 1);
    assert!(resolve(&response, "two/inner").is_none());
    assert_eq!(not_found_message("x", "a.rs"), "symbol 'x' not found in a.rs");
    let flat = SymbolResponse::Flat(vec![symbol("inner", SymbolKind::Field, 3, 3, Vec::new())]);
    assert_eq!(resolve(&flat, "one/inner").unwrap().range.start_line, 3);
}

#[test]
fn a_symbol_is_read_and_replaced() {
    let found = read_symbol(&nested(), "one", "a.rs", TEXT).unwrap();
    assert_eq!(found.name, "one");
    assert_eq!(found.path, "a.rs");
    assert_eq!(found.body.as_deref(), Some("fn one() {\n    two();\n}\n"));
    // Past the end of the text a range that ends before it starts is empty.
    let far = SymbolResponse::Flat(vec![symbol("far", SymbolKind::Field, 90, 40, Vec::new())]);
    let found = read_symbol(&far, "far", "a.rs", TEXT).unwrap();
    assert_eq!(found.body.as_deref(), Some(""));
    let edit = replace_symbol(&nested(), "two", "a.rs", "new\n".to_string()).unwrap();
    assert_eq!((edit.start_line, edit.end_line), (5, 6));
    assert_eq!(edit.new_text, "new\n");
    assert_eq!(
        replace_symbol(&nested(), "three", "a.rs", String::new()).unwrap_err(),
        "symbol 'three' not found in a.rs"
    );
}

#[test]
fn overview_goes_as_deep_as_asked() {
    let flat = symbols_overview(&nested(), 0);
    assert_eq!(flat.len(), 2);
    assert_eq!(flat[0].children.len(), 0);
    let deep = symbols_overview(&nested(), 1);
    assert_eq!(deep[0].children[0].name, "inner");
    assert_eq!(SymbolKind::EnumMember.name(), "enum_member");
    assert_eq!(SymbolKind::Text.name(), "string");
}

fn found(path: &str, components: &[&str]) -> WorkspaceSymbol {
    WorkspaceSymbol {
        name: "f".to_string(),
        kind: SymbolKind::Function,
        path: path.to_string(),
        components: components.iter().map(|c| c.to_string()).collect(),
        range: LineRange { start_line: 4, end_line: 4 },
    }
}

#[test]
fn symbols_are_kept_that_lie_in_a_directory() {
    let dir: Vec<String> = vec!["src".to_string()];
    assert!(is_within(&vec!["src".to_string(), "a.rs".to_string()], &dir));
    assert!(!is_within(&vec!["srcs".to_string()], &dir));
    let syms = vec![found("src/a.rs", &["src", "a.rs"]), found("b.rs", &["b.rs"])];
    let kept = filter_by_path(syms, Some(&dir));
    assert_eq!(kept.len(), 1);
    assert_eq!(kept[0].path, "src/a.rs");
    let with_body = symbol_match(&kept[0], Some(TEXT));
    assert_eq!(with_body.body.as_deref(), Some("fn two() {}\n"));
    assert!(symbol_match(&kept[0], None).body.is_none());
    assert_eq!(line_preview(TEXT, 1), "    two();");
}

#[test]
fn a_symbol_is_found_as_a_whole_word() {
    let text = "let twofold = 1;\nfn two() {\n    x\n}\n";
    let found = scan_symbol(text, "two", "a.rs").unwrap();
    assert_eq!(found.range.start_line, 1);
    assert!(found.body.unwrap().starts_with("fn two() {"));
    let error = scan_symbol(text, "three", "a.rs").unwrap_err();
    assert_eq!(error, "symbol 'three' not found in a.rs (no LSP, text scan used)");
}

#[test]
fn references_outside_of_files_are_left_out() {
    let place = |path: Option<&str>, line: usize| FoundLocation {
        path: path.map(|p| p.to_string()),
        line,
        col: 4,
        text: TEXT.to_string(),
    };
    let refs = ref_locations(&vec![place(None, 0), place(Some("a.rs"), 1), place(Some("b.rs"), 9)]);
    assert_eq!(refs.len(), 2);
    assert_eq!((refs[0].path.as_str(), refs[0].line, refs[0].col), ("a.rs", 1, 4));
    assert_eq!(refs[0].preview, line_preview(TEXT, 1));
    assert!(refs[0].preview.contains("two();"));
    assert_eq!(refs[1].path, "b.rs");
    assert_eq!(refs[1].preview, line_preview(TEXT, 9));
}

// ── Replies ──────────────────────────────────────────────────────────────────

#[test]
fn a_query_fails_by_what_went_wrong() {
    let lost: QueryOutcome<SymbolResponse> = QueryOutcome::NotOpened("gone".to_string());
    assert_eq!(
        query_error(Feature::Hover, "a.rs", &lost).as_deref(),
        Some("could not open a.rs: gone")
    );
    let late: QueryOutcome<SymbolResponse> = QueryOutcome::Failed("late".to_string());
    assert_eq!(
        query_error(Feature::Rename, "a.rs", &late).as_deref(),
        Some("LSP rename error: late")
    );
    let alone: QueryOutcome<SymbolResponse> = QueryOutcome::Problem(SetupProblem::NoServer);
    assert_eq!(query_error(Feature::Hover, "a.rs", &alone), None);
    assert_eq!(
        query_error(Feature::DocumentSymbols, "a.rs", &alone).as_deref(),
        Some("no LSP with document-symbols support for a.rs")
    );
}

#[test]
fn an_overview_is_empty_without_an_answer() {
    let (symbols, source) = overview_reply("a.rs", &QueryOutcome::Nothing, 1).unwrap();
    assert_eq!((symbols.len(), source), (0, "lsp"));
    let (symbols, source) = overview_reply("a.rs", &QueryOutcome::Answer(nested()), 1).unwrap();
    assert_eq!((symbols.len(), source), (2, "lsp"));
    assert_eq!(symbols[0].children.len(), 1);
}

#[test]
fn a_symbol_is_read_or_scanned_for() {
    let answer = QueryOutcome::Answer(nested());
    let found = read_symbol_reply("a.rs", "two", &answer, None, Some(TEXT)).unwrap();
    assert_eq!(found.body.as_deref(), Some("fn two() {}\n"));
    assert_eq!(found.kind, SymbolKind::Function);
    let found = read_symbol_reply("a.rs", "two", &answer, None, None).unwrap();
    assert_eq!(found.body.as_deref(), Some(""));
    assert_eq!(
        read_symbol_reply("a.rs", "x", &answer, None, Some(TEXT)).unwrap_err(),
        "symbol 'x' not found in a.rs"
    );
    let alone = QueryOutcome::Problem(SetupProblem::NoServer);
    let found = read_symbol_reply("a.rs", "one", &alone, Some(TEXT), None).unwrap();
    assert_eq!((found.range.start_line, found.range.end_line), (0, 2));
    assert_eq!(found.kind, SymbolKind::Unknown);
    assert_eq!(
        read_symbol_reply("a.rs", "one", &alone, None, Some(TEXT)).unwrap_err(),
        "could not read a.rs"
    );
    assert_eq!(
        read_symbol_reply("a.rs", "one", &QueryOutcome::Nothing, Some(TEXT), None).unwrap_err(),
        "no symbols found in file"
    );
    let late = QueryOutcome::Failed("late".to_string());
    assert_eq!(
        read_symbol_reply("a.rs", "one", &late, Some(TEXT), None).unwrap_err(),
        "LSP document_symbols error: late"
    );
}

#[test]
fn symbols_of_the_workspace_are_those_in_files() {
    let sym = |path: &str, parts: Vec<&str>| {
        Some(WorkspaceSymbol {
            name: "two".to_string(),
            kind: SymbolKind::Function,
            path: path.to_string(),
            components: parts.iter().map(|p| p.to_string()).collect(),
            range: LineRange { start_line: 4, end_line: 4 },
        })
    };
    let found = vec![sym("/a/x.rs", vec!["/", "a", "x.rs"]), None, sym("/b.rs", vec!["/", "b.rs"])];
    let directory = vec!["/".to_string(), "a".to_string()];
    let syms = workspace_symbols_reply(QueryOutcome::Answer(found), Some(&directory)).unwrap();
    assert_eq!(syms.len(), 1);
    assert_eq!(syms[0].path, "/a/x.rs");
    let matches = symbol_matches(&syms, Some(&vec![TEXT.to_string()]));
    assert_eq!(matches[0].body.as_deref(), Some("fn two() {}\n"));
    assert_eq!(symbol_matches(&syms, None)[0].body, None);
    assert!(workspace_symbols_reply(QueryOutcome::Nothing, None).unwrap().is_empty());
    assert_eq!(
        workspace_symbols_reply(QueryOutcome::Problem(SetupProblem::NoServer), None).unwrap_err(),
        "no LSP with workspace-symbols support"
    );
}

#[test]
fn references_need_a_server() {
    let alone = QueryOutcome::Problem(SetupProblem::Unsupported);
    assert_eq!(
        find_refs_reply("a.rs", &alone).unwrap_err(),
        "LSP does not support goto-reference"
    );
    assert!(find_refs_reply("a.rs", &QueryOutcome::Nothing).unwrap().is_empty());
}
