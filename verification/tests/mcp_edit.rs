use helix_term::mcp::approval::{
    after_write, decide, denied_message, mcp_trace_jump, permission_request, write_request,
    AfterWrite, McpApproveAction, ReplyOnce, Verdict, WriteTool,
};
use helix_term::mcp::edit::{
    apply_edits, edit_file, lines_between, lines_changed, mcp_diff_preview, mcp_unified_diff,
    read_range, replace_all, trace_target_line, EditFileError, FileEdit, Overlap, RangeError,
    TextEdit,
};
use helix_term::mcp::lsp::DocumentChanges;
use helix_term::mcp::queries::QueryOutcome;
use helix_term::mcp::symbols::{LineRange, Symbol, SymbolKind, SymbolResponse};
use helix_term::mcp::writes::{
    change_file, edit_lines, insert_text, rename_symbol, renamed, replace_symbol_lines,
    write_answer, write_file, written, PendingWrite, RenameEdits, RenameStep, WriteAnswer,
    WriteStep,
};
use helix_term::ui::prompt::PromptEvent;

const HELLO: &str = "Hello, world!\nLine two\nLine three\n";

/// Replaces the lines from `start` to `end`, both counted from one and both meant.
fn edit(start: usize, end: usize, text: &str) -> TextEdit {
    TextEdit {
        start_line: start,
        end_line: end + 1,
        new_text: text.to_string(),
    }
}

fn edited(edits: Vec<TextEdit>) -> String {
    apply_edits(HELLO, edits).unwrap()
}

#[test]
fn reads_two_lines() {
    let text = read_range(HELLO, 0, 1).unwrap();
    assert_eq!(text, "Hello, world!\nLine two\n");
}

#[test]
fn reads_a_single_line() {
    assert_eq!(read_range(HELLO, 2, 2).unwrap(), "Line three\n");
}

#[test]
fn reading_past_the_end_gives_what_is_there() {
    assert_eq!(read_range(HELLO, 1, 50).unwrap(), "Line two\nLine three\n");
    assert_eq!(read_range(HELLO, 40, 50).unwrap(), "");
    assert_eq!(lines_between(HELLO, 0, 0), "Hello, world!\n");
}

#[test]
fn reading_lines_out_of_order_is_an_error() {
    let error = read_range(HELLO, 3, 1).unwrap_err();
    assert_eq!(error, RangeError { start_line: 3, end_line: 1 });
    assert_eq!(error.message(), "start_line (3) > end_line (1)");
}

#[test]
fn ranges_join_to_the_text() {
    let mut all = read_range(HELLO, 0, 1).unwrap();
    all.push_str(&read_range(HELLO, 2, 9).unwrap());
    assert_eq!(all, HELLO);
}

#[test]
fn edit_keeps_the_other_lines() {
    assert_eq!(
        edited(vec![edit(2, 2, "REPLACED\n")]),
        "Hello, world!\nREPLACED\nLine three\n"
    );
}

#[test]
fn edit_makes_the_text_longer() {
    assert_eq!(
        edited(vec![edit(2, 2, "A\nB\nC\n")]),
        "Hello, world!\nA\nB\nC\nLine three\n"
    );
}

#[test]
fn edit_deletes_a_line() {
    assert_eq!(edited(vec![edit(2, 2, "")]), "Hello, world!\nLine three\n");
}

#[test]
fn two_edits_are_made_at_once() {
    let text = "First\nLine two\nThird\n";
    assert_eq!(edited(vec![edit(1, 1, "First\n"), edit(3, 3, "Third\n")]), text);
    assert_eq!(edited(vec![edit(3, 3, "Third\n"), edit(1, 1, "First\n")]), text);
}

#[test]
fn edit_of_no_lines_inserts() {
    assert_eq!(
        edited(vec![edit(2, 1, "INSERTED\n")]),
        "Hello, world!\nINSERTED\nLine two\nLine three\n"
    );
}

#[test]
fn inserts_before_a_line_and_at_the_end() {
    assert_eq!(
        edited(vec![TextEdit::insertion(1, "HEADER\n".to_string())]),
        "HEADER\nHello, world!\nLine two\nLine three\n"
    );
    assert_eq!(
        edited(vec![TextEdit::insertion(2, "MIDDLE\n".to_string())]),
        "Hello, world!\nMIDDLE\nLine two\nLine three\n"
    );
    assert_eq!(
        edited(vec![TextEdit::insertion(4, "APPENDED\n".to_string())]),
        "Hello, world!\nLine two\nLine three\nAPPENDED\n"
    );
}

#[test]
fn overlapping_edits_are_rejected() {
    let error = apply_edits(HELLO, vec![edit(1, 2, "X\n"), edit(2, 3, "Y\n")]).unwrap_err();
    assert_eq!(
        error,
        Overlap { lower_start: 1, lower_end: 3, upper_start: 2, upper_end: 4 }
    );
    assert_eq!(error.message(), "overlapping edits: [1, 3) and [2, 4)");
}

#[test]
fn first_edited_line_is_the_target() {
    assert_eq!(trace_target_line(&vec![edit(3, 3, ""), edit(2, 2, "")]), 1);
    assert_eq!(trace_target_line(&Vec::new()), 0);
}

fn replacement(old: Option<&str>, new: &str, all: bool) -> FileEdit {
    FileEdit {
        old_string: old.map(|s| s.to_string()),
        new_string: new.to_string(),
        start_line: None,
        end_line: None,
        replace_all: all,
    }
}

#[test]
fn replaces_a_part_once_or_everywhere() {
    let text = "a b a b\n";
    assert_eq!(edit_file(text, &replacement(Some("a"), "c", false)).unwrap(), "c b a b\n");
    assert_eq!(edit_file(text, &replacement(Some("a"), "c", true)).unwrap(), "c b c b\n");
    assert_eq!(replace_all(text, "a", "a"), text);
    assert_eq!(replace_all("aaa", "aa", "b"), "ba");
}

#[test]
fn a_part_that_is_not_there_is_an_error() {
    let error = edit_file(HELLO, &replacement(Some("nowhere"), "", false)).unwrap_err();
    assert!(matches!(error, EditFileError::NotInFile));
    assert_eq!(error.message(), "old_string not found in the file");
    let mut scoped = replacement(Some("Hello"), "", false);
    scoped.start_line = Some(2);
    scoped.end_line = Some(3);
    let error = edit_file(HELLO, &scoped).unwrap_err();
    assert!(matches!(error, EditFileError::NotInRange));
    assert_eq!(
        error.message(),
        "old_string not found within the specified line range"
    );
}

#[test]
fn a_part_is_looked_for_in_its_lines_and_replaced_in_the_file() {
    let mut scoped = replacement(Some("Line"), "Row", true);
    scoped.start_line = Some(3);
    scoped.end_line = Some(4);
    assert_eq!(edit_file(HELLO, &scoped).unwrap(), "Hello, world!\nRow two\nRow three\n");
}

#[test]
fn lines_are_replaced_where_no_part_is_named() {
    let mut lines = replacement(None, "new\n", false);
    lines.start_line = Some(2);
    lines.end_line = Some(3);
    assert_eq!(edit_file(HELLO, &lines).unwrap(), "Hello, world!\nnew\nLine three\n");
}

#[test]
fn diff_shows_what_has_changed() {
    let diff = mcp_unified_diff("a\nb\n", "a\nc\n", "x.rs");
    assert_eq!(diff, "--- a/x.rs\n+++ b/x.rs\n@@ -1,2 +1,2 @@\n a\n-b\n+c\n");
    assert_eq!(lines_changed(&diff), 2);
    assert_eq!(mcp_unified_diff("a\n", "a\n", "x.rs"), "");
}

#[test]
fn preview_is_cut_off_after_twenty_lines() {
    let mut diff = String::new();
    for i in 0..30 {
        diff.push_str(&format!("{i}\n"));
    }
    let preview = mcp_diff_preview(&diff);
    assert!(preview.ends_with('\u{2026}'));
    assert!(diff.starts_with(preview.trim_end_matches('\u{2026}')));
    assert!(!preview.contains("20"));
}

#[test]
fn preview_is_cut_off_after_four_hundred_bytes() {
    let diff = "é".repeat(300);
    let preview = mcp_diff_preview(&diff);
    assert_eq!(preview, format!("{}\u{2026}", "é".repeat(200)));
}

#[test]
fn only_applying_approves() {
    assert_eq!(decide(PromptEvent::Validate, McpApproveAction::Apply), Verdict::Approved);
    assert_eq!(decide(PromptEvent::Validate, McpApproveAction::Cancel), Verdict::Denied);
    assert_eq!(decide(PromptEvent::Abort, McpApproveAction::Apply), Verdict::Denied);
    assert_eq!(decide(PromptEvent::Update, McpApproveAction::Apply), Verdict::Pending);
    assert_eq!(McpApproveAction::Apply.format(), "Apply");
    assert_eq!(McpApproveAction::Cancel.format(), "Cancel");
    assert_eq!(denied_message(), "Permission denied by user");
}

#[test]
fn a_reply_is_given_once() {
    let mut reply = ReplyOnce::new();
    assert!(reply.take());
    assert!(!reply.take());
}

#[test]
fn a_write_is_asked_for_unless_it_is_approved() {
    let diff = "--- a/f\n+++ b/f\n-x\n+y\n";
    let (count, dialog) = write_request(WriteTool::WriteFile, "f", diff, false);
    let dialog = dialog.unwrap();
    assert_eq!(count, 2);
    assert_eq!(dialog.id, "mcp-write");
    assert_eq!(
        dialog.message,
        format!("write_file 'f' — 2 line(s) changed\n\n{}", mcp_diff_preview(diff))
    );
    let (count, dialog) = write_request(WriteTool::EditFile, "f", diff, true);
    assert_eq!(count, 2);
    assert!(dialog.is_none());
    let (_, dialog) = write_request(WriteTool::EditFile, "f", diff, false);
    assert_eq!(dialog.unwrap().id, "mcp-edit");
}

#[test]
fn a_permission_is_asked_for_with_its_diff() {
    let dialog = permission_request("run", "", false).unwrap();
    assert_eq!(dialog.message, "MCP run: permission required");
    assert_eq!(dialog.id, "mcp-permission");
    let dialog = permission_request("run", "+x", false).unwrap();
    assert_eq!(
        dialog.message,
        format!("MCP run: permission required\n\n{}", mcp_diff_preview("+x"))
    );
    assert!(permission_request("run", "+x", true).is_none());
}

#[test]
fn a_written_file_is_shown_where_it_is_traced() {
    assert!(matches!(after_write(true, false), AfterWrite::Reload));
    assert!(matches!(after_write(true, true), AfterWrite::Reload));
    assert!(matches!(after_write(false, true), AfterWrite::Open));
    assert!(matches!(after_write(false, false), AfterWrite::Nothing));
    assert_eq!(mcp_trace_jump(false, Some(HELLO), 1), None);
    assert_eq!(mcp_trace_jump(true, None, 1), None);
    let (line, start) = mcp_trace_jump(true, Some(HELLO), 1).unwrap();
    assert_eq!((line, start), (1, 14));
}

// ── Writes from the request to the reply ─────────────────────────────────────

#[test]
fn a_write_is_asked_for() {
    match write_file("a.txt", "one\n", "two\n".to_string(), false) {
        WriteStep::Ask { write, dialog } => {
            assert_eq!(write.path, "a.txt");
            assert_eq!(write.content, "two\n");
            assert_eq!(write.lines_changed, 2);
            assert_eq!(write.target_line, 0);
            assert_eq!(dialog.id, "mcp-write");
            assert!(dialog.message.starts_with(
                "write_file 'a.txt' — 2 line(s) changed\n\n--- a/a.txt\n+++ b/a.txt\n"
            ));
        }
        step => panic!("unexpected {step:?}"),
    }
    assert!(matches!(
        write_file("a.txt", "one\n", "two\n".to_string(), true),
        WriteStep::Write { .. }
    ));
}

#[test]
fn edits_of_lines_are_written_or_refused() {
    match edit_lines("a.txt", HELLO, vec![edit(2, 2, "new")], true) {
        WriteStep::Write { write } => {
            assert_eq!(write.content, "Hello, world!\nnew\nLine three\n");
            assert_eq!(write.target_line, 1);
            assert_eq!(write.lines_changed, 2);
        }
        step => panic!("unexpected {step:?}"),
    }
    match edit_lines("a.txt", HELLO, vec![edit(1, 2, "x"), edit(2, 3, "y")], true) {
        WriteStep::Refuse { message } => {
            assert_eq!(message, "overlapping edits: [1, 3) and [2, 4)")
        }
        step => panic!("unexpected {step:?}"),
    }
}

#[test]
fn inserting_puts_text_before_a_line() {
    match insert_text("a.txt", HELLO, 2, "new\n".to_string(), false) {
        WriteStep::Ask { write, dialog } => {
            assert_eq!(write.content, "Hello, world!\nnew\nLine two\nLine three\n");
            assert_eq!(write.lines_changed, 1);
            assert_eq!(dialog.id, "mcp-edit");
        }
        step => panic!("unexpected {step:?}"),
    }
}

#[test]
fn changing_a_part_writes_the_file() {
    let mut change = FileEdit {
        old_string: Some("Line".to_string()),
        new_string: "Row".to_string(),
        start_line: None,
        end_line: None,
        replace_all: true,
    };
    match change_file("a.txt", HELLO, &change, false) {
        WriteStep::Ask { write, dialog } => {
            assert_eq!(write.content, "Hello, world!\nRow two\nRow three\n");
            assert_eq!(dialog.id, "mcp-write");
        }
        step => panic!("unexpected {step:?}"),
    }
    change.old_string = Some("Column".to_string());
    match change_file("a.txt", HELLO, &change, true) {
        WriteStep::Refuse { message } => assert_eq!(message, "old_string not found in the file"),
        step => panic!("unexpected {step:?}"),
    }
}

#[test]
fn only_applying_writes() {
    let (apply, cancel) = (McpApproveAction::Apply, McpApproveAction::Cancel);
    assert!(matches!(write_answer(PromptEvent::Update, apply), WriteAnswer::Wait));
    assert!(matches!(write_answer(PromptEvent::Validate, apply), WriteAnswer::Write));
    for (event, action) in [
        (PromptEvent::Validate, cancel),
        (PromptEvent::Abort, apply),
        (PromptEvent::Abort, cancel),
    ] {
        match write_answer(event, action) {
            WriteAnswer::Refuse { message } => assert_eq!(message, "Permission denied by user"),
            answer => panic!("unexpected {answer:?}"),
        }
    }
}

#[test]
fn a_written_file_is_shown_where_writes_are_followed() {
    let pending = || PendingWrite {
        path: "a.txt".to_string(),
        content: "x".to_string(),
        lines_changed: 3,
        target_line: 7,
    };
    let done = written(pending(), Ok(()), false, true);
    let told = done.reply.unwrap();
    assert_eq!((told.path.as_str(), told.lines_changed, told.saved), ("a.txt", 3, true));
    assert_eq!(done.next, AfterWrite::Open);
    assert_eq!(done.show_line, Some(7));
    let done = written(pending(), Ok(()), true, false);
    assert_eq!(done.next, AfterWrite::Reload);
    assert_eq!(done.show_line, None);
    let failed = written(pending(), Err("full".to_string()), true, true);
    assert_eq!(failed.reply.unwrap_err(), "full");
    assert_eq!(failed.next, AfterWrite::Nothing);
    assert_eq!(failed.show_line, None);
}

#[test]
fn replacing_a_part_by_itself_changes_nothing() {
    assert_eq!(replace_all(HELLO, "Line", "Line"), HELLO);
    assert_eq!(replace_all(HELLO, "", ""), HELLO);
}

#[test]
fn replacing_a_symbol_replaces_its_lines() {
    let second = Symbol {
        name: "second".to_string(),
        kind: SymbolKind::Function,
        range: LineRange { start_line: 1, end_line: 1 },
        children: Vec::new(),
    };
    let answer = QueryOutcome::Answer(SymbolResponse::Flat(vec![second]));
    let body = || "new".to_string();
    match replace_symbol_lines("a.txt", HELLO, "second", body(), &answer, true) {
        WriteStep::Write { write } => {
            assert_eq!(write.content, "Hello, world!\nnew\nLine three\n");
            assert_eq!(write.target_line, 1);
        }
        step => panic!("unexpected {step:?}"),
    }
    match replace_symbol_lines("a.txt", HELLO, "third", body(), &answer, true) {
        WriteStep::Refuse { message } => {
            assert_eq!(message, "symbol 'third' not found in a.txt")
        }
        step => panic!("unexpected {step:?}"),
    }
    match replace_symbol_lines("a.txt", HELLO, "second", body(), &QueryOutcome::Nothing, true) {
        WriteStep::Refuse { message } => assert_eq!(message, "no symbols found in file"),
        step => panic!("unexpected {step:?}"),
    }
}

#[test]
fn a_rename_is_asked_for() {
    let edits = || {
        QueryOutcome::Answer(RenameEdits {
            changes: Some(vec![2, 3]),
            documents: Some(DocumentChanges::Operations(1)),
        })
    };
    match rename_symbol("a.txt", "new", &edits(), false) {
        RenameStep::Ask { count, dialog } => {
            assert_eq!(count, 6);
            assert_eq!(dialog.message, "rename_symbol → 'new' — 6 edit(s)");
            assert_eq!(dialog.id, "mcp-rename");
        }
        step => panic!("unexpected {step:?}"),
    }
    assert!(matches!(
        rename_symbol("a.txt", "new", &edits(), true),
        RenameStep::Apply { count: 6 }
    ));
    match rename_symbol("a.txt", "new", &QueryOutcome::Nothing, true) {
        RenameStep::Refuse { message } => assert_eq!(message, "LSP returned no rename edits"),
        step => panic!("unexpected {step:?}"),
    }
    let told = renamed("a.txt", 6, Ok(())).unwrap();
    assert_eq!((told.path.as_str(), told.lines_changed, told.saved), ("a.txt", 6, false));
    assert_eq!(
        renamed("a.txt", 6, Err("Failed".to_string())).unwrap_err(),
        "apply_workspace_edit failed: Failed"
    );
}
