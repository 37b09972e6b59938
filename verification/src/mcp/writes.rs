//! Writes that an agent asks for, from the request to the reply.

use vstd::prelude::*;

use crate::mcp::approval::{
    after_write, decide, denied_message, dialog_id, write_question, write_request,
    AfterWrite, ApprovalDialog, McpApproveAction, Verdict, WriteTool,
};
use crate::mcp::edit::{
    apply_edits, as_text, bottom_up, changes, edit_file, edited, edits_applied, edits_view,
    first_edited_line, first_overlap, in_scope, line_edit, lines_to_edit, mcp_unified_diff,
    no_overlap, overlap_of, overlap_text, replaced_all, replaced_first, scope_end, scope_start,
    trace_target_line, unified_diff_of, EditView, FileEdit, TextEdit,
};
use crate::mcp::lsp::{count_changes, edits_made, rename_question, DocumentChanges, Feature};
use crate::mcp::queries::{query_error, refusal, QueryOutcome};
use crate::mcp::symbols::{not_found, replace_symbol, resolved, SymbolResponse};
use crate::text::{decimal, lines};
use crate::ui::prompt::PromptEvent;

verus! {

/// A write that may still have to be approved.
#[derive(Debug)]
pub struct PendingWrite {
    pub path: String,
    /// What the file will hold.
    pub content: String,
    /// How many lines it adds and removes.
    pub lines_changed: usize,
    /// The line to show afterwards, counted from zero.
    pub target_line: usize,
}

/// What to do about a request to write.
#[derive(Debug)]
pub enum WriteStep {
    /// Reply with this error.
    Refuse { message: String },
    /// Write without asking.
    Write { write: PendingWrite },
    /// Write where the user applies it.
    Ask { write: PendingWrite, dialog: ApprovalDialog },
}

/// How a change of a file is shown.
pub open spec fn diff_of(path: Seq<char>, old: Seq<char>, new: Seq<char>) -> Seq<char> {
    unified_diff_of(old, new, "a/"@ + path, "b/"@ + path)
}

/// A write of this content, which shows this line afterwards.
pub open spec fn is_write(
    write: PendingWrite,
    path: Seq<char>,
    old: Seq<char>,
    content: Seq<char>,
    line: int,
) -> bool {
    let diff = diff_of(path, old, content);
    &&& write.path@ == path
    &&& write.content@ == content
    &&& write.lines_changed == changes(lines(diff), lines(diff).len() as int)
    &&& write.target_line == line
}

/// The content is written at once where writes are approved without asking; else the
/// user is asked, and sees what changes.
pub open spec fn proposes(
    step: WriteStep,
    tool: WriteTool,
    path: Seq<char>,
    old: Seq<char>,
    content: Seq<char>,
    line: int,
    auto_approve: bool,
) -> bool {
    match step {
        WriteStep::Refuse { .. } => false,
        WriteStep::Write { write } => auto_approve && is_write(write, path, old, content, line),
        WriteStep::Ask { write, dialog } => {
            &&& !auto_approve
            &&& is_write(write, path, old, content, line)
            &&& dialog.message@ == write_question(tool, path, diff_of(path, old, content))
            &&& dialog.id@ == dialog_id(tool)
        },
    }
}

pub open spec fn refuses(step: WriteStep, message: Seq<char>) -> bool {
    step matches WriteStep::Refuse { message: text } && text@ == message
}

fn propose(
    tool: WriteTool,
    path: &str,
    old: &str,
    content: String,
    target_line: usize,
    auto_approve: bool,
) -> (step: WriteStep)
    ensures
        proposes(step, tool, path@, old@, content@, target_line as int, auto_approve),
{
    let diff = mcp_unified_diff(old, content.as_str(), path);
    let (lines_changed, dialog) = write_request(tool, path, diff.as_str(), auto_approve);
    let write = PendingWrite { path: path.to_string(), content, lines_changed, target_line };
    match dialog {
        None => WriteStep::Write { write },
        Some(dialog) => WriteStep::Ask { write, dialog },
    }
}

/// A request to give a file a new content. `old` is what it holds.
pub fn write_file(path: &str, old: &str, content: String, auto_approve: bool) -> (step: WriteStep)
    ensures
        proposes(step, WriteTool::WriteFile, path@, old@, content@, 0, auto_approve),
{
    propose(WriteTool::WriteFile, path, old, content, 0, auto_approve)
}

/// What comes of a request to edit lines: it is refused where two edits overlap, else
/// the edited text is to be written.
pub open spec fn edits_lines(
    step: WriteStep,
    path: Seq<char>,
    old: Seq<char>,
    edits: Seq<EditView>,
    auto_approve: bool,
) -> bool {
    if no_overlap(edits) {
        proposes(
            step,
            WriteTool::EditFile,
            path,
            old,
            edits_applied(old, edits),
            first_edited_line(edits),
            auto_approve,
        )
    } else {
        exists|i: int| #[trigger]
            first_overlap(bottom_up(edits), i) && refuses(
                step,
                overlap_text(overlap_of(bottom_up(edits), i)),
            )
    }
}

/// A request to replace lines of a file.
pub fn edit_lines(path: &str, old: &str, edits: Vec<TextEdit>, auto_approve: bool) -> (step:
    WriteStep)
    ensures
        edits_lines(step, path@, old@, edits_view(edits@), auto_approve),
{
    let ghost given = edits_view(edits@);
    let line = trace_target_line(&edits);
    match apply_edits(old, edits) {
        Ok(content) => propose(WriteTool::EditFile, path, old, content, line, auto_approve),
        Err(overlap) => {
            proof {
                let i = choose|i: int| #[trigger]
                    first_overlap(bottom_up(given), i) && overlap == overlap_of(
                        bottom_up(given),
                        i,
                    );
                assert(first_overlap(bottom_up(given), i));
            }
            WriteStep::Refuse { message: overlap.message() }
        },
    }
}

/// A request to put text in before a line.
pub fn insert_text(path: &str, old: &str, line: usize, text: String, auto_approve: bool) -> (step:
    WriteStep)
    ensures
        edits_lines(
            step,
            path@,
            old@,
            seq![EditView { start_line: line, end_line: line, new_text: text@ }],
            auto_approve,
        ),
{
    let ghost edit = EditView { start_line: line, end_line: line, new_text: text@ };
    let edits = vec![TextEdit::insertion(line, text)];
    assert(edits_view(edits@) =~= seq![edit]);
    edit_lines(path, old, edits, auto_approve)
}

/// A request to replace a part of a file, or a range of its lines.
pub fn change_file(path: &str, old: &str, edit: &FileEdit, auto_approve: bool) -> (step: WriteStep)
    requires
        edit.old_string is Some && (edit.start_line is Some || edit.end_line is Some)
            ==> scope_start(*edit, lines(old@).len()) <= scope_end(*edit, lines(old@).len()),
    ensures
        match edit.old_string {
            Some(find) => if in_scope(old@, *edit, find@) {
                proposes(
                    step,
                    WriteTool::WriteFile,
                    path@,
                    old@,
                    if edit.replace_all {
                        replaced_all(old@, find@, edit.new_string@, 0)
                    } else {
                        replaced_first(old@, find@, edit.new_string@)
                    },
                    0,
                    auto_approve,
                )
            } else {
                refuses(
                    step,
                    if edit.start_line is Some {
                        "old_string not found within the specified line range"@
                    } else {
                        "old_string not found in the file"@
                    },
                )
            },
            None => proposes(
                step,
                WriteTool::WriteFile,
                path@,
                old@,
                as_text(edited(lines_to_edit(old@), line_edit(*edit)), old@),
                0,
                auto_approve,
            ),
        },
{
    match edit_file(old, edit) {
        Ok(content) => write_file(path, old, content, auto_approve),
        Err(error) => WriteStep::Refuse { message: error.message().to_string() },
    }
}

/// What comes of a request to replace a symbol by a new body: an edit of its lines.
pub open spec fn replaces_symbol(
    step: WriteStep,
    path: Seq<char>,
    old: Seq<char>,
    name_path: Seq<char>,
    body: Seq<char>,
    outcome: QueryOutcome<SymbolResponse>,
    auto_approve: bool,
) -> bool {
    match refusal(Feature::DocumentSymbols, path, outcome) {
        Some(text) => refuses(step, text),
        None => match outcome {
            QueryOutcome::Answer(response) => match resolved(response, name_path) {
                Some(sym) => edits_lines(
                    step,
                    path,
                    old,
                    seq![
                        EditView {
                            start_line: (sym.range.start_line + 1) as usize,
                            end_line: (sym.range.end_line + 2) as usize,
                            new_text: body,
                        },
                    ],
                    auto_approve,
                ),
                None => refuses(step, not_found(name_path, path)),
            },
            _ => refuses(step, "no symbols found in file"@),
        },
    }
}

/// A request to replace a symbol by a new body.
pub fn replace_symbol_lines(
    path: &str,
    old: &str,
    name_path: &str,
    body: String,
    outcome: &QueryOutcome<SymbolResponse>,
    auto_approve: bool,
) -> (step: WriteStep)
    requires
        *outcome matches QueryOutcome::Answer(response) ==> (resolved(response, name_path@) matches
            Some(sym) ==> sym.range.start_line < usize::MAX && sym.range.end_line < usize::MAX - 1),
    ensures
        replaces_symbol(step, path@, old@, name_path@, body@, *outcome, auto_approve),
{
    if let Some(message) = query_error(Feature::DocumentSymbols, path, outcome) {
        return WriteStep::Refuse { message };
    }
    match outcome {
        QueryOutcome::Answer(response) => match replace_symbol(response, name_path, path, body) {
            Ok(edit) => {
                let ghost view = edit@;
                let edits = vec![edit];
                assert(edits_view(edits@) =~= seq![view]);
                edit_lines(path, old, edits, auto_approve)
            },
            Err(message) => WriteStep::Refuse { message },
        },
        _ => WriteStep::Refuse { message: "no symbols found in file".to_string() },
    }
}

/// The edits that a rename makes, as a server gives them.
#[derive(Debug)]
pub struct RenameEdits {
    /// How many edits each file gets.
    pub changes: Option<Vec<usize>>,
    pub documents: Option<DocumentChanges>,
}

pub open spec fn rename_count(edits: RenameEdits) -> nat {
    edits_made(
        match edits.changes {
            Some(counts) => Some(counts@),
            None => None,
        },
        edits.documents,
    )
}

/// What to do about a request to rename a symbol.
#[derive(Debug)]
pub enum RenameStep {
    /// Reply with this error.
    Refuse { message: String },
    /// Make so many edits without asking.
    Apply { count: usize },
    /// Make them where the user applies them.
    Ask { count: usize, dialog: ApprovalDialog },
}

/// A request to rename a symbol.
pub fn rename_symbol(
    path: &str,
    new_name: &str,
    outcome: &QueryOutcome<RenameEdits>,
    auto_approve: bool,
) -> (step: RenameStep)
    requires
        *outcome matches QueryOutcome::Answer(edits) ==> rename_count(edits) <= usize::MAX,
    ensures
        match refusal(Feature::Rename, path@, *outcome) {
            Some(text) => step matches RenameStep::Refuse { message } && message@ == text,
            None => match *outcome {
                QueryOutcome::Answer(edits) => if auto_approve {
                    step matches RenameStep::Apply { count } && count == rename_count(edits)
                } else {
                    step matches RenameStep::Ask { count, dialog } && {
                        &&& count == rename_count(edits)
                        &&& dialog.message@ == "rename_symbol \u{2192} '"@ + new_name@
                            + "' \u{2014} "@ + decimal(count as nat) + " edit(s)"@
                        &&& dialog.id@ == "mcp-rename"@
                    }
                },
                _ => step matches RenameStep::Refuse { message } && message@
                    == "LSP returned no rename edits"@,
            },
        },
{
    if let Some(message) = query_error(Feature::Rename, path, outcome) {
        return RenameStep::Refuse { message };
    }
    match outcome {
        QueryOutcome::Answer(edits) => {
            let changes: Option<&Vec<usize>> = match &edits.changes {
                Some(counts) => Some(counts),
                None => None,
            };
            let documents: Option<&DocumentChanges> = match &edits.documents {
                Some(changes) => Some(changes),
                None => None,
            };
            let count = count_changes(changes, documents);
            if auto_approve {
                return RenameStep::Apply { count };
            }
            let message = rename_question(new_name, count);
            RenameStep::Ask { count, dialog: ApprovalDialog { message, id: "mcp-rename" } }
        },
        _ => RenameStep::Refuse { message: "LSP returned no rename edits".to_string() },
    }
}

/// What an agent is told of a rename. The files are changed in the editor only.
pub fn renamed(path: &str, count: usize, outcome: Result<(), String>) -> (reply: Result<
    WriteResult,
    String,
>)
    ensures
        match outcome {
            Ok(()) => reply matches Ok(told) && told.path@ == path@ && told.lines_changed == count
                && !told.saved,
            Err(e) => reply matches Err(text) && text@ == "apply_workspace_edit failed: "@ + e@,
        },
{
    match outcome {
        Ok(()) => Ok(WriteResult { path: path.to_string(), lines_changed: count, saved: false }),
        Err(e) => {
            let mut text = "apply_workspace_edit failed: ".to_string();
            text.append(e.as_str());
            Err(text)
        },
    }
}

/// What to do when a dialog that asks for a write reports.
#[derive(Debug)]
pub enum WriteAnswer {
    /// The user has not decided.
    Wait,
    Write,
    /// Reply with this error.
    Refuse { message: String },
}

pub fn write_answer(event: PromptEvent, action: McpApproveAction) -> (answer: WriteAnswer)
    ensures
        answer is Wait <==> event == PromptEvent::Update,
        answer is Write <==> event == PromptEvent::Validate && action == McpApproveAction::Apply,
        answer matches WriteAnswer::Refuse { message } ==> message@ == "Permission denied by user"@,
{
    match decide(event, action) {
        Verdict::Pending => WriteAnswer::Wait,
        Verdict::Approved => WriteAnswer::Write,
        Verdict::Denied => WriteAnswer::Refuse { message: denied_message().to_string() },
    }
}

/// What an agent is told of a write.
#[derive(Debug)]
pub struct WriteResult {
    pub path: String,
    pub lines_changed: usize,
    pub saved: bool,
}

/// What follows an attempt to write.
#[derive(Debug)]
pub struct Written {
    pub reply: Result<WriteResult, String>,
    /// What to do with the buffer of the file.
    pub next: AfterWrite,
    /// The line to show once that is done.
    pub show_line: Option<usize>,
}

/// What follows a write, or the error that it ended with. The line is shown only
/// where writes are followed.
pub fn written(write: PendingWrite, outcome: Result<(), String>, is_open: bool, trace: bool) -> (r:
    Written)
    ensures
        match outcome {
            Ok(()) => {
                &&& r.reply matches Ok(told)
                &&& told == (WriteResult {
                    path: write.path,
                    lines_changed: write.lines_changed,
                    saved: true,
                })
                &&& r.next == if is_open {
                    AfterWrite::Reload
                } else if trace {
                    AfterWrite::Open
                } else {
                    AfterWrite::Nothing
                }
                &&& r.show_line == if trace {
                    Some(write.target_line)
                } else {
                    None
                }
            },
            Err(error) => r.reply == Err::<WriteResult, String>(error) && r.next
                == AfterWrite::Nothing && r.show_line is None,
        },
{
    match outcome {
        Ok(()) => Written {
            reply: Ok(
                WriteResult {
                    path: write.path,
                    lines_changed: write.lines_changed,
                    saved: true,
                },
            ),
            next: after_write(is_open, trace),
            show_line: if trace {
                Some(write.target_line)
            } else {
                None
            },
        },
        Err(error) => Written { reply: Err(error), next: AfterWrite::Nothing, show_line: None },
    }
}

/// Where writes are not approved in advance, nothing is written before the user was
/// asked, and what would be written is what was asked about.
pub proof fn law_writes_are_asked_for(
    step: WriteStep,
    tool: WriteTool,
    path: Seq<char>,
    old: Seq<char>,
    content: Seq<char>,
    line: int,
)
    requires
        proposes(step, tool, path, old, content, line, false),
    ensures
        step matches WriteStep::Ask { write, dialog } && dialog.message@ == write_question(
            tool,
            write.path@,
            diff_of(write.path@, old, write.content@),
        ),
{
}

/// Edits that overlap are never written, approved in advance or not.
pub proof fn law_overlapping_edits_are_refused(
    step: WriteStep,
    path: Seq<char>,
    old: Seq<char>,
    edits: Seq<EditView>,
    auto_approve: bool,
)
    requires
        edits_lines(step, path, old, edits, auto_approve),
        !no_overlap(edits),
    ensures
        step is Refuse,
{
}

/// Putting text in before a line never fails: one edit overlaps no other.
pub proof fn law_inserting_is_never_refused(
    step: WriteStep,
    path: Seq<char>,
    old: Seq<char>,
    line: usize,
    text: Seq<char>,
    auto_approve: bool,
)
    requires
        edits_lines(
            step,
            path,
            old,
            seq![EditView { start_line: line, end_line: line, new_text: text }],
            auto_approve,
        ),
    ensures
        step !is Refuse,
{
    let edit = EditView { start_line: line, end_line: line, new_text: text };
    let one = seq![edit];
    assert(one.drop_last() =~= Seq::<EditView>::empty());
    reveal_with_fuel(bottom_up, 2);
    assert(bottom_up(one) =~= one);
}

/// What is written is the content that was asked for, in the file that was asked for; it is
/// written at once just where writes are approved in advance.
pub proof fn law_content_is_written_as_asked(
    step: WriteStep,
    tool: WriteTool,
    path: Seq<char>,
    old: Seq<char>,
    content: Seq<char>,
    line: int,
    auto_approve: bool,
)
    requires
        proposes(step, tool, path, old, content, line, auto_approve),
    ensures
        auto_approve <==> step is Write,
        !auto_approve <==> step is Ask,
        step matches WriteStep::Write { write } ==> write.path@ == path && write.content@ == content
            && write.target_line == line,
        step matches WriteStep::Ask { write, dialog } ==> write.path@ == path && write.content@
            == content && write.target_line == line,
{
}

/// A symbol that is not there, or a file without symbols, is not edited; a symbol that is
/// there is edited by the lines that its range covers.
pub proof fn law_symbol_is_replaced_by_its_lines(
    step: WriteStep,
    path: Seq<char>,
    old: Seq<char>,
    name_path: Seq<char>,
    body: Seq<char>,
    response: SymbolResponse,
    auto_approve: bool,
)
    requires
        replaces_symbol(
            step,
            path,
            old,
            name_path,
            body,
            QueryOutcome::Answer(response),
            auto_approve,
        ),
    ensures
        resolved(response, name_path) is None ==> step is Refuse,
        resolved(response, name_path) matches Some(sym) ==> (sym.range.end_line + 2 <= usize::MAX
            ==> edits_lines(
            step,
            path,
            old,
            seq![
                EditView {
                    start_line: (sym.range.start_line + 1) as usize,
                    end_line: (sym.range.end_line + 2) as usize,
                    new_text: body,
                },
            ],
            auto_approve,
        )),
{
}

} // verus!
