//! Asking the user before an agent writes.

use vstd::math::min;
use vstd::prelude::*;

use crate::mcp::edit::{changes, diff_preview, lines_changed, mcp_diff_preview};
use crate::rope::{len_lines, line_begin, line_to_char, line_total, rope_of};
use crate::text::{decimal, decimal_of, lemma_split_on_len, lines};
use crate::ui::prompt::PromptEvent;

verus! {

/// The entries of a dialog that asks whether to write.
#[derive(Clone, Copy, Debug, PartialEq, Eq, Structural)]
pub enum McpApproveAction {
    Apply,
    Cancel,
}

impl McpApproveAction {
    pub fn format(self) -> (label: &'static str)
        ensures
            label@ == match self {
                McpApproveAction::Apply => "Apply"@,
                McpApproveAction::Cancel => "Cancel"@,
            },
    {
        match self {
            McpApproveAction::Apply => "Apply",
            McpApproveAction::Cancel => "Cancel",
        }
    }
}

/// Whether a write may go ahead.
#[derive(Clone, Copy, Debug, PartialEq, Eq, Structural)]
pub enum Verdict {
    /// Not decided yet.
    Pending,
    Approved,
    /// `Permission denied by user`.
    Denied,
}

/// A write goes ahead only where the user chose to apply it.
pub open spec fn verdict_of(event: PromptEvent, action: McpApproveAction) -> Verdict {
    match event {
        PromptEvent::Update => Verdict::Pending,
        PromptEvent::Validate => if action == McpApproveAction::Apply {
            Verdict::Approved
        } else {
            Verdict::Denied
        },
        PromptEvent::Abort => Verdict::Denied,
    }
}

pub fn decide(event: PromptEvent, action: McpApproveAction) -> (verdict: Verdict)
    ensures
        verdict == verdict_of(event, action),
{
    match event {
        PromptEvent::Update => Verdict::Pending,
        PromptEvent::Validate => match action {
            McpApproveAction::Apply => Verdict::Approved,
            McpApproveAction::Cancel => Verdict::Denied,
        },
        PromptEvent::Abort => Verdict::Denied,
    }
}

/// What an agent is told where a write was not allowed.
pub fn denied_message() -> (text: &'static str)
    ensures
        text@ == "Permission denied by user"@,
{
    "Permission denied by user"
}

/// A reply that can be given once.
#[derive(Debug)]
pub struct ReplyOnce {
    pub given: bool,
}

impl ReplyOnce {
    pub fn new() -> (r: ReplyOnce)
        ensures
            !r.given,
    {
        ReplyOnce { given: false }
    }

    /// Whether the reply is to be sent now: no earlier call was told so.
    pub fn take(&mut self) -> (send: bool)
        ensures
            send == !old(self).given,
            final(self).given,
    {
        let send = !self.given;
        self.given = true;
        send
    }
}

/// A dialog with the entries `Apply` and `Cancel`.
#[derive(Debug)]
pub struct ApprovalDialog {
    pub message: String,
    /// The name under which it replaces an earlier one.
    pub id: &'static str,
}

/// Which kind of write an agent asks for.
#[derive(Clone, Copy, Debug, PartialEq, Eq, Structural)]
pub enum WriteTool {
    WriteFile,
    EditFile,
}

pub open spec fn tool_name(tool: WriteTool) -> Seq<char> {
    match tool {
        WriteTool::WriteFile => "write_file"@,
        WriteTool::EditFile => "edit_file"@,
    }
}

pub open spec fn dialog_id(tool: WriteTool) -> Seq<char> {
    match tool {
        WriteTool::WriteFile => "mcp-write"@,
        WriteTool::EditFile => "mcp-edit"@,
    }
}

/// What the user is asked before a write.
pub open spec fn write_question(tool: WriteTool, path: Seq<char>, diff: Seq<char>) -> Seq<char> {
    tool_name(tool) + " '"@ + path + "' — "@ + decimal(
        changes(lines(diff), lines(diff).len() as int),
    ) + " line(s) changed\n\n"@ + diff_preview(diff)
}

/// How many lines a write changes, and the dialog that asks for it; none where
/// writes are approved without asking.
pub fn write_request(tool: WriteTool, path: &str, diff: &str, auto_approve: bool) -> (request: (
    usize,
    Option<ApprovalDialog>,
))
    ensures
        request.0 == changes(lines(diff@), lines(diff@).len() as int),
        request.1 is None <==> auto_approve,
        request.1 matches Some(dialog) ==> dialog.message@ == write_question(tool, path@, diff@)
            && dialog.id@ == dialog_id(tool),
{
    let count = lines_changed(diff);
    if auto_approve {
        return (count, None);
    }
    let mut message = match tool {
        WriteTool::WriteFile => "write_file".to_string(),
        WriteTool::EditFile => "edit_file".to_string(),
    };
    message.append(" '");
    message.append(path);
    message.append("' — ");
    message.append(decimal_of(count as u64).as_str());
    message.append(" line(s) changed\n\n");
    message.append(mcp_diff_preview(diff).as_str());
    let id = match tool {
        WriteTool::WriteFile => "mcp-write",
        WriteTool::EditFile => "mcp-edit",
    };
    (count, Some(ApprovalDialog { message, id }))
}

/// What the user is asked before an agent uses a tool.
pub open spec fn permission_question(tool: Seq<char>, diff: Seq<char>) -> Seq<char> {
    let question = "MCP "@ + tool + ": permission required"@;
    if diff_preview(diff).len() == 0 {
        question
    } else {
        question + "\n\n"@ + diff_preview(diff)
    }
}

/// The dialog that asks for a permission; none where it is given without asking.
pub fn permission_request(tool: &str, diff: &str, auto_approve: bool) -> (dialog: Option<
    ApprovalDialog,
>)
    ensures
        dialog is None <==> auto_approve,
        dialog matches Some(dialog) ==> dialog.message@ == permission_question(tool@, diff@)
            && dialog.id@ == "mcp-permission"@,
{
    if auto_approve {
        return None;
    }
    let preview = mcp_diff_preview(diff);
    let mut message = "MCP ".to_string();
    message.append(tool);
    message.append(": permission required");
    if preview.as_str().unicode_len() > 0 {
        message.append("\n\n");
        message.append(preview.as_str());
    }
    Some(ApprovalDialog { message, id: "mcp-permission" })
}

/// What to do with the buffer of a file that was written.
#[derive(Clone, Copy, Debug, PartialEq, Eq, Structural)]
pub enum AfterWrite {
    /// The file is open: read it again.
    Reload,
    /// Writes are followed: open it.
    Open,
    Nothing,
}

pub fn after_write(is_open: bool, trace: bool) -> (next: AfterWrite)
    ensures
        next == if is_open {
            AfterWrite::Reload
        } else if trace {
            AfterWrite::Open
        } else {
            AfterWrite::Nothing
        },
{
    if is_open {
        AfterWrite::Reload
    } else if trace {
        AfterWrite::Open
    } else {
        AfterWrite::Nothing
    }
}

/// Where to put the cursor to follow a write: the line, or the last one where
/// there are fewer, and its first character. `None` where writes are not
/// followed or the file is not open.
pub fn mcp_trace_jump(trace: bool, document: Option<&str>, target_line: usize) -> (jump: Option<
    (usize, usize),
>)
    ensures
        jump is Some <==> trace && document is Some,
        jump matches Some(place) ==> {
            let text = document->0@;
            &&& place.0 == min(target_line as int, line_total(text) - 1)
            &&& place.1 == line_begin(text, place.0 as int)
        },
{
    if !trace {
        return None;
    }
    match document {
        None => None,
        Some(text) => {
            let rope = rope_of(text);
            proof {
                lemma_split_on_len(text@, '\n');
            }
            let last = len_lines(&rope).saturating_sub(1);
            let line: usize = if target_line < last {
                target_line
            } else {
                last
            };
            Some((line, line_to_char(&rope, line)))
        },
    }
}

/// However often a dialog reports, a reply is given once, and nothing is written
/// where the user did not choose to apply.
pub proof fn law_only_applying_approves(event: PromptEvent, action: McpApproveAction)
    ensures
        verdict_of(event, action) == Verdict::Approved <==> event == PromptEvent::Validate
            && action == McpApproveAction::Apply,
        verdict_of(event, action) == Verdict::Pending <==> event == PromptEvent::Update,
{
}

/// The user is asked about a write by the tool, the file, the number of lines that change
/// and the start of the diff; and about a tool by its name, with a diff where there is one.
pub proof fn law_question_names_what_is_done(path: Seq<char>, diff: Seq<char>, tool: Seq<char>)
    ensures
        write_question(WriteTool::WriteFile, path, diff) == "write_file"@ + " '"@ + path + "' — "@
            + decimal(changes(lines(diff), lines(diff).len() as int)) + " line(s) changed\n\n"@
            + diff_preview(diff),
        write_question(WriteTool::EditFile, path, diff) == "edit_file"@ + " '"@ + path + "' — "@
            + decimal(changes(lines(diff), lines(diff).len() as int)) + " line(s) changed\n\n"@
            + diff_preview(diff),
        diff_preview(diff).len() == 0 ==> permission_question(tool, diff) == "MCP "@ + tool
            + ": permission required"@,
        diff_preview(diff).len() > 0 ==> permission_question(tool, diff) == "MCP "@ + tool
            + ": permission required"@ + "\n\n"@ + diff_preview(diff),
{
}

} // verus!
