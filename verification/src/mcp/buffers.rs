//! Buffers, registers, jumps and hunks as an agent sees them.

use vstd::prelude::*;

use crate::mcp::positions::{cursor, cursor_of, line_of, Selection};
use crate::rope::{char_to_line, line_total, rope_of};
use crate::text::lemma_lines_before;

verus! {

// ── Open buffers ─────────────────────────────────────────────────────────────

/// A document of the editor.
#[derive(Debug)]
pub struct DocumentInfo {
    /// The file that it was read from, if any.
    pub path: Option<String>,
    pub language: Option<String>,
    pub is_modified: bool,
    pub line_count: usize,
    pub lsp_servers: Vec<String>,
}

/// A document that has a file.
#[derive(Debug)]
pub struct BufferInfo {
    pub path: String,
    pub language: Option<String>,
    pub is_modified: bool,
    pub line_count: usize,
    pub lsp_servers: Vec<String>,
}

/// `buffer` is what is told of `doc`.
pub open spec fn describes(buffer: BufferInfo, doc: DocumentInfo) -> bool {
    &&& doc.path == Some(buffer.path)
    &&& buffer.language == doc.language
    &&& buffer.is_modified == doc.is_modified
    &&& buffer.line_count == doc.line_count
    &&& buffer.lsp_servers == doc.lsp_servers
}

/// How many of the first `n` documents have a file.
pub open spec fn with_path(docs: Seq<DocumentInfo>, n: int) -> nat
    decreases n,
{
    if n <= 0 {
        0
    } else {
        with_path(docs, n - 1) + if docs[n - 1].path is Some {
            1nat
        } else {
            0
        }
    }
}

/// The documents that have a file, in order.
pub fn open_buffers(docs: Vec<DocumentInfo>) -> (buffers: Vec<BufferInfo>)
    ensures
        buffers@.len() == with_path(docs@, docs@.len() as int),
        forall|i: int|
            0 <= i < docs@.len() && (#[trigger] docs@[i]).path is Some ==> describes(
                buffers@[with_path(docs@, i) as int],
                docs@[i],
            ),
    decreases docs@.len(),
{
    let mut rest = docs;
    let ghost all = docs@;
    match rest.pop() {
        None => Vec::new(),
        Some(last) => {
            assert(rest@ =~= all.drop_last());
            proof {
                lemma_with_path_prefix(rest@, all, rest@.len() as int);
            }
            let ghost before = rest@;
            let mut buffers = open_buffers(rest);
            proof {
                assert forall|i: int| 0 <= i < before.len() implies with_path(before, i)
                    == #[trigger] with_path(all, i) && with_path(all, i) <= with_path(
                    all,
                    before.len() as int,
                ) && ((#[trigger] all[i]).path is Some ==> with_path(all, i) < with_path(
                    all,
                    before.len() as int,
                )) by {
                    lemma_with_path_prefix(before, all, i);
                    lemma_with_path_monotone(all, i, before.len() as int);
                    assert(before[i] == all[i]);
                }
            }
            let ghost head = buffers@;
            let DocumentInfo { path, language, is_modified, line_count, lsp_servers } = last;
            if let Some(path) = path {
                buffers.push(BufferInfo { path, language, is_modified, line_count, lsp_servers });
            }
            proof {
                assert forall|i: int|
                    0 <= i < all.len() && (#[trigger] all[i]).path is Some implies describes(
                    buffers@[with_path(all, i) as int],
                    all[i],
                ) by {
                    if i < before.len() {
                        assert(before[i] == all[i]);
                        assert(with_path(before, i) == with_path(all, i));
                        assert(buffers@[with_path(all, i) as int] == head[with_path(
                            all,
                            i,
                        ) as int]);
                    }
                }
            }
            buffers
        },
    }
}

proof fn lemma_with_path_prefix(a: Seq<DocumentInfo>, b: Seq<DocumentInfo>, n: int)
    requires
        n <= a.len() <= b.len(),
        forall|i: int| 0 <= i < a.len() ==> a[i] == b[i],
    ensures
        with_path(a, n) == with_path(b, n),
    decreases n,
{
    if n > 0 {
        lemma_with_path_prefix(a, b, n - 1);
    }
}

proof fn lemma_with_path_monotone(docs: Seq<DocumentInfo>, i: int, n: int)
    requires
        0 <= i <= n <= docs.len(),
    ensures
        with_path(docs, i) <= with_path(docs, n),
        i < n && docs[i].path is Some ==> with_path(docs, i) < with_path(docs, n),
    decreases n,
{
    if i < n {
        lemma_with_path_monotone(docs, i, n - 1);
    }
}

// ── Loading and unloading ────────────────────────────────────────────────────

/// What to do to load a file.
#[derive(Debug)]
pub enum LoadStep {
    /// It is loaded: the reply.
    Reply(String),
    Open,
}

pub fn load_file(is_open: bool, path: &str) -> (step: LoadStep)
    ensures
        match step {
            LoadStep::Reply(text) => is_open && text@ == "File already loaded: "@ + path@,
            LoadStep::Open => !is_open,
        },
{
    if is_open {
        let mut text = "File already loaded: ".to_string();
        text.append(path);
        LoadStep::Reply(text)
    } else {
        LoadStep::Open
    }
}

/// The reply where a file was opened.
pub fn loaded_message(path: &str) -> (text: String)
    ensures
        text@ == "Loaded: "@ + path@,
{
    let mut text = "Loaded: ".to_string();
    text.append(path);
    text
}

/// What to do to unload a file.
#[derive(Debug)]
pub enum UnloadStep {
    /// It is not loaded: the reply.
    NotLoaded(String),
    /// It is shown somewhere: the error.
    Visible(&'static str),
    Close,
}

pub open spec fn not_loaded(path: Seq<char>) -> Seq<char> {
    "File was not loaded: "@ + path
}

/// A file that is shown in a view is not unloaded.
pub fn unload_file(is_open: bool, is_visible: bool, path: &str) -> (step: UnloadStep)
    ensures
        match step {
            UnloadStep::NotLoaded(text) => !is_open && text@ == not_loaded(path@),
            UnloadStep::Visible(text) => is_open && is_visible && text@
                == "Cannot unload: file is currently visible in the editor"@,
            UnloadStep::Close => is_open && !is_visible,
        },
{
    if !is_open {
        let mut text = "File was not loaded: ".to_string();
        text.append(path);
        UnloadStep::NotLoaded(text)
    } else if is_visible {
        UnloadStep::Visible("Cannot unload: file is currently visible in the editor")
    } else {
        UnloadStep::Close
    }
}

/// How closing a document went.
#[derive(Debug)]
pub enum CloseOutcome {
    Closed,
    DoesNotExist,
    /// It has changes; the name it is shown by.
    Modified(String),
    SaveError(String),
}

/// The reply after a document was to be closed.
pub fn unload_result(outcome: &CloseOutcome, path: &str) -> (reply: Result<String, String>)
    ensures
        match *outcome {
            CloseOutcome::Closed => reply matches Ok(text) && text@ == "Unloaded: "@ + path@,
            CloseOutcome::DoesNotExist => reply matches Ok(text) && text@ == not_loaded(path@),
            CloseOutcome::Modified(name) => reply matches Err(text) && text@
                == "Cannot unload modified buffer: "@ + name@,
            CloseOutcome::SaveError(e) => reply matches Err(text) && text@
                == "Save error while unloading: "@ + e@,
        },
{
    match outcome {
        CloseOutcome::Closed => {
            let mut text = "Unloaded: ".to_string();
            text.append(path);
            Ok(text)
        },
        CloseOutcome::DoesNotExist => {
            let mut text = "File was not loaded: ".to_string();
            text.append(path);
            Ok(text)
        },
        CloseOutcome::Modified(name) => {
            let mut text = "Cannot unload modified buffer: ".to_string();
            text.append(name.as_str());
            Err(text)
        },
        CloseOutcome::SaveError(e) => {
            let mut text = "Save error while unloading: ".to_string();
            text.append(e.as_str());
            Err(text)
        },
    }
}

// ── Registers ────────────────────────────────────────────────────────────────

/// The letters of ASCII.
pub open spec fn ascii_letter(c: char) -> bool {
    'a' <= c <= 'z' || 'A' <= c <= 'Z'
}

/// Whether a character that is not ASCII has the Unicode property `Alphabetic`.
pub uninterp spec fn other_alphabetic(c: char) -> bool;

/// Characters with the Unicode property `Alphabetic`.
pub open spec fn alphabetic(c: char) -> bool {
    if (c as u32) < 128 {
        ascii_letter(c)
    } else {
        other_alphabetic(c)
    }
}

/// `char::is_alphabetic` holds of the ASCII letters and of no other ASCII character.
/// Beyond ASCII it is a function of the character alone.
pub assume_specification[ char::is_alphabetic ](c: char) -> (b: bool)
    ensures
        b == alphabetic(c),
        c as u32 >= 128 ==> b == other_alphabetic(c),
;

/// Registers that an agent may write: letters and the clipboards.
pub open spec fn is_writable(name: char) -> bool {
    alphabetic(name) || name == '+' || name == '*'
}

/// The error for a register that an agent may not write.
pub fn check_register(name: char) -> (result: Result<(), String>)
    ensures
        result is Ok <==> is_writable(name),
        result matches Err(text) ==> text@ == "Register '"@ + seq![name] + "' is read-only"@,
{
    if !name.is_alphabetic() && name != '+' && name != '*' {
        let mut text = "Register '".to_string();
        text.push(name);
        text.append("' is read-only");
        assert(text@ =~= "Register '"@ + seq![name] + "' is read-only"@);
        return Err(text);
    }
    Ok(())
}

// ── Jumps ────────────────────────────────────────────────────────────────────

/// A place in a file. Lines and columns are counted from one.
#[derive(Debug)]
pub struct JumpEntry {
    pub path: String,
    pub line: usize,
    pub col: usize,
}

/// A jump: to a selection of a document.
#[derive(Debug)]
pub struct Jump {
    /// The file of the document; `None` where it has none, or is gone.
    pub path: Option<String>,
    pub text: String,
    pub selection: Selection,
}

/// The place that a jump leads to. The column is always the first.
pub open spec fn is_entry(entry: JumpEntry, jump: Jump) -> bool {
    &&& jump.path == Some(entry.path)
    &&& entry.line == line_of(jump.text@, cursor_of(jump.text@, jump.selection)) + 1
    &&& entry.col == 1
}

/// How many of the first `n` jumps lead to files.
pub open spec fn jumps_to_files(jumps: Seq<Jump>, n: int) -> nat
    decreases n,
{
    if n <= 0 {
        0
    } else {
        jumps_to_files(jumps, n - 1) + if jumps[n - 1].path is Some {
            1nat
        } else {
            0
        }
    }
}

proof fn lemma_jumps_to_files_monotone(jumps: Seq<Jump>, i: int, n: int)
    requires
        0 <= i <= n <= jumps.len(),
    ensures
        jumps_to_files(jumps, i) <= jumps_to_files(jumps, n),
        i < n && jumps[i].path is Some ==> jumps_to_files(jumps, i) < jumps_to_files(jumps, n),
    decreases n,
{
    if i < n {
        lemma_jumps_to_files_monotone(jumps, i, n - 1);
    }
}

/// The places that jumps lead to, in order; those to documents without a file are
/// left out.
pub fn jumplist(jumps: &Vec<Jump>) -> (entries: Vec<JumpEntry>)
    requires
        forall|i: int|
            0 <= i < jumps@.len() ==> (#[trigger] jumps@[i]).selection.head
                <= jumps@[i].text@.len() && line_total(jumps@[i].text@) < usize::MAX,
    ensures
        entries@.len() == jumps_to_files(jumps@, jumps@.len() as int),
        forall|i: int|
            0 <= i < jumps@.len() && (#[trigger] jumps@[i]).path is Some ==> is_entry(
                entries@[jumps_to_files(jumps@, i) as int],
                jumps@[i],
            ),
{
    let mut entries: Vec<JumpEntry> = Vec::new();
    let mut i: usize = 0;
    while i < jumps.len()
        invariant
            i <= jumps.len(),
            forall|k: int|
                0 <= k < jumps@.len() ==> (#[trigger] jumps@[k]).selection.head
                    <= jumps@[k].text@.len() && line_total(jumps@[k].text@) < usize::MAX,
            entries@.len() == jumps_to_files(jumps@, i as int),
            forall|k: int|
                0 <= k < i && (#[trigger] jumps@[k]).path is Some ==> is_entry(
                    entries@[jumps_to_files(jumps@, k) as int],
                    jumps@[k],
                ),
        decreases jumps.len() - i,
    {
        let jump = &jumps[i];
        let ghost before = entries@;
        if let Some(path) = &jump.path {
            let index = cursor(jump.text.as_str(), jump.selection);
            proof {
                lemma_lines_before(jump.text@, index as int);
            }
            let line = char_to_line(&rope_of(jump.text.as_str()), index);
            entries.push(JumpEntry { path: path.clone(), line: line + 1, col: 1 });
        }
        proof {
            assert forall|k: int|
                0 <= k < i + 1 && (#[trigger] jumps@[k]).path is Some implies is_entry(
                entries@[jumps_to_files(jumps@, k) as int],
                jumps@[k],
            ) by {
                if k < i {
                    lemma_jumps_to_files_monotone(jumps@, k, i as int);
                    assert(entries@[jumps_to_files(jumps@, k) as int] == before[jumps_to_files(
                        jumps@,
                        k,
                    ) as int]);
                }
            }
        }
        i += 1;
    }
    entries
}

// ── Hunks ────────────────────────────────────────────────────────────────────

/// Lines of a file that differ from its base: those of the base, and those of
/// the file, each from the first up to, but not including, the second.
#[derive(Clone, Copy, Debug, PartialEq, Eq, Structural)]
pub struct Hunk {
    pub before_start: u32,
    pub before_end: u32,
    pub after_start: u32,
    pub after_end: u32,
}

#[derive(Clone, Copy, Debug, PartialEq, Eq, Structural)]
pub enum HunkKind {
    Added,
    Deleted,
    Modified,
}

#[derive(Clone, Copy, Debug, PartialEq, Eq, Structural)]
pub struct DiffHunk {
    pub kind: HunkKind,
    pub before_start: usize,
    pub before_end: usize,
    pub after_start: usize,
    pub after_end: usize,
}

/// A hunk adds lines where it has none of the base, and removes them where it has
/// none of the file.
pub open spec fn hunk_kind(hunk: Hunk) -> HunkKind {
    if hunk.before_start >= hunk.before_end {
        HunkKind::Added
    } else if hunk.after_start >= hunk.after_end {
        HunkKind::Deleted
    } else {
        HunkKind::Modified
    }
}

pub open spec fn hunk_info(hunk: Hunk) -> DiffHunk {
    DiffHunk {
        kind: hunk_kind(hunk),
        before_start: hunk.before_start as usize,
        before_end: hunk.before_end as usize,
        after_start: hunk.after_start as usize,
        after_end: hunk.after_end as usize,
    }
}

pub fn diff_hunks(hunks: &Vec<Hunk>) -> (out: Vec<DiffHunk>)
    ensures
        out@ == Seq::new(hunks@.len(), |i: int| hunk_info(hunks@[i])),
{
    let mut out: Vec<DiffHunk> = Vec::new();
    let mut i: usize = 0;
    while i < hunks.len()
        invariant
            i <= hunks.len(),
            out@.len() == i,
            forall|k: int| 0 <= k < i ==> out@[k] == hunk_info(hunks@[k]),
        decreases hunks.len() - i,
    {
        let h = hunks[i];
        let kind = if h.before_start >= h.before_end {
            HunkKind::Added
        } else if h.after_start >= h.after_end {
            HunkKind::Deleted
        } else {
            HunkKind::Modified
        };
        out.push(
            DiffHunk {
                kind,
                before_start: h.before_start as usize,
                before_end: h.before_end as usize,
                after_start: h.after_start as usize,
                after_end: h.after_end as usize,
            },
        );
        i += 1;
    }
    assert(out@ =~= Seq::new(hunks@.len(), |i: int| hunk_info(hunks@[i])));
    out
}

/// The changes to a file as an agent gets them.
#[derive(Debug)]
pub struct DiffResult {
    pub path: String,
    pub hunks: Vec<DiffHunk>,
    /// What the file is compared with.
    pub head_ref: Option<String>,
}

/// What an agent is told of the changes to a file: its hunks and what it is compared
/// with where it has a diff, neither where it is only open, and an error where it is
/// not open.
pub fn diff_result(
    path: &str,
    is_open: bool,
    handle: Option<&Vec<Hunk>>,
    head_ref: Option<String>,
) -> (result: Result<DiffResult, &'static str>)
    ensures
        match result {
            Ok(out) => {
                &&& is_open
                &&& out.path@ == path@
                &&& match handle {
                    Some(hunks) => out.hunks@ == Seq::new(
                        hunks@.len(),
                        |i: int| hunk_info(hunks@[i]),
                    ) && out.head_ref == head_ref,
                    None => out.hunks@.len() == 0 && out.head_ref is None,
                }
            },
            Err(e) => !is_open && e@
                == "File not open in editor — open the file to enable diff tracking"@,
        },
{
    if !is_open {
        return Err("File not open in editor — open the file to enable diff tracking");
    }
    match handle {
        Some(hunks) => Ok(
            DiffResult { path: path.to_string(), hunks: diff_hunks(hunks), head_ref },
        ),
        None => Ok(DiffResult { path: path.to_string(), hunks: Vec::new(), head_ref: None }),
    }
}

/// The error where a file has no base to be compared with.
pub fn no_diff_base(path: &str) -> (text: String)
    ensures
        text@ == "No diff base available for: "@ + path@,
{
    let mut text = "No diff base available for: ".to_string();
    text.append(path);
    text
}

/// There are as many buffers as documents that have a file.
pub proof fn law_buffers_are_the_documents_with_files(docs: Seq<DocumentInfo>, n: int)
    requires
        0 <= n <= docs.len(),
    ensures
        with_path(docs, n) == docs.take(n).filter(|x: DocumentInfo| x.path is Some).len(),
    decreases n,
{
    reveal(Seq::filter);
    if n > 0 {
        law_buffers_are_the_documents_with_files(docs, n - 1);
        assert(docs.take(n).drop_last() =~= docs.take(n - 1));
    }
}

/// As many jumps are told as lead to files.
pub proof fn law_jumps_told_are_those_to_files(jumps: Seq<Jump>, n: int)
    requires
        0 <= n <= jumps.len(),
    ensures
        jumps_to_files(jumps, n) == jumps.take(n).filter(|x: Jump| x.path is Some).len(),
    decreases n,
{
    reveal(Seq::filter);
    if n > 0 {
        law_jumps_told_are_those_to_files(jumps, n - 1);
        assert(jumps.take(n).drop_last() =~= jumps.take(n - 1));
    }
}

/// A hunk is added lines where nothing of the base is in it, deleted lines where nothing of
/// the file is, and changed ones where both have lines.
pub proof fn law_hunk_is_named_by_its_sides(hunk: Hunk)
    requires
        hunk.before_start <= hunk.before_end,
        hunk.after_start <= hunk.after_end,
    ensures
        hunk_kind(hunk) == HunkKind::Added <==> hunk.before_end - hunk.before_start == 0,
        hunk_kind(hunk) == HunkKind::Deleted <==> hunk.before_end - hunk.before_start > 0
            && hunk.after_end - hunk.after_start == 0,
        hunk_kind(hunk) == HunkKind::Modified <==> hunk.before_end - hunk.before_start > 0
            && hunk.after_end - hunk.after_start > 0,
        hunk_info(hunk).before_start == hunk.before_start && hunk_info(hunk).before_end
            == hunk.before_end,
        hunk_info(hunk).after_start == hunk.after_start && hunk_info(hunk).after_end
            == hunk.after_end,
        hunk_info(hunk).kind == hunk_kind(hunk),
{
}

/// Of the ASCII characters an agent may write the registers of letters and those of the two
/// clipboards.
pub proof fn law_writable_registers_are_letters_and_clipboards(name: char)
    requires
        (name as u32) < 128,
    ensures
        is_writable(name) <==> 'a' <= name <= 'z' || 'A' <= name <= 'Z' || name == '+' || name
            == '*',
{
}

/// A jump is told by its file and its line, counted from one; its column is not known and
/// stands for the first.
pub proof fn law_jump_is_told_by_its_line(entry: JumpEntry, jump: Jump)
    requires
        is_entry(entry, jump),
    ensures
        jump.path is Some && entry.path == jump.path->0,
        entry.line - 1 == line_of(jump.text@, cursor_of(jump.text@, jump.selection)),
        entry.col == 1,
{
}

/// A buffer is told as its document is.
pub proof fn law_buffer_is_told_as_its_document(buffer: BufferInfo, doc: DocumentInfo)
    requires
        describes(buffer, doc),
    ensures
        doc.path is Some && buffer.path == doc.path->0,
        buffer.is_modified == doc.is_modified,
        buffer.line_count == doc.line_count,
        buffer.language == doc.language && buffer.lsp_servers == doc.lsp_servers,
{
}

} // verus!
