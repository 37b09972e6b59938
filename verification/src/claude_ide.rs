//! The editor as an IDE for a command line agent: its name, the proposals that it
//! shows as splits, and the selections that it reports.

use vstd::prelude::*;

use vstd::math::{max, min};

use crate::editor::{Editor, OpenDocument, ViewSelection};
use crate::mcp::positions::{column_of, cursor, cursor_of, line_and_column, line_of, Selection};
use crate::mcp::symbols::opt_view;
use crate::rope::{rope_of, slice_text};
use crate::text::{
    law_trimming_takes_the_whitespace_around, same, trim, trimmed, whitespace,
};

verus! {

/// A proposal that is shown as a split.
#[derive(Debug)]
pub struct ClaudeDiffView {
    pub tab_name: String,
    /// The file that it changes.
    pub path: String,
    /// The document as it is.
    pub left: usize,
    /// The document as it is proposed.
    pub right: usize,
}

impl ClaudeDiffView {
    pub fn copy(&self) -> (r: ClaudeDiffView)
        ensures
            r == *self,
    {
        ClaudeDiffView {
            tab_name: self.tab_name.clone(),
            path: self.path.clone(),
            left: self.left,
            right: self.right,
        }
    }
}

/// The name of the editor: the one that it was started with, else the configured
/// one, else that of the workspace's directory.
pub open spec fn chosen_name(
    override_name: Option<Seq<char>>,
    configured: Seq<char>,
    folder: Option<Seq<char>>,
) -> Seq<char> {
    if override_name is Some && trim(override_name->0).len() > 0 {
        trim(override_name->0)
    } else if trim(configured).len() > 0 {
        trim(configured)
    } else if folder is Some && folder->0.len() > 0 {
        folder->0
    } else {
        "Helix"@
    }
}

/// Name shown in the CLI's `/ide` picker: flag → config → workspace directory name.
pub fn ide_name(editor: &Editor, override_name: Option<&str>, folder: Option<&str>) -> (name: String)
    ensures
        name@ == chosen_name(opt_view(override_name), editor.ide_name@, opt_view(folder)),
{
    if let Some(name) = override_name {
        let name = trimmed(name);
        if !name.as_str().is_empty() {
            return name;
        }
    }
    let configured = trimmed(editor.ide_name.as_str());
    if !configured.as_str().is_empty() {
        return configured;
    }
    if let Some(folder) = folder {
        if !folder.is_empty() {
            return folder.to_string();
        }
    }
    "Helix".to_string()
}

/// What keeps a server from being started.
#[derive(Clone, Copy, Debug, PartialEq, Eq, Structural)]
pub enum StartError {
    AlreadyRunning,
    /// The channel for commands to the editor is not there.
    NoChannel,
}

impl StartError {
    /// What the user is told, where the server is for an agent of this name.
    pub open spec fn text(self, agent: Seq<char>) -> Seq<char> {
        match self {
            StartError::AlreadyRunning => agent + " IDE server is already running"@,
            StartError::NoChannel => "editor command channel is not initialised"@,
        }
    }

    pub fn message(self, agent: &str) -> (text: String)
        ensures
            text@ == self.text(agent@),
    {
        match self {
            StartError::AlreadyRunning => {
                let mut text = agent.to_string();
                text.append(" IDE server is already running");
                text
            },
            StartError::NoChannel => "editor command channel is not initialised".to_string(),
        }
    }
}

/// Whether a server can be started.
pub fn check_start(is_running: bool, has_channel: bool) -> (result: Result<(), StartError>)
    ensures
        result == if is_running {
            Err(StartError::AlreadyRunning)
        } else if !has_channel {
            Err(StartError::NoChannel)
        } else {
            Ok(())
        },
{
    if is_running {
        Err(StartError::AlreadyRunning)
    } else if !has_channel {
        Err(StartError::NoChannel)
    } else {
        Ok(())
    }
}

/// A server for command line agents that runs, with the lock file by which they find
/// it.
#[derive(Debug)]
pub struct Session {
    pub lock_path: String,
}

/// Register a server that has been started on the editor, where one may be.
pub fn start(editor: &mut Editor, has_channel: bool, session: Session) -> (result: Result<
    (),
    StartError,
>)
    ensures
        result == if old(editor).claude_ide is Some {
            Err(StartError::AlreadyRunning)
        } else if !has_channel {
            Err(StartError::NoChannel)
        } else {
            Ok(())
        },
        result is Err ==> *final(editor) == *old(editor),
        result is Ok ==> *final(editor) == (Editor {
            claude_ide: Some(session),
            ..*old(editor)
        }),
{
    check_start(editor.claude_ide.is_some(), has_channel)?;
    editor.claude_ide = Some(session);
    Ok(())
}

/// Detach the running session from the editor; the caller must stop its server and
/// remove its lock file.
pub fn stop(editor: &mut Editor) -> (session: Option<Session>)
    ensures
        session == old(editor).claude_ide,
        *final(editor) == (Editor { claude_ide: None, ..*old(editor) }),
{
    editor.claude_ide.take()
}

/// Stopping hands back the session that was started, and leaves the editor as it was.
pub proof fn law_stop_undoes_start(before: Editor, session: Session)
    requires
        before.claude_ide is None,
    ensures
        ({
            let running = Editor { claude_ide: Some(session), ..before };
            &&& running.claude_ide == Some(session)
            &&& (Editor { claude_ide: None, ..running }) == before
        }),
{
}

/// The lock file that is remembered after a server has stopped: none, where it was
/// that of the server.
pub fn lock_after_stop(lock: Option<String>, stopped: &str) -> (rest: Option<String>)
    ensures
        rest == match lock {
            Some(path) if path@ == stopped@ => None,
            _ => lock,
        },
{
    match lock {
        Some(path) => if same(path.as_str(), stopped) {
            None
        } else {
            Some(path)
        },
        None => None,
    }
}

/// The proposal owns the document, on either side.
pub open spec fn owns(view: ClaudeDiffView, doc_id: usize) -> bool {
    view.left == doc_id || view.right == doc_id
}

/// The first of the proposals from `k` on that owns a document.
pub open spec fn split_from(views: Seq<ClaudeDiffView>, doc_id: usize, k: int) -> Option<int>
    decreases views.len() - k,
{
    if k < 0 || k >= views.len() {
        None
    } else if owns(views[k], doc_id) {
        Some(k)
    } else {
        split_from(views, doc_id, k + 1)
    }
}

/// The first of the proposals from `k` on with a name.
pub open spec fn tab_from(views: Seq<ClaudeDiffView>, tab: Seq<char>, k: int) -> Option<int>
    decreases views.len() - k,
{
    if k < 0 || k >= views.len() {
        None
    } else if views[k].tab_name@ == tab {
        Some(k)
    } else {
        tab_from(views, tab, k + 1)
    }
}

pub open spec fn split_of(editor: Editor, doc_id: usize) -> Option<ClaudeDiffView> {
    match split_from(editor.claude_diff_views@, doc_id, 0) {
        Some(k) => Some(editor.claude_diff_views@[k]),
        None => None,
    }
}

/// Proposal shown as a split that owns `doc_id` (left or right side).
pub fn split_for_doc(editor: &Editor, doc_id: usize) -> (view: Option<ClaudeDiffView>)
    ensures
        view == split_of(*editor, doc_id),
{
    let views = &editor.claude_diff_views;
    let mut k: usize = 0;
    while k < views.len()
        invariant
            k <= views.len(),
            views == editor.claude_diff_views,
            split_from(views@, doc_id, 0) == split_from(views@, doc_id, k as int),
        decreases views.len() - k,
    {
        if views[k].left == doc_id || views[k].right == doc_id {
            return Some(views[k].copy());
        }
        k += 1;
    }
    None
}

/// Why no proposal is meant.
#[derive(Clone, Copy, Debug, PartialEq, Eq, Structural)]
pub enum SplitError {
    NoProposal,
    Several,
}

impl SplitError {
    /// What the user is told, where the proposals come from an agent of this name.
    pub open spec fn text(self, agent: Seq<char>) -> Seq<char> {
        match self {
            SplitError::NoProposal => "no "@ + agent + " proposal is open"@,
            SplitError::Several => "several "@ + agent
                + " proposals are open; focus one of them first"@,
        }
    }

    pub fn message(self, agent: &str) -> (text: String)
        ensures
            text@ == self.text(agent@),
    {
        let (start, end) = match self {
            SplitError::NoProposal => ("no ", " proposal is open"),
            SplitError::Several => ("several ", " proposals are open; focus one of them first"),
        };
        let mut text = start.to_string();
        text.append(agent);
        text.append(end);
        text
    }
}

/// The proposal that a bare accept or reject refers to: the one owning the current
/// document, else the only pending one.
pub fn current_split(editor: &Editor) -> (result: Result<ClaudeDiffView, SplitError>)
    ensures
        result == match split_of(*editor, editor.focused_doc) {
            Some(view) => Ok(view),
            None => if editor.claude_diff_views@.len() == 0 {
                Err(SplitError::NoProposal)
            } else if editor.claude_diff_views@.len() == 1 {
                Ok(editor.claude_diff_views@[0])
            } else {
                Err(SplitError::Several)
            },
        },
{
    if let Some(view) = split_for_doc(editor, editor.focused_doc) {
        return Ok(view);
    }
    if editor.claude_diff_views.len() == 0 {
        Err(SplitError::NoProposal)
    } else if editor.claude_diff_views.len() == 1 {
        Ok(editor.claude_diff_views[0].copy())
    } else {
        Err(SplitError::Several)
    }
}

/// What the user has decided of a proposal.
#[derive(Debug)]
pub enum DiffOutcome {
    /// It is accepted with this text.
    Saved(String),
    Rejected,
}

/// What is to be done when a proposal is decided.
#[derive(Debug)]
pub struct SplitStep {
    /// The proposal that is answered and whose split is closed.
    pub view: ClaudeDiffView,
    /// The answer.
    pub outcome: DiffOutcome,
    /// The file that is to be read again once it has been written.
    pub reload: Option<String>,
}

/// The step that decides a proposal.
pub open spec fn decides(step: SplitStep, view: ClaudeDiffView, outcome: DiffOutcome) -> bool {
    &&& step.view == view
    &&& step.outcome == outcome
    &&& match step.reload {
        Some(path) => outcome is Saved && path@ == view.path@,
        None => outcome is Rejected,
    }
}

/// The editor without proposal `k`, and everything else in it as it was.
pub open spec fn without_proposal(before: Editor, after: Editor, k: int) -> bool {
    &&& after.claude_diff_views@ == before.claude_diff_views@.remove(k)
    &&& after == (Editor { claude_diff_views: after.claude_diff_views, ..before })
}

fn find_tab(views: &Vec<ClaudeDiffView>, tab_name: &str) -> (index: Option<usize>)
    ensures
        match tab_from(views@, tab_name@, 0) {
            Some(k) => index == Some(k as usize) && 0 <= k < views.len(),
            None => index is None,
        },
{
    let mut k: usize = 0;
    while k < views.len()
        invariant
            k <= views.len(),
            tab_from(views@, tab_name@, 0) == tab_from(views@, tab_name@, k as int),
        decreases views.len() - k,
    {
        if same(views[k].tab_name.as_str(), tab_name) {
            return Some(k);
        }
        k += 1;
    }
    None
}

/// Decide a split proposal: it leaves the editor's list, and the step says how the CLI
/// call is resolved, which split is torn down and, when accepted, which file is read
/// again once the CLI has written it. `None` if no such proposal exists.
pub fn resolve_split(editor: &mut Editor, tab_name: &str, outcome: DiffOutcome) -> (step: Option<
    SplitStep,
>)
    ensures
        match tab_from(old(editor).claude_diff_views@, tab_name@, 0) {
            Some(k) => {
                &&& step matches Some(step) && decides(
                    step,
                    old(editor).claude_diff_views@[k],
                    outcome,
                )
                &&& without_proposal(*old(editor), *final(editor), k)
            },
            None => step is None && *final(editor) == *old(editor),
        },
{
    match find_tab(&editor.claude_diff_views, tab_name) {
        None => None,
        Some(k) => {
            let view = editor.claude_diff_views.remove(k);
            let reload = match &outcome {
                DiffOutcome::Saved(_) => Some(view.path.clone()),
                DiffOutcome::Rejected => None,
            };
            Some(SplitStep { view, outcome, reload })
        },
    }
}

/// The first of the documents from `k` on with an id.
pub open spec fn doc_from(documents: Seq<OpenDocument>, id: usize, k: int) -> Option<int>
    decreases documents.len() - k,
{
    if k < 0 || k >= documents.len() {
        None
    } else if documents[k].id == id {
        Some(k)
    } else {
        doc_from(documents, id, k + 1)
    }
}

pub fn document_by_id(editor: &Editor, id: usize) -> (index: Option<usize>)
    ensures
        match doc_from(editor.documents@, id, 0) {
            Some(k) => index == Some(k as usize) && 0 <= k < editor.documents.len(),
            None => index is None,
        },
{
    let mut k: usize = 0;
    while k < editor.documents.len()
        invariant
            k <= editor.documents.len(),
            doc_from(editor.documents@, id, 0) == doc_from(editor.documents@, id, k as int),
        decreases editor.documents.len() - k,
    {
        if editor.documents[k].id == id {
            return Some(k);
        }
        k += 1;
    }
    None
}

pub open spec fn buffer_gone() -> Seq<char> {
    "the proposal buffer is gone"@
}

/// Accept a split proposal with the *current* contents of the proposal buffer (the
/// user may have edited it); the editor does not write the file. It is an error if
/// the buffer is gone.
pub fn accept_split(editor: &mut Editor, view: &ClaudeDiffView) -> (result: Result<
    Option<SplitStep>,
    &'static str,
>)
    ensures
        match doc_from(old(editor).documents@, view.right, 0) {
            None => {
                &&& result is Err && result->Err_0@ == buffer_gone()
                &&& *final(editor) == *old(editor)
            },
            Some(d) => result is Ok && match tab_from(
                old(editor).claude_diff_views@,
                view.tab_name@,
                0,
            ) {
                None => result->Ok_0 is None && *final(editor) == *old(editor),
                Some(k) => {
                    &&& result->Ok_0 matches Some(step)
                    &&& step.view == old(editor).claude_diff_views@[k]
                    &&& step.outcome matches DiffOutcome::Saved(text) && text@
                        == old(editor).documents@[d].text@
                    &&& step.reload matches Some(path) && path@
                        == old(editor).claude_diff_views@[k].path@
                    &&& without_proposal(*old(editor), *final(editor), k)
                },
            },
        },
{
    match document_by_id(editor, view.right) {
        None => Err("the proposal buffer is gone"),
        Some(d) => {
            let text = editor.documents[d].text.clone();
            Ok(resolve_split(editor, view.tab_name.as_str(), DiffOutcome::Saved(text)))
        },
    }
}

/// Reject a split proposal.
pub fn reject_split(editor: &mut Editor, view: &ClaudeDiffView) -> (step: Option<SplitStep>)
    ensures
        match tab_from(old(editor).claude_diff_views@, view.tab_name@, 0) {
            Some(k) => {
                &&& step matches Some(step) && decides(
                    step,
                    old(editor).claude_diff_views@[k],
                    DiffOutcome::Rejected,
                )
                &&& without_proposal(*old(editor), *final(editor), k)
            },
            None => step is None && *final(editor) == *old(editor),
        },
{
    resolve_split(editor, view.tab_name.as_str(), DiffOutcome::Rejected)
}

/// Where no two proposals have one name, a proposal that was decided cannot be decided
/// again, and every other one stays.
pub proof fn law_proposal_is_decided_once(before: Editor, after: Editor, tab: Seq<char>, k: int)
    requires
        tab_from(before.claude_diff_views@, tab, 0) == Some(k),
        without_proposal(before, after, k),
        forall|i: int, j: int|
            0 <= i < j < before.claude_diff_views@.len()
                ==> #[trigger] before.claude_diff_views@[i].tab_name@
                != #[trigger] before.claude_diff_views@[j].tab_name@,
    ensures
        tab_from(after.claude_diff_views@, tab, 0) is None,
        forall|i: int|
            0 <= i < before.claude_diff_views@.len() && i != k ==> after.claude_diff_views@.contains(
                #[trigger] before.claude_diff_views@[i],
            ),
{
    let views = before.claude_diff_views@;
    let rest = after.claude_diff_views@;
    lemma_tab_is_first(views, tab, 0);
    lemma_no_tab(rest, tab, 0);
    assert forall|i: int| 0 <= i < views.len() && i != k implies rest.contains(
        #[trigger] views[i],
    ) by {
        if i < k {
            assert(rest[i] == views[i]);
        } else {
            assert(rest[i - 1] == views[i]);
        }
    }
}

proof fn lemma_tab_is_first(views: Seq<ClaudeDiffView>, tab: Seq<char>, from: int)
    requires
        0 <= from,
    ensures
        tab_from(views, tab, from) matches Some(k) ==> from <= k < views.len()
            && views[k].tab_name@ == tab,
    decreases views.len() - from,
{
    if from < views.len() && views[from].tab_name@ != tab {
        lemma_tab_is_first(views, tab, from + 1);
    }
}

proof fn lemma_no_tab(views: Seq<ClaudeDiffView>, tab: Seq<char>, from: int)
    requires
        0 <= from,
        forall|i: int| from <= i < views.len() ==> (#[trigger] views[i]).tab_name@ != tab,
    ensures
        tab_from(views, tab, from) is None,
    decreases views.len() - from,
{
    if from < views.len() {
        lemma_no_tab(views, tab, from + 1);
    }
}

/// The proposal that is rejected because its *buffer* was closed without a decision.
pub fn closed_proposal(editor: &Editor, closed: usize) -> (view: Option<ClaudeDiffView>)
    ensures
        view == match split_of(*editor, closed) {
            Some(view) if view.right == closed => Some(view),
            _ => None,
        },
{
    match split_for_doc(editor, closed) {
        Some(view) => if view.right == closed {
            Some(view)
        } else {
            None
        },
        None => None,
    }
}

/// A place in a text, counted from zero.
#[derive(Clone, Copy, Debug, PartialEq, Eq, Structural)]
pub struct Position {
    pub line: usize,
    pub character: usize,
}

/// A selection as it is reported.
#[derive(Debug)]
pub struct SelectionInfo {
    pub file_path: String,
    pub text: String,
    pub start: Position,
    pub end: Position,
}

/// The place of a character; past the end of the text, that of the end.
pub open spec fn is_position(place: Position, text: Seq<char>, index: int) -> bool {
    let index = min(index, text.len() as int);
    &&& place.line == line_of(text, index)
    &&& place.character == column_of(text, index)
}

fn position(text: &str, char_idx: usize) -> (place: Position)
    ensures
        is_position(place, text@, char_idx as int),
{
    let len = text.unicode_len();
    let index: usize = if char_idx < len {
        char_idx
    } else {
        len
    };
    let (line, character) = line_and_column(text, index);
    Position { line, character }
}

pub open spec fn from(s: Selection) -> int {
    min(s.anchor as int, s.head as int)
}

pub open spec fn to(s: Selection) -> int {
    max(s.anchor as int, s.head as int)
}

/// The selection is no more than the cursor.
pub open spec fn is_bare(s: Selection) -> bool {
    to(s) - from(s) <= 1
}

/// The selection as it is reported.
pub open spec fn reports(info: SelectionInfo, path: Seq<char>, text: Seq<char>, s: Selection) -> bool {
    &&& info.file_path@ == path
    &&& if is_bare(s) {
        &&& info.text@.len() == 0
        &&& is_position(info.start, text, cursor_of(text, s))
        &&& is_position(info.end, text, cursor_of(text, s))
    } else {
        &&& info.text@ == text.subrange(from(s), to(s))
        &&& is_position(info.start, text, from(s))
        &&& is_position(info.end, text, to(s))
    }
}

/// The first of the selections from `k` on that is of a view.
pub open spec fn selection_from(selections: Seq<ViewSelection>, view: usize, k: int) -> Option<
    Selection,
>
    decreases selections.len() - k,
{
    if k < 0 || k >= selections.len() {
        None
    } else if selections[k].view == view {
        Some(selections[k].selection)
    } else {
        selection_from(selections, view, k + 1)
    }
}

/// All selections lie within the text.
pub open spec fn selections_fit(doc: OpenDocument) -> bool {
    forall|i: int|
        0 <= i < doc.selections@.len() ==> {
            &&& (#[trigger] doc.selections@[i]).selection.anchor <= doc.text@.len()
            &&& doc.selections@[i].selection.head <= doc.text@.len()
        }
}

/// Whether all selections lie within the text.
pub fn selections_in_range(doc: &OpenDocument) -> (b: bool)
    ensures
        b == selections_fit(*doc),
{
    let len = doc.text.as_str().unicode_len();
    let mut i: usize = 0;
    while i < doc.selections.len()
        invariant
            i <= doc.selections.len(),
            len == doc.text@.len(),
            forall|k: int|
                0 <= k < i ==> {
                    &&& (#[trigger] doc.selections@[k]).selection.anchor <= len
                    &&& doc.selections@[k].selection.head <= len
                },
        decreases doc.selections.len() - i,
    {
        let selection = doc.selections[i].selection;
        if selection.anchor > len || selection.head > len {
            assert(!(doc.selections@[i as int].selection.anchor <= len
                && doc.selections@[i as int].selection.head <= len));
            return false;
        }
        i += 1;
    }
    true
}

fn find_selection(doc: &OpenDocument, view: usize) -> (selection: Option<Selection>)
    ensures
        selection == selection_from(doc.selections@, view, 0),
        selection matches Some(s) ==> exists|i: int|
            0 <= i < doc.selections@.len() && #[trigger] doc.selections@[i].selection == s,
{
    let mut k: usize = 0;
    while k < doc.selections.len()
        invariant
            k <= doc.selections.len(),
            selection_from(doc.selections@, view, 0) == selection_from(
                doc.selections@,
                view,
                k as int,
            ),
        decreases doc.selections.len() - k,
    {
        if doc.selections[k].view == view {
            let selection = doc.selections[k].selection;
            assert(doc.selections@[k as int].selection == selection);
            return Some(selection);
        }
        k += 1;
    }
    None
}

/// Primary selection of `doc` in `view` as the CLI expects it.
///
/// There are no empty selections: a bare cursor is a one-character range. Such
/// ranges are reported as an empty selection at the cursor, so that the CLI does not
/// show "1 line selected" while the user merely moves around. Scratch buffers (no
/// path) are skipped.
pub fn selection_info(doc: &OpenDocument, view: usize) -> (info: Option<SelectionInfo>)
    requires
        selections_fit(*doc),
    ensures
        info is Some <==> doc.path is Some && selection_from(doc.selections@, view, 0) is Some,
        info matches Some(info) ==> reports(
            info,
            doc.path->0@,
            doc.text@,
            selection_from(doc.selections@, view, 0)->0,
        ),
{
    let path = match &doc.path {
        Some(path) => path,
        None => {
            return None;
        },
    };
    let s = match find_selection(doc, view) {
        Some(s) => s,
        None => {
            return None;
        },
    };
    let text = doc.text.as_str();
    let (start, end): (usize, usize) = if s.anchor < s.head {
        (s.anchor, s.head)
    } else {
        (s.head, s.anchor)
    };
    if end - start <= 1 {
        let at = cursor(text, s);
        return Some(
            SelectionInfo {
                file_path: path.clone(),
                text: String::new(),
                start: position(text, at),
                end: position(text, at),
            },
        );
    }
    let rope = rope_of(text);
    let fragment = slice_text(&rope, start, end);
    Some(
        SelectionInfo {
            file_path: path.clone(),
            text: fragment,
            start: position(text, start),
            end: position(text, end),
        },
    )
}

/// Selection of the currently focused view, if its document has a path and changes
/// of the selection are reported.
pub fn focused_selection(editor: &Editor) -> (info: Option<SelectionInfo>)
    requires
        forall|i: int|
            0 <= i < editor.documents@.len() ==> selections_fit(#[trigger] editor.documents@[i]),
    ensures
        ({
            let index = doc_from(editor.documents@, editor.focused_doc, 0);
            let selection = selection_from(
                editor.documents@[index->0].selections@,
                editor.focus,
                0,
            );
            &&& info is Some <==> editor.notify_selection && index is Some
                && editor.documents@[index->0].path is Some && selection is Some
            &&& info matches Some(info) ==> reports(
                info,
                editor.documents@[index->0].path->0@,
                editor.documents@[index->0].text@,
                selection->0,
            )
        }),
{
    if !editor.notify_selection {
        return None;
    }
    match document_by_id(editor, editor.focused_doc) {
        Some(i) => {
            assert(selections_fit(editor.documents@[i as int]));
            selection_info(&editor.documents[i], editor.focus)
        },
        None => None,
    }
}

/// A bare cursor is reported as an empty selection.
pub proof fn law_bare_cursor_is_reported_empty(
    info: SelectionInfo,
    path: Seq<char>,
    text: Seq<char>,
    s: Selection,
)
    requires
        reports(info, path, text, s),
        is_bare(s),
    ensures
        info.text@.len() == 0,
        info.start == info.end,
{
}

/// The decision on a split is what the proposal of that name is answered, and a file
/// is only read again where the proposal was accepted.
pub proof fn law_rejected_proposal_reloads_nothing(
    step: SplitStep,
    view: ClaudeDiffView,
    outcome: DiffOutcome,
)
    requires
        decides(step, view, outcome),
    ensures
        step.outcome == outcome,
        step.reload is Some <==> outcome is Saved,
{
}

/// The proposal of a document is the first one that shows it, on either side.
pub proof fn law_proposal_is_the_first_with_the_document(views: Seq<ClaudeDiffView>, doc_id: usize, k: int)
    requires
        0 <= k,
    ensures
        match split_from(views, doc_id, k) {
            Some(i) => k <= i < views.len() && (views[i].left == doc_id || views[i].right == doc_id) && forall|j: int|
                k <= j < i ==> !(((#[trigger] views[j]).left == doc_id || (#[trigger] views[j]).right == doc_id)),
            None => forall|j: int| k <= j < views.len() ==> !(((#[trigger] views[j]).left == doc_id || (#[trigger] views[j]).right == doc_id)),
        },
    decreases views.len() - k,
{
    if k < views.len() && !((views[k].left == doc_id || views[k].right == doc_id)) {
        law_proposal_is_the_first_with_the_document(views, doc_id, k + 1);
    }
}

/// The proposal of a name is the first one that has it.
pub proof fn law_proposal_is_the_first_with_its_name(views: Seq<ClaudeDiffView>, tab: Seq<char>, k: int)
    requires
        0 <= k,
    ensures
        match tab_from(views, tab, k) {
            Some(i) => k <= i < views.len() && views[i].tab_name@ == tab && forall|j: int|
                k <= j < i ==> !((#[trigger] views[j]).tab_name@ == tab),
            None => forall|j: int| k <= j < views.len() ==> !((#[trigger] views[j]).tab_name@ == tab),
        },
    decreases views.len() - k,
{
    if k < views.len() && !(views[k].tab_name@ == tab) {
        law_proposal_is_the_first_with_its_name(views, tab, k + 1);
    }
}

/// The document of an id is the first one that has it.
pub proof fn law_document_is_the_first_with_its_id(documents: Seq<OpenDocument>, id: usize, k: int)
    requires
        0 <= k,
    ensures
        match doc_from(documents, id, k) {
            Some(i) => k <= i < documents.len() && documents[i].id == id && forall|j: int|
                k <= j < i ==> !((#[trigger] documents[j]).id == id),
            None => forall|j: int| k <= j < documents.len() ==> !((#[trigger] documents[j]).id == id),
        },
    decreases documents.len() - k,
{
    if k < documents.len() && !(documents[k].id == id) {
        law_document_is_the_first_with_its_id(documents, id, k + 1);
    }
}

/// The selection of a view is the first one that is of it; a view that has none gets
/// none.
pub proof fn law_selection_is_that_of_its_view(
    selections: Seq<ViewSelection>,
    view: usize,
    k: int,
)
    requires
        0 <= k,
    ensures
        match selection_from(selections, view, k) {
            Some(found) => exists|i: int| #[trigger]
                selections[i].selection == found && k <= i < selections.len()
                    && selections[i].view == view && forall|j: int|
                    k <= j < i ==> (#[trigger] selections[j]).view != view,
            None => forall|j: int|
                k <= j < selections.len() ==> (#[trigger] selections[j]).view != view,
        },
    decreases selections.len() - k,
{
    if k < selections.len() {
        if selections[k].view == view {
            assert(selections[k].selection == selection_from(selections, view, k)->0);
        } else {
            law_selection_is_that_of_its_view(selections, view, k + 1);
            if let Some(found) = selection_from(selections, view, k + 1) {
                let i = choose|i: int| #[trigger]
                    selections[i].selection == found && k + 1 <= i < selections.len()
                        && selections[i].view == view && forall|j: int|
                        k + 1 <= j < i ==> (#[trigger] selections[j]).view != view;
                assert(selections[i].selection == found);
            }
        }
    }
}

/// The editor goes by the name that it was started with, without the whitespace around it;
/// where that is blank by the configured one, then by that of the directory, and else by
/// that of the editor. The name is never blank but where the directory's is.
pub proof fn law_editor_goes_by_the_first_name(
    started: Seq<char>,
    configured: Seq<char>,
    folder: Seq<char>,
    before: Seq<char>,
    name: Seq<char>,
    after: Seq<char>,
)
    requires
        forall|i: int| 0 <= i < before.len() ==> whitespace(#[trigger] before[i]),
        forall|i: int| 0 <= i < after.len() ==> whitespace(#[trigger] after[i]),
        name.len() > 0 && !whitespace(name[0]) && !whitespace(name.last()),
        trim(started).len() == 0,
        trim(configured).len() == 0,
    ensures
        chosen_name(Some(before + name + after), configured, Some(folder)) == name,
        chosen_name(None, before + name + after, Some(folder)) == name,
        chosen_name(Some(started), before + name + after, Some(folder)) == name,
        folder.len() > 0 ==> chosen_name(Some(started), configured, Some(folder)) == folder,
        folder.len() > 0 ==> chosen_name(None, configured, Some(folder)) == folder,
        chosen_name(None, configured, None) == "Helix"@,
        chosen_name(Some(started), configured, Some(Seq::empty())) == "Helix"@,
{
    law_trimming_takes_the_whitespace_around(before, name, after);
}

/// A selection of one character or none is told as the place of the cursor; a longer one
/// with its text, from where it begins to where it ends, whichever way it was made.
pub proof fn law_selection_is_told_with_its_text(
    info: SelectionInfo,
    path: Seq<char>,
    text: Seq<char>,
    s: Selection,
    before: Seq<char>,
    chosen: Seq<char>,
    after: Seq<char>,
)
    requires
        reports(info, path, text, s),
        text == before + chosen + after,
        (s.anchor == before.len() && s.head == before.len() + chosen.len()) || (s.head
            == before.len() && s.anchor == before.len() + chosen.len()),
    ensures
        chosen.len() <= 1 ==> info.text@.len() == 0 && info.start == info.end,
        chosen.len() > 1 ==> info.text@ == chosen,
        chosen.len() > 1 ==> info.start.line == line_of(text, before.len() as int)
            && info.start.character == column_of(text, before.len() as int),
        chosen.len() > 1 ==> info.end.line == line_of(text, before.len() + chosen.len() as int)
            && info.end.character == column_of(text, before.len() + chosen.len() as int),
        info.file_path@ == path,
{
    if chosen.len() > 1 {
        assert(text.subrange(from(s), to(s)) =~= chosen);
    }
}

/// A place past the end of a text is that of its end, and one within it its own.
pub proof fn law_place_past_the_end_is_the_end(place: Position, text: Seq<char>, index: int)
    requires
        is_position(place, text, index),
    ensures
        index <= text.len() ==> place.line == line_of(text, index) && place.character == column_of(
            text,
            index,
        ),
        index > text.len() ==> place.line == line_of(text, text.len() as int) && place.character
            == column_of(text, text.len() as int),
{
}

} // verus!
