//! The editor: its documents and the agents that work in it.

use vstd::prelude::*;

use crate::acp::client::{text_view, AgentClient, AgentId};
use crate::claude_ide::{ClaudeDiffView, Session};
use crate::mcp::positions::Selection;
use crate::text::same;

verus! {

/// The primary selection of a document in a view that has shown it.
#[derive(Clone, Copy, Debug, PartialEq, Eq, Structural)]
pub struct ViewSelection {
    pub view: usize,
    pub selection: Selection,
}

/// A document that is open.
#[derive(Debug)]
pub struct OpenDocument {
    pub id: usize,
    pub path: Option<String>,
    pub text: String,
    pub selections: Vec<ViewSelection>,
}

#[derive(Debug)]
pub struct Editor {
    pub agents: Vec<AgentClient>,
    pub documents: Vec<OpenDocument>,
    /// The view that has the focus, and the document that it shows.
    pub focus: usize,
    pub focused_doc: usize,
    /// The server for command line agents that runs.
    pub claude_ide: Option<Session>,
    /// The proposals that are shown as splits.
    pub claude_diff_views: Vec<ClaudeDiffView>,
    /// The name of the editor in its configuration.
    pub ide_name: String,
    /// Changes of the selection are reported.
    pub notify_selection: bool,
}

/// The first of the agents from `k` on with a handle.
pub open spec fn agent_from(agents: Seq<AgentClient>, id: AgentId, k: int) -> Option<int>
    decreases agents.len() - k,
{
    if k < 0 || k >= agents.len() {
        None
    } else if agents[k].id == id {
        Some(k)
    } else {
        agent_from(agents, id, k + 1)
    }
}

/// The first of the documents from `k` on with a path.
pub open spec fn document_from(documents: Seq<OpenDocument>, path: Seq<char>, k: int) -> Option<int>
    decreases documents.len() - k,
{
    if k < 0 || k >= documents.len() {
        None
    } else if text_view(documents[k].path) == Some(path) {
        Some(k)
    } else {
        document_from(documents, path, k + 1)
    }
}

/// A document that is to be read again, and the view in which.
#[derive(Clone, Copy, Debug, PartialEq, Eq, Structural)]
pub struct ReloadTarget {
    pub doc: usize,
    pub view: usize,
}

/// What is to be done about a file that an agent has written.
#[derive(Clone, Copy, Debug, PartialEq, Eq, Structural)]
pub enum FileStep {
    /// Load it.
    Open,
    /// Read the document again.
    Reload(ReloadTarget),
    Nothing,
}

/// What is to be done after a document was read again.
#[derive(Debug)]
pub struct AfterReload {
    /// Scroll to the cursor.
    pub show_cursor: bool,
    /// The file whose change the language servers are to be told of.
    pub changed: Option<String>,
}

impl Editor {
    pub open spec fn agent_index(self, id: AgentId) -> Option<int> {
        agent_from(self.agents@, id, 0)
    }

    pub open spec fn document_index(self, path: Seq<char>) -> Option<int> {
        document_from(self.documents@, path, 0)
    }

    /// The document of a file, with the first view that has shown it.
    pub open spec fn reload_target(self, path: Seq<char>) -> Option<ReloadTarget> {
        match self.document_index(path) {
            Some(i) if self.documents@[i].selections@.len() > 0 => Some(
                ReloadTarget {
                    doc: self.documents@[i].id,
                    view: self.documents@[i].selections@[0].view,
                },
            ),
            _ => None,
        }
    }

    pub fn find_agent(&self, id: AgentId) -> (index: Option<usize>)
        ensures
            match self.agent_index(id) {
                Some(i) => index == Some(i as usize) && 0 <= i < self.agents.len(),
                None => index is None,
            },
    {
        let mut k: usize = 0;
        while k < self.agents.len()
            invariant
                k <= self.agents.len(),
                self.agent_index(id) == agent_from(self.agents@, id, k as int),
            decreases self.agents.len() - k,
        {
            if self.agents[k].id == id {
                return Some(k);
            }
            k += 1;
        }
        None
    }

    pub fn document_by_path(&self, path: &str) -> (index: Option<usize>)
        ensures
            match self.document_index(path@) {
                Some(i) => index == Some(i as usize) && 0 <= i < self.documents.len(),
                None => index is None,
            },
    {
        let mut k: usize = 0;
        while k < self.documents.len()
            invariant
                k <= self.documents.len(),
                self.document_index(path@) == document_from(self.documents@, path@, k as int),
            decreases self.documents.len() - k,
        {
            if let Some(other) = &self.documents[k].path {
                if same(other.as_str(), path) {
                    return Some(k);
                }
            }
            k += 1;
        }
        None
    }

    /// Reload an open document by its filesystem path.
    ///
    /// Called after an agent writes a file so the editor buffer reflects the new
    /// content.  No-op if the file is not currently open, or was never shown.
    pub fn acp_reload_document(&self, path: &str) -> (target: Option<ReloadTarget>)
        ensures
            target == self.reload_target(path@),
    {
        match self.document_by_path(path) {
            None => None,
            Some(i) => {
                let doc = &self.documents[i];
                if doc.selections.len() > 0 {
                    Some(ReloadTarget { doc: doc.id, view: doc.selections[0].view })
                } else {
                    None
                }
            },
        }
    }

    /// Open a file if not loaded, or reload if already open.
    pub fn acp_open_or_reload(&self, path: &str) -> (step: FileStep)
        ensures
            step == match self.document_index(path@) {
                None => FileStep::Open,
                Some(_) => match self.reload_target(path@) {
                    Some(target) => FileStep::Reload(target),
                    None => FileStep::Nothing,
                },
            },
    {
        if self.document_by_path(path).is_none() {
            return FileStep::Open;
        }
        match self.acp_reload_document(path) {
            Some(target) => FileStep::Reload(target),
            None => FileStep::Nothing,
        }
    }
}

/// What is to be done after a document was read again, or could not be.
pub fn after_reload(reloaded: bool, path: &Option<String>) -> (after: AfterReload)
    ensures
        after.show_cursor == reloaded,
        text_view(after.changed) == if reloaded {
            text_view(*path)
        } else {
            None
        },
{
    if !reloaded {
        return AfterReload { show_cursor: false, changed: None };
    }
    let changed = match path {
        Some(path) => Some(path.clone()),
        None => None,
    };
    AfterReload { show_cursor: true, changed }
}

/// The files that an agent has edited, as they are read again one after the other.
#[derive(Debug)]
pub struct Reloading {
    /// No file was shown yet.
    first_edit: bool,
}

/// What is to be done about a file that an agent has edited.
#[derive(Clone, Copy, Debug, PartialEq, Eq, Structural)]
pub struct EditedStep {
    /// The document to switch to.
    pub switch_to: Option<usize>,
    pub reload: Option<ReloadTarget>,
}

impl Reloading {
    pub closed spec fn is_first(self) -> bool {
        self.first_edit
    }

    pub fn new() -> (r: Reloading)
        ensures
            r.is_first(),
    {
        Reloading { first_edit: true }
    }

    /// The next file, where it is open or was opened now. The view switches to the
    /// first file that could be opened; one that could not is left out.
    pub fn next(&mut self, editor: &Editor, path: &str, open_failed: bool) -> (step: EditedStep)
        ensures
            open_failed ==> {
                &&& step == (EditedStep { switch_to: None, reload: None })
                &&& final(self).is_first() == old(self).is_first()
            },
            !open_failed ==> {
                &&& !final(self).is_first()
                &&& step.reload == editor.reload_target(path@)
                &&& step.switch_to == match editor.document_index(path@) {
                    Some(i) if old(self).is_first() => Some(editor.documents@[i].id),
                    _ => None,
                }
            },
    {
        if open_failed {
            return EditedStep { switch_to: None, reload: None };
        }
        let mut switch_to: Option<usize> = None;
        if self.first_edit {
            if let Some(i) = editor.document_by_path(path) {
                switch_to = Some(editor.documents[i].id);
            }
            self.first_edit = false;
        }
        EditedStep { switch_to, reload: editor.acp_reload_document(path) }
    }
}

/// A document that is to be read again is open, has the path and was shown.
pub proof fn law_only_open_documents_are_reloaded(editor: Editor, path: Seq<char>)
    requires
        editor.reload_target(path) is Some,
    ensures
        exists|i: int|
            0 <= i < editor.documents@.len() && text_view(
                (#[trigger] editor.documents@[i]).path,
            ) == Some(path) && editor.documents@[i].id == editor.reload_target(path)->0.doc,
{
    lemma_document_from(editor.documents@, path, 0);
    let i = editor.document_index(path)->0;
    assert(text_view(editor.documents@[i].path) == Some(path));
}

proof fn lemma_document_from(documents: Seq<OpenDocument>, path: Seq<char>, k: int)
    requires
        0 <= k,
    ensures
        document_from(documents, path, k) matches Some(i) ==> k <= i < documents.len() && text_view(
            documents[i].path,
        ) == Some(path),
    decreases documents.len() - k,
{
    if k < documents.len() {
        lemma_document_from(documents, path, k + 1);
    }
}

/// The agent of a handle is the first one that has it.
pub proof fn law_agent_is_the_first_with_its_handle(agents: Seq<AgentClient>, id: AgentId, k: int)
    requires
        0 <= k,
    ensures
        match agent_from(agents, id, k) {
            Some(i) => k <= i < agents.len() && agents[i].id == id && forall|j: int|
                k <= j < i ==> !((#[trigger] agents[j]).id == id),
            None => forall|j: int| k <= j < agents.len() ==> !((#[trigger] agents[j]).id == id),
        },
    decreases agents.len() - k,
{
    if k < agents.len() && !(agents[k].id == id) {
        law_agent_is_the_first_with_its_handle(agents, id, k + 1);
    }
}

/// The document of a path is the first one that has it; a document without a file is
/// that of no path.
pub proof fn law_document_is_the_first_with_its_path(
    documents: Seq<OpenDocument>,
    path: Seq<char>,
    k: int,
)
    requires
        0 <= k,
    ensures
        match document_from(documents, path, k) {
            Some(i) => k <= i < documents.len() && documents[i].path is Some && documents[i].path->0@
                == path && forall|j: int|
                k <= j < i && (#[trigger] documents[j]).path is Some ==> documents[j].path->0@
                    != path,
            None => forall|j: int|
                k <= j < documents.len() && (#[trigger] documents[j]).path is Some
                    ==> documents[j].path->0@ != path,
        },
    decreases documents.len() - k,
{
    if k < documents.len() && text_view(documents[k].path) != Some(path) {
        law_document_is_the_first_with_its_path(documents, path, k + 1);
    }
}

/// A document is reloaded in the first view that has shown it, and not at all where it is
/// not open or no view has shown it.
pub proof fn law_document_is_reloaded_in_its_first_view(editor: Editor, path: Seq<char>)
    ensures
        editor.reload_target(path) matches Some(target) ==> exists|i: int|
            0 <= i < editor.documents@.len() && (#[trigger] editor.documents@[i]).id == target.doc
                && editor.documents@[i].path is Some && editor.documents@[i].path->0@ == path
                && editor.documents@[i].selections@.len() > 0 && editor.documents@[i].selections@[0].view
                == target.view,
        (forall|i: int|
            0 <= i < editor.documents@.len() && (#[trigger] editor.documents@[i]).path is Some
                ==> editor.documents@[i].path->0@ != path) ==> editor.reload_target(path) is None,
{
    law_document_is_the_first_with_its_path(editor.documents@, path, 0);
    if let Some(target) = editor.reload_target(path) {
        let i = editor.document_index(path)->0;
        let found = editor.documents@[i];
        assert(found.id == target.doc);
    }
}

} // verus!
