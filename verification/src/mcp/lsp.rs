//! What language servers know, as an agent gets it.

use vstd::prelude::*;

use crate::text::{decimal, decimal_of, join, join_strings, views};

verus! {

// ── Asking a server ──────────────────────────────────────────────────────────

/// What a language server is asked for.
#[derive(Clone, Copy, Debug, PartialEq, Eq, Structural)]
pub enum Feature {
    Rename,
    DocumentSymbols,
    WorkspaceSymbols,
    References,
    Hover,
    CodeActions,
    InlayHints,
    Completion,
    SignatureHelp,
}

/// Why no server can be asked.
#[derive(Clone, Copy, Debug, PartialEq, Eq, Structural)]
pub enum SetupProblem {
    /// The document is not there.
    NoDocument,
    /// No server of the document offers the feature.
    NoServer,
    /// The server turned out not to offer it.
    Unsupported,
}

/// The first of the problems that a query can have before a server is asked.
pub fn setup_problem(has_document: bool, has_server: bool, is_supported: bool) -> (problem: Option<
    SetupProblem,
>)
    ensures
        problem == if !has_document {
            Some(SetupProblem::NoDocument)
        } else if !has_server {
            Some(SetupProblem::NoServer)
        } else if !is_supported {
            Some(SetupProblem::Unsupported)
        } else {
            None
        },
{
    if !has_document {
        Some(SetupProblem::NoDocument)
    } else if !has_server {
        Some(SetupProblem::NoServer)
    } else if !is_supported {
        Some(SetupProblem::Unsupported)
    } else {
        None
    }
}

pub open spec fn no_server(feature: Feature) -> Seq<char> {
    match feature {
        Feature::Rename => "no language server with rename support for "@,
        Feature::DocumentSymbols => "no LSP with document-symbols support for "@,
        Feature::WorkspaceSymbols => "no LSP with workspace-symbols support"@,
        Feature::References => "no LSP with goto-reference support for "@,
        Feature::Hover => "no LSP with hover support for "@,
        Feature::CodeActions => "no LSP with code-action support for "@,
        Feature::InlayHints => "no LSP with inlay-hints support for "@,
        Feature::Completion => "no LSP with completion support for "@,
        Feature::SignatureHelp => "no LSP with signature-help support for "@,
    }
}

pub open spec fn unsupported(feature: Feature) -> Seq<char> {
    match feature {
        Feature::Rename => "LSP does not support rename"@,
        Feature::DocumentSymbols => "LSP does not support document symbols"@,
        Feature::WorkspaceSymbols => "LSP does not support workspace symbols"@,
        Feature::References => "LSP does not support goto-reference"@,
        Feature::Hover => "LSP does not support hover"@,
        Feature::CodeActions => "LSP does not support code actions"@,
        Feature::InlayHints => "LSP does not support inlay hints"@,
        Feature::Completion => "LSP does not support completion"@,
        Feature::SignatureHelp => "LSP does not support signature help"@,
    }
}

/// What an agent is told of a problem. A workspace has no path.
pub open spec fn problem_text(feature: Feature, problem: SetupProblem, path: Seq<char>) -> Seq<
    char,
> {
    match problem {
        SetupProblem::NoDocument => "document not found: "@ + path,
        SetupProblem::NoServer => if feature == Feature::WorkspaceSymbols {
            no_server(feature)
        } else {
            no_server(feature) + path
        },
        SetupProblem::Unsupported => unsupported(feature),
    }
}

pub fn problem_message(feature: Feature, problem: SetupProblem, path: &str) -> (text: String)
    ensures
        text@ == problem_text(feature, problem, path@),
{
    match problem {
        SetupProblem::NoDocument => {
            let mut text = "document not found: ".to_string();
            text.append(path);
            text
        },
        SetupProblem::NoServer => {
            let start = match feature {
                Feature::Rename => "no language server with rename support for ",
                Feature::DocumentSymbols => "no LSP with document-symbols support for ",
                Feature::WorkspaceSymbols => "no LSP with workspace-symbols support",
                Feature::References => "no LSP with goto-reference support for ",
                Feature::Hover => "no LSP with hover support for ",
                Feature::CodeActions => "no LSP with code-action support for ",
                Feature::InlayHints => "no LSP with inlay-hints support for ",
                Feature::Completion => "no LSP with completion support for ",
                Feature::SignatureHelp => "no LSP with signature-help support for ",
            };
            let mut text = start.to_string();
            if feature != Feature::WorkspaceSymbols {
                text.append(path);
            }
            text
        },
        SetupProblem::Unsupported => {
            let text = match feature {
                Feature::Rename => "LSP does not support rename",
                Feature::DocumentSymbols => "LSP does not support document symbols",
                Feature::WorkspaceSymbols => "LSP does not support workspace symbols",
                Feature::References => "LSP does not support goto-reference",
                Feature::Hover => "LSP does not support hover",
                Feature::CodeActions => "LSP does not support code actions",
                Feature::InlayHints => "LSP does not support inlay hints",
                Feature::Completion => "LSP does not support completion",
                Feature::SignatureHelp => "LSP does not support signature help",
            };
            text.to_string()
        },
    }
}

/// Where no server can be asked, an agent that wants hints gets none, instead of
/// an error.
pub fn is_optional(feature: Feature) -> (b: bool)
    ensures
        b == (feature == Feature::Hover || feature == Feature::CodeActions || feature
            == Feature::InlayHints || feature == Feature::Completion || feature
            == Feature::SignatureHelp),
{
    match feature {
        Feature::Hover | Feature::CodeActions | Feature::InlayHints | Feature::Completion
        | Feature::SignatureHelp => true,
        _ => false,
    }
}

pub open spec fn failure_start(feature: Feature) -> Seq<char> {
    match feature {
        Feature::Rename => "LSP rename error: "@,
        Feature::DocumentSymbols => "LSP document_symbols error: "@,
        Feature::WorkspaceSymbols => "LSP workspace_symbols error: "@,
        Feature::References => "LSP references error: "@,
        Feature::Hover => "LSP hover error: "@,
        Feature::CodeActions => "LSP code actions error: "@,
        Feature::InlayHints => "LSP inlay hints error: "@,
        Feature::Completion => "LSP completion error: "@,
        Feature::SignatureHelp => "LSP signature_help error: "@,
    }
}

/// What an agent is told where a server failed.
pub fn failure_message(feature: Feature, error: &str) -> (text: String)
    ensures
        text@ == failure_start(feature) + error@,
{
    let start = match feature {
        Feature::Rename => "LSP rename error: ",
        Feature::DocumentSymbols => "LSP document_symbols error: ",
        Feature::WorkspaceSymbols => "LSP workspace_symbols error: ",
        Feature::References => "LSP references error: ",
        Feature::Hover => "LSP hover error: ",
        Feature::CodeActions => "LSP code actions error: ",
        Feature::InlayHints => "LSP inlay hints error: ",
        Feature::Completion => "LSP completion error: ",
        Feature::SignatureHelp => "LSP signature_help error: ",
    };
    let mut text = start.to_string();
    text.append(error);
    text
}

/// What an agent is told where a file could not be opened.
pub fn open_failure(path: &str, error: &str) -> (text: String)
    ensures
        text@ == "could not open "@ + path@ + ": "@ + error@,
{
    let mut text = "could not open ".to_string();
    text.append(path);
    text.append(": ");
    text.append(error);
    text
}

// ── Renaming ─────────────────────────────────────────────────────────────────

/// The sum of the first `n` counts.
pub open spec fn total(counts: Seq<usize>, n: int) -> nat
    decreases n,
{
    if n <= 0 {
        0
    } else {
        total(counts, n - 1) + counts[n - 1] as nat
    }
}

fn sum(counts: &Vec<usize>) -> (n: usize)
    requires
        total(counts@, counts@.len() as int) <= usize::MAX,
    ensures
        n == total(counts@, counts@.len() as int),
{
    let mut n: usize = 0;
    let mut i: usize = 0;
    while i < counts.len()
        invariant
            i <= counts.len(),
            n == total(counts@, i as int),
            total(counts@, counts@.len() as int) <= usize::MAX,
        decreases counts.len() - i,
    {
        proof {
            lemma_total_monotone(counts@, i + 1, counts@.len() as int);
        }
        n += counts[i];
        i += 1;
    }
    n
}

proof fn lemma_total_monotone(counts: Seq<usize>, i: int, n: int)
    requires
        0 <= i <= n <= counts.len(),
    ensures
        total(counts, i) <= total(counts, n),
    decreases n,
{
    if i < n {
        lemma_total_monotone(counts, i, n - 1);
    }
}

/// Changes to documents, each with its edits, or operations one by one.
#[derive(Debug)]
pub enum DocumentChanges {
    /// How many edits each document gets.
    Edits(Vec<usize>),
    /// How many operations there are.
    Operations(usize),
}

/// How many edits a rename makes.
pub open spec fn edits_made(changes: Option<Seq<usize>>, documents: Option<DocumentChanges>) -> nat {
    (match changes {
        Some(counts) => total(counts, counts.len() as int),
        None => 0,
    }) + (match documents {
        Some(DocumentChanges::Edits(counts)) => total(counts@, counts@.len() as int),
        Some(DocumentChanges::Operations(n)) => n as nat,
        None => 0,
    })
}

/// How many edits a rename makes: those per file, and those to documents.
pub fn count_changes(changes: Option<&Vec<usize>>, documents: Option<&DocumentChanges>) -> (n:
    usize)
    requires
        edits_made(
            match changes {
                Some(counts) => Some(counts@),
                None => None,
            },
            match documents {
                Some(changes) => Some(*changes),
                None => None,
            },
        ) <= usize::MAX,
    ensures
        n == edits_made(
            match changes {
                Some(counts) => Some(counts@),
                None => None,
            },
            match documents {
                Some(changes) => Some(*changes),
                None => None,
            },
        ),
{
    let in_files: usize = match changes {
        Some(counts) => sum(counts),
        None => 0,
    };
    let in_documents: usize = match documents {
        Some(DocumentChanges::Edits(counts)) => sum(counts),
        Some(DocumentChanges::Operations(n)) => *n,
        None => 0,
    };
    in_files + in_documents
}

/// What the user is asked before a rename.
pub fn rename_question(new_name: &str, count: usize) -> (text: String)
    ensures
        text@ == "rename_symbol \u{2192} '"@ + new_name@ + "' \u{2014} "@ + decimal(count as nat)
            + " edit(s)"@,
{
    let mut text = "rename_symbol \u{2192} '".to_string();
    text.append(new_name);
    text.append("' \u{2014} ");
    text.append(decimal_of(count as u64).as_str());
    text.append(" edit(s)");
    text
}

// ── Diagnostics ──────────────────────────────────────────────────────────────

#[derive(Clone, Copy, Debug, PartialEq, Eq, Structural)]
pub enum Severity {
    Hint,
    Info,
    Warning,
    Error,
}

#[derive(Debug)]
pub enum NumberOrString {
    Number(i32),
    Text(String),
}

#[derive(Debug)]
pub struct Diagnostic {
    pub line: usize,
    /// The first character that it is about.
    pub start: usize,
    pub severity: Option<Severity>,
    pub message: String,
    pub source: Option<String>,
    pub code: Option<NumberOrString>,
}

/// A diagnostic as an agent gets it.
#[derive(Debug)]
pub struct DiagnosticItem {
    pub path: String,
    pub line: usize,
    pub col: usize,
    pub severity: &'static str,
    pub message: String,
    pub source: Option<String>,
    pub code: Option<String>,
}

pub open spec fn severity_name(severity: Option<Severity>) -> Seq<char> {
    match severity {
        Some(Severity::Error) => "error"@,
        Some(Severity::Warning) => "warning"@,
        Some(Severity::Info) => "info"@,
        _ => "hint"@,
    }
}

/// A number in decimal digits, with its sign.
pub open spec fn signed_decimal(n: int) -> Seq<char> {
    if n < 0 {
        "-"@ + decimal((-n) as nat)
    } else {
        decimal(n as nat)
    }
}

pub open spec fn code_text(code: NumberOrString) -> Seq<char> {
    match code {
        NumberOrString::Number(n) => signed_decimal(n as int),
        NumberOrString::Text(text) => text@,
    }
}

pub open spec fn is_item_of(item: DiagnosticItem, path: Seq<char>, d: Diagnostic) -> bool {
    &&& item.path@ == path
    &&& item.line == d.line
    &&& item.col == d.start
    &&& item.severity@ == severity_name(d.severity)
    &&& item.message == d.message
    &&& item.source == d.source
    &&& match item.code {
        Some(text) => d.code matches Some(code) && text@ == code_text(code),
        None => d.code is None,
    }
}

fn diag_to_item(path: &str, d: &Diagnostic) -> (item: DiagnosticItem)
    ensures
        is_item_of(item, path@, *d),
{
    let severity = match d.severity {
        Some(Severity::Error) => "error",
        Some(Severity::Warning) => "warning",
        Some(Severity::Info) => "info",
        _ => "hint",
    };
    let code = match &d.code {
        Some(NumberOrString::Number(n)) => {
            let wide: i64 = *n as i64;
            if wide < 0 {
                let mut text = "-".to_string();
                text.append(decimal_of((0 - wide) as u64).as_str());
                Some(text)
            } else {
                Some(decimal_of(wide as u64))
            }
        },
        Some(NumberOrString::Text(text)) => Some(text.clone()),
        None => None,
    };
    DiagnosticItem {
        path: path.to_string(),
        line: d.line,
        col: d.start,
        severity,
        message: d.message.clone(),
        source: copy_text(&d.source),
        code,
    }
}

fn copy_text(s: &Option<String>) -> (out: Option<String>)
    ensures
        out == *s,
{
    match s {
        Some(text) => Some(text.clone()),
        None => None,
    }
}

/// The diagnostics of one document, added to `items`.
fn add_items(items: &mut Vec<DiagnosticItem>, path: &str, all: &Vec<Diagnostic>)
    ensures
        final(items)@.len() == old(items)@.len() + all@.len(),
        forall|i: int| 0 <= i < old(items)@.len() ==> final(items)@[i] == old(items)@[i],
        forall|i: int|
            0 <= i < all@.len() ==> is_item_of(
                final(items)@[old(items)@.len() + i],
                path@,
                #[trigger] all@[i],
            ),
{
    let ghost before = items@;
    let mut i: usize = 0;
    while i < all.len()
        invariant
            i <= all.len(),
            items@.len() == before.len() + i,
            forall|k: int| 0 <= k < before.len() ==> items@[k] == before[k],
            forall|k: int|
                0 <= k < i ==> is_item_of(items@[before.len() + k], path@, #[trigger] all@[k]),
        decreases all.len() - i,
    {
        items.push(diag_to_item(path, &all[i]));
        i += 1;
    }
}

/// The diagnostics of a document.
pub fn document_diagnostics(path: &str, all: &Vec<Diagnostic>) -> (items: Vec<DiagnosticItem>)
    ensures
        items@.len() == all@.len(),
        forall|i: int| 0 <= i < all@.len() ==> is_item_of(items@[i], path@, #[trigger] all@[i]),
{
    let mut items: Vec<DiagnosticItem> = Vec::new();
    add_items(&mut items, path, all);
    items
}

/// A document with its diagnostics.
#[derive(Debug)]
pub struct DocumentDiagnostics {
    pub path: Option<String>,
    pub diagnostics: Vec<Diagnostic>,
}

/// How many diagnostics the first `n` documents have.
pub open spec fn items_before(docs: Seq<DocumentDiagnostics>, n: int) -> nat
    decreases n,
{
    if n <= 0 {
        0
    } else {
        items_before(docs, n - 1) + docs[n - 1].diagnostics@.len()
    }
}

/// The path that a document goes by; one without a file goes by none.
pub open spec fn shown_path(doc: DocumentDiagnostics) -> Seq<char> {
    match doc.path {
        Some(path) => path@,
        None => Seq::empty(),
    }
}

/// The diagnostics of all documents, one document after the other.
pub fn all_diagnostics(docs: &Vec<DocumentDiagnostics>) -> (items: Vec<DiagnosticItem>)
    ensures
        items@.len() == items_before(docs@, docs@.len() as int),
        forall|d: int, i: int|
            0 <= d < docs@.len() && 0 <= i < docs@[d].diagnostics@.len() ==> is_item_of(
                items@[items_before(docs@, d) + i],
                shown_path(docs@[d]),
                #[trigger] docs@[d].diagnostics@[i],
            ),
{
    let mut items: Vec<DiagnosticItem> = Vec::new();
    let mut k: usize = 0;
    while k < docs.len()
        invariant
            k <= docs.len(),
            items@.len() == items_before(docs@, k as int),
            forall|d: int, i: int|
                0 <= d < k && 0 <= i < docs@[d].diagnostics@.len() ==> is_item_of(
                    items@[items_before(docs@, d) + i],
                    shown_path(docs@[d]),
                    #[trigger] docs@[d].diagnostics@[i],
                ),
        decreases docs.len() - k,
    {
        let doc = &docs[k];
        let none = String::new();
        assert(none@ =~= Seq::empty());
        let path = match &doc.path {
            Some(path) => path.as_str(),
            None => none.as_str(),
        };
        let ghost before = items@;
        add_items(&mut items, path, &doc.diagnostics);
        proof {
            assert forall|d: int, i: int|
                0 <= d < k + 1 && 0 <= i < docs@[d].diagnostics@.len() implies is_item_of(
                items@[items_before(docs@, d) + i],
                shown_path(docs@[d]),
                #[trigger] docs@[d].diagnostics@[i],
            ) by {
                if d < k {
                    lemma_items_before_monotone(docs@, d + 1, k as int);
                    assert(items@[items_before(docs@, d) + i] == before[items_before(docs@, d)
                        + i]);
                }
            }
        }
        k += 1;
    }
    items
}

proof fn lemma_items_before_monotone(docs: Seq<DocumentDiagnostics>, i: int, n: int)
    requires
        0 <= i <= n <= docs.len(),
    ensures
        items_before(docs, i) <= items_before(docs, n),
    decreases n,
{
    if i < n {
        lemma_items_before_monotone(docs, i, n - 1);
    }
}

// ── Hover ────────────────────────────────────────────────────────────────────

#[derive(Debug)]
pub enum MarkedString {
    Text(String),
    Code { language: String, value: String },
}

pub open spec fn marked_value(marked: MarkedString) -> Seq<char> {
    match marked {
        MarkedString::Text(text) => text@,
        MarkedString::Code { language, value } => value@,
    }
}

fn marked_string_value(marked: &MarkedString) -> (text: String)
    ensures
        text@ == marked_value(*marked),
{
    match marked {
        MarkedString::Text(text) => text.clone(),
        MarkedString::Code { language, value } => value.clone(),
    }
}

#[derive(Debug)]
pub enum HoverContents {
    Markup(String),
    Scalar(MarkedString),
    Array(Vec<MarkedString>),
}

/// What a server says of a place, as text: several parts on lines of their own.
pub open spec fn hover_value(contents: HoverContents) -> Seq<char> {
    match contents {
        HoverContents::Markup(text) => text@,
        HoverContents::Scalar(marked) => marked_value(marked),
        HoverContents::Array(all) => join(
            Seq::new(all@.len(), |i: int| marked_value(all@[i])),
            "\n"@,
        ),
    }
}

pub fn hover_text(contents: &HoverContents) -> (text: String)
    ensures
        text@ == hover_value(*contents),
{
    match contents {
        HoverContents::Markup(text) => text.clone(),
        HoverContents::Scalar(marked) => marked_string_value(marked),
        HoverContents::Array(all) => {
            let mut parts: Vec<String> = Vec::new();
            let mut i: usize = 0;
            while i < all.len()
                invariant
                    i <= all.len(),
                    parts@.len() == i,
                    forall|k: int| 0 <= k < i ==> (#[trigger] parts@[k])@ == marked_value(all@[k]),
                decreases all.len() - i,
            {
                parts.push(marked_string_value(&all[i]));
                i += 1;
            }
            assert(views(parts@) =~= Seq::new(all@.len(), |i: int| marked_value(all@[i])));
            join_strings(&parts, "\n")
        },
    }
}

// ── Code actions ─────────────────────────────────────────────────────────────

#[derive(Debug)]
pub enum CodeActionOrCommand {
    CodeAction { title: String, kind: Option<String> },
    Command { title: String },
}

#[derive(Debug)]
pub struct CodeActionItem {
    pub title: String,
    pub kind: Option<String>,
}

/// A command has no kind.
pub open spec fn action_item(action: CodeActionOrCommand) -> CodeActionItem {
    match action {
        CodeActionOrCommand::CodeAction { title, kind } => CodeActionItem { title, kind },
        CodeActionOrCommand::Command { title } => CodeActionItem { title, kind: None },
    }
}

pub fn code_action_items(actions: &Vec<CodeActionOrCommand>) -> (items: Vec<CodeActionItem>)
    ensures
        items@ == Seq::new(actions@.len(), |i: int| action_item(actions@[i])),
{
    let mut items: Vec<CodeActionItem> = Vec::new();
    let mut i: usize = 0;
    while i < actions.len()
        invariant
            i <= actions.len(),
            items@.len() == i,
            forall|k: int| 0 <= k < i ==> items@[k] == action_item(actions@[k]),
        decreases actions.len() - i,
    {
        let item = match &actions[i] {
            CodeActionOrCommand::CodeAction { title, kind } => CodeActionItem {
                title: title.clone(),
                kind: copy_text(kind),
            },
            CodeActionOrCommand::Command { title } => CodeActionItem {
                title: title.clone(),
                kind: None,
            },
        };
        items.push(item);
        i += 1;
    }
    assert(items@ =~= Seq::new(actions@.len(), |i: int| action_item(actions@[i])));
    items
}

// ── Inlay hints ──────────────────────────────────────────────────────────────

#[derive(Clone, Copy, Debug, PartialEq, Eq, Structural)]
pub enum InlayHintKind {
    Type,
    Parameter,
    Other,
}

#[derive(Debug)]
pub enum InlayHintLabel {
    Text(String),
    Parts(Vec<String>),
}

/// A hint at a place in a document; it has none where the server gave a position
/// that is not in the text.
#[derive(Debug)]
pub struct InlayHint {
    pub index: Option<usize>,
    pub label: InlayHintLabel,
    pub kind: Option<InlayHintKind>,
}

#[derive(Debug)]
pub struct InlayHintItem {
    pub line: usize,
    pub col: usize,
    pub label: String,
    pub kind: &'static str,
}

pub open spec fn hint_label(label: InlayHintLabel) -> Seq<char> {
    match label {
        InlayHintLabel::Text(text) => text@,
        InlayHintLabel::Parts(parts) => join(views(parts@), ""@),
    }
}

pub open spec fn hint_kind_name(kind: Option<InlayHintKind>) -> Seq<char> {
    match kind {
        Some(InlayHintKind::Type) => "type"@,
        Some(InlayHintKind::Parameter) => "parameter"@,
        _ => "other"@,
    }
}

pub open spec fn is_hint_item(item: InlayHintItem, text: Seq<char>, hint: InlayHint) -> bool {
    &&& hint.index is Some
    &&& item.line == crate::mcp::positions::line_of(text, hint.index->0 as int)
    &&& item.col == crate::mcp::positions::column_of(text, hint.index->0 as int)
    &&& item.label@ == hint_label(hint.label)
    &&& item.kind@ == hint_kind_name(hint.kind)
}

/// How many of the first `n` hints have a place.
pub open spec fn placed_hints(hints: Seq<InlayHint>, n: int) -> nat
    decreases n,
{
    if n <= 0 {
        0
    } else {
        placed_hints(hints, n - 1) + if hints[n - 1].index is Some {
            1nat
        } else {
            0
        }
    }
}

proof fn lemma_placed_hints_monotone(hints: Seq<InlayHint>, i: int, n: int)
    requires
        0 <= i <= n <= hints.len(),
    ensures
        placed_hints(hints, i) <= placed_hints(hints, n),
        i < n && hints[i].index is Some ==> placed_hints(hints, i) < placed_hints(hints, n),
    decreases n,
{
    if i < n {
        lemma_placed_hints_monotone(hints, i, n - 1);
    }
}

/// The hints that have a place in the text, in order.
pub fn inlay_hint_items(text: &str, hints: &Vec<InlayHint>) -> (items: Vec<InlayHintItem>)
    requires
        forall|i: int|
            0 <= i < hints@.len() && (#[trigger] hints@[i]).index is Some ==> hints@[i].index->0
                <= text@.len(),
    ensures
        items@.len() == placed_hints(hints@, hints@.len() as int),
        forall|i: int|
            0 <= i < hints@.len() && (#[trigger] hints@[i]).index is Some ==> is_hint_item(
                items@[placed_hints(hints@, i) as int],
                text@,
                hints@[i],
            ),
{
    let mut items: Vec<InlayHintItem> = Vec::new();
    let mut i: usize = 0;
    while i < hints.len()
        invariant
            i <= hints.len(),
            items@.len() == placed_hints(hints@, i as int),
            forall|k: int|
                0 <= k < hints@.len() && (#[trigger] hints@[k]).index is Some
                    ==> hints@[k].index->0 <= text@.len(),
            forall|k: int|
                0 <= k < i && (#[trigger] hints@[k]).index is Some ==> is_hint_item(
                    items@[placed_hints(hints@, k) as int],
                    text@,
                    hints@[k],
                ),
        decreases hints.len() - i,
    {
        let hint = &hints[i];
        let ghost before = items@;
        if let Some(index) = hint.index {
            let (line, col) = crate::mcp::positions::line_and_column(text, index);
            let label = match &hint.label {
                InlayHintLabel::Text(text) => text.clone(),
                InlayHintLabel::Parts(parts) => join_strings(parts, ""),
            };
            let kind = match hint.kind {
                Some(InlayHintKind::Type) => "type",
                Some(InlayHintKind::Parameter) => "parameter",
                _ => "other",
            };
            items.push(InlayHintItem { line, col, label, kind });
        }
        proof {
            assert forall|k: int|
                0 <= k < i + 1 && (#[trigger] hints@[k]).index is Some implies is_hint_item(
                items@[placed_hints(hints@, k) as int],
                text@,
                hints@[k],
            ) by {
                if k < i {
                    lemma_placed_hints_monotone(hints@, k, i as int);
                    assert(items@[placed_hints(hints@, k) as int] == before[placed_hints(
                        hints@,
                        k,
                    ) as int]);
                }
            }
        }
        i += 1;
    }
    items
}

// ── Completion ───────────────────────────────────────────────────────────────

#[derive(Clone, Copy, Debug, PartialEq, Eq, Structural)]
pub enum CompletionKind {
    Text,
    Method,
    Function,
    Constructor,
    Field,
    Variable,
    Class,
    Interface,
    Module,
    Property,
    Unit,
    Value,
    Enum,
    Keyword,
    Snippet,
    Color,
    File,
    Reference,
    Folder,
    EnumMember,
    Constant,
    Struct,
    Event,
    Operator,
    TypeParameter,
    Unknown,
}

pub open spec fn completion_kind_name(kind: CompletionKind) -> Seq<char> {
    match kind {
        CompletionKind::Text => "text"@,
        CompletionKind::Method => "method"@,
        CompletionKind::Function => "function"@,
        CompletionKind::Constructor => "constructor"@,
        CompletionKind::Field => "field"@,
        CompletionKind::Variable => "variable"@,
        CompletionKind::Class => "class"@,
        CompletionKind::Interface => "interface"@,
        CompletionKind::Module => "module"@,
        CompletionKind::Property => "property"@,
        CompletionKind::Unit => "unit"@,
        CompletionKind::Value => "value"@,
        CompletionKind::Enum => "enum"@,
        CompletionKind::Keyword => "keyword"@,
        CompletionKind::Snippet => "snippet"@,
        CompletionKind::Color => "color"@,
        CompletionKind::File => "file"@,
        CompletionKind::Reference => "reference"@,
        CompletionKind::Folder => "folder"@,
        CompletionKind::EnumMember => "enum_member"@,
        CompletionKind::Constant => "constant"@,
        CompletionKind::Struct => "struct"@,
        CompletionKind::Event => "event"@,
        CompletionKind::Operator => "operator"@,
        CompletionKind::TypeParameter => "type_parameter"@,
        CompletionKind::Unknown => "unknown"@,
    }
}

impl CompletionKind {
    pub fn name(self) -> (name: &'static str)
        ensures
            name@ == completion_kind_name(self),
    {
        match self {
            CompletionKind::Text => "text",
            CompletionKind::Method => "method",
            CompletionKind::Function => "function",
            CompletionKind::Constructor => "constructor",
            CompletionKind::Field => "field",
            CompletionKind::Variable => "variable",
            CompletionKind::Class => "class",
            CompletionKind::Interface => "interface",
            CompletionKind::Module => "module",
            CompletionKind::Property => "property",
            CompletionKind::Unit => "unit",
            CompletionKind::Value => "value",
            CompletionKind::Enum => "enum",
            CompletionKind::Keyword => "keyword",
            CompletionKind::Snippet => "snippet",
            CompletionKind::Color => "color",
            CompletionKind::File => "file",
            CompletionKind::Reference => "reference",
            CompletionKind::Folder => "folder",
            CompletionKind::EnumMember => "enum_member",
            CompletionKind::Constant => "constant",
            CompletionKind::Struct => "struct",
            CompletionKind::Event => "event",
            CompletionKind::Operator => "operator",
            CompletionKind::TypeParameter => "type_parameter",
            CompletionKind::Unknown => "unknown",
        }
    }
}

/// A completion as a server gives it.
#[derive(Debug)]
pub struct Completion {
    pub label: String,
    pub kind: Option<CompletionKind>,
    pub detail: Option<String>,
    /// The text of the edit that it makes, if it makes one.
    pub edit_text: Option<String>,
    pub insert_text: Option<String>,
}

/// A completion as an agent gets it.
#[derive(Debug)]
pub struct McpCompletionItem {
    pub label: String,
    pub kind: Option<CompletionKind>,
    pub detail: Option<String>,
    pub insert_text: Option<String>,
}

/// The text of the edit goes before the text to insert.
pub open spec fn completion_item(item: Completion) -> McpCompletionItem {
    McpCompletionItem {
        label: item.label,
        kind: item.kind,
        detail: item.detail,
        insert_text: match item.edit_text {
            Some(text) => Some(text),
            None => item.insert_text,
        },
    }
}

pub fn completion_items(all: &Vec<Completion>) -> (items: Vec<McpCompletionItem>)
    ensures
        items@ == Seq::new(all@.len(), |i: int| completion_item(all@[i])),
{
    let mut items: Vec<McpCompletionItem> = Vec::new();
    let mut i: usize = 0;
    while i < all.len()
        invariant
            i <= all.len(),
            items@.len() == i,
            forall|k: int| 0 <= k < i ==> items@[k] == completion_item(all@[k]),
        decreases all.len() - i,
    {
        let item = &all[i];
        let insert_text = match &item.edit_text {
            Some(text) => Some(text.clone()),
            None => copy_text(&item.insert_text),
        };
        items.push(
            McpCompletionItem {
                label: item.label.clone(),
                kind: item.kind,
                detail: copy_text(&item.detail),
                insert_text,
            },
        );
        i += 1;
    }
    assert(items@ =~= Seq::new(all@.len(), |i: int| completion_item(all@[i])));
    items
}

// ── Signatures ───────────────────────────────────────────────────────────────

#[derive(Debug)]
pub enum ParameterLabel {
    Simple(String),
    /// From where to where it stands in the label of the signature.
    Offsets(u32, u32),
}

pub open spec fn parameter_text(label: ParameterLabel) -> Seq<char> {
    match label {
        ParameterLabel::Simple(text) => text@,
        ParameterLabel::Offsets(start, end) => "["@ + decimal(start as nat) + ","@ + decimal(
            end as nat,
        ) + "]"@,
    }
}

pub fn parameter_label(label: &ParameterLabel) -> (text: String)
    ensures
        text@ == parameter_text(*label),
{
    match label {
        ParameterLabel::Simple(text) => text.clone(),
        ParameterLabel::Offsets(start, end) => {
            let mut text = "[".to_string();
            text.append(decimal_of(*start as u64).as_str());
            text.append(",");
            text.append(decimal_of(*end as u64).as_str());
            text.append("]");
            text
        },
    }
}

#[derive(Debug)]
pub struct Parameter {
    pub label: ParameterLabel,
    pub documentation: Option<String>,
}

#[derive(Debug)]
pub struct ParameterInfo {
    pub label: String,
    pub documentation: Option<String>,
}

#[derive(Debug)]
pub struct Signature {
    pub label: String,
    pub documentation: Option<String>,
    pub parameters: Vec<Parameter>,
}

#[derive(Debug)]
pub struct SignatureInfo {
    pub label: String,
    pub documentation: Option<String>,
    pub parameters: Vec<ParameterInfo>,
}

pub open spec fn is_info_of(info: SignatureInfo, sig: Signature) -> bool {
    &&& info.label == sig.label
    &&& info.documentation == sig.documentation
    &&& info.parameters@.len() == sig.parameters@.len()
    &&& forall|i: int|
        0 <= i < sig.parameters@.len() ==> (#[trigger] info.parameters@[i]).label@
            == parameter_text(sig.parameters@[i].label) && info.parameters@[i].documentation
            == sig.parameters@[i].documentation
}

fn signature_info(sig: &Signature) -> (info: SignatureInfo)
    ensures
        is_info_of(info, *sig),
{
    let mut parameters: Vec<ParameterInfo> = Vec::new();
    let mut i: usize = 0;
    while i < sig.parameters.len()
        invariant
            i <= sig.parameters.len(),
            parameters@.len() == i,
            forall|k: int|
                0 <= k < i ==> (#[trigger] parameters@[k]).label@ == parameter_text(
                    sig.parameters@[k].label,
                ) && parameters@[k].documentation == sig.parameters@[k].documentation,
        decreases sig.parameters.len() - i,
    {
        let p = &sig.parameters[i];
        parameters.push(
            ParameterInfo {
                label: parameter_label(&p.label),
                documentation: copy_text(&p.documentation),
            },
        );
        i += 1;
    }
    SignatureInfo {
        label: sig.label.clone(),
        documentation: copy_text(&sig.documentation),
        parameters,
    }
}

pub fn signature_infos(sigs: &Vec<Signature>) -> (infos: Vec<SignatureInfo>)
    ensures
        infos@.len() == sigs@.len(),
        forall|i: int| 0 <= i < sigs@.len() ==> is_info_of(#[trigger] infos@[i], sigs@[i]),
{
    let mut infos: Vec<SignatureInfo> = Vec::new();
    let mut i: usize = 0;
    while i < sigs.len()
        invariant
            i <= sigs.len(),
            infos@.len() == i,
            forall|k: int| 0 <= k < i ==> is_info_of(#[trigger] infos@[k], sigs@[k]),
        decreases sigs.len() - i,
    {
        infos.push(signature_info(&sigs[i]));
        i += 1;
    }
    infos
}

/// As many hints are told as have a place in the text.
pub proof fn law_hints_told_are_those_with_a_place(hints: Seq<InlayHint>, n: int)
    requires
        0 <= n <= hints.len(),
    ensures
        placed_hints(hints, n) == hints.take(n).filter(|x: InlayHint| x.index is Some).len(),
    decreases n,
{
    reveal(Seq::filter);
    if n > 0 {
        law_hints_told_are_those_with_a_place(hints, n - 1);
        assert(hints.take(n).drop_last() =~= hints.take(n - 1));
    }
}

/// As many diagnostics come before those of a document as the documents before it have.
pub proof fn law_diagnostics_of_every_document_are_counted(docs: Seq<DocumentDiagnostics>, n: int)
    requires
        0 <= n <= docs.len(),
    ensures
        items_before(docs, n) == docs.take(n).map_values(|x: DocumentDiagnostics| x.diagnostics@).flatten_alt().len(),
    decreases n,
{
    if n > 0 {
        law_diagnostics_of_every_document_are_counted(docs, n - 1);
        let all = docs.take(n).map_values(|x: DocumentDiagnostics| x.diagnostics@);
        assert(all.drop_last() =~= docs.take(n - 1).map_values(|x: DocumentDiagnostics| x.diagnostics@));
    }
}

/// A rename makes as many edits as are listed for each file, and those listed otherwise.
pub proof fn law_edits_of_all_files_are_counted(counts: Seq<usize>, more: Seq<usize>, n: usize)
    ensures
        total(counts + more, (counts + more).len() as int) == total(counts, counts.len() as int)
            + total(more, more.len() as int),
        total(seq![n], 1) == n,
        edits_made(Some(counts), None) == total(counts, counts.len() as int),
        edits_made(None, Some(DocumentChanges::Operations(n))) == n,
        edits_made(Some(counts), Some(DocumentChanges::Operations(n))) == total(
            counts,
            counts.len() as int,
        ) + n,
        edits_made(None, None) == 0,
    decreases more.len(),
{
    reveal_with_fuel(total, 2);
    if more.len() > 0 {
        let d = more.drop_last();
        law_edits_of_all_files_are_counted(counts, d, n);
        lemma_total_prefix(counts + more, counts + d, (counts + d).len() as int);
        lemma_total_prefix(more, d, d.len() as int);
    } else {
        assert(counts + more =~= counts);
    }
}

proof fn lemma_total_prefix(a: Seq<usize>, b: Seq<usize>, n: int)
    requires
        n <= a.len(),
        n <= b.len(),
        forall|i: int| 0 <= i < n ==> a[i] == b[i],
    ensures
        total(a, n) == total(b, n),
    decreases n,
{
    if n > 0 {
        lemma_total_prefix(a, b, n - 1);
    }
}

/// A text of several parts has each of them on lines of its own, without its markup.
pub proof fn law_hover_shows_all_parts(all: Vec<MarkedString>, text: String)
    ensures
        hover_value(HoverContents::Markup(text)) == text@,
        hover_value(HoverContents::Scalar(MarkedString::Text(text))) == text@,
        hover_value(HoverContents::Array(all)) == join(
            all@.map_values(
                |part: MarkedString|
                    match part {
                        MarkedString::Text(text) => text@,
                        MarkedString::Code { language, value } => value@,
                    },
            ),
            "\n"@,
        ),
{
    let parts = all@.map_values(
        |part: MarkedString|
            match part {
                MarkedString::Text(text) => text@,
                MarkedString::Code { language, value } => value@,
            },
    );
    assert(Seq::new(all@.len(), |i: int| marked_value(all@[i])) =~= parts);
}

/// A number is shown in digits, a negative one behind a minus sign.
pub proof fn law_signed_number_is_shown(n: nat)
    ensures
        signed_decimal(n as int) == decimal(n),
        n > 0 ==> signed_decimal(-(n as int)) == "-"@ + decimal(n),
{
}

/// What is completed is put in as the edit says, and else as the item itself says.
pub proof fn law_edit_goes_before_the_text_to_insert(item: Completion)
    ensures
        item.edit_text is Some ==> completion_item(item).insert_text == item.edit_text,
        item.edit_text is None ==> completion_item(item).insert_text == item.insert_text,
        completion_item(item).label == item.label && completion_item(item).detail == item.detail
            && completion_item(item).kind == item.kind,
{
}

proof fn lemma_joined_by_nothing(parts: Seq<Seq<char>>)
    ensures
        join(parts, Seq::empty()) == parts.flatten_alt(),
    decreases parts.len(),
{
    if parts.len() == 1 {
        assert(parts.drop_last() =~= Seq::<Seq<char>>::empty());
        assert(parts.drop_last().flatten_alt() =~= Seq::<char>::empty());
        assert(parts.flatten_alt() =~= parts[0]);
    } else if parts.len() > 1 {
        lemma_joined_by_nothing(parts.drop_last());
        assert(join(parts, Seq::empty()) =~= parts.flatten_alt());
    }
}

/// A hint that is made of parts shows them all, one directly behind the other, at the place
/// that the server gives.
pub proof fn law_hint_shows_all_its_parts(
    item: InlayHintItem,
    text: Seq<char>,
    hint: InlayHint,
    parts: Vec<String>,
)
    ensures
        hint_label(InlayHintLabel::Parts(parts)) == views(parts@).flatten_alt(),
        is_hint_item(item, text, hint) ==> hint.index is Some && item.line
            == crate::mcp::positions::line_of(text, hint.index->0 as int) && item.col
            == crate::mcp::positions::column_of(text, hint.index->0 as int) && item.label@
            == hint_label(hint.label),
        is_hint_item(item, text, hint) && hint.kind == Some(InlayHintKind::Type) ==> item.kind@
            == "type"@,
        is_hint_item(item, text, hint) && hint.kind == Some(InlayHintKind::Parameter) ==> item.kind@
            == "parameter"@,
        is_hint_item(item, text, hint) && hint.kind is None ==> item.kind@ == "other"@,
{
    reveal_strlit("");
    assert(""@ =~= Seq::<char>::empty());
    lemma_joined_by_nothing(views(parts@));
}

/// What is told of a diagnostic is its file, its place, its text and how severe it is; one
/// of no known severity counts as a hint.
pub proof fn law_diagnostic_is_told_as_it_is(item: DiagnosticItem, path: Seq<char>, d: Diagnostic)
    requires
        is_item_of(item, path, d),
    ensures
        item.path@ == path && item.line == d.line && item.col == d.start && item.message
            == d.message && item.source == d.source,
        d.severity == Some(Severity::Error) ==> item.severity@ == "error"@,
        d.severity == Some(Severity::Warning) ==> item.severity@ == "warning"@,
        d.severity == Some(Severity::Info) ==> item.severity@ == "info"@,
        d.severity is None || d.severity == Some(Severity::Hint) ==> item.severity@ == "hint"@,
        d.code is Some <==> item.code is Some,
        (d.code matches Some(NumberOrString::Text(text)) && item.code->0@ == text@) || !(d.code
            matches Some(NumberOrString::Text(_))),
        (d.code matches Some(NumberOrString::Number(n)) && item.code->0@ == signed_decimal(n as int))
            || !(d.code matches Some(NumberOrString::Number(_))),
{
}

/// A parameter that is given by its place in the label is told by the two ends of it.
pub proof fn law_parameter_is_told_by_its_label(text: String, start: u32, end: u32)
    ensures
        parameter_text(ParameterLabel::Simple(text)) == text@,
        parameter_text(ParameterLabel::Offsets(start, end)) == "["@ + decimal(start as nat) + ","@
            + decimal(end as nat) + "]"@,
{
}

/// A problem is told with the file that it is about; a workspace has none.
pub proof fn law_problem_names_its_file(feature: Feature, path: Seq<char>)
    ensures
        problem_text(feature, SetupProblem::NoDocument, path) == "document not found: "@ + path,
        feature != Feature::WorkspaceSymbols ==> problem_text(feature, SetupProblem::NoServer, path)
            == no_server(feature) + path,
        problem_text(Feature::WorkspaceSymbols, SetupProblem::NoServer, path)
            == "no LSP with workspace-symbols support"@,
        problem_text(feature, SetupProblem::Unsupported, path) == unsupported(feature),
{
}

/// An action is told by its title and its kind, and a command by its title alone.
pub proof fn law_actions_are_told_by_title(title: String, kind: Option<String>)
    ensures
        action_item(CodeActionOrCommand::CodeAction { title, kind }).title == title,
        action_item(CodeActionOrCommand::CodeAction { title, kind }).kind == kind,
        action_item(CodeActionOrCommand::Command { title }).title == title,
        action_item(CodeActionOrCommand::Command { title }).kind is None,
{
}

/// A signature is told with all its parameters, in their order.
pub proof fn law_signature_is_told_with_its_parameters(info: SignatureInfo, sig: Signature, i: int)
    requires
        is_info_of(info, sig),
    ensures
        info.label == sig.label && info.documentation == sig.documentation,
        info.parameters@.len() == sig.parameters@.len(),
        0 <= i < sig.parameters@.len() ==> info.parameters@[i].label@ == parameter_text(
            sig.parameters@[i].label,
        ) && info.parameters@[i].documentation == sig.parameters@[i].documentation,
{
}

} // verus!
