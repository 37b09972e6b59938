//! Queries that language servers answer, from how the query went to the reply.

use vstd::prelude::*;

use crate::mcp::lsp::{
    action_item, code_action_items, completion_item, completion_items, failure_message,
    failure_start, hover_text, hover_value, inlay_hint_items, is_hint_item, is_info_of, is_optional,
    open_failure, placed_hints, problem_message, problem_text, signature_infos, CodeActionItem,
    CodeActionOrCommand, Completion, Feature, HoverContents, InlayHint, InlayHintItem,
    McpCompletionItem, SetupProblem, Signature, SignatureInfo,
};
use crate::mcp::symbols::{
    filter_by_path, is_match_of, not_found, range_ok, range_text, read_symbol, ref_locations,
    refs_of, refs_view, resolved, scan_gives, scan_symbol, shows, symbol_match, symbols_overview,
    within, FoundLocation, RefLocation, SymbolInfo, SymbolMatch, SymbolResponse, WorkspaceSymbol,
};

verus! {

/// How a query went.
#[derive(Debug)]
pub enum QueryOutcome<T> {
    /// The file could not be opened.
    NotOpened(String),
    /// No server could be asked.
    Problem(SetupProblem),
    /// The server failed.
    Failed(String),
    /// The server had no answer.
    Nothing,
    Answer(T),
}

pub open spec fn optional(feature: Feature) -> bool {
    feature == Feature::Hover || feature == Feature::CodeActions || feature == Feature::InlayHints
        || feature == Feature::Completion || feature == Feature::SignatureHelp
}

/// The error that a query ends with, if any. That no server can be asked is no error
/// for what is merely a help.
pub open spec fn refusal<T>(feature: Feature, path: Seq<char>, outcome: QueryOutcome<T>) -> Option<
    Seq<char>,
> {
    match outcome {
        QueryOutcome::NotOpened(e) => Some("could not open "@ + path + ": "@ + e@),
        QueryOutcome::Problem(problem) => if optional(feature) {
            None
        } else {
            Some(problem_text(feature, problem, path))
        },
        QueryOutcome::Failed(e) => Some(failure_start(feature) + e@),
        QueryOutcome::Nothing => None,
        QueryOutcome::Answer(_) => None,
    }
}

/// The error that a query ends with, if any.
pub fn query_error<T>(feature: Feature, path: &str, outcome: &QueryOutcome<T>) -> (error: Option<
    String,
>)
    ensures
        match refusal(feature, path@, *outcome) {
            Some(text) => error matches Some(error) && error@ == text,
            None => error is None,
        },
{
    match outcome {
        QueryOutcome::NotOpened(e) => Some(open_failure(path, e.as_str())),
        QueryOutcome::Problem(problem) => {
            if is_optional(feature) {
                None
            } else {
                Some(problem_message(feature, *problem, path))
            }
        },
        QueryOutcome::Failed(e) => Some(failure_message(feature, e.as_str())),
        QueryOutcome::Nothing => None,
        QueryOutcome::Answer(_) => None,
    }
}

// ── Symbols ──────────────────────────────────────────────────────────────────

/// The symbols of a file and where they are known from; none where the server has no
/// answer.
pub fn overview_reply(path: &str, outcome: &QueryOutcome<SymbolResponse>, depth: u8) -> (reply:
    Result<(Vec<SymbolInfo>, &'static str), String>)
    ensures
        match refusal(Feature::DocumentSymbols, path@, *outcome) {
            Some(text) => reply matches Err(e) && e@ == text,
            None => reply matches Ok(found) && found.1@ == "lsp"@ && match *outcome {
                QueryOutcome::Answer(response) => shows(found.0@, response, depth as nat),
                _ => found.0@.len() == 0,
            },
        },
{
    if let Some(error) = query_error(Feature::DocumentSymbols, path, outcome) {
        return Err(error);
    }
    match outcome {
        QueryOutcome::Answer(response) => Ok((symbols_overview(response, depth), "lsp")),
        _ => Ok((Vec::new(), "lsp")),
    }
}

/// What a file holds: its open buffer where there is one, else what is on disk, else
/// nothing.
pub open spec fn content_of(open_text: Option<&str>, disk_text: Option<&str>) -> Seq<char> {
    match open_text {
        Some(text) => text@,
        None => match disk_text {
            Some(text) => text@,
            None => Seq::empty(),
        },
    }
}

/// What comes of a request to read a symbol. Where no server can be asked, the open
/// buffer is scanned for it.
pub open spec fn reads_symbol(
    reply: Result<SymbolMatch, String>,
    path: Seq<char>,
    name_path: Seq<char>,
    outcome: QueryOutcome<SymbolResponse>,
    open_text: Option<&str>,
    disk_text: Option<&str>,
) -> bool {
    match outcome {
        QueryOutcome::Problem(_) => match open_text {
            Some(text) => scan_gives(reply, text@, name_path, path),
            None => reply matches Err(e) && e@ == "could not read "@ + path,
        },
        QueryOutcome::Nothing => reply matches Err(e) && e@ == "no symbols found in file"@,
        QueryOutcome::Answer(response) => match resolved(response, name_path) {
            Some(sym) => reply matches Ok(found) && is_match_of(
                found,
                sym,
                path,
                content_of(open_text, disk_text),
            ),
            None => reply matches Err(e) && e@ == not_found(name_path, path),
        },
        _ => reply matches Err(e) && refusal(Feature::DocumentSymbols, path, outcome) == Some(e@),
    }
}

pub fn read_symbol_reply(
    path: &str,
    name_path: &str,
    outcome: &QueryOutcome<SymbolResponse>,
    open_text: Option<&str>,
    disk_text: Option<&str>,
) -> (reply: Result<SymbolMatch, String>)
    requires
        *outcome matches QueryOutcome::Answer(response) ==> (resolved(response, name_path@) matches
            Some(sym) ==> range_ok(content_of(open_text, disk_text), sym.range)),
    ensures
        reads_symbol(reply, path@, name_path@, *outcome, open_text, disk_text),
{
    match outcome {
        QueryOutcome::Problem(_) => match open_text {
            Some(text) => scan_symbol(text, name_path, path),
            None => {
                let mut message = "could not read ".to_string();
                message.append(path);
                Err(message)
            },
        },
        QueryOutcome::Nothing => Err("no symbols found in file".to_string()),
        QueryOutcome::Answer(response) => match open_text {
            Some(text) => read_symbol(response, name_path, path, text),
            None => match disk_text {
                Some(text) => read_symbol(response, name_path, path, text),
                None => {
                    let none = String::new();
                    assert(none@ =~= Seq::empty());
                    read_symbol(response, name_path, path, none.as_str())
                },
            },
        },
        QueryOutcome::NotOpened(e) => Err(open_failure(path, e.as_str())),
        QueryOutcome::Failed(e) => Err(failure_message(Feature::DocumentSymbols, e.as_str())),
    }
}

/// The symbols among the first `n` that stand in files.
pub open spec fn in_files(found: Seq<Option<WorkspaceSymbol>>, n: int) -> Seq<WorkspaceSymbol>
    decreases n,
{
    if n <= 0 {
        Seq::empty()
    } else {
        match found[n - 1] {
            Some(sym) => in_files(found, n - 1).push(sym),
            None => in_files(found, n - 1),
        }
    }
}

proof fn lemma_in_files_prefix(
    a: Seq<Option<WorkspaceSymbol>>,
    b: Seq<Option<WorkspaceSymbol>>,
    n: int,
)
    requires
        n <= a.len() <= b.len(),
        forall|i: int| 0 <= i < a.len() ==> a[i] == b[i],
    ensures
        in_files(a, n) == in_files(b, n),
    decreases n,
{
    if n > 0 {
        lemma_in_files_prefix(a, b, n - 1);
    }
}

fn symbols_in_files(found: Vec<Option<WorkspaceSymbol>>) -> (syms: Vec<WorkspaceSymbol>)
    ensures
        syms@ == in_files(found@, found@.len() as int),
    decreases found@.len(),
{
    let ghost all = found@;
    let mut rest = found;
    match rest.pop() {
        None => Vec::new(),
        Some(last) => {
            assert(rest@ =~= all.drop_last());
            proof {
                lemma_in_files_prefix(rest@, all, rest@.len() as int);
            }
            let mut syms = symbols_in_files(rest);
            if let Some(sym) = last {
                syms.push(sym);
            }
            syms
        },
    }
}

/// The symbols of the workspace that a server has found, within a directory where one
/// is given. A symbol whose address is not one of a file is left out.
pub fn workspace_symbols_reply(
    outcome: QueryOutcome<Vec<Option<WorkspaceSymbol>>>,
    directory: Option<&Vec<String>>,
) -> (reply: Result<Vec<WorkspaceSymbol>, String>)
    ensures
        match refusal(Feature::WorkspaceSymbols, Seq::empty(), outcome) {
            Some(text) => reply matches Err(e) && e@ == text,
            None => reply matches Ok(syms) && match outcome {
                QueryOutcome::Answer(found) => syms@ == within(
                    in_files(found@, found@.len() as int),
                    match directory {
                        Some(directory) => Some(directory@),
                        None => None,
                    },
                ),
                _ => syms@.len() == 0,
            },
        },
{
    let none = String::new();
    assert(none@ =~= Seq::empty());
    if let Some(error) = query_error(Feature::WorkspaceSymbols, none.as_str(), &outcome) {
        return Err(error);
    }
    match outcome {
        QueryOutcome::Answer(found) => Ok(filter_by_path(symbols_in_files(found), directory)),
        _ => Ok(Vec::new()),
    }
}

/// Symbols of the workspace as an agent gets them, with the texts of their files where
/// the bodies are asked for.
pub fn symbol_matches(syms: &Vec<WorkspaceSymbol>, texts: Option<&Vec<String>>) -> (found: Vec<
    SymbolMatch,
>)
    requires
        texts matches Some(texts) ==> texts@.len() == syms@.len() && forall|i: int|
            0 <= i < syms@.len() ==> range_ok(texts@[i]@, (#[trigger] syms@[i]).range),
    ensures
        found@.len() == syms@.len(),
        forall|i: int|
            0 <= i < syms@.len() ==> {
                &&& (#[trigger] found@[i]).name == syms@[i].name
                &&& found@[i].kind == syms@[i].kind
                &&& found@[i].path == syms@[i].path
                &&& found@[i].range == syms@[i].range
                &&& match found@[i].body {
                    Some(body) => texts is Some && body@ == range_text(
                        texts->0@[i]@,
                        syms@[i].range,
                    ),
                    None => texts is None,
                }
            },
{
    let mut found: Vec<SymbolMatch> = Vec::new();
    let mut i: usize = 0;
    while i < syms.len()
        invariant
            i <= syms.len(),
            texts matches Some(texts) ==> texts@.len() == syms@.len() && forall|k: int|
                0 <= k < syms@.len() ==> range_ok(texts@[k]@, (#[trigger] syms@[k]).range),
            found@.len() == i,
            forall|k: int|
                0 <= k < i ==> {
                    &&& (#[trigger] found@[k]).name == syms@[k].name
                    &&& found@[k].kind == syms@[k].kind
                    &&& found@[k].path == syms@[k].path
                    &&& found@[k].range == syms@[k].range
                    &&& match found@[k].body {
                        Some(body) => texts is Some && body@ == range_text(
                            texts->0@[k]@,
                            syms@[k].range,
                        ),
                        None => texts is None,
                    }
                },
        decreases syms.len() - i,
    {
        let text: Option<&str> = match texts {
            Some(texts) => Some(texts[i].as_str()),
            None => None,
        };
        found.push(symbol_match(&syms[i], text));
        i += 1;
    }
    found
}

/// The places where a symbol is used; none where the server has no answer.
pub fn find_refs_reply(path: &str, outcome: &QueryOutcome<Vec<FoundLocation>>) -> (reply: Result<
    Vec<RefLocation>,
    String,
>)
    ensures
        match refusal(Feature::References, path@, *outcome) {
            Some(text) => reply matches Err(e) && e@ == text,
            None => reply matches Ok(refs) && match *outcome {
                QueryOutcome::Answer(found) => refs_view(refs@) == refs_of(
                    found@,
                    found@.len() as int,
                ),
                _ => refs@.len() == 0,
            },
        },
{
    if let Some(error) = query_error(Feature::References, path, outcome) {
        return Err(error);
    }
    match outcome {
        QueryOutcome::Answer(found) => Ok(ref_locations(found)),
        _ => Ok(Vec::new()),
    }
}

// ── Help ─────────────────────────────────────────────────────────────────────

/// What a server says of a place; nothing where none can be asked or has an answer.
pub fn hover_reply(path: &str, outcome: &QueryOutcome<HoverContents>) -> (reply: Result<
    Option<String>,
    String,
>)
    ensures
        match refusal(Feature::Hover, path@, *outcome) {
            Some(text) => reply matches Err(e) && e@ == text,
            None => reply matches Ok(shown) && match *outcome {
                QueryOutcome::Answer(contents) => shown matches Some(text) && text@ == hover_value(
                    contents,
                ),
                _ => shown is None,
            },
        },
{
    if let Some(error) = query_error(Feature::Hover, path, outcome) {
        return Err(error);
    }
    match outcome {
        QueryOutcome::Answer(contents) => Ok(Some(hover_text(contents))),
        _ => Ok(None),
    }
}

/// The code actions at a place.
pub fn code_actions_reply(path: &str, outcome: &QueryOutcome<Vec<CodeActionOrCommand>>) -> (reply:
    Result<Vec<CodeActionItem>, String>)
    ensures
        match refusal(Feature::CodeActions, path@, *outcome) {
            Some(text) => reply matches Err(e) && e@ == text,
            None => reply matches Ok(items) && match *outcome {
                QueryOutcome::Answer(actions) => items@ == Seq::new(
                    actions@.len(),
                    |i: int| action_item(actions@[i]),
                ),
                _ => items@.len() == 0,
            },
        },
{
    if let Some(error) = query_error(Feature::CodeActions, path, outcome) {
        return Err(error);
    }
    match outcome {
        QueryOutcome::Answer(actions) => Ok(code_action_items(actions)),
        _ => Ok(Vec::new()),
    }
}

/// The hints of a file, in the text of its open buffer; none where it is not open any
/// more.
pub fn inlay_hints_reply(
    path: &str,
    outcome: &QueryOutcome<Vec<InlayHint>>,
    open_text: Option<&str>,
) -> (reply: Result<Vec<InlayHintItem>, String>)
    requires
        *outcome matches QueryOutcome::Answer(hints) ==> (open_text matches Some(text)
            ==> forall|i: int|
            0 <= i < hints@.len() && (#[trigger] hints@[i]).index is Some ==> hints@[i].index->0
                <= text@.len()),
    ensures
        match refusal(Feature::InlayHints, path@, *outcome) {
            Some(text) => reply matches Err(e) && e@ == text,
            None => reply matches Ok(items) && match (*outcome, open_text) {
                (QueryOutcome::Answer(hints), Some(text)) => {
                    &&& items@.len() == placed_hints(hints@, hints@.len() as int)
                    &&& forall|i: int|
                        0 <= i < hints@.len() && (#[trigger] hints@[i]).index is Some
                            ==> is_hint_item(
                            items@[placed_hints(hints@, i) as int],
                            text@,
                            hints@[i],
                        )
                },
                _ => items@.len() == 0,
            },
        },
{
    if let Some(error) = query_error(Feature::InlayHints, path, outcome) {
        return Err(error);
    }
    match outcome {
        QueryOutcome::Answer(hints) => match open_text {
            Some(text) => Ok(inlay_hint_items(text, hints)),
            None => Ok(Vec::new()),
        },
        _ => Ok(Vec::new()),
    }
}

/// The completions at a place.
pub fn completions_reply(path: &str, outcome: &QueryOutcome<Vec<Completion>>) -> (reply: Result<
    Vec<McpCompletionItem>,
    String,
>)
    ensures
        match refusal(Feature::Completion, path@, *outcome) {
            Some(text) => reply matches Err(e) && e@ == text,
            None => reply matches Ok(items) && match *outcome {
                QueryOutcome::Answer(all) => items@ == Seq::new(
                    all@.len(),
                    |i: int| completion_item(all@[i]),
                ),
                _ => items@.len() == 0,
            },
        },
{
    if let Some(error) = query_error(Feature::Completion, path, outcome) {
        return Err(error);
    }
    match outcome {
        QueryOutcome::Answer(all) => Ok(completion_items(all)),
        _ => Ok(Vec::new()),
    }
}

/// The signatures of a call as a server gives them.
#[derive(Debug)]
pub struct SignatureHelp {
    pub signatures: Vec<Signature>,
    pub active_signature: Option<u32>,
    pub active_parameter: Option<u32>,
}

/// The signatures of a call as an agent gets them.
#[derive(Debug)]
pub struct SignatureHelpInfo {
    pub signatures: Vec<SignatureInfo>,
    pub active_signature: Option<u32>,
    pub active_parameter: Option<u32>,
}

/// The signatures of the call at a place.
pub fn signature_help_reply(path: &str, outcome: &QueryOutcome<SignatureHelp>) -> (reply: Result<
    Option<SignatureHelpInfo>,
    String,
>)
    ensures
        match refusal(Feature::SignatureHelp, path@, *outcome) {
            Some(text) => reply matches Err(e) && e@ == text,
            None => reply matches Ok(shown) && match *outcome {
                QueryOutcome::Answer(help) => shown matches Some(info) && {
                    &&& info.signatures@.len() == help.signatures@.len()
                    &&& forall|i: int|
                        0 <= i < help.signatures@.len() ==> is_info_of(
                            #[trigger] info.signatures@[i],
                            help.signatures@[i],
                        )
                    &&& info.active_signature == help.active_signature
                    &&& info.active_parameter == help.active_parameter
                },
                _ => shown is None,
            },
        },
{
    if let Some(error) = query_error(Feature::SignatureHelp, path, outcome) {
        return Err(error);
    }
    match outcome {
        QueryOutcome::Answer(help) => Ok(
            Some(
                SignatureHelpInfo {
                    signatures: signature_infos(&help.signatures),
                    active_signature: help.active_signature,
                    active_parameter: help.active_parameter,
                },
            ),
        ),
        _ => Ok(None),
    }
}

/// That there is no server is an error where an agent needs the answer, and none where
/// the answer is merely a help.
pub proof fn law_missing_server_is_an_error_where_needed<T>(
    feature: Feature,
    path: Seq<char>,
    problem: SetupProblem,
)
    ensures
        refusal(feature, path, QueryOutcome::<T>::Problem(problem)) is Some <==> !optional(feature),
        refusal(feature, path, QueryOutcome::<T>::Nothing) is None,
{
}

/// Symbols that stand in no file are left out, and all others stay in their order.
pub proof fn law_symbols_in_files_are_told(found: Seq<Option<WorkspaceSymbol>>, n: int)
    requires
        0 <= n <= found.len(),
    ensures
        in_files(found, n) == found.take(n).filter(
            |x: Option<WorkspaceSymbol>| x is Some,
        ).map_values(|x: Option<WorkspaceSymbol>| x->0),
    decreases n,
{
    reveal(Seq::filter);
    if n > 0 {
        law_symbols_in_files_are_told(found, n - 1);
        assert(found.take(n).drop_last() =~= found.take(n - 1));
        let before = found.take(n - 1).filter(|x: Option<WorkspaceSymbol>| x is Some);
        let all = found.take(n).filter(|x: Option<WorkspaceSymbol>| x is Some);
        if found[n - 1] is Some {
            assert(all =~= before.push(found[n - 1]));
            assert(in_files(found, n) =~= all.map_values(|x: Option<WorkspaceSymbol>| x->0));
        }
    }
}

/// Help that no server can give is not missed: a hover, the actions, the hints, completions
/// and signatures. All else is, and the agent is told what failed.
pub proof fn law_failure_is_told<T>(feature: Feature, path: Seq<char>, e: String)
    ensures
        optional(feature) <==> feature == Feature::Hover || feature == Feature::CodeActions
            || feature == Feature::InlayHints || feature == Feature::Completion || feature
            == Feature::SignatureHelp,
        refusal(feature, path, QueryOutcome::<T>::NotOpened(e)) == Some(
            "could not open "@ + path + ": "@ + e@,
        ),
        refusal(feature, path, QueryOutcome::<T>::Failed(e)) == Some(failure_start(feature) + e@),
        forall|answer: T| (#[trigger] refusal(feature, path, QueryOutcome::Answer(answer))) is None,
{
}

/// What is read of a file is its open buffer, and what is on disk only where there is none.
/// Where no server can be asked the buffer is scanned; a symbol that the server does not
/// know is not found, though the text may hold its name.
pub proof fn law_open_buffer_goes_before_the_disk(
    reply: Result<SymbolMatch, String>,
    path: Seq<char>,
    name_path: Seq<char>,
    outcome: QueryOutcome<SymbolResponse>,
    buffer: &str,
    disk: Option<&str>,
    text: &str,
)
    requires
        reads_symbol(reply, path, name_path, outcome, Some(buffer), disk),
    ensures
        content_of(Some(buffer), disk) == buffer@,
        content_of(None, Some(text)) == text@,
        content_of(None, None) == Seq::<char>::empty(),
        outcome is Problem ==> scan_gives(reply, buffer@, name_path, path),
        outcome is Nothing || outcome is Failed || outcome is NotOpened ==> reply is Err,
        outcome matches QueryOutcome::Answer(response) ==> (reply is Ok <==> resolved(
            response,
            name_path,
        ) is Some),
        outcome matches QueryOutcome::Answer(response) ==> (reply matches Ok(found) ==> found.name
            == resolved(response, name_path)->0.name && found.range == resolved(
            response,
            name_path,
        )->0.range && found.path@ == path && found.body is Some && found.body->0@ == range_text(
            buffer@,
            found.range,
        )),
{
}

} // verus!
