//! Symbols of a file: finding them by name, with a language server or without.

use vstd::prelude::*;

use crate::mcp::edit::{
    edited, law_edit_replaces_its_lines, law_range_holds_its_lines, lemma_line_begin_bound,
    lemma_text_from_line, lines_between, stands_at, EditView, TextEdit,
};
use crate::rope::{len_lines, line_begin, line_to_char, line_total, rope_of, rope_text, slice_text};
use crate::text::{
    chars_of, join, law_joining_goes_part_by_part, lines, same, split, split_on, substring, views,
};

verus! {

#[derive(Clone, Copy, Debug, PartialEq, Eq, Structural)]
pub enum SymbolKind {
    File,
    Module,
    Namespace,
    Package,
    Class,
    Method,
    Property,
    Field,
    Constructor,
    Enum,
    Interface,
    Function,
    Variable,
    Constant,
    Text,
    Number,
    Boolean,
    Array,
    Object,
    Key,
    Null,
    EnumMember,
    Struct,
    Event,
    Operator,
    TypeParameter,
    Unknown,
}

pub open spec fn kind_name(kind: SymbolKind) -> Seq<char> {
    match kind {
        SymbolKind::File => "file"@,
        SymbolKind::Module => "module"@,
        SymbolKind::Namespace => "namespace"@,
        SymbolKind::Package => "package"@,
        SymbolKind::Class => "class"@,
        SymbolKind::Method => "method"@,
        SymbolKind::Property => "property"@,
        SymbolKind::Field => "field"@,
        SymbolKind::Constructor => "constructor"@,
        SymbolKind::Enum => "enum"@,
        SymbolKind::Interface => "interface"@,
        SymbolKind::Function => "function"@,
        SymbolKind::Variable => "variable"@,
        SymbolKind::Constant => "constant"@,
        SymbolKind::Text => "string"@,
        SymbolKind::Number => "number"@,
        SymbolKind::Boolean => "boolean"@,
        SymbolKind::Array => "array"@,
        SymbolKind::Object => "object"@,
        SymbolKind::Key => "key"@,
        SymbolKind::Null => "null"@,
        SymbolKind::EnumMember => "enum_member"@,
        SymbolKind::Struct => "struct"@,
        SymbolKind::Event => "event"@,
        SymbolKind::Operator => "operator"@,
        SymbolKind::TypeParameter => "type_parameter"@,
        SymbolKind::Unknown => "unknown"@,
    }
}

impl SymbolKind {
    pub fn name(self) -> (name: &'static str)
        ensures
            name@ == kind_name(self),
    {
        match self {
            SymbolKind::File => "file",
            SymbolKind::Module => "module",
            SymbolKind::Namespace => "namespace",
            SymbolKind::Package => "package",
            SymbolKind::Class => "class",
            SymbolKind::Method => "method",
            SymbolKind::Property => "property",
            SymbolKind::Field => "field",
            SymbolKind::Constructor => "constructor",
            SymbolKind::Enum => "enum",
            SymbolKind::Interface => "interface",
            SymbolKind::Function => "function",
            SymbolKind::Variable => "variable",
            SymbolKind::Constant => "constant",
            SymbolKind::Text => "string",
            SymbolKind::Number => "number",
            SymbolKind::Boolean => "boolean",
            SymbolKind::Array => "array",
            SymbolKind::Object => "object",
            SymbolKind::Key => "key",
            SymbolKind::Null => "null",
            SymbolKind::EnumMember => "enum_member",
            SymbolKind::Struct => "struct",
            SymbolKind::Event => "event",
            SymbolKind::Operator => "operator",
            SymbolKind::TypeParameter => "type_parameter",
            SymbolKind::Unknown => "unknown",
        }
    }
}

/// Lines from the first to the last, both counted from zero and both meant.
#[derive(Clone, Copy, Debug, PartialEq, Eq, Structural)]
pub struct LineRange {
    pub start_line: usize,
    pub end_line: usize,
}

/// A symbol with those that are declared in it.
#[derive(Debug)]
pub struct Symbol {
    pub name: String,
    pub kind: SymbolKind,
    pub range: LineRange,
    pub children: Vec<Symbol>,
}

/// The symbols of a file as a language server gives them.
#[derive(Debug)]
pub enum SymbolResponse {
    Nested(Vec<Symbol>),
    /// Without what is declared in what.
    Flat(Vec<Symbol>),
}

// ── Names with a parent ──────────────────────────────────────────────────────

/// The first place of a slash, or the length of the text.
pub open spec fn first_slash(s: Seq<char>, k: int) -> int
    decreases s.len() - k,
{
    if k >= s.len() || s[k] == '/' {
        k
    } else {
        first_slash(s, k + 1)
    }
}

/// The symbol that a name path starts with: what stands before the first slash.
pub open spec fn parent_of(path: Seq<char>) -> Seq<char> {
    path.take(first_slash(path, 0))
}

/// The symbol in it that is meant: what stands behind the first slash.
pub open spec fn child_of(path: Seq<char>) -> Option<Seq<char>> {
    let k = first_slash(path, 0);
    if k < path.len() {
        Some(path.skip(k + 1))
    } else {
        None
    }
}

/// The name of the symbol that is meant.
pub open spec fn target_of(path: Seq<char>) -> Seq<char> {
    match child_of(path) {
        Some(child) => child,
        None => parent_of(path),
    }
}

/// The parent and the child that a name path names.
pub fn split_name_path(path: &str) -> (names: (String, Option<String>))
    ensures
        names.0@ == parent_of(path@),
        match names.1 {
            Some(child) => child_of(path@) == Some(child@),
            None => child_of(path@) is None,
        },
{
    let v = chars_of(path);
    let mut k: usize = 0;
    while k < v.len() && v[k] != '/'
        invariant
            k <= v.len(),
            first_slash(v@, k as int) == first_slash(v@, 0),
        decreases v.len() - k,
    {
        k += 1;
    }
    let parent = substring(&v, 0, k);
    assert(parent@ =~= parent_of(path@));
    if k < v.len() {
        let child = substring(&v, k + 1, v.len());
        assert(child@ =~= path@.skip(k + 1));
        (parent, Some(child))
    } else {
        (parent, None)
    }
}

// ── Symbols of a language server ─────────────────────────────────────────────

/// The first of `syms` from `i` on with a name.
pub open spec fn first_named(syms: Seq<Symbol>, i: int, name: Seq<char>) -> Option<int>
    decreases syms.len() - i,
{
    if i >= syms.len() {
        None
    } else if syms[i].name@ == name {
        Some(i)
    } else {
        first_named(syms, i + 1, name)
    }
}

/// What of a symbol is looked for: itself, or the first child with a name.
pub open spec fn pick(sym: Symbol, child: Option<Seq<char>>) -> Option<Symbol> {
    match child {
        None => Some(sym),
        Some(name) => match first_named(sym.children@, 0, name) {
            Some(i) => Some(sym.children@[i]),
            None => None,
        },
    }
}

/// The symbol that is meant by a parent's name and a child's, looked for from
/// symbol `i` on, each before its children and these before the next one. The
/// first symbol with the parent's name decides.
pub open spec fn find_symbol(
    syms: Seq<Symbol>,
    i: int,
    parent: Seq<char>,
    child: Option<Seq<char>>,
) -> Option<Symbol>
    decreases syms, syms.len() - i,
{
    if i < 0 || i >= syms.len() {
        None
    } else if syms[i].name@ == parent {
        pick(syms[i], child)
    } else {
        match find_symbol(syms[i].children@, 0, parent, child) {
            Some(sym) => Some(sym),
            None => find_symbol(syms, i + 1, parent, child),
        }
    }
}

fn find_named<'a>(syms: &'a Vec<Symbol>, name: &str) -> (found: Option<&'a Symbol>)
    ensures
        match found {
            Some(sym) => first_named(syms@, 0, name@) matches Some(i) && 0 <= i < syms@.len()
                && syms@[i] == *sym,
            None => first_named(syms@, 0, name@) is None,
        },
{
    let mut i: usize = 0;
    while i < syms.len()
        invariant
            i <= syms.len(),
            first_named(syms@, i as int, name@) == first_named(syms@, 0, name@),
        decreases syms.len() - i,
    {
        if same(syms[i].name.as_str(), name) {
            return Some(&syms[i]);
        }
        i += 1;
    }
    None
}

fn find_nested<'a>(syms: &'a Vec<Symbol>, parent: &str, child: Option<&str>) -> (found: Option<
    &'a Symbol,
>)
    ensures
        match found {
            Some(sym) => find_symbol(syms@, 0, parent@, opt_view(child)) == Some(*sym),
            None => find_symbol(syms@, 0, parent@, opt_view(child)) is None,
        },
    decreases syms,
{
    let mut i: usize = 0;
    while i < syms.len()
        invariant
            i <= syms.len(),
            find_symbol(syms@, i as int, parent@, opt_view(child)) == find_symbol(
                syms@,
                0,
                parent@,
                opt_view(child),
            ),
        decreases syms.len() - i,
    {
        let sym = &syms[i];
        if same(sym.name.as_str(), parent) {
            return match child {
                Some(name) => find_named(&sym.children, name),
                None => Some(sym),
            };
        }
        let found = find_nested(&sym.children, parent, child);
        if found.is_some() {
            return found;
        }
        i += 1;
    }
    None
}

pub open spec fn opt_view(s: Option<&str>) -> Option<Seq<char>> {
    match s {
        Some(s) => Some(s@),
        None => None,
    }
}

/// The symbol that a name path means. Where it is not known what is declared in
/// what, the name of the child alone counts.
pub open spec fn resolved(response: SymbolResponse, path: Seq<char>) -> Option<Symbol> {
    match response {
        SymbolResponse::Nested(syms) => find_symbol(syms@, 0, parent_of(path), child_of(path)),
        SymbolResponse::Flat(syms) => match first_named(syms@, 0, target_of(path)) {
            Some(i) => Some(syms@[i]),
            None => None,
        },
    }
}

/// The symbol that a name path means.
pub fn resolve<'a>(response: &'a SymbolResponse, name_path: &str) -> (found: Option<&'a Symbol>)
    ensures
        match found {
            Some(sym) => resolved(*response, name_path@) == Some(*sym),
            None => resolved(*response, name_path@) is None,
        },
{
    let (parent, child) = split_name_path(name_path);
    let child_name: Option<&str> = match &child {
        Some(name) => Some(name.as_str()),
        None => None,
    };
    match response {
        SymbolResponse::Nested(syms) => find_nested(syms, parent.as_str(), child_name),
        SymbolResponse::Flat(syms) => {
            let target = match child_name {
                Some(name) => name,
                None => parent.as_str(),
            };
            find_named(syms, target)
        },
    }
}

pub open spec fn not_found(name_path: Seq<char>, path: Seq<char>) -> Seq<char> {
    "symbol '"@ + name_path + "' not found in "@ + path
}

/// The error for a name path that names no symbol.
pub fn not_found_message(name_path: &str, path: &str) -> (text: String)
    ensures
        text@ == not_found(name_path@, path@),
{
    let mut text = "symbol '".to_string();
    text.append(name_path);
    text.append("' not found in ");
    text.append(path);
    text
}

/// The edit that replaces a symbol's lines by a new body.
pub fn replace_symbol(
    response: &SymbolResponse,
    name_path: &str,
    path: &str,
    body: String,
) -> (result: Result<TextEdit, String>)
    requires
        resolved(*response, name_path@) matches Some(sym) ==> sym.range.start_line < usize::MAX
            && sym.range.end_line < usize::MAX - 1,
    ensures
        match result {
            Ok(edit) => resolved(*response, name_path@) matches Some(sym) && {
                &&& edit.start_line == sym.range.start_line + 1
                &&& edit.end_line == sym.range.end_line + 2
                &&& edit.new_text == body
            },
            Err(e) => resolved(*response, name_path@) is None && e@ == not_found(
                name_path@,
                path@,
            ),
        },
{
    match resolve(response, name_path) {
        Some(sym) => Ok(
            // From lines counted from zero to lines counted from one, and from
            // the last line to the one behind it.
            TextEdit {
                start_line: sym.range.start_line + 1,
                end_line: sym.range.end_line + 2,
                new_text: body,
            },
        ),
        None => Err(not_found_message(name_path, path)),
    }
}

/// A symbol with its text, as an agent gets it.
#[derive(Debug)]
pub struct SymbolMatch {
    pub name: String,
    pub kind: SymbolKind,
    pub path: String,
    pub range: LineRange,
    pub body: Option<String>,
}

/// The lines of a range.
pub open spec fn range_text(text: Seq<char>, range: LineRange) -> Seq<char> {
    text.subrange(
        line_begin(text, range.start_line as int),
        line_begin(text, range.end_line + 1),
    )
}

/// In a text the lines of a range do not end before they begin. Lines past its end lie
/// where it ends.
pub open spec fn range_ok(text: Seq<char>, range: LineRange) -> bool {
    &&& range.end_line < usize::MAX
    &&& line_begin(text, range.start_line as int) <= line_begin(text, range.end_line + 1)
}

/// A range that does not end before it starts is in order in every text.
pub proof fn law_ordered_range_is_ok(text: Seq<char>, range: LineRange)
    requires
        range.start_line <= range.end_line + 1 <= usize::MAX,
    ensures
        range_ok(text, range),
{
    lemma_line_begin_bound(text, range.start_line as int, range.end_line + 1);
}

/// `found` is a symbol of a file with its text.
pub open spec fn is_match_of(
    found: SymbolMatch,
    sym: Symbol,
    path: Seq<char>,
    text: Seq<char>,
) -> bool {
    &&& found.name == sym.name
    &&& found.kind == sym.kind
    &&& found.path@ == path
    &&& found.range == sym.range
    &&& found.body matches Some(body) && body@ == range_text(text, sym.range)
}

/// The symbol that a name path means, with its text.
pub fn read_symbol(response: &SymbolResponse, name_path: &str, path: &str, text: &str) -> (result:
    Result<SymbolMatch, String>)
    requires
        resolved(*response, name_path@) matches Some(sym) ==> range_ok(
            text@,
            sym.range,
        ),
    ensures
        match result {
            Ok(found) => resolved(*response, name_path@) matches Some(sym) && is_match_of(
                found,
                sym,
                path@,
                text@,
            ),
            Err(e) => resolved(*response, name_path@) is None && e@ == not_found(
                name_path@,
                path@,
            ),
        },
{
    match resolve(response, name_path) {
        Some(sym) => Ok(
            SymbolMatch {
                name: sym.name.clone(),
                kind: sym.kind,
                path: path.to_string(),
                range: sym.range,
                body: Some(lines_between(text, sym.range.start_line, sym.range.end_line)),
            },
        ),
        None => Err(not_found_message(name_path, path)),
    }
}

/// A symbol as an agent sees it in an overview.
#[derive(Debug)]
pub struct SymbolInfo {
    pub name: String,
    pub kind: SymbolKind,
    pub range: LineRange,
    pub children: Vec<SymbolInfo>,
}

/// `info` tells of `sym` and of what is declared in it, `depth` levels deep.
pub open spec fn mirrors(info: SymbolInfo, sym: Symbol, depth: nat) -> bool
    decreases depth,
{
    &&& info.name == sym.name
    &&& info.kind == sym.kind
    &&& info.range == sym.range
    &&& if depth == 0 {
        info.children@.len() == 0
    } else {
        &&& info.children@.len() == sym.children@.len()
        &&& forall|i: int|
            0 <= i < sym.children@.len() ==> mirrors(
                #[trigger] info.children@[i],
                sym.children@[i],
                (depth - 1) as nat,
            )
    }
}

fn nested_to_info(sym: &Symbol, depth_remaining: u8) -> (info: SymbolInfo)
    ensures
        mirrors(info, *sym, depth_remaining as nat),
    decreases depth_remaining,
{
    let mut children: Vec<SymbolInfo> = Vec::new();
    if depth_remaining > 0 {
        let mut i: usize = 0;
        while i < sym.children.len()
            invariant
                i <= sym.children.len(),
                depth_remaining > 0,
                children@.len() == i,
                forall|k: int|
                    0 <= k < i ==> mirrors(
                        #[trigger] children@[k],
                        sym.children@[k],
                        (depth_remaining - 1) as nat,
                    ),
            decreases sym.children.len() - i,
        {
            children.push(nested_to_info(&sym.children[i], depth_remaining - 1));
            i += 1;
        }
    }
    SymbolInfo { name: sym.name.clone(), kind: sym.kind, range: sym.range, children }
}

/// `infos` tell of the symbols of a file, `depth` levels deep below the outermost.
pub open spec fn shows(infos: Seq<SymbolInfo>, response: SymbolResponse, depth: nat) -> bool {
    match response {
        SymbolResponse::Nested(syms) => infos.len() == syms@.len() && forall|i: int|
            0 <= i < syms@.len() ==> mirrors(#[trigger] infos[i], syms@[i], depth),
        SymbolResponse::Flat(syms) => infos.len() == syms@.len() && forall|i: int|
            0 <= i < syms@.len() ==> mirrors(#[trigger] infos[i], syms@[i], 0),
    }
}

/// The symbols of a file, `depth` levels deep below the outermost.
pub fn symbols_overview(response: &SymbolResponse, depth: u8) -> (infos: Vec<SymbolInfo>)
    ensures
        shows(infos@, *response, depth as nat),
{
    let (syms, levels): (&Vec<Symbol>, u8) = match response {
        SymbolResponse::Nested(syms) => (syms, depth),
        SymbolResponse::Flat(syms) => (syms, 0),
    };
    let mut infos: Vec<SymbolInfo> = Vec::new();
    let mut i: usize = 0;
    while i < syms.len()
        invariant
            i <= syms.len(),
            infos@.len() == i,
            forall|k: int|
                0 <= k < i ==> mirrors(#[trigger] infos@[k], syms@[k], levels as nat),
        decreases syms.len() - i,
    {
        infos.push(nested_to_info(&syms[i], levels));
        i += 1;
    }
    infos
}

// ── Symbols of the workspace ─────────────────────────────────────────────────

/// A symbol somewhere in the workspace.
#[derive(Debug)]
pub struct WorkspaceSymbol {
    pub name: String,
    pub kind: SymbolKind,
    pub path: String,
    /// The components of the path.
    pub components: Vec<String>,
    pub range: LineRange,
}

/// A path lies in a directory, or is it: its components start with those.
pub open spec fn lies_in(components: Seq<String>, directory: Seq<String>) -> bool {
    &&& directory.len() <= components.len()
    &&& forall|i: int| 0 <= i < directory.len() ==> (#[trigger] components[i])@ == directory[i]@
}

pub fn is_within(components: &Vec<String>, directory: &Vec<String>) -> (b: bool)
    ensures
        b == lies_in(components@, directory@),
{
    if directory.len() > components.len() {
        return false;
    }
    let mut i: usize = 0;
    while i < directory.len()
        invariant
            i <= directory.len() <= components.len(),
            forall|k: int| 0 <= k < i ==> (#[trigger] components@[k])@ == directory@[k]@,
        decreases directory.len() - i,
    {
        if !same(components[i].as_str(), directory[i].as_str()) {
            assert(components@[i as int]@ != directory@[i as int]@);
            return false;
        }
        i += 1;
    }
    true
}

/// The symbols within a directory, or all of them where none is given.
pub open spec fn within(syms: Seq<WorkspaceSymbol>, directory: Option<Seq<String>>) -> Seq<
    WorkspaceSymbol,
> {
    match directory {
        Some(directory) => syms.filter(
            |sym: WorkspaceSymbol| lies_in(sym.components@, directory),
        ),
        None => syms,
    }
}

pub fn filter_by_path(syms: Vec<WorkspaceSymbol>, directory: Option<&Vec<String>>) -> (out: Vec<
    WorkspaceSymbol,
>)
    ensures
        out@ == within(
            syms@,
            match directory {
                Some(directory) => Some(directory@),
                None => None,
            },
        ),
    decreases syms@.len(),
{
    match directory {
        None => syms,
        Some(components) => {
            let mut rest = syms;
            let ghost all = syms@;
            proof {
                reveal(Seq::filter);
            }
            match rest.pop() {
                None => rest,
                Some(last) => {
                    assert(rest@ =~= all.drop_last());
                    assert(all.last() == last);
                    let keep = is_within(&last.components, components);
                    let mut out = filter_by_path(rest, Some(components));
                    if keep {
                        out.push(last);
                    }
                    out
                },
            }
        },
    }
}

/// A symbol of the workspace as an agent gets it, with the text of its file where
/// the body is asked for.
pub fn symbol_match(sym: &WorkspaceSymbol, text: Option<&str>) -> (found: SymbolMatch)
    requires
        text matches Some(text) ==> range_ok(text@, sym.range),
    ensures
        found.name == sym.name,
        found.kind == sym.kind,
        found.path == sym.path,
        found.range == sym.range,
        match found.body {
            Some(body) => text is Some && body@ == range_text(text->0@, sym.range),
            None => text is None,
        },
{
    let body = match text {
        Some(text) => Some(lines_between(text, sym.range.start_line, sym.range.end_line)),
        None => None,
    };
    SymbolMatch {
        name: sym.name.clone(),
        kind: sym.kind,
        path: sym.path.clone(),
        range: sym.range,
        body,
    }
}

/// The line of a text without its line feed, or nothing past the end.
pub open spec fn preview_of(text: Seq<char>, line: int) -> Seq<char> {
    if line < line_total(text) {
        split_on(text, '\n')[line]
    } else {
        Seq::empty()
    }
}

/// The line of a text without its line feed, or nothing past the end.
pub fn line_preview(text: &str, line: usize) -> (preview: String)
    ensures
        preview@ == preview_of(text@, line as int),
{
    let pieces = split(text, '\n');
    assert(views(pieces@).len() == pieces@.len());
    if line < pieces.len() {
        assert(views(pieces@)[line as int] == pieces@[line as int]@);
        pieces[line].clone()
    } else {
        let none = String::new();
        assert(none@ =~= Seq::empty());
        none
    }
}

/// A place that a language server has found; `path` is the file that its address
/// names, where it is one of a file, and `text` what stands in it.
#[derive(Debug)]
pub struct FoundLocation {
    pub path: Option<String>,
    pub line: usize,
    pub col: usize,
    pub text: String,
}

/// A place where a symbol is used, with the line that it is in.
#[derive(Debug)]
pub struct RefLocation {
    pub path: String,
    pub line: usize,
    pub col: usize,
    pub preview: String,
}

/// What is told of a place.
pub ghost struct RefView {
    pub path: Seq<char>,
    pub line: usize,
    pub col: usize,
    pub preview: Seq<char>,
}

impl View for RefLocation {
    type V = RefView;

    open spec fn view(&self) -> RefView {
        RefView { path: self.path@, line: self.line, col: self.col, preview: self.preview@ }
    }
}

pub open spec fn refs_view(refs: Seq<RefLocation>) -> Seq<RefView> {
    Seq::new(refs.len(), |i: int| refs[i]@)
}

/// The first `n` places that lie in files.
pub open spec fn refs_of(found: Seq<FoundLocation>, n: int) -> Seq<RefView>
    decreases n,
{
    if n <= 0 {
        Seq::empty()
    } else {
        let before = refs_of(found, n - 1);
        let place = found[n - 1];
        match place.path {
            Some(path) => before.push(
                RefView {
                    path: path@,
                    line: place.line,
                    col: place.col,
                    preview: preview_of(place.text@, place.line as int),
                },
            ),
            None => before,
        }
    }
}

/// The places where a symbol is used that lie in files.
pub fn ref_locations(found: &Vec<FoundLocation>) -> (refs: Vec<RefLocation>)
    ensures
        refs_view(refs@) == refs_of(found@, found@.len() as int),
{
    let mut refs: Vec<RefLocation> = Vec::new();
    let mut i: usize = 0;
    assert(refs_view(refs@) =~= Seq::empty());
    while i < found.len()
        invariant
            i <= found.len(),
            refs_view(refs@) == refs_of(found@, i as int),
        decreases found.len() - i,
    {
        let place = &found[i];
        if let Some(path) = &place.path {
            let ghost before = refs@;
            refs.push(
                RefLocation {
                    path: path.clone(),
                    line: place.line,
                    col: place.col,
                    preview: line_preview(place.text.as_str(), place.line),
                },
            );
            assert(refs_view(refs@) =~= refs_view(before).push(refs@.last()@));
        }
        i += 1;
    }
    refs
}

// ── Symbols without a language server ────────────────────────────────────────

/// An ASCII letter or digit, or an underscore.
pub open spec fn in_word(c: char) -> bool {
    ('a' <= c && c <= 'z') || ('A' <= c && c <= 'Z') || ('0' <= c && c <= '9') || c == '_'
}

fn is_in_word(c: char) -> (b: bool)
    ensures
        b == in_word(c),
{
    ('a' <= c && c <= 'z') || ('A' <= c && c <= 'Z') || ('0' <= c && c <= '9') || c == '_'
}

/// `name` stands in `line` from `k` on, and no word goes on at either end.
pub open spec fn word_at(line: Seq<char>, name: Seq<char>, k: int) -> bool {
    &&& stands_at(line, name, k)
    &&& k == 0 || !in_word(line[k - 1])
    &&& k + name.len() == line.len() || !in_word(line[k + name.len()])
}

/// `line` contains `name` as a whole word.
pub open spec fn holds_word(line: Seq<char>, name: Seq<char>) -> bool {
    exists|k: int| word_at(line, name, k)
}

fn has_word(line: &Vec<char>, name: &Vec<char>) -> (b: bool)
    ensures
        b == holds_word(line@, name@),
{
    if name.len() > line.len() {
        assert(forall|k: int| !word_at(line@, name@, k));
        return false;
    }
    let last = line.len() - name.len();
    let mut k: usize = 0;
    while k <= last
        invariant
            last == line.len() - name.len(),
            name.len() <= line.len(),
            k <= last + 1,
            forall|j: int| 0 <= j < k ==> !word_at(line@, name@, j),
        decreases last + 1 - k,
    {
        let mut i: usize = 0;
        while i < name.len() && line[k + i] == name[i]
            invariant
                k <= last,
                last == line.len() - name.len(),
                name.len() <= line.len(),
                i <= name.len(),
                forall|j: int| 0 <= j < i ==> line@[k + j] == name@[j],
            decreases name.len() - i,
        {
            i += 1;
        }
        if i == name.len() {
            assert(line@.subrange(k as int, k + name@.len()) =~= name@);
            if (k == 0 || !is_in_word(line[k - 1])) && (k == last || !is_in_word(
                line[k + name.len()],
            )) {
                assert(word_at(line@, name@, k as int));
                return true;
            }
        } else {
            assert(line@.subrange(k as int, k + name@.len())[i as int] != name@[i as int]);
        }
        if k == last {
            assert forall|j: int| !word_at(line@, name@, j) by {}
            return false;
        }
        k += 1;
    }
    false
}

/// A line of a text, with its line feed.
pub open spec fn whole_line(text: Seq<char>, line: int) -> Seq<char> {
    text.subrange(line_begin(text, line), line_begin(text, line + 1))
}

/// How many braces open among the first `n` characters, less those that close.
pub open spec fn brace_depth(s: Seq<char>, n: int) -> int
    decreases n,
{
    if n <= 0 {
        0
    } else {
        brace_depth(s, n - 1) + if s[n - 1] == '{' {
            1
        } else if s[n - 1] == '}' {
            -1
        } else {
            0int
        }
    }
}

/// The braces that were opened from the start of line `start` to the end of line
/// `line` are closed, and there were some.
pub open spec fn closes_at(text: Seq<char>, start: int, line: int) -> bool {
    let body = text.subrange(line_begin(text, start), line_begin(text, line + 1));
    body.contains('{') && brace_depth(body, body.len() as int) <= 0
}

/// The first line from `line` on at which the braces from line `start` on are
/// closed, or `start` where there is none.
pub open spec fn extent_from(text: Seq<char>, start: int, line: int) -> int
    decreases line_total(text) - line,
{
    if line >= line_total(text) {
        start
    } else if closes_at(text, start, line) {
        line
    } else {
        extent_from(text, start, line + 1)
    }
}

/// The last line of what is declared on line `start`.
pub open spec fn extent(text: Seq<char>, start: int) -> int {
    extent_from(text, start, start)
}

proof fn lemma_extent_bound(text: Seq<char>, start: int, line: int)
    requires
        0 <= start <= line,
        start < line_total(text),
    ensures
        start <= extent_from(text, start, line) < line_total(text),
    decreases line_total(text) - line,
{
    if line < line_total(text) && !closes_at(text, start, line) {
        lemma_extent_bound(text, start, line + 1);
    }
}

/// Find the end line by tracking brace depth from `start`.
/// Returns `start` for single-line / brace-less definitions.
fn find_extent(text: &str, rope: &ropey::Rope, v: &Vec<char>, start: usize) -> (end: usize)
    requires
        rope_text(*rope) == text@,
        v@ == text@,
        start < line_total(text@),
    ensures
        end == extent(text@, start as int),
{
    let n = len_lines(rope);
    let from = line_to_char(rope, start);
    let total = v.len();
    let mut depth: i128 = 0;
    let mut seen_open = false;
    let mut at: usize = from;
    let mut li: usize = start;
    proof {
        lemma_line_begin_bound(text@, start as int, start as int);
        assert(text@.subrange(from as int, at as int) =~= Seq::empty());
    }
    while li < n
        invariant
            start <= li <= n,
            n == line_total(text@),
            rope_text(*rope) == text@,
            v@ == text@,
            total == v.len(),
            from == line_begin(text@, start as int),
            at == line_begin(text@, li as int),
            from <= at <= total,
            seen_open == text@.subrange(from as int, at as int).contains('{'),
            depth == brace_depth(text@.subrange(from as int, at as int), at - from),
            -(at - from) <= depth <= at - from,
            extent(text@, start as int) == extent_from(text@, start as int, li as int),
        decreases n - li,
    {
        let end = line_to_char(rope, li + 1);
        proof {
            lemma_line_begin_bound(text@, li as int, li + 1);
        }
        while at < end
            invariant
                from <= at <= end <= total,
                v@ == text@,
                total == v.len(),
                seen_open == text@.subrange(from as int, at as int).contains('{'),
                depth == brace_depth(text@.subrange(from as int, at as int), at - from),
                -(at - from) <= depth <= at - from,
            decreases end - at,
        {
            let c = v[at];
            let ghost before = text@.subrange(from as int, at as int);
            let ghost after = text@.subrange(from as int, at + 1);
            proof {
                assert(after =~= before.push(c));
                lemma_brace_depth_prefix(before, after, at - from);
                assert(before.contains('{') ==> after.contains('{')) by {
                    if before.contains('{') {
                        let k = choose|k: int| 0 <= k < before.len() && before[k] == '{';
                        assert(after[k] == '{');
                    }
                }
                if c == '{' {
                    assert(after[at - from] == '{');
                }
                if after.contains('{') && c != '{' {
                    let k = choose|k: int| 0 <= k < after.len() && after[k] == '{';
                    assert(before[k] == '{');
                }
            }
            if c == '{' {
                depth += 1;
                seen_open = true;
            } else if c == '}' {
                depth -= 1;
            }
            at += 1;
        }
        if seen_open && depth <= 0 {
            return li;
        }
        li += 1;
    }
    start
}

proof fn lemma_brace_depth_prefix(a: Seq<char>, b: Seq<char>, n: int)
    requires
        n <= a.len(),
        n <= b.len(),
        forall|i: int| 0 <= i < n ==> a[i] == b[i],
    ensures
        brace_depth(a, n) == brace_depth(b, n),
    decreases n,
{
    if n > 0 {
        lemma_brace_depth_prefix(a, b, n - 1);
    }
}

/// The first line from `line` up to, but not including, `to` that holds a word.
pub open spec fn first_line_with(text: Seq<char>, name: Seq<char>, line: int, to: int) -> Option<
    int,
>
    decreases to - line,
{
    if line >= to {
        None
    } else if holds_word(whole_line(text, line), name) {
        Some(line)
    } else {
        first_line_with(text, name, line + 1, to)
    }
}

/// The lines of the symbol that a name path means, going by words and braces: the
/// first line that holds the name, and up to the end of the braces that open
/// there. A child is looked for below the line of its parent, up to the end of
/// that one's braces.
pub open spec fn scanned(text: Seq<char>, path: Seq<char>) -> Option<(int, int)> {
    let n = line_total(text) as int;
    let line = match child_of(path) {
        None => first_line_with(text, parent_of(path), 0, n),
        Some(child) => match first_line_with(text, parent_of(path), 0, n) {
            None => None,
            Some(parent_line) => first_line_with(
                text,
                child,
                parent_line + 1,
                extent(text, parent_line) + 1,
            ),
        },
    };
    match line {
        Some(line) => Some((line, extent(text, line))),
        None => None,
    }
}

proof fn lemma_first_line_with(text: Seq<char>, name: Seq<char>, line: int, to: int)
    ensures
        first_line_with(text, name, line, to) matches Some(k) ==> line <= k < to,
    decreases to - line,
{
    if line < to && !holds_word(whole_line(text, line), name) {
        lemma_first_line_with(text, name, line + 1, to);
    }
}

fn line_with(rope: &ropey::Rope, name: &str, from: usize, to: usize) -> (found: Option<usize>)
    requires
        to <= line_total(rope_text(*rope)),
    ensures
        match found {
            Some(k) => first_line_with(rope_text(*rope), name@, from as int, to as int) == Some(
                k as int,
            ),
            None => first_line_with(rope_text(*rope), name@, from as int, to as int) is None,
        },
{
    let word = chars_of(name);
    let mut li: usize = from;
    while li < to
        invariant
            from <= li,
            to <= line_total(rope_text(*rope)),
            word@ == name@,
            first_line_with(rope_text(*rope), name@, li as int, to as int) == first_line_with(
                rope_text(*rope),
                name@,
                from as int,
                to as int,
            ),
        decreases to - li,
    {
        proof {
            lemma_line_begin_bound(rope_text(*rope), li as int, li + 1);
        }
        let start = line_to_char(rope, li);
        let end = line_to_char(rope, li + 1);
        let line = slice_text(rope, start, end);
        if has_word(&chars_of(line.as_str()), &word) {
            return Some(li);
        }
        li += 1;
    }
    None
}

/// The error for a name path that was not found in the text.
pub open spec fn scan_failed(name_path: Seq<char>, path: Seq<char>) -> Seq<char> {
    "symbol '"@ + name_path + "' not found in "@ + path + " (no LSP, text scan used)"@
}

/// What a text scan for a name path comes to.
pub open spec fn scan_gives(
    result: Result<SymbolMatch, String>,
    text: Seq<char>,
    name_path: Seq<char>,
    path: Seq<char>,
) -> bool {
    match result {
        Ok(found) => scanned(text, name_path) matches Some(range) && {
            &&& found.name@ == target_of(name_path)
            &&& found.kind == SymbolKind::Unknown
            &&& found.path@ == path
            &&& found.range.start_line == range.0
            &&& found.range.end_line == range.1
            &&& found.body matches Some(body) && body@ == range_text(text, found.range)
        },
        Err(e) => scanned(text, name_path) is None && e@ == scan_failed(name_path, path),
    }
}

/// The symbol that a name path means, found in the text alone.
pub fn scan_symbol(text: &str, name_path: &str, path: &str) -> (result: Result<
    SymbolMatch,
    String,
>)
    ensures
        scan_gives(result, text@, name_path@, path@),
{
    let rope = rope_of(text);
    let v = chars_of(text);
    let n = len_lines(&rope);
    let (parent, child) = split_name_path(name_path);
    proof {
        lemma_first_line_with(text@, parent@, 0, n as int);
    }
    let first = line_with(&rope, parent.as_str(), 0, n);
    let line: Option<usize> = match &child {
        None => first,
        Some(name) => match first {
            None => None,
            Some(parent_line) => {
                proof {
                    lemma_extent_bound(text@, parent_line as int, parent_line as int);
                    lemma_first_line_with(
                        text@,
                        name@,
                        parent_line + 1,
                        extent(text@, parent_line as int) + 1,
                    );
                }
                let parent_end = find_extent(text, &rope, &v, parent_line);
                line_with(&rope, name.as_str(), parent_line + 1, parent_end + 1)
            },
        },
    };
    match line {
        None => {
            let mut message = "symbol '".to_string();
            message.append(name_path);
            message.append("' not found in ");
            message.append(path);
            message.append(" (no LSP, text scan used)");
            Err(message)
        },
        Some(start_line) => {
            proof {
                lemma_extent_bound(text@, start_line as int, start_line as int);
            }
            let end_line = find_extent(text, &rope, &v, start_line);
            proof {
                lemma_line_begin_bound(text@, start_line as int, end_line + 1);
            }
            let body = lines_between(text, start_line, end_line);
            let name = match child {
                Some(name) => name,
                None => parent,
            };
            Ok(
                SymbolMatch {
                    name,
                    kind: SymbolKind::Unknown,
                    path: path.to_string(),
                    range: LineRange { start_line, end_line },
                    body: Some(body),
                },
            )
        },
    }
}

/// What a text scan finds lies in the text, and does not end before it starts.
pub proof fn law_scanned_symbol_lies_in_text(text: Seq<char>, path: Seq<char>)
    ensures
        scanned(text, path) matches Some(range) ==> 0 <= range.0 <= range.1 < line_total(text)
            && holds_word(whole_line(text, range.0), target_of(path)),
{
    let n = line_total(text) as int;
    lemma_first_line_with(text, parent_of(path), 0, n);
    lemma_found_line(text, parent_of(path), 0, n);
    if let Some(child) = child_of(path) {
        if let Some(parent_line) = first_line_with(text, parent_of(path), 0, n) {
            lemma_extent_bound(text, parent_line, parent_line);
            let to = extent(text, parent_line) + 1;
            lemma_first_line_with(text, child, parent_line + 1, to);
            lemma_found_line(text, child, parent_line + 1, to);
        }
    }
    if let Some(range) = scanned(text, path) {
        lemma_extent_bound(text, range.0, range.0);
    }
}

proof fn lemma_found_line(text: Seq<char>, name: Seq<char>, line: int, to: int)
    ensures
        first_line_with(text, name, line, to) matches Some(k) ==> holds_word(
            whole_line(text, k),
            name,
        ),
    decreases to - line,
{
    if line < to && !holds_word(whole_line(text, line), name) {
        lemma_found_line(text, name, line + 1, to);
    }
}

/// The symbol that a name without a slash means has that name.
pub proof fn law_resolved_symbol_has_the_name(syms: Seq<Symbol>, i: int, parent: Seq<char>)
    ensures
        find_symbol(syms, i, parent, None) matches Some(sym) ==> sym.name@ == parent,
    decreases syms, syms.len() - i,
{
    if 0 <= i < syms.len() && syms[i].name@ != parent {
        law_resolved_symbol_has_the_name(syms[i].children@, 0, parent);
        law_resolved_symbol_has_the_name(syms, i + 1, parent);
    }
}

// ── What a name path means ───────────────────────────────────────────────────

/// A name path is parted at its first slash.
pub proof fn law_name_path_is_parted_at_its_first_slash(parent: Seq<char>, child: Seq<char>)
    requires
        !parent.contains('/'),
    ensures
        parent_of(parent) == parent,
        child_of(parent) is None,
        target_of(parent) == parent,
        parent_of(parent + seq!['/'] + child) == parent,
        child_of(parent + seq!['/'] + child) == Some(child),
        target_of(parent + seq!['/'] + child) == child,
{
    let whole = parent + seq!['/'] + child;
    let n = parent.len() as int;
    lemma_first_slash(parent, 0, n);
    assert forall|i: int| 0 <= i < n implies whole[i] != '/' by {
        assert(parent.contains(parent[i]));
    }
    lemma_first_slash(whole, 0, n);
    assert(parent.take(n) =~= parent);
    assert(whole.take(n) =~= parent);
    assert(whole.skip(n + 1) =~= child);
}

proof fn lemma_first_slash(s: Seq<char>, k: int, at: int)
    requires
        0 <= k <= at <= s.len(),
        forall|i: int| k <= i < at ==> s[i] != '/',
        at < s.len() ==> s[at] == '/',
    ensures
        first_slash(s, k) == at,
    decreases at - k,
{
    if k < at {
        lemma_first_slash(s, k + 1, at);
    }
}

/// The symbol is one of `syms`, or is declared in one of them, at any depth.
pub open spec fn is_within_tree(sym: Symbol, syms: Seq<Symbol>) -> bool
    decreases syms,
{
    exists|i: int|
        0 <= i < syms.len() && (#[trigger] syms[i] == sym || is_within_tree(
            sym,
            syms[i].children@,
        ))
}

/// A symbol with a name is one of `syms`, or is declared in one of them, at any depth.
pub open spec fn occurs(name: Seq<char>, syms: Seq<Symbol>) -> bool
    decreases syms,
{
    exists|i: int|
        0 <= i < syms.len() && ((#[trigger] syms[i]).name@ == name || occurs(
            name,
            syms[i].children@,
        ))
}

/// A name without a slash finds a symbol where one has it, however deep it is declared, and
/// what is found is one of them.
pub proof fn law_symbol_is_found_at_any_depth(syms: Seq<Symbol>, name: Seq<char>)
    ensures
        find_symbol(syms, 0, name, None) is Some <==> occurs(name, syms),
        find_symbol(syms, 0, name, None) matches Some(sym) ==> sym.name@ == name
            && is_within_tree(sym, syms),
{
    lemma_found_from(syms, 0, name);
}

proof fn lemma_found_from(syms: Seq<Symbol>, i: int, name: Seq<char>)
    requires
        0 <= i,
    ensures
        find_symbol(syms, i, name, None) is Some <==> exists|k: int|
            i <= k < syms.len() && ((#[trigger] syms[k]).name@ == name || occurs(
                name,
                syms[k].children@,
            )),
        find_symbol(syms, i, name, None) matches Some(sym) ==> sym.name@ == name && exists|k: int|
            i <= k < syms.len() && (#[trigger] syms[k] == sym || is_within_tree(
                sym,
                syms[k].children@,
            )),
    decreases syms, syms.len() - i,
{
    if i < syms.len() {
        if syms[i].name@ != name {
            lemma_found_from(syms[i].children@, 0, name);
            lemma_found_from(syms, i + 1, name);
            let inner = find_symbol(syms[i].children@, 0, name, None);
            assert(inner is Some <==> occurs(name, syms[i].children@));
            if let Some(sym) = inner {
                assert(is_within_tree(sym, syms[i].children@));
                assert(syms[i].name@ == name || occurs(name, syms[i].children@));
            }
        }
    }
}


/// The first of a list with a name is the one in front of which no other has it.
pub proof fn law_first_named_is_the_first(syms: Seq<Symbol>, name: Seq<char>)
    ensures
        match first_named(syms, 0, name) {
            Some(i) => 0 <= i < syms.len() && syms[i].name@ == name && forall|k: int|
                0 <= k < i ==> (#[trigger] syms[k]).name@ != name,
            None => forall|k: int| 0 <= k < syms.len() ==> (#[trigger] syms[k]).name@ != name,
        },
{
    lemma_first_named(syms, 0, name);
}

proof fn lemma_first_named(syms: Seq<Symbol>, from: int, name: Seq<char>)
    requires
        0 <= from,
    ensures
        match first_named(syms, from, name) {
            Some(i) => from <= i < syms.len() && syms[i].name@ == name && forall|k: int|
                from <= k < i ==> (#[trigger] syms[k]).name@ != name,
            None => forall|k: int| from <= k < syms.len() ==> (#[trigger] syms[k]).name@ != name,
        },
    decreases syms.len() - from,
{
    if from < syms.len() && syms[from].name@ != name {
        lemma_first_named(syms, from + 1, name);
    }
}

/// Symbols are looked through in their order. Those in front that neither have the parent's
/// name nor hold it do not count. A symbol with the name decides: it is meant itself, or the
/// first symbol in it with the child's name. Where one without the name holds what is looked
/// for, it is found there, and else behind it.
pub proof fn law_symbols_are_looked_through_in_order(
    before: Seq<Symbol>,
    sym: Symbol,
    after: Seq<Symbol>,
    parent: Seq<char>,
    child: Option<Seq<char>>,
)
    requires
        !occurs(parent, before),
    ensures
        ({
            let found = find_symbol(before + seq![sym] + after, 0, parent, child);
            let inside = find_symbol(sym.children@, 0, parent, child);
            &&& find_symbol(before, 0, parent, child) is None
            &&& sym.name@ == parent && child is None ==> found == Some(sym)
            &&& sym.name@ == parent && child is Some ==> match found {
                Some(inner) => exists|i: int|
                    0 <= i < sym.children@.len() && #[trigger] sym.children@[i] == inner
                        && inner.name@ == child->0 && forall|k: int|
                        0 <= k < i ==> (#[trigger] sym.children@[k]).name@ != child->0,
                None => forall|k: int|
                    0 <= k < sym.children@.len() ==> (#[trigger] sym.children@[k]).name@
                        != child->0,
            }
            &&& sym.name@ != parent && inside is Some ==> found == inside
            &&& sym.name@ != parent && inside is None ==> found == find_symbol(
                after,
                0,
                parent,
                child,
            )
        }),
{
    let whole = before + seq![sym] + after;
    let n = before.len() as int;
    lemma_skips(before, 0, before, parent, child);
    assert(find_symbol(before, n, parent, child) is None);
    lemma_skips(whole, 0, before, parent, child);
    assert(whole[n] == sym);
    lemma_found_behind(whole, n + 1, after, 0, parent, child);
    if let Some(name) = child {
        law_first_named_is_the_first(sym.children@, name);
    }
}

proof fn lemma_absent(syms: Seq<Symbol>, i: int, parent: Seq<char>, child: Option<Seq<char>>)
    requires
        0 <= i,
        !occurs(parent, syms),
    ensures
        find_symbol(syms, i, parent, child) is None,
    decreases syms, syms.len() - i,
{
    if i < syms.len() {
        assert(syms[i].name@ != parent && !occurs(parent, syms[i].children@));
        lemma_absent(syms[i].children@, 0, parent, child);
        lemma_absent(syms, i + 1, parent, child);
    }
}

proof fn lemma_skips(
    whole: Seq<Symbol>,
    i: int,
    before: Seq<Symbol>,
    parent: Seq<char>,
    child: Option<Seq<char>>,
)
    requires
        0 <= i <= before.len() <= whole.len(),
        forall|k: int| 0 <= k < before.len() ==> whole[k] == before[k],
        !occurs(parent, before),
    ensures
        find_symbol(whole, i, parent, child) == find_symbol(
            whole,
            before.len() as int,
            parent,
            child,
        ),
    decreases before.len() - i,
{
    if i < before.len() {
        assert(before[i].name@ != parent && !occurs(parent, before[i].children@));
        assert(whole[i] == before[i]);
        lemma_absent(whole[i].children@, 0, parent, child);
        lemma_skips(whole, i + 1, before, parent, child);
    }
}

proof fn lemma_found_behind(
    whole: Seq<Symbol>,
    i: int,
    after: Seq<Symbol>,
    j: int,
    parent: Seq<char>,
    child: Option<Seq<char>>,
)
    requires
        0 <= j <= after.len(),
        0 <= i,
        whole.len() - i == after.len() - j,
        forall|k: int| j <= k < after.len() ==> whole[i - j + k] == #[trigger] after[k],
    ensures
        find_symbol(whole, i, parent, child) == find_symbol(after, j, parent, child),
    decreases after.len() - j,
{
    if j < after.len() {
        assert(whole[i - j + j] == after[j]);
        lemma_found_behind(whole, i + 1, after, j + 1, parent, child);
    }
}

/// What a name path with a slash finds is declared directly in a symbol with the parent's
/// name, and has the child's. It finds something where one has the parent's name and each
/// that has it holds such a child.
pub proof fn law_child_is_found_in_its_parent(
    syms: Seq<Symbol>,
    parent: Seq<char>,
    child: Seq<char>,
)
    ensures
        find_symbol(syms, 0, parent, Some(child)) matches Some(sym) ==> {
            &&& sym.name@ == child
            &&& exists|p: Symbol| #[trigger]
                is_within_tree(p, syms) && p.name@ == parent && p.children@.contains(sym)
        },
        occurs(parent, syms) && (forall|p: Symbol| #[trigger]
            is_within_tree(p, syms) && p.name@ == parent ==> exists|c: Symbol| #[trigger]
                p.children@.contains(c) && c.name@ == child) ==> find_symbol(
            syms,
            0,
            parent,
            Some(child),
        ) is Some,
{
    lemma_child_found(syms, 0, parent, child);
    if occurs(parent, syms) && (forall|p: Symbol| #[trigger]
        is_within_tree(p, syms) && p.name@ == parent ==> exists|c: Symbol| #[trigger]
            p.children@.contains(c) && c.name@ == child) {
        lemma_child_is_there(syms, 0, syms, parent, child);
    }
}

proof fn lemma_child_found(syms: Seq<Symbol>, i: int, parent: Seq<char>, child: Seq<char>)
    requires
        0 <= i,
    ensures
        find_symbol(syms, i, parent, Some(child)) matches Some(sym) ==> {
            &&& sym.name@ == child
            &&& exists|p: Symbol| #[trigger]
                is_within_tree(p, syms) && p.name@ == parent && p.children@.contains(sym)
        },
    decreases syms, syms.len() - i,
{
    if i < syms.len() {
        if syms[i].name@ == parent {
            law_first_named_is_the_first(syms[i].children@, child);
            assert(is_within_tree(syms[i], syms));
        } else {
            let inside = syms[i].children@;
            lemma_child_found(inside, 0, parent, child);
            lemma_child_found(syms, i + 1, parent, child);
            if let Some(sym) = find_symbol(inside, 0, parent, Some(child)) {
                let p = choose|p: Symbol| #[trigger]
                    is_within_tree(p, inside) && p.name@ == parent && p.children@.contains(sym);
                assert(syms[i] == p || is_within_tree(p, syms[i].children@));
                assert(is_within_tree(p, syms));
            }
        }
    }
}

proof fn lemma_child_is_there(
    syms: Seq<Symbol>,
    i: int,
    tree: Seq<Symbol>,
    parent: Seq<char>,
    child: Seq<char>,
)
    requires
        0 <= i,
        forall|p: Symbol|
            (exists|k: int|
                i <= k < syms.len() && (#[trigger] syms[k] == p || is_within_tree(
                    p,
                    syms[k].children@,
                ))) ==> #[trigger] is_within_tree(p, tree),
        forall|p: Symbol| #[trigger]
            is_within_tree(p, tree) && p.name@ == parent ==> exists|c: Symbol| #[trigger]
                p.children@.contains(c) && c.name@ == child,
        exists|k: int|
            i <= k < syms.len() && ((#[trigger] syms[k]).name@ == parent || occurs(
                parent,
                syms[k].children@,
            )),
    ensures
        find_symbol(syms, i, parent, Some(child)) is Some,
    decreases syms, syms.len() - i,
{
    let k = choose|k: int|
        i <= k < syms.len() && ((#[trigger] syms[k]).name@ == parent || occurs(
            parent,
            syms[k].children@,
        ));
    assert(syms[i] == syms[i]);
    assert(is_within_tree(syms[i], tree));
    if syms[i].name@ == parent {
        let c = choose|c: Symbol| #[trigger]
            syms[i].children@.contains(c) && c.name@ == child;
        law_first_named_is_the_first(syms[i].children@, child);
        let at = choose|at: int| 0 <= at < syms[i].children@.len() && syms[i].children@[at] == c;
        assert(syms[i].children@[at].name@ == child);
    } else if occurs(parent, syms[i].children@) {
        let inside = syms[i].children@;
        assert forall|p: Symbol|
            (exists|k: int|
                0 <= k < inside.len() && (#[trigger] inside[k] == p || is_within_tree(
                    p,
                    inside[k].children@,
                ))) implies #[trigger] is_within_tree(p, tree) by {
            assert(is_within_tree(p, inside));
            assert(syms[i] == p || is_within_tree(p, syms[i].children@));
        }
        lemma_child_is_there(inside, 0, tree, parent, child);
    } else {
        assert(k != i);
        assert forall|p: Symbol|
            (exists|k: int|
                i + 1 <= k < syms.len() && (#[trigger] syms[k] == p || is_within_tree(
                    p,
                    syms[k].children@,
                ))) implies #[trigger] is_within_tree(p, tree) by {
            let k = choose|k: int|
                i + 1 <= k < syms.len() && (#[trigger] syms[k] == p || is_within_tree(
                    p,
                    syms[k].children@,
                ));
            assert(syms[k] == p || is_within_tree(p, syms[k].children@));
        }
        lemma_child_is_there(syms, i + 1, tree, parent, child);
    }
}

/// A name is resolved in what a server gives: where it tells what is declared in what, at
/// any depth, and else among all symbols, going by the name behind the slash.
pub proof fn law_name_is_resolved_in_both_forms(
    syms: Vec<Symbol>,
    parent: Seq<char>,
    child: Seq<char>,
)
    requires
        !parent.contains('/'),
    ensures
        resolved(SymbolResponse::Nested(syms), parent) is Some <==> occurs(parent, syms@),
        resolved(SymbolResponse::Nested(syms), parent) matches Some(sym) ==> sym.name@ == parent,
        resolved(SymbolResponse::Nested(syms), parent + seq!['/'] + child) == find_symbol(
            syms@,
            0,
            parent,
            Some(child),
        ),
        forall|path: Seq<char>, name: Seq<char>|
            (path == parent && name == parent) || (#[trigger] (parent + seq!['/'] + name) == path
                && name == child) ==> match #[trigger] resolved(SymbolResponse::Flat(syms), path) {
                Some(sym) => sym.name@ == name && exists|i: int|
                    0 <= i < syms@.len() && #[trigger] syms@[i] == sym && forall|k: int|
                        0 <= k < i ==> (#[trigger] syms@[k]).name@ != name,
                None => forall|k: int| 0 <= k < syms@.len() ==> (#[trigger] syms@[k]).name@ != name,
            },
{
    law_name_path_is_parted_at_its_first_slash(parent, child);
    law_symbol_is_found_at_any_depth(syms@, parent);
    law_first_named_is_the_first(syms@, parent);
    law_first_named_is_the_first(syms@, child);
}

/// The text of a symbol is its lines, from the first to the last, each with its line feed.
pub proof fn law_symbol_text_is_its_lines(all: Seq<Seq<char>>, range: LineRange)
    requires
        forall|i: int| 0 <= i < all.len() ==> !(#[trigger] all[i]).contains('\n'),
        range.start_line <= range.end_line < all.len(),
    ensures
        range_text(join(all, "\n"@), range) == join(
            all.subrange(range.start_line as int, range.end_line + 1),
            "\n"@,
        ) + if range.end_line + 1 < all.len() {
            "\n"@
        } else {
            Seq::empty()
        },
{
    law_range_holds_its_lines(all, range.start_line as int, range.end_line as int);
}

/// The edit that replaces a symbol takes out its lines and puts those of the new body in
/// their place.
pub proof fn law_replaced_symbol_leaves_other_lines(
    all: Seq<Seq<char>>,
    range: LineRange,
    edit: EditView,
)
    requires
        range.start_line <= range.end_line < all.len(),
        edit.start_line == range.start_line + 1,
        edit.end_line == range.end_line + 2,
    ensures
        edited(all, edit) == all.take(range.start_line as int) + lines(edit.new_text) + all.skip(
            range.end_line + 1,
        ),
{
    law_edit_replaces_its_lines(all, edit);
}

// ── What a text scan finds ───────────────────────────────────────────────────

/// A line of a text, with the line feed that ends it.
pub proof fn law_whole_line_is_the_line(all: Seq<Seq<char>>, line: int)
    requires
        forall|i: int| 0 <= i < all.len() ==> !(#[trigger] all[i]).contains('\n'),
        0 <= line < all.len(),
    ensures
        whole_line(join(all, "\n"@), line) == all[line] + if line + 1 < all.len() {
            "\n"@
        } else {
            Seq::empty()
        },
{
    law_range_holds_its_lines(all, line, line);
    assert(all.subrange(line, line + 1) =~= seq![all[line]]);
    law_joining_goes_part_by_part(seq![all[line]], Seq::empty(), all[line], "\n"@);
}

/// A line holds a name as a word where neither an ASCII letter or digit nor an underscore
/// touches it.
pub proof fn law_word_stands_on_its_own(line: Seq<char>, name: Seq<char>)
    ensures
        holds_word(line, name) <==> exists|before: Seq<char>, after: Seq<char>|
            {
                &&& line == #[trigger] (before + name + after)
                &&& before.len() > 0 ==> {
                    let c = before[before.len() - 1];
                    !('a' <= c <= 'z') && !('A' <= c <= 'Z') && !('0' <= c <= '9') && c != '_'
                }
                &&& after.len() > 0 ==> {
                    let c = after[0];
                    !('a' <= c <= 'z') && !('A' <= c <= 'Z') && !('0' <= c <= '9') && c != '_'
                }
            },
{
    if holds_word(line, name) {
        let k = choose|k: int| word_at(line, name, k);
        let before = line.take(k);
        let after = line.skip(k + name.len());
        assert(line =~= before + name + after);
        if before.len() > 0 {
            assert(before[before.len() - 1] == line[k - 1]);
        }
        if after.len() > 0 {
            assert(after[0] == line[k + name.len()]);
        }
    }
    if exists|before: Seq<char>, after: Seq<char>|
        {
            &&& line == #[trigger] (before + name + after)
            &&& before.len() > 0 ==> {
                let c = before[before.len() - 1];
                !('a' <= c <= 'z') && !('A' <= c <= 'Z') && !('0' <= c <= '9') && c != '_'
            }
            &&& after.len() > 0 ==> {
                let c = after[0];
                !('a' <= c <= 'z') && !('A' <= c <= 'Z') && !('0' <= c <= '9') && c != '_'
            }
        } {
        let (before, after) = choose|before: Seq<char>, after: Seq<char>|
            {
                &&& line == #[trigger] (before + name + after)
                &&& before.len() > 0 ==> {
                    let c = before[before.len() - 1];
                    !('a' <= c <= 'z') && !('A' <= c <= 'Z') && !('0' <= c <= '9') && c != '_'
                }
                &&& after.len() > 0 ==> {
                    let c = after[0];
                    !('a' <= c <= 'z') && !('A' <= c <= 'Z') && !('0' <= c <= '9') && c != '_'
                }
            };
        let k = before.len() as int;
        assert(line.subrange(k, k + name.len()) =~= name);
        if k > 0 {
            assert(line[k - 1] == before[k - 1]);
        }
        if after.len() > 0 {
            assert(line[k + name.len()] == after[0]);
        }
        assert(word_at(line, name, k));
    }
}

/// Braces are counted: those that open less those that close.
pub proof fn law_depth_counts_braces(s: Seq<char>)
    ensures
        brace_depth(s, s.len() as int) == s.to_multiset().count('{') - s.to_multiset().count('}'),
    decreases s.len(),
{
    broadcast use vstd::seq_lib::group_to_multiset_ensures;

    if s.len() > 0 {
        let d = s.drop_last();
        law_depth_counts_braces(d);
        lemma_brace_depth_prefix(d, s, d.len() as int);
        assert(d.push(s.last()) =~= s);
        assert(s.to_multiset() =~= d.to_multiset().insert(s.last()));
    } else {
        assert(s =~= Seq::empty());
        assert(s.to_multiset() =~= vstd::multiset::Multiset::empty());
    }
}

/// What is declared on a line ends where its braces are closed: at the first line up to
/// which a brace opens and no more open than close. Where there is none it is that line
/// alone.
pub proof fn law_declaration_ends_with_its_braces(text: Seq<char>, start: int)
    requires
        0 <= start < line_total(text),
    ensures
        ({
            let end = extent(text, start);
            let closed = |line: int|
                {
                    let body = text.subrange(
                        line_begin(text, start),
                        line_begin(text, line + 1),
                    ).to_multiset();
                    0 < body.count('{') <= body.count('}')
                };
            &&& start <= end < line_total(text)
            &&& forall|line: int| start <= line < end ==> !#[trigger] closed(line)
            &&& closed(end) || (end == start && forall|line: int|
                start <= line < line_total(text) ==> !#[trigger] closed(line))
        }),
{
    lemma_extent_from(text, start, start);
}

proof fn lemma_closes(text: Seq<char>, start: int, line: int)
    requires
        0 <= start <= line + 1,
    ensures
        ({
            let body = text.subrange(
                line_begin(text, start),
                line_begin(text, line + 1),
            ).to_multiset();
            closes_at(text, start, line) <==> 0 < body.count('{') <= body.count('}')
        }),
{
    broadcast use vstd::seq_lib::group_to_multiset_ensures;

    let body = text.subrange(line_begin(text, start), line_begin(text, line + 1));
    law_depth_counts_braces(body);
    assert(body.contains('{') <==> body.to_multiset().count('{') > 0);
}

proof fn lemma_extent_from(text: Seq<char>, start: int, from: int)
    requires
        0 <= start <= from,
        start < line_total(text),
    ensures
        ({
            let end = extent_from(text, start, from);
            let closed = |line: int|
                {
                    let body = text.subrange(
                        line_begin(text, start),
                        line_begin(text, line + 1),
                    ).to_multiset();
                    0 < body.count('{') <= body.count('}')
                };
            &&& start <= end < line_total(text)
            &&& forall|line: int| from <= line < end ==> !#[trigger] closed(line)
            &&& (from <= end && closed(end)) || (end == start && forall|line: int|
                from <= line < line_total(text) ==> !#[trigger] closed(line))
        }),
    decreases line_total(text) - from,
{
    if from < line_total(text) {
        lemma_closes(text, start, from);
        if !closes_at(text, start, from) {
            lemma_extent_from(text, start, from + 1);
        }
    }
}

/// A name is found on the first of the lines that holds it as a word.
pub proof fn law_first_line_with_is_the_first(text: Seq<char>, name: Seq<char>, from: int, to: int)
    ensures
        match first_line_with(text, name, from, to) {
            Some(k) => from <= k < to && holds_word(whole_line(text, k), name) && forall|line: int|
                from <= line < k ==> !holds_word(#[trigger] whole_line(text, line), name),
            None => forall|line: int|
                from <= line < to ==> !holds_word(#[trigger] whole_line(text, line), name),
        },
    decreases to - from,
{
    if from < to && !holds_word(whole_line(text, from), name) {
        law_first_line_with_is_the_first(text, name, from + 1, to);
    }
}

/// A text scan finds a name on the first line of the text that holds it as a word, and goes
/// up to the end of what is declared there.
pub proof fn law_scan_finds_the_first_line(text: Seq<char>, name: Seq<char>)
    requires
        !name.contains('/'),
    ensures
        match scanned(text, name) {
            Some(range) => {
                &&& 0 <= range.0 < line_total(text)
                &&& holds_word(whole_line(text, range.0), name)
                &&& range.1 == extent(text, range.0)
                &&& forall|line: int|
                    0 <= line < range.0 ==> !holds_word(#[trigger] whole_line(text, line), name)
            },
            None => forall|line: int|
                0 <= line < line_total(text) ==> !holds_word(
                    #[trigger] whole_line(text, line),
                    name,
                ),
        },
{
    law_name_path_is_parted_at_its_first_slash(name, Seq::empty());
    law_first_line_with_is_the_first(text, name, 0, line_total(text) as int);
}

/// A text scan looks for a child below the line of its parent, up to the end of what is
/// declared there.
pub proof fn law_scan_finds_a_child_in_its_parent(
    text: Seq<char>,
    parent: Seq<char>,
    child: Seq<char>,
)
    requires
        !parent.contains('/'),
    ensures
        ({
            let outer = scanned(text, parent);
            let inner = scanned(text, parent + seq!['/'] + child);
            &&& outer is None ==> inner is None
            &&& outer matches Some(around) ==> match inner {
                Some(range) => {
                    &&& around.0 < range.0 <= around.1
                    &&& holds_word(whole_line(text, range.0), child)
                    &&& range.1 == extent(text, range.0)
                    &&& forall|line: int|
                        around.0 < line < range.0 ==> !holds_word(
                            #[trigger] whole_line(text, line),
                            child,
                        )
                },
                None => forall|line: int|
                    around.0 < line <= around.1 ==> !holds_word(
                        #[trigger] whole_line(text, line),
                        child,
                    ),
            }
        }),
{
    law_name_path_is_parted_at_its_first_slash(parent, child);
    law_first_line_with_is_the_first(text, parent, 0, line_total(text) as int);
    if let Some(around) = scanned(text, parent) {
        law_first_line_with_is_the_first(text, child, around.0 + 1, around.1 + 1);
    }
}

/// Each place in a file is told, in order, with its line of the text; places in no
/// file are left out.
pub proof fn law_places_in_files_are_told(found: Seq<FoundLocation>, n: int)
    requires
        0 <= n <= found.len(),
    ensures
        refs_of(found, n) == found.take(n).filter(|x: FoundLocation| x.path is Some).map_values(
            |x: FoundLocation|
                RefView {
                    path: x.path->0@,
                    line: x.line,
                    col: x.col,
                    preview: preview_of(x.text@, x.line as int),
                },
        ),
    decreases n,
{
    reveal(Seq::filter);
    if n > 0 {
        law_places_in_files_are_told(found, n - 1);
        assert(found.take(n).drop_last() =~= found.take(n - 1));
        let before = found.take(n - 1).filter(|x: FoundLocation| x.path is Some);
        let all = found.take(n).filter(|x: FoundLocation| x.path is Some);
        if found[n - 1].path is Some {
            assert(all =~= before.push(found[n - 1]));
            assert(refs_of(found, n) =~= all.map_values(
                |x: FoundLocation|
                    RefView {
                        path: x.path->0@,
                        line: x.line,
                        col: x.col,
                        preview: preview_of(x.text@, x.line as int),
                    },
            ));
        }
    }
}

/// The preview of a place is its line, and there is none past the last line.
pub proof fn law_preview_is_the_line(all: Seq<Seq<char>>, k: int)
    requires
        all.len() > 0,
        forall|i: int| 0 <= i < all.len() ==> !(#[trigger] all[i]).contains('\n'),
        0 <= k,
    ensures
        k < all.len() ==> preview_of(join(all, "\n"@), k) == all[k],
        k >= all.len() ==> preview_of(join(all, "\n"@), k) == Seq::<char>::empty(),
{
    lemma_text_from_line(all, 0);
}

/// A path lies in a directory where the names of the directory's path begin it.
pub proof fn law_path_lies_in_a_directory(components: Seq<String>, directory: Seq<String>)
    ensures
        lies_in(components, directory) <==> exists|rest: Seq<Seq<char>>|
            views(components) == #[trigger] (views(directory) + rest),
{
    if lies_in(components, directory) {
        let rest = views(components).skip(directory.len() as int);
        assert(views(components) =~= views(directory) + rest);
    }
    if exists|rest: Seq<Seq<char>>| views(components) == #[trigger] (views(directory) + rest) {
        let rest = choose|rest: Seq<Seq<char>>|
            views(components) == #[trigger] (views(directory) + rest);
        assert(views(components).len() == views(directory).len() + rest.len());
        assert forall|i: int| 0 <= i < directory.len() implies (#[trigger] components[i])@
            == directory[i]@ by {
            assert((views(directory) + rest)[i] == views(directory)[i]);
            assert(views(components)[i] == components[i]@);
        }
    }
}

/// What is told of a symbol goes as many levels deep as asked for, and no deeper; on
/// each level every symbol is told, under its name and with its place.
pub proof fn law_symbols_are_told_to_their_depth(info: SymbolInfo, sym: Symbol, depth: nat, i: int)
    requires
        mirrors(info, sym, depth),
    ensures
        info.name == sym.name && info.kind == sym.kind && info.range == sym.range,
        depth == 0 ==> info.children@.len() == 0,
        depth > 0 ==> info.children@.len() == sym.children@.len(),
        depth > 0 && 0 <= i < sym.children@.len() ==> {
            &&& info.children@[i].name == sym.children@[i].name
            &&& info.children@[i].kind == sym.children@[i].kind
            &&& info.children@[i].range == sym.children@[i].range
            &&& mirrors(info.children@[i], sym.children@[i], (depth - 1) as nat)
        },
{
    reveal_with_fuel(mirrors, 2);
    if depth > 0 && 0 <= i < sym.children@.len() {
        assert(mirrors(info.children@[i], sym.children@[i], (depth - 1) as nat));
    }
}

/// What a scan finds is told under the name that is meant, with the lines that it covers and
/// their text; where it finds nothing the agent is told.
pub proof fn law_scan_tells_what_it_finds(
    result: Result<SymbolMatch, String>,
    text: Seq<char>,
    name_path: Seq<char>,
    path: Seq<char>,
)
    requires
        scan_gives(result, text, name_path, path),
    ensures
        result is Ok <==> scanned(text, name_path) is Some,
        result matches Ok(found) ==> found.name@ == target_of(name_path) && found.path@ == path
            && found.body is Some && found.body->0@ == range_text(text, found.range),
        result matches Ok(found) ==> (scanned(text, name_path) matches Some(range)
            && found.range.start_line == range.0 && found.range.end_line == range.1),
{
}

} // verus!
