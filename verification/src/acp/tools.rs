//! The calls that an agent makes of its tools.

use vstd::prelude::*;

use crate::json::{text_member, Json, JsonEntry};
use crate::text::{chars_of, join, join_strings, lines, lines_of, same, substring, views};

verus! {

/// A file that a tool works on.
#[derive(Debug)]
pub struct ToolLocation {
    pub path: String,
    /// The last part of the path, where that is a name.
    pub file_name: Option<String>,
}

/// The text without its end where it is longer than `max_len` characters, which an
/// ellipsis then stands for.
pub open spec fn truncated(s: Seq<char>, max_len: nat) -> Seq<char> {
    if s.len() > max_len {
        s.take(max_len - 3).push('…')
    } else {
        s
    }
}

/// Truncate a string to `max_len` characters, appending `…` if truncated.
pub fn truncate_display(s: &str, max_len: usize) -> (text: String)
    requires
        max_len >= 3 || s@.len() <= max_len,
    ensures
        text@ == truncated(s@, max_len as nat),
{
    let v = chars_of(s);
    if v.len() > max_len {
        let mut text = substring(&v, 0, max_len - 3);
        text.push('…');
        assert(text@ =~= truncated(s@, max_len as nat));
        text
    } else {
        s.to_string()
    }
}

/// How a file is called: by its name, or by its path where that ends in none.
pub open spec fn short_name(location: ToolLocation) -> Seq<char> {
    match location.file_name {
        Some(name) => name@,
        None => location.path@,
    }
}

pub open spec fn short_names(locations: Seq<ToolLocation>) -> Seq<Seq<char>> {
    Seq::new(locations.len(), |i: int| short_name(locations[i]))
}

/// The texts and numbers among the values of the first `n` entries.
pub open spec fn simple_values(entries: Seq<JsonEntry>, n: int) -> Seq<Seq<char>>
    decreases n,
{
    if n <= 0 {
        Seq::empty()
    } else {
        let before = simple_values(entries, n - 1);
        match entries[n - 1].value {
            Json::Text(text) => before.push(text@),
            Json::Number(number) => before.push(number@),
            _ => before,
        }
    }
}

/// The most characters that the input of a tool is shown with.
pub const INPUT_WIDTH: usize = 60;

/// How the input of a tool is shown: by the names of its files, else by the texts and
/// numbers of its input, else not at all.
pub open spec fn shown_input(raw_input: Option<Json>, locations: Seq<ToolLocation>) -> Seq<char> {
    if locations.len() > 0 {
        truncated(join(short_names(locations), ", "@), INPUT_WIDTH as nat)
    } else {
        match raw_input {
            Some(Json::Object(entries)) => {
                let values = simple_values(entries@, entries@.len() as int);
                if values.len() > 0 {
                    truncated(join(values, ", "@), INPUT_WIDTH as nat)
                } else {
                    Seq::empty()
                }
            },
            _ => Seq::empty(),
        }
    }
}

fn names_of(locations: &Vec<ToolLocation>) -> (names: Vec<String>)
    ensures
        views(names@) == short_names(locations@),
{
    let mut names: Vec<String> = Vec::new();
    let ghost all = short_names(locations@);
    let mut i: usize = 0;
    assert(views(names@) =~= all.take(0));
    while i < locations.len()
        invariant
            i <= locations.len(),
            all == short_names(locations@),
            views(names@) == all.take(i as int),
        decreases locations.len() - i,
    {
        let ghost before = names@;
        let name = match &locations[i].file_name {
            Some(name) => name.clone(),
            None => locations[i].path.clone(),
        };
        names.push(name);
        assert(views(names@) =~= views(before).push(name@));
        assert(all.take(i + 1) =~= all.take(i as int).push(all[i as int]));
        i += 1;
    }
    assert(all.take(all.len() as int) =~= all);
    names
}

fn values_of(entries: &Vec<JsonEntry>) -> (values: Vec<String>)
    ensures
        views(values@) == simple_values(entries@, entries@.len() as int),
{
    let mut values: Vec<String> = Vec::new();
    let mut i: usize = 0;
    assert(views(values@) =~= Seq::empty());
    while i < entries.len()
        invariant
            i <= entries.len(),
            views(values@) == simple_values(entries@, i as int),
        decreases entries.len() - i,
    {
        let ghost before = values@;
        match &entries[i].value {
            Json::Text(text) => {
                values.push(text.clone());
                assert(views(values@) =~= views(before).push(text@));
            },
            Json::Number(number) => {
                values.push(number.clone());
                assert(views(values@) =~= views(before).push(number@));
            },
            _ => {},
        }
        i += 1;
    }
    values
}

/// Format tool input for display — prefers file locations, falls back to
/// raw input object values.  Returns an empty string when nothing useful.
pub fn format_tool_input(raw_input: &Option<Json>, locations: &Vec<ToolLocation>) -> (text: String)
    ensures
        text@ == shown_input(*raw_input, locations@),
{
    if locations.len() > 0 {
        let names = names_of(locations);
        return truncate_display(join_strings(&names, ", ").as_str(), INPUT_WIDTH);
    }
    if let Some(Json::Object(entries)) = raw_input {
        let values = values_of(entries);
        assert(views(values@).len() == values@.len());
        if values.len() > 0 {
            return truncate_display(join_strings(&values, ", ").as_str(), INPUT_WIDTH);
        }
    }
    let text = String::new();
    assert(text@ =~= Seq::empty());
    text
}

/// The text that is shown of a tool's input has at most sixty characters.
pub proof fn law_shown_input_is_short(raw_input: Option<Json>, locations: Seq<ToolLocation>)
    ensures
        shown_input(raw_input, locations).len() <= INPUT_WIDTH,
{
}

/// The paths of the files, as they are written.
pub open spec fn paths_view(locations: Seq<ToolLocation>) -> Seq<Seq<char>> {
    Seq::new(locations.len(), |i: int| locations[i].path@)
}

pub fn paths_of(locations: &Vec<ToolLocation>) -> (paths: Vec<String>)
    ensures
        views(paths@) == paths_view(locations@),
{
    let mut paths: Vec<String> = Vec::new();
    let ghost all = paths_view(locations@);
    let mut i: usize = 0;
    assert(views(paths@) =~= all.take(0));
    while i < locations.len()
        invariant
            i <= locations.len(),
            all == paths_view(locations@),
            views(paths@) == all.take(i as int),
        decreases locations.len() - i,
    {
        let ghost before = paths@;
        paths.push(locations[i].path.clone());
        assert(views(paths@) =~= views(before).push(all[i as int]));
        assert(all.take(i + 1) =~= all.take(i as int).push(all[i as int]));
        i += 1;
    }
    assert(all.take(all.len() as int) =~= all);
    paths
}

/// The files of a call: its locations, and the file that its input names where that
/// is none of them.
pub open spec fn call_paths(locations: Seq<ToolLocation>, raw_input: Option<Json>) -> Seq<
    Seq<char>,
> {
    let paths = paths_view(locations);
    match raw_input {
        Some(json) => match text_member(json, "file_path"@) {
            Some(path) => if paths.contains(path) {
                paths
            } else {
                paths.push(path)
            },
            None => paths,
        },
        None => paths,
    }
}

fn holds(paths: &Vec<String>, path: &str) -> (b: bool)
    ensures
        b == views(paths@).contains(path@),
{
    let ghost all = views(paths@);
    let mut i: usize = 0;
    while i < paths.len()
        invariant
            i <= paths.len(),
            all == views(paths@),
            forall|k: int| 0 <= k < i ==> #[trigger] all[k] != path@,
        decreases paths.len() - i,
    {
        assert(all[i as int] == paths@[i as int]@);
        if same(paths[i].as_str(), path) {
            return true;
        }
        i += 1;
    }
    false
}

pub fn paths_of_call(locations: &Vec<ToolLocation>, raw_input: &Option<Json>) -> (paths: Vec<String>)
    ensures
        views(paths@) == call_paths(locations@, *raw_input),
{
    let mut paths = paths_of(locations);
    if let Some(json) = raw_input {
        if let Some(path) = json.get_text("file_path") {
            if !holds(&paths, path) {
                let ghost before = paths@;
                paths.push(path.to_string());
                assert(views(paths@) =~= views(before).push(path@));
            }
        }
    }
    paths
}

/// A block of what an agent says.
#[derive(Debug)]
pub enum Content {
    Text(String),
    Other,
}

/// A piece of what a tool gives out.
#[derive(Debug)]
pub enum ToolContent {
    Content(Content),
    /// A change of the file with this path.
    Diff(String),
    Other,
}

/// The text of a piece, if it has any.
pub open spec fn piece_text(content: ToolContent) -> Option<Seq<char>> {
    match content {
        ToolContent::Content(Content::Text(text)) => Some(text@),
        ToolContent::Diff(path) => Some("~ "@ + path@),
        _ => None,
    }
}

/// The lines of the first `n` pieces of a tool's output.
pub open spec fn output_lines(content: Seq<ToolContent>, n: int) -> Seq<Seq<char>>
    decreases n,
{
    if n <= 0 {
        Seq::empty()
    } else {
        let before = output_lines(content, n - 1);
        match piece_text(content[n - 1]) {
            Some(text) => before + lines(text),
            None => before,
        }
    }
}

pub fn lines_of_output(content: &Vec<ToolContent>) -> (out: Vec<String>)
    ensures
        views(out@) == output_lines(content@, content@.len() as int),
{
    let mut out: Vec<String> = Vec::new();
    let mut i: usize = 0;
    assert(views(out@) =~= Seq::empty());
    while i < content.len()
        invariant
            i <= content.len(),
            views(out@) == output_lines(content@, i as int),
        decreases content.len() - i,
    {
        let text: Option<String> = match &content[i] {
            ToolContent::Content(Content::Text(text)) => Some(text.clone()),
            ToolContent::Diff(path) => {
                let mut text = "~ ".to_string();
                text.append(path.as_str());
                Some(text)
            },
            _ => None,
        };
        if let Some(text) = text {
            let ghost before = out@;
            let mut added = lines_of(text.as_str());
            let ghost more = added@;
            out.append(&mut added);
            assert(out@ =~= before + more);
            assert(views(out@) =~= views(before) + views(more));
        }
        i += 1;
    }
    out
}

/// A text that is too long is cut so that an ellipsis stands for its end; any other one
/// stays as it is.
pub proof fn law_truncated_text_is_a_start(s: Seq<char>, max_len: nat)
    requires
        max_len >= 3,
    ensures
        s.len() <= max_len ==> truncated(s, max_len) == s,
        s.len() > max_len ==> {
            let short = truncated(s, max_len);
            &&& short.len() == max_len - 2
            &&& short[short.len() - 1] == '…'
            &&& forall|i: int| 0 <= i < short.len() - 1 ==> short[i] == s[i]
        },
{
}

/// The input of a tool is shown by all texts and numbers of its input in their order.
pub proof fn law_input_shows_texts_and_numbers(entries: Seq<JsonEntry>)
    ensures
        simple_values(entries, entries.len() as int) == entries.filter(
            |e: JsonEntry| e.value is Text || e.value is Number,
        ).map_values(
            |e: JsonEntry|
                match e.value {
                    Json::Text(text) => text@,
                    Json::Number(number) => number@,
                    _ => Seq::empty(),
                },
        ),
{
    lemma_simple_values(entries, entries.len() as int);
    assert(entries.take(entries.len() as int) =~= entries);
}

proof fn lemma_simple_values(entries: Seq<JsonEntry>, n: int)
    requires
        0 <= n <= entries.len(),
    ensures
        simple_values(entries, n) == entries.take(n).filter(
            |e: JsonEntry| e.value is Text || e.value is Number,
        ).map_values(
            |e: JsonEntry|
                match e.value {
                    Json::Text(text) => text@,
                    Json::Number(number) => number@,
                    _ => Seq::empty(),
                },
        ),
    decreases n,
{
    reveal(Seq::filter);
    let simple = |e: JsonEntry| e.value is Text || e.value is Number;
    let shown = |e: JsonEntry|
        match e.value {
            Json::Text(text) => text@,
            Json::Number(number) => number@,
            _ => Seq::empty(),
        };
    if n > 0 {
        lemma_simple_values(entries, n - 1);
        assert(entries.take(n).drop_last() =~= entries.take(n - 1));
        let a = entries.take(n - 1).filter(simple);
        let e = entries[n - 1];
        assert(a.push(e).map_values(shown) =~= a.map_values(shown).push(shown(e)));
    }
    assert(simple_values(entries, n) =~= entries.take(n).filter(simple).map_values(shown));
}

/// The output of a tool is that of its pieces, one after the other: the lines of a text,
/// and the path of a file that was changed. Other pieces show nothing.
pub proof fn law_output_is_that_of_all_pieces(content: Seq<ToolContent>, piece: ToolContent)
    ensures
        output_lines(Seq::empty(), 0) == Seq::<Seq<char>>::empty(),
        output_lines(content.push(piece), content.len() as int + 1) == output_lines(
            content,
            content.len() as int,
        ) + match piece {
            ToolContent::Content(Content::Text(text)) => lines(text@),
            ToolContent::Diff(path) => lines("~ "@ + path@),
            _ => Seq::empty(),
        },
{
    lemma_output_prefix(content, content.push(piece), content.len() as int);
    let before = output_lines(content, content.len() as int);
    assert(before + Seq::<Seq<char>>::empty() =~= before);
}

proof fn lemma_output_prefix(a: Seq<ToolContent>, b: Seq<ToolContent>, n: int)
    requires
        n <= a.len() <= b.len(),
        forall|i: int| 0 <= i < n ==> a[i] == b[i],
    ensures
        output_lines(a, n) == output_lines(b, n),
    decreases n,
{
    if n > 0 {
        lemma_output_prefix(a, b, n - 1);
    }
}

/// The files of a call are all its locations in their order, and the file of its input,
/// which is not named twice.
pub proof fn law_call_names_each_file(locations: Seq<ToolLocation>, raw_input: Option<Json>)
    ensures
        ({
            let paths = call_paths(locations, raw_input);
            &&& locations.len() <= paths.len() <= locations.len() + 1
            &&& forall|i: int|
                0 <= i < locations.len() ==> paths[i] == (#[trigger] locations[i]).path@
            &&& raw_input matches Some(json) ==> (text_member(json, "file_path"@) matches Some(path)
                ==> paths.contains(path) && (paths.len() > locations.len() ==> paths.last() == path
                && forall|i: int|
                0 <= i < locations.len() ==> (#[trigger] locations[i]).path@ != path))
            &&& (raw_input is None || text_member(raw_input->0, "file_path"@) is None)
                ==> paths.len() == locations.len()
        }),
{
    let given = paths_view(locations);
    let paths = call_paths(locations, raw_input);
    if let Some(json) = raw_input {
        if let Some(path) = text_member(json, "file_path"@) {
            if !given.contains(path) {
                assert(paths[given.len() as int] == path);
                assert forall|i: int| 0 <= i < locations.len() implies (
                #[trigger] locations[i]).path@ != path by {
                    assert(given[i] == locations[i].path@);
                    assert(given.contains(given[i]));
                }
            }
        }
    }
}

/// The input of a tool is shown by the names of its files, or by their paths where these
/// end in no name; without files by the texts and numbers in it; and else not at all. Long
/// inputs are cut.
pub proof fn law_input_is_shown_by_its_files(
    raw_input: Option<Json>,
    locations: Seq<ToolLocation>,
)
    ensures
        ({
            let names = locations.map_values(
                |l: ToolLocation|
                    match l.file_name {
                        Some(name) => name@,
                        None => l.path@,
                    },
            );
            let all = join(names, ", "@);
            &&& locations.len() > 0 && all.len() <= INPUT_WIDTH ==> shown_input(
                raw_input,
                locations,
            ) == all
            &&& locations.len() > 0 && all.len() > INPUT_WIDTH ==> shown_input(raw_input, locations)
                == truncated(all, INPUT_WIDTH as nat)
        }),
        raw_input is None && locations.len() == 0 ==> shown_input(raw_input, locations).len() == 0,
        locations.len() == 0 && (raw_input matches Some(json) && !(json is Object)) ==> shown_input(
            raw_input,
            locations,
        ).len() == 0,
{
    let names = locations.map_values(
        |l: ToolLocation|
            match l.file_name {
                Some(name) => name@,
                None => l.path@,
            },
    );
    assert(short_names(locations) =~= names);
}

} // verus!
