//! The title of the agent panel.

use vstd::prelude::*;

use crate::acp::client::{config_option_current_label, current_label, find_label_for_value};
use crate::acp::client::{label_for_value, text_view, AgentId, ConfigOption, SessionUsage};
use crate::text::{
    chars_of, decimal, decimal_of, join, join_strings, law_joining_goes_part_by_part, same, substring,
    views,
};
use crate::ui::agent::tokens::{compact, fmt_tokens};

verus! {

/// How many of the first `n` agents come before `id`, of those that have a session.
pub open spec fn sessions_before(agents: Seq<(AgentId, bool)>, id: AgentId, n: int) -> nat
    decreases n,
{
    if n <= 0 {
        0
    } else {
        sessions_before(agents, id, n - 1) + if agents[n - 1].1 && agents[n - 1].0.0 < id.0 {
            1nat
        } else {
            0nat
        }
    }
}

/// The agent has a session.
pub open spec fn has_session(agents: Seq<(AgentId, bool)>, id: AgentId) -> bool {
    exists|i: int| 0 <= i < agents.len() && #[trigger] agents[i] == (id, true)
}

/// The place of an agent among those with a session, in the order of their handles,
/// counted from zero. Each agent stands with whether it has a session.
pub fn session_index(agents: &Vec<(AgentId, bool)>, id: AgentId) -> (index: Option<usize>)
    ensures
        index is Some <==> has_session(agents@, id),
        index matches Some(index) ==> index == sessions_before(
            agents@,
            id,
            agents@.len() as int,
        ) && index < agents.len(),
{
    let mut found = false;
    let mut before: usize = 0;
    let mut i: usize = 0;
    while i < agents.len()
        invariant
            i <= agents.len(),
            before == sessions_before(agents@, id, i as int),
            before + (if found {
                1int
            } else {
                0
            }) <= i,
            found <==> exists|k: int| 0 <= k < i && #[trigger] agents@[k] == (id, true),
        decreases agents.len() - i,
    {
        let (other, active) = agents[i];
        if active && other.0 < id.0 {
            before += 1;
        }
        if active && other == id {
            assert(agents@[i as int] == (id, true));
            found = true;
        }
        i += 1;
    }
    if found {
        Some(before)
    } else {
        None
    }
}

/// The short name of a mode that the agent gives no name for.
pub open spec fn known_mode(mode: Seq<char>) -> Seq<char> {
    if mode == "plan"@ || mode == "planMode"@ {
        "plan"@
    } else if mode == "default"@ || mode == "edit"@ || mode == "editMode"@ {
        "edit"@
    } else if mode == "auto"@ || mode == "acceptEdits"@ || mode == "accept_edits"@ {
        "edit"@
    } else {
        mode
    }
}

fn short_mode(mode: &str) -> (name: String)
    ensures
        name@ == known_mode(mode@),
{
    if same(mode, "plan") || same(mode, "planMode") {
        "plan".to_string()
    } else if same(mode, "default") || same(mode, "edit") || same(mode, "editMode") {
        "edit".to_string()
    } else if same(mode, "auto") || same(mode, "acceptEdits") || same(mode, "accept_edits") {
        "edit".to_string()
    } else {
        mode.to_string()
    }
}

/// What the mode is called: what the agent calls the mode it is in, else the value
/// that the option is set to, else a short name of its own.
pub open spec fn mode_name(options: Seq<ConfigOption>, mode: Option<Seq<char>>) -> Option<
    Seq<char>,
> {
    match mode {
        Some(mode) => match label_for_value(options, "mode"@, mode) {
            Some(label) => Some(label),
            None => match current_label(options, "mode"@) {
                Some(label) => Some(label),
                None => Some(known_mode(mode)),
            },
        },
        None => current_label(options, "mode"@),
    }
}

fn mode_label(options: &Vec<ConfigOption>, current_mode: &Option<String>) -> (label: Option<String>)
    ensures
        text_view(label) == mode_name(options@, text_view(*current_mode)),
{
    match current_mode {
        Some(mode) => {
            let label = find_label_for_value(options, "mode", mode.as_str());
            if label.is_some() {
                return label;
            }
            let label = config_option_current_label(options, "mode");
            if label.is_some() {
                return label;
            }
            Some(short_mode(mode.as_str()))
        },
        None => config_option_current_label(options, "mode"),
    }
}

/// Where the first `" ("` of the text from `k` on stands, or the text's end.
pub open spec fn suffix_start(s: Seq<char>, k: int) -> int
    decreases s.len() - k,
{
    if k < 0 || k + 1 >= s.len() {
        s.len() as int
    } else if s[k] == ' ' && s[k + 1] == '(' {
        k
    } else {
        suffix_start(s, k + 1)
    }
}

/// The text without what follows its first `" ("`.
pub open spec fn without_suffix(s: Seq<char>) -> Seq<char> {
    s.take(suffix_start(s, 0))
}

/// Strip parenthetical suffix e.g. "Default (recommended)" → "Default".
pub fn strip_suffix(s: &str) -> (short: String)
    ensures
        short@ == without_suffix(s@),
{
    let v = chars_of(s);
    let mut k: usize = 0;
    while k < v.len() && v.len() - k > 1
        invariant
            k <= v.len(),
            v@ == s@,
            suffix_start(s@, 0) == suffix_start(s@, k as int),
        decreases v.len() - k,
    {
        if v[k] == ' ' && v[k + 1] == '(' {
            let short = substring(&v, 0, k);
            assert(short@ =~= without_suffix(s@));
            return short;
        }
        k += 1;
    }
    assert(s@.take(s@.len() as int) =~= s@);
    s.to_string()
}

pub open spec fn bracketed(s: Seq<char>) -> Seq<char> {
    seq![' ', '['] + s + seq![']']
}

fn push_bracketed(title: &mut String, s: &str)
    ensures
        final(title)@ == old(title)@ + bracketed(s@),
{
    let ghost start = title@;
    title.push(' ');
    title.push('[');
    title.append(s);
    title.push(']');
    assert(title@ =~= start + bracketed(s@));
}

/// The counts of tokens: of the context, its share and how much it may hold, and of
/// the whole session.
pub open spec fn token_part(usage: SessionUsage) -> Option<Seq<char>> {
    let total = compact(usage.total_used as nat);
    if usage.context_size > 0 {
        let context = decimal(usage.percent as nat) + seq!['%', ' '] + compact(
            usage.context_used as nat,
        ) + seq!['/'] + compact(usage.context_size as nat);
        if usage.total_used > 0 {
            Some(context + seq!['/'] + total)
        } else {
            Some(context)
        }
    } else if usage.total_used > 0 {
        Some(total)
    } else {
        None
    }
}

pub open spec fn listed(part: Option<Seq<char>>) -> Seq<Seq<char>> {
    match part {
        Some(part) => seq![part],
        None => Seq::empty(),
    }
}

/// The parts of the usage that are known.
pub open spec fn usage_parts(usage: SessionUsage) -> Seq<Seq<char>> {
    listed(token_part(usage)) + listed(text_view(usage.cost))
}

fn tokens_text(usage: &SessionUsage) -> (text: Option<String>)
    ensures
        text_view(text) == token_part(*usage),
{
    if usage.context_size > 0 {
        let mut text = decimal_of(usage.percent);
        text.push('%');
        text.push(' ');
        text.append(fmt_tokens(usage.context_used).as_str());
        text.push('/');
        text.append(fmt_tokens(usage.context_size).as_str());
        if usage.total_used > 0 {
            text.push('/');
            text.append(fmt_tokens(usage.total_used).as_str());
        }
        assert(Some(text@) =~~= token_part(*usage));
        Some(text)
    } else if usage.total_used > 0 {
        Some(fmt_tokens(usage.total_used))
    } else {
        None
    }
}

/// The title of the panel: the agent's name, its place among the sessions, its
/// model, its mode, and what it has used.
pub open spec fn panel_title(
    name: Seq<char>,
    index: Option<usize>,
    options: Seq<ConfigOption>,
    mode: Option<Seq<char>>,
    usage: SessionUsage,
) -> Seq<char> {
    let parts = usage_parts(usage);
    seq![' '] + name + (match index {
        Some(index) => bracketed(decimal((index + 1) as nat)),
        None => Seq::empty(),
    }) + (match current_label(options, "model"@) {
        Some(label) => bracketed(label),
        None => Seq::empty(),
    }) + (match mode_name(options, mode) {
        Some(mode) => bracketed(without_suffix(mode)),
        None => Seq::empty(),
    }) + (if parts.len() > 0 {
        bracketed(join(parts, seq![' ']))
    } else {
        Seq::empty()
    }) + seq![' ']
}

pub fn title(
    name: &str,
    index: Option<usize>,
    options: &Vec<ConfigOption>,
    current_mode: &Option<String>,
    usage: &SessionUsage,
) -> (title: String)
    requires
        index matches Some(index) ==> index < usize::MAX,
    ensures
        title@ == panel_title(name@, index, options@, text_view(*current_mode), *usage),
{
    let mut title = String::new();
    title.push(' ');
    title.append(name);
    let ghost mut so_far = seq![' '] + name@;
    assert(title@ =~= so_far);
    if let Some(index) = index {
        push_bracketed(&mut title, decimal_of(index as u64 + 1).as_str());
        proof {
            so_far = so_far + bracketed(decimal((index + 1) as nat));
        }
    } else {
        assert(so_far =~= so_far + Seq::<char>::empty());
    }
    if let Some(label) = config_option_current_label(options, "model") {
        push_bracketed(&mut title, label.as_str());
        proof {
            so_far = so_far + bracketed(label@);
        }
    } else {
        assert(so_far =~= so_far + Seq::<char>::empty());
    }
    if let Some(mode) = mode_label(options, current_mode) {
        push_bracketed(&mut title, strip_suffix(mode.as_str()).as_str());
        proof {
            so_far = so_far + bracketed(without_suffix(mode@));
        }
    } else {
        assert(so_far =~= so_far + Seq::<char>::empty());
    }
    let mut parts: Vec<String> = Vec::new();
    assert(views(parts@) =~= Seq::empty());
    if let Some(tokens) = tokens_text(usage) {
        parts.push(tokens);
    }
    assert(views(parts@) =~= listed(token_part(*usage)));
    if let Some(cost) = &usage.cost {
        let ghost before = parts@;
        parts.push(cost.clone());
        assert(views(parts@) =~= views(before).push(cost@));
    }
    assert(views(parts@) =~= usage_parts(*usage));
    assert(views(parts@).len() == parts@.len());
    if parts.len() > 0 {
        proof {
            reveal_strlit(" ");
            assert(" "@ =~= seq![' ']);
        }
        push_bracketed(&mut title, join_strings(&parts, " ").as_str());
        proof {
            so_far = so_far + bracketed(join(usage_parts(*usage), seq![' ']));
        }
    } else {
        assert(so_far =~= so_far + Seq::<char>::empty());
    }
    title.push(' ');
    assert(title@ =~= so_far + seq![' ']);
    title
}

/// The place of an agent among those with a session is the number of those whose handle is
/// smaller.
pub proof fn law_sessions_are_counted_by_handle(agents: Seq<(AgentId, bool)>, id: AgentId)
    ensures
        sessions_before(agents, id, agents.len() as int) == agents.filter(
            |a: (AgentId, bool)| a.1 && (a.0).0 < id.0,
        ).len(),
{
    lemma_sessions_before(agents, id, agents.len() as int);
    assert(agents.take(agents.len() as int) =~= agents);
}

proof fn lemma_sessions_before(agents: Seq<(AgentId, bool)>, id: AgentId, n: int)
    requires
        0 <= n <= agents.len(),
    ensures
        sessions_before(agents, id, n) == agents.take(n).filter(
            |a: (AgentId, bool)| a.1 && (a.0).0 < id.0,
        ).len(),
    decreases n,
{
    reveal(Seq::filter);
    if n > 0 {
        lemma_sessions_before(agents, id, n - 1);
        assert(agents.take(n).drop_last() =~= agents.take(n - 1));
    }
}

/// What follows the first space with a bracket behind it is left out, and nothing else.
pub proof fn law_suffix_is_left_out(short: Seq<char>, rest: Seq<char>)
    requires
        forall|k: int|
            0 <= k < short.len() - 1 ==> !(#[trigger] short[k] == ' ' && short[k + 1] == '('),
    ensures
        without_suffix(short + " ("@ + rest) == short,
        without_suffix(short) == short,
{
    reveal_strlit(" (");
    let whole = short + " ("@ + rest;
    let n = short.len() as int;
    lemma_suffix_start(whole, 0, n);
    assert(whole.take(n) =~= short);
    lemma_suffix_start(short, 0, n);
    assert(short.take(n) =~= short);
}

proof fn lemma_suffix_start(s: Seq<char>, k: int, at: int)
    requires
        0 <= k <= at <= s.len(),
        forall|i: int| k <= i < at && i + 1 < s.len() ==> !(#[trigger] s[i] == ' ' && s[i + 1] == '('),
        at == s.len() || (at + 1 < s.len() && s[at] == ' ' && s[at + 1] == '('),
    ensures
        suffix_start(s, k) == at,
    decreases at - k,
{
    if k < at && k + 1 < s.len() {
        assert(!(s[k] == ' ' && s[k + 1] == '('));
        lemma_suffix_start(s, k + 1, at);
    }
}

/// The title holds what is known, in this order: the name, the place among the sessions
/// counted from one, the model, the mode without its suffix, and what was used, each in
/// brackets behind a space.
pub proof fn law_title_names_what_is_known(
    name: Seq<char>,
    place: usize,
    options: Seq<ConfigOption>,
    mode: Option<Seq<char>>,
    usage: SessionUsage,
)
    requires
        usage.context_size == 0,
        usage.total_used == 0,
        usage.cost is None,
    ensures
        ({
            let model = match current_label(options, "model"@) {
                Some(label) => " ["@ + label + "]"@,
                None => Seq::empty(),
            };
            let shown = match mode_name(options, mode) {
                Some(label) => " ["@ + without_suffix(label) + "]"@,
                None => Seq::empty(),
            };
            &&& panel_title(name, None, options, mode, usage) == " "@ + name + model + shown + " "@
            &&& place < usize::MAX ==> panel_title(name, Some(place), options, mode, usage) == " "@
                + name + " ["@ + decimal((place + 1) as nat) + "]"@ + model + shown + " "@
        }),
{
    reveal_strlit(" ");
    reveal_strlit(" [");
    reveal_strlit("]");
    let model = match current_label(options, "model"@) {
        Some(label) => " ["@ + label + "]"@,
        None => Seq::empty(),
    };
    let shown = match mode_name(options, mode) {
        Some(label) => " ["@ + without_suffix(label) + "]"@,
        None => Seq::empty(),
    };
    assert(usage_parts(usage) =~= Seq::empty());
    assert(panel_title(name, None, options, mode, usage) =~= " "@ + name + model + shown + " "@);
    if place < usize::MAX {
        assert(panel_title(name, Some(place), options, mode, usage) =~= " "@ + name + " ["@
            + decimal((place + 1) as nat) + "]"@ + model + shown + " "@);
    }
}

/// What was used is told in brackets at the end: the share of the context with how much it
/// holds and may hold, then what the session took, then its cost.
pub proof fn law_usage_is_told_at_the_end(
    name: Seq<char>,
    options: Seq<ConfigOption>,
    mode: Option<Seq<char>>,
    usage: SessionUsage,
)
    requires
        usage.context_size > 0,
        usage.total_used > 0,
        usage.cost is Some,
        current_label(options, "model"@) is None,
        mode_name(options, mode) is None,
    ensures
        panel_title(name, None, options, mode, usage) == " "@ + name + " ["@ + decimal(
            usage.percent as nat,
        ) + "% "@ + compact(usage.context_used as nat) + "/"@ + compact(usage.context_size as nat)
            + "/"@ + compact(usage.total_used as nat) + " "@ + usage.cost->0@ + "] "@,
{
    reveal_strlit(" ");
    reveal_strlit(" [");
    reveal_strlit("] ");
    reveal_strlit("% ");
    reveal_strlit("/");
    let parts = usage_parts(usage);
    let tokens = token_part(usage)->0;
    assert(parts =~= seq![tokens, usage.cost->0@]);
    law_joining_goes_part_by_part(seq![tokens], seq![usage.cost->0@], tokens, seq![' ']);
    law_joining_goes_part_by_part(seq![tokens], seq![tokens], usage.cost->0@, seq![' ']);
    assert(parts =~= seq![tokens] + seq![usage.cost->0@]);
    assert(join(parts, seq![' ']) =~= tokens + seq![' '] + usage.cost->0@);
    assert(panel_title(name, None, options, mode, usage) =~= " "@ + name + " ["@ + decimal(
        usage.percent as nat,
    ) + "% "@ + compact(usage.context_used as nat) + "/"@ + compact(usage.context_size as nat)
        + "/"@ + compact(usage.total_used as nat) + " "@ + usage.cost->0@ + "] "@);
}

/// A part of the usage that is not known is left out.
pub proof fn law_unknown_usage_is_left_out(usage: SessionUsage)
    ensures
        usage.context_size == 0 && usage.total_used == 0 ==> token_part(usage) is None,
        usage.context_size == 0 && usage.total_used > 0 ==> token_part(usage) == Some(
            compact(usage.total_used as nat),
        ),
        usage.context_size > 0 && usage.total_used == 0 ==> token_part(usage) == Some(
            decimal(usage.percent as nat) + seq!['%', ' '] + compact(usage.context_used as nat)
                + seq!['/'] + compact(usage.context_size as nat),
        ),
{
}

/// A mode goes by what the agent calls it, else by the option's value, else by its own name;
/// without a mode the option's value is told.
pub proof fn law_mode_goes_by_its_name(options: Seq<ConfigOption>, mode: Seq<char>)
    ensures
        label_for_value(options, "mode"@, mode) is Some ==> mode_name(options, Some(mode))
            == label_for_value(options, "mode"@, mode),
        label_for_value(options, "mode"@, mode) is None && current_label(options, "mode"@) is Some
            ==> mode_name(options, Some(mode)) == current_label(options, "mode"@),
        mode_name(options, None) == current_label(options, "mode"@),
        label_for_value(options, "mode"@, mode) is None && current_label(options, "mode"@) is None
            && (mode == "planMode"@ || mode == "plan"@) ==> mode_name(options, Some(mode)) == Some(
            "plan"@,
        ),
        label_for_value(options, "mode"@, mode) is None && current_label(options, "mode"@) is None
            && (mode == "acceptEdits"@ || mode == "default"@) ==> mode_name(options, Some(mode))
            == Some("edit"@),
{
    reveal_strlit("plan");
    reveal_strlit("planMode");
    reveal_strlit("default");
    reveal_strlit("acceptEdits");
    assert("default"@.len() != "plan"@.len() && "default"@.len() != "planMode"@.len());
    assert("acceptEdits"@.len() != "plan"@.len() && "acceptEdits"@.len() != "planMode"@.len());
}

} // verus!
