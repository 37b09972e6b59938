//! What the editor knows of an agent.

use vstd::prelude::*;

use crate::text::same;

verus! {

/// The handle of an agent. Agents that were started later have greater ones.
#[derive(Clone, Copy, Debug, PartialEq, Eq, Structural)]
pub struct AgentId(pub u64);

pub open spec fn text_view(text: Option<String>) -> Option<Seq<char>> {
    match text {
        Some(text) => Some(text@),
        None => None,
    }
}

/// A value that a session option can be set to.
#[derive(Debug)]
pub struct Choice {
    pub value: String,
    pub name: String,
    pub description: Option<String>,
}

/// What a choice is.
pub ghost struct ChoiceView {
    pub value: Seq<char>,
    pub name: Seq<char>,
    pub description: Option<Seq<char>>,
}

impl View for Choice {
    type V = ChoiceView;

    open spec fn view(&self) -> ChoiceView {
        ChoiceView {
            value: self.value@,
            name: self.name@,
            description: text_view(self.description),
        }
    }
}

/// The choices of an option, in groups or not.
#[derive(Debug)]
pub enum SelectOptions {
    Ungrouped(Vec<Choice>),
    Grouped(Vec<Vec<Choice>>),
    Other,
}

/// An option that is set to one of a number of choices.
#[derive(Debug)]
pub struct ConfigSelect {
    pub current_value: String,
    pub options: SelectOptions,
}

#[derive(Debug)]
pub enum ConfigKind {
    Select(ConfigSelect),
    Other,
}

/// An option of a session, such as its model or its mode.
#[derive(Debug)]
pub struct ConfigOption {
    pub id: String,
    pub kind: ConfigKind,
}

/// A command that the agent offers.
#[derive(Debug)]
pub struct AgentCommand {
    pub name: String,
    pub description: String,
    /// More text is to follow the name.
    pub takes_input: bool,
}

/// An entry of the conversation with an agent.
#[derive(Debug)]
pub enum DisplayLine {
    /// What the agent says, in Markdown.
    Text(String),
    /// What the agent thinks, in Markdown.
    Thought(String),
    /// A tool that is running.
    ToolCall { name: String, input: String },
    /// A tool that has run.
    ToolDone { name: String, input: String, status: String, output: Vec<String> },
    PlanStep { done: bool, description: String },
    UserMessage(String),
    Separator,
}

/// What a session has used up.
#[derive(Debug)]
pub struct SessionUsage {
    pub context_used: u64,
    pub context_size: u64,
    pub total_used: u64,
    /// The hundredths of the context that are used.
    pub percent: u64,
    /// The cost with its currency, where either is known.
    pub cost: Option<String>,
}

impl SessionUsage {
    /// The usage of a session that has not begun.
    pub fn none() -> (usage: SessionUsage)
        ensures
            usage == (SessionUsage {
                context_used: 0,
                context_size: 0,
                total_used: 0,
                percent: 0,
                cost: None,
            }),
    {
        SessionUsage { context_used: 0, context_size: 0, total_used: 0, percent: 0, cost: None }
    }
}

/// What is known of a running agent.
#[derive(Debug)]
pub struct AgentClient {
    pub id: AgentId,
    pub name: String,
    /// The session, once it is open.
    pub session_id: Option<String>,
    pub current_mode: Option<String>,
    pub config_options: Vec<ConfigOption>,
    pub usage: SessionUsage,
    /// The conversation so far.
    pub display: Vec<DisplayLine>,
    /// The agent is at work on a prompt.
    pub is_prompting: bool,
    pub available_commands: Vec<AgentCommand>,
    /// A command that was picked from the menu of commands.
    pub pending_command: Option<String>,
    /// The agent goes on without being asked to.
    pub auto_continue: bool,
    /// Its edits are made without asking.
    pub auto_accept_edits: bool,
    /// The files of edits that have not been made yet.
    pub pending_edits: Vec<String>,
    /// The answer that is sent once the context is clean.
    pub pending_clean_context: Option<String>,
}

pub open spec fn choices_view(choices: Seq<Choice>) -> Seq<ChoiceView> {
    Seq::new(choices.len(), |i: int| choices[i]@)
}

/// The choices of the first `n` groups, one after the other.
pub open spec fn grouped_choices(groups: Seq<Vec<Choice>>, n: int) -> Seq<ChoiceView>
    decreases n,
{
    if n <= 0 {
        Seq::empty()
    } else {
        grouped_choices(groups, n - 1) + choices_view(groups[n - 1]@)
    }
}

/// All choices of an option.
pub open spec fn all_choices(options: SelectOptions) -> Seq<ChoiceView> {
    match options {
        SelectOptions::Ungrouped(choices) => choices_view(choices@),
        SelectOptions::Grouped(groups) => grouped_choices(groups@, groups@.len() as int),
        SelectOptions::Other => Seq::empty(),
    }
}

/// The option has the name and is set to one of a number of choices.
pub open spec fn selects(option: ConfigOption, id: Seq<char>) -> bool {
    option.id@ == id && option.kind is Select
}

/// The first of the options from `k` on that has the name and has choices.
pub open spec fn select_from(options: Seq<ConfigOption>, id: Seq<char>, k: int) -> Option<
    ConfigSelect,
>
    decreases options.len() - k,
{
    if k < 0 || k >= options.len() {
        None
    } else if selects(options[k], id) {
        Some(options[k].kind->Select_0)
    } else {
        select_from(options, id, k + 1)
    }
}

pub fn find_select<'a>(options: &'a Vec<ConfigOption>, id: &str) -> (select: Option<
    &'a ConfigSelect,
>)
    ensures
        match select_from(options@, id@, 0) {
            Some(found) => select == Some(&found),
            None => select is None,
        },
{
    let mut k: usize = 0;
    while k < options.len()
        invariant
            k <= options.len(),
            select_from(options@, id@, 0) == select_from(options@, id@, k as int),
        decreases options.len() - k,
    {
        if same(options[k].id.as_str(), id) {
            if let ConfigKind::Select(select) = &options[k].kind {
                return Some(select);
            }
        }
        k += 1;
    }
    None
}

pub fn copied_text(text: &Option<String>) -> (copy: Option<String>)
    ensures
        text_view(copy) == text_view(*text),
{
    match text {
        Some(text) => Some(text.clone()),
        None => None,
    }
}

fn push_choices(out: &mut Vec<Choice>, choices: &Vec<Choice>)
    ensures
        choices_view(final(out)@) == choices_view(old(out)@) + choices_view(choices@),
{
    let ghost start = choices_view(out@);
    let ghost all = choices_view(choices@);
    let mut i: usize = 0;
    assert(start =~= start + all.take(0));
    while i < choices.len()
        invariant
            i <= choices.len(),
            all == choices_view(choices@),
            choices_view(out@) == start + all.take(i as int),
        decreases choices.len() - i,
    {
        let choice = &choices[i];
        let ghost before = out@;
        out.push(
            Choice {
                value: choice.value.clone(),
                name: choice.name.clone(),
                description: copied_text(&choice.description),
            },
        );
        assert(choices_view(out@) =~= choices_view(before).push(all[i as int]));
        assert(all.take(i + 1) =~= all.take(i as int).push(all[i as int]));
        assert(choices_view(out@) =~= start + all.take(i + 1));
        i += 1;
    }
    assert(all.take(all.len() as int) =~= all);
}

/// The choices of an option in one list.
pub fn flat_choices(options: &SelectOptions) -> (out: Vec<Choice>)
    ensures
        choices_view(out@) == all_choices(*options),
{
    let mut out: Vec<Choice> = Vec::new();
    assert(choices_view(out@) =~= Seq::empty());
    match options {
        SelectOptions::Ungrouped(choices) => {
            push_choices(&mut out, choices);
            assert(choices_view(out@) =~= choices_view(choices@));
        },
        SelectOptions::Grouped(groups) => {
            let mut g: usize = 0;
            while g < groups.len()
                invariant
                    g <= groups.len(),
                    choices_view(out@) == grouped_choices(groups@, g as int),
                decreases groups.len() - g,
            {
                push_choices(&mut out, &groups[g]);
                g += 1;
            }
        },
        SelectOptions::Other => {},
    }
    out
}

/// The value that an option is set to.
pub open spec fn current_label(options: Seq<ConfigOption>, id: Seq<char>) -> Option<Seq<char>> {
    match select_from(options, id, 0) {
        Some(select) => Some(select.current_value@),
        None => None,
    }
}

pub fn config_option_current_label(options: &Vec<ConfigOption>, option_id: &str) -> (label: Option<
    String,
>)
    ensures
        text_view(label) == current_label(options@, option_id@),
{
    match find_select(options, option_id) {
        Some(select) => Some(select.current_value.clone()),
        None => None,
    }
}

/// The name of the first of the choices from `k` on that has the value, or the value
/// itself.
pub open spec fn name_of_value(choices: Seq<ChoiceView>, value: Seq<char>, k: int) -> Seq<char>
    decreases choices.len() - k,
{
    if k < 0 || k >= choices.len() {
        value
    } else if choices[k].value == value {
        choices[k].name
    } else {
        name_of_value(choices, value, k + 1)
    }
}

/// What a value of an option is called.
pub open spec fn label_for_value(
    options: Seq<ConfigOption>,
    id: Seq<char>,
    value: Seq<char>,
) -> Option<Seq<char>> {
    match select_from(options, id, 0) {
        Some(select) => Some(name_of_value(all_choices(select.options), value, 0)),
        None => None,
    }
}

/// Look up the display name for `value` within the Select option identified by `option_id`.
/// Unlike `config_option_current_label`, this does not rely on the stored `current_value`.
pub fn find_label_for_value(
    options: &Vec<ConfigOption>,
    option_id: &str,
    value: &str,
) -> (label: Option<String>)
    ensures
        text_view(label) == label_for_value(options@, option_id@, value@),
{
    let select = match find_select(options, option_id) {
        Some(select) => select,
        None => {
            return None;
        },
    };
    let choices = flat_choices(&select.options);
    let ghost all = choices_view(choices@);
    let mut k: usize = 0;
    while k < choices.len()
        invariant
            k <= choices.len(),
            all == choices_view(choices@),
            name_of_value(all, value@, 0) == name_of_value(all, value@, k as int),
            label_for_value(options@, option_id@, value@) == Some(name_of_value(all, value@, 0)),
        decreases choices.len() - k,
    {
        assert(all[k as int] == choices@[k as int]@);
        if same(choices[k].value.as_str(), value) {
            return Some(choices[k].name.clone());
        }
        k += 1;
    }
    Some(value.to_string())
}

/// An option is the first with its name that has choices.
pub proof fn law_option_is_the_first_with_its_name(options: Seq<ConfigOption>, id: Seq<char>)
    ensures
        match select_from(options, id, 0) {
            Some(select) => exists|i: int|
                0 <= i < options.len() && (#[trigger] options[i]).id@ == id && options[i].kind
                    == ConfigKind::Select(select) && forall|k: int|
                    0 <= k < i ==> !((#[trigger] options[k]).id@ == id && options[k].kind is Select),
            None => forall|k: int|
                0 <= k < options.len() ==> !((#[trigger] options[k]).id@ == id
                    && options[k].kind is Select),
        },
        current_label(options, id) == match select_from(options, id, 0) {
            Some(select) => Some(select.current_value@),
            None => None,
        },
{
    lemma_select_from(options, id, 0);
}

proof fn lemma_select_from(options: Seq<ConfigOption>, id: Seq<char>, from: int)
    requires
        0 <= from,
    ensures
        match select_from(options, id, from) {
            Some(select) => exists|i: int|
                from <= i < options.len() && (#[trigger] options[i]).id@ == id && options[i].kind
                    == ConfigKind::Select(select) && forall|k: int|
                    from <= k < i ==> !((#[trigger] options[k]).id@ == id
                        && options[k].kind is Select),
            None => forall|k: int|
                from <= k < options.len() ==> !((#[trigger] options[k]).id@ == id
                    && options[k].kind is Select),
        },
    decreases options.len() - from,
{
    if from < options.len() {
        if selects(options[from], id) {
            assert(options[from].id@ == id);
        } else {
            lemma_select_from(options, id, from + 1);
        }
    }
}

/// A value is called by the name of the first choice that has it, or by itself where none
/// has it.
pub proof fn law_value_is_called_by_its_choice(choices: Seq<ChoiceView>, value: Seq<char>)
    ensures
        (exists|i: int|
            0 <= i < choices.len() && (#[trigger] choices[i]).value == value && choices[i].name
                == name_of_value(choices, value, 0) && forall|k: int|
                0 <= k < i ==> (#[trigger] choices[k]).value != value) || (name_of_value(
            choices,
            value,
            0,
        ) == value && forall|k: int|
            0 <= k < choices.len() ==> (#[trigger] choices[k]).value != value),
{
    lemma_name_of_value(choices, value, 0);
}

proof fn lemma_name_of_value(choices: Seq<ChoiceView>, value: Seq<char>, from: int)
    requires
        0 <= from,
    ensures
        (exists|i: int|
            from <= i < choices.len() && (#[trigger] choices[i]).value == value && choices[i].name
                == name_of_value(choices, value, from) && forall|k: int|
                from <= k < i ==> (#[trigger] choices[k]).value != value) || (name_of_value(
            choices,
            value,
            from,
        ) == value && forall|k: int|
            from <= k < choices.len() ==> (#[trigger] choices[k]).value != value),
    decreases choices.len() - from,
{
    if from < choices.len() {
        if choices[from].value == value {
        } else {
            lemma_name_of_value(choices, value, from + 1);
        }
    }
}

/// The choices of an option in groups are those of all groups, one group after the other.
pub proof fn law_groups_are_shown_one_after_the_other(groups: Seq<Vec<Choice>>)
    ensures
        grouped_choices(groups, groups.len() as int) == Seq::new(
            groups.len(),
            |i: int| choices_view(groups[i]@),
        ).flatten(),
    decreases groups.len(),
{
    let all = Seq::new(groups.len(), |i: int| choices_view(groups[i]@));
    all.lemma_flatten_and_flatten_alt_are_equivalent();
    lemma_grouped(groups, groups.len() as int);
    assert(all.take(groups.len() as int) =~= all);
}

proof fn lemma_grouped(groups: Seq<Vec<Choice>>, n: int)
    requires
        0 <= n <= groups.len(),
    ensures
        grouped_choices(groups, n) == Seq::new(
            groups.len(),
            |i: int| choices_view(groups[i]@),
        ).take(n).flatten_alt(),
    decreases n,
{
    let all = Seq::new(groups.len(), |i: int| choices_view(groups[i]@));
    if n > 0 {
        lemma_grouped(groups, n - 1);
        assert(all.take(n).drop_last() =~= all.take(n - 1));
    }
}

/// What an option is set to is the value of the first option of that name that has choices;
/// the choices of an option are all of them, in groups or not.
pub proof fn law_value_of_an_option_is_that_of_the_first(
    options: Seq<ConfigOption>,
    id: Seq<char>,
    choices: Vec<Choice>,
    i: int,
)
    requires
        0 <= i < options.len(),
        options[i].id@ == id,
        options[i].kind is Select,
        forall|k: int|
            0 <= k < i ==> (#[trigger] options[k]).id@ != id || !(options[k].kind is Select),
    ensures
        current_label(options, id) == Some(options[i].kind->Select_0.current_value@),
        all_choices(SelectOptions::Ungrouped(choices)) == choices@.map_values(
            |c: Choice|
                ChoiceView { value: c.value@, name: c.name@, description: text_view(c.description) },
        ),
        all_choices(SelectOptions::Other).len() == 0,
{
    lemma_select_at(options, id, 0, i);
    assert(choices_view(choices@) =~= choices@.map_values(
        |c: Choice|
            ChoiceView { value: c.value@, name: c.name@, description: text_view(c.description) },
    ));
}

proof fn lemma_select_at(options: Seq<ConfigOption>, id: Seq<char>, k: int, i: int)
    requires
        0 <= k <= i < options.len(),
        selects(options[i], id),
        forall|j: int|
            k <= j < i ==> (#[trigger] options[j]).id@ != id || !(options[j].kind is Select),
    ensures
        select_from(options, id, k) == Some(options[i].kind->Select_0),
    decreases i - k,
{
    if k < i {
        lemma_select_at(options, id, k + 1, i);
    }
}

} // verus!
