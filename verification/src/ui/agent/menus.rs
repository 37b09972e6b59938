//! The menus that the agent panel opens.

use vstd::prelude::*;

use crate::acp::client::{all_choices, choices_view, copied_text, find_select, flat_choices};
use crate::acp::client::{select_from, text_view, AgentCommand, Choice, ChoiceView};
use crate::acp::client::{ConfigOption, DisplayLine};
use crate::text::{chars_of, substring, views};
use crate::ui::multi_menu::MultiMenuItem;

verus! {

/// What an entry of a menu shows.
pub ghost struct ItemView {
    pub label: Seq<char>,
    pub sublabel: Option<Seq<char>>,
}

pub open spec fn item_view(item: MultiMenuItem) -> ItemView {
    ItemView { label: item.label@, sublabel: text_view(item.sublabel) }
}

pub open spec fn items_view(items: Seq<MultiMenuItem>) -> Seq<ItemView> {
    Seq::new(items.len(), |i: int| item_view(items[i]))
}

/// How many commands the panel carries out itself.
pub const BUILTIN_COMMANDS: usize = 2;

/// The commands that the panel carries out itself, and what they do.
pub open spec fn builtin_items() -> Seq<ItemView> {
    seq![
        ItemView { label: "/exit"@, sublabel: Some("End session and close panel"@) },
        ItemView { label: "/clear"@, sublabel: Some("Clear conversation context"@) },
    ]
}

pub open spec fn command_item(command: AgentCommand) -> ItemView {
    ItemView { label: seq!['/'] + command.name@, sublabel: Some(command.description@) }
}

/// The entries of the menu of commands: those of the panel, then those of the agent.
pub open spec fn command_menu(commands: Seq<AgentCommand>) -> Seq<ItemView> {
    builtin_items() + Seq::new(commands.len(), |i: int| command_item(commands[i]))
}

fn slashed(name: &str) -> (text: String)
    ensures
        text@ == seq!['/'] + name@,
{
    let mut text = String::new();
    text.push('/');
    text.append(name);
    assert(text@ =~= seq!['/'] + name@);
    text
}

pub fn command_items(commands: &Vec<AgentCommand>) -> (items: Vec<MultiMenuItem>)
    ensures
        items_view(items@) == command_menu(commands@),
{
    let mut items: Vec<MultiMenuItem> = Vec::new();
    items.push(
        MultiMenuItem {
            label: "/exit".to_string(),
            sublabel: Some("End session and close panel".to_string()),
        },
    );
    items.push(
        MultiMenuItem {
            label: "/clear".to_string(),
            sublabel: Some("Clear conversation context".to_string()),
        },
    );
    let ghost all = command_menu(commands@);
    assert(items_view(items@) =~= all.take(2));
    let mut i: usize = 0;
    while i < commands.len()
        invariant
            i <= commands.len(),
            all == command_menu(commands@),
            items_view(items@) == all.take(2 + i),
        decreases commands.len() - i,
    {
        let command = &commands[i];
        let ghost before = items@;
        items.push(
            MultiMenuItem {
                label: slashed(command.name.as_str()),
                sublabel: Some(command.description.clone()),
            },
        );
        assert(items_view(items@) =~= items_view(before).push(item_view(items@.last())));
        assert(all[2 + i] == command_item(commands@[i as int]));
        assert(all.take(2 + i + 1) =~= all.take(2 + i).push(all[2 + i]));
        i += 1;
    }
    assert(all.take(all.len() as int) =~= all);
    items
}

/// The text that picking a command puts into the input: its name, and a space where
/// more is to follow.
pub open spec fn picked_command(commands: Seq<AgentCommand>, idx: int) -> Option<Seq<char>> {
    if idx == 0 {
        Some("/exit"@)
    } else if idx == 1 {
        Some("/clear"@)
    } else if idx - 2 < commands.len() {
        let command = commands[idx - 2];
        if command.takes_input {
            Some((seq!['/'] + command.name@).push(' '))
        } else {
            Some(seq!['/'] + command.name@)
        }
    } else {
        None
    }
}

pub fn command_text(commands: &Vec<AgentCommand>, idx: usize) -> (text: Option<String>)
    ensures
        text_view(text) == picked_command(commands@, idx as int),
{
    if idx == 0 {
        Some("/exit".to_string())
    } else if idx == 1 {
        Some("/clear".to_string())
    } else if idx - BUILTIN_COMMANDS < commands.len() {
        let command = &commands[idx - BUILTIN_COMMANDS];
        let mut text = slashed(command.name.as_str());
        if command.takes_input {
            text.push(' ');
        }
        Some(text)
    } else {
        None
    }
}

/// The messages of the user among the entries from `k` on, the last of them first.
pub open spec fn user_messages(display: Seq<DisplayLine>, k: int) -> Seq<Seq<char>>
    decreases display.len() - k,
{
    if k < 0 || k >= display.len() {
        Seq::empty()
    } else {
        match display[k] {
            DisplayLine::UserMessage(text) => user_messages(display, k + 1).push(text@),
            _ => user_messages(display, k + 1),
        }
    }
}

/// The messages of the user, the last of them first.
pub fn history(display: &Vec<DisplayLine>) -> (messages: Vec<String>)
    ensures
        views(messages@) == user_messages(display@, 0),
{
    let mut messages: Vec<String> = Vec::new();
    let mut k: usize = display.len();
    assert(views(messages@) =~= Seq::empty());
    while k > 0
        invariant
            k <= display.len(),
            views(messages@) == user_messages(display@, k as int),
        decreases k,
    {
        k -= 1;
        if let DisplayLine::UserMessage(text) = &display[k] {
            let ghost before = messages@;
            messages.push(text.clone());
            assert(views(messages@) =~= views(before).push(text@));
        }
    }
    messages
}

/// The first eighty characters of a message, and an ellipsis where it is longer.
pub open spec fn shortened(message: Seq<char>) -> Seq<char> {
    if message.len() > 80 {
        message.take(80).push('\u{2026}')
    } else {
        message
    }
}

pub fn shorten(message: &str) -> (label: String)
    ensures
        label@ == shortened(message@),
{
    let v = chars_of(message);
    if v.len() > 80 {
        let mut label = substring(&v, 0, 80);
        label.push('\u{2026}');
        assert(label@ =~= shortened(message@));
        label
    } else {
        message.to_string()
    }
}

pub open spec fn history_menu(messages: Seq<Seq<char>>) -> Seq<ItemView> {
    Seq::new(messages.len(), |i: int| ItemView { label: shortened(messages[i]), sublabel: None })
}

pub fn history_items(messages: &Vec<String>) -> (items: Vec<MultiMenuItem>)
    ensures
        items_view(items@) == history_menu(views(messages@)),
{
    let mut items: Vec<MultiMenuItem> = Vec::new();
    let ghost all = history_menu(views(messages@));
    let mut i: usize = 0;
    assert(items_view(items@) =~= all.take(0));
    while i < messages.len()
        invariant
            i <= messages.len(),
            all == history_menu(views(messages@)),
            items_view(items@) == all.take(i as int),
        decreases messages.len() - i,
    {
        let ghost before = items@;
        items.push(MultiMenuItem { label: shorten(messages[i].as_str()), sublabel: None });
        assert(items_view(items@) =~= items_view(before).push(item_view(items@.last())));
        assert(all.take(i + 1) =~= all.take(i as int).push(all[i as int]));
        i += 1;
    }
    assert(all.take(all.len() as int) =~= all);
    items
}

pub open spec fn choice_menu(choices: Seq<ChoiceView>) -> Seq<ItemView> {
    Seq::new(
        choices.len(),
        |i: int| ItemView { label: choices[i].name, sublabel: choices[i].description },
    )
}

pub fn choice_items(choices: &Vec<Choice>) -> (items: Vec<MultiMenuItem>)
    ensures
        items_view(items@) == choice_menu(choices_view(choices@)),
{
    let mut items: Vec<MultiMenuItem> = Vec::new();
    let ghost all = choice_menu(choices_view(choices@));
    let mut i: usize = 0;
    assert(items_view(items@) =~= all.take(0));
    while i < choices.len()
        invariant
            i <= choices.len(),
            all == choice_menu(choices_view(choices@)),
            items_view(items@) == all.take(i as int),
        decreases choices.len() - i,
    {
        let ghost before = items@;
        items.push(
            MultiMenuItem {
                label: choices[i].name.clone(),
                sublabel: copied_text(&choices[i].description),
            },
        );
        assert(items_view(items@) =~= items_view(before).push(item_view(items@.last())));
        assert(choices_view(choices@)[i as int] == choices@[i as int]@);
        assert(all.take(i + 1) =~= all.take(i as int).push(all[i as int]));
        i += 1;
    }
    assert(all.take(all.len() as int) =~= all);
    items
}

pub open spec fn no_option(option_id: Seq<char>) -> Seq<char> {
    "No config option '"@ + option_id + "' available"@
}

/// The choices of an option of the session, or the error that there is none.
pub fn option_choices(options: &Vec<ConfigOption>, option_id: &str) -> (result: Result<
    Vec<Choice>,
    String,
>)
    ensures
        match select_from(options@, option_id@, 0) {
            Some(select) => result is Ok && choices_view(result->Ok_0@) == all_choices(
                select.options,
            ),
            None => result is Err && result->Err_0@ == no_option(option_id@),
        },
{
    match find_select(options, option_id) {
        Some(select) => Ok(flat_choices(&select.options)),
        None => {
            let mut text = "No config option '".to_string();
            text.append(option_id);
            text.append("' available");
            Err(text)
        },
    }
}

/// The option and the value that it is to be set to when a choice is picked.
pub fn config_change(option_id: &str, choices: &Vec<Choice>, idx: usize) -> (change: Option<
    (String, String),
>)
    ensures
        change is Some <==> idx < choices@.len(),
        change matches Some(change) ==> {
            &&& change.0@ == option_id@
            &&& change.1@ == choices@[idx as int].value@
        },
{
    if idx < choices.len() {
        Some((option_id.to_string(), choices[idx].value.clone()))
    } else {
        None
    }
}

/// Every command of the menu puts the text into the input that its entry shows, but
/// for a space behind it.
pub proof fn law_picked_command_is_shown(commands: Seq<AgentCommand>, idx: int)
    requires
        0 <= idx < command_menu(commands).len(),
    ensures
        picked_command(commands, idx) matches Some(text) && (text == command_menu(
            commands,
        )[idx].label || text == command_menu(commands)[idx].label.push(' ')),
{
}

/// The history holds every message of the user, the last of them first.
pub proof fn law_history_is_in_reverse(display: Seq<DisplayLine>)
    ensures
        user_messages(display, 0) == display.filter(
            |d: DisplayLine| d is UserMessage,
        ).reverse().map_values(
            |d: DisplayLine|
                match d {
                    DisplayLine::UserMessage(text) => text@,
                    _ => Seq::empty(),
                },
        ),
{
    lemma_user_messages(display, 0);
    assert(display.skip(0) =~= display);
}

proof fn lemma_user_messages(display: Seq<DisplayLine>, k: int)
    requires
        0 <= k <= display.len(),
    ensures
        user_messages(display, k) == display.skip(k).filter(
            |d: DisplayLine| d is UserMessage,
        ).reverse().map_values(
            |d: DisplayLine|
                match d {
                    DisplayLine::UserMessage(text) => text@,
                    _ => Seq::empty(),
                },
        ),
    decreases display.len() - k,
{
    let asked = |d: DisplayLine| d is UserMessage;
    let said = |d: DisplayLine|
        match d {
            DisplayLine::UserMessage(text) => text@,
            _ => Seq::empty(),
        };
    if k == display.len() {
        reveal(Seq::filter);
        assert(display.skip(k) =~= Seq::empty());
        assert(user_messages(display, k) =~= display.skip(k).filter(asked).reverse().map_values(
            said,
        ));
    } else {
        lemma_user_messages(display, k + 1);
        let rest = display.skip(k + 1).filter(asked);
        let one = seq![display[k]];
        assert(display.skip(k) =~= one + display.skip(k + 1));
        Seq::filter_distributes_over_add(one, display.skip(k + 1), asked);
        reveal_with_fuel(Seq::filter, 2);
        assert(one.drop_last() =~= Seq::empty());
        if display[k] is UserMessage {
            assert(one.filter(asked) =~= one);
            assert((one + rest).reverse() =~= rest.reverse().push(display[k]));
        } else {
            assert(one.filter(asked) =~= Seq::empty());
            assert(Seq::<DisplayLine>::empty() + rest =~= rest);
        }
        assert(user_messages(display, k) =~= display.skip(k).filter(asked).reverse().map_values(
            said,
        ));
    }
}

/// A message in the menu of the history is shown whole, or by its first eighty characters
/// and an ellipsis.
pub proof fn law_long_messages_are_cut(message: Seq<char>)
    ensures
        message.len() <= 80 ==> shortened(message) == message,
        message.len() > 80 ==> {
            &&& shortened(message).len() == 81
            &&& shortened(message)[80] == '\u{2026}'
            &&& forall|i: int| 0 <= i < 80 ==> shortened(message)[i] == message[i]
        },
{
}

/// The menu of commands shows those of the panel and then each of the agent, with what it
/// does.
pub proof fn law_menu_shows_every_command(commands: Seq<AgentCommand>, i: int)
    requires
        0 <= i < commands.len(),
    ensures
        command_menu(commands).len() == commands.len() + 2,
        command_menu(commands)[0].label == "/exit"@,
        command_menu(commands)[1].label == "/clear"@,
        command_menu(commands)[i + 2].label == "/"@ + commands[i].name@,
        command_menu(commands)[i + 2].sublabel == Some(commands[i].description@),
{
    reveal_strlit("/");
    assert("/"@ =~= seq!['/']);
}

/// A choice is shown by its name, with what it does below it; a message by its start.
pub proof fn law_choices_are_shown_by_name(
    choices: Seq<ChoiceView>,
    messages: Seq<Seq<char>>,
    i: int,
)
    ensures
        choice_menu(choices).len() == choices.len(),
        history_menu(messages).len() == messages.len(),
        0 <= i < choices.len() ==> choice_menu(choices)[i].label == choices[i].name
            && choice_menu(choices)[i].sublabel == choices[i].description,
        0 <= i < messages.len() && messages[i].len() <= 80 ==> history_menu(messages)[i].label
            == messages[i],
        0 <= i < messages.len() ==> history_menu(messages)[i].sublabel is None,
{
}

} // verus!
