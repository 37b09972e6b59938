//! The dialog in which an agent asks for permission.

use vstd::prelude::*;

use crate::acp::client::{text_view, AgentClient, AgentId};
use crate::editor::Editor;
use crate::json::{text_member, Json};
use crate::ui::prompt::PromptEvent;
use crate::ui::select::{Select, SelectView};

verus! {

#[derive(Clone, Copy, Debug, PartialEq, Eq, Structural)]
pub enum PermissionKind {
    AllowOnce,
    AllowAlways,
    RejectOnce,
    RejectAlways,
}

/// An answer that the agent offers.
#[derive(Debug)]
pub struct PermissionOption {
    pub option_id: String,
    pub name: String,
    pub kind: PermissionKind,
}

/// What an agent asks permission for.
#[derive(Debug)]
pub struct PermissionRequest {
    pub title: Option<String>,
    pub raw_input: Option<Json>,
    pub options: Vec<PermissionOption>,
}

/// The answer to an agent.
#[derive(Debug)]
pub enum PermissionOutcome {
    Cancelled,
    Selected(String),
}

/// Wraps agent-provided permission options plus extras of the editor.
#[derive(Debug)]
pub enum PermOption {
    Agent(PermissionOption),
    CleanContext { allow_always_id: String },
}

impl PermOption {
    pub open spec fn label_text(self) -> Seq<char> {
        match self {
            PermOption::Agent(option) => option.name@,
            PermOption::CleanContext { .. } => "Apply (clean context)"@,
        }
    }

    /// The text of the option in the dialog.
    pub fn format(&self) -> (text: &str)
        ensures
            text@ == self.label_text(),
    {
        match self {
            PermOption::Agent(option) => option.name.as_str(),
            PermOption::CleanContext { .. } => "Apply (clean context)",
        }
    }
}

/// The agent asks to carry out a plan.
pub open spec fn has_plan(raw_input: Option<Json>) -> bool {
    raw_input is Some && text_member(raw_input->0, "plan"@) is Some
}

/// The first of the options from `k` on that allows for good.
pub open spec fn allow_always(options: Seq<PermissionOption>, k: int) -> Option<int>
    decreases options.len() - k,
{
    if k < 0 || k >= options.len() {
        None
    } else if options[k].kind == PermissionKind::AllowAlways {
        Some(k)
    } else {
        allow_always(options, k + 1)
    }
}

/// The option that a clean context is answered with: the first that allows for good,
/// else the first of all.
pub open spec fn clean_answer(options: Seq<PermissionOption>) -> Seq<char> {
    match allow_always(options, 0) {
        Some(k) => options[k].option_id@,
        None => options[0].option_id@,
    }
}

/// The options among the first `n` that allow for good, or that do not.
pub open spec fn options_of(options: Seq<PermissionOption>, always: bool, n: int) -> Seq<PermOption>
    decreases n,
{
    if n <= 0 {
        Seq::empty()
    } else {
        let before = options_of(options, always, n - 1);
        if (options[n - 1].kind == PermissionKind::AllowAlways) == always {
            before.push(PermOption::Agent(options[n - 1]))
        } else {
            before
        }
    }
}

/// The options of the agent as they stand in the dialog: those that allow for good
/// come last.
pub open spec fn ordered(options: Seq<PermissionOption>) -> Seq<PermOption> {
    let n = options.len() as int;
    options_of(options, false, n) + options_of(options, true, n)
}

/// The items of the dialog: where there is a plan, the clean context comes first.
pub open spec fn is_items(items: Seq<PermOption>, request: PermissionRequest) -> bool {
    let options = request.options@;
    if has_plan(request.raw_input) {
        &&& items.len() > 0
        &&& items[0] matches PermOption::CleanContext { allow_always_id } && allow_always_id@
            == clean_answer(options)
        &&& items.drop_first() == ordered(options)
    } else {
        items == ordered(options)
    }
}

fn answer_id(options: &Vec<PermissionOption>) -> (id: String)
    requires
        options@.len() > 0,
    ensures
        id@ == clean_answer(options@),
{
    let mut k: usize = 0;
    while k < options.len()
        invariant
            k <= options.len(),
            allow_always(options@, 0) == allow_always(options@, k as int),
        decreases options.len() - k,
    {
        if options[k].kind == PermissionKind::AllowAlways {
            return options[k].option_id.clone();
        }
        k += 1;
    }
    options[0].option_id.clone()
}

proof fn lemma_split(options: Seq<PermissionOption>, n: int)
    requires
        0 <= n <= options.len(),
    ensures
        options_of(options, false, n).len() + options_of(options, true, n).len() == n,
    decreases n,
{
    if n > 0 {
        lemma_split(options, n - 1);
    }
}

/// Options that belong together, in their order.
fn sort_options(options: Vec<PermissionOption>) -> (parts: (Vec<PermOption>, Vec<PermOption>))
    ensures
        parts.0@ == options_of(options@, false, options@.len() as int),
        parts.1@ == options_of(options@, true, options@.len() as int),
{
    let ghost all = options@;
    let mut options = options;
    let mut once: Vec<PermOption> = Vec::new();
    let mut always: Vec<PermOption> = Vec::new();
    let ghost mut done: int = 0;
    assert(all.skip(0) =~= all);
    while options.len() > 0
        invariant
            0 <= done <= all.len(),
            options@ == all.skip(done),
            once@ == options_of(all, false, done),
            always@ == options_of(all, true, done),
        decreases options.len(),
    {
        let option = options.remove(0);
        assert(option == all[done]);
        if option.kind == PermissionKind::AllowAlways {
            always.push(PermOption::Agent(option));
        } else {
            once.push(PermOption::Agent(option));
        }
        proof {
            assert(options@ =~= all.skip(done + 1));
            done = done + 1;
        }
    }
    (once, always)
}

/// What to do with a request.
pub enum PermissionStep {
    /// Answer it without asking.
    Reply(PermissionOutcome),
    /// Show a dialog.
    Ask(Select<PermOption>),
}

/// The id of the dialog.
pub const DIALOG_ID: &'static str = "acp-permission";

/// The dialog for a request. One without options is cancelled at once.
pub fn show_acp_permission_dialog(params: PermissionRequest) -> (step: PermissionStep)
    ensures
        match step {
            PermissionStep::Reply(outcome) => {
                &&& params.options@.len() == 0
                &&& outcome == PermissionOutcome::Cancelled
            },
            PermissionStep::Ask(dialog) => {
                &&& params.options@.len() > 0
                &&& dialog@ == (SelectView {
                    message: match params.title {
                        Some(title) => title@,
                        None => "Permission required"@,
                    },
                    options: dialog@.options,
                    selected: 0,
                    auto_close: false,
                    id: Some(DIALOG_ID),
                })
                &&& is_items(dialog@.options, params)
            },
        },
{
    if params.options.len() == 0 {
        return PermissionStep::Reply(PermissionOutcome::Cancelled);
    }
    let title = match params.title {
        Some(title) => title,
        None => "Permission required".to_string(),
    };
    let plan = match &params.raw_input {
        Some(json) => json.get_text("plan").is_some(),
        None => false,
    };
    let allow_always_id = answer_id(&params.options);
    let ghost options = params.options@;
    let (mut once, mut always) = sort_options(params.options);
    proof {
        lemma_split(options, options.len() as int);
    }
    let mut items: Vec<PermOption> = Vec::new();
    if plan {
        items.push(PermOption::CleanContext { allow_always_id });
    }
    let ghost first = items@;
    let ghost rest = ordered(options);
    items.append(&mut once);
    items.append(&mut always);
    assert(items@ =~= first + rest);
    assert(plan ==> items@.drop_first() =~= rest);
    assert(!plan ==> items@ =~= rest);
    PermissionStep::Ask(Select::new(title, items).no_auto_close().with_id(DIALOG_ID))
}

/// The user's choice leads to this answer, or to none yet.
pub open spec fn is_answer(
    event: PromptEvent,
    option: PermOption,
    before: Option<AgentClient>,
    after: Option<AgentClient>,
    reply: Option<PermissionOutcome>,
) -> bool {
    match event {
        PromptEvent::Update => after == before && reply is None,
        PromptEvent::Abort => after == before && reply == Some(PermissionOutcome::Cancelled),
        PromptEvent::Validate => match option {
            // The answer waits until the context is clean.
            PermOption::CleanContext { allow_always_id } => {
                &&& reply is None
                &&& match before {
                    None => after is None,
                    Some(client) => {
                        &&& after matches Some(now)
                        &&& now == (AgentClient {
                            auto_continue: true,
                            auto_accept_edits: true,
                            pending_clean_context: now.pending_clean_context,
                            ..client
                        })
                        &&& text_view(now.pending_clean_context) == Some(allow_always_id@)
                    },
                }
            },
            PermOption::Agent(option) => {
                &&& reply matches Some(PermissionOutcome::Selected(id)) && id@ == option.option_id@
                &&& after == if option.kind == PermissionKind::AllowAlways {
                    match before {
                        None => None,
                        Some(client) => Some(
                            AgentClient {
                                auto_continue: true,
                                auto_accept_edits: true,
                                ..client
                            },
                        ),
                    }
                } else {
                    before
                }
            },
        },
    }
}

/// What the user's choice in the dialog leads to: the answer for the agent, which may
/// have to wait.
pub fn on_choice(
    event: PromptEvent,
    option: &PermOption,
    client: &mut Option<AgentClient>,
) -> (reply: Option<PermissionOutcome>)
    ensures
        is_answer(event, *option, *old(client), *final(client), reply),
{
    match event {
        PromptEvent::Update => None,
        PromptEvent::Abort => Some(PermissionOutcome::Cancelled),
        PromptEvent::Validate => match option {
            PermOption::CleanContext { allow_always_id } => {
                if let Some(client) = client {
                    client.auto_continue = true;
                    client.auto_accept_edits = true;
                    client.pending_clean_context = Some(allow_always_id.clone());
                }
                None
            },
            PermOption::Agent(option) => {
                if option.kind == PermissionKind::AllowAlways {
                    if let Some(client) = client {
                        client.auto_continue = true;
                        client.auto_accept_edits = true;
                    }
                }
                Some(PermissionOutcome::Selected(option.option_id.clone()))
            },
        },
    }
}

/// The conversation of an agent has been cleared for an answer that waited for it.
pub open spec fn is_cleaned(now: AgentClient, client: AgentClient) -> bool {
    &&& now.display@.len() == 0
    &&& now.pending_edits@.len() == 0
    &&& now == (AgentClient {
        pending_clean_context: None,
        display: now.display,
        pending_edits: now.pending_edits,
        ..client
    })
}

/// The answer that waits for a clean context, if any: the conversation is cleared
/// before it is sent.
pub fn flush_clean_context(client: &mut AgentClient) -> (reply: Option<PermissionOutcome>)
    ensures
        match old(client).pending_clean_context {
            None => *final(client) == *old(client) && reply is None,
            Some(id) => {
                &&& is_cleaned(*final(client), *old(client))
                &&& reply matches Some(PermissionOutcome::Selected(sent)) && sent@ == id@
            },
        },
{
    match client.pending_clean_context.take() {
        None => None,
        Some(id) => {
            // Clear local display only: the protocol has no method to clear a session.
            client.display = Vec::new();
            client.pending_edits = Vec::new();
            Some(PermissionOutcome::Selected(id))
        },
    }
}

/// An answer that is sent to an agent.
#[derive(Debug)]
pub struct AgentReply {
    pub agent_id: AgentId,
    pub outcome: PermissionOutcome,
}

/// How many of the first `n` agents wait for a clean context.
pub open spec fn waiting(agents: Seq<AgentClient>, n: int) -> nat
    decreases n,
{
    if n <= 0 {
        0
    } else {
        waiting(agents, n - 1) + if agents[n - 1].pending_clean_context is Some {
            1nat
        } else {
            0
        }
    }
}

/// What becomes of an agent when all answers that wait are sent.
pub open spec fn is_flushed(now: AgentClient, client: AgentClient) -> bool {
    if client.pending_clean_context is Some {
        is_cleaned(now, client)
    } else {
        now == client
    }
}

/// The answer that an agent waits for.
pub open spec fn is_waited_for(reply: AgentReply, client: AgentClient) -> bool {
    &&& reply.agent_id == client.id
    &&& reply.outcome matches PermissionOutcome::Selected(sent) && text_view(
        client.pending_clean_context,
    ) == Some(sent@)
}

proof fn lemma_waiting_monotone(agents: Seq<AgentClient>, i: int, n: int)
    requires
        0 <= i <= n <= agents.len(),
    ensures
        waiting(agents, i) <= waiting(agents, n),
        i < n && agents[i].pending_clean_context is Some ==> waiting(agents, i) < waiting(
            agents,
            n,
        ),
    decreases n,
{
    if i < n {
        lemma_waiting_monotone(agents, i, n - 1);
    }
}

impl Editor {
    /// The answers that wait for a clean context, to be sent now: the conversations
    /// with the agents that they are for are cleared.
    pub fn flush_clean_contexts(&mut self) -> (replies: Vec<AgentReply>)
        ensures
            *final(self) == (Editor { agents: final(self).agents, ..*old(self) }),
            final(self).agents@.len() == old(self).agents@.len(),
            forall|i: int|
                0 <= i < old(self).agents@.len() ==> is_flushed(
                    #[trigger] final(self).agents@[i],
                    old(self).agents@[i],
                ),
            replies@.len() == waiting(old(self).agents@, old(self).agents@.len() as int),
            forall|i: int|
                0 <= i < old(self).agents@.len() && (#[trigger] old(
                    self,
                ).agents@[i]).pending_clean_context is Some ==> is_waited_for(
                    replies@[waiting(old(self).agents@, i) as int],
                    old(self).agents@[i],
                ),
    {
        let ghost all = self.agents@;
        let ghost before = *self;
        let mut replies: Vec<AgentReply> = Vec::new();
        let mut i: usize = 0;
        while i < self.agents.len()
            invariant
                i <= self.agents@.len(),
                all == before.agents@,
                *self == (Editor { agents: self.agents, ..before }),
                self.agents@.len() == all.len(),
                forall|k: int| 0 <= k < i ==> is_flushed(#[trigger] self.agents@[k], all[k]),
                forall|k: int| i <= k < all.len() ==> #[trigger] self.agents@[k] == all[k],
                replies@.len() == waiting(all, i as int),
                forall|k: int|
                    0 <= k < i && (#[trigger] all[k]).pending_clean_context is Some
                        ==> is_waited_for(replies@[waiting(all, k) as int], all[k]),
            decreases self.agents.len() - i,
        {
            let ghost sent = replies@;
            let agent_id = self.agents[i].id;
            assert(self.agents@[i as int] == all[i as int]);
            if let Some(outcome) = flush_clean_context(&mut self.agents[i]) {
                replies.push(AgentReply { agent_id, outcome });
            }
            proof {
                assert forall|k: int|
                    0 <= k < i + 1 && (
                    #[trigger] all[k]).pending_clean_context is Some implies is_waited_for(
                    replies@[waiting(all, k) as int],
                    all[k],
                ) by {
                    if k < i {
                        lemma_waiting_monotone(all, k, i as int);
                        assert(replies@[waiting(all, k) as int] == sent[waiting(all, k) as int]);
                    }
                }
            }
            i += 1;
        }
        replies
    }
}

proof fn lemma_option_is_kept(options: Seq<PermissionOption>, i: int, n: int)
    requires
        0 <= i < n <= options.len(),
    ensures
        options_of(
            options,
            options[i].kind == PermissionKind::AllowAlways,
            n,
        ).contains(PermOption::Agent(options[i])),
    decreases n,
{
    let always = options[i].kind == PermissionKind::AllowAlways;
    let all = options_of(options, always, n);
    if i == n - 1 {
        assert(all.last() == PermOption::Agent(options[i]));
    } else {
        lemma_option_is_kept(options, i, n - 1);
        let before = options_of(options, always, n - 1);
        let k = choose|k: int| 0 <= k < before.len() && before[k] == PermOption::Agent(options[i]);
        assert(all[k] == before[k]);
    }
}

/// The dialog offers every option of the agent, and no more of them.
pub proof fn law_dialog_offers_every_option(options: Seq<PermissionOption>)
    ensures
        ordered(options).len() == options.len(),
        forall|i: int|
            0 <= i < options.len() ==> ordered(options).contains(
                PermOption::Agent(#[trigger] options[i]),
            ),
{
    let n = options.len() as int;
    lemma_split(options, n);
    assert forall|i: int| 0 <= i < n implies ordered(options).contains(
        PermOption::Agent(#[trigger] options[i]),
    ) by {
        lemma_option_is_kept(options, i, n);
        let always = options[i].kind == PermissionKind::AllowAlways;
        let part = options_of(options, always, n);
        let k = choose|k: int| 0 <= k < part.len() && part[k] == PermOption::Agent(options[i]);
        let at = if always {
            options_of(options, false, n).len() + k
        } else {
            k
        };
        assert(ordered(options)[at] == PermOption::Agent(options[i]));
    }
}

/// The dialog begins with the clean context where, and only where, a plan is asked
/// about, and has one more item for each option of the agent.
pub proof fn law_clean_context_comes_first(items: Seq<PermOption>, request: PermissionRequest)
    requires
        is_items(items, request),
    ensures
        has_plan(request.raw_input) <==> items.len() > 0 && items[0] is CleanContext,
        items.len() == request.options@.len() + if has_plan(request.raw_input) {
            1int
        } else {
            0
        },
{
    let options = request.options@;
    lemma_split(options, options.len() as int);
    lemma_all_agent(options, false, options.len() as int);
    lemma_all_agent(options, true, options.len() as int);
    if has_plan(request.raw_input) {
        assert(items.drop_first().len() == items.len() - 1);
    }
}

proof fn lemma_all_agent(options: Seq<PermissionOption>, always: bool, n: int)
    requires
        n <= options.len(),
    ensures
        forall|i: int|
            0 <= i < options_of(options, always, n).len() ==> (#[trigger] options_of(
                options,
                always,
                n,
            )[i]) is Agent,
    decreases n,
{
    if n > 0 {
        lemma_all_agent(options, always, n - 1);
        let before = options_of(options, always, n - 1);
        let all = options_of(options, always, n);
        assert forall|i: int| 0 <= i < all.len() implies (#[trigger] all[i]) is Agent by {
            if i < before.len() {
                assert(before[i] is Agent);
            }
        }
    }
}

/// The dialog keeps the order of the options: first those that do not allow for good, then
/// those that do.
pub proof fn law_options_keep_their_order(options: Seq<PermissionOption>)
    ensures
        ordered(options) == options.filter(
            |o: PermissionOption| o.kind != PermissionKind::AllowAlways,
        ).map_values(|o: PermissionOption| PermOption::Agent(o)) + options.filter(
            |o: PermissionOption| o.kind == PermissionKind::AllowAlways,
        ).map_values(|o: PermissionOption| PermOption::Agent(o)),
{
    let n = options.len() as int;
    lemma_options_of(options, n);
    assert(options.take(n) =~= options);
}

proof fn lemma_options_of(options: Seq<PermissionOption>, n: int)
    requires
        0 <= n <= options.len(),
    ensures
        options_of(options, false, n) == options.take(n).filter(
            |o: PermissionOption| o.kind != PermissionKind::AllowAlways,
        ).map_values(|o: PermissionOption| PermOption::Agent(o)),
        options_of(options, true, n) == options.take(n).filter(
            |o: PermissionOption| o.kind == PermissionKind::AllowAlways,
        ).map_values(|o: PermissionOption| PermOption::Agent(o)),
    decreases n,
{
    reveal(Seq::filter);
    let once = |o: PermissionOption| o.kind != PermissionKind::AllowAlways;
    let always = |o: PermissionOption| o.kind == PermissionKind::AllowAlways;
    let agent = |o: PermissionOption| PermOption::Agent(o);
    if n > 0 {
        lemma_options_of(options, n - 1);
        assert(options.take(n).drop_last() =~= options.take(n - 1));
        assert(options.take(n).last() == options[n - 1]);
        let a = options.take(n - 1).filter(once);
        let b = options.take(n - 1).filter(always);
        assert(a.push(options[n - 1]).map_values(agent) =~= a.map_values(agent).push(
            PermOption::Agent(options[n - 1]),
        ));
        assert(b.push(options[n - 1]).map_values(agent) =~= b.map_values(agent).push(
            PermOption::Agent(options[n - 1]),
        ));
    }
    assert(options_of(options, false, n) =~= options.take(n).filter(once).map_values(agent));
    assert(options_of(options, true, n) =~= options.take(n).filter(always).map_values(agent));
}

/// A clean context is answered with the first option that allows for good, or, where none
/// does, with the first of all.
pub proof fn law_clean_context_allows_for_good(options: Seq<PermissionOption>)
    requires
        options.len() > 0,
    ensures
        (exists|i: int|
            0 <= i < options.len() && (#[trigger] options[i]).kind == PermissionKind::AllowAlways
                && options[i].option_id@ == clean_answer(options) && forall|k: int|
                0 <= k < i ==> (#[trigger] options[k]).kind != PermissionKind::AllowAlways) || (
        clean_answer(options) == options[0].option_id@ && forall|k: int|
            0 <= k < options.len() ==> (#[trigger] options[k]).kind
                != PermissionKind::AllowAlways),
{
    lemma_allow_always(options, 0);
}

proof fn lemma_allow_always(options: Seq<PermissionOption>, from: int)
    requires
        0 <= from,
    ensures
        match allow_always(options, from) {
            Some(i) => from <= i < options.len() && options[i].kind == PermissionKind::AllowAlways
                && forall|k: int|
                from <= k < i ==> (#[trigger] options[k]).kind != PermissionKind::AllowAlways,
            None => forall|k: int|
                from <= k < options.len() ==> (#[trigger] options[k]).kind
                    != PermissionKind::AllowAlways,
        },
    decreases options.len() - from,
{
    if from < options.len() && options[from].kind != PermissionKind::AllowAlways {
        lemma_allow_always(options, from + 1);
    }
}

/// Each agent that waits for a clean context is counted once.
pub proof fn law_waiting_agents_are_counted(agents: Seq<AgentClient>)
    ensures
        waiting(agents, agents.len() as int) == agents.filter(
            |a: AgentClient| a.pending_clean_context is Some,
        ).len(),
{
    lemma_waiting(agents, agents.len() as int);
    assert(agents.take(agents.len() as int) =~= agents);
}

proof fn lemma_waiting(agents: Seq<AgentClient>, n: int)
    requires
        0 <= n <= agents.len(),
    ensures
        waiting(agents, n) == agents.take(n).filter(
            |a: AgentClient| a.pending_clean_context is Some,
        ).len(),
    decreases n,
{
    reveal(Seq::filter);
    if n > 0 {
        lemma_waiting(agents, n - 1);
        assert(agents.take(n).drop_last() =~= agents.take(n - 1));
    }
}

/// The choice that the user makes is sent; to leave the dialog is sent as that; and nothing
/// is sent before. To allow for good lets the agent go on by itself from then on, and no
/// other choice changes the agent.
pub proof fn law_choice_of_the_user_is_sent(
    option: PermissionOption,
    client: AgentClient,
    after: Option<AgentClient>,
    reply: Option<PermissionOutcome>,
)
    ensures
        is_answer(PromptEvent::Validate, PermOption::Agent(option), Some(client), after, reply)
            ==> (reply matches Some(PermissionOutcome::Selected(id)) && id@ == option.option_id@),
        is_answer(PromptEvent::Validate, PermOption::Agent(option), Some(client), after, reply)
            && option.kind == PermissionKind::AllowAlways ==> after is Some
            && after->0.auto_continue && after->0.auto_accept_edits && after->0.display
            == client.display && after->0.pending_clean_context == client.pending_clean_context,
        is_answer(PromptEvent::Validate, PermOption::Agent(option), Some(client), after, reply)
            && option.kind != PermissionKind::AllowAlways ==> after == Some(client),
        is_answer(PromptEvent::Abort, PermOption::Agent(option), Some(client), after, reply)
            ==> after == Some(client) && reply == Some(PermissionOutcome::Cancelled),
        is_answer(PromptEvent::Update, PermOption::Agent(option), Some(client), after, reply)
            ==> after == Some(client) && reply is None,
{
}

/// The answer that asks for a clean context first is not sent yet: the agent keeps it, and
/// goes on by itself from then on.
pub proof fn law_clean_context_is_waited_for(
    id: String,
    client: AgentClient,
    after: Option<AgentClient>,
    reply: Option<PermissionOutcome>,
)
    requires
        is_answer(
            PromptEvent::Validate,
            PermOption::CleanContext { allow_always_id: id },
            Some(client),
            after,
            reply,
        ),
    ensures
        reply is None,
        after is Some && after->0.pending_clean_context is Some
            && after->0.pending_clean_context->0@ == id@,
        after->0.auto_continue && after->0.auto_accept_edits,
        after->0.display == client.display && after->0.session_id == client.session_id,
{
}

/// When the context is clean the answer that waited is sent to its agent, whose conversation
/// is then empty and who waits for nothing more; agents that wait for nothing stay as they
/// are.
pub proof fn law_waiting_answer_is_sent_once(
    now: AgentClient,
    client: AgentClient,
    reply: AgentReply,
)
    requires
        is_flushed(now, client),
    ensures
        client.pending_clean_context is None ==> now == client,
        client.pending_clean_context is Some ==> now.pending_clean_context is None
            && now.display@.len() == 0 && now.pending_edits@.len() == 0 && now.id == client.id
            && now.session_id == client.session_id,
        is_waited_for(reply, client) ==> client.pending_clean_context is Some && reply.agent_id
            == client.id && (reply.outcome matches PermissionOutcome::Selected(sent) && sent@
            == client.pending_clean_context->0@),
{
}

/// A button of the dialog shows the name that the agent gives to the option.
pub proof fn law_option_is_shown_by_its_name(option: PermissionOption, id: String)
    ensures
        PermOption::Agent(option).label_text() == option.name@,
        (PermOption::CleanContext { allow_always_id: id }).label_text() == "Apply (clean context)"@,
{
}

} // verus!
