//! What the editor does when an agent sends something.

use vstd::prelude::*;

use crate::acp::client::{text_view, AgentClient, AgentCommand, AgentId, ConfigOption};
use crate::acp::permission::{PermissionOption, PermissionRequest};
use crate::acp::tools::{call_paths, format_tool_input, lines_of_output, output_lines, paths_of};
use crate::acp::tools::{paths_of_call, paths_view, shown_input, Content, ToolContent};
use crate::acp::tools::ToolLocation;
use crate::editor::Editor;
use crate::json::{text_member, Json};
use crate::text::{same, views};

verus! {

/// What a session costs: the bits of the amount, a double, and its currency.
#[derive(Debug)]
pub struct Cost {
    pub amount: u64,
    pub currency: String,
}

/// What a tool does.
#[derive(Clone, Copy, Debug, PartialEq, Eq, Structural)]
pub enum ToolKind {
    Read,
    Edit,
    Other,
}

/// How far a tool has come.
#[derive(Clone, Copy, Debug, PartialEq, Eq, Structural)]
pub enum ToolStatus {
    Pending,
    InProgress,
    Completed,
    Failed,
}

/// A step of the agent's plan.
#[derive(Debug)]
pub struct PlanEntry {
    pub content: String,
    pub completed: bool,
}

/// A tool begins to run.
#[derive(Debug)]
pub struct ToolCallStart {
    pub id: String,
    pub title: String,
    pub kind: ToolKind,
    pub locations: Vec<ToolLocation>,
    pub raw_input: Option<Json>,
}

/// News of a tool that runs.
#[derive(Debug)]
pub struct ToolCallNews {
    pub id: String,
    pub title: Option<String>,
    pub status: Option<ToolStatus>,
    pub locations: Option<Vec<ToolLocation>>,
    pub raw_input: Option<Json>,
    pub content: Option<Vec<ToolContent>>,
}

/// What happens in a session.
#[derive(Debug)]
pub enum SessionUpdate {
    AgentMessageChunk(Content),
    UserMessageChunk(Content),
    AgentThoughtChunk(Content),
    ToolCall(ToolCallStart),
    ToolCallUpdate(ToolCallNews),
    Plan(Vec<PlanEntry>),
    CurrentModeUpdate(String),
    AvailableCommandsUpdate(Vec<AgentCommand>),
    ConfigOptionUpdate(Vec<ConfigOption>),
    UsageUpdate { used: u64, size: u64, cost: Option<Cost> },
    Other,
}

/// What an agent sends.
#[derive(Debug)]
pub enum AcpEvent {
    SessionNotification(SessionUpdate),
    RequestPermission(PermissionRequest),
    ReadTextFile { path: String },
    WriteTextFile { path: String, content: String },
    Disconnected,
    UsageUpdate { used: u64, size: u64, cost: Cost },
    TurnTokens {
        input_tokens: u64,
        output_tokens: u64,
        cache_read_tokens: u64,
        cache_write_tokens: u64,
    },
    ConfigOptionsUpdate(Vec<ConfigOption>),
}

/// News of a tool, as it is kept with the conversation.
#[derive(Debug)]
pub struct ToolCallUpdate {
    pub id: String,
    pub title: Option<String>,
    pub input: String,
    pub output: Vec<String>,
    pub paths: Vec<String>,
    pub is_completed: bool,
    pub is_failed: bool,
}

/// What is to be noted in the conversation with an agent.
#[derive(Debug)]
pub enum AgentChange {
    AppendText(String),
    AppendThought(String),
    StartToolCall {
        id: String,
        title: String,
        input: String,
        /// The files that are edited, where the tool edits any.
        edit_paths: Option<Vec<String>>,
    },
    UpdateToolCall(ToolCallUpdate),
    SetPlan(Vec<PlanEntry>),
    UpdateUsage { used: u64, size: u64, cost: Option<Cost> },
    AddTurnTokens {
        input_tokens: u64,
        output_tokens: u64,
        cache_read_tokens: u64,
        cache_write_tokens: u64,
    },
}

/// Side effects that need the windows on the screen.
#[derive(Debug)]
pub enum AcpSideEffect {
    Nothing,
    /// A permission dialog should be shown to the user.
    PermissionDialog { agent_id: AgentId, params: PermissionRequest },
    /// An AskUserQuestion dialog should be shown.
    QuestionDialog { agent_id: AgentId, question: String, options: Vec<PermissionOption> },
}

/// A file that an agent wants to be read or written.
#[derive(Debug)]
pub enum FileRequest {
    Read { path: String },
    Write { path: String, content: String },
}

/// What is to be done about what an agent has sent.
#[derive(Debug)]
pub struct AcpStep {
    /// What is to be noted in the conversation.
    pub change: Option<AgentChange>,
    /// The files that are to be loaded, so that what the agent reads can be seen.
    pub opens: Vec<String>,
    pub file: Option<FileRequest>,
    /// The agent is gone and is to be stopped.
    pub stop: bool,
    pub effect: AcpSideEffect,
}

/// There is nothing to do but what is said of the change, the files and the effect.
pub open spec fn only(step: AcpStep, change: bool, opens: bool, effect: bool) -> bool {
    &&& !change ==> step.change is None
    &&& !opens ==> step.opens@.len() == 0
    &&& step.file is None
    &&& !step.stop
    &&& !effect ==> step.effect == AcpSideEffect::Nothing
}

/// The text of a chunk is to be put behind what the agent has said.
pub open spec fn appends(change: Option<AgentChange>, content: Content, thought: bool) -> bool {
    match content {
        Content::Text(text) => if thought {
            change matches Some(AgentChange::AppendThought(added)) && added@ == text@
        } else {
            change matches Some(AgentChange::AppendText(added)) && added@ == text@
        },
        Content::Other => change is None,
    }
}

pub open spec fn locations_of(news: ToolCallNews) -> Seq<ToolLocation> {
    match news.locations {
        Some(locations) => locations@,
        None => Seq::empty(),
    }
}

/// What is noted when a tool begins to run.
pub open spec fn starts(change: Option<AgentChange>, call: ToolCallStart) -> bool {
    &&& change matches Some(AgentChange::StartToolCall { id, title, input, edit_paths })
    &&& id@ == call.id@
    &&& title@ == call.title@
    &&& input@ == shown_input(call.raw_input, call.locations@)
    &&& match edit_paths {
        Some(paths) => call.kind == ToolKind::Edit && views(paths@) == paths_view(
            call.locations@,
        ),
        None => call.kind != ToolKind::Edit,
    }
}

/// What is noted when there is news of a tool.
pub open spec fn updates(change: Option<AgentChange>, news: ToolCallNews) -> bool {
    &&& change matches Some(AgentChange::UpdateToolCall(update))
    &&& update.id@ == news.id@
    &&& text_view(update.title) == text_view(news.title)
    &&& update.input@ == shown_input(news.raw_input, locations_of(news))
    &&& views(update.output@) == match news.content {
        Some(content) => output_lines(content@, content@.len() as int),
        None => Seq::empty(),
    }
    &&& views(update.paths@) == call_paths(locations_of(news), news.raw_input)
    &&& update.is_completed == (news.status == Some(ToolStatus::Completed))
    &&& update.is_failed == (news.status == Some(ToolStatus::Failed))
}

/// What the state of an agent becomes when something happens in its session.
pub open spec fn client_after(client: AgentClient, update: SessionUpdate) -> AgentClient {
    match update {
        SessionUpdate::CurrentModeUpdate(mode) => AgentClient {
            current_mode: Some(mode),
            ..client
        },
        SessionUpdate::AvailableCommandsUpdate(commands) => AgentClient {
            available_commands: commands,
            ..client
        },
        SessionUpdate::ConfigOptionUpdate(options) => AgentClient {
            config_options: options,
            ..client
        },
        _ => client,
    }
}

/// What is to be done about something that happens in the session of a known agent.
pub open spec fn notified(step: AcpStep, update: SessionUpdate) -> bool {
    match update {
        SessionUpdate::AgentMessageChunk(content) => only(step, true, false, false) && appends(
            step.change,
            content,
            false,
        ),
        SessionUpdate::UserMessageChunk(content) => only(step, true, false, false) && appends(
            step.change,
            content,
            false,
        ),
        SessionUpdate::AgentThoughtChunk(content) => only(step, true, false, false) && appends(
            step.change,
            content,
            true,
        ),
        SessionUpdate::ToolCall(call) => {
            &&& only(step, true, true, false)
            &&& starts(step.change, call)
            &&& views(step.opens@) == if call.kind == ToolKind::Read {
                paths_view(call.locations@)
            } else {
                Seq::empty()
            }
        },
        SessionUpdate::ToolCallUpdate(news) => only(step, true, false, false) && updates(
            step.change,
            news,
        ),
        SessionUpdate::Plan(entries) => only(step, true, false, false) && step.change == Some(
            AgentChange::SetPlan(entries),
        ),
        SessionUpdate::UsageUpdate { used, size, cost } => only(step, true, false, false)
            && step.change == Some(AgentChange::UpdateUsage { used, size, cost }),
        _ => only(step, false, false, false),
    }
}

/// The request is a question to the user.
pub open spec fn is_question(request: PermissionRequest) -> bool {
    text_view(request.title) == Some("AskUserQuestion"@)
}

pub open spec fn input_text(raw_input: Option<Json>, key: Seq<char>) -> Option<Seq<char>> {
    match raw_input {
        Some(json) => text_member(json, key),
        None => None,
    }
}

/// What is to be done about a request for permission: a question and a plan are also
/// shown in the conversation, where the agent is known.
pub open spec fn asked(
    step: AcpStep,
    agent_id: AgentId,
    request: PermissionRequest,
    known: bool,
) -> bool {
    &&& only(step, true, false, true)
    &&& if is_question(request) {
        let text = match input_text(request.raw_input, "question"@) {
            Some(text) => text,
            None => "Question"@,
        };
        &&& step.effect matches AcpSideEffect::QuestionDialog { agent_id: asking, question, options }
        &&& asking == agent_id
        &&& question@ == text
        &&& options == request.options
        &&& if known {
            step.change matches Some(AgentChange::AppendText(added)) && added@ == text
        } else {
            step.change is None
        }
    } else {
        &&& step.effect == (AcpSideEffect::PermissionDialog { agent_id, params: request })
        &&& match input_text(request.raw_input, "plan"@) {
            Some(plan) if known => step.change matches Some(AgentChange::AppendText(added))
                && added@ == plan,
            _ => step.change is None,
        }
    }
}

/// The step that does nothing.
fn idle() -> (step: AcpStep)
    ensures
        only(step, false, false, false),
{
    AcpStep {
        change: None,
        opens: Vec::new(),
        file: None,
        stop: false,
        effect: AcpSideEffect::Nothing,
    }
}

fn change_only(change: Option<AgentChange>) -> (step: AcpStep)
    ensures
        only(step, true, false, false),
        step.change == change,
{
    AcpStep {
        change,
        opens: Vec::new(),
        file: None,
        stop: false,
        effect: AcpSideEffect::Nothing,
    }
}

fn append(content: Content, thought: bool) -> (change: Option<AgentChange>)
    ensures
        appends(change, content, thought),
{
    match content {
        Content::Text(text) => if thought {
            Some(AgentChange::AppendThought(text))
        } else {
            Some(AgentChange::AppendText(text))
        },
        Content::Other => None,
    }
}

fn start_call(call: ToolCallStart) -> (step: AcpStep)
    ensures
        notified(step, SessionUpdate::ToolCall(call)),
{
    let opens: Vec<String> = if call.kind == ToolKind::Read {
        paths_of(&call.locations)
    } else {
        Vec::new()
    };
    assert(call.kind != ToolKind::Read ==> views(opens@) =~= Seq::empty());
    let edit_paths = if call.kind == ToolKind::Edit {
        Some(paths_of(&call.locations))
    } else {
        None
    };
    let input = format_tool_input(&call.raw_input, &call.locations);
    let change = AgentChange::StartToolCall { id: call.id, title: call.title, input, edit_paths };
    AcpStep {
        change: Some(change),
        opens,
        file: None,
        stop: false,
        effect: AcpSideEffect::Nothing,
    }
}

fn update_call(news: ToolCallNews) -> (change: Option<AgentChange>)
    ensures
        updates(change, news),
{
    let locations: Vec<ToolLocation> = match news.locations {
        Some(locations) => locations,
        None => Vec::new(),
    };
    assert(locations@ =~= locations_of(news));
    let output: Vec<String> = match &news.content {
        Some(content) => lines_of_output(content),
        None => Vec::new(),
    };
    assert(news.content is None ==> views(output@) =~= Seq::empty());
    let paths = paths_of_call(&locations, &news.raw_input);
    let input = format_tool_input(&news.raw_input, &locations);
    let is_completed = match news.status {
        Some(ToolStatus::Completed) => true,
        _ => false,
    };
    let is_failed = match news.status {
        Some(ToolStatus::Failed) => true,
        _ => false,
    };
    Some(
        AgentChange::UpdateToolCall(
            ToolCallUpdate {
                id: news.id,
                title: news.title,
                input,
                output,
                paths,
                is_completed,
                is_failed,
            },
        ),
    )
}

/// The content that an agent is given of a file; one that cannot be read is given as
/// empty.
pub fn read_reply(content: Option<String>) -> (text: String)
    ensures
        text@ == match content {
            Some(content) => content@,
            None => Seq::empty(),
        },
{
    match content {
        Some(content) => content,
        None => {
            let text = String::new();
            assert(text@ =~= Seq::empty());
            text
        },
    }
}

impl Editor {
    /// Handle a `session/update` notification. Nothing is done about an agent that
    /// is not known.
    fn handle_acp_session_notification(&mut self, agent_id: AgentId, update: SessionUpdate) -> (step:
        AcpStep)
        ensures
            *final(self) == (Editor { agents: final(self).agents, ..*old(self) }),
            match old(self).agent_index(agent_id) {
                Some(i) => {
                    &&& final(self).agents@ == old(self).agents@.update(
                        i,
                        client_after(old(self).agents@[i], update),
                    )
                    &&& notified(step, update)
                },
                None => final(self).agents@ == old(self).agents@ && only(step, false, false, false),
            },
    {
        let i = match self.find_agent(agent_id) {
            Some(i) => i,
            None => {
                return idle();
            },
        };
        let ghost all = self.agents@;
        assert(all.update(i as int, all[i as int]) =~= all);
        match update {
            SessionUpdate::AgentMessageChunk(content) => change_only(append(content, false)),
            SessionUpdate::UserMessageChunk(content) => change_only(append(content, false)),
            SessionUpdate::AgentThoughtChunk(content) => change_only(append(content, true)),
            SessionUpdate::ToolCall(call) => start_call(call),
            SessionUpdate::ToolCallUpdate(news) => change_only(update_call(news)),
            SessionUpdate::Plan(entries) => change_only(Some(AgentChange::SetPlan(entries))),
            SessionUpdate::CurrentModeUpdate(mode) => {
                self.agents[i].current_mode = Some(mode);
                idle()
            },
            SessionUpdate::AvailableCommandsUpdate(commands) => {
                self.agents[i].available_commands = commands;
                idle()
            },
            SessionUpdate::ConfigOptionUpdate(options) => {
                self.agents[i].config_options = options;
                idle()
            },
            SessionUpdate::UsageUpdate { used, size, cost } => change_only(
                Some(AgentChange::UpdateUsage { used, size, cost }),
            ),
            SessionUpdate::Other => idle(),
        }
    }

    fn handle_permission_request(&self, agent_id: AgentId, params: PermissionRequest) -> (step:
        AcpStep)
        ensures
            asked(step, agent_id, params, self.agent_index(agent_id) is Some),
    {
        let known = self.find_agent(agent_id).is_some();
        // Detect AskUserQuestion tool calls by title.
        let question = match &params.title {
            Some(title) => same(title.as_str(), "AskUserQuestion"),
            None => false,
        };
        if question {
            let text = match &params.raw_input {
                Some(json) => match json.get_text("question") {
                    Some(text) => text.to_string(),
                    None => "Question".to_string(),
                },
                None => "Question".to_string(),
            };
            // Show the question in the agent panel.
            let change = if known {
                Some(AgentChange::AppendText(text.clone()))
            } else {
                None
            };
            AcpStep {
                change,
                opens: Vec::new(),
                file: None,
                stop: false,
                effect: AcpSideEffect::QuestionDialog {
                    agent_id,
                    question: text,
                    options: params.options,
                },
            }
        } else {
            // Put the plan into the conversation before handing off to the UI.
            let mut change: Option<AgentChange> = None;
            if known {
                if let Some(json) = &params.raw_input {
                    if let Some(plan) = json.get_text("plan") {
                        change = Some(AgentChange::AppendText(plan.to_string()));
                    }
                }
            }
            AcpStep {
                change,
                opens: Vec::new(),
                file: None,
                stop: false,
                effect: AcpSideEffect::PermissionDialog { agent_id, params },
            }
        }
    }

    /// Main entry point for ACP events: what is known of the agent is brought up to
    /// date, and what else is to be done is returned.
    pub fn handle_acp_event(&mut self, agent_id: AgentId, event: AcpEvent) -> (step: AcpStep)
        ensures
            *final(self) == (Editor { agents: final(self).agents, ..*old(self) }),
            ({
                let index = old(self).agent_index(agent_id);
                let known = index is Some;
                match event {
                    AcpEvent::SessionNotification(update) => if known {
                        &&& final(self).agents@ == old(self).agents@.update(
                            index->0,
                            client_after(old(self).agents@[index->0], update),
                        )
                        &&& notified(step, update)
                    } else {
                        &&& final(self).agents@ == old(self).agents@
                        &&& only(step, false, false, false)
                    },
                    AcpEvent::RequestPermission(params) => {
                        &&& final(self).agents@ == old(self).agents@
                        &&& asked(step, agent_id, params, known)
                    },
                    AcpEvent::ReadTextFile { path } => {
                        &&& final(self).agents@ == old(self).agents@
                        &&& step.file == Some(FileRequest::Read { path })
                        &&& only((AcpStep { file: None, ..step }), false, false, false)
                    },
                    AcpEvent::WriteTextFile { path, content } => {
                        &&& final(self).agents@ == old(self).agents@
                        &&& step.file == Some(FileRequest::Write { path, content })
                        &&& only((AcpStep { file: None, ..step }), false, false, false)
                    },
                    AcpEvent::Disconnected => {
                        &&& step.stop
                        &&& only((AcpStep { stop: false, ..step }), false, false, false)
                        &&& final(self).agents@ == if known {
                            old(self).agents@.remove(index->0)
                        } else {
                            old(self).agents@
                        }
                    },
                    AcpEvent::UsageUpdate { used, size, cost } => {
                        &&& final(self).agents@ == old(self).agents@
                        &&& only(step, true, false, false)
                        &&& step.change == if known {
                            Some(AgentChange::UpdateUsage { used, size, cost: Some(cost) })
                        } else {
                            None
                        }
                    },
                    AcpEvent::TurnTokens { input_tokens, output_tokens, cache_read_tokens, cache_write_tokens } => {
                        &&& final(self).agents@ == old(self).agents@
                        &&& only(step, true, false, false)
                        &&& step.change == if known {
                            Some(
                                AgentChange::AddTurnTokens {
                                    input_tokens,
                                    output_tokens,
                                    cache_read_tokens,
                                    cache_write_tokens,
                                },
                            )
                        } else {
                            None
                        }
                    },
                    AcpEvent::ConfigOptionsUpdate(options) => {
                        &&& only(step, false, false, false)
                        &&& final(self).agents@ == if known {
                            old(self).agents@.update(
                                index->0,
                                AgentClient {
                                    config_options: options,
                                    ..old(self).agents@[index->0]
                                },
                            )
                        } else {
                            old(self).agents@
                        }
                    },
                }
            }),
    {
        match event {
            AcpEvent::SessionNotification(update) => self.handle_acp_session_notification(
                agent_id,
                update,
            ),
            AcpEvent::RequestPermission(params) => self.handle_permission_request(
                agent_id,
                params,
            ),
            AcpEvent::ReadTextFile { path } => {
                let mut step = idle();
                step.file = Some(FileRequest::Read { path });
                step
            },
            AcpEvent::WriteTextFile { path, content } => {
                let mut step = idle();
                step.file = Some(FileRequest::Write { path, content });
                step
            },
            AcpEvent::Disconnected => {
                if let Some(i) = self.find_agent(agent_id) {
                    let _ = self.agents.remove(i);
                }
                let mut step = idle();
                step.stop = true;
                step
            },
            AcpEvent::UsageUpdate { used, size, cost } => if self.find_agent(agent_id).is_some() {
                change_only(Some(AgentChange::UpdateUsage { used, size, cost: Some(cost) }))
            } else {
                idle()
            },
            AcpEvent::TurnTokens { input_tokens, output_tokens, cache_read_tokens, cache_write_tokens } => if self.find_agent(
                agent_id,
            ).is_some() {
                change_only(
                    Some(AgentChange::AddTurnTokens { input_tokens, output_tokens, cache_read_tokens, cache_write_tokens }),
                )
            } else {
                idle()
            },
            AcpEvent::ConfigOptionsUpdate(options) => {
                if let Some(i) = self.find_agent(agent_id) {
                    self.agents[i].config_options = options;
                }
                idle()
            },
        }
    }
}

/// What an agent says, and what it thinks, is put behind what was said before, and nothing
/// else is done. A chunk that is no text changes nothing.
pub proof fn law_chunks_are_put_behind(step: AcpStep, text: String)
    ensures
        notified(step, SessionUpdate::AgentMessageChunk(Content::Text(text))) ==> (step.change
            matches Some(AgentChange::AppendText(added)) && added@ == text@),
        notified(step, SessionUpdate::UserMessageChunk(Content::Text(text))) ==> (step.change
            matches Some(AgentChange::AppendText(added)) && added@ == text@),
        notified(step, SessionUpdate::AgentThoughtChunk(Content::Text(text)))
            ==> (step.change matches Some(AgentChange::AppendThought(added)) && added@ == text@),
        notified(step, SessionUpdate::AgentMessageChunk(Content::Other)) ==> step.change is None,
        notified(step, SessionUpdate::AgentThoughtChunk(Content::Other)) ==> step.change is None,
        notified(step, SessionUpdate::AgentMessageChunk(Content::Text(text))) || notified(
            step,
            SessionUpdate::AgentThoughtChunk(Content::Text(text)),
        ) ==> step.opens@.len() == 0 && step.file is None && !step.stop && step.effect
            == AcpSideEffect::Nothing,
{
}

/// A tool that begins to run is noted under its id and title. The files that it reads are
/// opened, and no others; those that it edits are kept with it.
pub proof fn law_tool_that_runs_is_noted(step: AcpStep, call: ToolCallStart)
    requires
        notified(step, SessionUpdate::ToolCall(call)),
    ensures
        step.change is Some && step.change->0 is StartToolCall,
        step.change->0->StartToolCall_id@ == call.id@,
        step.change->0->StartToolCall_title@ == call.title@,
        call.kind == ToolKind::Edit <==> step.change->0->edit_paths is Some,
        call.kind == ToolKind::Edit ==> step.change->0->edit_paths->0@.len()
            == call.locations@.len(),
        call.kind == ToolKind::Read ==> step.opens@.len() == call.locations@.len() && forall|i: int|
            0 <= i < call.locations@.len() ==> (#[trigger] step.opens@[i])@
                == call.locations@[i].path@,
        call.kind != ToolKind::Read ==> step.opens@.len() == 0,
        step.file is None && !step.stop && step.effect == AcpSideEffect::Nothing,
{
    if call.kind == ToolKind::Read {
        assert(views(step.opens@).len() == paths_view(call.locations@).len());
        assert forall|i: int| 0 <= i < call.locations@.len() implies (#[trigger] step.opens@[i])@
            == call.locations@[i].path@ by {
            assert(views(step.opens@)[i] == paths_view(call.locations@)[i]);
        }
    } else {
        assert(views(step.opens@).len() == 0);
    }
    if call.kind == ToolKind::Edit {
        assert(views(step.change->0->edit_paths->0@).len() == call.locations@.len());
    }
}

/// News of a tool are noted under its id: whether it has ended and how is what the agent
/// says of it.
pub proof fn law_news_of_a_tool_are_noted(step: AcpStep, news: ToolCallNews)
    requires
        notified(step, SessionUpdate::ToolCallUpdate(news)),
    ensures
        step.change is Some && step.change->0 is UpdateToolCall,
        step.change->0->UpdateToolCall_0.id@ == news.id@,
        step.change->0->UpdateToolCall_0.is_completed <==> news.status == Some(
            ToolStatus::Completed,
        ),
        step.change->0->UpdateToolCall_0.is_failed <==> news.status == Some(ToolStatus::Failed),
        news.content is None ==> step.change->0->UpdateToolCall_0.output@.len() == 0,
        news.title is Some <==> step.change->0->UpdateToolCall_0.title is Some,
        news.title is Some ==> step.change->0->UpdateToolCall_0.title->0@ == news.title->0@,
        step.opens@.len() == 0 && step.effect == AcpSideEffect::Nothing,
{
    if news.content is None {
        assert(views(step.change->0->UpdateToolCall_0.output@).len() == 0);
    }
}

/// A mode, commands or options that an agent tells of are its own from then on; nothing else
/// of it changes, and other news leave all of these as they are.
pub proof fn law_agent_keeps_what_it_tells_of_itself(
    client: AgentClient,
    mode: String,
    commands: Vec<AgentCommand>,
    options: Vec<ConfigOption>,
    content: Content,
)
    ensures
        ({
            let now = client_after(client, SessionUpdate::CurrentModeUpdate(mode));
            &&& now.current_mode == Some(mode)
            &&& now.available_commands == client.available_commands
            &&& now.config_options == client.config_options && now.display == client.display
        }),
        ({
            let now = client_after(client, SessionUpdate::AvailableCommandsUpdate(commands));
            &&& now.available_commands == commands
            &&& now.current_mode == client.current_mode
            &&& now.config_options == client.config_options && now.display == client.display
        }),
        ({
            let now = client_after(client, SessionUpdate::ConfigOptionUpdate(options));
            &&& now.config_options == options
            &&& now.current_mode == client.current_mode
            &&& now.available_commands == client.available_commands && now.display == client.display
        }),
        client_after(client, SessionUpdate::AgentMessageChunk(content)) == client,
        client_after(client, SessionUpdate::Other) == client,
{
}

/// A request of the tool that asks the user is shown as a question, with the text that the
/// agent gives; any other is shown as a request for permission. Of a known agent the
/// question, or the plan that is asked about, is shown in the conversation too.
pub proof fn law_question_is_told_from_a_request(
    step: AcpStep,
    agent_id: AgentId,
    request: PermissionRequest,
    known: bool,
)
    requires
        asked(step, agent_id, request, known),
    ensures
        request.title is Some && request.title->0@ == "AskUserQuestion"@ <==> step.effect
            is QuestionDialog,
        step.effect is QuestionDialog || step.effect is PermissionDialog,
        step.effect matches AcpSideEffect::QuestionDialog { agent_id: id, question, options } ==> id
            == agent_id && options == request.options && (known ==> (step.change matches Some(
            AgentChange::AppendText(said),
        ) && said@ == question@)),
        step.effect matches AcpSideEffect::PermissionDialog { agent_id: id, params } ==> id
            == agent_id && params == request,
        !known ==> step.change is None,
        request.raw_input is None && step.effect is PermissionDialog ==> step.change is None,
        request.raw_input is None ==> (step.effect matches AcpSideEffect::QuestionDialog {
            question,
            ..
        } ==> question@ == "Question"@),
        step.opens@.len() == 0 && step.file is None && !step.stop,
{
}

/// With a tool is noted what it was given, and with news of it what came out and which files
/// it names.
pub proof fn law_input_and_output_of_a_tool_are_noted(
    step: AcpStep,
    call: ToolCallStart,
    news: ToolCallNews,
    content: Vec<ToolContent>,
    locations: Vec<ToolLocation>,
)
    ensures
        notified(step, SessionUpdate::ToolCall(call)) ==> step.change->0->StartToolCall_input@
            == shown_input(call.raw_input, call.locations@),
        notified(step, SessionUpdate::ToolCallUpdate(news)) && news.locations == Some(locations)
            ==> step.change->0->UpdateToolCall_0.input@ == shown_input(
            news.raw_input,
            locations@,
        ) && views(step.change->0->UpdateToolCall_0.paths@) == call_paths(
            locations@,
            news.raw_input,
        ),
        notified(step, SessionUpdate::ToolCallUpdate(news)) && news.content == Some(content) ==> views(
            step.change->0->UpdateToolCall_0.output@,
        ) == output_lines(content@, content@.len() as int),
{
}

} // verus!
