//! What is done about the messages of a language server.

use vstd::prelude::*;

use vstd::math::max;

use crate::acp::client::text_view;
use crate::application::startup::Action;
use crate::json::{member, Json};
use crate::mcp::positions::Selection;
use crate::text::{
    decimal, decimal_of, lemma_split_on_concat, lemma_split_on_len, lemma_unsplit, repeat, repeated,
    same, split, split_on, views,
};
use crate::ui::prompt::PromptEvent;

verus! {

/// What is known of the server that has sent a message.
#[derive(Debug)]
pub struct ServerInfo {
    pub name: String,
    pub is_initialized: bool,
    pub has_config: bool,
}

#[derive(Clone, Copy, Debug, PartialEq, Eq, Structural)]
pub enum MessageType {
    Error,
    Warning,
    Info,
    Log,
}

#[derive(Clone, Copy, Debug, PartialEq, Eq, Structural)]
pub enum Severity {
    Error,
    Warning,
    Status,
}

pub open spec fn severity_of(typ: MessageType) -> Severity {
    match typ {
        MessageType::Error => Severity::Error,
        MessageType::Warning => Severity::Warning,
        _ => Severity::Status,
    }
}

/// How a message of a server is shown, where messages are shown at all.
pub fn handle_show_message(display_messages: bool, typ: MessageType) -> (severity: Option<Severity>)
    ensures
        severity == if display_messages {
            Some(severity_of(typ))
        } else {
            None
        },
{
    if !display_messages {
        return None;
    }
    Some(
        match typ {
            MessageType::Error => Severity::Error,
            MessageType::Warning => Severity::Warning,
            _ => Severity::Status,
        },
    )
}

/// How far a piece of work has come.
#[derive(Debug)]
pub enum WorkDone {
    Begin { title: String, message: Option<String>, percentage: Option<u32> },
    Report { message: Option<String>, percentage: Option<u32> },
    End { message: Option<String> },
}

/// What is noted of a piece of work.
#[derive(Clone, Copy, Debug, PartialEq, Eq, Structural)]
pub enum ProgressChange {
    Begin,
    Update,
    /// The work has ended: the spinner stops where the server has no other.
    End,
    /// Nothing, as the server is not known.
    Skip,
}

/// What happens to the status line.
#[derive(Debug)]
pub enum StatusChange {
    Keep,
    Clear,
    Say(String),
}

#[derive(Debug)]
pub struct ProgressStep {
    pub status: StatusChange,
    pub change: ProgressChange,
}

pub open spec fn work_message(work: WorkDone) -> Option<Seq<char>> {
    match work {
        WorkDone::Begin { title, message, percentage } => text_view(message),
        WorkDone::Report { message, percentage } => text_view(message),
        WorkDone::End { message } => text_view(message),
    }
}

pub open spec fn work_percentage(work: WorkDone) -> Option<u32> {
    match work {
        WorkDone::Begin { title, message, percentage } => percentage,
        WorkDone::Report { message, percentage } => percentage,
        WorkDone::End { message } => None,
    }
}

/// The title of a piece of work: it is given at its start and known from then on.
pub open spec fn work_title(work: WorkDone, known: Option<Seq<char>>) -> Option<Seq<char>> {
    match work {
        WorkDone::Begin { title, message, percentage } => Some(title@),
        _ => known,
    }
}

/// A percentage in at least two columns.
pub open spec fn percentage_text(n: nat) -> Seq<char> {
    repeat(' ', max(2 - decimal(n).len(), 0) as nat) + decimal(n) + "% "@
}

pub open spec fn optional_text(s: Option<Seq<char>>) -> Seq<char> {
    match s {
        Some(s) => s,
        None => Seq::empty(),
    }
}

/// What the status line says of a piece of work.
pub open spec fn progress_text(
    name: Seq<char>,
    percentage: Option<u32>,
    title: Option<Seq<char>>,
    message: Option<Seq<char>>,
) -> Seq<char> {
    name + ": "@ + (match percentage {
        Some(n) => percentage_text(n as nat),
        None => Seq::empty(),
    }) + optional_text(title) + (if title is Some && message is Some {
        " ⋅ "@
    } else {
        Seq::empty()
    }) + optional_text(message)
}

/// There is something to say of the work.
pub open spec fn has_news(work: WorkDone, known: Option<Seq<char>>) -> bool {
    work_title(work, known) is Some || work_percentage(work) is Some || work_message(work) is Some
}

pub open spec fn change_of(work: WorkDone) -> ProgressChange {
    match work {
        WorkDone::Begin { .. } => ProgressChange::Begin,
        WorkDone::Report { .. } => ProgressChange::Update,
        WorkDone::End { .. } => ProgressChange::End,
    }
}

/// What is done about the progress of a piece of work.
pub open spec fn progresses(
    step: ProgressStep,
    work: WorkDone,
    server: Option<ServerInfo>,
    known_title: Option<Seq<char>>,
    display: bool,
) -> bool {
    if work is End && work_message(work) is None {
        step.status == StatusChange::Clear && step.change == ProgressChange::End
    } else if display && has_news(work, known_title) {
        match server {
            // The server is gone: its progress is left as it is.
            None => step.status == StatusChange::Keep && step.change == ProgressChange::Skip,
            Some(server) => {
                &&& step.change == change_of(work)
                &&& step.status matches StatusChange::Say(text) && text@ == progress_text(
                    server.name@,
                    work_percentage(work),
                    work_title(work, known_title),
                    work_message(work),
                )
            },
        }
    } else {
        step.status == StatusChange::Keep && step.change == change_of(work)
    }
}

fn push_percentage(text: &mut String, n: u32)
    ensures
        final(text)@ == old(text)@ + percentage_text(n as nat),
{
    let ghost start = text@;
    let digits = decimal_of(n as u64);
    let len = digits.as_str().unicode_len();
    text.append(repeated(' ', 2usize.saturating_sub(len)).as_str());
    text.append(digits.as_str());
    text.append("% ");
    assert(text@ =~= start + percentage_text(n as nat));
}

fn progress_line(
    name: &str,
    percentage: Option<u32>,
    title: Option<&String>,
    message: Option<&String>,
) -> (text: String)
    ensures
        text@ == progress_text(
            name@,
            percentage,
            match title {
                Some(title) => Some(title@),
                None => None,
            },
            match message {
                Some(message) => Some(message@),
                None => None,
            },
        ),
{
    let mut text = name.to_string();
    text.append(": ");
    if let Some(n) = percentage {
        push_percentage(&mut text, n);
    } else {
        assert(text@ =~= text@ + Seq::<char>::empty());
    }
    if let Some(title) = title {
        text.append(title.as_str());
    } else {
        assert(text@ =~= text@ + Seq::<char>::empty());
    }
    if title.is_some() && message.is_some() {
        text.append(" ⋅ ");
    } else {
        assert(text@ =~= text@ + Seq::<char>::empty());
    }
    if let Some(message) = message {
        text.append(message.as_str());
    } else {
        assert(text@ =~= text@ + Seq::<char>::empty());
    }
    text
}

/// What is done about the progress of a piece of work. `known_title` is the title
/// that it began with.
pub fn handle_progress(
    work: &WorkDone,
    server: &Option<ServerInfo>,
    known_title: &Option<String>,
    display: bool,
) -> (step: ProgressStep)
    ensures
        progresses(step, *work, *server, text_view(*known_title), display),
{
    let known: Option<&String> = match known_title {
        Some(title) => Some(title),
        None => None,
    };
    let (title, message, percentage, change): (
        Option<&String>,
        &Option<String>,
        Option<u32>,
        ProgressChange,
    ) = match work {
        WorkDone::Begin { title, message, percentage } => (
            Some(title),
            message,
            *percentage,
            ProgressChange::Begin,
        ),
        WorkDone::Report { message, percentage } => (
            known,
            message,
            *percentage,
            ProgressChange::Update,
        ),
        WorkDone::End { message } => {
            if message.is_none() {
                // we want to render to clear any leftover spinners or messages
                return ProgressStep { status: StatusChange::Clear, change: ProgressChange::End };
            }
            (known, message, None, ProgressChange::End)
        },
    };
    let message: Option<&String> = match message {
        Some(message) => Some(message),
        None => None,
    };
    if !display || (title.is_none() && percentage.is_none() && message.is_none()) {
        return ProgressStep { status: StatusChange::Keep, change };
    }
    match server {
        None => ProgressStep { status: StatusChange::Keep, change: ProgressChange::Skip },
        Some(server) => {
            let text = progress_line(server.name.as_str(), percentage, title, message);
            ProgressStep { status: StatusChange::Say(text), change }
        },
    }
}

/// A notification of a server, as far as it is understood.
#[derive(Debug)]
pub enum LspNotification {
    Initialized,
    /// The file that diagnostics are for, where its address is one of a file.
    PublishDiagnostics(Option<String>),
    ShowMessage(MessageType),
    LogMessage,
    Progress(WorkDone),
    Exit,
    Unhandled,
    Malformed,
}

/// What is done about a notification.
#[derive(Debug)]
pub enum NotificationStep {
    Ignore,
    /// The server may be used; its configuration is sent first where there is one.
    Initialized { send_config: bool },
    /// The diagnostics of the file are replaced.
    Diagnostics(String),
    /// The message is shown.
    Show(Severity),
    Progress(ProgressStep),
    /// The server is gone: the status says so, its diagnostics are dropped and it is
    /// forgotten, as `server_exit` says.
    Exited { status: String },
}

/// What is shown of the state of the screen.
#[derive(Clone, Copy, Debug, PartialEq, Eq, Structural)]
pub struct LspDisplay {
    pub display_messages: bool,
    pub display_progress: bool,
    /// A prompt is open, which the status line would cover.
    pub prompt_open: bool,
}

/// The step follows from the notification.
pub open spec fn answers(
    step: NotificationStep,
    notification: LspNotification,
    server: Option<ServerInfo>,
    known_title: Option<Seq<char>>,
    display: LspDisplay,
) -> bool {
    match notification {
        LspNotification::Initialized => step == match server {
            Some(server) => NotificationStep::Initialized { send_config: server.has_config },
            None => NotificationStep::Ignore,
        },
        LspNotification::PublishDiagnostics(path) => if path is Some && server is Some
            && server->0.is_initialized {
            step == NotificationStep::Diagnostics(path->0)
        } else {
            step == NotificationStep::Ignore
        },
        LspNotification::ShowMessage(typ) => step == if display.display_messages {
            NotificationStep::Show(severity_of(typ))
        } else {
            NotificationStep::Ignore
        },
        LspNotification::Progress(work) => if display.prompt_open {
            step == NotificationStep::Ignore
        } else {
            step matches NotificationStep::Progress(progress) && progresses(
                progress,
                work,
                server,
                known_title,
                display.display_progress,
            )
        },
        LspNotification::Exit => step matches NotificationStep::Exited { status } && status@
            == "Language server exited"@,
        _ => step == NotificationStep::Ignore,
    }
}

/// What is done about a notification of a server.
pub fn handle_notification(
    notification: LspNotification,
    server: &Option<ServerInfo>,
    known_title: &Option<String>,
    display: LspDisplay,
) -> (step: NotificationStep)
    ensures
        answers(step, notification, *server, text_view(*known_title), display),
{
    match notification {
        LspNotification::Initialized => match server {
            Some(server) => NotificationStep::Initialized { send_config: server.has_config },
            None => NotificationStep::Ignore,
        },
        LspNotification::PublishDiagnostics(path) => match path {
            None => NotificationStep::Ignore,
            Some(path) => match server {
                Some(server) => if server.is_initialized {
                    NotificationStep::Diagnostics(path)
                } else {
                    NotificationStep::Ignore
                },
                None => NotificationStep::Ignore,
            },
        },
        LspNotification::ShowMessage(typ) => match handle_show_message(
            display.display_messages,
            typ,
        ) {
            Some(severity) => NotificationStep::Show(severity),
            None => NotificationStep::Ignore,
        },
        LspNotification::Progress(work) => if display.prompt_open {
            NotificationStep::Ignore
        } else {
            NotificationStep::Progress(
                handle_progress(&work, server, known_title, display.display_progress),
            )
        },
        LspNotification::Exit => NotificationStep::Exited {
            status: "Language server exited".to_string(),
        },
        LspNotification::LogMessage => NotificationStep::Ignore,
        LspNotification::Unhandled => NotificationStep::Ignore,
        LspNotification::Malformed => NotificationStep::Ignore,
    }
}

/// The diagnostics of a file, each with the server that it comes from.
#[derive(Debug)]
pub struct FileDiagnostics {
    pub path: String,
    pub providers: Vec<Option<u64>>,
}

/// The first `n` providers without those of a server.
pub open spec fn others(providers: Seq<Option<u64>>, server: u64, n: int) -> Seq<Option<u64>>
    decreases n,
{
    if n <= 0 {
        Seq::empty()
    } else if providers[n - 1] == Some(server) {
        others(providers, server, n - 1)
    } else {
        others(providers, server, n - 1).push(providers[n - 1])
    }
}

/// The first `n` files that keep diagnostics when those of a server are dropped,
/// each with the ones that it keeps.
pub open spec fn kept(files: Seq<FileDiagnostics>, server: u64, n: int) -> Seq<
    (Seq<char>, Seq<Option<u64>>),
>
    decreases n,
{
    if n <= 0 {
        Seq::empty()
    } else {
        let before = kept(files, server, n - 1);
        let rest = others(files[n - 1].providers@, server, files[n - 1].providers@.len() as int);
        if rest.len() == 0 {
            before
        } else {
            before.push((files[n - 1].path@, rest))
        }
    }
}

pub open spec fn diagnostics_view(files: Seq<FileDiagnostics>) -> Seq<
    (Seq<char>, Seq<Option<u64>>),
> {
    Seq::new(files.len(), |i: int| (files[i].path@, files[i].providers@))
}

fn without(providers: &Vec<Option<u64>>, server: u64) -> (rest: Vec<Option<u64>>)
    ensures
        rest@ == others(providers@, server, providers@.len() as int),
{
    let mut rest: Vec<Option<u64>> = Vec::new();
    let mut i: usize = 0;
    while i < providers.len()
        invariant
            i <= providers.len(),
            rest@ == others(providers@, server, i as int),
        decreases providers.len() - i,
    {
        let keep = match providers[i] {
            Some(id) => id != server,
            None => true,
        };
        if keep {
            rest.push(providers[i]);
        }
        i += 1;
    }
    rest
}

/// The diagnostics without those of a server that is gone. Files without any are
/// left out: the server may have had some for files that were never opened.
pub fn drop_server_diagnostics(files: &Vec<FileDiagnostics>, server: u64) -> (out: Vec<
    FileDiagnostics,
>)
    ensures
        diagnostics_view(out@) == kept(files@, server, files@.len() as int),
{
    let mut out: Vec<FileDiagnostics> = Vec::new();
    let mut i: usize = 0;
    assert(diagnostics_view(out@) =~= Seq::empty());
    while i < files.len()
        invariant
            i <= files.len(),
            diagnostics_view(out@) == kept(files@, server, i as int),
        decreases files.len() - i,
    {
        let rest = without(&files[i].providers, server);
        if rest.len() > 0 {
            let ghost before = out@;
            out.push(FileDiagnostics { path: files[i].path.clone(), providers: rest });
            assert(diagnostics_view(out@) =~= diagnostics_view(before).push(
                (files@[i as int].path@, rest@),
            ));
        }
        i += 1;
    }
    out
}

/// Which of the first `n` diagnostics stay when those of a server are dropped.
pub open spec fn kept_at(providers: Seq<Option<u64>>, server: u64, n: int) -> Seq<usize>
    decreases n,
{
    if n <= 0 {
        Seq::empty()
    } else if providers[n - 1] == Some(server) {
        kept_at(providers, server, n - 1)
    } else {
        kept_at(providers, server, n - 1).push((n - 1) as usize)
    }
}

/// The indices ascend and are those of the diagnostics that are not of the server.
pub open spec fn are_kept(indices: Seq<usize>, providers: Seq<Option<u64>>, server: u64) -> bool {
    &&& forall|j: int, k: int| 0 <= j < k < indices.len() ==> indices[j] < indices[k]
    &&& forall|i: usize|
        #[trigger] indices.contains(i) <==> i < providers.len() && providers[i as int] != Some(
            server,
        )
}

/// Which diagnostics stay when those of a server are dropped, in their order.
pub fn kept_indices(providers: &Vec<Option<u64>>, server: u64) -> (indices: Vec<usize>)
    ensures
        indices@ == kept_at(providers@, server, providers@.len() as int),
        are_kept(indices@, providers@, server),
{
    let mut indices: Vec<usize> = Vec::new();
    let mut i: usize = 0;
    while i < providers.len()
        invariant
            i <= providers.len(),
            indices@ == kept_at(providers@, server, i as int),
        decreases providers.len() - i,
    {
        let keep = match providers[i] {
            Some(id) => id != server,
            None => true,
        };
        if keep {
            indices.push(i);
        }
        i += 1;
    }
    proof {
        lemma_kept_at(providers@, server, providers@.len() as int);
    }
    indices
}

proof fn lemma_kept_at(providers: Seq<Option<u64>>, server: u64, n: int)
    requires
        0 <= n <= providers.len() <= usize::MAX,
    ensures
        ({
            let kept = kept_at(providers, server, n);
            &&& forall|j: int, k: int| 0 <= j < k < kept.len() ==> kept[j] < kept[k]
            &&& forall|i: usize|
                #[trigger] kept.contains(i) <==> i < n && providers[i as int] != Some(server)
        }),
    decreases n,
{
    if n > 0 {
        lemma_kept_at(providers, server, n - 1);
        let before = kept_at(providers, server, n - 1);
        let kept = kept_at(providers, server, n);
        let last = (n - 1) as usize;
        assert forall|k: int| 0 <= k < before.len() implies before[k] < last by {
            assert(before.contains(before[k]));
        }
        assert forall|i: usize|
            #[trigger] kept.contains(i) <==> i < n && providers[i as int] != Some(server) by {
            if providers[n - 1] != Some(server) {
                if i == last {
                    assert(kept[before.len() as int] == i);
                }
                if before.contains(i) {
                    let k = choose|k: int| 0 <= k < before.len() && before[k] == i;
                    assert(kept[k] == i);
                }
                if kept.contains(i) && i != last {
                    let k = choose|k: int| 0 <= k < kept.len() && kept[k] == i;
                    assert(before[k] == i);
                }
            }
            assert(before.contains(i) <==> i < n - 1 && providers[i as int] != Some(server));
        }
    }
}

/// The diagnostics that stay are those at the kept indices.
pub proof fn law_kept_indices_name_what_stays(providers: Seq<Option<u64>>, server: u64, n: int)
    requires
        0 <= n <= providers.len() <= usize::MAX,
    ensures
        others(providers, server, n) == kept_at(providers, server, n).map_values(
            |i: usize| providers[i as int],
        ),
    decreases n,
{
    let at = |i: usize| providers[i as int];
    if n > 0 {
        law_kept_indices_name_what_stays(providers, server, n - 1);
    }
    assert(others(providers, server, n) =~= kept_at(providers, server, n).map_values(at));
}

/// The first `n` servers without one that is gone.
pub open spec fn servers_left(servers: Seq<u64>, server: u64, n: int) -> Seq<u64>
    decreases n,
{
    if n <= 0 {
        Seq::empty()
    } else if servers[n - 1] == server {
        servers_left(servers, server, n - 1)
    } else {
        servers_left(servers, server, n - 1).push(servers[n - 1])
    }
}

/// What is left when a server is gone.
#[derive(Debug)]
pub struct ServerExit {
    /// Which diagnostics each file keeps. One that keeps none leaves the list.
    pub files: Vec<Vec<usize>>,
    /// Which diagnostics each open document keeps.
    pub documents: Vec<Vec<usize>>,
    /// The servers that stay in the registry.
    pub servers: Vec<u64>,
}

/// What is left when a server is gone: of the diagnostics of all files, of those of the
/// open documents, each given by the providers of its diagnostics, and of the registry.
pub fn server_exit(
    files: &Vec<FileDiagnostics>,
    documents: &Vec<Vec<Option<u64>>>,
    servers: &Vec<u64>,
    server: u64,
) -> (exit: ServerExit)
    ensures
        exit.files@.len() == files@.len(),
        forall|i: int|
            0 <= i < files@.len() ==> are_kept(
                (#[trigger] exit.files@[i])@,
                files@[i].providers@,
                server,
            ),
        exit.documents@.len() == documents@.len(),
        forall|i: int|
            0 <= i < documents@.len() ==> are_kept(
                (#[trigger] exit.documents@[i])@,
                documents@[i]@,
                server,
            ),
        exit.servers@ == servers_left(servers@, server, servers@.len() as int),
{
    let mut kept_files: Vec<Vec<usize>> = Vec::new();
    let mut i: usize = 0;
    while i < files.len()
        invariant
            i <= files.len(),
            kept_files@.len() == i,
            forall|k: int|
                0 <= k < i ==> are_kept(
                    (#[trigger] kept_files@[k])@,
                    files@[k].providers@,
                    server,
                ),
        decreases files.len() - i,
    {
        kept_files.push(kept_indices(&files[i].providers, server));
        i += 1;
    }
    let mut kept_documents: Vec<Vec<usize>> = Vec::new();
    i = 0;
    while i < documents.len()
        invariant
            i <= documents.len(),
            kept_documents@.len() == i,
            forall|k: int|
                0 <= k < i ==> are_kept(
                    (#[trigger] kept_documents@[k])@,
                    documents@[k]@,
                    server,
                ),
        decreases documents.len() - i,
    {
        kept_documents.push(kept_indices(&documents[i], server));
        i += 1;
    }
    let mut left: Vec<u64> = Vec::new();
    i = 0;
    while i < servers.len()
        invariant
            i <= servers.len(),
            left@ == servers_left(servers@, server, i as int),
        decreases servers.len() - i,
    {
        if servers[i] != server {
            left.push(servers[i]);
        }
        i += 1;
    }
    ServerExit { files: kept_files, documents: kept_documents, servers: left }
}

/// A server that is gone leaves the registry, and every other one stays.
pub proof fn law_exited_server_leaves_the_registry(servers: Seq<u64>, server: u64, n: int)
    requires
        0 <= n <= servers.len(),
    ensures
        !servers_left(servers, server, n).contains(server),
        forall|i: int|
            0 <= i < n && (#[trigger] servers[i]) != server ==> servers_left(
                servers,
                server,
                n,
            ).contains(servers[i]),
    decreases n,
{
    if n > 0 {
        law_exited_server_leaves_the_registry(servers, server, n - 1);
        let before = servers_left(servers, server, n - 1);
        let left = servers_left(servers, server, n);
        assert forall|i: int| 0 <= i < n && (#[trigger] servers[i]) != server implies left.contains(
            servers[i],
        ) by {
            if i < n - 1 {
                let k = choose|k: int| 0 <= k < before.len() && before[k] == servers[i];
                assert(before.contains(servers[i]));
                assert(left[k] == servers[i]);
            } else {
                assert(left.last() == servers[i]);
            }
        }
        if left.contains(server) {
            let k = choose|k: int| 0 <= k < left.len() && left[k] == server;
            assert(before[k] == server);
        }
    }
}

/// The value that the parts of a section's name lead to, one after the other.
pub open spec fn value_at(config: Json, parts: Seq<Seq<char>>, n: int) -> Option<Json>
    decreases n,
{
    if n <= 0 {
        Some(config)
    } else {
        match value_at(config, parts, n - 1) {
            Some(value) => member(value, parts[n - 1]),
            None => None,
        }
    }
}

/// The part of the configuration that a section's name asks for; all of it where the
/// name is empty or there is none.
pub open spec fn section_of(config: Option<Json>, section: Option<Seq<char>>) -> Option<Json> {
    match config {
        None => None,
        Some(config) => match section {
            Some(section) if section.len() > 0 => {
                let parts = split_on(section, '.');
                value_at(config, parts, parts.len() as int)
            },
            _ => Some(config),
        },
    }
}

/// The part of the configuration that a section's name asks for.
pub fn config_section<'a>(config: Option<&'a Json>, section: &Option<String>) -> (value: Option<
    &'a Json,
>)
    ensures
        (match value {
            Some(value) => Some(*value),
            None => None,
        }) == section_of(
            match config {
                Some(config) => Some(*config),
                None => None,
            },
            text_view(*section),
        ),
{
    let ghost wanted = section_of(
        match config {
            Some(config) => Some(*config),
            None => None,
        },
        text_view(*section),
    );
    let root = match config {
        Some(config) => config,
        None => {
            return None;
        },
    };
    let name = match section {
        Some(name) => name,
        None => {
            return Some(root);
        },
    };
    // for some reason some lsps send an empty string
    if name.as_str().is_empty() {
        return Some(root);
    }
    let parts = split(name.as_str(), '.');
    let ghost all = split_on(name@, '.');
    assert(views(parts@).len() == parts@.len());
    let mut value: &'a Json = root;
    let mut i: usize = 0;
    while i < parts.len()
        invariant
            i <= parts.len(),
            all == views(parts@),
            value_at(*root, all, i as int) == Some(*value),
            all.len() == parts@.len(),
            wanted == value_at(*root, all, all.len() as int),
            wanted == section_of(
                match config {
                    Some(config) => Some(*config),
                    None => None,
                },
                text_view(*section),
            ),
        decreases parts.len() - i,
    {
        assert(all[i as int] == parts@[i as int]@);
        match value.get(parts[i].as_str()) {
            Some(next) => {
                value = next;
            },
            None => {
                proof {
                    lemma_missing_stays(*root, all, i + 1, all.len() as int);
                }
                return None;
            },
        }
        i += 1;
    }
    Some(value)
}

proof fn lemma_missing_stays(config: Json, parts: Seq<Seq<char>>, i: int, n: int)
    requires
        0 <= i <= n,
        value_at(config, parts, i) is None,
    ensures
        value_at(config, parts, n) is None,
    decreases n,
{
    if i < n {
        lemma_missing_stays(config, parts, i, n - 1);
    }
}

/// The parts of the configuration that a server asks for, one for each item; `None`
/// is sent as null.
pub fn workspace_configuration<'a>(config: Option<&'a Json>, sections: &Vec<Option<String>>) -> (out:
    Vec<Option<&'a Json>>)
    ensures
        out@.len() == sections@.len(),
        forall|i: int|
            0 <= i < out@.len() ==> (match #[trigger] out@[i] {
                Some(value) => Some(*value),
                None => None,
            }) == section_of(
                match config {
                    Some(config) => Some(*config),
                    None => None,
                },
                text_view(sections@[i]),
            ),
{
    let mut out: Vec<Option<&'a Json>> = Vec::new();
    let mut i: usize = 0;
    while i < sections.len()
        invariant
            i <= sections.len(),
            out@.len() == i,
            forall|k: int|
                0 <= k < i ==> (match #[trigger] out@[k] {
                    Some(value) => Some(*value),
                    None => None,
                }) == section_of(
                    match config {
                        Some(config) => Some(*config),
                        None => None,
                    },
                    text_view(sections@[k]),
                ),
        decreases sections.len() - i,
    {
        out.push(config_section(config, &sections[i]));
        i += 1;
    }
    out
}

/// A capability that a server registers or takes back.
#[derive(Debug)]
pub struct Registration {
    pub method: String,
    /// Its options are there and are understood.
    pub has_options: bool,
}

pub open spec fn watches_files(method: Seq<char>) -> bool {
    method == "workspace/didChangeWatchedFiles"@
}

/// Of the first `n` capabilities, those that are taken note of: the watching of
/// files, with options where these are needed.
pub open spec fn noted(all: Seq<Registration>, needs_options: bool, n: int) -> Seq<usize>
    decreases n,
{
    if n <= 0 {
        Seq::empty()
    } else if watches_files(all[n - 1].method@) && (all[n - 1].has_options || !needs_options) {
        noted(all, needs_options, n - 1).push((n - 1) as usize)
    } else {
        noted(all, needs_options, n - 1)
    }
}

fn note(all: &Vec<Registration>, needs_options: bool) -> (indices: Vec<usize>)
    ensures
        indices@ == noted(all@, needs_options, all@.len() as int),
{
    let mut indices: Vec<usize> = Vec::new();
    let mut i: usize = 0;
    while i < all.len()
        invariant
            i <= all.len(),
            indices@ == noted(all@, needs_options, i as int),
        decreases all.len() - i,
    {
        if same(all[i].method.as_str(), "workspace/didChangeWatchedFiles") && (all[i].has_options
            || !needs_options) {
            indices.push(i);
        }
        i += 1;
    }
    indices
}

/// A request of a server, as far as it is understood.
#[derive(Debug)]
pub enum LspRequest {
    /// There is no such method.
    Unhandled(String),
    /// The method was called with what it cannot take.
    Malformed(String),
    WorkDoneProgressCreate,
    ApplyWorkspaceEdit,
    WorkspaceFolders,
    WorkspaceConfiguration,
    RegisterCapability(Vec<Registration>),
    UnregisterCapability(Vec<Registration>),
    ShowDocument,
    WorkspaceDiagnosticRefresh,
    InlayHintRefresh,
    SemanticTokensRefresh,
    CodeLensRefresh,
    /// A message with so many actions to choose from.
    ShowMessageRequest { typ: MessageType, actions: usize },
}

#[derive(Clone, Copy, Debug, PartialEq, Eq, Structural)]
pub enum ErrorCode {
    MethodNotFound,
    ParseError,
    InvalidRequest,
}

/// What is done about a request.
#[derive(Debug)]
pub enum RequestStep {
    /// The server is not known, and gets no answer.
    Drop,
    /// The answer is an error.
    Fail { code: ErrorCode, message: String },
    /// The answer is null.
    Acknowledge,
    /// The work is noted, a spinner runs, and the answer is null.
    CreateProgress,
    /// The edits are made, and the answer says whether they could be.
    ApplyEdits,
    /// The answer are the folders of the workspace.
    Folders,
    /// The answer is the configuration.
    Configuration,
    /// These registrations are noted, and the answer is null.
    Register(Vec<usize>),
    /// These registrations are taken back, and the answer is null.
    Unregister(Vec<usize>),
    /// The document is shown, and the answer says whether it could be.
    ShowDocument,
    /// The diagnostics of the server's documents are asked for, and the answer is
    /// null.
    RefreshDiagnostics,
    /// The inlay hints of the server's documents are computed, and the answer is
    /// null.
    RefreshHints,
    /// A dialog asks for an action, which is the answer.
    Ask,
    /// The message is shown where messages are, and the answer is null.
    Show(Option<Severity>),
}

pub open spec fn fails(step: RequestStep, error: ErrorCode, text: Seq<char>) -> bool {
    step matches RequestStep::Fail { code, message } && code == error && message@ == text
}

/// The step follows from the request.
pub open spec fn replies(
    step: RequestStep,
    request: LspRequest,
    server: Option<ServerInfo>,
    display_messages: bool,
) -> bool {
    let known = server is Some;
    match request {
        LspRequest::Unhandled(method) => fails(
            step,
            ErrorCode::MethodNotFound,
            "Method not found: "@ + method@,
        ),
        LspRequest::Malformed(method) => fails(
            step,
            ErrorCode::ParseError,
            "Malformed method call: "@ + method@,
        ),
        LspRequest::WorkDoneProgressCreate => step == RequestStep::CreateProgress,
        LspRequest::ApplyWorkspaceEdit => if !known {
            step == RequestStep::Drop
        } else if server->0.is_initialized {
            step == RequestStep::ApplyEdits
        } else {
            fails(
                step,
                ErrorCode::InvalidRequest,
                "Server must be initialized to request workspace edits"@,
            )
        },
        LspRequest::WorkspaceFolders => step == if known {
            RequestStep::Folders
        } else {
            RequestStep::Drop
        },
        LspRequest::WorkspaceConfiguration => step == if known {
            RequestStep::Configuration
        } else {
            RequestStep::Drop
        },
        LspRequest::RegisterCapability(all) => step matches RequestStep::Register(indices)
            && indices@ == if known {
            noted(all@, true, all@.len() as int)
        } else {
            Seq::empty()
        },
        LspRequest::UnregisterCapability(all) => step matches RequestStep::Unregister(indices)
            && indices@ == noted(all@, false, all@.len() as int),
        LspRequest::ShowDocument => step == if known {
            RequestStep::ShowDocument
        } else {
            RequestStep::Drop
        },
        LspRequest::WorkspaceDiagnosticRefresh => step == if known {
            RequestStep::RefreshDiagnostics
        } else {
            RequestStep::Drop
        },
        LspRequest::InlayHintRefresh => step == if known {
            RequestStep::RefreshHints
        } else {
            RequestStep::Drop
        },
        LspRequest::SemanticTokensRefresh => step == RequestStep::Acknowledge,
        LspRequest::CodeLensRefresh => step == RequestStep::Acknowledge,
        LspRequest::ShowMessageRequest { typ, actions } => step == if actions > 0 {
            RequestStep::Ask
        } else {
            RequestStep::Show(
                if display_messages {
                    Some(severity_of(typ))
                } else {
                    None
                },
            )
        },
    }
}

fn failure(code: ErrorCode, text: &str, method: &str) -> (step: RequestStep)
    ensures
        fails(step, code, text@ + method@),
{
    let mut message = text.to_string();
    message.append(method);
    RequestStep::Fail { code, message }
}

/// What is done about a request of a server.
pub fn handle_request(
    request: &LspRequest,
    server: &Option<ServerInfo>,
    display_messages: bool,
) -> (step: RequestStep)
    ensures
        replies(step, *request, *server, display_messages),
{
    let known = server.is_some();
    match request {
        LspRequest::Unhandled(method) => failure(
            ErrorCode::MethodNotFound,
            "Method not found: ",
            method.as_str(),
        ),
        LspRequest::Malformed(method) => failure(
            ErrorCode::ParseError,
            "Malformed method call: ",
            method.as_str(),
        ),
        LspRequest::WorkDoneProgressCreate => RequestStep::CreateProgress,
        LspRequest::ApplyWorkspaceEdit => match server {
            None => RequestStep::Drop,
            Some(server) => if server.is_initialized {
                RequestStep::ApplyEdits
            } else {
                RequestStep::Fail {
                    code: ErrorCode::InvalidRequest,
                    message: "Server must be initialized to request workspace edits".to_string(),
                }
            },
        },
        LspRequest::WorkspaceFolders => if known {
            RequestStep::Folders
        } else {
            RequestStep::Drop
        },
        LspRequest::WorkspaceConfiguration => if known {
            RequestStep::Configuration
        } else {
            RequestStep::Drop
        },
        // Servers often register capabilities although dynamic registration is not
        // enabled. An error would make some of them exit, so that the others are
        // left out and the request is acknowledged.
        LspRequest::RegisterCapability(all) => if known {
            RequestStep::Register(note(all, true))
        } else {
            RequestStep::Register(Vec::new())
        },
        LspRequest::UnregisterCapability(all) => RequestStep::Unregister(note(all, false)),
        LspRequest::ShowDocument => if known {
            RequestStep::ShowDocument
        } else {
            RequestStep::Drop
        },
        LspRequest::WorkspaceDiagnosticRefresh => if known {
            RequestStep::RefreshDiagnostics
        } else {
            RequestStep::Drop
        },
        LspRequest::InlayHintRefresh => if known {
            RequestStep::RefreshHints
        } else {
            RequestStep::Drop
        },
        LspRequest::SemanticTokensRefresh => RequestStep::Acknowledge,
        LspRequest::CodeLensRefresh => RequestStep::Acknowledge,
        LspRequest::ShowMessageRequest { typ, actions } => if *actions > 0 {
            RequestStep::Ask
        } else {
            RequestStep::Show(handle_show_message(display_messages, *typ))
        },
    }
}

/// Whether the answer that a step speaks of is sent: the server must be there to get
/// it, and an action that is asked for is sent when the user has chosen it.
pub fn is_answered(step: &RequestStep, is_known: bool) -> (b: bool)
    ensures
        b == (is_known && step !is Drop && step !is Ask),
{
    match step {
        RequestStep::Drop => false,
        RequestStep::Ask => false,
        _ => is_known,
    }
}

/// What a server is told of the actions that a message offers.
#[derive(Clone, Copy, Debug, PartialEq, Eq, Structural)]
pub enum ActionReply {
    /// Nothing yet.
    Wait,
    /// The action that was chosen.
    Chosen,
    /// That none was.
    Declined,
}

/// What a server is told when the dialog with the actions of its message reports.
pub fn action_reply(event: PromptEvent) -> (reply: ActionReply)
    ensures
        reply == match event {
            PromptEvent::Update => ActionReply::Wait,
            PromptEvent::Validate => ActionReply::Chosen,
            PromptEvent::Abort => ActionReply::Declined,
        },
{
    match event {
        PromptEvent::Update => ActionReply::Wait,
        PromptEvent::Validate => ActionReply::Chosen,
        PromptEvent::Abort => ActionReply::Declined,
    }
}

/// Why edits could not be made, and the first of them that could not.
#[derive(Debug)]
pub struct EditFailure {
    pub reason: String,
    pub index: u32,
}

/// The answer to a server that wants edits to be made.
#[derive(Debug)]
pub struct EditResponse {
    pub applied: bool,
    pub failure_reason: Option<String>,
    pub failed_change: Option<u32>,
}

pub fn edit_response(failure: &Option<EditFailure>) -> (response: EditResponse)
    ensures
        response.applied == (failure is None),
        match failure {
            None => response.failure_reason is None && response.failed_change is None,
            Some(failure) => {
                &&& text_view(response.failure_reason) == Some(failure.reason@)
                &&& response.failed_change == Some(failure.index)
            },
        },
{
    match failure {
        None => EditResponse { applied: true, failure_reason: None, failed_change: None },
        Some(failure) => EditResponse {
            applied: false,
            failure_reason: Some(failure.reason.clone()),
            failed_change: Some(failure.index),
        },
    }
}

/// How a document is shown that a server wants to be.
#[derive(Debug)]
pub enum ShowStep {
    /// Another program shows it.
    External,
    /// It cannot be shown.
    Fail,
    Open { path: String, action: Action },
}

/// How a document is shown that a server wants to be: `path` is the file that its
/// address names, where it is one of a file.
pub fn handle_show_document(
    external: Option<bool>,
    path: Option<String>,
    take_focus: Option<bool>,
) -> (step: ShowStep)
    ensures
        step == if external == Some(true) {
            ShowStep::External
        } else {
            match path {
                None => ShowStep::Fail,
                Some(path) => ShowStep::Open {
                    path,
                    action: if take_focus == Some(true) {
                        Action::Replace
                    } else {
                        Action::VerticalSplit
                    },
                },
            }
        },
{
    if let Some(true) = external {
        return ShowStep::External;
    }
    match path {
        None => ShowStep::Fail,
        Some(path) => {
            let action = match take_focus {
                Some(true) => Action::Replace,
                _ => Action::VerticalSplit,
            };
            ShowStep::Open { path, action }
        },
    }
}

/// The selection in a document that a server has shown: it is turned round, so that
/// the cursor sits on the start of the symbol.
pub fn shown_selection(range: Selection) -> (selection: Selection)
    ensures
        selection.anchor == range.head,
        selection.head == range.anchor,
{
    Selection { anchor: range.head, head: range.anchor }
}

/// No diagnostics of a server that is gone are left, and all others are.
pub proof fn law_gone_server_leaves_no_diagnostics(
    providers: Seq<Option<u64>>,
    server: u64,
    n: int,
)
    requires
        0 <= n <= providers.len(),
    ensures
        !others(providers, server, n).contains(Some(server)),
        forall|i: int|
            0 <= i < n && #[trigger] providers[i] != Some(server) ==> others(
                providers,
                server,
                n,
            ).contains(providers[i]),
    decreases n,
{
    if n > 0 {
        law_gone_server_leaves_no_diagnostics(providers, server, n - 1);
        let before = others(providers, server, n - 1);
        let all = others(providers, server, n);
        if providers[n - 1] != Some(server) {
            assert forall|i: int| 0 <= i < n && #[trigger] providers[i] != Some(
                server,
            ) implies all.contains(providers[i]) by {
                if i < n - 1 {
                    let k = choose|k: int|
                        0 <= k < before.len() && before[k] == providers[i];
                    assert(all[k] == before[k]);
                } else {
                    assert(all[all.len() - 1] == providers[i]);
                }
            }
            assert forall|k: int| 0 <= k < all.len() implies all[k] != Some(server) by {
                if k < before.len() {
                    assert(before.contains(before[k]));
                }
            }
        }
    }
}

/// The diagnostics of a server are dropped, and all others stay in their order.
pub proof fn law_diagnostics_of_other_servers_stay(providers: Seq<Option<u64>>, server: u64, n: int)
    requires
        0 <= n <= providers.len(),
    ensures
        others(providers, server, n) == providers.take(n).filter(|x: Option<u64>| x != Some(server)),
    decreases n,
{
    reveal(Seq::filter);
    if n > 0 {
        law_diagnostics_of_other_servers_stay(providers, server, n - 1);
        assert(providers.take(n).drop_last() =~= providers.take(n - 1));
    }
}

/// A server that is gone is dropped, and all others stay in their order.
pub proof fn law_other_servers_stay(servers: Seq<u64>, server: u64, n: int)
    requires
        0 <= n <= servers.len(),
    ensures
        servers_left(servers, server, n) == servers.take(n).filter(|x: u64| x != server),
    decreases n,
{
    reveal(Seq::filter);
    if n > 0 {
        law_other_servers_stay(servers, server, n - 1);
        assert(servers.take(n).drop_last() =~= servers.take(n - 1));
    }
}

/// A file keeps the diagnostics of other servers, in their order; a file that keeps none is
/// dropped.
pub proof fn law_files_keep_the_diagnostics_of_others(
    files: Seq<FileDiagnostics>,
    server: u64,
    n: int,
)
    requires
        0 <= n <= files.len(),
    ensures
        kept(files, server, n) == files.take(n).map_values(
            |f: FileDiagnostics|
                (f.path@, f.providers@.filter(|x: Option<u64>| x != Some(server))),
        ).filter(|f: (Seq<char>, Seq<Option<u64>>)| f.1.len() > 0),
    decreases n,
{
    reveal(Seq::filter);
    let all = files.take(n).map_values(
        |f: FileDiagnostics| (f.path@, f.providers@.filter(|x: Option<u64>| x != Some(server))),
    );
    if n > 0 {
        law_files_keep_the_diagnostics_of_others(files, server, n - 1);
        let providers = files[n - 1].providers@;
        law_diagnostics_of_other_servers_stay(providers, server, providers.len() as int);
        assert(providers.take(providers.len() as int) =~= providers);
        assert(all.drop_last() =~= files.take(n - 1).map_values(
            |f: FileDiagnostics|
                (f.path@, f.providers@.filter(|x: Option<u64>| x != Some(server))),
        ));
    }
}

/// The capabilities that are noted are those that watch files, and have options where these
/// are needed; each of them is noted once, and in order.
pub proof fn law_noted_capabilities_watch_files(
    all: Seq<Registration>,
    needs_options: bool,
    n: int,
)
    requires
        0 <= n <= all.len() <= usize::MAX,
    ensures
        forall|j: int, k: int|
            0 <= j < k < noted(all, needs_options, n).len() ==> noted(all, needs_options, n)[j]
                < noted(all, needs_options, n)[k],
        forall|i: usize|
            #[trigger] noted(all, needs_options, n).contains(i) <==> i < n && all[i as int].method@
                == "workspace/didChangeWatchedFiles"@ && (needs_options ==> all[i as int].has_options),
    decreases n,
{
    let now = noted(all, needs_options, n);
    if n > 0 {
        law_noted_capabilities_watch_files(all, needs_options, n - 1);
        let before = noted(all, needs_options, n - 1);
        assert forall|j: int, k: int| 0 <= j < k < now.len() implies now[j] < now[k] by {
            if k == before.len() {
                assert(before.contains(before[j]));
                assert(now[j] == before[j]);
            }
        }
        assert forall|i: usize|
            #[trigger] now.contains(i) <==> i < n && all[i as int].method@
                == "workspace/didChangeWatchedFiles"@ && (needs_options
                ==> all[i as int].has_options) by {
            if now.contains(i) {
                let j = choose|j: int| 0 <= j < now.len() && now[j] == i;
                if j < before.len() {
                    assert(before[j] == i);
                    assert(before.contains(i));
                }
            }
            if before.contains(i) {
                let j = choose|j: int| 0 <= j < before.len() && before[j] == i;
                assert(now[j] == i);
            }
            if i == n - 1 && now.len() > before.len() {
                assert(now[before.len() as int] == i);
            }
        }
    } else {
        assert(now =~= Seq::empty());
    }
}

proof fn lemma_value_behind(config: Json, parts: Seq<Seq<char>>, n: int)
    requires
        1 <= n <= parts.len(),
    ensures
        value_at(config, parts, n) == match member(config, parts[0]) {
            Some(value) => value_at(value, parts.skip(1), n - 1),
            None => None,
        },
    decreases n,
{
    reveal_with_fuel(value_at, 2);
    if n > 1 {
        lemma_value_behind(config, parts, n - 1);
        assert(parts.skip(1)[n - 2] == parts[n - 1]);
    }
}

/// The name of a section leads from part to part: what stands before its first dot is the
/// key of a value, and the rest the name of a section in it. Without a name all of the
/// configuration is meant.
pub proof fn law_section_is_found_part_by_part(
    config: Json,
    key: Seq<char>,
    rest: Seq<char>,
)
    requires
        !key.contains('.'),
        rest.len() > 0,
    ensures
        section_of(Some(config), None) == Some(config),
        section_of(Some(config), Some(Seq::empty())) == Some(config),
        key.len() > 0 ==> section_of(Some(config), Some(key)) == member(config, key),
        section_of(Some(config), Some(key + seq!['.'] + rest)) == (match member(config, key) {
            Some(value) => section_of(Some(value), Some(rest)),
            None => None,
        }),
        section_of(None, Some(key)) is None,
{
    lemma_unsplit(key, '.');
    let whole = key + seq!['.'] + rest;
    let dotted = key + seq!['.'];
    lemma_unsplit(key, '.');
    assert(dotted.drop_last() =~= key);
    assert(split_on(dotted, '.') =~= seq![key, Seq::<char>::empty()]);
    lemma_split_on_concat(dotted, rest, '.');
    lemma_split_on_len(rest, '.');
    let tail = split_on(rest, '.');
    assert(Seq::<char>::empty() + tail.first() =~= tail.first());
    assert(split_on(whole, '.') =~= seq![key] + tail);
    let parts = split_on(whole, '.');
    assert(parts.skip(1) =~= tail);
    lemma_value_behind(config, parts, parts.len() as int);
    if key.len() > 0 {
        let one = split_on(key, '.');
        assert(one =~= seq![key]);
        lemma_value_behind(config, one, 1);
    }
}

/// What is said of a piece of work: the server, the percentage in two columns, the title,
/// and the message behind a dot.
pub proof fn law_progress_names_what_is_known(
    name: Seq<char>,
    percentage: u32,
    title: Seq<char>,
    message: Seq<char>,
)
    ensures
        percentage >= 10 ==> progress_text(name, Some(percentage), Some(title), Some(message)) == name
            + ": "@ + decimal(percentage as nat) + "% "@ + title + " ⋅ "@ + message,
        percentage < 10 ==> progress_text(name, Some(percentage), Some(title), Some(message)) == name
            + ": "@ + " "@ + decimal(percentage as nat) + "% "@ + title + " ⋅ "@ + message,
        progress_text(name, None, Some(title), Some(message)) == name + ": "@ + title + " ⋅ "@
            + message,
        progress_text(name, None, Some(title), None) == name + ": "@ + title,
        progress_text(name, None, None, Some(message)) == name + ": "@ + message,
{
    reveal_strlit(" ");
    let digits = decimal(percentage as nat);
    if percentage < 10 {
        assert(digits.len() == 1);
        assert(repeat(' ', 1) =~= " "@);
        assert(progress_text(name, Some(percentage), Some(title), Some(message)) =~= name + ": "@
            + " "@ + digits + "% "@ + title + " ⋅ "@ + message);
    } else {
        assert(decimal((percentage / 10) as nat).len() >= 1);
        assert(digits.len() >= 2);
        assert(repeat(' ', 0) =~= Seq::<char>::empty());
        assert(progress_text(name, Some(percentage), Some(title), Some(message)) =~= name + ": "@
            + digits + "% "@ + title + " ⋅ "@ + message);
    }
    assert(progress_text(name, None, Some(title), Some(message)) =~= name + ": "@ + title + " ⋅ "@
        + message);
    assert(progress_text(name, None, Some(title), None) =~= name + ": "@ + title);
    assert(progress_text(name, None, None, Some(message)) =~= name + ": "@ + message);
}

/// Work that ends without a word clears the status line. What else is known of it is said
/// where progress is shown and the server is there, and the line is left alone where not.
pub proof fn law_progress_is_shown_where_asked_for(
    step: ProgressStep,
    work: WorkDone,
    server: Option<ServerInfo>,
    known_title: Option<Seq<char>>,
    display: bool,
)
    requires
        progresses(step, work, server, known_title, display),
    ensures
        work matches WorkDone::End { message } && message is None ==> step.status
            == StatusChange::Clear && step.change == ProgressChange::End,
        step.status == StatusChange::Clear ==> work is End && work->End_message is None,
        step.status is Say ==> display && server is Some,
        !display && !(work is End) ==> step.status == StatusChange::Keep,
        step.change == ProgressChange::Begin ==> work is Begin,
        step.change == ProgressChange::Update ==> work is Report,
        step.change == ProgressChange::End ==> work is End,
        step.change == ProgressChange::Skip ==> server is None && display,
        display && server is Some && work is Begin ==> step.status is Say && step.change
            == ProgressChange::Begin,
        display && server is Some && known_title is Some && work is Report ==> step.status is Say,
{
}

/// What a server notifies of is taken up as the state of things allows: diagnostics only of
/// a server that is ready, messages and progress only where they are shown.
pub proof fn law_notifications_are_taken_up(
    step: NotificationStep,
    notification: LspNotification,
    server: Option<ServerInfo>,
    known_title: Option<Seq<char>>,
    display: LspDisplay,
)
    requires
        answers(step, notification, server, known_title, display),
    ensures
        step is Diagnostics ==> server is Some && server->0.is_initialized
            && notification is PublishDiagnostics && notification->PublishDiagnostics_0 == Some(
            step->Diagnostics_0,
        ),
        server is Some && server->0.is_initialized && (notification matches
            LspNotification::PublishDiagnostics(path) && path is Some) ==> step is Diagnostics,
        step is Initialized <==> notification is Initialized && server is Some,
        step is Initialized ==> step->send_config == server->0.has_config,
        step is Show <==> notification is ShowMessage && display.display_messages,
        step is Show && (notification->ShowMessage_0 is Error) ==> step->Show_0 == Severity::Error,
        step is Show && (notification->ShowMessage_0 is Warning) ==> step->Show_0
            == Severity::Warning,
        step is Show && (notification->ShowMessage_0 is Info || notification->ShowMessage_0 is Log)
            ==> step->Show_0 == Severity::Status,
        step is Progress <==> notification is Progress && !display.prompt_open,
        step is Exited <==> notification is Exit,
        notification is LogMessage || notification is Unhandled || notification is Malformed
            ==> step is Ignore,
{
}

/// A request that is not known, or cannot be read, is answered by an error that names it.
/// What needs the server is dropped where it is gone, and edits are made only for a server
/// that is ready.
pub proof fn law_requests_are_answered(
    step: RequestStep,
    request: LspRequest,
    server: Option<ServerInfo>,
    display_messages: bool,
)
    requires
        replies(step, request, server, display_messages),
    ensures
        request is Unhandled ==> step is Fail && step->code == ErrorCode::MethodNotFound
            && step->message@ == "Method not found: "@ + request->Unhandled_0@,
        request is Malformed ==> step is Fail && step->code == ErrorCode::ParseError
            && step->message@ == "Malformed method call: "@ + request->Malformed_0@,
        step is ApplyEdits <==> request is ApplyWorkspaceEdit && server is Some
            && server->0.is_initialized,
        request is ApplyWorkspaceEdit && server is Some && !server->0.is_initialized ==> step is Fail
            && step->code == ErrorCode::InvalidRequest,
        step is Drop ==> server is None,
        server is None && (request is ApplyWorkspaceEdit || request is WorkspaceFolders || request
            is WorkspaceConfiguration || request is ShowDocument || request
            is WorkspaceDiagnosticRefresh || request is InlayHintRefresh) ==> step is Drop,
        step is Folders <==> request is WorkspaceFolders && server is Some,
        step is Configuration <==> request is WorkspaceConfiguration && server is Some,
        step is ShowDocument <==> request is ShowDocument && server is Some,
        step is RefreshDiagnostics <==> request is WorkspaceDiagnosticRefresh && server is Some,
        step is RefreshHints <==> request is InlayHintRefresh && server is Some,
        step is CreateProgress <==> request is WorkDoneProgressCreate,
        step is Ask <==> request is ShowMessageRequest && request->actions > 0,
        step is Acknowledge <==> request is SemanticTokensRefresh || request is CodeLensRefresh,
        request is RegisterCapability && server is None ==> step is Register
            && step->Register_0@.len() == 0,
{
}

} // verus!
