//! What is done about the events of the editor, of the terminal and of the system.

use vstd::prelude::*;

use crate::claude_ide::{stop, Session};
use crate::editor::Editor;
use crate::text::views;

verus! {

/// A change of the configuration.
#[derive(Clone, Copy, Debug, PartialEq, Eq, Structural)]
pub enum ConfigEvent {
    /// The files of the configuration are to be read again.
    Refresh,
    /// The configuration was changed from inside.
    Update,
    ThemeChanged,
}

/// What is done about a change of the configuration, in this order.
#[derive(Clone, Copy, Debug, PartialEq, Eq, Structural)]
pub struct ConfigStep {
    /// Read the files again.
    pub reload: bool,
    /// Take over the changed configuration.
    pub store: bool,
    /// Give the terminal the background of the theme.
    pub set_background: bool,
    /// Bring the editor and its views up to date.
    pub refresh_editor: bool,
}

pub fn handle_config_events(event: ConfigEvent) -> (step: ConfigStep)
    ensures
        step == (ConfigStep {
            reload: event == ConfigEvent::Refresh,
            store: event == ConfigEvent::Update,
            set_background: event == ConfigEvent::ThemeChanged,
            refresh_editor: event != ConfigEvent::ThemeChanged,
        }),
{
    ConfigStep {
        reload: event == ConfigEvent::Refresh,
        store: event == ConfigEvent::Update,
        set_background: event == ConfigEvent::ThemeChanged,
        refresh_editor: event != ConfigEvent::ThemeChanged,
    }
}

/// What the status line says after the configuration was read again, and whether it
/// is an error.
pub fn refresh_message(result: &Result<(), String>) -> (message: (String, bool))
    ensures
        match result {
            Ok(_) => message.0@ == "Config refreshed"@ && !message.1,
            Err(error) => message.0@ == error@ && message.1,
        },
{
    match result {
        Ok(_) => ("Config refreshed".to_string(), false),
        Err(error) => (error.clone(), true),
    }
}

/// What is known of the theme of the configuration.
#[derive(Clone, Copy, Debug, PartialEq, Eq, Structural)]
pub enum ConfiguredTheme {
    /// There is none, or it cannot be read.
    Missing,
    Loaded { is_16_color: bool },
}

/// Which theme is used.
#[derive(Clone, Copy, Debug, PartialEq, Eq, Structural)]
pub enum ThemeChoice {
    Configured,
    Default { true_color: bool },
}

/// Which theme is used: the configured one where its colors can be shown, else the
/// default one.
pub fn load_configured_theme(
    terminal_true_color: bool,
    config_true_color: bool,
    env_true_color: bool,
    theme: ConfiguredTheme,
) -> (choice: ThemeChoice)
    ensures
        ({
            let true_color = terminal_true_color || config_true_color || env_true_color;
            choice == match theme {
                ConfiguredTheme::Loaded { is_16_color } if true_color || is_16_color => {
                    ThemeChoice::Configured
                },
                _ => ThemeChoice::Default { true_color },
            }
        }),
{
    let true_color = terminal_true_color || config_true_color || env_true_color;
    match theme {
        ConfiguredTheme::Loaded { is_16_color } => if true_color || is_16_color {
            ThemeChoice::Configured
        } else {
            ThemeChoice::Default { true_color }
        },
        ConfiguredTheme::Missing => ThemeChoice::Default { true_color },
    }
}

/// A signal that the editor listens for.
#[derive(Clone, Copy, Debug, PartialEq, Eq, Structural)]
pub enum Signal {
    /// SIGTSTP
    Suspend,
    /// SIGCONT
    Resume,
    /// SIGUSR1
    Reload,
    /// SIGTERM
    Terminate,
    /// SIGINT
    Interrupt,
}

/// What is done about a signal.
#[derive(Clone, Copy, Debug, PartialEq, Eq, Structural)]
pub enum SignalStep {
    /// Give the terminal back and stop the whole process group.
    Stop,
    /// Take the terminal and draw everything anew.
    Claim,
    /// Read the configuration again and draw.
    RefreshConfig,
    /// Give the terminal back and end.
    Quit,
}

pub fn handle_signals(signal: Signal) -> (step: SignalStep)
    ensures
        step == match signal {
            Signal::Suspend => SignalStep::Stop,
            Signal::Resume => SignalStep::Claim,
            Signal::Reload => SignalStep::RefreshConfig,
            Signal::Terminate => SignalStep::Quit,
            Signal::Interrupt => SignalStep::Quit,
        },
{
    match signal {
        Signal::Suspend => SignalStep::Stop,
        Signal::Resume => SignalStep::Claim,
        Signal::Reload => SignalStep::RefreshConfig,
        Signal::Terminate => SignalStep::Quit,
        Signal::Interrupt => SignalStep::Quit,
    }
}

/// How often the terminal is claimed before the editor gives up.
pub const CLAIM_TRIES: u32 = 10;

/// Whether the terminal is to be claimed once more after it could not be for the
/// `tries`-th time.
pub fn claim_again(tries: u32) -> (b: bool)
    ensures
        b == (tries < CLAIM_TRIES),
{
    tries < CLAIM_TRIES
}

/// The code that the editor exits with where the process group cannot be stopped.
pub fn stop_exit_code(os_error: Option<i32>) -> (code: i32)
    ensures
        code == match os_error {
            Some(error) => error,
            None => 1,
        },
{
    match os_error {
        Some(error) => error,
        None => 1,
    }
}

/// An event of the editor.
#[derive(Clone, Copy, Debug, PartialEq, Eq, Structural)]
pub enum EditorEvent {
    DocumentSaved,
    ConfigEvent,
    LanguageServerMessage,
    /// A debugger has sent something; whether it changes what is shown is known once
    /// it has been handled.
    DebuggerEvent { needs_render: bool },
    AcpMessage,
    Redraw,
    /// Nothing has happened for a while; `redraw` says whether a panel asks to be
    /// drawn anew or the editor needs it.
    IdleTimer { redraw: bool },
}

/// How the screen is brought up to date.
#[derive(Clone, Copy, Debug, PartialEq, Eq, Structural)]
pub enum Drawing {
    Nothing,
    Now,
    /// Soon: language servers send too fast to draw after each message.
    Requested,
}

/// How the screen is brought up to date after an event of the editor was handled.
pub fn handle_editor_event(event: EditorEvent) -> (drawing: Drawing)
    ensures
        drawing == match event {
            EditorEvent::LanguageServerMessage => Drawing::Requested,
            EditorEvent::DebuggerEvent { needs_render } => if needs_render {
                Drawing::Now
            } else {
                Drawing::Nothing
            },
            EditorEvent::IdleTimer { redraw } => if redraw {
                Drawing::Now
            } else {
                Drawing::Nothing
            },
            _ => Drawing::Now,
        },
{
    match event {
        EditorEvent::DocumentSaved => Drawing::Now,
        EditorEvent::ConfigEvent => Drawing::Now,
        EditorEvent::LanguageServerMessage => Drawing::Requested,
        EditorEvent::DebuggerEvent { needs_render } => if needs_render {
            Drawing::Now
        } else {
            Drawing::Nothing
        },
        EditorEvent::AcpMessage => Drawing::Now,
        EditorEvent::Redraw => Drawing::Now,
        EditorEvent::IdleTimer { redraw } => if redraw {
            Drawing::Now
        } else {
            Drawing::Nothing
        },
    }
}

/// Whether the screen is drawn after nothing has happened for a while.
pub fn handle_idle_timeout(should_render: bool, needs_redraw: bool) -> (b: bool)
    ensures
        b == (should_render || needs_redraw),
{
    should_render || needs_redraw
}

/// What the editor waits for. Where several are ready the first of these is taken.
#[derive(Clone, Copy, Debug, PartialEq, Eq, Structural)]
pub enum LoopEvent {
    /// A signal, and whether the editor goes on after it.
    Signal { goes_on: bool },
    Terminal,
    /// A job wants something to be done.
    Callback,
    /// A message for the status line.
    StatusMessage,
    /// A job is done.
    Finished,
    Editor,
    /// A command of a tool, where the channel for them is still open.
    Command,
}

/// What the loop does after it has handled an event.
#[derive(Clone, Copy, Debug, PartialEq, Eq, Structural)]
pub struct LoopStep {
    pub goes_on: bool,
    pub drawing: Drawing,
}

/// Whether the loop goes on after an event, and how the screen is brought up to date
/// where the event does not see to that itself. `should_close` says whether the editor
/// is to be closed now.
pub fn event_loop_step(event: LoopEvent, should_close: bool) -> (step: LoopStep)
    ensures
        step.goes_on == (!should_close && match event {
            LoopEvent::Signal { goes_on } => goes_on,
            _ => true,
        }),
        step.drawing == match event {
            LoopEvent::Callback => Drawing::Now,
            LoopEvent::Finished => Drawing::Now,
            LoopEvent::StatusMessage => Drawing::Requested,
            _ => Drawing::Nothing,
        },
{
    let goes_on = match event {
        LoopEvent::Signal { goes_on } => goes_on && !should_close,
        _ => !should_close,
    };
    let drawing = match event {
        LoopEvent::Callback => Drawing::Now,
        LoopEvent::Finished => Drawing::Now,
        LoopEvent::StatusMessage => Drawing::Requested,
        _ => Drawing::Nothing,
    };
    LoopStep { goes_on, drawing }
}

/// An event of the terminal.
#[derive(Clone, Copy, Debug, PartialEq, Eq, Structural)]
pub enum TerminalEvent {
    Resized { columns: u16, rows: u16 },
    KeyReleased,
    /// The terminal has turned light or dark.
    ThemeReported,
    /// An escape sequence of another kind.
    Escape,
    /// Anything that the panels can handle.
    Input,
}

/// What is done about an event of the terminal.
#[derive(Clone, Copy, Debug, PartialEq, Eq, Structural)]
pub enum TerminalStep {
    /// The screen takes the new size and the panels are told of it.
    Resize { columns: u16, rows: u16 },
    Ignore,
    /// The theme for the mode is loaded.
    LoadTheme,
    /// The panels handle it.
    Handle,
}

pub fn handle_terminal_events(event: TerminalEvent) -> (step: TerminalStep)
    ensures
        step == match event {
            TerminalEvent::Resized { columns, rows } => TerminalStep::Resize { columns, rows },
            TerminalEvent::KeyReleased => TerminalStep::Ignore,
            TerminalEvent::ThemeReported => TerminalStep::LoadTheme,
            TerminalEvent::Escape => TerminalStep::Ignore,
            TerminalEvent::Input => TerminalStep::Handle,
        },
{
    match event {
        TerminalEvent::Resized { columns, rows } => TerminalStep::Resize { columns, rows },
        TerminalEvent::KeyReleased => TerminalStep::Ignore,
        TerminalEvent::ThemeReported => TerminalStep::LoadTheme,
        TerminalEvent::Escape => TerminalStep::Ignore,
        TerminalEvent::Input => TerminalStep::Handle,
    }
}

/// The events of the terminal that are let through: all but escape sequences, of
/// which only reports of the theme are.
pub fn accepts(event: TerminalEvent) -> (b: bool)
    ensures
        b == (event != TerminalEvent::Escape),
{
    match event {
        TerminalEvent::Escape => false,
        _ => true,
    }
}

/// Whether the screen is drawn after an event of the terminal; `handled` is what the
/// panels say of it where they were asked.
pub fn redraws(step: TerminalStep, handled: bool, should_close: bool) -> (b: bool)
    ensures
        b == (!should_close && match step {
            TerminalStep::Ignore => false,
            TerminalStep::LoadTheme => true,
            _ => handled,
        }),
{
    if should_close {
        return false;
    }
    match step {
        TerminalStep::Ignore => false,
        TerminalStep::LoadTheme => true,
        TerminalStep::Resize { columns, rows } => handled,
        TerminalStep::Handle => handled,
    }
}

pub open spec fn listed(error: Option<String>) -> Seq<Seq<char>> {
    match error {
        Some(error) => seq![error@],
        None => Seq::empty(),
    }
}

pub open spec fn shutdown_error(timed_out: bool) -> Seq<Seq<char>> {
    if timed_out {
        seq!["Timed out waiting for language servers to shutdown"@]
    } else {
        Seq::empty()
    }
}

/// The end of the application.
#[derive(Debug)]
pub struct Closing {
    /// The errors on the way out.
    pub errors: Vec<String>,
    /// The session whose server is to be stopped, and whose lock file is to be removed.
    pub session: Option<Session>,
}

/// End the application: the server for command line agents is detached, whatever failed
/// before. None of the errors keeps the rest from being done.
pub fn close(
    editor: &mut Editor,
    jobs: Option<String>,
    writes: Option<String>,
    servers_timed_out: bool,
) -> (closing: Closing)
    ensures
        views(closing.errors@) == listed(jobs) + listed(writes) + shutdown_error(
            servers_timed_out,
        ),
        closing.session == old(editor).claude_ide,
        *final(editor) == (Editor { claude_ide: None, ..*old(editor) }),
{
    let mut errors: Vec<String> = Vec::new();
    if let Some(error) = jobs {
        errors.push(error);
    }
    assert(views(errors@) =~= listed(jobs));
    if let Some(error) = writes {
        errors.push(error);
    }
    assert(views(errors@) =~= listed(jobs) + listed(writes));
    let ghost second = errors@;
    if servers_timed_out {
        errors.push("Timed out waiting for language servers to shutdown".to_string());
    }
    assert(views(errors@) =~= views(second) + shutdown_error(servers_timed_out));
    Closing { errors, session: stop(editor) }
}

/// The code that the editor exits with: one where anything failed on the way out.
pub fn exit_code(editor_code: i32, errors: &Vec<String>) -> (code: i32)
    ensures
        code == if errors@.len() > 0 {
            1
        } else {
            editor_code
        },
{
    if errors.len() > 0 {
        1
    } else {
        editor_code
    }
}

/// Whatever fails on the way out is seen in the exit code.
pub proof fn law_failed_end_is_seen(
    jobs: Option<String>,
    writes: Option<String>,
    servers_timed_out: bool,
)
    ensures
        (listed(jobs) + listed(writes) + shutdown_error(servers_timed_out)).len() > 0 <==> jobs is
            Some || writes is Some || servers_timed_out,
{
}

} // verus!
