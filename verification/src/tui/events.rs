//! One turn of the dashboard's event loop: what an event asks the loop to do.

use vstd::prelude::*;
use crate::tui::input::{
    command_view, handle_key, input_view, key_step, Command, CommandKind, InputState, KeyPress,
};

verus! {

/// What woke the event loop.
#[derive(Debug, Clone, Copy, PartialEq, Eq, Structural)]
pub enum LoopEvent {
    /// The redraw timer fired.
    Tick,
    /// The process was asked to terminate.
    Terminate,
    /// The DNS server task returned without an error.
    ServerStopped,
    /// The DNS server task returned an error.
    ServerFailed,
    /// The DNS server task panicked.
    ServerPanicked,
    /// A key event; `pressed` is false for releases and repeats.
    Key { key: KeyPress, pressed: bool },
    /// Another terminal event (resize, mouse, focus).
    OtherInput,
    /// Reading terminal input failed.
    InputError,
    /// Terminal input ended.
    InputEnded,
}

/// What the event loop does next.
#[derive(Debug, Clone, PartialEq, Eq)]
pub enum LoopAction {
    /// Redraw and wait for the next event.
    Continue,
    /// Leave the loop normally.
    Shutdown,
    /// Carry out a command of the dashboard, then continue.
    Execute(Command),
    /// Leave with the error that the DNS server stopped unexpectedly.
    ServerStoppedUnexpectedly,
    /// Leave with the DNS server's error.
    ServerError,
    /// Leave with the error that the DNS server task panicked.
    ServerPanicked,
    /// Warn about the input error, then continue.
    WarnInput,
}

/// The kind of a loop action, without its command.
#[derive(Debug, Clone, Copy, PartialEq, Eq, Structural)]
pub enum LoopActionKind {
    Continue,
    Shutdown,
    Execute,
    ServerStoppedUnexpectedly,
    ServerError,
    ServerPanicked,
    WarnInput,
}

/// A loop action as its kind and, for `Execute`, its command.
pub open spec fn action_view(a: LoopAction) -> (LoopActionKind, (CommandKind, Seq<char>)) {
    let none = (CommandKind::Nothing, Seq::<char>::empty());
    match a {
        LoopAction::Continue => (LoopActionKind::Continue, none),
        LoopAction::Shutdown => (LoopActionKind::Shutdown, none),
        LoopAction::Execute(c) => (LoopActionKind::Execute, command_view(c)),
        LoopAction::ServerStoppedUnexpectedly => (LoopActionKind::ServerStoppedUnexpectedly, none),
        LoopAction::ServerError => (LoopActionKind::ServerError, none),
        LoopAction::ServerPanicked => (LoopActionKind::ServerPanicked, none),
        LoopAction::WarnInput => (LoopActionKind::WarnInput, none),
    }
}

/// The prompt and the action after an event: the timer and other input
/// change nothing; termination and the end of input shut down; any exit of
/// the DNS server ends the loop with its error; an input error is warned
/// about; a key press goes to the key handling, whose Quit shuts down and
/// whose other commands are carried out; key releases are ignored.
pub open spec fn loop_spec(input: Option<(crate::tui::input::InputAction, Seq<char>)>, event: LoopEvent) -> (
    Option<(crate::tui::input::InputAction, Seq<char>)>,
    (LoopActionKind, (CommandKind, Seq<char>)),
) {
    let none = (CommandKind::Nothing, Seq::<char>::empty());
    match event {
        LoopEvent::Tick => (input, (LoopActionKind::Continue, none)),
        LoopEvent::Terminate => (input, (LoopActionKind::Shutdown, none)),
        LoopEvent::ServerStopped => (input, (LoopActionKind::ServerStoppedUnexpectedly, none)),
        LoopEvent::ServerFailed => (input, (LoopActionKind::ServerError, none)),
        LoopEvent::ServerPanicked => (input, (LoopActionKind::ServerPanicked, none)),
        LoopEvent::Key { key, pressed } => {
            if !pressed {
                (input, (LoopActionKind::Continue, none))
            } else {
                let (next, cmd) = key_step(input, key);
                if cmd.0 == CommandKind::Quit {
                    (next, (LoopActionKind::Shutdown, none))
                } else if cmd.0 == CommandKind::Nothing {
                    (next, (LoopActionKind::Continue, none))
                } else {
                    (next, (LoopActionKind::Execute, cmd))
                }
            }
        },
        LoopEvent::OtherInput => (input, (LoopActionKind::Continue, none)),
        LoopEvent::InputError => (input, (LoopActionKind::WarnInput, none)),
        LoopEvent::InputEnded => (input, (LoopActionKind::Shutdown, none)),
    }
}

/// Handles one event of the dashboard's loop: updates the domain prompt and
/// says what the loop does next.
pub fn loop_step(input: &mut Option<InputState>, event: LoopEvent) -> (act: LoopAction)
    ensures
        (input_view(*final(input)), action_view(act)) == loop_spec(input_view(*old(input)), event),
        event matches LoopEvent::Key { key, pressed } ==> (pressed ==> input_view(*final(input))
            == key_step(input_view(*old(input)), key).0),
        event matches LoopEvent::Key { key, pressed } ==> (pressed && key_step(
            input_view(*old(input)),
            key,
        ).1.0 == CommandKind::Quit ==> act == LoopAction::Shutdown),
        event matches LoopEvent::Key { key, pressed } ==> (pressed && key_step(
            input_view(*old(input)),
            key,
        ).1.0 == CommandKind::Nothing ==> act == LoopAction::Continue),
        event matches LoopEvent::Key { key, pressed } ==> (pressed && key_step(
            input_view(*old(input)),
            key,
        ).1.0 != CommandKind::Quit && key_step(input_view(*old(input)), key).1.0
            != CommandKind::Nothing ==> (act matches LoopAction::Execute(c) && command_view(c)
            == key_step(input_view(*old(input)), key).1)),
        !(event matches LoopEvent::Key { pressed, .. } && pressed) ==> *final(input) == *old(input),
        event matches LoopEvent::Key { pressed, .. } ==> (!pressed ==> act == LoopAction::Continue),
        event == LoopEvent::Tick || event == LoopEvent::OtherInput ==> act == LoopAction::Continue,
        event == LoopEvent::Terminate || event == LoopEvent::InputEnded ==> act
            == LoopAction::Shutdown,
        event == LoopEvent::ServerStopped ==> act == LoopAction::ServerStoppedUnexpectedly,
        event == LoopEvent::ServerFailed ==> act == LoopAction::ServerError,
        event == LoopEvent::ServerPanicked ==> act == LoopAction::ServerPanicked,
        event == LoopEvent::InputError ==> act == LoopAction::WarnInput,
{
    match event {
        LoopEvent::Tick => LoopAction::Continue,
        LoopEvent::Terminate => LoopAction::Shutdown,
        LoopEvent::ServerStopped => LoopAction::ServerStoppedUnexpectedly,
        LoopEvent::ServerFailed => LoopAction::ServerError,
        LoopEvent::ServerPanicked => LoopAction::ServerPanicked,
        LoopEvent::Key { key, pressed } => {
            if !pressed {
                LoopAction::Continue
            } else {
                let cmd = handle_key(input, key);
                match cmd {
                    Command::Quit => LoopAction::Shutdown,
                    Command::Nothing => LoopAction::Continue,
                    _ => LoopAction::Execute(cmd),
                }
            }
        },
        LoopEvent::OtherInput => LoopAction::Continue,
        LoopEvent::InputError => LoopAction::WarnInput,
        LoopEvent::InputEnded => LoopAction::Shutdown,
    }
}

/// A key press whose key handling gives a command other than Quit or
/// Nothing makes the loop carry out exactly that command, with the prompt
/// that the key handling leaves; Quit shuts down and Nothing continues.
pub proof fn lemma_key_commands_executed(
    input: Option<(crate::tui::input::InputAction, Seq<char>)>,
    key: KeyPress,
)
    ensures
        key_step(input, key).1.0 != CommandKind::Quit && key_step(input, key).1.0
            != CommandKind::Nothing ==> loop_spec(input, LoopEvent::Key { key, pressed: true }) == (
            key_step(input, key).0,
            (LoopActionKind::Execute, key_step(input, key).1),
        ),
        key_step(input, key).1.0 == CommandKind::Quit ==> loop_spec(
            input,
            LoopEvent::Key { key, pressed: true },
        ).1.0 == LoopActionKind::Shutdown,
        key_step(input, key).1.0 == CommandKind::Nothing ==> loop_spec(
            input,
            LoopEvent::Key { key, pressed: true },
        ) == (key_step(input, key).0, (LoopActionKind::Continue, (CommandKind::Nothing, Seq::<char>::empty()))),
{
}

/// A loop action never asks to carry out Quit or an empty command: those
/// become Shutdown and Continue.
pub proof fn lemma_executed_commands_are_real(
    input: Option<(crate::tui::input::InputAction, Seq<char>)>,
    event: LoopEvent,
)
    ensures
        loop_spec(input, event).1.0 == LoopActionKind::Execute ==> loop_spec(input, event).1.1.0
            != CommandKind::Quit && loop_spec(input, event).1.1.0 != CommandKind::Nothing,
{
}

/// Only key presses change the prompt.
pub proof fn lemma_only_key_presses_change_prompt(
    input: Option<(crate::tui::input::InputAction, Seq<char>)>,
    event: LoopEvent,
)
    requires
        !(event matches LoopEvent::Key { pressed, .. } && pressed),
    ensures
        loop_spec(input, event).0 == input,
{
}

} // verus!
