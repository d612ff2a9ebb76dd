//! Key handling of the dashboard: what a key press does to the domain
//! prompt, and which command it gives.

use vstd::prelude::*;
use crate::text::{chars_of, lemma_trim_idempotent, string_of_range, string_pop, string_push, trim, trim_range};

verus! {

/// Which action an input popup is collecting a domain for
#[derive(Debug, Clone, Copy, PartialEq, Eq, Structural)]
pub enum InputAction {
    Add,
    Remove,
}

/// The domain prompt: what it is for, and what has been typed so far.
#[derive(Debug)]
pub struct InputState {
    pub action: InputAction,
    pub buffer: String,
}

/// The key of a key press, as far as the dashboard tells keys apart.
#[derive(Debug, Clone, Copy, PartialEq, Eq, Structural)]
pub enum KeyCode {
    Char(char),
    Esc,
    Enter,
    Backspace,
    Other,
}

/// A key press: the key, and whether Control was held.
#[derive(Debug, Clone, Copy, PartialEq, Eq, Structural)]
pub struct KeyPress {
    pub code: KeyCode,
    pub ctrl: bool,
}

/// What the dashboard is asked to do after a key press.
#[derive(Debug, Clone, PartialEq, Eq)]
pub enum Command {
    /// Nothing beyond the change to the prompt.
    Nothing,
    /// Leave the dashboard.
    Quit,
    /// Add this domain to the custom list.
    AddDomain(String),
    /// Remove this domain from the custom list.
    RemoveDomain(String),
    /// Start an update of the remote lists.
    TriggerUpdate,
    /// Reload all lists from disk.
    Reload,
}

/// The kind of a command, without its domain.
#[derive(Debug, Clone, Copy, PartialEq, Eq, Structural)]
pub enum CommandKind {
    Nothing,
    Quit,
    AddDomain,
    RemoveDomain,
    TriggerUpdate,
    Reload,
}

/// A command as its kind and its domain (empty for the kinds without one).
pub open spec fn command_view(c: Command) -> (CommandKind, Seq<char>) {
    match c {
        Command::Nothing => (CommandKind::Nothing, Seq::empty()),
        Command::Quit => (CommandKind::Quit, Seq::empty()),
        Command::AddDomain(d) => (CommandKind::AddDomain, d@),
        Command::RemoveDomain(d) => (CommandKind::RemoveDomain, d@),
        Command::TriggerUpdate => (CommandKind::TriggerUpdate, Seq::empty()),
        Command::Reload => (CommandKind::Reload, Seq::empty()),
    }
}

/// The prompt as its action and its text, or `None` when no prompt is open.
pub open spec fn input_view(i: Option<InputState>) -> Option<(InputAction, Seq<char>)> {
    match i {
        Some(s) => Some((s.action, s.buffer@)),
        None => None,
    }
}

/// A command without a domain.
pub open spec fn plain(k: CommandKind) -> (CommandKind, Seq<char>) {
    (k, Seq::empty())
}

/// What a key press does in the domain prompt opened for `action` with
/// text `buf`: Esc closes it, Enter closes it and submits the trimmed text
/// when that is not blank, Backspace takes off the last character, and any
/// other character is typed.
pub open spec fn prompt_step(action: InputAction, buf: Seq<char>, code: KeyCode) -> (
    Option<(InputAction, Seq<char>)>,
    (CommandKind, Seq<char>),
) {
    match code {
        KeyCode::Esc => (None, plain(CommandKind::Nothing)),
        KeyCode::Enter => {
            let d = trim(buf);
            if d.len() == 0 {
                (None, plain(CommandKind::Nothing))
            } else if action == InputAction::Add {
                (None, (CommandKind::AddDomain, d))
            } else {
                (None, (CommandKind::RemoveDomain, d))
            }
        },
        KeyCode::Backspace => (
            Some((action, if buf.len() > 0 { buf.drop_last() } else { buf })),
            plain(CommandKind::Nothing),
        ),
        KeyCode::Char(c) => (Some((action, buf.push(c))), plain(CommandKind::Nothing)),
        KeyCode::Other => (Some((action, buf)), plain(CommandKind::Nothing)),
    }
}

/// What a key press does when no prompt is open: `q` or Esc quits, `a` and
/// `d` open the prompt for adding or removing a domain, `u` starts an update
/// and `r` a reload.
pub open spec fn main_step(code: KeyCode) -> (Option<(InputAction, Seq<char>)>, (CommandKind, Seq<char>)) {
    if code == KeyCode::Char('q') || code == KeyCode::Esc {
        (None, plain(CommandKind::Quit))
    } else if code == KeyCode::Char('a') {
        (Some((InputAction::Add, Seq::empty())), plain(CommandKind::Nothing))
    } else if code == KeyCode::Char('d') {
        (Some((InputAction::Remove, Seq::empty())), plain(CommandKind::Nothing))
    } else if code == KeyCode::Char('u') {
        (None, plain(CommandKind::TriggerUpdate))
    } else if code == KeyCode::Char('r') {
        (None, plain(CommandKind::Reload))
    } else {
        (None, plain(CommandKind::Nothing))
    }
}

/// Whether a key press is Ctrl+C.
pub open spec fn is_ctrl_c(key: KeyPress) -> bool {
    key.ctrl && key.code == KeyCode::Char('c')
}

/// The prompt and the command after a key press: Ctrl+C always quits and
/// leaves the prompt as it is; otherwise the open prompt, if any, takes the
/// key.
pub open spec fn key_step(input: Option<(InputAction, Seq<char>)>, key: KeyPress) -> (
    Option<(InputAction, Seq<char>)>,
    (CommandKind, Seq<char>),
) {
    if is_ctrl_c(key) {
        (input, plain(CommandKind::Quit))
    } else {
        match input {
            Some((action, buf)) => prompt_step(action, buf, key.code),
            None => main_step(key.code),
        }
    }
}

/// Ctrl+C quits in every state, and leaves the prompt as it is.
pub proof fn lemma_ctrl_c_always_quits(input: Option<(InputAction, Seq<char>)>)
    ensures
        key_step(input, KeyPress { code: KeyCode::Char('c'), ctrl: true }) == (
            input,
            plain(CommandKind::Quit),
        ),
{
}

/// In the prompt, Backspace undoes the typing of a character.
pub proof fn lemma_backspace_undoes_typing(action: InputAction, buf: Seq<char>, c: char, ctrl: bool)
    requires
        !(ctrl && c == 'c'),
    ensures
        key_step(
            key_step(Some((action, buf)), KeyPress { code: KeyCode::Char(c), ctrl }).0,
            KeyPress { code: KeyCode::Backspace, ctrl: false },
        ).0 == Some((action, buf)),
{
    assert(buf.push(c).drop_last() =~= buf);
}

/// Opening the prompt and closing it with Esc leaves the dashboard as it
/// was, without a command.
pub proof fn lemma_open_then_escape(c: char)
    requires
        c == 'a' || c == 'd',
    ensures
        key_step(
            key_step(None, KeyPress { code: KeyCode::Char(c), ctrl: false }).0,
            KeyPress { code: KeyCode::Esc, ctrl: false },
        ) == (None::<(InputAction, Seq<char>)>, plain(CommandKind::Nothing)),
{
}

/// A command that carries a domain carries a trimmed, non-blank one, and it
/// closes the prompt.
pub proof fn lemma_submitted_domain_trimmed(input: Option<(InputAction, Seq<char>)>, key: KeyPress)
    requires
        key_step(input, key).1.0 == CommandKind::AddDomain || key_step(input, key).1.0
            == CommandKind::RemoveDomain,
    ensures
        key_step(input, key).1.1.len() > 0,
        trim(key_step(input, key).1.1) == key_step(input, key).1.1,
        key_step(input, key).0 is None,
{
    if let Some((action, buf)) = input {
        lemma_trim_idempotent(buf);
    }
}

/// The trimmed text of a string.
fn trimmed(s: &String) -> (t: String)
    ensures
        t@ == trim(s@),
{
    let v = chars_of(s.as_str());
    let n = v.len();
    let (a, b) = trim_range(&v, 0, n);
    proof {
        assert(v@.subrange(0, n as int) =~= v@);
    }
    string_of_range(&v, a, b)
}

/// Handles a key press: updates the domain prompt and returns the command
/// that the press gives.
pub fn handle_key(input: &mut Option<InputState>, key: KeyPress) -> (cmd: Command)
    ensures
        (input_view(*final(input)), command_view(cmd)) == key_step(input_view(*old(input)), key),
{
    // Ctrl+C always quits (raw mode swallows the signal)
    if key.ctrl && key.code == KeyCode::Char('c') {
        return Command::Quit;
    }
    let current = input.take();
    match current {
        Some(mut state) => {
            match key.code {
                KeyCode::Esc => Command::Nothing,
                KeyCode::Enter => {
                    let domain = trimmed(&state.buffer);
                    if domain.as_str().is_empty() {
                        Command::Nothing
                    } else {
                        match state.action {
                            InputAction::Add => Command::AddDomain(domain),
                            InputAction::Remove => Command::RemoveDomain(domain),
                        }
                    }
                },
                KeyCode::Backspace => {
                    string_pop(&mut state.buffer);
                    *input = Some(state);
                    Command::Nothing
                },
                KeyCode::Char(c) => {
                    string_push(&mut state.buffer, c);
                    *input = Some(state);
                    Command::Nothing
                },
                KeyCode::Other => {
                    *input = Some(state);
                    Command::Nothing
                },
            }
        },
        None => {
            match key.code {
                KeyCode::Char('q') | KeyCode::Esc => Command::Quit,
                KeyCode::Char('a') => {
                    *input = Some(InputState { action: InputAction::Add, buffer: String::new() });
                    Command::Nothing
                },
                KeyCode::Char('d') => {
                    *input = Some(InputState { action: InputAction::Remove, buffer: String::new() });
                    Command::Nothing
                },
                KeyCode::Char('u') => Command::TriggerUpdate,
                KeyCode::Char('r') => Command::Reload,
                _ => Command::Nothing,
            }
        },
    }
}

} // verus!
