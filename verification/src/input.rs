//! Who owns the keyboard.
//!
//! Which modal owns a key is where the bugs in this shape of UI live: a key reaching the
//! buffer from behind a prompt, a confirmation answered by a keystroke meant for something
//! else. The order is decided here; carrying the answer out is the caller's.

use vstd::prelude::*;

use crate::keys::{
    Action, Command, HelpKey, KeyEvent, map_conflict, map_confirmation, map_help, spec_map,
    spec_map_help,
};
use crate::panel::{Focus, Help, flat_rows, listed_view};

verus! {

/// What a key asks the app to do, once the owner of the keyboard has had its say.
#[derive(Debug, Clone, Copy, PartialEq, Eq, Structural)]
pub enum KeyRoute {
    ConfirmDelete,
    CancelDelete,
    KeepMine,
    TakeTheirs,
    Quit,
    CloseHelp,
    /// Move the panel's cursor by this many rows.
    HelpMove(isize),
    /// Put the panel's cursor on this row.
    HelpTo(usize),
    HelpToEnd,
    HelpSearch,
    HelpType(char),
    HelpBackspace,
    HelpSearchCommit,
    HelpSearchCancel,
    /// Close the panel, then perform the command.
    HelpRun(Command),
    /// Close the panel, then quit: a refusal to quit must not land under the panel.
    HelpQuit,
    /// Perform a command from the keymap.
    Run(Command),
    /// Hand the key to the editor.
    Edit(KeyEvent),
    Nothing,
}

/// What Enter runs in the panel: the selected row's command, if it has one.
pub open spec fn help_selection(h: crate::panel::HelpView) -> Option<Command> {
    if h.0 < flat_rows(listed_view(h.2)).len() {
        flat_rows(listed_view(h.2))[h.0 as int].2
    } else {
        None
    }
}

/// The order is the contract: a delete waiting for confirmation owns every key; an
/// unresolved external change owns them next; then the keybindings panel, the one modal the
/// user can always close; and only then the normal-mode keymap.
pub open spec fn spec_route(
    key: KeyEvent,
    pending_delete: bool,
    conflict: bool,
    help: Option<crate::panel::HelpView>,
    focus: Focus,
) -> KeyRoute {
    if pending_delete {
        match crate::keys::map_confirmation_spec(key) {
            Action::ConfirmDelete => KeyRoute::ConfirmDelete,
            _ => KeyRoute::CancelDelete,
        }
    } else if conflict {
        match crate::keys::map_conflict_spec(key) {
            Action::KeepMine => KeyRoute::KeepMine,
            Action::TakeTheirs => KeyRoute::TakeTheirs,
            Action::Do(Command::Quit) => KeyRoute::Quit,
            _ => KeyRoute::Nothing,
        }
    } else if help is Some {
        let h = help.unwrap();
        match spec_map_help(key, h.3) {
            HelpKey::Close => KeyRoute::CloseHelp,
            HelpKey::Up => KeyRoute::HelpMove(-1isize),
            HelpKey::Down => KeyRoute::HelpMove(1isize),
            HelpKey::Top => KeyRoute::HelpTo(0usize),
            HelpKey::Bottom => KeyRoute::HelpToEnd,
            HelpKey::Search => KeyRoute::HelpSearch,
            HelpKey::Type(c) => KeyRoute::HelpType(c),
            HelpKey::Backspace => KeyRoute::HelpBackspace,
            HelpKey::SearchCommit => KeyRoute::HelpSearchCommit,
            HelpKey::SearchCancel => KeyRoute::HelpSearchCancel,
            HelpKey::Run => match help_selection(h) {
                Some(command) => KeyRoute::HelpRun(command),
                None => KeyRoute::Nothing,
            },
            HelpKey::Quit => KeyRoute::HelpQuit,
            HelpKey::Ignore => KeyRoute::Nothing,
        }
    } else {
        match spec_map(key, focus) {
            Action::Do(command) => KeyRoute::Run(command),
            Action::Edit(k) => KeyRoute::Edit(k),
            _ => KeyRoute::Nothing,
        }
    }
}

/// Decide what a key means given which modals are open.
pub fn route_key(
    key: KeyEvent,
    pending_delete: bool,
    conflict: bool,
    help: Option<&Help>,
    focus: Focus,
) -> (r: KeyRoute)
    ensures
        r == spec_route(
            key,
            pending_delete,
            conflict,
            match help {
                Some(h) => Some(h@),
                None => None,
            },
            focus,
        ),
{
    if pending_delete {
        return match map_confirmation(key) {
            Action::ConfirmDelete => KeyRoute::ConfirmDelete,
            _ => KeyRoute::CancelDelete,
        };
    }
    if conflict {
        return match map_conflict(key) {
            Action::KeepMine => KeyRoute::KeepMine,
            Action::TakeTheirs => KeyRoute::TakeTheirs,
            Action::Do(Command::Quit) => KeyRoute::Quit,
            _ => KeyRoute::Nothing,
        };
    }
    match help {
        Some(h) => match map_help(key, h.searching()) {
            HelpKey::Close => KeyRoute::CloseHelp,
            HelpKey::Up => KeyRoute::HelpMove(-1),
            HelpKey::Down => KeyRoute::HelpMove(1),
            HelpKey::Top => KeyRoute::HelpTo(0),
            HelpKey::Bottom => KeyRoute::HelpToEnd,
            HelpKey::Search => KeyRoute::HelpSearch,
            HelpKey::Type(c) => KeyRoute::HelpType(c),
            HelpKey::Backspace => KeyRoute::HelpBackspace,
            HelpKey::SearchCommit => KeyRoute::HelpSearchCommit,
            HelpKey::SearchCancel => KeyRoute::HelpSearchCancel,
            HelpKey::Run => match h.selection() {
                Some(command) => KeyRoute::HelpRun(command),
                None => KeyRoute::Nothing,
            },
            HelpKey::Quit => KeyRoute::HelpQuit,
            HelpKey::Ignore => KeyRoute::Nothing,
        },
        None => match crate::keys::map(key, focus) {
            Action::Do(command) => KeyRoute::Run(command),
            Action::Edit(k) => KeyRoute::Edit(k),
            _ => KeyRoute::Nothing,
        },
    }
}

/// A delete waiting to be confirmed owns every key: it is answered or cancelled, and nothing
/// reaches the buffer behind it.
pub proof fn lemma_pending_delete_owns_the_keyboard(
    key: KeyEvent,
    conflict: bool,
    help: Option<crate::panel::HelpView>,
    focus: Focus,
)
    ensures
        spec_route(key, true, conflict, help, focus) == KeyRoute::ConfirmDelete || spec_route(
            key,
            true,
            conflict,
            help,
            focus,
        ) == KeyRoute::CancelDelete,
{
}

/// While an external change is unresolved, a key can only answer it, quit, or do nothing:
/// every other path would decide for the user which version of the note survives.
pub proof fn lemma_conflict_owns_the_keyboard(
    key: KeyEvent,
    help: Option<crate::panel::HelpView>,
    focus: Focus,
)
    ensures
        ({
            let r = spec_route(key, false, true, help, focus);
            r == KeyRoute::KeepMine || r == KeyRoute::TakeTheirs || r == KeyRoute::Quit || r
                == KeyRoute::Nothing
        }),
{
}

/// Nothing typed while a modal is open reaches the editor.
pub proof fn lemma_modals_keep_keys_from_the_editor(
    key: KeyEvent,
    pending_delete: bool,
    conflict: bool,
    help: Option<crate::panel::HelpView>,
    focus: Focus,
)
    requires
        pending_delete || conflict || help is Some,
    ensures
        !(spec_route(key, pending_delete, conflict, help, focus) is Edit),
{
}

/// Quit is always reachable: `^Q` quits from every state but a pending delete, which it
/// cancels, so the user is never trapped inside a modal.
pub proof fn lemma_quit_is_never_trapped(
    conflict: bool,
    help: Option<crate::panel::HelpView>,
    focus: Focus,
)
    ensures
        ({
            let key = KeyEvent {
                code: crate::keys::KeyCode::Char('q'),
                ctrl: true,
                alt: false,
                shift: false,
            };
            let r = spec_route(key, false, conflict, help, focus);
            r == KeyRoute::Quit || r == KeyRoute::HelpQuit || r == KeyRoute::Run(Command::Quit)
        }),
{
    let key = KeyEvent { code: crate::keys::KeyCode::Char('q'), ctrl: true, alt: false, shift: false };
    if !conflict && help is None {
        crate::keys::lemma_every_chord_answers_its_command(7, 0, key, focus);
    }
}

} // verus!
