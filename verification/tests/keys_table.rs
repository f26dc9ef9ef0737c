use scratchbox::keys::{self, Action, Chord, Command, Ctx, KeyCode, KeyEvent};
use scratchbox::layout::status_hints;
use scratchbox::panel::Focus;

struct Pin {
    what: &'static str,
    key: KeyEvent,
    in_list: Action,
    in_editor: Action,
}

fn key(code: KeyCode, ctrl: bool, alt: bool) -> KeyEvent {
    KeyEvent::new(code, ctrl, alt, false)
}

fn declared() -> Vec<Pin> {
    let global = |what, key, command| Pin {
        what,
        key,
        in_list: Action::Do(command),
        in_editor: Action::Do(command),
    };
    vec![
        global("ctrl+q", key(KeyCode::Char('q'), true, false), Command::Quit),
        global("ctrl+c", key(KeyCode::Char('c'), true, false), Command::Quit),
        global("ctrl+n", key(KeyCode::Char('n'), true, false), Command::NewNote),
        global("ctrl+d", key(KeyCode::Char('d'), true, false), Command::RequestDelete),
        global("alt+up", key(KeyCode::Up, false, true), Command::MoveNoteUp),
        global("alt+down", key(KeyCode::Down, false, true), Command::MoveNoteDown),
        global("tab", key(KeyCode::Tab, false, false), Command::ToggleFocus),
        global("ctrl+tab", key(KeyCode::Tab, true, false), Command::ToggleFocus),
        global("ctrl+h", key(KeyCode::Char('h'), true, false), Command::OpenHelp),
        global("f1", key(KeyCode::F(1), false, false), Command::OpenHelp),
        Pin {
            what: "up",
            key: key(KeyCode::Up, false, false),
            in_list: Action::Do(Command::SelectPrevious),
            in_editor: Action::Edit(key(KeyCode::Up, false, false)),
        },
        Pin {
            what: "down",
            key: key(KeyCode::Down, false, false),
            in_list: Action::Do(Command::SelectNext),
            in_editor: Action::Edit(key(KeyCode::Down, false, false)),
        },
    ]
}

fn dropped() -> Vec<Pin> {
    let dropped = |what, key: KeyEvent| Pin {
        what,
        key,
        in_list: Action::Ignore,
        in_editor: Action::Edit(key),
    };
    vec![
        dropped("ctrl+alt+q", key(KeyCode::Char('q'), true, true)),
        dropped("ctrl+alt+c", key(KeyCode::Char('c'), true, true)),
        dropped("ctrl+alt+n", key(KeyCode::Char('n'), true, true)),
        dropped("ctrl+alt+d", key(KeyCode::Char('d'), true, true)),
        dropped("ctrl+alt+up", key(KeyCode::Up, true, true)),
        dropped("ctrl+alt+down", key(KeyCode::Down, true, true)),
        dropped("alt+tab", key(KeyCode::Tab, false, true)),
        dropped("ctrl+alt+tab", key(KeyCode::Tab, true, true)),
    ]
}

fn assert_answers(pins: Vec<Pin>) {
    for pin in pins {
        assert_eq!(
            keys::map(pin.key, Focus::List),
            pin.in_list,
            "{} answered differently in the list",
            pin.what
        );
        assert_eq!(
            keys::map(pin.key, Focus::Editor),
            pin.in_editor,
            "{} answered differently in the editor",
            pin.what
        );
    }
}

#[test]
fn every_declared_chord_answers_in_the_pane_it_belongs_to() {
    assert_answers(declared());
}

#[test]
fn the_chords_no_longer_declared_fall_through_instead() {
    assert_answers(dropped());
}

#[test]
fn a_question_mark_is_not_a_binding() {
    let question = KeyEvent::new(KeyCode::Char('?'), false, false, true);

    assert_eq!(keys::map(question, Focus::Editor), Action::Edit(question));
    assert_eq!(keys::map(question, Focus::List), Action::Ignore);
}

const COMMANDS: &[Command] = &[
    Command::Quit,
    Command::NewNote,
    Command::RequestDelete,
    Command::MoveNoteUp,
    Command::MoveNoteDown,
    Command::SelectPrevious,
    Command::SelectNext,
    Command::ToggleFocus,
    Command::OpenHelp,
];

fn expected_rows(command: Command) -> usize {
    match command {
        Command::Quit
        | Command::NewNote
        | Command::RequestDelete
        | Command::MoveNoteUp
        | Command::MoveNoteDown
        | Command::SelectPrevious
        | Command::SelectNext
        | Command::ToggleFocus
        | Command::OpenHelp => 1,
    }
}

#[test]
fn the_table_declares_every_command_once() {
    let table = keys::bindings();
    for command in COMMANDS {
        let rows = table
            .iter()
            .filter(|binding| binding.command == *command)
            .count();
        assert_eq!(
            rows,
            expected_rows(*command),
            "{command:?} has {rows} rows in the table"
        );
    }

    for binding in &table {
        assert!(
            COMMANDS.contains(&binding.command),
            "{:?} is in the table but not in this test's list",
            binding.command
        );
    }
}

#[test]
fn every_row_answers_with_its_own_command() {
    for binding in keys::bindings() {
        for chord in &binding.chords {
            let event = key(chord.code, chord.ctrl, chord.alt);
            let expected = Action::Do(binding.command);

            assert_eq!(keys::map(event, Focus::List), expected, "{}", binding.caption);
            let in_editor = match binding.ctx {
                Ctx::Global => expected,
                Ctx::ListOnly => Action::Edit(event),
            };
            assert_eq!(keys::map(event, Focus::Editor), in_editor, "{}", binding.caption);
        }
    }
}

#[test]
fn no_chord_is_claimed_twice() {
    let table = keys::bindings();
    for (index, binding) in table.iter().enumerate() {
        for other in table.iter().skip(index + 1) {
            for chord in &binding.chords {
                assert!(
                    !other.chords.contains(chord),
                    "{} and {} both claim {}",
                    binding.caption,
                    other.caption,
                    chord.caption()
                );
            }
        }
    }
}

#[test]
fn the_default_status_line_prints_the_keys_it_should() {
    assert_eq!(
        status_hints(),
        "^N new   ^D delete   alt-↑/↓ reorder   tab switch pane   ^H help   ^Q quit"
    );
}

#[test]
fn chords_print_in_the_apps_vocabulary() {
    assert_eq!(Chord::ctrl(KeyCode::Char('n')).caption(), "^N");
    assert_eq!(Chord::alt(KeyCode::Up).caption(), "alt-↑");
    assert_eq!(Chord::plain(KeyCode::Tab).caption(), "tab");
    assert_eq!(Chord::plain(KeyCode::F(12)).caption(), "F12");
    assert_eq!(Chord::plain(KeyCode::Enter).caption(), "⏎");
    assert_eq!(Chord::plain(KeyCode::PageDown).caption(), "pagedown");
    assert_eq!(Chord::plain(KeyCode::Char('x')).caption(), "x");
    assert_eq!(Chord::ctrl(KeyCode::Char('?')).caption(), "^?");
}

#[test]
fn the_binding_for_a_command_is_its_row() {
    let quit = keys::binding(Command::Quit).expect("quit is bound");
    assert_eq!(quit.caption, "^Q/^C");
    assert_eq!(quit.chords.len(), 2);
}

#[test]
fn prompts_take_only_their_answers() {
    let plain = |c| KeyEvent::new(KeyCode::Char(c), false, false, false);
    assert_eq!(keys::map_confirmation(plain('Y')), Action::ConfirmDelete);
    assert_eq!(keys::map_confirmation(KeyEvent::new(KeyCode::Enter, false, false, false)), Action::ConfirmDelete);
    assert_eq!(keys::map_confirmation(plain('n')), Action::CancelDelete);
    assert_eq!(keys::map_conflict(plain('K')), Action::KeepMine);
    assert_eq!(keys::map_conflict(plain('T')), Action::TakeTheirs);
    assert_eq!(keys::map_conflict(KeyEvent::new(KeyCode::Char('c'), true, false, false)), Action::Do(Command::Quit));
    assert_eq!(keys::map_conflict(plain('x')), Action::Ignore);
    assert_eq!(keys::map_conflict(KeyEvent::new(KeyCode::Char('k'), true, false, false)), Action::Ignore);
}

#[test]
fn app_shortcuts_are_recognized_in_both_panes() {
    let ctrl = |c| KeyEvent::new(KeyCode::Char(c), true, false, false);

    for focus in [Focus::List, Focus::Editor] {
        assert_eq!(keys::map(ctrl('q'), focus), Action::Do(Command::Quit));
        // Raw mode delivers Ctrl-C as a key, so it leaves through the same door.
        assert_eq!(keys::map(ctrl('c'), focus), Action::Do(Command::Quit));
        assert_eq!(keys::map(ctrl('n'), focus), Action::Do(Command::NewNote));
        assert_eq!(keys::map(ctrl('d'), focus), Action::Do(Command::RequestDelete));
        assert_eq!(
            keys::map(KeyEvent::new(KeyCode::Tab, false, false, false), focus),
            Action::Do(Command::ToggleFocus)
        );
        assert_eq!(
            keys::map(KeyEvent::new(KeyCode::Up, false, true, false), focus),
            Action::Do(Command::MoveNoteUp)
        );
    }
}

/// Arrow keys mean different things per pane, and the editor's must not be stolen.
#[test]
fn arrows_move_the_selection_in_the_list_and_the_cursor_in_the_editor() {
    let up = KeyEvent::new(KeyCode::Up, false, false, false);

    assert_eq!(keys::map(up, Focus::List), Action::Do(Command::SelectPrevious));
    assert_eq!(keys::map(up, Focus::Editor), Action::Edit(up));
}

#[test]
fn only_an_explicit_yes_confirms_a_delete() {
    assert_eq!(
        keys::map_confirmation(KeyEvent::new(KeyCode::Char('y'), false, false, false)),
        Action::ConfirmDelete
    );
    assert_eq!(
        keys::map_confirmation(KeyEvent::new(KeyCode::Enter, false, false, false)),
        Action::ConfirmDelete
    );
    // Anything else cancels: a stray keystroke must not destroy a note.
    for code in [KeyCode::Char('n'), KeyCode::Esc, KeyCode::Char('x')] {
        assert_eq!(
            keys::map_confirmation(KeyEvent::new(code, false, false, false)),
            Action::CancelDelete
        );
    }
}
