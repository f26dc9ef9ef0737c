//! Keys pressed against a session, routed by the library's own ownership order. Whatever the
//! store or the buffer would do is recorded instead of done.

use scratchbox::input::{KeyRoute, route_key};
use scratchbox::keys::{Command, KeyCode, KeyEvent};
use scratchbox::note::{NoteId, NoteMeta};
use scratchbox::panel::{Conflict, Focus};
use scratchbox::session::{OpenNoteOutcome, QuitStep, Session, open_note_outcome};

struct Harness {
    session: Session,
    /// Keys that reached the buffer.
    typed: Vec<KeyEvent>,
    /// Commands that would have touched the store: create, reorder, delete.
    stored: Vec<Command>,
    deleted: Vec<String>,
}

fn harness(names: &[&str]) -> Harness {
    let disk: Vec<NoteMeta> = names
        .iter()
        .enumerate()
        .map(|(i, n)| NoteMeta::from_id(NoteId::new(n).unwrap(), 1_000 - i as i128))
        .collect();
    let lines: Vec<String> = names.iter().map(|n| (*n).to_owned()).collect();
    let mut session = Session::new();
    session.refresh(&lines, &disk);
    Harness { session, typed: Vec::new(), stored: Vec::new(), deleted: Vec::new() }
}

fn plain(code: KeyCode) -> KeyEvent {
    KeyEvent::new(code, false, false, false)
}

fn ctrl(c: char) -> KeyEvent {
    KeyEvent::new(KeyCode::Char(c), true, false, false)
}

fn quit(h: &mut Harness) {
    if h.session.quit() == QuitStep::SaveFirst {
        h.session.leave();
    }
}

fn run(h: &mut Harness, command: Command) {
    match command {
        Command::Quit => quit(h),
        Command::OpenHelp => h.session.open_help(),
        Command::ToggleFocus => h.session.toggle_focus(),
        Command::RequestDelete => h.session.request_delete(),
        Command::SelectPrevious => {
            h.session.step_selection(-1);
        }
        Command::SelectNext => {
            h.session.step_selection(1);
        }
        other => h.stored.push(other),
    }
}

fn press(h: &mut Harness, key: KeyEvent) {
    let s = &h.session;
    let route = route_key(key, s.pending_delete.is_some(), s.conflict.is_some(), s.help.as_ref(), s.focus);
    match route {
        KeyRoute::ConfirmDelete => {
            if let Some(id) = h.session.take_pending_delete() {
                h.deleted.push(id.as_str().to_owned());
                h.session.deleted(&id);
            }
        }
        KeyRoute::CancelDelete => h.session.cancel_delete(),
        KeyRoute::KeepMine | KeyRoute::TakeTheirs => h.session.resolve_conflict(),
        KeyRoute::Quit => quit(h),
        KeyRoute::CloseHelp => h.session.close_help(),
        KeyRoute::HelpMove(delta) => h.session.help_move(delta),
        KeyRoute::HelpTo(row) => h.session.help_to(row),
        KeyRoute::HelpToEnd => h.session.help_to_end(),
        KeyRoute::HelpSearch => h.session.help_search(),
        KeyRoute::HelpType(c) => h.session.help_type(c),
        KeyRoute::HelpBackspace => h.session.help_backspace(),
        KeyRoute::HelpSearchCommit => h.session.help_search_commit(),
        KeyRoute::HelpSearchCancel => h.session.help_search_cancel(),
        KeyRoute::HelpRun(command) => {
            h.session.close_help();
            run(h, command);
        }
        KeyRoute::HelpQuit => {
            h.session.close_help();
            quit(h);
        }
        KeyRoute::Run(command) => run(h, command),
        KeyRoute::Edit(k) => h.typed.push(k),
        KeyRoute::Nothing => {}
    }
}

fn search(h: &mut Harness, query: &str) {
    press(h, ctrl('h'));
    press(h, plain(KeyCode::Char('/')));
    for c in query.chars() {
        press(h, plain(KeyCode::Char(c)));
    }
}

/// The rows the panel is listing, as captions.
fn listed(h: &Harness) -> Vec<&'static str> {
    h.session
        .help
        .as_ref()
        .unwrap()
        .listed()
        .iter()
        .flat_map(|section| section.rows.iter().map(|row| row.caption).collect::<Vec<_>>())
        .collect()
}

fn query(h: &Harness) -> String {
    h.session.help.as_ref().unwrap().query().to_owned()
}

/// Put the cursor on the row with this caption and press Enter.
fn run_row(h: &mut Harness, caption: &str) {
    let at = listed(h)
        .iter()
        .position(|listed| *listed == caption)
        .unwrap_or_else(|| panic!("{caption} is not listed"));
    h.session.help_to(at);
    press(h, plain(KeyCode::Enter));
}

#[test]
fn ctrl_h_opens_the_panel_from_the_editor_without_typing_anything() {
    let mut h = harness(&["a.md"]);
    assert_eq!(h.session.focus, Focus::Editor);

    press(&mut h, ctrl('h'));

    assert!(h.session.help.is_some());
    assert!(h.typed.is_empty());
}

#[test]
fn f1_opens_the_panel_from_either_pane() {
    for focus in [Focus::List, Focus::Editor] {
        let mut h = harness(&["a.md"]);
        if h.session.focus != focus {
            h.session.toggle_focus();
        }

        press(&mut h, plain(KeyCode::F(1)));

        assert!(h.session.help.is_some(), "F1 did not open it in {focus:?}");
    }
}

/// `?` is a character, not a binding.
#[test]
fn a_question_mark_still_reaches_the_buffer() {
    let mut h = harness(&["a.md"]);

    let question = KeyEvent::new(KeyCode::Char('?'), false, false, true);
    press(&mut h, question);

    assert_eq!(h.typed, vec![question]);
    assert!(h.session.help.is_none());
}

#[test]
fn an_open_panel_swallows_the_app_shortcuts_too() {
    let mut h = harness(&["a.md"]);
    press(&mut h, ctrl('h'));

    press(&mut h, ctrl('n'));
    press(&mut h, ctrl('d'));

    assert!(h.stored.is_empty(), "^N created a note from the panel");
    assert!(h.session.pending_delete.is_none(), "^D opened the delete prompt from the panel");
}

#[test]
fn esc_closes_the_panel() {
    let mut h = harness(&["a.md"]);
    press(&mut h, ctrl('h'));

    press(&mut h, plain(KeyCode::Esc));

    assert!(h.session.help.is_none());
    assert!(!h.session.quit);
}

#[test]
fn every_printable_key_is_text_inside_the_prompt() {
    let mut h = harness(&["a.md"]);
    search(&mut h, "");

    for c in ['k', 'j', 'q', '/', 'Z'] {
        press(&mut h, plain(KeyCode::Char(c)));
    }

    assert_eq!(query(&h), "kjq/Z");
    assert!(h.session.help.as_ref().unwrap().searching(), "`q` left the prompt");
    assert!(!h.session.quit, "`q` quit from inside the prompt");
}

#[test]
fn the_cursor_holds_still_while_the_query_is_being_typed() {
    let mut h = harness(&["a.md"]);
    search(&mut h, "e");
    h.session.help_to(2);

    press(&mut h, plain(KeyCode::Char('l')));

    assert_eq!(query(&h), "el");
    assert_eq!(h.session.help.as_ref().unwrap().cursor(), 2, "`l` moved the cursor");
}

#[test]
fn a_modified_key_is_not_typed_into_the_query() {
    let mut h = harness(&["a.md"]);
    search(&mut h, "de");

    press(&mut h, KeyEvent::new(KeyCode::Char('k'), false, true, false));

    assert_eq!(query(&h), "de");
}

#[test]
fn enter_leaves_the_prompt_with_the_query_intact() {
    let mut h = harness(&["a.md"]);
    search(&mut h, "delete");

    press(&mut h, plain(KeyCode::Enter));

    assert!(!h.session.help.as_ref().unwrap().searching());
    assert_eq!(query(&h), "delete");
    assert_eq!(listed(&h).len(), 3, "the filter came off");
}

#[test]
fn quitting_from_inside_the_prompt_closes_the_panel_first() {
    let mut h = harness(&["a.md"]);
    search(&mut h, "del");

    press(&mut h, ctrl('q'));

    assert!(h.session.help.is_none());
    assert!(h.session.quit);
}

#[test]
fn enter_on_the_pane_row_switches_pane() {
    let mut h = harness(&["a.md"]);
    let before = h.session.focus;
    press(&mut h, ctrl('h'));

    run_row(&mut h, "tab");

    assert!(h.session.help.is_none());
    assert_ne!(h.session.focus, before);
}

/// The chord belongs to the list pane; the command underneath it was never focus-gated.
#[test]
fn enter_on_a_list_only_row_works_from_the_editor() {
    let mut h = harness(&["a.md", "b.md"]);
    h.session.step_selection(1);
    assert_eq!(h.session.focus, Focus::Editor);
    assert_eq!(h.session.selected.as_ref().unwrap().as_str(), "b.md");

    press(&mut h, ctrl('h'));
    run_row(&mut h, "\u{2191}");

    assert_eq!(h.session.selected.as_ref().unwrap().as_str(), "a.md");
}

#[test]
fn enter_on_the_delete_row_asks_rather_than_deletes() {
    let mut h = harness(&["a.md"]);
    press(&mut h, ctrl('h'));

    run_row(&mut h, "^D");

    assert!(h.session.help.is_none());
    assert!(h.session.pending_delete.is_some());
    assert!(h.deleted.is_empty(), "the note was deleted");
}

#[test]
fn the_quit_row_is_not_a_way_to_quit_but_the_key_still_is() {
    let mut h = harness(&["a.md"]);
    press(&mut h, ctrl('h'));

    run_row(&mut h, "^Q/^C");
    assert!(!h.session.quit);

    press(&mut h, ctrl('q'));
    assert!(h.session.quit);
}

#[test]
fn enter_while_searching_commits_the_filter_and_runs_nothing() {
    let mut h = harness(&["a.md"]);
    search(&mut h, "new");

    press(&mut h, plain(KeyCode::Enter));

    assert!(h.session.help.is_some(), "the panel ran a row and closed");
    assert!(h.stored.is_empty());
    assert_eq!(query(&h), "new");
}

/// Under a filter, row zero is a different binding, and the one that runs is the one
/// highlighted.
#[test]
fn enter_under_a_filter_runs_the_row_the_cursor_is_on() {
    let mut h = harness(&["a.md"]);
    let before = h.session.focus;
    search(&mut h, "tab");
    press(&mut h, plain(KeyCode::Enter));

    assert_eq!(listed(&h), vec!["tab"], "the query matched something else");
    assert_eq!(h.session.help.as_ref().unwrap().cursor(), 0);
    press(&mut h, plain(KeyCode::Enter));

    assert_ne!(h.session.focus, before, "row zero ran the unfiltered binding");
    assert!(h.stored.is_empty(), "it created a note instead");
}

#[test]
fn the_panel_cannot_be_opened_while_an_external_change_is_unresolved() {
    let mut h = harness(&["a.md"]);
    h.session.enter_conflict(Conflict::Changed);

    press(&mut h, ctrl('h'));

    assert!(h.session.help.is_none(), "the panel opened over the prompt");
    assert!(h.session.conflict.is_some());
}

#[test]
fn an_external_change_arriving_closes_the_panel() {
    let mut h = harness(&["a.md"]);
    h.session.arm_save(true, 0);
    press(&mut h, ctrl('h'));
    assert!(h.session.help.is_some());

    let outcome = open_note_outcome(Some("theirs"), "original", true, true);
    assert_eq!(outcome, OpenNoteOutcome::Conflicted(Conflict::Changed));
    h.session.meet_external_change(&NoteId::new("a.md").unwrap(), outcome);

    assert!(h.session.conflict.is_some());
    assert!(h.session.help.is_none(), "two prompts on screen at once");
    assert!(h.session.save_deadline.is_none(), "autosave would write over theirs");
}
