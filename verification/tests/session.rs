use scratchbox::note::{NoteId, NoteMeta};
use scratchbox::panel::{Conflict, Focus};
use scratchbox::session::{
    self, HEALTH_RECHECK_MS, IDLE_SAVE_MS, OpenNoteOutcome, QuitStep, Session, candidate_name,
    health_of, open_note_outcome, reselect, touches_open, wake_at,
};
use scratchbox::store::{StoreEvent, WorkspaceHealth};

fn id(name: &str) -> NoteId {
    NoteId::new(name).expect("valid note name")
}

fn on_disk(name: &str, age: i128) -> NoteMeta {
    NoteMeta::from_id(id(name), (10_000 - age) * 1_000_000_000)
}

fn lines(names: &[&str]) -> Vec<String> {
    names.iter().map(|n| (*n).to_owned()).collect()
}

fn listed(session: &Session) -> Vec<&str> {
    session.notes.iter().map(|n| n.id.as_str()).collect()
}

fn selected(session: &Session) -> Option<&str> {
    session.selected.as_ref().map(NoteId::as_str)
}

/// A session listing `names` in that order, with the first selected.
fn session_of(names: &[&str]) -> Session {
    let disk: Vec<NoteMeta> = names.iter().enumerate().map(|(i, n)| on_disk(n, i as i128)).collect();
    let mut session = Session::new();
    session.refresh(&lines(names), &disk);
    session
}

#[test]
fn a_new_session_starts_in_the_editor_with_nothing_pending() {
    let session = Session::new();
    assert_eq!(session.focus, Focus::Editor);
    assert_eq!(session.size, (120, 40));
    assert_eq!(session.health, WorkspaceHealth::Usable);
    assert!(session.notes.is_empty());
    assert!(session.selected.is_none());
    assert_eq!(session.wake_at(), None);
    assert!(!session.quit);
}

#[test]
fn refresh_lists_in_manifest_order_and_selects_the_top() {
    let session = session_of(&["b.md", "a.md", "c.md"]);
    assert_eq!(listed(&session), ["b.md", "a.md", "c.md"]);
    assert_eq!(selected(&session), Some("b.md"));
    assert_eq!(session.selected_index(), Some(0));
}

#[test]
fn the_selection_survives_a_note_appearing_above_it() {
    let mut session = session_of(&["a.md", "b.md"]);
    session.select(Some(id("b.md")));
    let disk = [on_disk("a.md", 5), on_disk("b.md", 6), on_disk("new.md", 1)];
    session.refresh(&lines(&["a.md", "b.md"]), &disk);
    assert_eq!(listed(&session), ["new.md", "a.md", "b.md"]);
    assert_eq!(selected(&session), Some("b.md"));
    assert_eq!(session.selected_index(), Some(2));
}

#[test]
fn a_vanished_selection_falls_to_whatever_took_its_place() {
    let mut session = session_of(&["a.md", "b.md", "c.md"]);
    session.select(Some(id("b.md")));
    let disk = [on_disk("a.md", 1), on_disk("c.md", 3)];
    session.refresh(&lines(&["a.md", "b.md", "c.md"]), &disk);
    assert_eq!(listed(&session), ["a.md", "c.md"]);
    assert_eq!(selected(&session), Some("c.md"));

    session.select(Some(id("c.md")));
    session.refresh(&lines(&["a.md", "c.md"]), &[on_disk("a.md", 1)]);
    assert_eq!(selected(&session), Some("a.md"));

    session.refresh(&lines(&[]), &[]);
    assert_eq!(selected(&session), None);
}

#[test]
fn reselect_prefers_the_note_then_its_old_place() {
    let notes = [on_disk("a.md", 1), on_disk("b.md", 2)];
    assert_eq!(reselect(&notes, Some(&id("b.md")), Some(0)), Some(1));
    assert_eq!(reselect(&notes, Some(&id("gone.md")), Some(5)), Some(1));
    assert_eq!(reselect(&notes, None, None), Some(0));
    assert_eq!(reselect(&[], Some(&id("a.md")), Some(0)), None);
}

#[test]
fn selection_stops_at_the_ends_of_the_list() {
    let mut session = session_of(&["a.md", "b.md", "c.md"]);
    assert!(session.step_selection(-1));
    assert_eq!(selected(&session), Some("a.md"));
    assert!(session.step_selection(1));
    assert!(session.step_selection(1));
    assert!(session.step_selection(1));
    assert_eq!(selected(&session), Some("c.md"));

    let mut empty = Session::new();
    assert!(!empty.step_selection(1));
}

#[test]
fn reordering_moves_the_selected_note_and_does_nothing_at_the_ends() {
    let mut session = session_of(&["a.md", "b.md", "c.md"]);
    let up: Vec<String> = session.reordered(-1).unwrap().iter().map(|i| i.as_str().to_owned()).collect();
    assert_eq!(up, ["a.md", "b.md", "c.md"]);
    let down: Vec<String> = session.reordered(1).unwrap().iter().map(|i| i.as_str().to_owned()).collect();
    assert_eq!(down, ["b.md", "a.md", "c.md"]);

    session.select(Some(id("c.md")));
    let down: Vec<String> = session.reordered(1).unwrap().iter().map(|i| i.as_str().to_owned()).collect();
    assert_eq!(down, ["a.md", "b.md", "c.md"]);

    assert!(Session::new().reordered(1).is_none());
}

#[test]
fn a_new_note_goes_on_top_and_takes_the_keyboard_to_the_editor() {
    let mut session = session_of(&["a.md", "b.md"]);
    session.toggle_focus();
    assert_eq!(session.focus, Focus::List);
    let order: Vec<String> = session.order_with_new(&id("new.md")).iter().map(|i| i.as_str().to_owned()).collect();
    assert_eq!(order, ["new.md", "a.md", "b.md"]);
    session.created(id("new.md"));
    assert_eq!(selected(&session), Some("new.md"));
    assert_eq!(session.focus, Focus::Editor);
}

#[test]
fn deleting_asks_first_and_the_pending_save_dies_with_the_note() {
    let mut session = session_of(&["a.md", "b.md"]);
    session.arm_save(true, 1_000);
    session.request_delete();
    assert_eq!(session.pending_delete.as_ref().map(NoteId::as_str), Some("a.md"));

    let taken = session.take_pending_delete().unwrap();
    assert_eq!(taken.as_str(), "a.md");
    assert!(session.pending_delete.is_none());
    assert!(session.save_deadline.is_none());

    session.deleted(&taken);
    assert_eq!(session.status.as_deref(), Some("a.md moved to the trash"));
    assert!(session.selected.is_none());

    assert!(session.take_pending_delete().is_none());
}

#[test]
fn a_cancelled_delete_keeps_the_note() {
    let mut session = session_of(&["a.md"]);
    session.request_delete();
    session.cancel_delete();
    assert!(session.pending_delete.is_none());
    assert!(session.take_pending_delete().is_none());
}

#[test]
fn a_burst_of_typing_leaves_one_save_behind_it() {
    let mut session = session_of(&["a.md"]);
    session.arm_save(true, 1_000);
    session.arm_save(true, 1_100);
    session.arm_save(true, 1_200);
    assert_eq!(session.save_deadline, Some(1_200 + IDLE_SAVE_MS));
    assert!(!session.save_due(1_200 + IDLE_SAVE_MS - 1));
    assert!(session.save_due(1_200 + IDLE_SAVE_MS));
    assert_eq!(session.wake_at(), Some(1_500));
}

#[test]
fn editing_back_to_the_saved_content_disarms_the_save() {
    let mut session = session_of(&["a.md"]);
    session.arm_save(true, 0);
    session.arm_save(false, 10);
    assert!(session.save_deadline.is_none());
}

#[test]
fn a_deadline_at_the_end_of_time_saturates_rather_than_wrapping() {
    let mut session = session_of(&["a.md"]);
    session.arm_save(true, u64::MAX - 1);
    assert_eq!(session.save_deadline, Some(u64::MAX));
}

#[test]
fn a_conflict_closes_the_panel_and_stops_autosave() {
    let mut session = session_of(&["a.md"]);
    session.open_help();
    session.arm_save(true, 0);
    session.enter_conflict(Conflict::Changed);
    assert_eq!(session.conflict, Some(Conflict::Changed));
    assert!(session.help.is_none());
    assert!(session.save_deadline.is_none());

    session.arm_save(true, 50);
    assert!(session.save_deadline.is_none());
    assert!(!session.begin_save(true));

    session.resolve_conflict();
    session.arm_save(true, 50);
    assert_eq!(session.save_deadline, Some(50 + IDLE_SAVE_MS));
    assert!(session.begin_save(true));
    assert!(session.save_deadline.is_none());
    assert!(!session.begin_save(false));
}

#[test]
fn a_deleted_note_under_unsaved_work_stays_selected_while_the_user_decides() {
    let mut session = session_of(&["a.md", "b.md"]);
    session.refresh(&lines(&["a.md", "b.md"]), &[on_disk("b.md", 2)]);
    assert_eq!(selected(&session), Some("b.md"));
    session.meet_external_change(&id("a.md"), OpenNoteOutcome::Conflicted(Conflict::Deleted));
    assert_eq!(session.conflict, Some(Conflict::Deleted));
    assert_eq!(selected(&session), Some("a.md"));

    let mut calm = session_of(&["a.md"]);
    calm.meet_external_change(&id("a.md"), OpenNoteOutcome::Reload);
    assert!(calm.conflict.is_none());
}

#[test]
fn open_note_outcomes_never_replace_unsaved_work() {
    assert_eq!(open_note_outcome(Some("same"), "same", true, true), OpenNoteOutcome::Unchanged);
    assert_eq!(
        open_note_outcome(Some("theirs"), "base", true, true),
        OpenNoteOutcome::Conflicted(Conflict::Changed)
    );
    assert_eq!(open_note_outcome(Some("theirs"), "base", false, true), OpenNoteOutcome::Reload);
    assert_eq!(
        open_note_outcome(None, "base", true, false),
        OpenNoteOutcome::Conflicted(Conflict::Deleted)
    );
    assert_eq!(open_note_outcome(None, "base", false, true), OpenNoteOutcome::Report);
    assert_eq!(open_note_outcome(None, "base", false, false), OpenNoteOutcome::Reopen);
}

#[test]
fn a_failed_save_refuses_the_first_quit_and_allows_the_second() {
    let mut session = session_of(&["a.md"]);
    assert_eq!(session.quit(), QuitStep::SaveFirst);
    assert!(!session.quit);
    session.quit_refused("could not write a.md");
    assert_eq!(
        session.status.as_deref(),
        Some("could not write a.md \u{2014} press ^Q again to quit anyway")
    );
    assert!(!session.quit);
    assert_eq!(session.quit(), QuitStep::Leave);
    assert!(session.quit);
}

#[test]
fn quitting_after_a_good_save_leaves() {
    let mut session = session_of(&["a.md"]);
    assert_eq!(session.quit(), QuitStep::SaveFirst);
    session.leave();
    assert!(session.quit);
}

#[test]
fn quitting_over_an_unanswered_conflict_leaves_without_saving() {
    let mut session = session_of(&["a.md"]);
    session.enter_conflict(Conflict::Changed);
    assert_eq!(session.quit(), QuitStep::Leave);
    assert!(session.quit);
}

#[test]
fn losing_the_workspace_halts_autosave_until_it_comes_back() {
    let mut session = session_of(&["a.md"]);
    session.arm_save(true, 0);
    assert!(!session.check_health(WorkspaceHealth::Missing, 100));
    assert_eq!(session.health, WorkspaceHealth::Missing);
    assert!(session.save_deadline.is_none());
    assert_eq!(session.health_recheck, Some(100 + HEALTH_RECHECK_MS));
    assert!(session.recheck_due(100 + HEALTH_RECHECK_MS));
    assert!(!session.recheck_due(99 + HEALTH_RECHECK_MS));

    session.arm_save(true, 200);
    assert!(session.save_deadline.is_none());

    assert!(!session.check_health(WorkspaceHealth::Missing, 6_000));
    session.recheck_later(6_000);
    assert_eq!(session.health_recheck, Some(6_000 + HEALTH_RECHECK_MS));

    assert!(session.check_health(WorkspaceHealth::Usable, 12_000));
    assert_eq!(session.health, WorkspaceHealth::Usable);
    assert!(session.health_recheck.is_none());
    session.arm_save(true, 12_000);
    assert_eq!(session.save_deadline, Some(12_000 + IDLE_SAVE_MS));
}

#[test]
fn health_follows_what_the_metadata_says() {
    assert_eq!(health_of(false, false, false), WorkspaceHealth::Missing);
    assert_eq!(health_of(true, false, false), WorkspaceHealth::Missing);
    assert_eq!(health_of(true, true, true), WorkspaceHealth::ReadOnly);
    assert_eq!(health_of(true, true, false), WorkspaceHealth::Usable);
}

#[test]
fn the_loop_wakes_for_the_earlier_of_its_two_timers() {
    assert_eq!(wake_at(Some(5), Some(3)), Some(3));
    assert_eq!(wake_at(Some(2), Some(3)), Some(2));
    assert_eq!(wake_at(None, Some(3)), Some(3));
    assert_eq!(wake_at(Some(4), None), Some(4));
    assert_eq!(wake_at(None, None), None);
}

#[test]
fn the_panel_follows_its_keys_only_while_open() {
    let mut session = session_of(&["a.md"]);
    session.help_move(1);
    assert!(session.help.is_none());

    session.open_help();
    assert!(!session.help_searching());
    session.help_move(2);
    assert_eq!(session.help.as_ref().unwrap().cursor(), 2);
    session.help_to_end();
    let last = session.help.as_ref().unwrap().cursor();
    assert!(last > 2);
    session.help_to(0);
    assert_eq!(session.help.as_ref().unwrap().cursor(), 0);

    session.help_search();
    assert!(session.help_searching());
    session.help_type('q');
    session.help_type('u');
    assert_eq!(session.help.as_ref().unwrap().query(), "qu");
    session.help_backspace();
    assert_eq!(session.help.as_ref().unwrap().query(), "q");
    session.help_search_commit();
    assert!(!session.help_searching());
    assert_eq!(session.help.as_ref().unwrap().query(), "q");
    session.help_search_cancel();
    assert_eq!(session.help.as_ref().unwrap().query(), "");

    session.close_help();
    assert!(session.help.is_none());
    assert_eq!(session.help_selection(), None);
}

#[test]
fn a_window_tall_enough_for_everything_pulls_the_panel_view_back_to_the_top() {
    let mut session = session_of(&["a.md"]);
    session.set_size(80, 10);
    session.open_help();
    session.help_scroll(1_000);
    assert!(session.help.as_ref().unwrap().offset() > 0);
    session.set_size(80, 500);
    assert_eq!(session.size, (80, 500));
    assert_eq!(session.help.as_ref().unwrap().offset(), 0);
}

#[test]
fn a_saved_rename_carries_the_selection_with_it() {
    let mut session = session_of(&["a.md", "b.md"]);
    session.follow_saved_rename(&id("a.md"), &id("title.md"));
    assert_eq!(selected(&session), Some("title.md"));
    session.follow_saved_rename(&id("b.md"), &id("other.md"));
    assert_eq!(selected(&session), Some("title.md"));
}

#[test]
fn events_touch_the_open_note_only_by_name() {
    let open = id("a.md");
    assert!(touches_open(&StoreEvent::Rescan, Some(&open)));
    assert!(touches_open(&StoreEvent::Modified(id("a.md")), Some(&open)));
    assert!(!touches_open(&StoreEvent::Modified(id("b.md")), Some(&open)));
    assert!(!touches_open(&StoreEvent::Created(id("a.md")), None));
    assert!(!touches_open(
        &StoreEvent::Renamed { from: id("a.md"), to: id("b.md") },
        Some(&open)
    ));
    assert!(session::relists(&StoreEvent::Removed(id("a.md"))));
    assert!(!session::relists(&StoreEvent::Modified(id("a.md"))));
    let followed = session::followed_rename(
        &StoreEvent::Renamed { from: id("a.md"), to: id("b.md") },
        Some(&open),
    );
    assert_eq!(followed.map(|t| t.as_str().to_owned()), Some("b.md".to_owned()));
}

#[test]
fn free_names_are_probed_with_numbered_suffixes() {
    assert_eq!(candidate_name("note.md", 1), "note.md");
    assert_eq!(candidate_name("note.md", 2), "note-2.md");
    assert_eq!(candidate_name("README", 3), "README-3");
}

#[test]
fn lists_knows_which_notes_are_there() {
    let session = session_of(&["a.md", "b.md"]);
    assert!(session.lists(&id("b.md")));
    assert!(!session.lists(&id("c.md")));
}
