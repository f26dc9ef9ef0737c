//! The decisions a save makes: when it is due, what the note is renamed to, what the manifest
//! says afterwards, and what the echo of it means for the buffer.

use scratchbox::note::{NoteId, NoteMeta};
use scratchbox::order::{OrderStore, manifest_lines};
use scratchbox::save::{SaveStep, save_steps, slug_target};
use scratchbox::session::{
    IDLE_SAVE_MS, OpenNoteOutcome, Session, open_note_outcome, touches_open,
};
use scratchbox::store::StoreEvent;

fn id(name: &str) -> NoteId {
    NoteId::new(name).expect("valid note name")
}

fn lines(names: &[&str]) -> Vec<String> {
    names.iter().map(|n| (*n).to_owned()).collect()
}

fn disk(names: &[&str]) -> Vec<NoteMeta> {
    names
        .iter()
        .enumerate()
        .map(|(i, n)| NoteMeta::from_id(id(n), 1_000 - i as i128))
        .collect()
}

#[test]
fn typing_then_idling_writes_the_buffer_to_disk() {
    let mut session = Session::new();
    session.refresh(&lines(&["a.md"]), &disk(&["a.md"]));

    session.arm_save(true, 10_000);
    assert!(!session.save_due(10_000 + IDLE_SAVE_MS - 1), "written before the quiet period");
    assert!(session.save_due(10_000 + IDLE_SAVE_MS));
    assert!(session.begin_save(true), "a due save with a dirty buffer writes");
    assert!(session.save_deadline.is_none(), "one save per quiet period");
}

#[test]
fn the_first_save_with_a_title_renames_the_note() {
    let born_as = id("2026-08-15-1548.md");
    let target = slug_target(&born_as, "My Note\nbody").expect("a title renames the note");
    assert_eq!(target.as_str(), "2026-08-15-1548-my-note.md");

    let mut session = Session::new();
    session.refresh(&lines(&["2026-08-15-1548.md"]), &disk(&["2026-08-15-1548.md"]));
    session.follow_saved_rename(&born_as, &target);
    assert_eq!(session.selected.as_ref().unwrap().as_str(), "2026-08-15-1548-my-note.md");
}

/// The name is frozen after the first rename, so a note stays stable enough to reference.
#[test]
fn editing_the_first_line_again_does_not_rename() {
    let named = id("2026-08-15-1548-first-title.md");
    assert!(slug_target(&named, "First Title Rewritten Completely").is_none());
}

/// A first line with no letters or digits in it is not a title; the note waits.
#[test]
fn a_save_with_no_usable_first_line_leaves_the_note_unnamed() {
    let born_as = id("2026-08-15-1548.md");
    assert!(slug_target(&born_as, "***\nbody").is_none());

    // And it still renames later, once there is something to name it after.
    let later = slug_target(&born_as, "Real Title\nbody!").expect("the note never earned its name");
    assert_eq!(later.as_str(), "2026-08-15-1548-real-title.md");
}

#[test]
fn a_renamed_note_keeps_its_position_in_the_manifest() {
    let order = OrderStore::new("/w/.scratchbox");
    let manifest = lines(&["a.md", "b.md", "2026-08-15-1548.md", "c.md"]);
    let renamed = id("2026-08-15-1548-middle-note.md");

    let text = order
        .record_rename(&manifest, &id("2026-08-15-1548.md"), &renamed)
        .expect("the note was listed");
    assert_eq!(text, "a.md\nb.md\n2026-08-15-1548-middle-note.md\nc.md\n");

    let mut session = Session::new();
    session.refresh(&manifest, &disk(&["a.md", "b.md", "2026-08-15-1548.md", "c.md"]));
    session.select(Some(id("2026-08-15-1548.md")));
    session.follow_saved_rename(&id("2026-08-15-1548.md"), &renamed);
    session.refresh(
        &manifest_lines(&text),
        &disk(&["a.md", "b.md", "2026-08-15-1548-middle-note.md", "c.md"]),
    );
    let names: Vec<&str> = session.notes.iter().map(|n| n.id.as_str()).collect();
    assert_eq!(names, ["a.md", "b.md", "2026-08-15-1548-middle-note.md", "c.md"]);
    assert_eq!(session.selected.as_ref().unwrap().as_str(), "2026-08-15-1548-middle-note.md");
}

/// The baseline is recorded before the rename, so a rescan straight after one compares the
/// renamed file against current content and finds nothing.
#[test]
fn a_rescan_straight_after_a_rename_raises_nothing() {
    let open = id("2026-08-15-1548-fresh-note.md");
    assert!(touches_open(&StoreEvent::Rescan, Some(&open)));
    assert_eq!(
        open_note_outcome(Some("Fresh Note"), "Fresh Note", false, true),
        OpenNoteOutcome::Unchanged
    );
}

/// A rescan carries no path, so it is reconciled by comparison rather than guessed at.
#[test]
fn a_rescan_over_an_unchanged_file_reloads_nothing() {
    let open = id("a.md");
    assert!(touches_open(&StoreEvent::Rescan, Some(&open)));
    assert_eq!(
        open_note_outcome(Some("original"), "original", false, true),
        OpenNoteOutcome::Unchanged
    );
}

#[test]
fn a_save_writes_then_records_then_renames() {
    let born_as = id("2026-08-15-1548.md");
    let steps = save_steps(Some(&born_as), true, "My Note\nbody");
    assert_eq!(
        steps,
        vec![
            SaveStep::Write,
            SaveStep::MarkSaved,
            SaveStep::Rename(id("2026-08-15-1548-my-note.md")),
            SaveStep::FollowRename,
            SaveStep::RecordRename,
        ]
    );

    // Named already, or no title yet: written and recorded, nothing more.
    assert_eq!(save_steps(Some(&id("2026-08-15-1548-my-note.md")), true, "Other\n"), vec![SaveStep::Write, SaveStep::MarkSaved]);
    assert_eq!(save_steps(Some(&born_as), true, "***\n"), vec![SaveStep::Write, SaveStep::MarkSaved]);
}

#[test]
fn a_clean_buffer_or_no_note_saves_nothing() {
    assert!(save_steps(Some(&id("a.md")), false, "changed?").is_empty());
    assert!(save_steps(None, true, "text").is_empty());
}
