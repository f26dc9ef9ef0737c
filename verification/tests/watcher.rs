use scratchbox::note::NoteId;
use scratchbox::store::StoreEvent;
use scratchbox::watch::{RawEvent, RawKind, RecentlyEmitted, classify, collapse, note_in_root, settle};

const ROOT: &str = "/private/var/ws";

fn id(name: &str) -> NoteId {
    NoteId::new(name).unwrap()
}

fn raw(kind: RawKind, paths: &[&str]) -> RawEvent {
    RawEvent { kind, paths: paths.iter().map(|p| (*p).to_owned()).collect() }
}

fn path(name: &str) -> String {
    format!("{ROOT}/{name}")
}

/// What the watcher reports for a raw event, given which notes are on disk.
fn translate(event: &RawEvent, present: &[&str]) -> Vec<StoreEvent> {
    classify(event, ROOT)
        .into_iter()
        .map(|event| {
            let here = match &event {
                StoreEvent::Created(id) | StoreEvent::Modified(id) => present.contains(&id.as_str()),
                _ => true,
            };
            settle(event, here)
        })
        .collect()
}

#[test]
fn only_a_plain_file_directly_in_the_root_is_a_note() {
    assert_eq!(note_in_root(&path("note.md"), ROOT), Some(id("note.md")));
    assert_eq!(note_in_root(&path(".scratchbox/order"), ROOT), None);
    assert_eq!(note_in_root(&path("sub/note.md"), ROOT), None);
    assert_eq!(note_in_root(&path(".DS_Store"), ROOT), None);
    assert_eq!(note_in_root(&path(".tmp-note.md"), ROOT), None);
    assert_eq!(note_in_root("/elsewhere/note.md", ROOT), None);
}

#[test]
fn a_change_to_a_file_that_is_not_there_is_reported_as_a_removal() {
    let gone = path("gone.md");
    for kind in [RawKind::Create, RawKind::Modify] {
        assert_eq!(
            translate(&raw(kind, &[&gone]), &[]),
            vec![StoreEvent::Removed(id("gone.md"))],
            "a {kind:?} for a missing file should read as a removal"
        );
    }
}

#[test]
fn a_creation_of_a_file_that_is_there_stays_a_creation() {
    assert_eq!(
        translate(&raw(RawKind::Create, &[&path("note.md")]), &["note.md"]),
        vec![StoreEvent::Created(id("note.md"))]
    );
}

#[test]
fn an_editor_saving_through_a_temp_file_reads_as_the_note_changing() {
    let stitched = raw(RawKind::RenameBoth, &[&path(".tmp-note.md"), &path("note.md")]);
    assert_eq!(translate(&stitched, &["note.md"]), vec![StoreEvent::Modified(id("note.md"))]);
}

#[test]
fn a_real_rename_between_two_notes_keeps_both_halves() {
    let stitched = raw(RawKind::RenameBoth, &[&path("old.md"), &path("new.md")]);
    assert_eq!(
        translate(&stitched, &["new.md"]),
        vec![StoreEvent::Renamed { from: id("old.md"), to: id("new.md") }]
    );
}

#[test]
fn an_event_about_something_that_is_not_a_note_produces_nothing() {
    assert!(
        translate(&raw(RawKind::Remove, &[&path(".scratchbox/order")]), &[]).is_empty(),
        "a manifest write must not reach the caller, or it would spin"
    );
}

#[test]
fn opening_and_reading_a_note_changes_nothing() {
    assert!(translate(&raw(RawKind::Access, &[&path("note.md")]), &["note.md"]).is_empty());
}

#[test]
fn an_uninformative_event_asks_for_a_rescan() {
    assert_eq!(translate(&raw(RawKind::Any, &[]), &[]), vec![StoreEvent::Rescan]);
    assert_eq!(translate(&raw(RawKind::Other, &[&path("note.md")]), &[]), vec![StoreEvent::Rescan]);
}

#[test]
fn halves_of_a_rename_are_a_removal_and_a_creation() {
    assert_eq!(
        translate(&raw(RawKind::RenameFrom, &[&path("a.md")]), &[]),
        vec![StoreEvent::Removed(id("a.md"))]
    );
    assert_eq!(
        translate(&raw(RawKind::RenameTo, &[&path("b.md")]), &["b.md"]),
        vec![StoreEvent::Created(id("b.md"))]
    );
    assert_eq!(
        translate(&raw(RawKind::RenameOther, &[&path("c.md")]), &[]),
        vec![StoreEvent::Removed(id("c.md"))]
    );
}

#[test]
fn an_identical_event_inside_one_window_is_reported_once() {
    let mut recent = RecentlyEmitted::new();
    let modified = StoreEvent::Modified(id("note.md"));

    assert!(!recent.already_reported(&modified, 1000), "the first report should go through");
    assert!(recent.already_reported(&modified, 1100), "the second is redundant");
    assert!(!recent.already_reported(&StoreEvent::Modified(id("other.md")), 1200));
    assert!(!recent.already_reported(&StoreEvent::Removed(id("note.md")), 1300));
    assert!(!recent.already_reported(&modified, 1600), "a later window reports it again");
}

#[test]
fn a_batch_reports_each_change_once() {
    let batch = vec![
        StoreEvent::Modified(id("a.md")),
        StoreEvent::Removed(id("b.md")),
        StoreEvent::Modified(id("a.md")),
        StoreEvent::Rescan,
        StoreEvent::Rescan,
    ];
    assert_eq!(
        collapse(&batch),
        vec![StoreEvent::Modified(id("a.md")), StoreEvent::Removed(id("b.md")), StoreEvent::Rescan]
    );
}
