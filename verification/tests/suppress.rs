use scratchbox::note::NoteId;
use scratchbox::store::StoreEvent;
use scratchbox::suppress::{
    fingerprint_prefix, Fingerprint, Suppressor, DEFAULT_TTL_MS, FINGERPRINT_PREFIX,
};

fn id(name: &str) -> NoteId {
    NoteId::new(name).unwrap()
}

fn fixture() -> Suppressor {
    Suppressor::new("/w".to_owned())
}

fn on_disk(content: &str) -> Option<Fingerprint> {
    Some(Fingerprint::of_bytes(content.as_bytes()))
}

#[test]
fn every_event_describing_our_own_content_is_suppressed() {
    let mut suppressor = fixture();
    suppressor.register_write(&id("note.md"), "ours", 0);

    assert!(suppressor.should_suppress(&StoreEvent::Created(id("note.md")), on_disk("ours"), 10));
    assert!(suppressor.should_suppress(&StoreEvent::Modified(id("note.md")), on_disk("ours"), 20));
    assert!(suppressor.should_suppress(&StoreEvent::Modified(id("note.md")), on_disk("ours"), 30));
}

#[test]
fn an_external_write_with_different_content_survives() {
    let mut suppressor = fixture();
    suppressor.register_write(&id("note.md"), "ours", 0);

    assert!(!suppressor.should_suppress(&StoreEvent::Modified(id("note.md")), on_disk("theirs"), 10));
}

#[test]
fn a_write_to_a_file_that_vanished_is_not_suppressed() {
    let mut suppressor = fixture();
    suppressor.register_write(&id("note.md"), "ours", 0);

    assert!(!suppressor.should_suppress(&StoreEvent::Modified(id("note.md")), None, 10));
    assert!(suppressor.is_empty(10), "the spent entry should be consumed");
}

#[test]
fn a_rename_is_suppressed_whether_stitched_or_split() {
    let mut suppressor = fixture();
    let (from, to) = (id("old.md"), id("new.md"));

    suppressor.register_rename(&from, &to, 0);
    assert!(suppressor.should_suppress(
        &StoreEvent::Renamed { from: from.clone(), to: to.clone() },
        None,
        1
    ));

    suppressor.register_rename(&from, &to, 2);
    assert!(suppressor.should_suppress(&StoreEvent::Removed(from.clone()), None, 3));
    assert!(suppressor.should_suppress(&StoreEvent::Created(to.clone()), on_disk("body"), 4));
}

#[test]
fn a_large_note_is_fingerprinted_without_reading_all_of_it() {
    let mut suppressor = fixture();
    let body = "x".repeat(10 * 1024 * 1024);
    suppressor.register_write(&id("big.md"), &body, 0);
    let read_back = Fingerprint::new(body.len() as u64, &body.as_bytes()[..65536]);

    assert!(suppressor.should_suppress(&StoreEvent::Modified(id("big.md")), Some(read_back), 1));
}

#[test]
fn a_large_note_edited_past_the_hashed_prefix_still_survives() {
    let mut suppressor = fixture();
    let ours = "x".repeat(10 * 1024 * 1024);
    suppressor.register_write(&id("big.md"), &ours, 0);
    let theirs = "x".repeat(10 * 1024 * 1024 - 1);

    assert!(!suppressor.should_suppress(&StoreEvent::Modified(id("big.md")), on_disk(&theirs), 1));
}

#[test]
fn overlapping_entries_for_one_path_are_both_honored() {
    let mut suppressor = fixture();
    suppressor.register_write(&id("note.md"), "body", 0);
    suppressor.register_rename(&id("note.md"), &id("note-titled.md"), 0);

    assert!(suppressor.should_suppress(&StoreEvent::Modified(id("note.md")), on_disk("body"), 1));
    assert!(suppressor.should_suppress(
        &StoreEvent::Renamed { from: id("note.md"), to: id("note-titled.md") },
        None,
        2
    ));
}

#[test]
fn entries_expire_so_the_registry_stays_bounded() {
    let mut suppressor = Suppressor::with_ttl("/w".to_owned(), 20);

    for n in 0..50 {
        suppressor.register_write(&id(&format!("note-{n}.md")), "body", 0);
    }
    assert_eq!(suppressor.len(10), 50);
    assert!(suppressor.is_empty(60), "entries outlived their TTL");
}

#[test]
fn a_rescan_is_never_suppressed() {
    let mut suppressor = fixture();
    suppressor.register_write(&id("note.md"), "ours", 0);

    assert!(!suppressor.should_suppress(&StoreEvent::Rescan, on_disk("ours"), 1));
}

#[test]
fn the_default_lifetime_is_two_seconds() {
    let mut suppressor = fixture();
    suppressor.register_write(&id("note.md"), "ours", 1000);
    assert_eq!(suppressor.len(1000 + DEFAULT_TTL_MS - 1), 1);
    assert_eq!(suppressor.len(1000 + DEFAULT_TTL_MS), 0);
}

#[test]
fn a_fingerprint_hashes_only_the_opening_bytes() {
    let a = Fingerprint::of_bytes(&[1u8, 2, 3]);
    let b = Fingerprint::new(3, &[1u8, 2, 3]);
    assert!(a == b);
    assert_eq!(a.len, 3);
    assert!(Fingerprint::of_bytes(&[1u8, 2, 4]) != a);

    // Past the prefix only the length tells two contents apart.
    let mut long = vec![7u8; 65536];
    long.push(1);
    let mut other = vec![7u8; 65536];
    other.push(2);
    assert!(Fingerprint::of_bytes(&long) == Fingerprint::of_bytes(&other));
    assert!(Fingerprint::of_bytes(&long) == Fingerprint::new(65537, &long[..65536]));
}

#[test]
fn the_hashed_prefix_is_the_opening_bytes() {
    assert_eq!(fingerprint_prefix(&[1u8, 2, 3]), vec![1u8, 2, 3]);
    let big = vec![9u8; 70000];
    let prefix = fingerprint_prefix(&big);
    assert_eq!(prefix.len() as u64, FINGERPRINT_PREFIX);
    assert_eq!(prefix, big[..65536].to_vec());
}

#[test]
fn the_count_is_the_live_registrations_less_the_spent_ones() {
    let mut suppressor = Suppressor::with_ttl("/w".to_owned(), 100);
    suppressor.register_write(&id("a.md"), "ours", 0);
    suppressor.register_rename(&id("b.md"), &id("c.md"), 10);
    assert_eq!(suppressor.len(50), 3, "one per write, two per rename");

    // A match spends nothing.
    assert!(suppressor.should_suppress(&StoreEvent::Modified(id("a.md")), on_disk("ours"), 55));
    assert!(suppressor.should_suppress(&StoreEvent::Removed(id("b.md")), None, 56));
    assert_eq!(suppressor.len(57), 3);

    // A write whose file vanished is spent early.
    assert!(!suppressor.should_suppress(&StoreEvent::Modified(id("a.md")), None, 60));
    assert_eq!(suppressor.len(60), 2);

    // The rest leave with the clock.
    assert_eq!(suppressor.len(109), 2);
    assert_eq!(suppressor.len(110), 0);
}

#[test]
fn an_event_about_another_note_passes_and_spends_nothing() {
    let mut suppressor = fixture();
    suppressor.register_write(&id("a.md"), "ours", 0);
    assert!(!suppressor.should_suppress(&StoreEvent::Modified(id("other.md")), None, 10));
    assert!(!suppressor.should_suppress(&StoreEvent::Removed(id("other.md")), None, 11));
    assert_eq!(suppressor.len(12), 1);
}
