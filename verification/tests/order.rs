use scratchbox::note::{NoteId, NoteMeta};
use scratchbox::order::{self, OrderStore, manifest_lines, reconcile};

fn id(name: &str) -> NoteId {
    NoteId::new(name).expect("valid note name")
}

/// A note on disk, `age` seconds old. Larger `age` means older.
fn on_disk(name: &str, age: i128) -> NoteMeta {
    NoteMeta::from_id(id(name), (10_000 - age) * 1_000_000_000)
}

fn lines(names: &[&str]) -> Vec<String> {
    names.iter().map(|n| (*n).to_owned()).collect()
}

fn names(order: &[NoteId]) -> Vec<&str> {
    order.iter().map(NoteId::as_str).collect()
}

#[test]
fn remembered_order_is_preserved() {
    let manifest = lines(&["b.md", "a.md", "c.md"]);
    let disk = [on_disk("a.md", 1), on_disk("b.md", 2), on_disk("c.md", 3)];

    assert_eq!(names(&reconcile(&manifest, &disk)), ["b.md", "a.md", "c.md"]);
}

#[test]
fn new_files_land_on_top_newest_first() {
    let manifest = lines(&["old.md"]);
    let disk = [
        on_disk("old.md", 100),
        on_disk("older-new.md", 20),
        on_disk("newest.md", 1),
    ];

    assert_eq!(
        names(&reconcile(&manifest, &disk)),
        ["newest.md", "older-new.md", "old.md"]
    );
}

#[test]
fn an_entry_whose_file_is_gone_is_pruned() {
    let manifest = lines(&["a.md", "deleted.md", "b.md"]);
    let disk = [on_disk("a.md", 1), on_disk("b.md", 2)];

    assert_eq!(names(&reconcile(&manifest, &disk)), ["a.md", "b.md"]);
}

#[test]
fn a_missing_or_empty_manifest_falls_back_to_newest_first() {
    let disk = [
        on_disk("middle.md", 50),
        on_disk("oldest.md", 99),
        on_disk("newest.md", 1),
    ];

    assert_eq!(
        names(&reconcile(&[], &disk)),
        ["newest.md", "middle.md", "oldest.md"]
    );
}

#[test]
fn notes_written_in_the_same_instant_are_ordered_by_name() {
    let disk = [on_disk("b.md", 5), on_disk("a.md", 5), on_disk("c.md", 1)];
    assert_eq!(names(&reconcile(&[], &disk)), ["c.md", "a.md", "b.md"]);
}

#[test]
fn a_hand_mangled_manifest_never_loses_a_note() {
    let manifest = lines(&[
        "",
        "   ",
        "a.md",
        "\u{0}garbage",
        "a.md",
        "not a real note.md",
        "b.md",
    ]);
    let disk = [on_disk("a.md", 2), on_disk("b.md", 1)];

    assert_eq!(names(&reconcile(&manifest, &disk)), ["a.md", "b.md"]);
}

#[test]
fn a_manifest_line_pointing_outside_the_workspace_is_dropped() {
    let manifest = lines(&["../../.ssh/id_rsa", "/etc/passwd", "..", ".hidden", "real.md"]);
    let disk = [on_disk("real.md", 1)];

    assert_eq!(names(&reconcile(&manifest, &disk)), ["real.md"]);
}

#[test]
fn a_manifest_line_with_surrounding_whitespace_still_names_its_note() {
    let manifest = lines(&["  b.md\t", "a.md"]);
    let disk = [on_disk("a.md", 1), on_disk("b.md", 2)];
    assert_eq!(names(&reconcile(&manifest, &disk)), ["b.md", "a.md"]);
}

#[test]
fn a_note_renamed_since_the_last_save_keeps_its_place() {
    let manifest = lines(&["a.md", "b.md", "2026-08-15-1548.md", "c.md"]);
    let disk = [
        on_disk("a.md", 4),
        on_disk("b.md", 3),
        on_disk("2026-08-15-1548-my-note.md", 1),
        on_disk("c.md", 2),
    ];

    let order = reconcile(&manifest, &disk);

    assert_eq!(
        names(&order),
        ["a.md", "b.md", "2026-08-15-1548-my-note.md", "c.md"],
        "the repaired note should hold its middle position, not jump to the top"
    );
    assert_eq!(order[2].as_str(), "2026-08-15-1548-my-note.md");
}

#[test]
fn an_ambiguous_rename_is_not_guessed_at() {
    let manifest = lines(&["a.md", "2026-08-15-1548.md"]);
    let disk = [
        on_disk("a.md", 9),
        on_disk("2026-08-15-1548-one.md", 2),
        on_disk("2026-08-15-1548-two.md", 1),
    ];

    let order = reconcile(&manifest, &disk);

    assert_eq!(
        names(&order),
        ["2026-08-15-1548-two.md", "2026-08-15-1548-one.md", "a.md"]
    );
}

#[test]
fn a_rename_across_extensions_is_not_treated_as_a_repair() {
    let manifest = lines(&["2026-08-15-1548.md"]);
    let disk = [on_disk("2026-08-15-1548-note.ts", 1)];

    assert_eq!(names(&reconcile(&manifest, &disk)), ["2026-08-15-1548-note.ts"]);
}

#[test]
fn a_constructed_rename_pair_reaches_the_repair_branch() {
    let manifest = lines(&["zz-kept.md", "2031-01-02-0304.txt"]);
    let disk = [on_disk("zz-kept.md", 9_000), on_disk("2031-01-02-0304-a-b.txt", 0)];

    assert_eq!(
        names(&reconcile(&manifest, &disk)),
        ["zz-kept.md", "2031-01-02-0304-a-b.txt"],
        "the repaired note did not hold the stale line's position"
    );
}

#[test]
fn reconcile_is_idempotent() {
    let manifest = lines(&["c.md", "nothing.md", "2026-08-15-1548.md", "a.md"]);
    let disk = [
        on_disk("a.md", 4),
        on_disk("b.md", 3),
        on_disk("2026-08-15-1548-x.md", 1),
        on_disk("c.md", 2),
    ];
    let once = reconcile(&manifest, &disk);
    let again: Vec<String> = once.iter().map(|n| n.as_str().to_owned()).collect();
    let twice = reconcile(&again, &disk);
    assert_eq!(names(&twice), names(&once));
}

#[test]
fn moving_a_note_stops_at_the_ends() {
    let mut order = vec![id("a.md"), id("b.md"), id("c.md")];

    order::move_up(&mut order, 0);
    assert_eq!(names(&order), ["a.md", "b.md", "c.md"], "top cannot go up");

    order::move_down(&mut order, 2);
    assert_eq!(names(&order), ["a.md", "b.md", "c.md"], "bottom cannot go down");

    order::move_up(&mut order, 99);
    order::move_down(&mut order, 99);
    assert_eq!(names(&order), ["a.md", "b.md", "c.md"]);
}

#[test]
fn moving_a_note_swaps_it_with_its_neighbour() {
    let mut order = vec![id("a.md"), id("b.md"), id("c.md")];

    order::move_up(&mut order, 2);
    assert_eq!(names(&order), ["a.md", "c.md", "b.md"]);

    order::move_down(&mut order, 0);
    assert_eq!(names(&order), ["c.md", "a.md", "b.md"]);
}

#[test]
fn moving_down_undoes_moving_up() {
    let mut order = vec![id("a.md"), id("b.md"), id("c.md")];
    order::move_up(&mut order, 1);
    order::move_down(&mut order, 0);
    assert_eq!(names(&order), ["a.md", "b.md", "c.md"]);
}

#[test]
fn renaming_an_entry_keeps_its_index() {
    let mut order = vec![id("a.md"), id("b.md"), id("c.md"), id("d.md")];

    order::rename_entry(&mut order, &id("d.md"), &id("d-titled.md"));

    assert_eq!(names(&order), ["a.md", "b.md", "c.md", "d-titled.md"]);

    order::rename_entry(&mut order, &id("absent.md"), &id("x.md"));
    assert_eq!(names(&order), ["a.md", "b.md", "c.md", "d-titled.md"]);
}

#[test]
fn a_manifest_round_trips_through_its_text() {
    let store = OrderStore::new("/w/.scratchbox");
    let order = vec![id("b.md"), id("a.md")];

    let text = store.save(&order);

    assert_eq!(text, "b.md\na.md\n", "the manifest should stay greppable, one name per line");
    assert_eq!(store.load(Some(&text)), lines(&["b.md", "a.md"]));
    assert_eq!(store.path(), "/w/.scratchbox/order");
}

#[test]
fn a_binary_manifest_reads_as_no_manifest_at_all() {
    let store = OrderStore::new("/w/.scratchbox");
    assert!(store.load(None).is_empty(), "invalid UTF-8 is a cache miss");
}

#[test]
fn a_missing_manifest_is_not_an_error() {
    let store = OrderStore::new("/never-created");
    assert!(store.load(None).is_empty());
}

#[test]
fn ten_thousand_blank_lines_are_harmless() {
    let text = "\n".repeat(10_000);
    let store = OrderStore::new("/w");
    let loaded = store.load(Some(&text));
    assert_eq!(loaded.len(), 10_000);

    let disk = [on_disk("a.md", 1)];
    assert_eq!(names(&reconcile(&loaded, &disk)), ["a.md"]);
}

#[test]
fn lines_are_split_as_str_lines_splits_them() {
    assert_eq!(manifest_lines("a\r\nb\n\nc"), lines(&["a", "b", "", "c"]));
    assert_eq!(manifest_lines(""), Vec::<String>::new());
    assert_eq!(manifest_lines("x\r"), lines(&["x\r"]));
}

#[test]
fn renaming_a_note_moves_its_manifest_entry_in_place() {
    let store = OrderStore::new("/w/.scratchbox");
    let current = lines(&["a.md", "  2026-08-15-1548.md ", "c.md"]);

    let text = store
        .record_rename(&current, &id("2026-08-15-1548.md"), &id("2026-08-15-1548-titled.md"))
        .expect("the entry is listed");

    assert_eq!(text, "a.md\n2026-08-15-1548-titled.md\nc.md\n");
    assert_eq!(store.record_rename(&current, &id("zz.md"), &id("yy.md")), None);
}

#[test]
fn deleting_a_note_drops_its_manifest_entry() {
    let store = OrderStore::new("/w/.scratchbox");
    let current = lines(&["a.md", "gone.md", "c.md", " gone.md"]);

    assert_eq!(store.record_removal(&current, &id("gone.md")), Some("a.md\nc.md\n".to_owned()));
    assert_eq!(store.record_removal(&current, &id("zz.md")), None);
}
