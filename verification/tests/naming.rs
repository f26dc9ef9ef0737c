use scratchbox::naming::{
    MAX_SLUG_LEN, Minute, is_slugged, new_note_name, slugged_name, timestamp_prefix, with_suffix,
};
use scratchbox::note::{Format, InvalidNoteId, NoteId};
use scratchbox::slug::slug_from_first_line;

fn id(name: &str) -> NoteId {
    NoteId::new(name).expect("test name should be valid")
}

#[test]
fn every_declared_format_maps_from_its_extension() {
    for (ext, expected) in [
        ("md", Format::Markdown),
        ("json", Format::Json),
        ("txt", Format::PlainText),
        ("java", Format::Java),
        ("ts", Format::TypeScript),
        ("js", Format::JavaScript),
        ("css", Format::Css),
        ("html", Format::Html),
    ] {
        assert_eq!(Format::from_extension(ext), expected, "extension {ext}");
        assert_eq!(Format::from_extension(expected.extension()), expected);
    }
}

#[test]
fn extension_matching_ignores_case() {
    for (ext, expected) in [("MD", Format::Markdown), ("Json", Format::Json), ("HTML", Format::Html)] {
        assert_eq!(Format::from_extension(ext), expected);
        assert_eq!(Format::from_name(&format!("2026-08-15-1548.{ext}")), expected);
    }
}

#[test]
fn an_unknown_extension_falls_back_to_plain() {
    assert_eq!(Format::from_extension("rs"), Format::PlainText);
    assert_eq!(Format::from_extension(""), Format::PlainText);
    assert_eq!(Format::from_name("notes"), Format::PlainText);
    assert_eq!(Format::from_name("2026-08-15-1548.xyz"), Format::PlainText);
}

#[test]
fn a_new_note_is_named_for_the_minute_it_was_created() {
    let now: jiff::Zoned = "2026-08-15T15:48:30-03[America/Sao_Paulo]".parse().unwrap();
    let minute = Minute {
        year: now.year(),
        month: now.month(),
        day: now.day(),
        hour: now.hour(),
        minute: now.minute(),
    };

    assert_eq!(new_note_name(minute, "md"), "2026-08-15-1548.md");
    assert_eq!(new_note_name(minute, "ts"), "2026-08-15-1548.ts");
}

#[test]
fn every_field_of_the_stamp_is_zero_padded() {
    let early = Minute { year: 7, month: 1, day: 2, hour: 3, minute: 4 };
    assert!(early.is_valid());
    assert_eq!(new_note_name(early, "txt"), "0007-01-02-0304.txt");
    let ancient = Minute { year: -44, month: 3, day: 15, hour: 12, minute: 0 };
    assert_eq!(new_note_name(ancient, "md"), "-044-03-15-1200.md");
    assert!(!Minute { year: 2026, month: 13, day: 1, hour: 0, minute: 0 }.is_valid());
}

#[test]
fn slug_is_kebab_case_and_ascii_folded() {
    assert_eq!(slug_from_first_line("Café über").as_deref(), Some("cafe-uber"));
    assert_eq!(
        slug_from_first_line("Meeting Notes: Q3 Planning").as_deref(),
        Some("meeting-notes-q3-planning")
    );
}

#[test]
fn leading_markdown_hashes_and_punctuation_are_stripped() {
    assert_eq!(slug_from_first_line("# Foo").as_deref(), Some("foo"));
    assert_eq!(slug_from_first_line("### Foo Bar").as_deref(), Some("foo-bar"));
    assert_eq!(slug_from_first_line("   !!! hello !!!").as_deref(), Some("hello"));
}

#[test]
fn a_line_with_no_usable_characters_stays_unslugged() {
    for line in ["", "\n", "   \t  ", "🎉🎉🎉", "!!!", "###"] {
        assert_eq!(slug_from_first_line(line), None, "{line:?}");
    }
}

#[test]
fn only_the_first_line_feeds_the_slug() {
    assert_eq!(
        slug_from_first_line("title here\nbody that should not matter").as_deref(),
        Some("title-here")
    );
}

#[test]
fn a_long_line_is_cut_on_a_word_boundary() {
    let long = "the quick brown fox jumps over the lazy dog and keeps running for a while";
    let slug = slug_from_first_line(long).expect("long line yields a slug");

    assert!(slug.len() <= MAX_SLUG_LEN, "slug too long: {slug:?}");
    assert!(!slug.ends_with('-'), "slug ends mid-token: {slug:?}");
    assert!(long.replace(' ', "-").starts_with(&slug), "unexpected slug {slug:?}");
}

#[test]
fn a_single_overlong_word_is_hard_truncated() {
    let word = "a".repeat(60);
    let slug = slug_from_first_line(&word).expect("a long word still yields a slug");

    assert_eq!(slug.len(), MAX_SLUG_LEN);
    assert_eq!(slug, "a".repeat(MAX_SLUG_LEN));
}

#[test]
fn slugging_never_panics_on_hostile_input() {
    let huge = "x".repeat(10 * 1024);
    assert!(slug_from_first_line(&huge).is_some());
    assert!(slug_from_first_line(&"🎉".repeat(4096)).is_none());
    assert!(slug_from_first_line("\n\n\n").is_none());
    assert!(slug_from_first_line("\0").is_none());
}

#[test]
fn slug_state_is_read_off_the_name_shape() {
    for (name, expected) in [
        ("2026-08-15-1548.md", false),
        ("2026-08-15-1548.ts", false),
        ("2026-08-15-1548-foo.md", true),
        ("shopping-list.txt", true),
        ("2026-08-15.md", true),
    ] {
        assert_eq!(is_slugged(&id(name)), expected, "{name}");
    }
}

#[test]
fn slugged_name_keeps_the_timestamp_prefix_and_extension() {
    for (original, slug, expected) in [
        ("2026-08-15-1548.md", "meeting-notes", "2026-08-15-1548-meeting-notes.md"),
        ("2026-08-15-1548.ts", "parser", "2026-08-15-1548-parser.ts"),
        ("2026-08-15-1548", "no-extension", "2026-08-15-1548-no-extension"),
    ] {
        assert_eq!(slugged_name(&id(original), slug), expected);
    }
}

#[test]
fn a_taken_name_gets_a_numbered_suffix_before_its_extension() {
    assert_eq!(with_suffix("note.md", 2), "note-2.md");
    assert_eq!(with_suffix("note", 13), "note-13");
}

#[test]
fn the_timestamp_prefix_is_what_a_rename_keeps() {
    assert_eq!(timestamp_prefix("2026-08-15-1548-titled.md").as_deref(), Some("2026-08-15-1548"));
    assert_eq!(timestamp_prefix("notes.md"), None);
}

#[test]
fn note_id_rejects_anything_that_could_escape_the_workspace() {
    for name in [
        "../x", "../../.ssh/id_rsa", "/etc/passwd", "a/b", "a\\b", "..", ".", "", ".hidden",
        ".scratchbox", "note\0.md", "./note.md", "sub/",
    ] {
        assert!(NoteId::new(name).is_err(), "{name:?} should not be a valid note name");
    }
}

#[test]
fn note_id_rejections_say_why() {
    assert_eq!(NoteId::new(""), Err(InvalidNoteId::Empty));
    assert_eq!(NoteId::new("a/b"), Err(InvalidNoteId::Separator("a/b".to_owned())));
    assert_eq!(NoteId::new(".hidden"), Err(InvalidNoteId::Hidden(".hidden".to_owned())));
    assert_eq!(NoteId::new("note\0.md"), Err(InvalidNoteId::NulByte("note\0.md".to_owned())));
    assert_eq!(NoteId::new(".."), Err(InvalidNoteId::NotPlainName("..".to_owned())));
}

#[test]
fn note_id_accepts_ordinary_note_names() {
    for name in ["2026-08-15-1548.md", "2026-08-15-1548-my-note.ts", "shopping list.txt", "note"] {
        assert_eq!(NoteId::new(name).expect("should be valid").as_str(), name);
    }
}
