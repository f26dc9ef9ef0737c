use scratchbox::naming;
use scratchbox::note::{Format, NoteId};
use scratchbox::syntax;

/// Every format the app declares, and the syntax it must resolve to.
const EXPECTED: [(Format, &str); 8] = [
    (Format::Markdown, "Markdown"),
    (Format::Json, "JSON"),
    (Format::PlainText, "Plain Text"),
    (Format::Java, "Java"),
    // bat's set carries the Babel grammar, which is a superset of plain JavaScript.
    (Format::JavaScript, "JavaScript (Babel)"),
    (Format::TypeScript, "TypeScript"),
    (Format::Css, "CSS"),
    (Format::Html, "HTML"),
];

#[test]
fn every_declared_format_resolves_to_a_syntax() {
    for (format, expected) in EXPECTED {
        assert_eq!(
            syntax::syntax_name(format),
            expected,
            "{format:?} did not resolve to its syntax"
        );
    }
}

#[test]
fn unknown_extensions_fall_back_to_plain_text() {
    for name in ["notes.xyz", "notes.", "notes", "a.b.c.unknown"] {
        assert_eq!(
            Format::from_name(name),
            Format::PlainText,
            "{name} was not treated as plain text"
        );
    }
    assert_eq!(syntax::syntax_name(Format::PlainText), "Plain Text");
}

#[test]
fn the_rename_on_first_content_does_not_change_the_syntax() {
    for (born_as, slug) in [
        ("2026-08-15-1548.md", "my-note"),
        ("2026-08-15-1548.ts", "some-module"),
        ("2026-08-15-1548.json", "config"),
    ] {
        let id = NoteId::new(born_as).unwrap();
        let renamed = naming::slugged_name(&id, slug);

        assert_eq!(
            Format::from_name(born_as),
            Format::from_name(&renamed),
            "{born_as} changed format when it became {renamed}"
        );
    }
}
