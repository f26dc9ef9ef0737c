use scratchbox::cli::{CliCommand, active_note, appended, is_yes, parse_args, refusal_message, removed_message};
use scratchbox::note::{NoteId, NoteMeta};

fn args(list: &[&str]) -> Vec<String> {
    list.iter().map(|a| (*a).to_owned()).collect()
}

#[test]
fn a_note_ending_in_a_newline_is_appended_to_directly() {
    assert_eq!(appended("first\n", "second\n"), "first\nsecond\n");
}

#[test]
fn a_note_without_a_trailing_newline_gets_one_first() {
    assert_eq!(appended("first", "second\n"), "first\nsecond\n");
}

#[test]
fn an_empty_note_gains_no_leading_blank_line() {
    assert_eq!(appended("", "first\n"), "first\n");
}

#[test]
fn input_is_appended_exactly_as_it_arrived() {
    assert_eq!(appended("a\n", "  b  \n\n\tc"), "a\n  b  \n\n\tc");
}

#[test]
fn a_note_not_ending_in_a_newline_does_not_get_its_last_line_joined() {
    assert_eq!(appended("existing", "captured\n"), "existing\ncaptured\n");
}

#[test]
fn multi_line_input_lands_verbatim_including_its_whitespace() {
    let input = "  indented\n\n\ttabbed  \ntrailing   ";
    assert_eq!(appended("top\n", input), format!("top\n{input}"));
}

#[test]
fn no_arguments_append_to_the_configured_workspace() {
    assert_eq!(parse_args(&[]), Ok(CliCommand::Append { workspace: None }));
}

#[test]
fn the_last_workspace_given_wins() {
    assert_eq!(
        parse_args(&args(&["--workspace", "/a", "--workspace", "/b"])),
        Ok(CliCommand::Append { workspace: Some("/b".to_owned()) })
    );
}

#[test]
fn help_and_version_succeed_and_say_something() {
    assert_eq!(parse_args(&args(&["--help"])), Ok(CliCommand::Help));
    assert_eq!(parse_args(&args(&["-h"])), Ok(CliCommand::Help));
    assert_eq!(parse_args(&args(&["--version"])), Ok(CliCommand::Version));
    assert_eq!(parse_args(&args(&["-V", "--bogus"])), Ok(CliCommand::Version));
}

#[test]
fn a_bad_argument_exits_with_the_usage_code() {
    assert_eq!(
        parse_args(&args(&["--bogus"])),
        Err("unknown argument \"--bogus\"".to_owned())
    );
    assert_eq!(
        parse_args(&args(&["--workspace"])),
        Err("--workspace needs a directory".to_owned())
    );
    assert_eq!(
        parse_args(&args(&["--yes"])),
        Err("--yes only means something with --purge-trash".to_owned())
    );
}

#[test]
fn purge_takes_its_confirmation_in_advance() {
    assert_eq!(
        parse_args(&args(&["--purge-trash", "-y", "--workspace", "/w"])),
        Ok(CliCommand::PurgeTrash { workspace: Some("/w".to_owned()), confirmed: true })
    );
    assert_eq!(
        parse_args(&args(&["--purge-trash"])),
        Ok(CliCommand::PurgeTrash { workspace: None, confirmed: false })
    );
}

#[test]
fn a_workspace_value_is_not_read_as_a_flag() {
    assert_eq!(
        parse_args(&args(&["--workspace", "--help"])),
        Ok(CliCommand::Append { workspace: Some("--help".to_owned()) })
    );
}

#[test]
fn only_an_explicit_yes_empties_the_trash() {
    assert!(is_yes("y\n"));
    assert!(is_yes("  Y "));
    assert!(is_yes("yes"));
    assert!(!is_yes("YES"));
    assert!(!is_yes(""));
    assert!(!is_yes("n"));
}

#[test]
fn the_purge_reports_read_as_sentences() {
    assert_eq!(removed_message(1, "/t"), "removed 1 entry from /t");
    assert_eq!(removed_message(0, "/t"), "removed 0 entries from /t");
    assert_eq!(removed_message(12, "/t"), "removed 12 entries from /t");
    assert_eq!(
        refusal_message("/w/.trash", "/w"),
        "refusing to purge: the trash at /w/.trash overlaps the workspace at /w. Point `trash` somewhere outside the workspace first."
    );
}

#[test]
fn an_empty_workspace_gets_a_note_created_for_it() {
    assert_eq!(active_note(&[], &[]), None);
}

#[test]
fn the_capture_goes_to_the_top_of_the_list() {
    let disk = [
        NoteMeta::from_id(NoteId::new("a.md").unwrap(), 1),
        NoteMeta::from_id(NoteId::new("b.md").unwrap(), 2),
    ];
    let manifest = args(&["a.md", "b.md"]);
    assert_eq!(active_note(&manifest, &disk).unwrap().as_str(), "a.md");
    assert_eq!(active_note(&[], &disk).unwrap().as_str(), "b.md");
}
