use scratchbox::layout::{
    CONFLICT_STATUS, Tone, UNAVAILABLE_STATUS, conflict_prompt, delete_question, filter_title,
    help_hints, help_readout, status_hints, status_line,
};
use scratchbox::panel::Conflict;
use scratchbox::store::WorkspaceHealth;

#[test]
fn a_conflict_outranks_everything_on_the_status_line() {
    let (text, tone) = status_line(true, WorkspaceHealth::Missing, Some("saved"), Some(true));
    assert_eq!(text, CONFLICT_STATUS);
    assert_eq!(text, "external change \u{2014} [k]eep mine \u{b7} [t]ake theirs \u{b7} ^Q quit");
    assert_eq!(tone, Tone::Warning);
}

#[test]
fn an_unusable_workspace_outranks_a_message() {
    for health in [WorkspaceHealth::Missing, WorkspaceHealth::ReadOnly] {
        let (text, tone) = status_line(false, health, Some("saved"), None);
        assert_eq!(text, UNAVAILABLE_STATUS);
        assert_eq!(text, "workspace unavailable \u{2014} edits are in memory only");
        assert_eq!(tone, Tone::Warning);
    }
}

#[test]
fn a_message_outranks_the_panels_hints() {
    let (text, tone) = status_line(false, WorkspaceHealth::Usable, Some("could not write"), Some(false));
    assert_eq!(text, "could not write");
    assert_eq!(tone, Tone::Quiet);
}

#[test]
fn the_hints_follow_the_panel_and_its_prompt() {
    assert_eq!(status_line(false, WorkspaceHealth::Usable, None, Some(true)).0, "\u{23ce} done   esc clear");
    assert_eq!(status_line(false, WorkspaceHealth::Usable, None, Some(false)).0, help_hints());
    assert_eq!(status_line(false, WorkspaceHealth::Usable, None, None).0, status_hints());
}

#[test]
fn the_prompts_name_the_note_and_each_answer() {
    assert_eq!(delete_question("a.md"), "Move a.md to the trash?");
    let (what, keep, take) = conflict_prompt(Conflict::Changed, "a.md");
    assert_eq!(what, "a.md changed on disk while you had unsaved edits.");
    assert_eq!(keep, "k  keep mine (write my buffer over theirs)");
    assert_eq!(take, "t  take theirs (discard my edits)");
    let (what, keep, take) = conflict_prompt(Conflict::Deleted, "a.md");
    assert_eq!(what, "a.md was deleted while you had unsaved edits.");
    assert_eq!(keep, "k  keep mine (write my buffer back to disk)");
    assert_eq!(take, "t  take theirs (let the note go)");
}

#[test]
fn the_readout_counts_from_one_and_says_zero_of_none() {
    assert_eq!(help_readout(0, 12), " 1 of 12 ");
    assert_eq!(help_readout(11, 12), " 12 of 12 ");
    assert_eq!(help_readout(0, 0), " 0 of 0 ");
    assert_eq!(filter_title("quit"), " Filter: quit\u{258a} ");
}
