use scratchbox::diagnostics::{names_scratchbox, overlaps};

#[test]
fn a_bare_level_names_no_target_so_it_leaves_us_off() {
    assert!(!names_scratchbox("info"));
    assert!(!names_scratchbox("trace"));
    // Somebody else's crate, which is the common case for an exported `RUST_LOG`.
    assert!(!names_scratchbox("notify=trace,hyper=debug"));
}

#[test]
fn a_scratchbox_directive_turns_us_on_however_it_is_spelled() {
    assert!(names_scratchbox("scratchbox=debug"));
    assert!(names_scratchbox("scratchbox_core::watcher=trace"));
    // One directive out of several is enough, and the level may be omitted.
    assert!(names_scratchbox("info,scratchbox=trace"));
    assert!(names_scratchbox("scratchbox"));
    // A span selector is not part of the target.
    assert!(names_scratchbox("scratchbox[save]=info"));
}

#[test]
fn surrounding_whitespace_does_not_hide_a_target() {
    assert!(names_scratchbox(" info , scratchbox = debug "));
    assert!(!names_scratchbox(""));
}

#[test]
fn a_log_directory_beside_the_workspace_does_not_overlap_it() {
    assert!(!overlaps("/tmp/x/log", "/tmp/x/notes"));
}

#[test]
fn a_log_directory_inside_the_workspace_overlaps_it() {
    assert!(overlaps("/tmp/x/notes/log", "/tmp/x/notes"));
}

#[test]
fn a_workspace_inside_the_log_directory_overlaps_it() {
    assert!(overlaps("/tmp/x/log", "/tmp/x/log/notes"));
}

#[test]
fn a_sibling_sharing_a_name_prefix_is_not_an_overlap() {
    assert!(!overlaps("/tmp/x/notes-log", "/tmp/x/notes"));
}

#[test]
fn repeated_and_trailing_separators_do_not_hide_an_overlap() {
    assert!(overlaps("/tmp//x/notes/./log/", "/tmp/x/notes"));
}
