use scratchbox::input::{KeyRoute, route_key};
use scratchbox::keys::{self, Action, Command, HelpKey, HelpRow, HelpSection, KeyCode, KeyEvent};
use scratchbox::layout::{
    HelpLine, Rect, help_body, help_hints, help_metrics, help_rect, help_scroll_to, merge_captions,
    no_match_line, filter_prompt,
};
use scratchbox::panel::{Focus, Help, HELP_QUERY_MAX};

fn rows(sections: &[HelpSection]) -> Vec<&HelpRow> {
    sections.iter().flat_map(|section| &section.rows).collect()
}

fn section<'a>(sections: &'a [HelpSection], title: &str) -> &'a HelpSection {
    sections
        .iter()
        .find(|section| section.title == title)
        .unwrap_or_else(|| panic!("no {title} section"))
}

fn plain(code: KeyCode) -> KeyEvent {
    KeyEvent::new(code, false, false, false)
}

fn ctrl(c: char) -> KeyEvent {
    KeyEvent::new(KeyCode::Char(c), true, false, false)
}

#[test]
fn every_section_lists_something() {
    for section in keys::help_sections() {
        assert!(!section.rows.is_empty(), "{} is empty", section.title);
    }
}

#[test]
fn every_binding_appears_with_its_own_caption_and_description() {
    let sections = keys::help_sections();
    let rows = rows(&sections);

    for binding in keys::bindings() {
        let row = rows
            .iter()
            .find(|row| row.caption == binding.caption)
            .unwrap_or_else(|| panic!("{} is not listed", binding.caption));
        assert_eq!(row.desc, binding.desc);
    }
}

#[test]
fn only_the_literal_rows_and_the_two_exceptions_cannot_be_run() {
    let sections = keys::help_sections();
    let inert: Vec<&str> = rows(&sections)
        .iter()
        .filter(|row| row.run.is_none())
        .map(|row| row.caption)
        .collect();

    assert_eq!(
        inert,
        vec![
            "^Q/^C",
            "^H/F1",
            "y/⏎",
            "any other key",
            "k",
            "t",
            "^Q",
            "esc",
            "↑/↓",
            "⏎",
            "/",
            "",
            "^N ^D ^H",
        ]
    );
}

#[test]
fn the_editor_section_names_the_model_and_the_chords_taken_from_it() {
    let sections = keys::help_sections();
    let editor = section(&sections, "Editor");
    let text: String = editor
        .rows
        .iter()
        .map(|row| format!("{} {}", row.caption, row.desc))
        .collect::<Vec<_>>()
        .join(" ");

    for claim in ["emacs", "modeless", "^N", "^D", "^H"] {
        assert!(text.contains(claim), "the Editor section never says {claim}");
    }
}

#[test]
fn the_literal_rows_state_what_the_code_does_and_what_the_prompts_print() {
    assert_eq!(keys::map_confirmation(plain(KeyCode::Char('y'))), Action::ConfirmDelete);
    assert_eq!(keys::map_confirmation(plain(KeyCode::Enter)), Action::ConfirmDelete);
    assert_eq!(keys::map_confirmation(plain(KeyCode::Char('x'))), Action::CancelDelete);
    assert_eq!(keys::map_conflict(plain(KeyCode::Char('k'))), Action::KeepMine);
    assert_eq!(keys::map_conflict(plain(KeyCode::Char('t'))), Action::TakeTheirs);
    assert_eq!(keys::map_conflict(ctrl('q')), Action::Do(Command::Quit));
}

#[test]
fn the_sections_come_in_the_order_a_user_looks_for_them() {
    let titles: Vec<&str> = keys::help_sections().iter().map(|s| s.title).collect();
    assert_eq!(
        titles,
        vec![
            "Notes",
            "Navigation",
            "Panes",
            "General",
            "Delete prompt",
            "External change",
            "This panel",
            "Editor"
        ]
    );
}

#[test]
fn the_panels_box_is_total_for_every_size() {
    for width in 0..40u16 {
        for height in 0..40u16 {
            for (content, body) in [(0, 0), (40, 35), (u16::MAX, u16::MAX)] {
                let rect = help_rect(content, body, Rect { x: 0, y: 0, width, height });
                assert!(
                    rect.width >= 2 && rect.height >= 2,
                    "{width}x{height} with content {content} gave {rect:?}"
                );
            }
        }
    }
}

#[test]
fn a_wide_terminal_caps_the_panel_rather_than_stretching_it() {
    let rect = help_rect(40, 20, Rect { x: 0, y: 0, width: 300, height: 60 });
    assert_eq!(rect.width, 90);
    assert_eq!(rect.height, 22);
    assert_eq!(rect.x, 105);
    assert_eq!(rect.y, 19);
}

#[test]
fn the_panes_stay_visible_around_the_panel() {
    let rect = help_rect(200, 10, Rect { x: 0, y: 0, width: 80, height: 30 });
    assert_eq!(rect.width, 72);
    assert_eq!(rect.x, 4);
}

#[test]
fn a_filter_keeps_only_matching_rows_and_drops_empty_sections() {
    let sections = keys::help_sections();
    let found = keys::filter(&sections, "ALT");
    let captions: Vec<&str> = rows(&found).iter().map(|row| row.caption).collect();
    assert_eq!(captions, vec!["alt-↑", "alt-↓"]);
    assert_eq!(found.len(), 1);
    assert_eq!(found[0].title, "Navigation");

    assert_eq!(keys::filter(&sections, "").len(), sections.len());
    assert!(keys::filter(&sections, "zzzz-nothing").is_empty());
}

#[test]
fn the_counts_are_rows_and_lines() {
    let sections = keys::help_sections();
    assert_eq!(keys::help_row_count(&sections), 20);
    assert_eq!(keys::help_line_count(&sections), 20 + 8 + 7);
    assert_eq!(keys::help_line_count(&[]), 0);
}

#[test]
fn the_panel_keys_in_and_out_of_the_prompt() {
    assert_eq!(keys::map_help(plain(KeyCode::Char('j')), false), HelpKey::Down);
    assert_eq!(keys::map_help(plain(KeyCode::Char('j')), true), HelpKey::Type('j'));
    assert_eq!(keys::map_help(ctrl('q'), true), HelpKey::Quit);
    assert_eq!(keys::map_help(KeyEvent::new(KeyCode::Char('Q'), false, false, true), true), HelpKey::Type('Q'));
    assert_eq!(keys::map_help(KeyEvent::new(KeyCode::Char('x'), false, true, false), true), HelpKey::Ignore);
    assert_eq!(keys::map_help(plain(KeyCode::Esc), false), HelpKey::Close);
    assert_eq!(keys::map_help(plain(KeyCode::Esc), true), HelpKey::SearchCancel);
    assert_eq!(keys::map_help(plain(KeyCode::Char('/')), false), HelpKey::Search);
    assert_eq!(keys::map_help(plain(KeyCode::Enter), true), HelpKey::SearchCommit);
}

#[test]
fn the_cursor_stops_at_both_ends_and_jumps_to_them() {
    let mut help = Help::new();
    help.move_by(-1, 40);
    assert_eq!(help.cursor(), 0);
    help.move_to_end(40);
    assert_eq!(help.cursor(), 19);
    help.move_by(1, 40);
    assert_eq!(help.cursor(), 19);
    help.move_to(0, 40);
    assert_eq!(help.cursor(), 0);
}

#[test]
fn a_query_pulls_the_cursor_back_inside_what_is_left() {
    let mut help = Help::new();
    help.move_to_end(40);
    help.search(40);
    for c in "alt".chars() {
        help.type_char(c, 40);
    }
    assert_eq!(help.query(), "alt");
    assert_eq!(help.cursor(), 1);
    assert_eq!(help.selection(), Some(Command::MoveNoteDown));
}

#[test]
fn esc_clears_the_query_before_it_closes_the_panel() {
    let mut help = Help::new();
    help.search(40);
    help.type_char('x', 40);
    help.search_cancel(40);
    assert_eq!(help.query(), "");
    assert!(!help.searching());
}

#[test]
fn backspace_on_an_empty_query_does_nothing() {
    let mut help = Help::new();
    help.backspace(40);
    assert_eq!(help.query(), "");
    help.type_char('a', 40);
    help.type_char('b', 40);
    help.backspace(40);
    assert_eq!(help.query(), "a");
}

#[test]
fn the_query_stops_growing_and_the_prompt_stays_on_its_line() {
    let mut help = Help::new();
    for _ in 0..(HELP_QUERY_MAX + 10) {
        help.type_char('x', 40);
    }
    assert_eq!(help.query().chars().count(), HELP_QUERY_MAX);
}

#[test]
fn a_resize_is_recorded_and_pulls_the_view_back_inside_the_list() {
    let mut help = Help::new();
    help.scroll(100, 10);
    assert_eq!(help.offset(), 35 - 7);
    help.scroll(0, 60);
    assert_eq!(help.offset(), 0);
}

#[test]
fn enter_on_a_row_that_cannot_be_run_does_nothing_at_all() {
    let mut help = Help::new();
    help.move_to(7, 40);
    assert_eq!(help.selection(), None);
    let route = route_key(plain(KeyCode::Enter), false, false, Some(&help), Focus::Editor);
    assert_eq!(route, KeyRoute::Nothing);
}

#[test]
fn enter_on_a_runnable_row_closes_the_panel_and_does_the_thing() {
    let help = Help::new();
    let route = route_key(plain(KeyCode::Enter), false, false, Some(&help), Focus::Editor);
    assert_eq!(route, KeyRoute::HelpRun(Command::NewNote));
}

#[test]
fn quitting_from_the_panel_closes_it_first() {
    let help = Help::new();
    assert_eq!(route_key(ctrl('q'), false, false, Some(&help), Focus::List), KeyRoute::HelpQuit);
}

#[test]
fn an_open_panel_swallows_the_keys_the_editor_would_have_taken() {
    let help = Help::new();
    assert_eq!(
        route_key(plain(KeyCode::Char('x')), false, false, Some(&help), Focus::Editor),
        KeyRoute::Nothing
    );
    assert_eq!(route_key(ctrl('n'), false, false, Some(&help), Focus::Editor), KeyRoute::Nothing);
}

#[test]
fn the_order_of_ownership_is_delete_then_conflict_then_panel_then_keymap() {
    let help = Help::new();
    assert_eq!(route_key(ctrl('q'), true, true, Some(&help), Focus::Editor), KeyRoute::CancelDelete);
    assert_eq!(route_key(plain(KeyCode::Char('y')), true, true, None, Focus::Editor), KeyRoute::ConfirmDelete);
    assert_eq!(route_key(plain(KeyCode::Char('k')), false, true, Some(&help), Focus::Editor), KeyRoute::KeepMine);
    assert_eq!(route_key(ctrl('q'), false, true, None, Focus::Editor), KeyRoute::Quit);
    assert_eq!(route_key(ctrl('h'), false, false, None, Focus::Editor), KeyRoute::Run(Command::OpenHelp));
    assert_eq!(
        route_key(plain(KeyCode::Char('?')), false, false, None, Focus::Editor),
        KeyRoute::Edit(plain(KeyCode::Char('?')))
    );
    assert_eq!(route_key(plain(KeyCode::Char('?')), false, false, None, Focus::List), KeyRoute::Nothing);
}

#[test]
fn the_body_lays_out_headings_rows_and_blanks() {
    let sections = keys::help_sections();
    let (caption_w, content_w) = help_metrics(&sections);
    assert_eq!(caption_w, 13);
    let body: Vec<HelpLine> = help_body(&sections, caption_w, content_w);
    assert_eq!(body.len(), 35);
    assert_eq!(body[0].row, None);
    assert!(body[0].text.starts_with("                  ── Notes "));
    assert_eq!(body[1].row, Some(0));
    assert_eq!(body[1].text, "              ^N  new note");
    assert_eq!(body[1].caption_end, 16);
    assert!(!body[1].dim);
    assert_eq!(body[3].text, "");
}

#[test]
fn a_sections_heading_comes_into_view_with_its_first_binding() {
    let sections = keys::help_sections();
    let (caption_w, content_w) = help_metrics(&sections);
    let body = help_body(&sections, caption_w, content_w);
    // Row 2 (the first Navigation row) sits on line 5, under its heading on line 4 and a
    // blank on line 3; scrolling back to it from below shows the heading too.
    assert_eq!(body[5].row, Some(2));
    assert_eq!(help_scroll_to(&body, 2, 20, 5), 3);
    assert_eq!(help_scroll_to(&body, 19, 0, 5), 30);
    assert_eq!(help_scroll_to(&body, 99, 7, 5), 0);
}

#[test]
fn no_match_lines_up_with_the_descriptions_when_it_fits() {
    let line = no_match_line("zz", 13, 60);
    assert_eq!(line.text, "                  no match for \"zz\"");
    assert!(line.dim);
    assert_eq!(no_match_line("zz", 13, 20).text, "no match for \"zz\"");
}

#[test]
fn the_status_line_switches_to_the_panels_own_keys() {
    assert_eq!(help_hints(), "esc close   ↑/↓ select   ⏎ run   / search   ^Q quit");
    assert_eq!(filter_prompt(), "⏎ done   esc clear");
    assert_eq!(merge_captions("alt-↑", "alt-↓"), "alt-↑/↓");
    assert_eq!(merge_captions("a", "b"), "a/b");
}

#[test]
fn a_lowered_needle_is_matched_as_given() {
    let sections = keys::help_sections();
    let found = keys::filter_lowered(&sections, "alt");
    let captions: Vec<&str> = rows(&found).iter().map(|row| row.caption).collect();
    assert_eq!(captions, vec!["alt-↑", "alt-↓"]);
    // Rows are compared with ASCII case folded on both sides.
    assert_eq!(rows(&keys::filter_lowered(&sections, "ALT")).len(), 2);
    assert!(keys::filter_lowered(&sections, "zzzz-nothing").is_empty());
    assert_eq!(keys::filter_lowered(&sections, "").len(), sections.len());
}

#[test]
fn a_caption_of_any_length_is_laid_out() {
    let caption: &'static str = Box::leak("é".repeat(70_000).into_boxed_str());
    let sections = vec![HelpSection {
        title: "Long",
        rows: vec![HelpRow { caption, desc: "does it", run: None }],
    }];
    let body = help_body(&sections, 4, 40);
    assert_eq!(body.len(), 2);
    assert_eq!(body[1].row, Some(0));
    // The gutter's three spaces, then the caption, wider than its column and never cut.
    assert_eq!(body[1].caption_end, 3 + caption.len());
    assert!(body[1].text.ends_with("  does it"));
}
