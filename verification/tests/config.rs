use scratchbox::config::{Config, ConfigFile, Dirs, APP_SUBDIR};
use scratchbox::cli::{PurgeStep, purge_step, refusal_message};
use scratchbox::paths::{directly_inside, expand_tilde, join, staging_path, starts_with};
use scratchbox::save::slug_target;
use scratchbox::note::NoteId;

fn dirs_in(root: &str) -> Dirs {
    Dirs {
        config_home: format!("{root}/config"),
        data_home: format!("{root}/data"),
        home: format!("{root}/home"),
    }
}

fn file(workspace: Option<&str>, trash: Option<&str>) -> ConfigFile {
    ConfigFile { workspace: workspace.map(str::to_owned), trash: trash.map(str::to_owned) }
}

#[test]
fn missing_config_file_yields_defaults() {
    let config = Config::load_with(&dirs_in("/r"), None, ConfigFile::empty());

    assert_eq!(config.workspace, "/r/data/scratchbox/notes");
    assert_eq!(config.trash, "/r/data/scratchbox/trash");
    assert!(config.warnings.is_empty());
}

#[test]
fn workspace_key_is_honored() {
    let config = Config::load_with(&dirs_in("/r"), None, file(Some("/somewhere/notes"), None));
    assert_eq!(config.workspace, "/somewhere/notes");
}

#[test]
fn cli_override_beats_the_config_key() {
    let config = Config::load_with(
        &dirs_in("/r"),
        Some("/from/cli".to_owned()),
        file(Some("/from/config"), None),
    );
    assert_eq!(config.workspace, "/from/cli");
}

#[test]
fn tilde_in_config_paths_expands_to_home() {
    let config = Config::load_with(&dirs_in("/r"), None, file(Some("~/notes"), None));
    assert_eq!(config.workspace, "/r/home/notes");
    assert_eq!(expand_tilde("~", "/h"), "/h/");
    assert_eq!(expand_tilde("~other/x", "/h"), "~other/x");
}

#[test]
fn xdg_config_home_is_honored_when_absolute() {
    let dirs = Dirs::resolve(
        Some("/custom/config".to_owned()),
        Some("/custom/data".to_owned()),
        "/home/someone".to_owned(),
    );

    assert_eq!(dirs.config_home, "/custom/config");
    assert_eq!(dirs.data_home, "/custom/data");
    assert_eq!(dirs.config_file(), "/custom/config/scratchbox/config.toml");
}

#[test]
fn xdg_falls_back_to_dot_config_when_unset_or_relative() {
    for (config_home, data_home) in [(None, None), (Some("relative/config"), Some(""))] {
        let dirs = Dirs::resolve(
            config_home.map(str::to_owned),
            data_home.map(str::to_owned),
            "/home/someone".to_owned(),
        );
        assert_eq!(dirs.config_home, "/home/someone/.config");
        assert_eq!(dirs.data_home, "/home/someone/.local/share");
    }
}

#[test]
fn default_trash_stays_outside_an_overridden_workspace() {
    let cloud = "/r/Google Drive/notes";
    let config = Config::load_with(&dirs_in("/r"), Some(cloud.to_owned()), ConfigFile::empty());

    assert_eq!(config.workspace, cloud);
    assert!(!starts_with(&config.trash, cloud));
    assert!(config.warnings.is_empty());
}

#[test]
fn trash_configured_inside_the_workspace_warns() {
    let config = Config::load_with(&dirs_in("/r"), None, file(Some("/notes"), Some("/notes/.trash")));

    assert_eq!(config.warnings.len(), 1);
    assert!(config.warnings[0].contains("inside the workspace"), "{}", config.warnings[0]);
    assert!(config.trash_overlaps_workspace());
}

#[test]
fn a_trash_beside_the_workspace_does_not_overlap_it() {
    let config = Config::load_with(&dirs_in("/r"), None, file(Some("/notes"), Some("/notes-old")));
    assert!(!config.trash_overlaps_workspace());
    assert!(config.warnings.is_empty());
}

#[test]
fn a_workspace_inside_the_trash_overlaps_it() {
    let config = Config::load_with(&dirs_in("/r"), None, file(Some("/t/notes"), Some("/t")));
    assert!(config.trash_overlaps_workspace());
}

#[test]
fn app_and_log_directories_are_where_they_say() {
    let config = Config::load_with(&dirs_in("/data-root"), None, ConfigFile::empty());
    assert_eq!(config.app_dir(), format!("{}/{APP_SUBDIR}", config.workspace));
    assert_eq!(config.log_dir(), "/data-root/data/scratchbox/log");
}

#[test]
fn paths_join_as_unix_paths_do() {
    assert_eq!(join("/a", "b"), "/a/b");
    assert_eq!(join("/a/", "b"), "/a/b");
    assert_eq!(join("", "b"), "b");
    assert_eq!(join("/a", "/b"), "/b");
}

#[test]
fn a_staging_file_sits_beside_its_target() {
    assert_eq!(staging_path("/w/.scratchbox/order").as_deref(), Some("/w/.scratchbox/.tmp-order"));
    assert_eq!(staging_path("note.md").as_deref(), Some(".tmp-note.md"));
    assert_eq!(staging_path("/note.md").as_deref(), Some("/.tmp-note.md"));
    assert_eq!(staging_path("/w/x/").as_deref(), Some("/w/.tmp-x"));
    assert_eq!(staging_path("/"), None);
    assert_eq!(staging_path(""), None);
    assert_eq!(staging_path("/w/.."), None);
}

#[test]
fn the_first_save_with_a_title_names_the_note_and_later_ones_do_not() {
    let fresh = NoteId::new("2026-08-15-1548.md").unwrap();
    assert_eq!(
        slug_target(&fresh, "# My Note\nbody").map(|t| t.as_str().to_owned()).as_deref(),
        Some("2026-08-15-1548-my-note.md")
    );
    assert_eq!(slug_target(&fresh, "!!!\nbody"), None);
    let named = NoteId::new("2026-08-15-1548-my-note.md").unwrap();
    assert_eq!(slug_target(&named, "# Another Title"), None);
}

#[test]
fn a_purge_refuses_an_overlapping_trash_whatever_the_answer() {
    let config = Config::load_with(&dirs_in("/r"), None, file(Some("/notes"), Some("/notes/.trash")));
    let expected = refusal_message("/notes/.trash", "/notes");
    assert!(expected.starts_with("refusing to purge: the trash at /notes/.trash overlaps"));
    assert_eq!(purge_step(&config, true), PurgeStep::Refuse(expected.clone()));
    assert_eq!(purge_step(&config, false), PurgeStep::Refuse(expected));

    let inside_trash = Config::load_with(&dirs_in("/r"), None, file(Some("/t/notes"), Some("/t")));
    assert!(matches!(purge_step(&inside_trash, true), PurgeStep::Refuse(_)));
}

#[test]
fn a_separate_trash_is_purged_on_yes_and_asked_about_otherwise() {
    let config = Config::load_with(&dirs_in("/r"), None, file(Some("/notes"), Some("/notes-old")));
    assert_eq!(purge_step(&config, true), PurgeStep::Purge);
    assert_eq!(purge_step(&config, false), PurgeStep::Ask);
}

#[test]
fn a_leading_dot_component_is_kept_when_paths_are_compared() {
    assert!(!starts_with("./a/b", "a"));
    assert!(starts_with("./a/b", "./a"));
    assert!(starts_with("a/./b", "a/b"));
    assert!(directly_inside("./a", "."));
    assert!(!directly_inside("./a/b", "a"));
    assert!(directly_inside("./a/b", "./a"));
}
