//! Path and config resolution.
//!
//! The XDG layout is used on every platform, macOS included: scratchbox is a terminal tool,
//! and its config belongs next to the user's other terminal tools. Reading the environment
//! and the config file is the caller's; what is resolved from them is decided here.

use vstd::prelude::*;

use crate::paths::{
    expand_tilde, join, spec_expand_tilde, spec_join, spec_starts_with, starts_with,
    without_leading_slashes,
};
use crate::text::{chars_of, string_of};
use crate::naming::push_all;

verus! {

/// Directory inside the workspace holding app state. Excluded from every note scan.
pub const APP_SUBDIR: &'static str = ".scratchbox";

/// Name used under both the config and data homes.
pub const APP_NAME: &'static str = "scratchbox";

pub const CONFIG_FILE: &'static str = "config.toml";

pub const NOTES_SUBDIR: &'static str = "notes";

pub const TRASH_SUBDIR: &'static str = "trash";

pub const LOG_SUBDIR: &'static str = "log";

/// Base directories everything else resolves against.
#[derive(Debug)]
pub struct Dirs {
    pub config_home: String,
    pub data_home: String,
    pub home: String,
}

/// Per the XDG spec, a variable that is unset, empty, or relative is ignored.
pub open spec fn xdg_choice(var: Option<Seq<char>>, fallback: Seq<char>) -> Seq<char> {
    match var {
        Some(v) => if v.len() > 0 && v[0] == '/' {
            v
        } else {
            fallback
        },
        None => fallback,
    }
}

fn xdg_dir(var: Option<String>, fallback: String) -> (r: String)
    ensures
        r@ == xdg_choice(
            match var {
                Some(v) => Some(v@),
                None => None,
            },
            fallback@,
        ),
{
    match var {
        Some(v) => {
            let c = chars_of(v.as_str());
            if c.len() > 0 && c[0] == '/' {
                v
            } else {
                fallback
            }
        },
        None => fallback,
    }
}

pub open spec fn opt_view(o: Option<String>) -> Option<Seq<char>> {
    match o {
        Some(s) => Some(s@),
        None => None,
    }
}

impl Dirs {
    /// Resolve from the values of `$XDG_CONFIG_HOME` and `$XDG_DATA_HOME` and the home
    /// directory, so the precedence rules hold without touching the environment.
    pub fn resolve(config_home: Option<String>, data_home: Option<String>, home: String) -> (r: Dirs)
        ensures
            r.config_home@ == xdg_choice(opt_view(config_home), spec_join(home@, ".config"@)),
            r.data_home@ == xdg_choice(
                opt_view(data_home),
                spec_join(spec_join(home@, ".local"@), "share"@),
            ),
            r.home@ == home@,
    {
        let config_fallback = join(home.as_str(), ".config");
        let local = join(home.as_str(), ".local");
        let data_fallback = join(local.as_str(), "share");
        Dirs {
            config_home: xdg_dir(config_home, config_fallback),
            data_home: xdg_dir(data_home, data_fallback),
            home,
        }
    }

    /// `<config_home>/scratchbox/config.toml`
    pub fn config_file(&self) -> (r: String)
        ensures
            r@ == spec_join(spec_join(self.config_home@, APP_NAME@), CONFIG_FILE@),
    {
        let app = join(self.config_home.as_str(), APP_NAME);
        join(app.as_str(), CONFIG_FILE)
    }

    /// `<data_home>/scratchbox/notes`
    pub fn default_workspace(&self) -> (r: String)
        ensures
            r@ == spec_join(spec_join(self.data_home@, APP_NAME@), NOTES_SUBDIR@),
    {
        let app = join(self.data_home.as_str(), APP_NAME);
        join(app.as_str(), NOTES_SUBDIR)
    }

    /// `<data_home>/scratchbox/trash`: outside the workspace, so deletions never sync.
    pub fn default_trash(&self) -> (r: String)
        ensures
            r@ == spec_join(spec_join(self.data_home@, APP_NAME@), TRASH_SUBDIR@),
    {
        let app = join(self.data_home.as_str(), APP_NAME);
        join(app.as_str(), TRASH_SUBDIR)
    }
}

/// What `config.toml` says. Every key is optional; a missing file means defaults.
#[derive(Debug)]
pub struct ConfigFile {
    pub workspace: Option<String>,
    pub trash: Option<String>,
}

impl ConfigFile {
    /// The file that is not there.
    pub fn empty() -> (r: ConfigFile)
        ensures
            r.workspace is None,
            r.trash is None,
    {
        ConfigFile { workspace: None, trash: None }
    }
}

/// Fully resolved runtime configuration.
#[derive(Debug)]
pub struct Config {
    /// Directory holding the notes. Flat: notes live directly here.
    pub workspace: String,
    /// Where deleted notes go. Defaults outside the workspace so deletions never sync.
    pub trash: String,
    /// The data home this config resolved against.
    pub data_home: String,
    /// Non-fatal problems for the front end to show once at startup.
    pub warnings: Vec<String>,
}

/// The workspace: the command line's, else the config file's, else the XDG default; a
/// leading `~` expanded.
pub open spec fn chosen_workspace(dirs: Dirs, cli_override: Option<Seq<char>>, file: ConfigFile) -> Seq<char> {
    match cli_override {
        Some(p) => spec_expand_tilde(p, dirs.home@),
        None => match file.workspace {
            Some(p) => spec_expand_tilde(p@, dirs.home@),
            None => spec_join(spec_join(dirs.data_home@, APP_NAME@), NOTES_SUBDIR@),
        },
    }
}

pub open spec fn chosen_trash(dirs: Dirs, file: ConfigFile) -> Seq<char> {
    match file.trash {
        Some(p) => spec_expand_tilde(p@, dirs.home@),
        None => spec_join(spec_join(dirs.data_home@, APP_NAME@), TRASH_SUBDIR@),
    }
}

/// The warning given when the trash sits inside the workspace.
pub open spec fn trash_warning(trash: Seq<char>, workspace: Seq<char>, config_file: Seq<char>) -> Seq<char> {
    "trash directory "@ + trash
        + " is inside the workspace; deleted notes will sync with it. Move `trash` outside "@
        + workspace + " in "@ + config_file + "."@
}

/// The workspace and the trash are resolved alike: whichever of them is configured has a
/// leading `~` expanded against the home directory, so `~/x` names `x` under home for both,
/// and one configured path gives the same directory as either. The command line's
/// workspace wins over the file's; with neither, both directories default to the data
/// home's `scratchbox/notes` and `scratchbox/trash`.
pub proof fn lemma_configured_paths_expand_alike(dirs: Dirs, cli_override: Option<Seq<char>>, file: ConfigFile)
    ensures
        file.trash matches Some(p) ==> chosen_trash(dirs, file) == spec_expand_tilde(p@, dirs.home@),
        (cli_override is None && file.workspace is Some) ==> chosen_workspace(
            dirs,
            cli_override,
            file,
        ) == spec_expand_tilde(file.workspace.unwrap()@, dirs.home@),
        cli_override matches Some(p) ==> chosen_workspace(dirs, cli_override, file)
            == spec_expand_tilde(p, dirs.home@),
        (cli_override is None && file.workspace is Some && file.trash == file.workspace)
            ==> chosen_trash(dirs, file) == chosen_workspace(dirs, cli_override, file),
        (cli_override is None && file.workspace is None) ==> chosen_workspace(
            dirs,
            cli_override,
            file,
        ) == spec_join(spec_join(dirs.data_home@, APP_NAME@), NOTES_SUBDIR@),
        file.trash is None ==> chosen_trash(dirs, file) == spec_join(
            spec_join(dirs.data_home@, APP_NAME@),
            TRASH_SUBDIR@,
        ),
{
}

/// `~/rest` names `rest` under the home directory: for a configured trash, and the same for
/// a configured workspace.
pub proof fn lemma_a_home_path_lands_under_home(dirs: Dirs, cli_override: Option<Seq<char>>, file: ConfigFile, rest: Seq<char>)
    requires
        rest.len() == 0 || rest[0] != '/',
        dirs.home@.len() > 0,
        dirs.home@.last() != '/',
    ensures
        (file.trash is Some && file.trash.unwrap()@ == seq!['~', '/'] + rest) ==> chosen_trash(
            dirs,
            file,
        ) == dirs.home@ + seq!['/'] + rest,
        (cli_override is None && file.workspace is Some && file.workspace.unwrap()@ == seq![
            '~',
            '/',
        ] + rest) ==> chosen_workspace(dirs, cli_override, file) == dirs.home@ + seq!['/'] + rest,
{
    let p = seq!['~', '/'] + rest;
    assert(p.skip(1).drop_first() =~= rest);
    assert(p.skip(1)[0] == '/');
    assert(without_leading_slashes(rest) == rest);
    assert(without_leading_slashes(p.skip(1)) == rest);
    assert(spec_expand_tilde(p, dirs.home@) == spec_join(dirs.home@, rest));
}

impl Config {
    /// Resolve the configuration from base directories, a command-line workspace, and what
    /// the config file says.
    ///
    /// Precedence for the workspace is the command line, then the `workspace` key, then the
    /// XDG default. A trash inside the workspace is allowed, with a warning.
    pub fn load_with(dirs: &Dirs, cli_override: Option<String>, file: ConfigFile) -> (r: Config)
        ensures
            r.workspace@ == chosen_workspace(*dirs, opt_view(cli_override), file),
            r.trash@ == chosen_trash(*dirs, file),
            r.data_home@ == dirs.data_home@,
            r.warnings@.len() == if spec_starts_with(r.trash@, r.workspace@) {
                1int
            } else {
                0int
            },
            spec_starts_with(r.trash@, r.workspace@) ==> r.warnings@[0]@ == trash_warning(
                r.trash@,
                r.workspace@,
                spec_join(spec_join(dirs.config_home@, APP_NAME@), CONFIG_FILE@),
            ),
    {
        let chosen = match cli_override {
            Some(p) => Some(p),
            None => match &file.workspace {
                Some(p) => Some(p.clone()),
                None => None,
            },
        };
        let workspace = match chosen {
            Some(p) => expand_tilde(p.as_str(), dirs.home.as_str()),
            None => dirs.default_workspace(),
        };
        let trash = match &file.trash {
            Some(p) => expand_tilde(p.as_str(), dirs.home.as_str()),
            None => dirs.default_trash(),
        };
        let mut warnings: Vec<String> = Vec::new();
        if starts_with(trash.as_str(), workspace.as_str()) {
            let config_file = dirs.config_file();
            let mut text: Vec<char> = Vec::new();
            push_all(&mut text, &chars_of("trash directory "));
            push_all(&mut text, &chars_of(trash.as_str()));
            push_all(
                &mut text,
                &chars_of(
                    " is inside the workspace; deleted notes will sync with it. Move `trash` outside ",
                ),
            );
            push_all(&mut text, &chars_of(workspace.as_str()));
            push_all(&mut text, &chars_of(" in "));
            push_all(&mut text, &chars_of(config_file.as_str()));
            push_all(&mut text, &chars_of("."));
            warnings.push(string_of(&text));
        }
        Config { workspace, trash, data_home: dirs.data_home.clone(), warnings }
    }

    /// `<workspace>/.scratchbox`, holding app state only, never a note.
    pub fn app_dir(&self) -> (r: String)
        ensures
            r@ == spec_join(self.workspace@, APP_SUBDIR@),
    {
        join(self.workspace.as_str(), APP_SUBDIR)
    }

    /// `<data_home>/scratchbox/log`: where diagnostics go when they are asked for.
    ///
    /// Outside the workspace on purpose: a log line describing a filesystem event, written
    /// inside the watched tree, would produce that same event again, forever.
    pub fn log_dir(&self) -> (r: String)
        ensures
            r@ == spec_join(spec_join(self.data_home@, APP_NAME@), LOG_SUBDIR@),
    {
        let app = join(self.data_home.as_str(), APP_NAME);
        join(app.as_str(), LOG_SUBDIR)
    }

    /// Whether either of the trash and the workspace lies inside the other.
    pub open spec fn overlaps(&self) -> bool {
        spec_starts_with(self.trash@, self.workspace@) || spec_starts_with(
            self.workspace@,
            self.trash@,
        )
    }

    /// Do the trash and the workspace sit inside one another, either way round? A trash inside
    /// the workspace syncs deleted notes; a workspace inside the trash would be emptied with
    /// it. Component-wise, so a trash at `<workspace>-old` is separate.
    pub fn trash_overlaps_workspace(&self) -> (r: bool)
        ensures
            r == self.overlaps(),
    {
        starts_with(self.trash.as_str(), self.workspace.as_str()) || starts_with(
            self.workspace.as_str(),
            self.trash.as_str(),
        )
    }
}

} // verus!
