//! The capture command's own logic: reading its arguments, choosing the note a line goes
//! into, and joining the line onto it.
//!
//! The command is the target of a global hotkey: it appends stdin to the active note and
//! exits. Reading stdin, the workspace, and the terminal is the caller's.

use vstd::prelude::*;

use crate::naming::{push_all, push_decimal};
use crate::config::Config;
use crate::note::{NoteId, NoteMeta};
use crate::order::{
    chars_equal, disk_entries, ids_view, lines_view, reconcile, spec_reconcile, spec_trim,
    trim_chars,
};
use crate::text::{chars_of, string_of};

verus! {

/// What the command line asks for.
#[derive(Debug, PartialEq, Eq)]
pub enum CliCommand {
    Append { workspace: Option<String> },
    PurgeTrash { workspace: Option<String>, confirmed: bool },
    Help,
    Version,
}

/// What `{:?}` prints for a string: quoted, with its special characters escaped.
pub uninterp spec fn spec_debug_quoted(s: Seq<char>) -> Seq<char>;

/// Formats the argument with `<str as Debug>::fmt`; the escaping is std's and depends on the
/// text alone.
#[verifier::external_body]
fn debug_quoted(s: &str) -> (r: String)
    ensures
        r@ == spec_debug_quoted(s@),
{
    format!("{s:?}")
}

pub open spec fn is_flag(arg: Seq<char>, long: Seq<char>, short: Seq<char>) -> bool {
    arg == long || arg == short
}

/// The outcome of reading the arguments from `i` on, with what was seen so far.
pub open spec fn parse_from(
    args: Seq<Seq<char>>,
    i: int,
    workspace: Option<Seq<char>>,
    purge: bool,
    confirmed: bool,
) -> Result<(Option<Seq<char>>, bool, bool, bool), Seq<char>>
    decreases args.len() - i,
{
    if i >= args.len() || i < 0 {
        Ok((workspace, purge, confirmed, false))
    } else {
        let a = args[i];
        if is_flag(a, "--help"@, "-h"@) || is_flag(a, "--version"@, "-V"@) {
            Ok((workspace, purge, confirmed, true))
        } else if a == "--workspace"@ {
            if i + 1 < args.len() {
                parse_from(args, i + 2, Some(args[i + 1]), purge, confirmed)
            } else {
                Err("--workspace needs a directory"@)
            }
        } else if a == "--purge-trash"@ {
            parse_from(args, i + 1, workspace, true, confirmed)
        } else if is_flag(a, "--yes"@, "-y"@) {
            parse_from(args, i + 1, workspace, purge, true)
        } else {
            Err("unknown argument "@ + spec_debug_quoted(a))
        }
    }
}

/// The first `--help` or `--version` stops reading, at the position it stands.
pub open spec fn first_stop(args: Seq<Seq<char>>, i: int) -> Seq<char>
    decreases args.len() - i,
{
    if i >= args.len() || i < 0 {
        Seq::empty()
    } else if is_flag(args[i], "--help"@, "-h"@) || is_flag(args[i], "--version"@, "-V"@) {
        args[i]
    } else if args[i] == "--workspace"@ {
        if i + 1 < args.len() {
            first_stop(args, i + 2)
        } else {
            Seq::empty()
        }
    } else {
        first_stop(args, i + 1)
    }
}

pub open spec fn opt_string_view(o: Option<String>) -> Option<Seq<char>> {
    match o {
        Some(s) => Some(s@),
        None => None,
    }
}

pub open spec fn command_view(c: CliCommand) -> (int, Option<Seq<char>>, bool) {
    match c {
        CliCommand::Append { workspace } => (0, opt_string_view(workspace), false),
        CliCommand::PurgeTrash { workspace, confirmed } => (1, opt_string_view(workspace), confirmed),
        CliCommand::Help => (2, None, false),
        CliCommand::Version => (3, None, false),
    }
}

/// What the arguments ask for: help and version answer at once; `--purge-trash` with or
/// without `--yes`; `--yes` alone is refused; otherwise an append. The last `--workspace`
/// wins.
pub open spec fn spec_parse_args(args: Seq<Seq<char>>) -> Result<(int, Option<Seq<char>>, bool), Seq<char>> {
    match parse_from(args, 0, None, false, false) {
        Err(message) => Err(message),
        Ok((workspace, purge, confirmed, stopped)) => if stopped {
            if is_flag(first_stop(args, 0), "--help"@, "-h"@) {
                Ok((2, None, false))
            } else {
                Ok((3, None, false))
            }
        } else if purge {
            Ok((1, workspace, confirmed))
        } else if confirmed {
            Err("--yes only means something with --purge-trash"@)
        } else {
            Ok((0, workspace, false))
        },
    }
}

fn is_word(arg: &[char], word: &str) -> (r: bool)
    ensures
        r == (arg@ == word@),
{
    chars_equal(arg, &chars_of(word))
}

/// Read the command line (without the program name).
pub fn parse_args(args: &[String]) -> (r: Result<CliCommand, String>)
    ensures
        match r {
            Ok(c) => spec_parse_args(lines_view(args@)) == Ok::<
                (int, Option<Seq<char>>, bool),
                Seq<char>,
            >(command_view(c)),
            Err(m) => spec_parse_args(lines_view(args@)) == Err::<
                (int, Option<Seq<char>>, bool),
                Seq<char>,
            >(m@),
        },
{
    let ghost all = lines_view(args@);
    let mut workspace: Option<String> = None;
    let mut purge = false;
    let mut confirmed = false;
    let mut i: usize = 0;
    while i < args.len()
        invariant
            i <= args@.len(),
            all == lines_view(args@),
            parse_from(all, 0, None, false, false) == parse_from(
                all,
                i as int,
                opt_string_view(workspace),
                purge,
                confirmed,
            ),
            first_stop(all, 0) == first_stop(all, i as int),
        decreases args@.len() - i,
    {
        let arg = chars_of(args[i].as_str());
        assert(arg@ == all[i as int]);
        if is_word(&arg, "--help") || is_word(&arg, "-h") {
            return Ok(CliCommand::Help);
        }
        if is_word(&arg, "--version") || is_word(&arg, "-V") {
            return Ok(CliCommand::Version);
        }
        if is_word(&arg, "--workspace") {
            if i + 1 < args.len() {
                workspace = Some(args[i + 1].clone());
                i = i + 2;
            } else {
                return Err(string_of(&chars_of("--workspace needs a directory")));
            }
        } else if is_word(&arg, "--purge-trash") {
            purge = true;
            i = i + 1;
        } else if is_word(&arg, "--yes") || is_word(&arg, "-y") {
            confirmed = true;
            i = i + 1;
        } else {
            let mut message = chars_of("unknown argument ");
            let quoted = debug_quoted(args[i].as_str());
            push_all(&mut message, &chars_of(quoted.as_str()));
            return Err(string_of(&message));
        }
    }
    if purge {
        return Ok(CliCommand::PurgeTrash { workspace, confirmed });
    }
    if confirmed {
        return Err(string_of(&chars_of("--yes only means something with --purge-trash")));
    }
    Ok(CliCommand::Append { workspace })
}

/// Input joined onto a note without running it into the last line. The input itself is
/// untouched, trailing whitespace and all.
pub open spec fn spec_appended(existing: Seq<char>, input: Seq<char>) -> Seq<char> {
    if existing.len() > 0 && existing.last() != '\n' {
        existing + seq!['\n'] + input
    } else {
        existing + input
    }
}

pub fn appended(existing: &str, input: &str) -> (r: String)
    ensures
        r@ == spec_appended(existing@, input@),
{
    let mut out = chars_of(existing);
    if out.len() > 0 && out[out.len() - 1] != '\n' {
        out.push('\n');
    }
    push_all(&mut out, &chars_of(input));
    string_of(&out)
}

/// The note a capture goes into: the top of the merged order, the one the editor would open
/// on. `None` for an empty workspace, which gets a note made for it.
pub fn active_note(manifest: &[String], disk: &[NoteMeta]) -> (r: Option<NoteId>)
    ensures
        spec_reconcile(lines_view(manifest@), disk_entries(disk@)).len() == 0 <==> r is None,
        r matches Some(id) ==> id@ == spec_reconcile(lines_view(manifest@), disk_entries(disk@))[0],
{
    let mut order = reconcile(manifest, disk);
    if order.len() == 0 {
        None
    } else {
        assert(ids_view(order@)[0] == order@[0]@);
        Some(order.remove(0))
    }
}

/// Is this answer to "Empty the trash?" a yes? Anything but `y`, `Y` or `yes` is a no.
pub fn is_yes(answer: &str) -> (r: bool)
    ensures
        r == (spec_trim(answer@) == "y"@ || spec_trim(answer@) == "Y"@ || spec_trim(answer@)
            == "yes"@),
{
    let t = trim_chars(&chars_of(answer));
    is_word(&t, "y") || is_word(&t, "Y") || is_word(&t, "yes")
}

/// How a purge reports what it removed: `removed 1 entry from <trash>`.
pub open spec fn removed_report(removed: nat, trash: Seq<char>) -> Seq<char> {
    "removed "@ + crate::naming::decimal(removed) + (if removed == 1 {
        " entry"@
    } else {
        " entries"@
    }) + " from "@ + trash
}

pub fn removed_message(removed: usize, trash: &str) -> (r: String)
    ensures
        r@ == removed_report(removed as nat, trash@),
{
    let mut out = chars_of("removed ");
    push_decimal(&mut out, removed);
    if removed == 1 {
        push_all(&mut out, &chars_of(" entry"));
    } else {
        push_all(&mut out, &chars_of(" entries"));
    }
    push_all(&mut out, &chars_of(" from "));
    push_all(&mut out, &chars_of(trash));
    string_of(&out)
}

/// Why a purge is refused when the trash and the workspace overlap.
pub open spec fn refusal_report(trash: Seq<char>, workspace: Seq<char>) -> Seq<char> {
    "refusing to purge: the trash at "@ + trash + " overlaps the workspace at "@ + workspace
        + ". Point `trash` somewhere outside the workspace first."@
}

pub fn refusal_message(trash: &str, workspace: &str) -> (r: String)
    ensures
        r@ == refusal_report(trash@, workspace@),
{
    let mut out = chars_of("refusing to purge: the trash at ");
    push_all(&mut out, &chars_of(trash));
    push_all(&mut out, &chars_of(" overlaps the workspace at "));
    push_all(&mut out, &chars_of(workspace));
    push_all(&mut out, &chars_of(". Point `trash` somewhere outside the workspace first."));
    string_of(&out)
}


/// What `--purge-trash` does before it touches anything.
#[derive(Debug, Clone, PartialEq, Eq)]
pub enum PurgeStep {
    /// The trash and the workspace overlap: emptying the one would delete from the other.
    /// The purge stops with this message, whatever the answer would have been.
    Refuse(String),
    /// Ask before emptying the trash.
    Ask,
    /// `--yes` answered already: empty the trash.
    Purge,
}

/// The purge's first decision: refuse an overlapping trash before anything is opened,
/// then ask unless `--yes` was given.
pub fn purge_step(config: &Config, confirmed: bool) -> (r: PurgeStep)
    ensures
        config.overlaps() ==> (r matches PurgeStep::Refuse(m) && m@ == refusal_report(
            config.trash@,
            config.workspace@,
        )),
        !config.overlaps() && confirmed ==> r is Purge,
        !config.overlaps() && !confirmed ==> r is Ask,
{
    if config.trash_overlaps_workspace() {
        PurgeStep::Refuse(refusal_message(config.trash.as_str(), config.workspace.as_str()))
    } else if confirmed {
        PurgeStep::Purge
    } else {
        PurgeStep::Ask
    }
}

/// What was piped in lands after the note, exactly as it arrived, with a line break put
/// between the two only when the note did not already end in one.
pub proof fn lemma_appended_keeps_both(existing: Seq<char>, input: Seq<char>)
    ensures
        spec_appended(existing, input).take(existing.len() as int) == existing,
        spec_appended(existing, input).skip(spec_appended(existing, input).len() - input.len())
            == input,
        spec_appended(existing, input).len() == existing.len() + input.len() + if existing.len()
            > 0 && existing.last() != '\n' {
            1int
        } else {
            0int
        },
{
    let r = spec_appended(existing, input);
    assert(r.take(existing.len() as int) =~= existing);
    assert(r.skip(r.len() - input.len()) =~= input);
}

} // verus!
