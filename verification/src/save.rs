//! What a save does, and in which order.
//!
//! The order is the whole point: a save that renames before it records what it wrote comes
//! back through the watcher looking like somebody else's change. [`save_steps`] decides the
//! sequence; the caller carries out each step against the store, the buffer and the manifest.

use vstd::prelude::*;

use crate::naming::{is_slugged, slugged_name, spec_is_slugged, spec_slugged_name};
use crate::note::{NoteId, valid_note_name};
use crate::slug::{slug_from_first_line, spec_slug_from_first_line};

verus! {

/// What a save did, beyond putting bytes on the disk.
#[derive(Debug, Clone, PartialEq, Eq)]
pub enum Outcome {
    /// Nothing to write: no note open, or the buffer already matches the disk.
    Unchanged,
    Written,
    /// Written, and the note took its name from its first line.
    Renamed { from: NoteId, to: NoteId },
}

/// The name a note should take from its first line, if it has not been named yet: never for
/// a note renamed once already, and not while the first line holds no title.
pub open spec fn spec_slug_target(id: Seq<char>, content: Seq<char>) -> Option<Seq<char>> {
    if spec_is_slugged(id) {
        None
    } else {
        match spec_slug_from_first_line(content) {
            None => None,
            Some(slug) => {
                let name = spec_slugged_name(id, slug);
                if valid_note_name(name) {
                    Some(name)
                } else {
                    None
                }
            },
        }
    }
}

pub fn slug_target(id: &NoteId, content: &str) -> (r: Option<NoteId>)
    ensures
        r is Some <==> spec_slug_target(id@, content@) is Some,
        r matches Some(t) ==> t@ == spec_slug_target(id@, content@).unwrap(),
{
    if is_slugged(id) {
        return None;
    }
    let slug = match slug_from_first_line(content) {
        Some(s) => s,
        None => return None,
    };
    let name = slugged_name(id, slug.as_str());
    match NoteId::new(name.as_str()) {
        Ok(target) => Some(target),
        Err(_) => None,
    }
}

/// One step of a save, in the order [`save_steps`] lists them.
#[derive(Debug, PartialEq, Eq)]
pub enum SaveStep {
    /// Put the buffer's text on the disk under the open note's name.
    Write,
    /// Take that text as the buffer's new baseline, before any rename: a rescan landing in
    /// between compares against it.
    MarkSaved,
    /// Rename the note to this name (the store may land it under another, free one).
    Rename(NoteId),
    /// Point the buffer at the name the rename landed on.
    FollowRename,
    /// Move the manifest entry from the old name to the landed one.
    RecordRename,
}

/// The steps of a save of `content`, with `loaded` the note open in the buffer and `dirty`
/// whether the buffer differs from what was last saved.
///
/// Nothing happens with no note open or a clean buffer; otherwise the text is written and
/// taken as the baseline, and then, when the save gives the note its name, the note is
/// renamed, the buffer follows, and the manifest records the move.
pub fn save_steps(loaded: Option<&NoteId>, dirty: bool, content: &str) -> (r: Vec<SaveStep>)
    ensures
        (loaded is None || !dirty) ==> r@.len() == 0,
        (loaded is Some && dirty) ==> {
            let target = spec_slug_target(loaded.unwrap()@, content@);
            &&& r@.len() == if target is Some { 5int } else { 2int }
            &&& r@[0] is Write
            &&& r@[1] is MarkSaved
            &&& target matches Some(t) ==> {
                &&& r@[2] matches SaveStep::Rename(n) && n@ == t
                &&& r@[3] is FollowRename
                &&& r@[4] is RecordRename
            }
        },
{
    let mut steps: Vec<SaveStep> = Vec::new();
    let id = match loaded {
        Some(id) => id,
        None => return steps,
    };
    if !dirty {
        return steps;
    }
    steps.push(SaveStep::Write);
    steps.push(SaveStep::MarkSaved);
    if let Some(target) = slug_target(id, content) {
        steps.push(SaveStep::Rename(target));
        steps.push(SaveStep::FollowRename);
        steps.push(SaveStep::RecordRename);
    }
    steps
}

} // verus!
