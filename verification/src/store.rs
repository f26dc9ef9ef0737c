//! What the storage layer reports: changes to the stored notes, and whether the workspace is
//! still usable.

use vstd::prelude::*;

use crate::note::NoteId;

verus! {

/// A change to the stored notes.
#[derive(Debug, Clone, PartialEq, Eq)]
pub enum StoreEvent {
    Created(NoteId),
    Modified(NoteId),
    Removed(NoteId),
    Renamed { from: NoteId, to: NoteId },
    /// The event stream lost track: re-list instead of trusting deltas.
    Rescan,
}

/// Whether the workspace is still usable.
///
/// A cloud-drive mount can go offline and a user can remove the workspace while the app
/// runs. `ReadOnly` is best-effort: a failing write remains the authoritative answer.
#[derive(Debug, Clone, Copy, PartialEq, Eq, Structural)]
pub enum WorkspaceHealth {
    /// Present and writable.
    Usable,
    Missing,
    ReadOnly,
}

} // verus!
