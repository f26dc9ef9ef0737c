//! The editor session: which note is selected as the list shifts, which modal owns the
//! keyboard, what an external change means for the open buffer, when autosave and the health
//! check are due, and how a quit goes.
//!
//! The store, the buffer and the terminal are the caller's. Every decision about them is made
//! here, by a function from what the caller knows to what it should do, or by the
//! [`Session`] state the caller drives with what happened.

use vstd::prelude::*;

use crate::note::{NoteId, NoteMeta};
use crate::order::{
    disk_entries, ids_view, lines_view, move_down, move_up, moved_down, moved_up, reconcile,
    spec_reconcile,
};
use crate::keys::Command;
use crate::naming::push_all;
use crate::panel::{
    Conflict, Focus, HELP_QUERY_MAX, Help, HelpView, add_signed_saturating, clamped,
    panel_in_bounds, selection_of,
};
use crate::text::{chars_of, string_of};
use crate::store::{StoreEvent, WorkspaceHealth};

verus! {

/// How long the buffer sits untouched before it is written, in milliseconds. Not the
/// watcher's debounce: this one is about how soon the user's work is safe.
pub const IDLE_SAVE_MS: u64 = 300;

/// How often an unavailable workspace is prodded to see whether it came back, in
/// milliseconds.
pub const HEALTH_RECHECK_MS: u64 = 5000;

pub open spec fn metas_view(notes: Seq<NoteMeta>) -> Seq<Seq<char>> {
    notes.map_values(|m: NoteMeta| m.id@)
}

/// `i` is where `id` first appears.
pub open spec fn is_first_index(names: Seq<Seq<char>>, id: Seq<char>, i: int) -> bool {
    &&& 0 <= i < names.len()
    &&& names[i] == id
    &&& forall|j: int| 0 <= j < i ==> names[j] != id
}

pub open spec fn spec_index_of(names: Seq<Seq<char>>, id: Seq<char>) -> Option<int> {
    if exists|i: int| is_first_index(names, id, i) {
        Some(choose|i: int| is_first_index(names, id, i))
    } else {
        None
    }
}

/// Where the selected note sits in the list, for the list widget only: selection is held by
/// name, never by index, so a list that shifts underneath cannot move the user elsewhere.
pub fn selected_index(notes: &[NoteMeta], selected: Option<&NoteId>) -> (r: Option<usize>)
    ensures
        match selected {
            None => r is None,
            Some(id) => match spec_index_of(metas_view(notes@), id@) {
                Some(i) => r matches Some(k) && k == i,
                None => r is None,
            },
        },
{
    let id = match selected {
        Some(id) => id,
        None => return None,
    };
    let ghost names = metas_view(notes@);
    let mut k: usize = 0;
    while k < notes.len()
        invariant
            k <= notes@.len(),
            selected == Some(id),
            names == metas_view(notes@),
            forall|j: int| 0 <= j < k ==> names[j] != id@,
        decreases notes@.len() - k,
    {
        if notes[k].id.same(id) {
            proof {
                assert(is_first_index(names, id@, k as int));
                let c = choose|c: int| is_first_index(names, id@, c);
                assert(c == k as int);
            }
            return Some(k);
        }
        k = k + 1;
    }
    assert(!exists|c: int| is_first_index(names, id@, c));
    None
}

/// Which row is selected after the list was rebuilt: the selected note where it now sits,
/// if it survived; otherwise whatever now occupies its old place, held inside the list,
/// which keeps the cursor near where the user left it; nothing in an empty list.
pub open spec fn spec_reselect(
    names: Seq<Seq<char>>,
    selected: Option<Seq<char>>,
    previous: Option<usize>,
) -> Option<int> {
    let kept = match selected {
        Some(id) => spec_index_of(names, id),
        None => None,
    };
    if kept is Some {
        kept
    } else if names.len() == 0 {
        None
    } else {
        let wanted = match previous {
            Some(p) => p as int,
            None => 0,
        };
        Some(if wanted < names.len() {
            wanted
        } else {
            names.len() - 1
        })
    }
}

pub fn reselect(notes: &[NoteMeta], selected: Option<&NoteId>, previous: Option<usize>) -> (r: Option<usize>)
    ensures
        match spec_reselect(
            metas_view(notes@),
            match selected {
                Some(id) => Some(id@),
                None => None,
            },
            previous,
        ) {
            Some(i) => r matches Some(k) && k == i,
            None => r is None,
        },
{
    match selected_index(notes, selected) {
        Some(i) => Some(i),
        None => {
            if notes.len() == 0 {
                None
            } else {
                let wanted = match previous {
                    Some(p) => p,
                    None => 0,
                };
                if wanted < notes.len() {
                    Some(wanted)
                } else {
                    Some(notes.len() - 1)
                }
            }
        },
    }
}

/// A rebuilt list never loses the selected note while it exists, and never points past its
/// end.
pub proof fn lemma_reselect_keeps_the_note(
    names: Seq<Seq<char>>,
    selected: Option<Seq<char>>,
    previous: Option<usize>,
)
    ensures
        match spec_reselect(names, selected, previous) {
            Some(i) => 0 <= i < names.len(),
            None => names.len() == 0 || (selected is Some && !names.contains(selected.unwrap())),
        },
        (selected matches Some(id) && names.contains(id)) ==> (spec_reselect(
            names,
            selected,
            previous,
        ) matches Some(i) && names[i] == selected.unwrap()),
{
    match selected {
        Some(id) => {
            if names.contains(id) {
                let k = choose|k: int| 0 <= k < names.len() && names[k] == id;
                lemma_first_index_exists(names, id, k);
            }
        },
        None => {},
    }
}

proof fn lemma_first_index_exists(names: Seq<Seq<char>>, id: Seq<char>, k: int)
    requires
        0 <= k < names.len(),
        names[k] == id,
    ensures
        exists|i: int| is_first_index(names, id, i),
    decreases k,
{
    if exists|j: int| 0 <= j < k && names[j] == id {
        let j = choose|j: int| 0 <= j < k && names[j] == id;
        lemma_first_index_exists(names, id, j);
    } else {
        assert(is_first_index(names, id, k));
    }
}

/// The row `offset` rows away from `current`, held inside a list of `len`.
pub open spec fn spec_offset_target(current: usize, offset: isize, len: usize) -> int {
    let moved = current + offset;
    if moved < 0 {
        0
    } else if moved > len - 1 {
        len - 1
    } else {
        moved
    }
}

pub fn offset_target(current: usize, offset: isize, len: usize) -> (r: usize)
    requires
        len > 0,
    ensures
        r == spec_offset_target(current, offset, len),
        r < len,
{
    let moved = crate::panel::saturating_add_signed(current, offset);
    if moved > len - 1 {
        len - 1
    } else {
        moved
    }
}

/// The notes in display order: for each name of the merged order, the disk's entry for it.
/// Names the disk no longer lists are skipped.
pub open spec fn spec_in_order(order: Seq<Seq<char>>, disk: Seq<Seq<char>>) -> Seq<Seq<char>>
    decreases order.len(),
{
    if order.len() == 0 {
        Seq::empty()
    } else {
        let prev = spec_in_order(order.drop_last(), disk);
        if disk.contains(order.last()) {
            prev.push(order.last())
        } else {
            prev
        }
    }
}

/// `meta` is one of the disk's entries, name and all.
pub open spec fn listed_in(meta: NoteMeta, disk: Seq<NoteMeta>) -> bool {
    exists|m: int|
        #![trigger disk[m]]
        0 <= m < disk.len() && meta.id@ == disk[m].id@ && meta.modified == disk[m].modified
            && meta.format == disk[m].format && meta.slugged == disk[m].slugged
}

/// Pair the merged order with the disk listing it was built from.
pub fn in_order(order: &[NoteId], disk: &[NoteMeta]) -> (r: Vec<NoteMeta>)
    ensures
        metas_view(r@) == spec_in_order(ids_view(order@), metas_view(disk@)),
        forall|i: int| 0 <= i < r@.len() ==> listed_in(#[trigger] r@[i], disk@),
{
    let ghost ov = ids_view(order@);
    let ghost dv = metas_view(disk@);
    let mut out: Vec<NoteMeta> = Vec::new();
    let mut k: usize = 0;
    assert(ov.take(0) =~= Seq::<Seq<char>>::empty());
    while k < order.len()
        invariant
            k <= order@.len(),
            ov == ids_view(order@),
            dv == metas_view(disk@),
            metas_view(out@) == spec_in_order(ov.take(k as int), dv),
            forall|i: int| 0 <= i < out@.len() ==> listed_in(#[trigger] out@[i], disk@),
        decreases order@.len() - k,
    {
        proof {
            assert(ov.take(k + 1).drop_last() =~= ov.take(k as int));
            assert(ov.take(k + 1).last() == ov[k as int]);
        }
        let mut j: usize = 0;
        let mut found = false;
        while j < disk.len() && !found
            invariant
                j <= disk@.len(),
                k < order@.len(),
                ov == ids_view(order@),
                dv == metas_view(disk@),
                !found ==> forall|m: int| 0 <= m < j ==> dv[m] != ov[k as int],
                found ==> dv.contains(ov[k as int]) && out@.len() > 0 && out@.last().id@ == ov[k as int],
                found ==> metas_view(out@) == spec_in_order(ov.take(k as int), dv).push(ov[k as int]),
                !found ==> metas_view(out@) == spec_in_order(ov.take(k as int), dv),
                forall|i: int| 0 <= i < out@.len() ==> listed_in(#[trigger] out@[i], disk@),
            decreases disk@.len() - j,
        {
            if disk[j].id.same(&order[k]) {
                let ghost before = out@;
                let meta = NoteMeta {
                    id: disk[j].id.clone(),
                    format: disk[j].format,
                    modified: disk[j].modified,
                    slugged: disk[j].slugged,
                };
                out.push(meta);
                proof {
                    assert(dv[j as int] == ov[k as int]);
                    assert(metas_view(out@) =~= metas_view(before).push(ov[k as int]));
                    assert forall|i: int| 0 <= i < out@.len() implies exists|m: int| 0 <= m < disk@.len() && #[trigger] out@[i].id@ == disk@[m].id@ && out@[i].modified == disk@[m].modified && out@[i].format == disk@[m].format && out@[i].slugged == disk@[m].slugged by {
                        if i == out@.len() - 1 {
                            assert(out@[i].id@ == disk@[j as int].id@);
                        } else {
                            assert(out@[i] == before[i]);
                        }
                    }
                }
                found = true;
            }
            j = j + 1;
        }
        k = k + 1;
    }
    assert(ov.take(order@.len() as int) =~= ov);
    out
}

/// The order after a note is created: the new one on top, the rest as they were. Saying so in
/// the manifest is what makes it survive a restart rather than depending on it also being the
/// newest file.
pub fn with_new_on_top(created: &NoteId, notes: &[NoteMeta]) -> (r: Vec<NoteId>)
    ensures
        ids_view(r@) == seq![created@] + metas_view(notes@),
{
    let mut out: Vec<NoteId> = Vec::new();
    out.push(created.clone());
    let mut k: usize = 0;
    while k < notes.len()
        invariant
            k <= notes@.len(),
            ids_view(out@) =~= seq![created@] + metas_view(notes@).take(k as int),
        decreases notes@.len() - k,
    {
        let ghost before = ids_view(out@);
        out.push(notes[k].id.clone());
        assert(ids_view(out@) =~= before.push(notes@[k as int].id@));
        assert(metas_view(notes@).take(k + 1) =~= metas_view(notes@).take(k as int).push(notes@[k as int].id@));
        k = k + 1;
    }
    assert(metas_view(notes@).take(notes@.len() as int) =~= metas_view(notes@));
    out
}

/// The names of the listed notes, in order.
pub fn names_in(notes: &[NoteMeta]) -> (r: Vec<NoteId>)
    ensures
        ids_view(r@) == metas_view(notes@),
{
    let mut out: Vec<NoteId> = Vec::new();
    let mut k: usize = 0;
    while k < notes.len()
        invariant
            k <= notes@.len(),
            ids_view(out@) =~= metas_view(notes@).take(k as int),
        decreases notes@.len() - k,
    {
        let ghost before = ids_view(out@);
        out.push(notes[k].id.clone());
        assert(ids_view(out@) =~= before.push(notes@[k as int].id@));
        assert(metas_view(notes@).take(k + 1) =~= metas_view(notes@).take(k as int).push(notes@[k as int].id@));
        k = k + 1;
    }
    assert(metas_view(notes@).take(notes@.len() as int) =~= metas_view(notes@));
    out
}

/// The other pane.
pub fn toggled(focus: Focus) -> (r: Focus)
    ensures
        r != focus,
{
    match focus {
        Focus::List => Focus::Editor,
        Focus::Editor => Focus::List,
    }
}

/// When the loop should wake on its own: the earlier of a pending save and a pending health
/// check, or never. An idle scratchpad has no reason to wake and find it is still idle.
pub fn wake_at(save: Option<u64>, health: Option<u64>) -> (r: Option<u64>)
    ensures
        r == match (save, health) {
            (Some(s), Some(h)) => Some(if s <= h { s } else { h }),
            (Some(s), None) => Some(s),
            (None, Some(h)) => Some(h),
            (None, None) => None,
        },
{
    match (save, health) {
        (Some(s), Some(h)) => Some(if s <= h { s } else { h }),
        (Some(s), None) => Some(s),
        (None, Some(h)) => Some(h),
        (None, None) => None,
    }
}

/// Does an external event concern the note open in the editor? A rescan carries no name, so
/// it always does; a rename has already been followed.
pub open spec fn spec_touches_open(event: StoreEvent, open: Option<Seq<char>>) -> bool {
    match event {
        StoreEvent::Rescan => true,
        StoreEvent::Renamed { .. } => false,
        StoreEvent::Created(id) => open == Some(id@),
        StoreEvent::Modified(id) => open == Some(id@),
        StoreEvent::Removed(id) => open == Some(id@),
    }
}

pub fn touches_open(event: &StoreEvent, open: Option<&NoteId>) -> (r: bool)
    ensures
        r == spec_touches_open(
            *event,
            match open {
                Some(id) => Some(id@),
                None => None,
            },
        ),
{
    match event {
        StoreEvent::Rescan => true,
        StoreEvent::Renamed { .. } => false,
        StoreEvent::Created(id) | StoreEvent::Modified(id) | StoreEvent::Removed(id) => match open {
            Some(o) => o.same(id),
            None => false,
        },
    }
}

/// The name the open note moves to, when an external rename moves it. Following it keeps the
/// old name's disappearance from reading as a delete.
pub fn followed_rename(event: &StoreEvent, open: Option<&NoteId>) -> (r: Option<NoteId>)
    ensures
        match (*event, open) {
            (StoreEvent::Renamed { from, to }, Some(o)) => if from@ == o@ {
                r matches Some(t) && t@ == to@
            } else {
                r is None
            },
            _ => r is None,
        },
{
    match (event, open) {
        (StoreEvent::Renamed { from, to }, Some(o)) => if from.same(o) {
            Some(to.clone())
        } else {
            None
        },
        _ => None,
    }
}

/// Does an event change which notes are listed? A change to a note's contents moves nothing.
pub fn relists(event: &StoreEvent) -> (r: bool)
    ensures
        r == !(*event is Modified),
{
    !matches!(event, StoreEvent::Modified(_))
}

/// What an external change means for the buffer.
#[derive(Debug, Clone, Copy, PartialEq, Eq, Structural)]
pub enum OpenNoteOutcome {
    /// Nothing to reconcile: the disk holds what was last read or written.
    Unchanged,
    /// Nothing unsaved: take what the disk holds now.
    Reload,
    /// Unsaved work meets an external change: the user decides.
    Conflicted(Conflict),
    /// The note is still listed but cannot be read: say so rather than show stale text.
    Report,
    /// The note is gone and nothing was unsaved: open whatever is selected now.
    Reopen,
}

/// The only place allowed to replace what the user is looking at, and it refuses whenever
/// there is unsaved work: an external edit is never worth a lost keystroke. `disk` is what
/// the note reads as now (`None` when it cannot be read).
pub open spec fn spec_open_note_outcome(
    disk: Option<Seq<char>>,
    baseline: Seq<char>,
    dirty: bool,
    still_listed: bool,
) -> OpenNoteOutcome {
    match disk {
        Some(text) => if text == baseline {
            OpenNoteOutcome::Unchanged
        } else if dirty {
            OpenNoteOutcome::Conflicted(Conflict::Changed)
        } else {
            OpenNoteOutcome::Reload
        },
        None => if dirty {
            OpenNoteOutcome::Conflicted(Conflict::Deleted)
        } else if still_listed {
            OpenNoteOutcome::Report
        } else {
            OpenNoteOutcome::Reopen
        },
    }
}

/// What an external change does to the buffer, in terms of what the disk and the buffer
/// hold: nothing happens only when the disk holds exactly what was last read or written; a
/// disk that holds anything else is taken over a clean buffer and put to the user over a
/// dirty one; a note that cannot be read is put to the user over a dirty buffer, reported
/// while it is still listed, and otherwise left for whatever is selected now; and nothing
/// replaces or closes a dirty buffer without asking.
pub proof fn lemma_an_external_change_is_never_ignored(
    disk: Option<Seq<char>>,
    baseline: Seq<char>,
    dirty: bool,
    still_listed: bool,
)
    ensures
        ({
            let r = spec_open_note_outcome(disk, baseline, dirty, still_listed);
            &&& (r is Unchanged <==> disk == Some(baseline))
            &&& (disk matches Some(t) && t != baseline) ==> r == if dirty {
                OpenNoteOutcome::Conflicted(Conflict::Changed)
            } else {
                OpenNoteOutcome::Reload
            }
            &&& (disk is None && dirty) ==> r == OpenNoteOutcome::Conflicted(Conflict::Deleted)
            &&& (disk is None && !dirty) ==> r == if still_listed {
                OpenNoteOutcome::Report
            } else {
                OpenNoteOutcome::Reopen
            }
            &&& dirty ==> (r is Unchanged || r is Conflicted)
            &&& (r is Conflicted <==> dirty && disk != Some(baseline))
        }),
{
}

pub fn open_note_outcome(disk: Option<&str>, baseline: &str, dirty: bool, still_listed: bool) -> (r: OpenNoteOutcome)
    ensures
        r == spec_open_note_outcome(
            match disk {
                Some(t) => Some(t@),
                None => None,
            },
            baseline@,
            dirty,
            still_listed,
        ),
{
    match disk {
        Some(text) => {
            let same = crate::order::chars_equal(
                &crate::text::chars_of(text),
                &crate::text::chars_of(baseline),
            );
            if same {
                OpenNoteOutcome::Unchanged
            } else if dirty {
                OpenNoteOutcome::Conflicted(Conflict::Changed)
            } else {
                OpenNoteOutcome::Reload
            }
        },
        None => if dirty {
            OpenNoteOutcome::Conflicted(Conflict::Deleted)
        } else if still_listed {
            OpenNoteOutcome::Report
        } else {
            OpenNoteOutcome::Reopen
        },
    }
}

/// Unsaved work is never replaced by an external change: with a dirty buffer the outcome is
/// nothing at all or a question to the user.
pub proof fn lemma_unsaved_work_is_never_replaced(
    disk: Option<Seq<char>>,
    baseline: Seq<char>,
    still_listed: bool,
)
    ensures
        ({
            let r = spec_open_note_outcome(disk, baseline, true, still_listed);
            r == OpenNoteOutcome::Unchanged || r is Conflicted
        }),
{
}

/// Whether the workspace looks usable from what its metadata says: missing when it is not
/// there or not a directory, read-only when its permissions say so.
pub fn health_of(present: bool, is_dir: bool, readonly: bool) -> (r: WorkspaceHealth)
    ensures
        r == if !present || !is_dir {
            WorkspaceHealth::Missing
        } else if readonly {
            WorkspaceHealth::ReadOnly
        } else {
            WorkspaceHealth::Usable
        },
{
    if !present || !is_dir {
        WorkspaceHealth::Missing
    } else if readonly {
        WorkspaceHealth::ReadOnly
    } else {
        WorkspaceHealth::Usable
    }
}

/// How many names are tried before giving up on finding a free one, so a pathological
/// directory cannot keep the search going forever.
pub const MAX_NAME_ATTEMPTS: usize = 1000;

/// The name to try on attempt `attempt` (from 1) when `name` may be taken: the name itself
/// first, then with a numbered suffix.
pub fn candidate_name(name: &str, attempt: usize) -> (r: String)
    ensures
        r@ == if attempt <= 1 {
            name@
        } else {
            crate::naming::spec_with_suffix(name@, attempt as nat)
        },
{
    if attempt <= 1 {
        name.to_owned()
    } else {
        crate::naming::with_suffix(name, attempt)
    }
}


/// What the terminal is assumed to be until it says otherwise: the session starts before
/// there is a terminal to ask, and a headless run never has one.
pub const ASSUMED_WIDTH: u16 = 120;

pub const ASSUMED_HEIGHT: u16 = 40;

/// The name an optional id carries.
pub open spec fn opt_id(o: Option<NoteId>) -> Option<Seq<char>> {
    match o {
        Some(id) => Some(id@),
        None => None,
    }
}

/// The next step of a quit.
#[derive(Debug, Clone, Copy, PartialEq, Eq, Structural)]
pub enum QuitStep {
    /// Leave now, without writing anything.
    Leave,
    /// Write the buffer first, and leave only if that works.
    SaveFirst,
}

/// Everything the app decides with that is not the store, the buffer or the terminal: the
/// list and its selection, which modal owns the keyboard, the autosave and health timers,
/// and the way out.
///
/// Times are milliseconds on the caller's monotonic clock.
pub struct Session {
    /// Notes in display order.
    pub notes: Vec<NoteMeta>,
    /// Held by name, never by index: a list that shifts underneath cannot move the user to a
    /// different note.
    pub selected: Option<NoteId>,
    pub focus: Focus,
    /// A delete waiting on confirmation.
    pub pending_delete: Option<NoteId>,
    /// When the idle buffer is due to be written, if it is waiting.
    pub save_deadline: Option<u64>,
    /// An external change waiting on the user.
    pub conflict: Option<Conflict>,
    /// The keybindings panel, while it is open.
    pub help: Option<Help>,
    /// The terminal as last reported: width, then height.
    pub size: (u16, u16),
    /// Last known state of the workspace, and when to look again once it is bad.
    pub health: WorkspaceHealth,
    pub health_recheck: Option<u64>,
    /// A quit that was refused because the save failed: the next one goes through.
    pub quit_forced: bool,
    pub status: Option<String>,
    pub quit: bool,
}

/// The panel after `f`, if it was open; still closed if it was not.
pub open spec fn help_after(
    before: Option<Help>,
    after: Option<Help>,
    f: spec_fn(HelpView) -> HelpView,
) -> bool {
    match before {
        None => after is None,
        Some(h) => after matches Some(n) && n@ == f(h@),
    }
}

impl Session {
    /// Autosave is stopped while an external change waits on the user, and while the
    /// workspace cannot be written: a save armed then would write over the change the user is
    /// deciding about, or retry against a dead mount. An open panel's cursor and view stay
    /// inside what it lists, for the window last reported.
    pub open spec fn wf(&self) -> bool {
        &&& self.conflict is Some ==> self.save_deadline is None
        &&& self.health != WorkspaceHealth::Usable ==> self.save_deadline is None
        &&& self.help matches Some(h) ==> panel_in_bounds(h@, self.size.1)
    }

    /// Nothing listed, nothing pending, the editor focused, the workspace presumed usable.
    pub fn new() -> (r: Session)
        ensures
            r.wf(),
            r.notes@.len() == 0,
            r.selected is None,
            r.focus == Focus::Editor,
            r.pending_delete is None,
            r.save_deadline is None,
            r.conflict is None,
            r.help is None,
            r.size == (ASSUMED_WIDTH, ASSUMED_HEIGHT),
            r.health == WorkspaceHealth::Usable,
            r.health_recheck is None,
            !r.quit_forced,
            r.status is None,
            !r.quit,
    {
        Session {
            notes: Vec::new(),
            selected: None,
            focus: Focus::Editor,
            pending_delete: None,
            save_deadline: None,
            conflict: None,
            help: None,
            size: (ASSUMED_WIDTH, ASSUMED_HEIGHT),
            health: WorkspaceHealth::Usable,
            health_recheck: None,
            quit_forced: false,
            status: None,
            quit: false,
        }
    }

    /// Where the selection sits in the list, for the list widget only. Never stored.
    pub fn selected_index(&self) -> (r: Option<usize>)
        ensures
            r == spec_selected_index(metas_view(self.notes@), opt_id(self.selected)),
    {
        selected_index(self.notes.as_slice(), self.selected.as_ref())
    }

    /// Whether keys are currently going into the panel's filter.
    pub fn help_searching(&self) -> (r: bool)
        ensures
            r == (self.help matches Some(h) && h@.3),
    {
        match &self.help {
            Some(h) => h.searching(),
            None => false,
        }
    }

    /// What Enter in the panel would run: the selected row's command, if it has one.
    pub fn help_selection(&self) -> (r: Option<Command>)
        ensures
            r == match self.help {
                Some(h) => selection_of(h@),
                None => None,
            },
    {
        match &self.help {
            Some(h) => h.selection(),
            None => None,
        }
    }

    pub fn open_help(&mut self)
        requires
            old(self).wf(),
        ensures
            final(self).wf(),
            final(self).help matches Some(h) && h@ == (0usize, 0usize, Seq::<char>::empty(), false),
            (*final(self) == Session { help: final(self).help, ..*old(self) }),
    {
        self.help = Some(Help::new());
    }

    pub fn close_help(&mut self)
        requires
            old(self).wf(),
        ensures
            final(self).wf(),
            (*final(self) == Session { help: None, ..*old(self) }),
    {
        self.help = None;
    }

    /// Move the panel's cursor by `delta` rows, without wrapping.
    pub fn help_move(&mut self, delta: isize)
        requires
            old(self).wf(),
        ensures
            final(self).wf(),
            help_after(
                old(self).help,
                final(self).help,
                |v: HelpView| clamped((add_signed_saturating(v.0, delta), v.1, v.2, v.3), old(self).size.1),
            ),
            (*final(self) == Session { help: final(self).help, ..*old(self) }),
    {
        if let Some(mut h) = self.help.take() {
            h.move_by(delta, self.size.1);
            self.help = Some(h);
        }
    }

    /// Put the panel's cursor on `row`, or on the last row when there are fewer.
    pub fn help_to(&mut self, row: usize)
        requires
            old(self).wf(),
        ensures
            final(self).wf(),
            help_after(
                old(self).help,
                final(self).help,
                |v: HelpView| clamped((row, v.1, v.2, v.3), old(self).size.1),
            ),
            (*final(self) == Session { help: final(self).help, ..*old(self) }),
    {
        if let Some(mut h) = self.help.take() {
            h.move_to(row, self.size.1);
            self.help = Some(h);
        }
    }

    pub fn help_to_end(&mut self)
        requires
            old(self).wf(),
        ensures
            final(self).wf(),
            help_after(
                old(self).help,
                final(self).help,
                |v: HelpView| clamped((usize::MAX, v.1, v.2, v.3), old(self).size.1),
            ),
            (*final(self) == Session { help: final(self).help, ..*old(self) }),
    {
        self.help_to(usize::MAX);
    }

    /// Move the panel's view by `delta` lines without moving the cursor.
    pub fn help_scroll(&mut self, delta: isize)
        requires
            old(self).wf(),
        ensures
            final(self).wf(),
            help_after(
                old(self).help,
                final(self).help,
                |v: HelpView| clamped((v.0, add_signed_saturating(v.1, delta), v.2, v.3), old(self).size.1),
            ),
            (*final(self) == Session { help: final(self).help, ..*old(self) }),
    {
        if let Some(mut h) = self.help.take() {
            h.scroll(delta, self.size.1);
            self.help = Some(h);
        }
    }

    /// Start filtering the panel's list.
    pub fn help_search(&mut self)
        requires
            old(self).wf(),
        ensures
            final(self).wf(),
            help_after(
                old(self).help,
                final(self).help,
                |v: HelpView| clamped((v.0, v.1, v.2, true), old(self).size.1),
            ),
            (*final(self) == Session { help: final(self).help, ..*old(self) }),
    {
        if let Some(mut h) = self.help.take() {
            h.search(self.size.1);
            self.help = Some(h);
        }
    }

    /// Leave the filter prompt, keeping the query.
    pub fn help_search_commit(&mut self)
        requires
            old(self).wf(),
        ensures
            final(self).wf(),
            help_after(
                old(self).help,
                final(self).help,
                |v: HelpView| clamped((v.0, v.1, v.2, false), old(self).size.1),
            ),
            (*final(self) == Session { help: final(self).help, ..*old(self) }),
    {
        if let Some(mut h) = self.help.take() {
            h.search_commit(self.size.1);
            self.help = Some(h);
        }
    }

    /// Leave the filter prompt and clear the query.
    pub fn help_search_cancel(&mut self)
        requires
            old(self).wf(),
        ensures
            final(self).wf(),
            help_after(
                old(self).help,
                final(self).help,
                |v: HelpView| clamped((v.0, 0usize, Seq::<char>::empty(), false), old(self).size.1),
            ),
            (*final(self) == Session { help: final(self).help, ..*old(self) }),
    {
        if let Some(mut h) = self.help.take() {
            h.search_cancel(self.size.1);
            self.help = Some(h);
        }
    }

    /// Add a character to the panel's query, up to its limit; the view goes back to the top.
    pub fn help_type(&mut self, c: char)
        requires
            old(self).wf(),
        ensures
            final(self).wf(),
            help_after(
                old(self).help,
                final(self).help,
                |v: HelpView|
                    clamped(
                        (
                            v.0,
                            0usize,
                            if v.2.len() < HELP_QUERY_MAX {
                                v.2.push(c)
                            } else {
                                v.2
                            },
                            v.3,
                        ),
                        old(self).size.1,
                    ),
            ),
            (*final(self) == Session { help: final(self).help, ..*old(self) }),
    {
        if let Some(mut h) = self.help.take() {
            h.type_char(c, self.size.1);
            self.help = Some(h);
        }
    }

    /// Drop the query's last character; the view goes back to the top.
    pub fn help_backspace(&mut self)
        requires
            old(self).wf(),
        ensures
            final(self).wf(),
            help_after(
                old(self).help,
                final(self).help,
                |v: HelpView|
                    clamped(
                        (
                            v.0,
                            0usize,
                            if v.2.len() > 0 {
                                v.2.drop_last()
                            } else {
                                v.2
                            },
                            v.3,
                        ),
                        old(self).size.1,
                    ),
            ),
            (*final(self) == Session { help: final(self).help, ..*old(self) }),
    {
        if let Some(mut h) = self.help.take() {
            h.backspace(self.size.1);
            self.help = Some(h);
        }
    }

    /// Record the terminal's size, and pull the panel back inside the new window.
    pub fn set_size(&mut self, width: u16, height: u16)
        requires
            old(self).wf(),
        ensures
            final(self).wf(),
            final(self).size == (width, height),
            help_after(old(self).help, final(self).help, |v: HelpView| clamped(v, height)),
            (*final(self) == Session { help: final(self).help, size: (width, height), ..*old(self) }),
    {
        self.size = (width, height);
        if let Some(mut h) = self.help.take() {
            h.clamp(height);
            self.help = Some(h);
        }
    }

    pub fn toggle_focus(&mut self)
        requires
            old(self).wf(),
        ensures
            final(self).wf(),
            final(self).focus != old(self).focus,
            (*final(self) == Session { focus: final(self).focus, ..*old(self) }),
    {
        self.focus = toggled(self.focus);
    }

    pub fn set_status(&mut self, status: String)
        requires
            old(self).wf(),
        ensures
            final(self).wf(),
            (*final(self) == Session { status: Some(status), ..*old(self) }),
    {
        self.status = Some(status);
    }

    /// Ask before deleting: the selected note waits on a yes.
    pub fn request_delete(&mut self)
        requires
            old(self).wf(),
        ensures
            final(self).wf(),
            opt_id(final(self).pending_delete) == opt_id(old(self).selected),
            (*final(self) == Session { pending_delete: final(self).pending_delete, ..*old(self) }),
    {
        self.pending_delete = match &self.selected {
            Some(id) => Some(id.clone()),
            None => None,
        };
    }

    pub fn cancel_delete(&mut self)
        requires
            old(self).wf(),
        ensures
            final(self).wf(),
            (*final(self) == Session { pending_delete: None, ..*old(self) }),
    {
        self.pending_delete = None;
    }

    /// The confirmed delete, taken off the prompt. Whatever save was pending dies with it:
    /// writing a note on its way to the trash would only put it back.
    pub fn take_pending_delete(&mut self) -> (r: Option<NoteId>)
        requires
            old(self).wf(),
        ensures
            final(self).wf(),
            r == old(self).pending_delete,
            r is None ==> *final(self) == *old(self),
            r is Some ==> (*final(self) == Session {
                pending_delete: None,
                save_deadline: None,
                ..*old(self)
            }),
    {
        match self.pending_delete.take() {
            Some(id) => {
                self.save_deadline = None;
                Some(id)
            },
            None => None,
        }
    }

    /// The note went to the trash: say so, and let go of it.
    pub fn deleted(&mut self, id: &NoteId)
        requires
            old(self).wf(),
        ensures
            final(self).wf(),
            final(self).status matches Some(t) && t@ == id@ + " moved to the trash"@,
            (*final(self) == Session { status: final(self).status, selected: None, ..*old(self) }),
    {
        let mut text = chars_of(id.as_str());
        push_all(&mut text, &chars_of(" moved to the trash"));
        self.status = Some(string_of(&text));
        self.selected = None;
    }

    /// An external change now waits on the user. The panel gives way, since two modals on
    /// screen means answering the wrong question, and autosave stops: a save from here would
    /// write the buffer straight over the change.
    pub fn enter_conflict(&mut self, conflict: Conflict)
        requires
            old(self).wf(),
        ensures
            final(self).wf(),
            (*final(self) == Session {
                conflict: Some(conflict),
                help: None,
                save_deadline: None,
                ..*old(self)
            }),
    {
        self.help = None;
        self.save_deadline = None;
        self.conflict = Some(conflict);
    }

    /// The user answered: keep theirs or mine, autosave may run again.
    pub fn resolve_conflict(&mut self)
        requires
            old(self).wf(),
        ensures
            final(self).wf(),
            (*final(self) == Session { conflict: None, ..*old(self) }),
    {
        self.conflict = None;
    }

    /// Give the buffer its quiet period before it is written: one deadline moved forward on
    /// each key, so a burst of typing leaves one save behind it. A clean buffer disarms it,
    /// so undoing back to what is on disk cancels the write; nothing is armed while a
    /// conflict waits or the workspace is unusable.
    pub fn arm_save(&mut self, dirty: bool, now: u64)
        requires
            old(self).wf(),
        ensures
            final(self).wf(),
            if old(self).conflict is Some || old(self).health != WorkspaceHealth::Usable {
                *final(self) == *old(self)
            } else {
                (*final(self) == Session {
                    save_deadline: if dirty {
                        Some(crate::suppress::expiry(now, IDLE_SAVE_MS))
                    } else {
                        None
                    },
                    ..*old(self)
                })
            },
    {
        if self.conflict.is_some() || self.health != WorkspaceHealth::Usable {
            return;
        }
        self.save_deadline = if dirty {
            Some(now.saturating_add(IDLE_SAVE_MS))
        } else {
            None
        };
    }

    /// The start of a save: the pending deadline is spent, and the answer is whether there
    /// is anything to write and nothing in the way (a conflict blocks every write).
    pub fn begin_save(&mut self, dirty: bool) -> (r: bool)
        requires
            old(self).wf(),
        ensures
            final(self).wf(),
            r == (old(self).conflict is None && dirty),
            (*final(self) == Session { save_deadline: None, ..*old(self) }),
    {
        self.save_deadline = None;
        self.conflict.is_none() && dirty
    }

    /// Take in what the workspace looks like at `now`, entering or leaving the degraded
    /// state as needed; the answer is whether it is safe to write. A workspace that went bad
    /// stops autosave and is looked at again later rather than on every keystroke.
    pub fn check_health(&mut self, current: WorkspaceHealth, now: u64) -> (r: bool)
        requires
            old(self).wf(),
        ensures
            final(self).wf(),
            r == (current == WorkspaceHealth::Usable),
            if current == old(self).health {
                *final(self) == *old(self)
            } else if r {
                (*final(self) == Session { health: current, health_recheck: None, ..*old(self) })
            } else {
                (*final(self) == Session {
                    health: current,
                    health_recheck: Some(crate::suppress::expiry(now, HEALTH_RECHECK_MS)),
                    save_deadline: None,
                    ..*old(self)
                })
            },
    {
        let usable = current == WorkspaceHealth::Usable;
        if current == self.health {
            return usable;
        }
        if usable {
            self.health_recheck = None;
        } else {
            self.save_deadline = None;
            self.health_recheck = Some(now.saturating_add(HEALTH_RECHECK_MS));
        }
        self.health = current;
        usable
    }

    /// The workspace is still unusable: look again later.
    pub fn recheck_later(&mut self, now: u64)
        requires
            old(self).wf(),
        ensures
            final(self).wf(),
            (*final(self) == Session {
                health_recheck: Some(crate::suppress::expiry(now, HEALTH_RECHECK_MS)),
                ..*old(self)
            }),
    {
        self.health_recheck = Some(now.saturating_add(HEALTH_RECHECK_MS));
    }

    /// Is the workspace due another look at `now`?
    pub fn recheck_due(&self, now: u64) -> (r: bool)
        ensures
            r == (self.health_recheck matches Some(at) && now >= at),
    {
        match self.health_recheck {
            Some(at) => now >= at,
            None => false,
        }
    }

    /// Is the idle buffer due to be written at `now`?
    pub fn save_due(&self, now: u64) -> (r: bool)
        ensures
            r == (self.save_deadline matches Some(at) && now >= at),
    {
        match self.save_deadline {
            Some(at) => now >= at,
            None => false,
        }
    }

    /// When the loop should wake on its own: the earlier of a pending save and a pending
    /// health check, or never.
    pub fn wake_at(&self) -> (r: Option<u64>)
        ensures
            r == match (self.save_deadline, self.health_recheck) {
                (Some(s), Some(h)) => Some(if s <= h { s } else { h }),
                (Some(s), None) => Some(s),
                (None, Some(h)) => Some(h),
                (None, None) => None,
            },
    {
        wake_at(self.save_deadline, self.health_recheck)
    }

    /// The first step of a quit. A conflict left unanswered, or a quit already refused once,
    /// leaves at once; otherwise the buffer is written first.
    pub fn quit(&mut self) -> (r: QuitStep)
        requires
            old(self).wf(),
        ensures
            final(self).wf(),
            r == quit_step_of(*old(self)),
            r == QuitStep::Leave ==> (*final(self) == Session { quit: true, ..*old(self) }),
            r == QuitStep::SaveFirst ==> *final(self) == *old(self),
    {
        if self.quit_forced || self.conflict.is_some() {
            self.quit = true;
            QuitStep::Leave
        } else {
            QuitStep::SaveFirst
        }
    }

    /// The save before leaving worked: leave.
    pub fn leave(&mut self)
        requires
            old(self).wf(),
        ensures
            final(self).wf(),
            (*final(self) == Session { quit: true, ..*old(self) }),
    {
        self.quit = true;
    }

    /// The save before leaving failed: stay, say why where it can be seen, and let the next
    /// quit through, so a workspace that never accepts a write cannot trap the user.
    pub fn quit_refused(&mut self, reason: &str)
        requires
            old(self).wf(),
        ensures
            final(self).wf(),
            final(self).status matches Some(t) && t@ == reason@ + QUIT_AGAIN_HINT@,
            (*final(self) == Session { quit_forced: true, status: final(self).status, ..*old(self) }),
    {
        let mut text = chars_of(reason);
        push_all(&mut text, &chars_of(QUIT_AGAIN_HINT));
        self.status = Some(string_of(&text));
        self.quit_forced = true;
    }

    /// Put the selection on `id`, or on nothing.
    pub fn select(&mut self, id: Option<NoteId>)
        requires
            old(self).wf(),
        ensures
            final(self).wf(),
            (*final(self) == Session { selected: id, ..*old(self) }),
    {
        self.selected = id;
    }

    /// A save renamed the note: a selection on the old name follows it rather than staying
    /// on a name nothing answers to.
    pub fn follow_saved_rename(&mut self, from: &NoteId, to: &NoteId)
        requires
            old(self).wf(),
        ensures
            final(self).wf(),
            opt_id(old(self).selected) == Some(from@) ==> opt_id(final(self).selected) == Some(to@)
                && (*final(self) == Session { selected: final(self).selected, ..*old(self) }),
            opt_id(old(self).selected) != Some(from@) ==> *final(self) == *old(self),
    {
        let follows = match &self.selected {
            Some(s) => s.same(from),
            None => false,
        };
        if follows {
            self.selected = Some(to.clone());
        }
    }

    /// A new note was made: select it, and hand the keyboard to the editor.
    pub fn created(&mut self, id: NoteId)
        requires
            old(self).wf(),
        ensures
            final(self).wf(),
            (*final(self) == Session { selected: Some(id), focus: Focus::Editor, ..*old(self) }),
    {
        self.selected = Some(id);
        self.focus = Focus::Editor;
    }

    /// The display order once `id` is made: on top, ahead of everything listed now.
    pub fn order_with_new(&self, id: &NoteId) -> (r: Vec<NoteId>)
        ensures
            ids_view(r@) == seq![id@] + metas_view(self.notes@),
    {
        with_new_on_top(id, self.notes.as_slice())
    }

    /// Rebuild the list from the manifest's lines and the disk's listing. The selection
    /// survives if its note still exists; otherwise it falls to whatever now occupies its
    /// old place, which keeps the cursor near where the user left it.
    pub fn refresh(&mut self, manifest: &[String], disk: &[NoteMeta])
        requires
            old(self).wf(),
        ensures
            final(self).wf(),
            metas_view(final(self).notes@) == spec_in_order(
                spec_reconcile(lines_view(manifest@), disk_entries(disk@)),
                metas_view(disk@),
            ),
            forall|i: int|
                0 <= i < final(self).notes@.len() ==> listed_in(#[trigger] final(self).notes@[i], disk@),
            opt_id(final(self).selected) == match spec_reselect(
                metas_view(final(self).notes@),
                opt_id(old(self).selected),
                spec_selected_index(metas_view(old(self).notes@), opt_id(old(self).selected)),
            ) {
                Some(i) => Some(metas_view(final(self).notes@)[i]),
                None => None,
            },
            (*final(self) == Session {
                notes: final(self).notes,
                selected: final(self).selected,
                ..*old(self)
            }),
    {
        let previous = self.selected_index();
        let ordered = reconcile(manifest, disk);
        let notes = in_order(ordered.as_slice(), disk);
        let sel = self.selected.as_ref();
        assert(match sel {
            Some(id) => Some(id@),
            None => None,
        } == opt_id(self.selected));
        let at = reselect(notes.as_slice(), sel, previous);
        proof {
            lemma_reselect_keeps_the_note(metas_view(notes@), opt_id(self.selected), previous);
        }
        let selected = match at {
            Some(i) => Some(notes[i].id.clone()),
            None => None,
        };
        self.notes = notes;
        self.selected = selected;
    }

    /// Move the selection `offset` rows, held inside the list. The answer is whether there
    /// was a selection to move.
    pub fn step_selection(&mut self, offset: isize) -> (r: bool)
        requires
            old(self).wf(),
        ensures
            final(self).wf(),
            match spec_selected_index(metas_view(old(self).notes@), opt_id(old(self).selected)) {
                None => !r && *final(self) == *old(self),
                Some(i) => r && opt_id(final(self).selected) == Some(
                    metas_view(old(self).notes@)[spec_offset_target(i, offset, old(self).notes@.len() as usize)],
                ) && (*final(self) == Session { selected: final(self).selected, ..*old(self) }),
            },
    {
        let current = match self.selected_index() {
            Some(i) => i,
            None => return false,
        };
        let target = offset_target(current, offset, self.notes.len());
        self.selected = Some(self.notes[target].id.clone());
        true
    }

    /// Is `id` in the list?
    pub fn lists(&self, id: &NoteId) -> (r: bool)
        ensures
            r == metas_view(self.notes@).contains(id@),
    {
        let ghost names = metas_view(self.notes@);
        let mut k: usize = 0;
        while k < self.notes.len()
            invariant
                k <= self.notes@.len(),
                names == metas_view(self.notes@),
                forall|j: int| 0 <= j < k ==> names[j] != id@,
            decreases self.notes@.len() - k,
        {
            if self.notes[k].id.same(id) {
                assert(names[k as int] == id@);
                return true;
            }
            k = k + 1;
        }
        false
    }

    /// What an external change to the open note `open` means for the session. A conflict
    /// takes the keyboard; over a deleted note the selection stays on it, so the list and the
    /// buffer talk about the same note while the user decides. Reloading, reporting and
    /// reopening are the buffer's business and leave the session as it is.
    pub fn meet_external_change(&mut self, open: &NoteId, outcome: OpenNoteOutcome)
        requires
            old(self).wf(),
        ensures
            final(self).wf(),
            match outcome {
                OpenNoteOutcome::Conflicted(Conflict::Changed) => (*final(self) == Session {
                    conflict: Some(Conflict::Changed),
                    help: None,
                    save_deadline: None,
                    ..*old(self)
                }),
                OpenNoteOutcome::Conflicted(Conflict::Deleted) => opt_id(final(self).selected) == Some(open@)
                    && (*final(self) == Session {
                    conflict: Some(Conflict::Deleted),
                    help: None,
                    save_deadline: None,
                    selected: final(self).selected,
                    ..*old(self)
                }),
                _ => *final(self) == *old(self),
            },
    {
        match outcome {
            OpenNoteOutcome::Conflicted(conflict) => {
                self.enter_conflict(conflict);
                if conflict == Conflict::Deleted {
                    self.selected = Some(open.clone());
                }
            },
            _ => {},
        }
    }

    /// The display order with the selected note moved one place up (`offset` below zero) or
    /// down; `None` without a selection.
    pub fn reordered(&self, offset: isize) -> (r: Option<Vec<NoteId>>)
        ensures
            match spec_selected_index(metas_view(self.notes@), opt_id(self.selected)) {
                None => r is None,
                Some(i) => r matches Some(v) && ids_view(v@) == if offset < 0 {
                    moved_up(metas_view(self.notes@), i as int)
                } else {
                    moved_down(metas_view(self.notes@), i as int)
                },
            },
    {
        let index = match self.selected_index() {
            Some(i) => i,
            None => return None,
        };
        let mut ids = names_in(self.notes.as_slice());
        if offset < 0 {
            move_up(ids.as_mut_slice(), index);
        } else {
            move_down(ids.as_mut_slice(), index);
        }
        Some(ids)
    }
}

/// What a refused quit adds to the reason, so the user knows the way out.
pub const QUIT_AGAIN_HINT: &'static str = " \u{2014} press ^Q again to quit anyway";

/// Where the selection `selected` sits among `names`, if it is there.
pub open spec fn spec_selected_index(names: Seq<Seq<char>>, selected: Option<Seq<char>>) -> Option<usize> {
    match selected {
        None => None,
        Some(id) => match spec_index_of(names, id) {
            Some(i) => Some(i as usize),
            None => None,
        },
    }
}

/// The first step a quit takes from `s`.
pub open spec fn quit_step_of(s: Session) -> QuitStep {
    if s.quit_forced || s.conflict is Some {
        QuitStep::Leave
    } else {
        QuitStep::SaveFirst
    }
}

/// A quit refused because its save failed lets the next one through: once refused, the
/// second attempt leaves whatever the workspace does.
pub proof fn lemma_a_refused_quit_lets_the_next_one_through(s: Session, status: Option<String>)
    ensures
        quit_step_of(Session { quit_forced: true, status: status, ..s }) == QuitStep::Leave,
{
}

/// However the panel was driven (opened, moved, jumped, scrolled, searched, typed into,
/// resized), its cursor is on a listed row and its view inside the list. `new` gives a
/// well-formed session and every method of a session keeps it well-formed, so this holds
/// after any sequence of calls: the cursor is at most the last listed row (0 when none is),
/// and the first line shown leaves at least a window of lines (the frame's height less
/// three, and at least one) below it, unless it is the first line.
pub proof fn lemma_a_session_keeps_its_panel_in_bounds(s: Session)
    requires
        s.wf(),
    ensures
        s.help matches Some(h) ==> panel_in_bounds(h@, s.size.1),
        s.help matches Some(h) ==> {
            let rows = crate::keys::row_count(crate::panel::listed_view(h@.2));
            let lines = crate::keys::line_count(crate::panel::listed_view(h@.2));
            &&& h@.0 <= if rows > 0 { rows - 1 } else { 0 }
            &&& h@.1 <= if lines > crate::panel::window_for(s.size.1) { lines - crate::panel::window_for(s.size.1) } else { 0 }
        },
{
}

/// A conflicted session never has a save armed, and arming one changes nothing: an external
/// change waiting on the user cannot be overwritten by autosave.
pub proof fn lemma_a_conflict_holds_autosave(s: Session)
    requires
        s.wf(),
        s.conflict is Some,
    ensures
        s.save_deadline is None,
{
}

} // verus!
