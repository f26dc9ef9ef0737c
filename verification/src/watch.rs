//! What a filesystem event means for the notes.
//!
//! The watcher thread, the debouncer and the existence checks are the caller's; the mapping
//! from a raw event onto store events, and the collapsing of repeats, are decided here.

use vstd::prelude::*;

use crate::note::{NoteId, valid_note_name};
use crate::paths::{components, lemma_components_of_a_child, spec_join};
use crate::store::StoreEvent;
use crate::text::string_of;

verus! {

/// How long changes are collected before being reported, in milliseconds.
pub const DEBOUNCE_WINDOW_MS: u64 = 500;

/// What the platform says happened, as far as the mapping needs to know.
#[derive(Debug, Clone, Copy, PartialEq, Eq, Structural)]
pub enum RawKind {
    /// Opening or reading a file.
    Access,
    Create,
    Remove,
    /// A rename with both halves correlated: from the first path to the second.
    RenameBoth,
    /// The old half of a rename.
    RenameFrom,
    /// The new half of a rename.
    RenameTo,
    /// A rename the backend could not say more about.
    RenameOther,
    /// Any other modification: data, metadata.
    Modify,
    /// The backend does not know what happened.
    Any,
    Other,
}

/// A raw event: its kind and the paths it names.
#[derive(Debug)]
pub struct RawEvent {
    pub kind: RawKind,
    pub paths: Vec<String>,
}

/// The note a path refers to, if it is one: a valid note name directly inside `root`.
///
/// The workspace is flat, so anything nested (`.scratchbox/order` included) has the wrong
/// parent, and hidden names, which covers cloud sidecars and in-flight temp files, are not
/// note names.
pub open spec fn spec_note_in_root(path: Seq<char>, root: Seq<char>) -> Option<Seq<char>> {
    let c = components(path);
    let rc = components(root);
    if c.len() == rc.len() + 1 && c.take(rc.len() as int) == rc && c.last() != seq!['/']
        && c.last() != seq!['.', '.'] && valid_note_name(c.last()) {
        Some(c.last())
    } else {
        None
    }
}

pub fn note_in_root(path: &str, root: &str) -> (r: Option<NoteId>)
    ensures
        r is Some <==> spec_note_in_root(path@, root@) is Some,
        r matches Some(id) ==> id@ == spec_note_in_root(path@, root@).unwrap(),
{
    let c = crate::paths::component_list_of(path);
    let rc = crate::paths::component_list_of(root);
    let ghost cv = c@.map_values(|v: Vec<char>| v@);
    let ghost rv = rc@.map_values(|v: Vec<char>| v@);
    if c.len() == 0 || c.len() - 1 != rc.len() {
        return None;
    }
    let mut k: usize = 0;
    while k < rc.len()
        invariant
            k <= rc@.len(),
            c@.len() == rc@.len() + 1,
            cv == c@.map_values(|v: Vec<char>| v@),
            rv == rc@.map_values(|v: Vec<char>| v@),
            cv == components(path@),
            rv == components(root@),
            forall|j: int| 0 <= j < k ==> cv[j] == rv[j],
        decreases rc@.len() - k,
    {
        if !crate::order::chars_equal(c[k].as_slice(), rc[k].as_slice()) {
            assert(cv.take(rv.len() as int)[k as int] != rv[k as int]);
            return None;
        }
        k = k + 1;
    }
    assert(cv.take(rv.len() as int) =~= rv);
    let last = &c[c.len() - 1];
    assert(last@ == cv.last());
    if (last.len() == 1 && last[0] == '/') || (last.len() == 2 && last[0] == '.' && last[1] == '.') {
        proof {
            if last@.len() == 1 {
                assert(last@ =~= seq!['/']);
            } else {
                assert(last@ =~= seq!['.', '.']);
            }
        }
        return None;
    }
    proof {
        assert(last@ != seq!['/']);
        assert(last@ != seq!['.', '.']);
    }
    let name = string_of(last.as_slice());
    match NoteId::new(name.as_str()) {
        Ok(id) => Some(id),
        Err(_) => None,
    }
}

pub open spec fn note_at(event: RawEvent, root: Seq<char>, i: int) -> Option<Seq<char>> {
    if 0 <= i < event.paths@.len() {
        spec_note_in_root(event.paths@[i]@, root)
    } else {
        None
    }
}

/// A store event as the contracts see it: a kind (created, modified, removed, renamed,
/// rescan) and the names it carries.
pub open spec fn event_view(e: StoreEvent) -> (int, Seq<char>, Seq<char>) {
    match e {
        StoreEvent::Created(id) => (0, id@, Seq::empty()),
        StoreEvent::Modified(id) => (1, id@, Seq::empty()),
        StoreEvent::Removed(id) => (2, id@, Seq::empty()),
        StoreEvent::Renamed { from, to } => (3, from@, to@),
        StoreEvent::Rescan => (4, Seq::empty(), Seq::empty()),
    }
}

pub open spec fn events_view(events: Seq<StoreEvent>) -> Seq<(int, Seq<char>, Seq<char>)> {
    events.map_values(|e: StoreEvent| event_view(e))
}

pub open spec fn one_if(note: Option<Seq<char>>, kind: int) -> Seq<(int, Seq<char>, Seq<char>)> {
    match note {
        Some(n) => seq![(kind, n, Seq::empty())],
        None => Seq::empty(),
    }
}

/// The event as the platform described it, before that description is checked against the
/// disk. An uninformative event asks for a rescan rather than being guessed at.
pub open spec fn spec_classify(event: RawEvent, root: Seq<char>) -> Seq<(int, Seq<char>, Seq<char>)> {
    let first = note_at(event, root, 0);
    let second = note_at(event, root, 1);
    match event.kind {
        RawKind::Access => Seq::empty(),
        RawKind::Create => one_if(first, 0),
        RawKind::Remove => one_if(first, 2),
        RawKind::RenameBoth => match (first, second) {
            (Some(from), Some(to)) => seq![(3, from, to)],
            (None, Some(to)) => seq![(1, to, Seq::empty())],
            (Some(from), None) => seq![(2, from, Seq::empty())],
            (None, None) => Seq::empty(),
        },
        RawKind::RenameFrom => one_if(first, 2),
        RawKind::RenameTo => one_if(first, 0),
        RawKind::RenameOther => one_if(first, 0),
        RawKind::Modify => one_if(first, 1),
        RawKind::Any | RawKind::Other => seq![(4, Seq::empty(), Seq::empty())],
    }
}

fn note_of(event: &RawEvent, root: &str, i: usize) -> (r: Option<NoteId>)
    ensures
        r is Some <==> note_at(*event, root@, i as int) is Some,
        r matches Some(id) ==> id@ == note_at(*event, root@, i as int).unwrap(),
{
    if i < event.paths.len() {
        note_in_root(event.paths[i].as_str(), root)
    } else {
        None
    }
}

fn single(e: StoreEvent) -> (r: Vec<StoreEvent>)
    ensures
        events_view(r@) == seq![event_view(e)],
{
    let mut v: Vec<StoreEvent> = Vec::new();
    v.push(e);
    assert(events_view(v@) =~= seq![event_view(e)]);
    v
}

fn nothing() -> (r: Vec<StoreEvent>)
    ensures
        events_view(r@) == Seq::<(int, Seq<char>, Seq<char>)>::empty(),
{
    let v: Vec<StoreEvent> = Vec::new();
    assert(events_view(v@) =~= Seq::<(int, Seq<char>, Seq<char>)>::empty());
    v
}

/// Map one raw event onto store events, dropping anything that is not a note.
pub fn classify(event: &RawEvent, root: &str) -> (r: Vec<StoreEvent>)
    ensures
        events_view(r@) == spec_classify(*event, root@),
{
    match event.kind {
        RawKind::Access => nothing(),
        RawKind::Create | RawKind::RenameTo | RawKind::RenameOther => match note_of(event, root, 0) {
            Some(id) => single(StoreEvent::Created(id)),
            None => nothing(),
        },
        RawKind::Remove | RawKind::RenameFrom => match note_of(event, root, 0) {
            Some(id) => single(StoreEvent::Removed(id)),
            None => nothing(),
        },
        RawKind::Modify => match note_of(event, root, 0) {
            Some(id) => single(StoreEvent::Modified(id)),
            None => nothing(),
        },
        RawKind::RenameBoth => {
            let first = note_of(event, root, 0);
            let second = note_of(event, root, 1);
            match (first, second) {
                (Some(from), Some(to)) => single(StoreEvent::Renamed { from, to }),
                (None, Some(to)) => single(StoreEvent::Modified(to)),
                (Some(from), None) => single(StoreEvent::Removed(from)),
                (None, None) => nothing(),
            }
        },
        RawKind::Any | RawKind::Other => single(StoreEvent::Rescan),
    }
}

/// The reported kind is a hint, the disk the authority: a creation or change of a file that
/// is not there is a removal (macOS reports a deleted file as a content change).
pub open spec fn spec_settle(e: (int, Seq<char>, Seq<char>), on_disk: bool) -> (int, Seq<char>, Seq<char>) {
    if (e.0 == 0 || e.0 == 1) && !on_disk {
        (2, e.1, e.2)
    } else {
        e
    }
}

/// Check one classified event against whether its note is on disk (`on_disk` is only
/// consulted for a creation or a change).
pub fn settle(event: StoreEvent, on_disk: bool) -> (r: StoreEvent)
    ensures
        event_view(r) == spec_settle(event_view(event), on_disk),
{
    match event {
        StoreEvent::Created(id) => if on_disk {
            StoreEvent::Created(id)
        } else {
            StoreEvent::Removed(id)
        },
        StoreEvent::Modified(id) => if on_disk {
            StoreEvent::Modified(id)
        } else {
            StoreEvent::Removed(id)
        },
        other => other,
    }
}

/// Are the two events the same change?
pub fn same_event(a: &StoreEvent, b: &StoreEvent) -> (r: bool)
    ensures
        r == (event_view(*a) == event_view(*b)),
{
    match (a, b) {
        (StoreEvent::Created(x), StoreEvent::Created(y)) => x.same(y),
        (StoreEvent::Modified(x), StoreEvent::Modified(y)) => x.same(y),
        (StoreEvent::Removed(x), StoreEvent::Removed(y)) => x.same(y),
        (StoreEvent::Renamed { from: f1, to: t1 }, StoreEvent::Renamed { from: f2, to: t2 }) => f1.same(
            f2,
        ) && t1.same(t2),
        (StoreEvent::Rescan, StoreEvent::Rescan) => true,
        _ => false,
    }
}

fn copy_event(e: &StoreEvent) -> (r: StoreEvent)
    ensures
        event_view(r) == event_view(*e),
{
    match e {
        StoreEvent::Created(id) => StoreEvent::Created(id.clone()),
        StoreEvent::Modified(id) => StoreEvent::Modified(id.clone()),
        StoreEvent::Removed(id) => StoreEvent::Removed(id.clone()),
        StoreEvent::Renamed { from, to } => StoreEvent::Renamed { from: from.clone(), to: to.clone() },
        StoreEvent::Rescan => StoreEvent::Rescan,
    }
}

/// The events with repeats dropped, first occurrences kept in order: one logical change can
/// surface as several raw events inside one batch.
pub open spec fn spec_collapse(events: Seq<(int, Seq<char>, Seq<char>)>) -> Seq<(int, Seq<char>, Seq<char>)>
    decreases events.len(),
{
    if events.len() == 0 {
        Seq::empty()
    } else {
        let prev = spec_collapse(events.drop_last());
        if prev.contains(events.last()) {
            prev
        } else {
            prev.push(events.last())
        }
    }
}

pub fn collapse(events: &[StoreEvent]) -> (r: Vec<StoreEvent>)
    ensures
        events_view(r@) == spec_collapse(events_view(events@)),
{
    let ghost all = events_view(events@);
    let mut out: Vec<StoreEvent> = Vec::new();
    let mut k: usize = 0;
    assert(all.take(0) =~= Seq::<(int, Seq<char>, Seq<char>)>::empty());
    while k < events.len()
        invariant
            k <= events@.len(),
            all == events_view(events@),
            events_view(out@) == spec_collapse(all.take(k as int)),
        decreases events@.len() - k,
    {
        proof {
            assert(all.take(k + 1).drop_last() =~= all.take(k as int));
            assert(all.take(k + 1).last() == all[k as int]);
        }
        let mut seen = false;
        let mut j: usize = 0;
        while j < out.len()
            invariant
                j <= out@.len(),
                k < events@.len(),
                all == events_view(events@),
                seen == exists|m: int| 0 <= m < j && events_view(out@)[m] == all[k as int],
            decreases out@.len() - j,
        {
            if same_event(&out[j], &events[k]) {
                assert(events_view(out@)[j as int] == all[k as int]);
                seen = true;
            }
            j = j + 1;
        }
        if !seen {
            let ghost before = events_view(out@);
            out.push(copy_event(&events[k]));
            assert(events_view(out@) =~= before.push(all[k as int]));
        }
        k = k + 1;
    }
    assert(all.take(events@.len() as int) =~= all);
    out
}

/// Events already forwarded, with the time each went out, so a change the platform reports
/// twice is reported once. Bounded by the debounce window: anything older is forgotten.
#[derive(Debug)]
pub struct RecentlyEmitted {
    sent: Vec<(StoreEvent, u64)>,
}

pub open spec fn fresh(entries: Seq<(StoreEvent, u64)>, now: u64) -> Seq<(StoreEvent, u64)> {
    entries.filter(|e: (StoreEvent, u64)| now - e.1 < DEBOUNCE_WINDOW_MS)
}

impl View for RecentlyEmitted {
    type V = Seq<(StoreEvent, u64)>;

    closed spec fn view(&self) -> Seq<(StoreEvent, u64)> {
        self.sent@
    }
}

impl RecentlyEmitted {
    pub fn new() -> (r: RecentlyEmitted)
        ensures
            r@ == Seq::<(StoreEvent, u64)>::empty(),
    {
        RecentlyEmitted { sent: Vec::new() }
    }

    /// Has this event already gone out inside the window ending at `now`? If not, it is
    /// recorded as going out now.
    pub fn already_reported(&mut self, event: &StoreEvent, now: u64) -> (r: bool)
        ensures
            r == exists|i: int|
                0 <= i < fresh(old(self)@, now).len() && event_view(#[trigger] fresh(old(self)@, now)[i].0)
                    == event_view(*event),
            !r ==> final(self)@.len() == fresh(old(self)@, now).len() + 1 && final(self)@.drop_last()
                == fresh(old(self)@, now) && event_view(final(self)@.last().0) == event_view(*event)
                && final(self)@.last().1 == now,
            r ==> final(self)@ == fresh(old(self)@, now),
    {
        let ghost orig = self.sent@;
        let ghost keep = |e: (StoreEvent, u64)| now - e.1 < DEBOUNCE_WINDOW_MS;
        let mut kept: Vec<(StoreEvent, u64)> = Vec::new();
        let mut old_sent: Vec<(StoreEvent, u64)> = Vec::new();
        std::mem::swap(&mut old_sent, &mut self.sent);
        assert(old_sent@ == orig);
        let total = old_sent.len();
        assert(orig.len() == total);
        let mut k: usize = 0;
        assert(orig.take(0).filter(keep) =~= Seq::<(StoreEvent, u64)>::empty());
        while old_sent.len() > 0
            invariant
                k <= orig.len(),
                k + old_sent@.len() == orig.len(),
                orig.len() <= usize::MAX,
                old_sent@ == orig.skip(k as int),
                kept@ == orig.take(k as int).filter(keep),
                keep == (|e: (StoreEvent, u64)| now - e.1 < DEBOUNCE_WINDOW_MS),
            decreases old_sent@.len(),
        {
            let entry = old_sent.remove(0);
            proof {
                assert(orig.skip(k as int)[0] == orig[k as int]);
                assert(orig.take(k + 1) =~= orig.take(k as int).push(orig[k as int]));
                orig.take(k as int).lemma_filter_push(orig[k as int], keep);
                assert(old_sent@ =~= orig.skip(k + 1));
            }
            let age = now.saturating_sub(entry.1);
            assert(age < DEBOUNCE_WINDOW_MS <==> keep(orig[k as int]));
            if age < DEBOUNCE_WINDOW_MS {
                kept.push(entry);
            }
            k = k + 1;
        }
        proof {
            assert(orig.skip(k as int).len() == 0);
            assert(orig.take(k as int) =~= orig);
        }
        let mut j: usize = 0;
        while j < kept.len()
            invariant
                j <= kept@.len(),
                orig == old(self)@,
                kept@ == fresh(orig, now),
                forall|m: int| 0 <= m < j ==> event_view(#[trigger] kept@[m].0) != event_view(*event),
            decreases kept@.len() - j,
        {
            if same_event(&kept[j].0, event) {
                assert(event_view(kept@[j as int].0) == event_view(*event));
                self.sent = kept;
                return true;
            }
            j = j + 1;
        }
        kept.push((copy_event(event), now));
        self.sent = kept;
        false
    }
}


/// A note's own path is recognised as that note: a valid note name joined onto the root
/// (with no separator at its end) names exactly that note, and a path one level further
/// down names none.
pub proof fn lemma_a_note_path_names_its_note(root: Seq<char>, n: Seq<char>, m: Seq<char>)
    requires
        root.len() > 0,
        root.last() != '/',
        valid_note_name(n),
        valid_note_name(m),
    ensures
        spec_note_in_root(spec_join(root, n), root) == Some(n),
        spec_note_in_root(spec_join(spec_join(root, n), m), root) is None,
{
    assert(n[0] != '/') by {
        if n[0] == '/' {
            assert(n.contains('/'));
        }
    }
    assert(m[0] != '/') by {
        if m[0] == '/' {
            assert(m.contains('/'));
        }
    }
    assert(n != seq!['.']) by {
        if n == seq!['.'] {
            assert(n[0] == '.');
        }
    }
    assert(m != seq!['.']) by {
        if m == seq!['.'] {
            assert(m[0] == '.');
        }
    }
    let p = spec_join(root, n);
    assert(p == root + seq!['/'] + n);
    lemma_components_of_a_child(root, n);
    assert(components(p).take(components(root).len() as int) =~= components(root));
    assert(n != seq!['/']) by {
        if n == seq!['/'] {
            assert(n[0] == '/');
        }
    }
    assert(n != seq!['.', '.']) by {
        if n == seq!['.', '.'] {
            assert(n[0] == '.');
        }
    }
    assert(p.last() == n.last());
    assert(n.last() != '/') by {
        if n.last() == '/' {
            assert(n[n.len() - 1] == '/');
            assert(n.contains('/'));
        }
    }
    let q = spec_join(p, m);
    assert(q == p + seq!['/'] + m);
    lemma_components_of_a_child(p, m);
}

/// What each kind of raw event reports when its first path is a note `n` directly in the
/// root: a creation (or the new half of a rename) as `n` created, a removal (or the old half
/// of a rename) as `n` removed, a modification as `n` modified, and a correlated rename into
/// another note `m` as the rename from `n` to `m`. An event whose path is not a note reports
/// nothing, unless the platform could not say what happened, which asks for a rescan.
pub proof fn lemma_each_kind_reports_its_change(event: RawEvent, root: Seq<char>, n: Seq<char>)
    requires
        event.paths@.len() > 0,
        spec_note_in_root(event.paths@[0]@, root) == Some(n),
    ensures
        ({
            let r = spec_classify(event, root);
            let e = Seq::<char>::empty();
            &&& (event.kind is Create || event.kind is RenameTo || event.kind is RenameOther) ==> r
                == seq![(0int, n, e)]
            &&& (event.kind is Remove || event.kind is RenameFrom) ==> r == seq![(2int, n, e)]
            &&& event.kind is Modify ==> r == seq![(1int, n, e)]
            &&& (event.kind is RenameBoth && event.paths@.len() > 1 && spec_note_in_root(
                event.paths@[1]@,
                root,
            ) is Some) ==> r == seq![(3int, n, spec_note_in_root(event.paths@[1]@, root).unwrap())]
            &&& event.kind is Access ==> r.len() == 0
            &&& (event.kind is Any || event.kind is Other) ==> r == seq![(4int, e, e)]
        }),
{
}

/// A correlated rename reports what it did to the notes: from a note to a note it is that
/// rename; from something else into a note, the note changed (it now holds what was moved
/// there); from a note to something else, the note is gone; between two non-notes, nothing.
pub proof fn lemma_a_correlated_rename_reports_the_notes(event: RawEvent, root: Seq<char>)
    requires
        event.kind is RenameBoth,
        event.paths@.len() >= 2,
    ensures
        ({
            let r = spec_classify(event, root);
            let a = spec_note_in_root(event.paths@[0]@, root);
            let b = spec_note_in_root(event.paths@[1]@, root);
            let e = Seq::<char>::empty();
            &&& (a is Some && b is Some) ==> r == seq![(3int, a.unwrap(), b.unwrap())]
            &&& (a is None && b is Some) ==> r == seq![(1int, b.unwrap(), e)]
            &&& (a is Some && b is None) ==> r == seq![(2int, a.unwrap(), e)]
            &&& (a is None && b is None) ==> r.len() == 0
        }),
{
}

/// An event about one path that is not a note directly in the root reports nothing: only
/// an event the platform could not describe asks for a rescan.
pub proof fn lemma_a_non_note_reports_nothing(event: RawEvent, root: Seq<char>)
    requires
        event.paths@.len() > 0 ==> spec_note_in_root(event.paths@[0]@, root) is None,
        !(event.kind is Any || event.kind is Other || event.kind is RenameBoth),
    ensures
        spec_classify(event, root).len() == 0,
{
}

/// A path that is not a note directly in the root never produces an event about a note.
pub proof fn lemma_other_paths_report_nothing(event: RawEvent, root: Seq<char>)
    requires
        forall|i: int| 0 <= i < event.paths@.len() ==> spec_note_in_root(#[trigger] event.paths@[i]@, root) is None,
    ensures
        forall|k: int| 0 <= k < spec_classify(event, root).len() ==> (#[trigger] spec_classify(event, root)[k]).0 == 4,
{
}

/// A collapsed batch reports each change once, and drops none.
pub proof fn lemma_collapse_reports_each_change_once(events: Seq<(int, Seq<char>, Seq<char>)>)
    ensures
        spec_collapse(events).no_duplicates(),
        forall|e: (int, Seq<char>, Seq<char>)| spec_collapse(events).contains(e) <==> events.contains(e),
    decreases events.len(),
{
    broadcast use vstd::seq_lib::group_seq_properties;

    if events.len() > 0 {
        let prev = events.drop_last();
        lemma_collapse_reports_each_change_once(prev);
        assert(events == prev.push(events.last()));
    }
}

/// A change reported once is reported again only after the window: the same event, inside
/// the window that began when it went out, is a repeat.
pub proof fn lemma_a_repeat_inside_the_window_is_recognized(
    entries: Seq<(StoreEvent, u64)>,
    event: StoreEvent,
    later: u64,
)
    requires
        entries.len() > 0,
        event_view(entries.last().0) == event_view(event),
        entries.last().1 <= later,
        later - entries.last().1 < DEBOUNCE_WINDOW_MS,
    ensures
        exists|i: int|
            0 <= i < fresh(entries, later).len() && event_view(#[trigger] fresh(entries, later)[i].0)
                == event_view(event),
{
    broadcast use vstd::seq_lib::group_filter_ensures;

    let keep = |e: (StoreEvent, u64)| later - e.1 < DEBOUNCE_WINDOW_MS;
    entries.lemma_filter_contains(keep, entries.len() - 1);
    assert(fresh(entries, later).contains(entries.last()));
}

} // verus!
