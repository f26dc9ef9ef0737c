//! The registry that stops the app from reacting to its own writes.
//!
//! Every save the app makes comes back as a filesystem event a moment later. Reloading the
//! note from that echo would overwrite whatever the user typed in the meantime, silently. So
//! each mutation is announced here *before* it touches the disk, and the watcher drops the
//! matching event when it arrives.
//!
//! Time is a monotonic reading in milliseconds that the caller passes in, and what the disk
//! holds for a note is a fingerprint the caller reads: the registry itself does no I/O.

use std::hash::BuildHasher;

use vstd::prelude::*;
use vstd::std_specs::cmp::PartialEqSpecImpl;
use vstd::string::StringSliceAdditionalSpecFns;

use crate::note::NoteId;
use crate::store::StoreEvent;

verus! {

/// How long a registration stays live, in milliseconds: the debounce window plus slack for
/// a slow disk.
pub const DEFAULT_TTL_MS: u64 = 2000;

/// How much of a note is hashed. A whole note is normally far smaller, so a normal
/// fingerprint covers every byte; the cap keeps a huge note on a slow mount from stalling
/// the event thread on a full read.
pub const FINGERPRINT_PREFIX: u64 = 65536;

/// Hashes the slice with a `DefaultHasher` from `DefaultHasher::new`, through
/// `BuildHasher::hash_one`. Nothing is stated of the value: std documents `DefaultHasher`'s
/// output as free to change between releases, and the data a slice feeds a hasher (its
/// length as a `usize` among it) as differing between platforms. The registry only ever
/// compares hashes made in one process.
#[verifier::external_body]
fn prefix_hash(prefix: &[u8]) -> (r: u64)
{
    std::hash::BuildHasherDefault::<std::collections::hash_map::DefaultHasher>::default().hash_one(
        prefix,
    )
}

/// The bytes of a content that its fingerprint hashes: the first [`FINGERPRINT_PREFIX`] of
/// them, or all of them when there are fewer.
pub open spec fn hashed_prefix(bytes: Seq<u8>) -> Seq<u8> {
    if bytes.len() < FINGERPRINT_PREFIX {
        bytes
    } else {
        bytes.take(FINGERPRINT_PREFIX as int)
    }
}

/// The opening bytes a fingerprint hashes, copied out of `bytes`.
pub fn fingerprint_prefix(bytes: &[u8]) -> (p: Vec<u8>)
    ensures
        p@ == hashed_prefix(bytes@),
{
    let cut: usize = if (bytes.len() as u64) < FINGERPRINT_PREFIX {
        bytes.len()
    } else {
        FINGERPRINT_PREFIX as usize
    };
    let mut prefix: Vec<u8> = Vec::new();
    let mut k: usize = 0;
    while k < cut
        invariant
            k <= cut <= bytes.len(),
            cut == hashed_prefix(bytes@).len(),
            prefix@ =~= bytes@.take(k as int),
        decreases cut - k,
    {
        prefix.push(bytes[k]);
        k = k + 1;
    }
    assert(prefix@ =~= hashed_prefix(bytes@));
    prefix
}

/// Identity of a file's contents: its length plus a hash of its opening bytes.
///
/// Length does real work here: every way of editing past the hashed prefix (appending,
/// truncating, inserting) moves it. `hashed` records, for the proofs, which bytes the hash
/// was taken of; two fingerprints are equal when their lengths and hashes are.
#[derive(Clone, Copy)]
pub struct Fingerprint {
    pub len: u64,
    pub prefix_hash: u64,
    pub hashed: Ghost<Seq<u8>>,
}

/// Do two fingerprints name the same content: equal lengths and equal hashes?
pub open spec fn same_content(a: Fingerprint, b: Fingerprint) -> bool {
    a.len == b.len && a.prefix_hash == b.prefix_hash
}

impl PartialEq for Fingerprint {
    fn eq(&self, other: &Self) -> (r: bool) {
        self.len == other.len && self.prefix_hash == other.prefix_hash
    }
}

impl PartialEqSpecImpl for Fingerprint {
    open spec fn obeys_eq_spec() -> bool {
        true
    }

    open spec fn eq_spec(&self, other: &Self) -> bool {
        same_content(*self, *other)
    }
}

impl Eq for Fingerprint {}

impl Fingerprint {
    /// Fingerprint a file's length and the bytes read from its start. The hash is the one
    /// this process's `DefaultHasher` gives exactly `prefix`; its value is not stated.
    pub fn new(len: u64, prefix: &[u8]) -> (r: Fingerprint)
        ensures
            r.len == len,
            r.hashed@ == prefix@,
    {
        Fingerprint { len, prefix_hash: prefix_hash(prefix), hashed: Ghost(prefix@) }
    }

    /// Fingerprint content held in memory, so registering a write costs no I/O: its length,
    /// and a hash of its first [`FINGERPRINT_PREFIX`] bytes.
    pub fn of_bytes(bytes: &[u8]) -> (r: Fingerprint)
        requires
            bytes.len() <= u64::MAX,
        ensures
            r.len == bytes@.len(),
            r.hashed@ == hashed_prefix(bytes@),
    {
        let prefix = fingerprint_prefix(bytes);
        Self::new(bytes.len() as u64, prefix.as_slice())
    }
}

/// What a registration stands for.
pub enum PendingKind {
    /// The note will hold exactly the content with this fingerprint.
    Write(Fingerprint),
    /// Registered against both names: platforms report the halves of a rename differently,
    /// and the debouncer may deliver one stitched event or a removal plus a creation.
    Rename { from: NoteId, to: NoteId },
}

/// One registration.
pub struct Pending {
    pub id: NoteId,
    pub kind: PendingKind,
    /// Live while the clock reads less than this.
    pub expires_at: u64,
}

/// The note a write or creation event is about.
pub open spec fn written_note(event: StoreEvent) -> Option<Seq<char>> {
    match event {
        StoreEvent::Modified(id) => Some(id@),
        StoreEvent::Created(id) => Some(id@),
        _ => None,
    }
}

/// A write entry for the event's note whose file can no longer be read (`on_disk` is
/// `None`). Failing open is deliberate: a spurious reload is cosmetic, a swallowed event is
/// data the user never sees.
pub open spec fn is_stale_write(entry: Pending, event: StoreEvent, on_disk: Option<Fingerprint>) -> bool {
    &&& entry.kind is Write
    &&& written_note(event) == Some(entry.id@)
    &&& on_disk is None
}

/// Does the entry account for the event?
///
/// A write matches on content, not just on name: an entry only silences an event whose
/// resulting content is exactly what was written, so a genuine external edit inside the
/// window still comes through. A rename matches either order of its two names stitched into
/// one event, the removal of the old name, and the creation of the new one.
pub open spec fn entry_matches(entry: Pending, event: StoreEvent, on_disk: Option<Fingerprint>) -> bool {
    match entry.kind {
        PendingKind::Write(expected) => written_note(event) == Some(entry.id@) && (on_disk matches Some(
            actual,
        ) && same_content(actual, expected)),
        PendingKind::Rename { from, to } => match event {
            StoreEvent::Renamed { from: a, to: b } => (from@ == a@ && to@ == b@) || (from@ == b@
                && to@ == a@),
            StoreEvent::Removed(id) => from@ == id@,
            StoreEvent::Created(id) => to@ == id@,
            _ => false,
        },
    }
}

/// The entries still live at `now`.
pub open spec fn live(entries: Seq<Pending>, now: u64) -> Seq<Pending> {
    entries.filter(|e: Pending| e.expires_at > now)
}

pub open spec fn is_first_stale(
    entries: Seq<Pending>,
    event: StoreEvent,
    on_disk: Option<Fingerprint>,
    i: int,
) -> bool {
    &&& 0 <= i < entries.len()
    &&& is_stale_write(entries[i], event, on_disk)
    &&& forall|j: int| 0 <= j < i ==> !is_stale_write(#[trigger] entries[j], event, on_disk)
}

/// The registry after an event at `now`, and whether the event is dropped.
///
/// Expired entries go first. A stale write entry for the event's note is then spent without
/// suppressing anything; otherwise the event is dropped when a live entry accounts for it,
/// and matching spends nothing: a registration is a statement about a state of the disk,
/// which stays true for as long as it is true, and one logical change can arrive as
/// several events.
pub open spec fn suppression(
    entries: Seq<Pending>,
    event: StoreEvent,
    on_disk: Option<Fingerprint>,
    now: u64,
) -> (Seq<Pending>, bool) {
    let l = live(entries, now);
    if exists|i: int| is_first_stale(l, event, on_disk, i) {
        (l.remove(choose|i: int| is_first_stale(l, event, on_disk, i)), false)
    } else {
        (l, exists|i: int| 0 <= i < l.len() && entry_matches(#[trigger] l[i], event, on_disk))
    }
}

/// Pending self-writes, consulted by the watcher before it forwards anything.
pub struct Suppressor {
    workspace: String,
    ttl_ms: u64,
    pending: Vec<Pending>,
}

impl View for Suppressor {
    type V = Seq<Pending>;

    closed spec fn view(&self) -> Seq<Pending> {
        self.pending@
    }
}

impl Suppressor {
    pub closed spec fn ttl(&self) -> u64 {
        self.ttl_ms
    }

    pub closed spec fn workspace_view(&self) -> Seq<char> {
        self.workspace@
    }

    /// A registry for the notes in `workspace`, with the default lifetime.
    pub fn new(workspace: String) -> (r: Suppressor)
        ensures
            r@ == Seq::<Pending>::empty(),
            renames_paired(r@),
            r.ttl() == DEFAULT_TTL_MS,
            r.workspace_view() == workspace@,
    {
        Self::with_ttl(workspace, DEFAULT_TTL_MS)
    }

    /// A registry whose entries live `ttl_ms` milliseconds.
    pub fn with_ttl(workspace: String, ttl_ms: u64) -> (r: Suppressor)
        ensures
            r@ == Seq::<Pending>::empty(),
            renames_paired(r@),
            r.ttl() == ttl_ms,
            r.workspace_view() == workspace@,
    {
        Suppressor { workspace, ttl_ms, pending: Vec::new() }
    }

    /// The workspace whose files the fingerprints are read from.
    pub fn workspace(&self) -> (r: &str)
        ensures
            r@ == self.workspace_view(),
    {
        self.workspace.as_str()
    }

    /// Announce a write of `content` to `id`, made at `now`, before making it.
    pub fn register_write(&mut self, id: &NoteId, content: &str, now: u64)
        requires
            content.spec_bytes().len() <= u64::MAX,
        ensures
            final(self).ttl() == old(self).ttl(),
            final(self).workspace_view() == old(self).workspace_view(),
            final(self)@.len() == old(self)@.len() + 1,
            final(self)@.drop_last() == old(self)@,
            final(self)@.last().id@ == id@,
            final(self)@.last().kind matches PendingKind::Write(fp) && fp.len == content.spec_bytes().len()
                && fp.hashed@ == hashed_prefix(content.spec_bytes()),
            final(self)@.last().expires_at == expiry(now, old(self).ttl()),
            registry_step(old(self)@, RegistryCall::Write { now }, final(self)@, old(self).ttl()),
            renames_paired(old(self)@) ==> renames_paired(final(self)@),
    {
        let fp = Fingerprint::of_bytes(content.as_bytes());
        let entry = Pending {
            id: id.clone(),
            kind: PendingKind::Write(fp),
            expires_at: now.saturating_add(self.ttl_ms),
        };
        self.pending.push(entry);
        assert(self.pending@.drop_last() =~= old(self).pending@);
        proof {
            if renames_paired(old(self)@) {
                assert(self.pending@.take(old(self)@.len() as int) =~= old(self)@);
                lemma_paired_grow(old(self)@, self.pending@);
            }
        }
    }

    /// Announce a rename from `from` to `to`, made at `now`, before making it. Both names
    /// are registered.
    pub fn register_rename(&mut self, from: &NoteId, to: &NoteId, now: u64)
        ensures
            final(self).ttl() == old(self).ttl(),
            final(self).workspace_view() == old(self).workspace_view(),
            final(self)@.len() == old(self)@.len() + 2,
            final(self)@.take(old(self)@.len() as int) == old(self)@,
            registers_rename(final(self)@[old(self)@.len() as int], from@, to@, from@, expiry(now, old(self).ttl())),
            registers_rename(final(self)@[old(self)@.len() as int + 1], from@, to@, to@, expiry(now, old(self).ttl())),
            registry_step(old(self)@, RegistryCall::Rename { now }, final(self)@, old(self).ttl()),
            renames_paired(old(self)@) ==> renames_paired(final(self)@),
    {
        let expires_at = now.saturating_add(self.ttl_ms);
        let ghost before = self.pending@;
        self.pending.push(Pending {
            id: from.clone(),
            kind: PendingKind::Rename { from: from.clone(), to: to.clone() },
            expires_at,
        });
        self.pending.push(Pending {
            id: to.clone(),
            kind: PendingKind::Rename { from: from.clone(), to: to.clone() },
            expires_at,
        });
        assert(self.pending@.take(before.len() as int) =~= before);
        proof {
            if renames_paired(before) {
                lemma_paired_rename_push(before, self.pending@, from@, to@, expires_at);
            }
        }
    }

    /// Should this event be dropped as an echo of the app's own work? `on_disk` is the
    /// fingerprint of the file the event names, or `None` when it cannot be read; it is only
    /// consulted for a write or creation event.
    pub fn should_suppress(&mut self, event: &StoreEvent, on_disk: Option<Fingerprint>, now: u64) -> (r: bool)
        ensures
            final(self).ttl() == old(self).ttl(),
            final(self).workspace_view() == old(self).workspace_view(),
            (final(self)@, r) == suppression(old(self)@, *event, on_disk, now),
            registry_step(
                old(self)@,
                RegistryCall::Event { event: *event, on_disk, now },
                final(self)@,
                old(self).ttl(),
            ),
            renames_paired(old(self)@) ==> renames_paired(final(self)@),
    {
        proof {
            if renames_paired(old(self)@) {
                lemma_paired_event(old(self)@, *event, on_disk, now);
            }
        }
        self.sweep(now);
        let ghost l = self.pending@;
        let mut k: usize = 0;
        while k < self.pending.len()
            invariant
                k <= self.pending@.len(),
                self.pending@ == l,
                l == live(old(self)@, now),
                renames_paired(old(self)@) ==> renames_paired(
                    suppression(old(self)@, *event, on_disk, now).0,
                ),
                self.ttl() == old(self).ttl(),
                self.workspace_view() == old(self).workspace_view(),
                forall|j: int| 0 <= j < k ==> !is_stale_write(#[trigger] l[j], *event, on_disk),
            decreases self.pending@.len() - k,
        {
            if self.is_stale_write(&self.pending[k], event, &on_disk) {
                proof {
                    assert(is_first_stale(l, *event, on_disk, k as int));
                    let c = choose|c: int| is_first_stale(l, *event, on_disk, c);
                    assert(c == k as int);
                }
                self.pending.remove(k);
                assert(self.pending@ =~= l.remove(k as int));
                return false;
            }
            k = k + 1;
        }
        assert(!exists|c: int| is_first_stale(l, *event, on_disk, c));
        let mut k: usize = 0;
        while k < self.pending.len()
            invariant
                k <= self.pending@.len(),
                self.pending@ == l,
                l == live(old(self)@, now),
                renames_paired(old(self)@) ==> renames_paired(
                    suppression(old(self)@, *event, on_disk, now).0,
                ),
                self.ttl() == old(self).ttl(),
                self.workspace_view() == old(self).workspace_view(),
                !exists|c: int| is_first_stale(l, *event, on_disk, c),
                forall|j: int| 0 <= j < k ==> !entry_matches(#[trigger] l[j], *event, on_disk),
            decreases self.pending@.len() - k,
        {
            if self.matches(&self.pending[k], event, &on_disk) {
                assert(entry_matches(l[k as int], *event, on_disk));
                return true;
            }
            k = k + 1;
        }
        false
    }

    /// Live entries at `now`, after dropping the expired ones. Exposed so a caller can see the
    /// registry does not grow without bound.
    pub fn len(&mut self, now: u64) -> (r: usize)
        ensures
            final(self).ttl() == old(self).ttl(),
            final(self).workspace_view() == old(self).workspace_view(),
            final(self)@ == live(old(self)@, now),
            r == final(self)@.len(),
            registry_step(old(self)@, RegistryCall::Sweep { now }, final(self)@, old(self).ttl()),
            renames_paired(old(self)@) ==> renames_paired(final(self)@),
    {
        proof {
            if renames_paired(old(self)@) {
                lemma_paired_live(old(self)@, now);
            }
        }
        self.sweep(now);
        self.pending.len()
    }

    pub fn is_empty(&mut self, now: u64) -> (r: bool)
        ensures
            final(self).ttl() == old(self).ttl(),
            final(self).workspace_view() == old(self).workspace_view(),
            final(self)@ == live(old(self)@, now),
            r == (final(self)@.len() == 0),
            registry_step(old(self)@, RegistryCall::Sweep { now }, final(self)@, old(self).ttl()),
            renames_paired(old(self)@) ==> renames_paired(final(self)@),
    {
        proof {
            if renames_paired(old(self)@) {
                lemma_paired_live(old(self)@, now);
            }
        }
        self.len(now) == 0
    }

    /// Drop the entries expired at `now`. Cheap, and done on every event.
    pub fn sweep(&mut self, now: u64)
        ensures
            final(self).ttl() == old(self).ttl(),
            final(self).workspace_view() == old(self).workspace_view(),
            final(self)@ == live(old(self)@, now),
            registry_step(old(self)@, RegistryCall::Sweep { now }, final(self)@, old(self).ttl()),
            renames_paired(old(self)@) ==> renames_paired(final(self)@),
    {
        proof {
            if renames_paired(old(self)@) {
                lemma_paired_live(old(self)@, now);
            }
        }
        let ghost orig = self.pending@;
        let ghost keep = |e: Pending| e.expires_at > now;
        let mut i: usize = 0;
        let ghost mut j: int = 0;
        assert(orig.take(0).filter(keep) =~= Seq::<Pending>::empty());
        assert(orig.skip(0) =~= orig);
        while i < self.pending.len()
            invariant
                0 <= j <= orig.len(),
                i <= self.pending@.len(),
                keep == (|e: Pending| e.expires_at > now),
                self.pending@.take(i as int) == orig.take(j).filter(keep),
                self.pending@.skip(i as int) == orig.skip(j),
                self.ttl_ms == old(self).ttl_ms,
                self.workspace == old(self).workspace,
            decreases self.pending@.len() - i,
        {
            let ghost before = self.pending@;
            proof {
                assert(before.skip(i as int).len() > 0);
                assert(orig.skip(j).len() == orig.len() - j);
                assert(j < orig.len());
                assert(orig.skip(j)[0] == orig[j]);
                assert(before.skip(i as int)[0] == before[i as int]);
                assert(orig.take(j + 1) =~= orig.take(j).push(orig[j]));
                orig.take(j).lemma_filter_push(orig[j], keep);
                assert(orig[j] == before.skip(i as int)[0]);
            }
            if self.pending[i].expires_at > now {
                proof {
                    assert(self.pending@.take(i + 1) =~= before.take(i as int).push(before[i as int]));
                    assert(before.skip(i + 1) =~= before.skip(i as int).drop_first());
                    assert(orig.skip(j + 1) =~= orig.skip(j).drop_first());
                    assert(self.pending@.skip(i + 1) =~= orig.skip(j + 1));
                    j = j + 1;
                }
                i = i + 1;
            } else {
                self.pending.remove(i);
                proof {
                    assert(self.pending@.take(i as int) =~= before.take(i as int));
                    assert(before.skip(i + 1) =~= before.skip(i as int).drop_first());
                    assert(orig.skip(j + 1) =~= orig.skip(j).drop_first());
                    assert(self.pending@.skip(i as int) =~= before.skip(i + 1));
                    assert(self.pending@.skip(i as int) =~= orig.skip(j + 1));
                    j = j + 1;
                }
            }
        }
        proof {
            assert(self.pending@.take(i as int) =~= self.pending@);
            assert(orig.skip(j).len() == 0);
            assert(orig.take(j) =~= orig);
        }
    }

    fn matches(&self, entry: &Pending, event: &StoreEvent, on_disk: &Option<Fingerprint>) -> (r: bool)
        ensures
            r == entry_matches(*entry, *event, *on_disk),
    {
        match &entry.kind {
            PendingKind::Write(expected) => {
                let named = match event {
                    StoreEvent::Modified(id) => id.same(&entry.id),
                    StoreEvent::Created(id) => id.same(&entry.id),
                    _ => false,
                };
                named && match on_disk {
                    Some(actual) => *actual == *expected,
                    None => false,
                }
            },
            PendingKind::Rename { from, to } => match event {
                StoreEvent::Renamed { from: a, to: b } => (from.same(a) && to.same(b)) || (from.same(
                    b,
                ) && to.same(a)),
                StoreEvent::Removed(id) => from.same(id),
                StoreEvent::Created(id) => to.same(id),
                _ => false,
            },
        }
    }

    fn is_stale_write(&self, entry: &Pending, event: &StoreEvent, on_disk: &Option<Fingerprint>) -> (r: bool)
        ensures
            r == is_stale_write(*entry, *event, *on_disk),
    {
        match &entry.kind {
            PendingKind::Write(_) => {
                let named = match event {
                    StoreEvent::Modified(id) => id.same(&entry.id),
                    StoreEvent::Created(id) => id.same(&entry.id),
                    _ => false,
                };
                named && on_disk.is_none()
            },
            PendingKind::Rename { .. } => false,
        }
    }
}

/// When an entry registered at `now` stops being live.
pub open spec fn expiry(now: u64, ttl: u64) -> u64 {
    if now + ttl > u64::MAX {
        u64::MAX
    } else {
        (now + ttl) as u64
    }
}

/// `entry` is the registration of a rename from `from` to `to` under the name `name`.
pub open spec fn registers_rename(
    entry: Pending,
    from: Seq<char>,
    to: Seq<char>,
    name: Seq<char>,
    expires_at: u64,
) -> bool {
    &&& entry.id@ == name
    &&& entry.expires_at == expires_at
    &&& match entry.kind {
        PendingKind::Rename { from: f, to: t } => f@ == from && t@ == to,
        _ => false,
    }
}


// --- laws ------------------------------------------------------------------------------------

proof fn lemma_live_contains(entries: Seq<Pending>, now: u64, i: int)
    requires
        0 <= i < entries.len(),
        entries[i].expires_at > now,
    ensures
        exists|k: int| 0 <= k < live(entries, now).len() && live(entries, now)[k] == entries[i],
{
    broadcast use vstd::seq_lib::group_filter_ensures;

    let keep = |e: Pending| e.expires_at > now;
    entries.lemma_filter_contains(keep, i);
    assert(live(entries, now).contains(entries[i]));
}

proof fn lemma_first_stale_exists(
    entries: Seq<Pending>,
    event: StoreEvent,
    on_disk: Option<Fingerprint>,
    i: int,
)
    requires
        0 <= i < entries.len(),
        is_stale_write(entries[i], event, on_disk),
    ensures
        exists|c: int| is_first_stale(entries, event, on_disk, c),
    decreases i,
{
    if exists|j: int| 0 <= j < i && is_stale_write(#[trigger] entries[j], event, on_disk) {
        let j = choose|j: int| 0 <= j < i && is_stale_write(#[trigger] entries[j], event, on_disk);
        lemma_first_stale_exists(entries, event, on_disk, j);
    } else {
        assert(is_first_stale(entries, event, on_disk, i));
    }
}

/// A rescan is never an echo: the registry can only ever silence deltas.
pub proof fn lemma_rescan_is_never_suppressed(
    entries: Seq<Pending>,
    on_disk: Option<Fingerprint>,
    now: u64,
)
    ensures
        !suppression(entries, StoreEvent::Rescan, on_disk, now).1,
{
}

/// Every event describing the app's own content is suppressed while the write is live, and
/// none of them spends the registration: only the clock does.
pub proof fn lemma_own_write_is_suppressed(
    entries: Seq<Pending>,
    i: int,
    event: StoreEvent,
    now: u64,
)
    requires
        0 <= i < entries.len(),
        entries[i].kind is Write,
        entries[i].expires_at > now,
        written_note(event) == Some(entries[i].id@),
    ensures
        ({
            let on_disk = Some(entries[i].kind->Write_0);
            suppression(entries, event, on_disk, now) == (live(entries, now), true)
        }),
{
    let on_disk = Some(entries[i].kind->Write_0);
    let l = live(entries, now);
    lemma_live_contains(entries, now, i);
    let k = choose|k: int| 0 <= k < l.len() && l[k] == entries[i];
    assert(entry_matches(l[k], event, on_disk));
    assert(!exists|c: int| is_first_stale(l, event, on_disk, c));
}

/// A write whose file has become unreadable spends its entry without suppressing anything:
/// the content it stood for is gone, so the event describes a real change.
pub proof fn lemma_vanished_write_is_spent(
    entries: Seq<Pending>,
    i: int,
    event: StoreEvent,
    now: u64,
)
    requires
        0 <= i < entries.len(),
        entries[i].kind is Write,
        entries[i].expires_at > now,
        written_note(event) == Some(entries[i].id@),
    ensures
        !suppression(entries, event, None, now).1,
        suppression(entries, event, None, now).0.len() == live(entries, now).len() - 1,
{
    let l = live(entries, now);
    lemma_live_contains(entries, now, i);
    let k = choose|k: int| 0 <= k < l.len() && l[k] == entries[i];
    lemma_first_stale_exists(l, event, None, k);
}

/// A live rename is suppressed whether it arrives stitched into one event, in either order,
/// or split into the removal of the old name and the creation of the new one.
pub proof fn lemma_rename_is_suppressed(
    entries: Seq<Pending>,
    i: int,
    event: StoreEvent,
    on_disk: Option<Fingerprint>,
    now: u64,
)
    requires
        0 <= i < entries.len(),
        entries[i].expires_at > now,
        entries[i].kind matches PendingKind::Rename { from, to } && (match event {
            StoreEvent::Renamed { from: a, to: b } => (a@ == from@ && b@ == to@) || (a@ == to@
                && b@ == from@),
            StoreEvent::Removed(id) => id@ == from@,
            StoreEvent::Created(id) => id@ == to@ && on_disk is Some,
            _ => false,
        }),
    ensures
        suppression(entries, event, on_disk, now) == (live(entries, now), true),
{
    let l = live(entries, now);
    lemma_live_contains(entries, now, i);
    let k = choose|k: int| 0 <= k < l.len() && l[k] == entries[i];
    assert(entry_matches(l[k], event, on_disk));
    assert(!exists|c: int| is_first_stale(l, event, on_disk, c));
}

/// Entries expire: whatever the registry held, what survives a sweep at `now` is live at
/// `now`, and once the clock passes every expiry the registry is empty.
pub proof fn lemma_entries_expire(entries: Seq<Pending>, now: u64)
    ensures
        forall|k: int| 0 <= k < live(entries, now).len() ==> #[trigger] live(entries, now)[k].expires_at > now,
        (forall|k: int| 0 <= k < entries.len() ==> #[trigger] entries[k].expires_at <= now) ==> live(
            entries,
            now,
        ).len() == 0,
{
    broadcast use vstd::seq_lib::group_filter_ensures;

    let keep = |e: Pending| e.expires_at > now;
    assert forall|k: int| 0 <= k < live(entries, now).len() implies #[trigger] live(entries, now)[k].expires_at > now by {
        entries.lemma_filter_pred(keep, k);
    }
    if forall|k: int| 0 <= k < entries.len() ==> #[trigger] entries[k].expires_at <= now {
        if live(entries, now).len() > 0 {
            let x = live(entries, now)[0];
            entries.lemma_filter_pred(keep, 0);
            assert(live(entries, now)[0] == x);
            assert(live(entries, now).contains(x));
            entries.lemma_filter_contains_rev(keep, x);
            assert(entries.contains(x));
        }
    }
}

/// Does the event name `name`, in any of its parts?
pub open spec fn event_names(event: StoreEvent, name: Seq<char>) -> bool {
    match event {
        StoreEvent::Created(id) => id@ == name,
        StoreEvent::Modified(id) => id@ == name,
        StoreEvent::Removed(id) => id@ == name,
        StoreEvent::Renamed { from, to } => from@ == name || to@ == name,
        StoreEvent::Rescan => false,
    }
}

/// Does the event concern this registration: does it name the note the entry was made
/// under, or either name of a registered rename?
pub open spec fn concerns(entry: Pending, event: StoreEvent) -> bool {
    ||| event_names(event, entry.id@)
    ||| entry.kind matches PendingKind::Rename { from, to } && (event_names(event, from@)
        || event_names(event, to@))
}

/// An event that concerns no live registration is never suppressed, and spends nothing:
/// the registry only ever answers for the notes the app itself touched.
pub proof fn lemma_an_unrelated_event_passes(
    entries: Seq<Pending>,
    event: StoreEvent,
    on_disk: Option<Fingerprint>,
    now: u64,
)
    requires
        forall|k: int| 0 <= k < live(entries, now).len() ==> !concerns(#[trigger] live(entries, now)[k], event),
    ensures
        suppression(entries, event, on_disk, now) == (live(entries, now), false),
{
    let l = live(entries, now);
    assert forall|k: int| 0 <= k < l.len() implies !is_stale_write(#[trigger] l[k], event, on_disk) by {
        assert(!concerns(l[k], event));
    }
    assert(!exists|c: int| is_first_stale(l, event, on_disk, c));
    assert forall|k: int| 0 <= k < l.len() implies !entry_matches(#[trigger] l[k], event, on_disk) by {
        assert(!concerns(l[k], event));
    }
}

/// Every rename entry has its twin: the rename is registered under both of its names, with
/// one expiry, as `register_rename` leaves it. Every registry the methods produce is so.
pub open spec fn renames_paired(entries: Seq<Pending>) -> bool {
    forall|k: int| 0 <= k < entries.len() ==> paired_in(entries, #[trigger] entries[k])
}

/// A rename entry's two halves are both in `entries`; any other entry needs nothing.
pub open spec fn paired_in(entries: Seq<Pending>, e: Pending) -> bool {
    match e.kind {
        PendingKind::Rename { from, to } => has_half(entries, from@, to@, from@, e.expires_at)
            && has_half(entries, from@, to@, to@, e.expires_at),
        PendingKind::Write(_) => true,
    }
}

/// Some entry registers the rename from `from` to `to` under `name`, expiring at `at`.
pub open spec fn has_half(
    entries: Seq<Pending>,
    from: Seq<char>,
    to: Seq<char>,
    name: Seq<char>,
    at: u64,
) -> bool {
    exists|a: int| 0 <= a < entries.len() && registers_rename(#[trigger] entries[a], from, to, name, at)
}

proof fn lemma_half_in_live(
    entries: Seq<Pending>,
    from: Seq<char>,
    to: Seq<char>,
    name: Seq<char>,
    at: u64,
    now: u64,
)
    requires
        has_half(entries, from, to, name, at),
        at > now,
    ensures
        has_half(live(entries, now), from, to, name, at),
{
    let a = choose|a: int| 0 <= a < entries.len() && registers_rename(#[trigger] entries[a], from, to, name, at);
    lemma_live_contains(entries, now, a);
    let l = live(entries, now);
    let b = choose|b: int| 0 <= b < l.len() && l[b] == entries[a];
    assert(registers_rename(l[b], from, to, name, at));
}

proof fn lemma_paired_live(entries: Seq<Pending>, now: u64)
    requires
        renames_paired(entries),
    ensures
        renames_paired(live(entries, now)),
{
    broadcast use vstd::seq_lib::group_filter_ensures;

    let keep = |e: Pending| e.expires_at > now;
    let l = live(entries, now);
    assert forall|k: int| 0 <= k < l.len() implies paired_in(l, #[trigger] l[k]) by {
        entries.lemma_filter_pred(keep, k);
        assert(l.contains(l[k]));
        entries.lemma_filter_contains_rev(keep, l[k]);
        let m = choose|m: int| 0 <= m < entries.len() && entries[m] == l[k];
        assert(entries[m] == l[k]);
        if let PendingKind::Rename { from, to } = l[k].kind {
            lemma_half_in_live(entries, from@, to@, from@, l[k].expires_at, now);
            lemma_half_in_live(entries, from@, to@, to@, l[k].expires_at, now);
        }
    }
}

proof fn lemma_half_kept(
    before: Seq<Pending>,
    after: Seq<Pending>,
    from: Seq<char>,
    to: Seq<char>,
    name: Seq<char>,
    at: u64,
)
    requires
        has_half(before, from, to, name, at),
        forall|a: int| 0 <= a < before.len() && (#[trigger] before[a]).kind is Rename ==> exists|b: int|
            0 <= b < after.len() && after[b] == before[a],
    ensures
        has_half(after, from, to, name, at),
{
    let a = choose|a: int| 0 <= a < before.len() && registers_rename(#[trigger] before[a], from, to, name, at);
    assert(before[a].kind is Rename);
    let b = choose|b: int| 0 <= b < after.len() && after[b] == before[a];
    assert(registers_rename(after[b], from, to, name, at));
}

proof fn lemma_paired_grow(before: Seq<Pending>, after: Seq<Pending>)
    requires
        renames_paired(before),
        after.len() >= before.len(),
        after.take(before.len() as int) == before,
        forall|k: int| before.len() <= k < after.len() ==> (#[trigger] after[k]).kind is Write,
    ensures
        renames_paired(after),
{
    assert forall|a: int| 0 <= a < before.len() && (#[trigger] before[a]).kind is Rename implies exists|b: int|
        0 <= b < after.len() && after[b] == before[a] by {
        assert(after[a] == after.take(before.len() as int)[a]);
    }
    assert forall|k: int| 0 <= k < after.len() implies paired_in(after, #[trigger] after[k]) by {
        if let PendingKind::Rename { from, to } = after[k].kind {
            assert(k < before.len());
            assert(after[k] == before[k]) by {
                assert(after.take(before.len() as int)[k] == after[k]);
            }
            lemma_half_kept(before, after, from@, to@, from@, after[k].expires_at);
            lemma_half_kept(before, after, from@, to@, to@, after[k].expires_at);
        }
    }
}

proof fn lemma_paired_remove_write(entries: Seq<Pending>, i: int)
    requires
        renames_paired(entries),
        0 <= i < entries.len(),
        entries[i].kind is Write,
    ensures
        renames_paired(entries.remove(i)),
{
    let after = entries.remove(i);
    assert forall|a: int| 0 <= a < entries.len() && (#[trigger] entries[a]).kind is Rename implies exists|b: int|
        0 <= b < after.len() && after[b] == entries[a] by {
        if a < i {
            assert(after[a] == entries[a]);
        } else {
            assert(a != i);
            assert(after[a - 1] == entries[a]);
        }
    }
    assert forall|k: int| 0 <= k < after.len() implies paired_in(after, #[trigger] after[k]) by {
        if let PendingKind::Rename { from, to } = after[k].kind {
            let m = if k < i { k } else { k + 1 };
            assert(after[k] == entries[m]);
            lemma_half_kept(entries, after, from@, to@, from@, after[k].expires_at);
            lemma_half_kept(entries, after, from@, to@, to@, after[k].expires_at);
        }
    }
}

proof fn lemma_paired_rename_push(
    before: Seq<Pending>,
    after: Seq<Pending>,
    from: Seq<char>,
    to: Seq<char>,
    at: u64,
)
    requires
        renames_paired(before),
        after.len() == before.len() + 2,
        after.take(before.len() as int) == before,
        registers_rename(after[before.len() as int], from, to, from, at),
        registers_rename(after[before.len() + 1int], from, to, to, at),
    ensures
        renames_paired(after),
{
    let n = before.len() as int;
    assert forall|a: int| 0 <= a < before.len() && (#[trigger] before[a]).kind is Rename implies exists|b: int|
        0 <= b < after.len() && after[b] == before[a] by {
        assert(after.take(n)[a] == after[a]);
    }
    assert(registers_rename(after[n], from, to, from, at));
    assert(registers_rename(after[n + 1], from, to, to, at));
    assert forall|k: int| 0 <= k < after.len() implies paired_in(after, #[trigger] after[k]) by {
        if let PendingKind::Rename { from: f, to: t } = after[k].kind {
            if k < n {
                assert(after.take(n)[k] == after[k]);
                assert(paired_in(before, before[k]));
                lemma_half_kept(before, after, f@, t@, f@, after[k].expires_at);
                lemma_half_kept(before, after, f@, t@, t@, after[k].expires_at);
            }
        }
    }
}

/// Whatever an event does to the registry keeps its renames paired.
proof fn lemma_paired_event(
    entries: Seq<Pending>,
    event: StoreEvent,
    on_disk: Option<Fingerprint>,
    now: u64,
)
    requires
        renames_paired(entries),
    ensures
        renames_paired(suppression(entries, event, on_disk, now).0),
{
    let l = live(entries, now);
    lemma_paired_live(entries, now);
    if exists|i: int| is_first_stale(l, event, on_disk, i) {
        let k = choose|i: int| is_first_stale(l, event, on_disk, i);
        lemma_paired_remove_write(l, k);
    }
}

/// An event that names none of the notes the live registrations were made under is never
/// suppressed, and spends nothing: the registry only ever answers for the notes the app
/// itself touched. Every registry the methods produce pairs its renames, which is what
/// lets a rename's entries stand for both of its names.
pub proof fn lemma_an_event_naming_no_registration_passes(
    entries: Seq<Pending>,
    event: StoreEvent,
    on_disk: Option<Fingerprint>,
    now: u64,
)
    requires
        renames_paired(entries),
        forall|k: int| 0 <= k < live(entries, now).len() ==> !event_names(event, (#[trigger] live(entries, now)[k]).id@),
    ensures
        suppression(entries, event, on_disk, now) == (live(entries, now), false),
{
    let l = live(entries, now);
    lemma_paired_live(entries, now);
    assert forall|k: int| 0 <= k < l.len() implies !concerns(#[trigger] l[k], event) by {
        if let PendingKind::Rename { from, to } = l[k].kind {
            let a = choose|a: int| 0 <= a < l.len() && registers_rename(#[trigger] l[a], from@, to@, from@, l[k].expires_at);
            let b = choose|b: int| 0 <= b < l.len() && registers_rename(#[trigger] l[b], from@, to@, to@, l[k].expires_at);
            assert(!event_names(event, l[a].id@));
            assert(!event_names(event, l[b].id@));
        }
    }
    lemma_an_unrelated_event_passes(entries, event, on_disk, now);
}

/// A write registration only ever stands for the content it was made with: a write or
/// creation event whose file holds something else (another length or another hash) is never
/// accounted for by it, whatever name it carries.
pub proof fn lemma_other_content_is_no_echo_of_a_write(entry: Pending, event: StoreEvent, actual: Fingerprint)
    requires
        entry.kind is Write,
        !same_content(actual, entry.kind->Write_0),
    ensures
        !entry_matches(entry, event, Some(actual)),
{
}

/// Exactly what a registration accounts for. A write of `fp` under `id` accounts for a
/// modification or creation of `id` whose file holds that same content, and for nothing
/// else: not a removal, not a rename, not a rescan, not an event about another note, not an
/// unreadable file (which instead makes the entry stale, to be spent). A rename from `from` to `to` accounts for the rename stitched into one
/// event in either order, the removal of `from`, and the creation of `to`, and for nothing
/// else.
pub proof fn lemma_what_a_registration_accounts_for(
    entry: Pending,
    event: StoreEvent,
    on_disk: Option<Fingerprint>,
)
    ensures
        entry.kind matches PendingKind::Write(fp) ==> (entry_matches(entry, event, on_disk) <==> (
        ((event matches StoreEvent::Modified(x) && x@ == entry.id@) || (
        event matches StoreEvent::Created(x) && x@ == entry.id@)) && on_disk is Some
            && same_content(on_disk.unwrap(), fp))),
        entry.kind matches PendingKind::Rename { from, to } ==> (entry_matches(entry, event, on_disk)
            <==> ((event matches StoreEvent::Renamed { from: a, to: b } && ((a@ == from@ && b@
            == to@) || (a@ == to@ && b@ == from@))) || (event matches StoreEvent::Removed(x) && x@
            == from@) || (event matches StoreEvent::Created(x) && x@ == to@))),
        (event is Rescan) ==> !entry_matches(entry, event, on_disk),
        is_stale_write(entry, event, on_disk) <==> (entry.kind is Write && ((
        event matches StoreEvent::Modified(x) && x@ == entry.id@) || (event matches StoreEvent::Created(
            x,
        ) && x@ == entry.id@)) && on_disk is None),
{
}

/// An event is dropped only on the word of a registration still live at the time: one
/// whose expiry is later than `now` and which accounts for the event.
pub proof fn lemma_dropped_only_by_a_live_registration(
    entries: Seq<Pending>,
    event: StoreEvent,
    on_disk: Option<Fingerprint>,
    now: u64,
)
    ensures
        suppression(entries, event, on_disk, now).1 ==> exists|k: int|
            0 <= k < entries.len() && entries[k].expires_at > now && entry_matches(
                #[trigger] entries[k],
                event,
                on_disk,
            ),
{
    broadcast use vstd::seq_lib::group_filter_ensures;

    let keep = |e: Pending| e.expires_at > now;
    let l = live(entries, now);
    if suppression(entries, event, on_disk, now).1 {
        let k = choose|k: int| 0 <= k < l.len() && entry_matches(#[trigger] l[k], event, on_disk);
        entries.lemma_filter_pred(keep, k);
        assert(l.contains(l[k]));
        entries.lemma_filter_contains_rev(keep, l[k]);
        let m = choose|m: int| 0 <= m < entries.len() && entries[m] == l[k];
        assert(entry_matches(entries[m], event, on_disk));
    }
}

/// A registration made at `now` is live for exactly `ttl` milliseconds of the clock: while
/// the clock reads less than `now + ttl`, and no longer (a registration whose end would
/// pass the clock's range stays live to its end).
pub proof fn lemma_a_registration_lives_for_its_lifetime(now: u64, ttl: u64, t: u64)
    ensures
        now + ttl <= u64::MAX ==> (expiry(now, ttl) > t <==> t < now + ttl),
        now + ttl > u64::MAX ==> expiry(now, ttl) == u64::MAX,
{
}

/// With only write registrations live, an event whose file holds content none of them was
/// made with is forwarded: a creation or modification by someone else inside the window is
/// never mistaken for the app's own write.
pub proof fn lemma_other_content_is_forwarded(
    entries: Seq<Pending>,
    event: StoreEvent,
    actual: Fingerprint,
    now: u64,
)
    requires
        forall|k: int|
            0 <= k < live(entries, now).len() ==> (#[trigger] live(entries, now)[k]).kind is Write
                && !same_content(actual, live(entries, now)[k].kind->Write_0),
    ensures
        !suppression(entries, event, Some(actual), now).1,
        suppression(entries, event, Some(actual), now).0 == live(entries, now),
{
    let l = live(entries, now);
    assert(!exists|c: int| is_first_stale(l, event, Some(actual), c));
    assert forall|k: int| 0 <= k < l.len() implies !entry_matches(#[trigger] l[k], event, Some(actual)) by {
        lemma_other_content_is_no_echo_of_a_write(l[k], event, actual);
    }
}

/// What an event does to the registry, whatever it is: the expired entries go, and at most
/// one live entry more, a write for the event's note whose file can no longer be read. A
/// suppressed event spends nothing but expired entries: only the clock retires a
/// registration that matched.
pub proof fn lemma_only_a_stale_write_is_spent(
    entries: Seq<Pending>,
    event: StoreEvent,
    on_disk: Option<Fingerprint>,
    now: u64,
)
    ensures
        ({
            let (after, dropped) = suppression(entries, event, on_disk, now);
            let l = live(entries, now);
            &&& after == l || exists|k: int|
                0 <= k < l.len() && is_stale_write(#[trigger] l[k], event, on_disk) && after == l.remove(k)
            &&& dropped ==> after == l
        }),
{
    let l = live(entries, now);
    if exists|i: int| is_first_stale(l, event, on_disk, i) {
        let k = choose|i: int| is_first_stale(l, event, on_disk, i);
        assert(is_stale_write(l[k], event, on_disk));
    }
}

// --- runs of calls ---------------------------------------------------------------------------

/// A call on the registry as a run of calls sees it: which method, and the clock it read.
pub enum RegistryCall {
    /// `register_write` at `now`.
    Write { now: u64 },
    /// `register_rename` at `now`.
    Rename { now: u64 },
    /// `should_suppress` of `event`, with `on_disk` read for it, at `now`.
    Event { event: StoreEvent, on_disk: Option<Fingerprint>, now: u64 },
    /// `len`, `is_empty` or `sweep` at `now`.
    Sweep { now: u64 },
}

impl RegistryCall {
    /// The clock the call read.
    pub open spec fn at(self) -> u64 {
        match self {
            RegistryCall::Write { now } => now,
            RegistryCall::Rename { now } => now,
            RegistryCall::Event { now, .. } => now,
            RegistryCall::Sweep { now } => now,
        }
    }
}

/// `after` is what the call leaves of the entries `before`, in a registry whose entries live
/// `ttl`: what the contracts of the four methods say of it.
pub open spec fn registry_step(
    before: Seq<Pending>,
    call: RegistryCall,
    after: Seq<Pending>,
    ttl: u64,
) -> bool {
    match call {
        RegistryCall::Write { now } => {
            &&& after.len() == before.len() + 1
            &&& after.drop_last() == before
            &&& after.last().expires_at == expiry(now, ttl)
        },
        RegistryCall::Rename { now } => {
            &&& after.len() == before.len() + 2
            &&& after.take(before.len() as int) == before
            &&& after[before.len() as int].expires_at == expiry(now, ttl)
            &&& after[before.len() + 1int].expires_at == expiry(now, ttl)
        },
        RegistryCall::Event { event, on_disk, now } => after == suppression(
            before,
            event,
            on_disk,
            now,
        ).0,
        RegistryCall::Sweep { now } => after == live(before, now),
    }
}

/// How many of the entries the call makes are still live at `t`.
pub open spec fn made_live(call: RegistryCall, ttl: u64, t: u64) -> nat {
    match call {
        RegistryCall::Write { now } => if expiry(now, ttl) > t {
            1
        } else {
            0
        },
        RegistryCall::Rename { now } => if expiry(now, ttl) > t {
            2
        } else {
            0
        },
        _ => 0,
    }
}

/// How many entries that would still be live at `t` the call spends early: at most one, the
/// first write entry for the event's note whose file can no longer be read.
pub open spec fn spent_live(before: Seq<Pending>, call: RegistryCall, t: u64) -> nat {
    match call {
        RegistryCall::Event { event, on_disk, now } => {
            let l = live(before, now);
            if exists|i: int| is_first_stale(l, event, on_disk, i) {
                if l[choose|i: int| is_first_stale(l, event, on_disk, i)].expires_at > t {
                    1
                } else {
                    0
                }
            } else {
                0
            }
        },
        _ => 0,
    }
}

/// A run of calls on a registry made empty with lifetime `ttl`, on a clock that does not go
/// back: `states[k]` holds the entries before the `k`-th call, and `states[k + 1]` after it.
pub open spec fn is_run(states: Seq<Seq<Pending>>, calls: Seq<RegistryCall>, ttl: u64) -> bool {
    &&& states.len() == calls.len() + 1
    &&& states[0].len() == 0
    &&& forall|k: int|
        #![trigger calls[k]]
        0 <= k < calls.len() ==> registry_step(states[k], calls[k], states[k + 1], ttl)
    &&& forall|j: int, k: int|
        #![trigger calls[j], calls[k]]
        0 <= j <= k < calls.len() ==> calls[j].at() <= calls[k].at()
}

/// The entries the first `n` calls make that are still live at `t`.
pub open spec fn made_in_run(calls: Seq<RegistryCall>, ttl: u64, t: u64, n: nat) -> nat
    decreases n,
{
    if n == 0 {
        0
    } else {
        made_in_run(calls, ttl, t, (n - 1) as nat) + made_live(calls[n - 1], ttl, t)
    }
}

/// The entries the first `n` calls spend early that would still be live at `t`.
pub open spec fn spent_in_run(
    states: Seq<Seq<Pending>>,
    calls: Seq<RegistryCall>,
    t: u64,
    n: nat,
) -> nat
    decreases n,
{
    if n == 0 {
        0
    } else {
        spent_in_run(states, calls, t, (n - 1) as nat) + spent_live(states[n - 1], calls[n - 1], t)
    }
}

proof fn lemma_live_push(entries: Seq<Pending>, e: Pending, t: u64)
    ensures
        live(entries.push(e), t) == if e.expires_at > t {
            live(entries, t).push(e)
        } else {
            live(entries, t)
        },
{
    entries.lemma_filter_push(e, |x: Pending| x.expires_at > t);
}

proof fn lemma_live_of_live(entries: Seq<Pending>, now: u64, t: u64)
    requires
        now <= t,
    ensures
        live(live(entries, now), t) == live(entries, t),
    decreases entries.len(),
{
    if entries.len() == 0 {
        reveal(Seq::filter);
        assert(live(entries, now) =~= entries);
    } else {
        let rest = entries.drop_last();
        let e = entries.last();
        assert(rest.push(e) =~= entries);
        lemma_live_push(rest, e, now);
        lemma_live_push(rest, e, t);
        lemma_live_of_live(rest, now, t);
        if e.expires_at > now {
            lemma_live_push(live(rest, now), e, t);
        }
    }
}

proof fn lemma_live_remove(entries: Seq<Pending>, i: int, t: u64)
    requires
        0 <= i < entries.len(),
    ensures
        live(entries.remove(i), t).len() + (if entries[i].expires_at > t {
            1int
        } else {
            0int
        }) == live(entries, t).len(),
    decreases entries.len(),
{
    let rest = entries.drop_last();
    let e = entries.last();
    assert(rest.push(e) =~= entries);
    lemma_live_push(rest, e, t);
    if i == entries.len() - 1 {
        assert(entries.remove(i) =~= rest);
    } else {
        assert(rest.remove(i).push(e) =~= entries.remove(i));
        lemma_live_push(rest.remove(i), e, t);
        lemma_live_remove(rest, i, t);
    }
}

proof fn lemma_first_stale_unique(
    entries: Seq<Pending>,
    event: StoreEvent,
    on_disk: Option<Fingerprint>,
    i: int,
    j: int,
)
    requires
        is_first_stale(entries, event, on_disk, i),
        is_first_stale(entries, event, on_disk, j),
    ensures
        i == j,
{
    if i < j {
        assert(!is_stale_write(entries[i], event, on_disk));
    } else if j < i {
        assert(!is_stale_write(entries[j], event, on_disk));
    }
}

proof fn lemma_step_count(
    before: Seq<Pending>,
    call: RegistryCall,
    after: Seq<Pending>,
    ttl: u64,
    t: u64,
)
    requires
        registry_step(before, call, after, ttl),
        call.at() <= t,
    ensures
        live(after, t).len() + spent_live(before, call, t) == live(before, t).len() + made_live(
            call,
            ttl,
            t,
        ),
{
    match call {
        RegistryCall::Write { now } => {
            assert(before.push(after.last()) =~= after);
            lemma_live_push(before, after.last(), t);
        },
        RegistryCall::Rename { now } => {
            let n = before.len() as int;
            let mid = before.push(after[n]);
            assert(mid.push(after[n + 1]) =~= after);
            lemma_live_push(before, after[n], t);
            lemma_live_push(mid, after[n + 1], t);
        },
        RegistryCall::Event { event, on_disk, now } => {
            let l = live(before, now);
            lemma_live_of_live(before, now, t);
            if exists|i: int| is_first_stale(l, event, on_disk, i) {
                let i = choose|i: int| is_first_stale(l, event, on_disk, i);
                lemma_live_remove(l, i, t);
            }
        },
        RegistryCall::Sweep { now } => {
            lemma_live_of_live(before, now, t);
        },
    }
}

proof fn lemma_run_prefix(
    states: Seq<Seq<Pending>>,
    calls: Seq<RegistryCall>,
    ttl: u64,
    t: u64,
    n: nat,
)
    requires
        is_run(states, calls, ttl),
        n <= calls.len(),
        n > 0 ==> calls[n - 1].at() <= t,
    ensures
        live(states[n as int], t).len() + spent_in_run(states, calls, t, n) == made_in_run(
            calls,
            ttl,
            t,
            n,
        ),
    decreases n,
{
    if n == 0 {
        reveal(Seq::filter);
    } else {
        let k = n - 1;
        if k > 0 {
            assert(calls[k - 1].at() <= calls[k].at());
        }
        lemma_run_prefix(states, calls, ttl, t, k as nat);
        assert(registry_step(states[k], calls[k], states[k + 1], ttl));
        lemma_step_count(states[k], calls[k], states[k + 1], ttl, t);
    }
}

/// What `len` counts over any run of calls on a clock that does not go back: at a time `t`
/// no earlier than the last call, the live entries are the registrations made (one per
/// write, two per rename, each live for the lifetime from when it was made) that are still
/// live at `t`, less those an event spent early as stale writes. Nothing else removes one:
/// an event that matched spends nothing.
pub proof fn lemma_the_count_is_the_live_registrations(
    states: Seq<Seq<Pending>>,
    calls: Seq<RegistryCall>,
    ttl: u64,
    t: u64,
)
    requires
        is_run(states, calls, ttl),
        calls.len() > 0 ==> calls.last().at() <= t,
    ensures
        live(states.last(), t).len() + spent_in_run(states, calls, t, calls.len()) == made_in_run(
            calls,
            ttl,
            t,
            calls.len(),
        ),
{
    lemma_run_prefix(states, calls, ttl, t, calls.len());
}

} // verus!
