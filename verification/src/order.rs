//! Note order, persisted as one filename per line.
//!
//! The manifest is a *hint*; the disk is the truth. A missing, corrupt, or hand-mangled
//! manifest costs the user their chosen ordering and nothing else: every note is still there,
//! and reconciliation rebuilds a sensible order from modification times.

use vstd::prelude::*;
use vstd::multiset::Multiset;
use vstd::relations::{sorted_by, total_ordering};

use crate::naming::{spec_split_extension, spec_timestamp_prefix, split_extension, timestamp_prefix};
use crate::note::{NoteId, NoteMeta, valid_note_name};
use crate::paths::{join, spec_join};
use crate::slug::{
    first_index_of, is_unicode_whitespace, is_whitespace, lemma_first_index, lemma_first_index_none,
    trim_start_ws,
};
use crate::text::{chars_of, string_of};

verus! {

/// A note as reconciliation sees it: its name and its modification time.
pub type Entry = (Seq<char>, int);

// --- trimming ------------------------------------------------------------------------------

pub open spec fn trim_end_ws(s: Seq<char>) -> Seq<char>
    decreases s.len(),
{
    if s.len() > 0 && is_unicode_whitespace(s.last()) {
        trim_end_ws(s.drop_last())
    } else {
        s
    }
}

/// `str::trim`: Unicode whitespace dropped from both ends.
pub open spec fn spec_trim(s: Seq<char>) -> Seq<char> {
    trim_end_ws(trim_start_ws(s))
}

/// `spec_trim`, over characters.
pub fn trim_chars(v: &[char]) -> (r: Vec<char>)
    ensures
        r@ == spec_trim(v@),
{
    let mut i: usize = 0;
    assert(v@.skip(0) =~= v@);
    while i < v.len() && is_whitespace(v[i])
        invariant
            i <= v.len(),
            trim_start_ws(v@) == trim_start_ws(v@.skip(i as int)),
        decreases v.len() - i,
    {
        proof {
            assert(v@.skip(i as int).drop_first() =~= v@.skip(i + 1));
        }
        i = i + 1;
    }
    proof {
        if i == v.len() {
            assert(trim_start_ws(v@.skip(i as int)) =~= v@.skip(i as int));
        }
        assert(v@.skip(i as int) =~= v@.subrange(i as int, v.len() as int));
    }
    let mut j: usize = v.len();
    while j > i && is_whitespace(v[j - 1])
        invariant
            i <= j <= v.len(),
            trim_start_ws(v@) == v@.subrange(i as int, v.len() as int),
            spec_trim(v@) == trim_end_ws(v@.subrange(i as int, j as int)),
        decreases j,
    {
        proof {
            assert(v@.subrange(i as int, j as int).drop_last() =~= v@.subrange(i as int, j - 1));
        }
        j = j - 1;
    }
    let mut out: Vec<char> = Vec::new();
    let mut k: usize = i;
    while k < j
        invariant
            i <= k <= j <= v.len(),
            out@ =~= v@.subrange(i as int, k as int),
        decreases j - k,
    {
        out.push(v[k]);
        k = k + 1;
    }
    out
}

// --- the order notes are listed in ----------------------------------------------------------

/// Names ordered as `String`'s `Ord` orders them: lexicographically by character, which for
/// UTF-8 is the same as by byte.
pub open spec fn name_le(a: Seq<char>, b: Seq<char>) -> bool
    decreases a.len(),
{
    if a.len() == 0 {
        true
    } else if b.len() == 0 {
        false
    } else if a[0] != b[0] {
        a[0] < b[0]
    } else {
        name_le(a.drop_first(), b.drop_first())
    }
}

/// Newest first; the name breaks a tie, so two notes written in the same instant do not
/// swap places between runs.
pub open spec fn newest_first(a: Entry, b: Entry) -> bool {
    a.1 > b.1 || (a.1 == b.1 && name_le(a.0, b.0))
}

pub open spec fn newest_first_order() -> spec_fn(Entry, Entry) -> bool {
    |a: Entry, b: Entry| newest_first(a, b)
}

proof fn lemma_name_le_reflexive(a: Seq<char>)
    ensures
        name_le(a, a),
    decreases a.len(),
{
    if a.len() > 0 {
        lemma_name_le_reflexive(a.drop_first());
    }
}

#[verifier::spinoff_prover]
proof fn lemma_name_le_antisymmetric(a: Seq<char>, b: Seq<char>)
    requires
        name_le(a, b),
        name_le(b, a),
    ensures
        a == b,
    decreases a.len(),
{
    if a.len() == 0 {
        assert(a =~= b);
    } else {
        assert(b.len() > 0);
        assert(a[0] == b[0]);
        lemma_name_le_antisymmetric(a.drop_first(), b.drop_first());
        assert(a.drop_first() == b.drop_first());
        assert(a.drop_first().len() == b.drop_first().len());
        assert(a.len() == b.len());
        assert forall|i: int| 0 <= i < a.len() implies a[i] == b[i] by {
            if i > 0 {
                assert(a[i] == a.drop_first()[i - 1]);
                assert(b[i] == b.drop_first()[i - 1]);
            }
        }
        assert(a =~= b);
    }
}

proof fn lemma_name_le_transitive(a: Seq<char>, b: Seq<char>, c: Seq<char>)
    requires
        name_le(a, b),
        name_le(b, c),
    ensures
        name_le(a, c),
    decreases a.len(),
{
    if a.len() > 0 && b.len() > 0 && c.len() > 0 && a[0] == b[0] && b[0] == c[0] {
        lemma_name_le_transitive(a.drop_first(), b.drop_first(), c.drop_first());
    }
}

proof fn lemma_name_le_total(a: Seq<char>, b: Seq<char>)
    ensures
        name_le(a, b) || name_le(b, a),
    decreases a.len(),
{
    if a.len() > 0 && b.len() > 0 && a[0] == b[0] {
        lemma_name_le_total(a.drop_first(), b.drop_first());
    }
}

/// Newest-first is a total order on entries.
pub proof fn lemma_newest_first_is_total()
    ensures
        total_ordering(newest_first_order()),
{
    let r = newest_first_order();
    assert forall|x: Entry| #[trigger] r(x, x) by {
        lemma_name_le_reflexive(x.0);
    }
    assert forall|x: Entry, y: Entry| #[trigger] r(x, y) && #[trigger] r(y, x) implies x == y by {
        if x.1 == y.1 {
            lemma_name_le_antisymmetric(x.0, y.0);
        }
    }
    assert forall|x: Entry, y: Entry, z: Entry| #[trigger] r(x, y) && #[trigger] r(y, z) implies r(
        x,
        z,
    ) by {
        if x.1 == y.1 && y.1 == z.1 {
            lemma_name_le_transitive(x.0, y.0, z.0);
        }
    }
    assert forall|x: Entry, y: Entry| #[trigger] r(x, y) || #[trigger] r(y, x) by {
        lemma_name_le_total(x.0, y.0);
    }
}

/// `name_le`, over characters.
pub fn name_precedes(a: &[char], b: &[char]) -> (r: bool)
    ensures
        r == name_le(a@, b@),
{
    let mut i: usize = 0;
    assert(a@.skip(0) =~= a@);
    assert(b@.skip(0) =~= b@);
    while i < a.len() && i < b.len()
        invariant
            i <= a.len(),
            i <= b.len(),
            name_le(a@, b@) == name_le(a@.skip(i as int), b@.skip(i as int)),
        decreases a.len() - i,
    {
        if a[i] != b[i] {
            return a[i] < b[i];
        }
        proof {
            assert(a@.skip(i as int).drop_first() =~= a@.skip(i + 1));
            assert(b@.skip(i as int).drop_first() =~= b@.skip(i + 1));
        }
        i = i + 1;
    }
    a.len() <= b.len()
}


// --- reconciliation ------------------------------------------------------------------------

pub open spec fn entry_of(m: NoteMeta) -> Entry {
    (m.id@, m.modified as int)
}

/// The disk listing as reconciliation sees it.
pub open spec fn disk_entries(disk: Seq<NoteMeta>) -> Seq<Entry> {
    disk.map_values(|m: NoteMeta| entry_of(m))
}

pub open spec fn lines_view(lines: Seq<String>) -> Seq<Seq<char>> {
    lines.map_values(|s: String| s@)
}

pub open spec fn ids_view(ids: Seq<NoteId>) -> Seq<Seq<char>> {
    ids.map_values(|id: NoteId| id@)
}

pub open spec fn names_of(entries: Seq<Entry>) -> Seq<Seq<char>> {
    entries.map_values(|e: Entry| e.0)
}

/// The part of a name a rename leaves alone: the timestamp prefix and the extension.
pub open spec fn spec_rename_key(name: Seq<char>) -> Option<(Seq<char>, Option<Seq<char>>)> {
    match spec_timestamp_prefix(name) {
        Some(p) => Some((p, spec_split_extension(name).1)),
        None => None,
    }
}

/// `i` is the first entry named `id`.
pub open spec fn is_first_named(s: Seq<Entry>, id: Seq<char>, i: int) -> bool {
    &&& 0 <= i < s.len()
    &&& s[i].0 == id
    &&& forall|j: int| 0 <= j < i ==> s[j].0 != id
}

/// `i` is the one entry, and the only one, whose rename key is `key`.
pub open spec fn is_only_key_match(
    s: Seq<Entry>,
    key: (Seq<char>, Option<Seq<char>>),
    i: int,
) -> bool {
    &&& 0 <= i < s.len()
    &&& spec_rename_key(s[i].0) == Some(key)
    &&& forall|j: int| 0 <= j < s.len() && j != i ==> spec_rename_key(s[j].0) != Some(key)
}

/// The entry a missing name most likely turned into: the single one sharing its rename key.
/// Two candidates are not guessed between.
pub open spec fn repair_index(s: Seq<Entry>, missing: Seq<char>) -> Option<int> {
    match spec_rename_key(missing) {
        None => None,
        Some(key) => if exists|i: int| is_only_key_match(s, key, i) {
            Some(choose|i: int| is_only_key_match(s, key, i))
        } else {
            None
        },
    }
}

/// Where reconciliation stands after some lines: the notes not yet claimed (in disk order),
/// the claimed names (in claim order), and the names already seen.
pub type Tally = (Seq<Entry>, Seq<Seq<char>>, Seq<Seq<char>>);

/// One manifest line's effect. The line is trimmed and must be a valid note name seen for
/// the first time; it then claims the first unclaimed note of that name, or failing that
/// the one note its rename key points to, or nothing.
pub open spec fn claim_step(state: Tally, line: Seq<char>) -> Tally {
    let (unclaimed, remembered, seen) = state;
    let t = spec_trim(line);
    if !valid_note_name(t) || seen.contains(t) {
        state
    } else if exists|i: int| is_first_named(unclaimed, t, i) {
        let i = choose|i: int| is_first_named(unclaimed, t, i);
        (unclaimed.remove(i), remembered.push(t), seen.push(t))
    } else {
        match repair_index(unclaimed, t) {
            Some(i) => (unclaimed.remove(i), remembered.push(unclaimed[i].0), seen.push(t)),
            None => (unclaimed, remembered, seen.push(t)),
        }
    }
}

pub open spec fn claims(manifest: Seq<Seq<char>>, disk: Seq<Entry>) -> Tally
    decreases manifest.len(),
{
    if manifest.len() == 0 {
        (disk, Seq::empty(), Seq::empty())
    } else {
        claim_step(claims(manifest.drop_last(), disk), manifest.last())
    }
}

/// The merged order: the unclaimed notes newest first, then the claimed ones in manifest
/// order.
pub open spec fn spec_reconcile(manifest: Seq<Seq<char>>, disk: Seq<Entry>) -> Seq<Seq<char>> {
    let (unclaimed, remembered, _) = claims(manifest, disk);
    names_of(unclaimed.sort_by(newest_first_order())) + remembered
}


/// The entries an index list points at.
pub open spec fn picked(disk: Seq<NoteMeta>, idx: Seq<usize>) -> Seq<Entry> {
    idx.map_values(|i: usize| entry_of(disk[i as int]))
}

pub open spec fn in_bounds(idx: Seq<usize>, n: nat) -> bool {
    forall|k: int| 0 <= k < idx.len() ==> #[trigger] idx[k] < n
}

/// Is `id` among `ids`?
fn listed(ids: &Vec<NoteId>, id: &NoteId) -> (r: bool)
    ensures
        r == ids_view(ids@).contains(id@),
{
    let mut k: usize = 0;
    while k < ids.len()
        invariant
            k <= ids.len(),
            forall|j: int| 0 <= j < k ==> ids@[j]@ != id@,
        decreases ids.len() - k,
    {
        if ids[k].same(id) {
            assert(ids_view(ids@)[k as int] == id@);
            return true;
        }
        k = k + 1;
    }
    proof {
        if ids_view(ids@).contains(id@) {
            let j = choose|j: int| 0 <= j < ids_view(ids@).len() && ids_view(ids@)[j] == id@;
            assert(ids@[j]@ == id@);
        }
    }
    false
}

/// Position of the first unclaimed note named `id`.
fn first_named(disk: &[NoteMeta], unclaimed: &Vec<usize>, id: &NoteId) -> (r: Option<usize>)
    requires
        in_bounds(unclaimed@, disk@.len()),
    ensures
        r matches Some(j) ==> is_first_named(picked(disk@, unclaimed@), id@, j as int),
        r is None ==> forall|i: int|
            0 <= i < unclaimed@.len() ==> picked(disk@, unclaimed@)[i].0 != id@,
{
    let ghost u = picked(disk@, unclaimed@);
    let mut k: usize = 0;
    while k < unclaimed.len()
        invariant
            k <= unclaimed.len(),
            u == picked(disk@, unclaimed@),
            in_bounds(unclaimed@, disk@.len()),
            forall|j: int| 0 <= j < k ==> u[j].0 != id@,
        decreases unclaimed.len() - k,
    {
        let at = unclaimed[k];
        assert(unclaimed@[k as int] < disk@.len());
        if disk[at].id.same(id) {
            return Some(k);
        }
        k = k + 1;
    }
    None
}

pub open spec fn key_view(k: Option<(String, Option<String>)>) -> Option<(Seq<char>, Option<Seq<char>>)> {
    match k {
        Some((p, e)) => Some((
            p@,
            match e {
                Some(x) => Some(x@),
                None => None,
            },
        )),
        None => None,
    }
}

/// The part of a name a rename leaves alone: its timestamp prefix and its extension.
fn rename_key(name: &str) -> (r: Option<(String, Option<String>)>)
    ensures
        key_view(r) == spec_rename_key(name@),
{
    let (_, extension) = split_extension(name);
    match timestamp_prefix(name) {
        Some(p) => Some((p, extension)),
        None => None,
    }
}

fn same_key(a: &(String, Option<String>), b: &(String, Option<String>)) -> (r: bool)
    ensures
        r == (key_view(Some(*a)) == key_view(Some(*b))),
{
    if a.0 != b.0 {
        return false;
    }
    match (&a.1, &b.1) {
        (Some(x), Some(y)) => *x == *y,
        (None, None) => true,
        _ => false,
    }
}

/// The unclaimed note a missing entry most likely turned into.
///
/// A note is renamed once, on its first save with content, and a crash between that rename
/// and the manifest write leaves the manifest naming a file that no longer exists while an
/// apparently new file sits on disk. The correlation is the rename key; two candidates
/// sharing it are not guessed between.
fn renamed_to(missing: &NoteId, disk: &[NoteMeta], unclaimed: &Vec<usize>) -> (r: Option<usize>)
    requires
        in_bounds(unclaimed@, disk@.len()),
    ensures
        r matches Some(j) ==> repair_index(picked(disk@, unclaimed@), missing@) == Some(j as int),
        r is None ==> repair_index(picked(disk@, unclaimed@), missing@) is None,
{
    let ghost u = picked(disk@, unclaimed@);
    let wanted = match rename_key(missing.as_str()) {
        Some(k) => k,
        None => return None,
    };
    let ghost key = key_view(Some(wanted)).unwrap();
    let mut candidate: Option<usize> = None;
    let mut k: usize = 0;
    while k < unclaimed.len()
        invariant
            k <= unclaimed.len(),
            u == picked(disk@, unclaimed@),
            in_bounds(unclaimed@, disk@.len()),
            key == key_view(Some(wanted)).unwrap(),
            spec_rename_key(missing@) == Some(key),
            candidate is None ==> forall|j: int| 0 <= j < k ==> spec_rename_key(u[j].0) != Some(key),
            candidate matches Some(c) ==> c < k && spec_rename_key(u[c as int].0) == Some(key)
                && forall|j: int| 0 <= j < k && j != c ==> spec_rename_key(u[j].0) != Some(key),
        decreases unclaimed.len() - k,
    {
        let at = unclaimed[k];
        assert(unclaimed@[k as int] < disk@.len());
        let here = rename_key(disk[at].id.as_str());
        let hit = match &here {
            Some(h) => same_key(h, &wanted),
            None => false,
        };
        assert(hit == (spec_rename_key(u[k as int].0) == Some(key)));
        if hit {
            if candidate.is_some() {
                proof {
                    let c = candidate.unwrap() as int;
                    assert forall|i: int| !is_only_key_match(u, key, i) by {
                        if is_only_key_match(u, key, i) {
                            if i == c {
                                assert(spec_rename_key(u[k as int].0) == Some(key));
                            } else {
                                assert(spec_rename_key(u[c].0) == Some(key));
                            }
                        }
                    }
                }
                return None;
            }
            candidate = Some(k);
        }
        k = k + 1;
    }
    proof {
        match candidate {
            Some(c) => {
                assert(is_only_key_match(u, key, c as int));
                let w = choose|i: int| is_only_key_match(u, key, i);
                assert(w == c as int);
            },
            None => {
                assert forall|i: int| !is_only_key_match(u, key, i) by {}
            },
        }
    }
    candidate
}


pub open spec fn names_match(names: Seq<Vec<char>>, disk: Seq<NoteMeta>) -> bool {
    &&& names.len() == disk.len()
    &&& forall|i: int| 0 <= i < disk.len() ==> #[trigger] names[i]@ == disk[i].id@
}

/// Does the note at `a` go before the one at `b`, newest first?
fn goes_before(disk: &[NoteMeta], names: &Vec<Vec<char>>, a: usize, b: usize) -> (r: bool)
    requires
        a < disk.len(),
        b < disk.len(),
        names_match(names@, disk@),
    ensures
        r == newest_first(entry_of(disk@[a as int]), entry_of(disk@[b as int])),
{
    let ma = disk[a].modified;
    let mb = disk[b].modified;
    if ma != mb {
        ma > mb
    } else {
        assert(names@[a as int]@ == disk@[a as int].id@);
        assert(names@[b as int]@ == disk@[b as int].id@);
        name_precedes(&names[a], &names[b])
    }
}

/// The indices reordered newest first, name breaking a tie.
fn sort_newest_first(disk: &[NoteMeta], names: &Vec<Vec<char>>, idx: Vec<usize>) -> (r: Vec<usize>)
    requires
        in_bounds(idx@, disk@.len()),
        names_match(names@, disk@),
    ensures
        in_bounds(r@, disk@.len()),
        picked(disk@, r@) == picked(disk@, idx@).sort_by(newest_first_order()),
{
    broadcast use vstd::multiset::group_multiset_axioms;

    let ghost leq = newest_first_order();
    let ghost whole = picked(disk@, idx@);
    proof {
        lemma_newest_first_is_total();
    }
    let mut rest = idx;
    let mut out: Vec<usize> = Vec::new();
    proof {
        vstd::seq_lib::to_multiset_len(picked(disk@, out@));
        vstd::multiset::lemma_multiset_empty_len(picked(disk@, out@).to_multiset());
    }
    while rest.len() > 0
        invariant
            leq == newest_first_order(),
            total_ordering(leq),
            names_match(names@, disk@),
            in_bounds(rest@, disk@.len()),
            in_bounds(out@, disk@.len()),
            sorted_by(picked(disk@, out@), leq),
            forall|a: int, b: int|
                0 <= a < out@.len() && 0 <= b < rest@.len() ==> newest_first(
                    #[trigger] picked(disk@, out@)[a],
                    #[trigger] picked(disk@, rest@)[b],
                ),
            picked(disk@, out@).to_multiset().add(picked(disk@, rest@).to_multiset())
                == whole.to_multiset(),
        decreases rest.len(),
    {
        let ghost pr = picked(disk@, rest@);
        let ghost po = picked(disk@, out@);
        let mut m: usize = 0;
        let mut k: usize = 1;
        assert(leq(pr[0], pr[0]));
        while k < rest.len()
            invariant
                0 <= m < k <= rest.len(),
                total_ordering(leq),
                leq == newest_first_order(),
                names_match(names@, disk@),
                in_bounds(rest@, disk@.len()),
                pr == picked(disk@, rest@),
                forall|j: int| 0 <= j < k ==> newest_first(pr[m as int], #[trigger] pr[j]),
            decreases rest.len() - k,
        {
            assert(rest@[k as int] < disk@.len());
            assert(rest@[m as int] < disk@.len());
            if goes_before(disk, names, rest[k], rest[m]) {
                proof {
                    assert forall|j: int| 0 <= j < k + 1 implies newest_first(
                        pr[k as int],
                        #[trigger] pr[j],
                    ) by {
                        if j < k {
                            assert(leq(pr[k as int], pr[m as int]));
                            assert(leq(pr[m as int], pr[j]));
                        } else {
                            assert(leq(pr[j], pr[j]));
                        }
                    }
                }
                m = k;
            } else {
                proof {
                    assert(leq(pr[k as int], pr[m as int]) || leq(pr[m as int], pr[k as int]));
                }
            }
            k = k + 1;
        }
        let x = rest.remove(m);
        out.push(x);
        proof {
            assert(picked(disk@, rest@) =~= pr.remove(m as int));
            assert(picked(disk@, out@) =~= po.push(pr[m as int]));
            vstd::seq_lib::to_multiset_remove(pr, m as int);
            vstd::seq_lib::to_multiset_build(po, pr[m as int]);
            vstd::seq_lib::to_multiset_contains(pr, pr[m as int]);
            assert(pr.contains(pr[m as int]));
            assert(picked(disk@, out@).to_multiset().add(picked(disk@, rest@).to_multiset())
                =~= whole.to_multiset());
            assert forall|a: int, b: int|
                0 <= a < b < out@.len() implies #[trigger] leq(
                picked(disk@, out@)[a],
                picked(disk@, out@)[b],
            ) by {
                if b == out@.len() - 1 {
                    assert(newest_first(po[a], pr[m as int]));
                } else {
                    assert(leq(po[a], po[b]));
                }
            }
            assert forall|a: int, b: int|
                0 <= a < out@.len() && 0 <= b < rest@.len() implies newest_first(
                #[trigger] picked(disk@, out@)[a],
                #[trigger] picked(disk@, rest@)[b],
            ) by {
                let bb = if b < m { b } else { b + 1 };
                assert(picked(disk@, rest@)[b] == pr[bb]);
                if a == out@.len() - 1 {
                    assert(newest_first(pr[m as int], pr[bb]));
                } else {
                    assert(newest_first(po[a], pr[bb]));
                }
            }
        }
    }
    proof {
        vstd::seq_lib::to_multiset_len(picked(disk@, rest@));
        vstd::multiset::lemma_multiset_empty_len(picked(disk@, rest@).to_multiset());
        assert(picked(disk@, out@).to_multiset() =~= whole.to_multiset());
        whole.lemma_sort_by_ensures(leq);
        vstd::seq_lib::lemma_sorted_unique(picked(disk@, out@), whole.sort_by(leq), leq);
    }
    out
}


/// Merge the remembered order with what is actually on disk.
///
/// Pure: no filesystem access, so a hostile manifest line cannot reach a path here even in
/// principle. Every line is trimmed and parsed through [`NoteId::new`]; anything that is not
/// a plain note name is dropped before it can be resolved against anything.
///
/// New files go on top, newest first. Everything the manifest knows about keeps its place. A
/// repeated disk id is returned repeatedly rather than merged: this reorders what it is
/// given, it does not deduplicate it.
///
/// A note whose name carries leading or trailing whitespace is not matched by its own
/// manifest line, since the line is trimmed and the name is not; and a repaired id is placed
/// at the stale line's position, which can put it before a later line naming it directly.
pub fn reconcile(manifest: &[String], disk: &[NoteMeta]) -> (r: Vec<NoteId>)
    ensures
        ids_view(r@) == spec_reconcile(lines_view(manifest@), disk_entries(disk@)),
{
    let mut names: Vec<Vec<char>> = Vec::new();
    let mut unclaimed: Vec<usize> = Vec::new();
    let mut i: usize = 0;
    while i < disk.len()
        invariant
            i <= disk.len(),
            names@.len() == i,
            unclaimed@.len() == i,
            forall|j: int| 0 <= j < i ==> #[trigger] names@[j]@ == disk@[j].id@,
            forall|j: int| 0 <= j < i ==> #[trigger] unclaimed@[j] == j,
        decreases disk.len() - i,
    {
        names.push(chars_of(disk[i].id.as_str()));
        unclaimed.push(i);
        i = i + 1;
    }
    assert(picked(disk@, unclaimed@) =~= disk_entries(disk@));
    let ghost lines = lines_view(manifest@);
    let ghost ents = disk_entries(disk@);
    let mut remembered: Vec<NoteId> = Vec::new();
    let mut seen: Vec<NoteId> = Vec::new();
    let mut k: usize = 0;
    proof {
        assert(lines.take(0) =~= Seq::<Seq<char>>::empty());
        assert(ids_view(remembered@) =~= Seq::<Seq<char>>::empty());
        assert(ids_view(seen@) =~= Seq::<Seq<char>>::empty());
    }
    while k < manifest.len()
        invariant
            k <= manifest.len(),
            lines == lines_view(manifest@),
            ents == disk_entries(disk@),
            names_match(names@, disk@),
            in_bounds(unclaimed@, disk@.len()),
            (picked(disk@, unclaimed@), ids_view(remembered@), ids_view(seen@)) == claims(
                lines.take(k as int),
                ents,
            ),
        decreases manifest.len() - k,
    {
        let line = chars_of(manifest[k].as_str());
        let t = trim_chars(&line);
        let text = string_of(&t);
        let ghost u = picked(disk@, unclaimed@);
        let ghost rem = ids_view(remembered@);
        let ghost sn = ids_view(seen@);
        let ghost tt = spec_trim(lines[k as int]);
        proof {
            assert(lines.take(k + 1).drop_last() =~= lines.take(k as int));
            assert(lines.take(k + 1).last() == lines[k as int]);
        }
        match NoteId::new(text.as_str()) {
            Err(_) => {},
            Ok(id) => {
                if !listed(&seen, &id) {
                    seen.push(id.clone());
                    proof {
                        assert(ids_view(seen@) =~= sn.push(tt));
                    }
                    match first_named(disk, &unclaimed, &id) {
                        Some(j) => {
                            proof {
                                let c = choose|c: int| is_first_named(u, tt, c);
                                assert(is_first_named(u, tt, j as int));
                                assert(c == j as int);
                            }
                            unclaimed.remove(j);
                            remembered.push(id);
                            proof {
                                assert(picked(disk@, unclaimed@) =~= u.remove(j as int));
                                assert(ids_view(remembered@) =~= rem.push(tt));
                            }
                        },
                        None => {
                            assert(!exists|c: int| is_first_named(u, tt, c));
                            match renamed_to(&id, disk, &unclaimed) {
                                Some(j) => {
                                    let at = unclaimed.remove(j);
                                    assert(at < disk.len());
                                    remembered.push(disk[at].id.clone());
                                    proof {
                                        assert(picked(disk@, unclaimed@) =~= u.remove(j as int));
                                        assert(ids_view(remembered@) =~= rem.push(u[j as int].0));
                                    }
                                },
                                None => {},
                            }
                        },
                    }
                }
            },
        }
        k = k + 1;
    }
    proof {
        assert(lines.take(manifest.len() as int) =~= lines);
    }
    let sorted = sort_newest_first(disk, &names, unclaimed);
    let mut out: Vec<NoteId> = Vec::new();
    let mut j: usize = 0;
    while j < sorted.len()
        invariant
            j <= sorted.len(),
            in_bounds(sorted@, disk@.len()),
            ids_view(out@) =~= names_of(picked(disk@, sorted@)).take(j as int),
        decreases sorted.len() - j,
    {
        let at = sorted[j];
        assert(sorted@[j as int] < disk@.len());
        let ghost before = out@;
        out.push(disk[at].id.clone());
        proof {
            assert(ids_view(out@) =~= ids_view(before).push(disk@[at as int].id@));
            assert(names_of(picked(disk@, sorted@)).take(j + 1) =~= names_of(
                picked(disk@, sorted@),
            ).take(j as int).push(disk@[at as int].id@));
        }
        j = j + 1;
    }
    let ghost head = ids_view(out@);
    let mut j: usize = 0;
    while j < remembered.len()
        invariant
            j <= remembered.len(),
            ids_view(out@) =~= head + ids_view(remembered@).take(j as int),
        decreases remembered.len() - j,
    {
        let ghost before = out@;
        out.push(remembered[j].clone());
        proof {
            assert(ids_view(out@) =~= ids_view(before).push(remembered@[j as int]@));
            assert(ids_view(remembered@).take(j + 1) =~= ids_view(remembered@).take(
                j as int,
            ).push(remembered@[j as int]@));
        }
        j = j + 1;
    }
    proof {
        assert(names_of(picked(disk@, sorted@)).take(sorted@.len() as int) =~= names_of(
            picked(disk@, sorted@),
        ));
        assert(ids_view(remembered@).take(remembered@.len() as int) =~= ids_view(remembered@));
    }
    out
}


// --- laws of reconciliation ------------------------------------------------------------------

proof fn lemma_names_of_remove(s: Seq<Entry>, i: int)
    requires
        0 <= i < s.len(),
    ensures
        names_of(s.remove(i)) == names_of(s).remove(i),
        names_of(s)[i] == s[i].0,
{
    assert(names_of(s.remove(i)) =~= names_of(s).remove(i));
}

/// Reordering entries reorders their names the same way.
proof fn lemma_names_of_permutation(a: Seq<Entry>, b: Seq<Entry>)
    requires
        a.to_multiset() == b.to_multiset(),
    ensures
        names_of(a).to_multiset() == names_of(b).to_multiset(),
    decreases a.len(),
{
    broadcast use vstd::multiset::group_multiset_axioms;
    broadcast use vstd::seq_lib::group_to_multiset_ensures;

    if a.len() == 0 {
        assert(a.to_multiset().len() == 0);
        assert(b.to_multiset().len() == b.len());
        assert(b.len() == 0);
        assert(names_of(a) =~= names_of(b));
    } else {
        let x = a.last();
        assert(a.to_multiset().count(x) > 0) by {
            assert(a.contains(x)) by {
                assert(a[a.len() - 1] == x);
            }
        }
        assert(b.contains(x));
        let k = choose|k: int| 0 <= k < b.len() && b[k] == x;
        assert(a.drop_last() =~= a.remove(a.len() - 1));
        lemma_names_of_permutation(a.drop_last(), b.remove(k));
        lemma_names_of_remove(b, k);
        assert(names_of(a) =~= names_of(a.drop_last()).push(x.0));
        assert(names_of(b).contains(x.0)) by {
            assert(names_of(b)[k] == x.0);
        }
        assert(names_of(b).to_multiset() =~= names_of(b).to_multiset().remove(x.0).insert(x.0));
    }
}

/// Claiming moves notes from the unclaimed list to the remembered one: together they always
/// hold exactly the disk's names.
proof fn lemma_claims_conserve(manifest: Seq<Seq<char>>, disk: Seq<Entry>)
    ensures
        names_of(claims(manifest, disk).0).to_multiset().add(
            claims(manifest, disk).1.to_multiset(),
        ) == names_of(disk).to_multiset(),
    decreases manifest.len(),
{
    broadcast use vstd::multiset::group_multiset_axioms;
    broadcast use vstd::seq_lib::group_to_multiset_ensures;

    if manifest.len() == 0 {
        assert(claims(manifest, disk).1 =~= Seq::<Seq<char>>::empty());
        assert(names_of(disk).to_multiset().add(Seq::<Seq<char>>::empty().to_multiset())
            =~= names_of(disk).to_multiset());
    } else {
        lemma_claims_conserve(manifest.drop_last(), disk);
        let state = claims(manifest.drop_last(), disk);
        let (u, rem, seen) = state;
        let t = spec_trim(manifest.last());
        let next = claim_step(state, manifest.last());
        assert(next == claims(manifest, disk));
        if next.0 != u {
            let i = if exists|i: int| is_first_named(u, t, i) {
                choose|i: int| is_first_named(u, t, i)
            } else {
                repair_index(u, t).unwrap()
            };
            if !(exists|i: int| is_first_named(u, t, i)) {
                let key = spec_rename_key(t).unwrap();
                assert(is_only_key_match(u, key, i));
            }
            assert(0 <= i < u.len());
            assert(next.0 == u.remove(i));
            assert(next.1 == rem.push(u[i].0));
            lemma_names_of_remove(u, i);
            let x = u[i].0;
            assert(names_of(u).contains(x)) by {
                assert(names_of(u)[i] == x);
            }
            assert(names_of(next.0).to_multiset().add(next.1.to_multiset()) =~= names_of(
                u,
            ).to_multiset().add(rem.to_multiset()));
        }
    }
}

/// Nothing lost and nothing invented, whatever the manifest holds: the merged order holds
/// exactly the disk's names, each as many times as the disk lists it.
pub proof fn lemma_reconcile_keeps_every_note(manifest: Seq<Seq<char>>, disk: Seq<Entry>)
    ensures
        spec_reconcile(manifest, disk).to_multiset() == names_of(disk).to_multiset(),
{
    broadcast use vstd::multiset::group_multiset_axioms;

    let (u, rem, _) = claims(manifest, disk);
    lemma_claims_conserve(manifest, disk);
    lemma_newest_first_is_total();
    u.lemma_sort_by_ensures(newest_first_order());
    lemma_names_of_permutation(u.sort_by(newest_first_order()), u);
    vstd::seq_lib::lemma_multiset_commutative(names_of(u.sort_by(newest_first_order())), rem);
}

/// Every listed note came from the disk, and when the disk lists each name once, so does
/// the merged order; the two then hold the same set of names.
pub proof fn lemma_reconcile_lists_each_note_once(manifest: Seq<Seq<char>>, disk: Seq<Entry>)
    ensures
        forall|x: Seq<char>|
            spec_reconcile(manifest, disk).contains(x) <==> names_of(disk).contains(x),
        names_of(disk).no_duplicates() ==> spec_reconcile(manifest, disk).no_duplicates(),
{
    broadcast use vstd::seq_lib::group_to_multiset_ensures;

    lemma_reconcile_keeps_every_note(manifest, disk);
    let out = spec_reconcile(manifest, disk);
    assert forall|x: Seq<char>| out.contains(x) <==> names_of(disk).contains(x) by {
        assert(out.to_multiset().count(x) == names_of(disk).to_multiset().count(x));
    }
    if names_of(disk).no_duplicates() {
        names_of(disk).lemma_multiset_has_no_duplicates();
        out.lemma_multiset_has_no_duplicates_conv();
    }
}


proof fn lemma_first_named_exists(s: Seq<Entry>, id: Seq<char>, i: int)
    requires
        0 <= i < s.len(),
        s[i].0 == id,
    ensures
        exists|j: int| is_first_named(s, id, j),
    decreases i,
{
    if exists|j: int| 0 <= j < i && s[j].0 == id {
        let j = choose|j: int| 0 <= j < i && s[j].0 == id;
        lemma_first_named_exists(s, id, j);
    } else {
        assert(is_first_named(s, id, i));
    }
}

/// The names a disk listing can give back to itself as manifest lines: valid, each listed
/// once, and with no surrounding whitespace (a trimmed line could never match one that has).
pub open spec fn self_matching(disk: Seq<Entry>) -> bool {
    &&& names_of(disk).no_duplicates()
    &&& forall|i: int|
        0 <= i < disk.len() ==> valid_note_name(#[trigger] disk[i].0) && spec_trim(disk[i].0)
            == disk[i].0
}

/// Replaying an order whose names are all on disk, each once, claims every one of them in
/// turn.
proof fn lemma_replay_claims(order: Seq<Seq<char>>, disk: Seq<Entry>, k: int)
    requires
        self_matching(disk),
        order.no_duplicates(),
        order.to_multiset() == names_of(disk).to_multiset(),
        0 <= k <= order.len(),
    ensures
        claims(order.take(k), disk).1 == order.take(k),
        claims(order.take(k), disk).2 == order.take(k),
    decreases k,
{
    broadcast use vstd::multiset::group_multiset_axioms;
    broadcast use vstd::seq_lib::group_to_multiset_ensures;

    if k == 0 {
        assert(order.take(0) =~= Seq::<Seq<char>>::empty());
    } else {
        lemma_replay_claims(order, disk, k - 1);
        let prev = order.take(k - 1);
        assert(order.take(k).drop_last() =~= prev);
        assert(order.take(k).last() == order[k - 1]);
        let state = claims(prev, disk);
        let (u, rem, seen) = state;
        let x = order[k - 1];
        lemma_claims_conserve(prev, disk);
        assert(order.contains(x));
        assert(order.to_multiset().count(x) > 0);
        assert(names_of(disk).contains(x));
        let d = choose|d: int| 0 <= d < names_of(disk).len() && names_of(disk)[d] == x;
        assert(disk[d].0 == x);
        assert(spec_trim(x) == x);
        assert(valid_note_name(x));
        assert(!prev.contains(x)) by {
            if prev.contains(x) {
                let j = choose|j: int| 0 <= j < prev.len() && prev[j] == x;
                assert(order[j] == order[k - 1]);
            }
        }
        names_of(disk).lemma_multiset_has_no_duplicates();
        assert(names_of(disk).to_multiset().count(x) == 1);
        assert(prev.to_multiset().count(x) == 0);
        assert(names_of(u).to_multiset().count(x) == 1);
        assert(names_of(u).contains(x));
        let i = choose|i: int| 0 <= i < names_of(u).len() && names_of(u)[i] == x;
        lemma_first_named_exists(u, x, i);
        assert(rem.push(x) =~= order.take(k));
    }
}

/// Feeding the merged order back in as the manifest is a fixed point: reconciliation can run
/// on every refresh without walking the user's arrangement away from them.
///
/// Stated for a disk whose names match their own manifest lines (see [`self_matching`]); a
/// name with surrounding whitespace is read as new on every pass.
pub proof fn lemma_reconcile_is_idempotent(manifest: Seq<Seq<char>>, disk: Seq<Entry>)
    requires
        self_matching(disk),
    ensures
        spec_reconcile(spec_reconcile(manifest, disk), disk) == spec_reconcile(manifest, disk),
{
    broadcast use vstd::multiset::group_multiset_axioms;
    broadcast use vstd::seq_lib::group_to_multiset_ensures;

    let order = spec_reconcile(manifest, disk);
    lemma_reconcile_keeps_every_note(manifest, disk);
    lemma_reconcile_lists_each_note_once(manifest, disk);
    lemma_replay_claims(order, disk, order.len() as int);
    assert(order.take(order.len() as int) =~= order);
    let (u, rem, _) = claims(order, disk);
    lemma_claims_conserve(order, disk);
    assert(rem == order);
    assert forall|v: Seq<char>| names_of(u).to_multiset().count(v) == 0 by {
        assert(names_of(u).to_multiset().add(rem.to_multiset()).count(v)
            == order.to_multiset().count(v));
    }
    assert(names_of(u).to_multiset() =~= Multiset::empty());
    assert(names_of(u).to_multiset().len() == 0);
    assert(names_of(u).len() == 0);
    lemma_newest_first_is_total();
    u.lemma_sort_by_ensures(newest_first_order());
    let sorted = u.sort_by(newest_first_order());
    assert(u.len() == 0);
    assert(u.to_multiset().len() == 0);
    assert(sorted.to_multiset().len() == sorted.len());
    assert(sorted.len() == 0);
    assert(names_of(sorted) =~= Seq::<Seq<char>>::empty());
    assert(names_of(sorted) + rem =~= order);
}


pub open spec fn trimmed_lines(manifest: Seq<Seq<char>>) -> Seq<Seq<char>> {
    manifest.map_values(|l: Seq<char>| spec_trim(l))
}

/// The names the manifest claims directly, in the order it claims them: each line trimmed
/// and parsed, first occurrences kept, and only those naming a note on disk.
pub open spec fn claimed_names(manifest: Seq<Seq<char>>, names: Seq<Seq<char>>) -> Seq<Seq<char>>
    decreases manifest.len(),
{
    if manifest.len() == 0 {
        Seq::empty()
    } else {
        let prev = claimed_names(manifest.drop_last(), names);
        let t = spec_trim(manifest.last());
        if valid_note_name(t) && !trimmed_lines(manifest.drop_last()).contains(t)
            && names.contains(t) {
            prev.push(t)
        } else {
            prev
        }
    }
}

/// No line can reach the rename repair: each either names a note on disk or has no rename
/// key.
pub open spec fn no_repair_reachable(manifest: Seq<Seq<char>>, names: Seq<Seq<char>>) -> bool {
    forall|i: int|
        0 <= i < manifest.len() && valid_note_name(spec_trim(#[trigger] manifest[i]))
            && !names.contains(spec_trim(manifest[i])) ==> spec_rename_key(spec_trim(manifest[i]))
            is None
}

proof fn lemma_claims_follow_manifest(manifest: Seq<Seq<char>>, disk: Seq<Entry>)
    requires
        names_of(disk).no_duplicates(),
        no_repair_reachable(manifest, names_of(disk)),
    ensures
        claims(manifest, disk).1 == claimed_names(manifest, names_of(disk)),
        forall|t: Seq<char>|
            #![trigger claims(manifest, disk).2.contains(t)]
            claims(manifest, disk).2.contains(t) <==> (valid_note_name(t) && trimmed_lines(
                manifest,
            ).contains(t)),
        forall|t: Seq<char>| claims(manifest, disk).1.contains(t) ==> claims(manifest, disk).2.contains(t),
    decreases manifest.len(),
{
    broadcast use vstd::multiset::group_multiset_axioms;
    broadcast use vstd::seq_lib::group_to_multiset_ensures;

    let names = names_of(disk);
    if manifest.len() == 0 {
        assert(trimmed_lines(manifest) =~= Seq::<Seq<char>>::empty());
    } else {
        let prev = manifest.drop_last();
        assert forall|i: int|
            0 <= i < prev.len() && valid_note_name(spec_trim(#[trigger] prev[i]))
                && !names.contains(spec_trim(prev[i])) implies spec_rename_key(spec_trim(prev[i]))
            is None by {
            assert(prev[i] == manifest[i]);
        }
        lemma_claims_follow_manifest(prev, disk);
        lemma_claims_conserve(prev, disk);
        let (u, rem, seen) = claims(prev, disk);
        let t = spec_trim(manifest.last());
        assert(trimmed_lines(manifest) =~= trimmed_lines(prev).push(t));
        let last = manifest.len() - 1;
        assert(manifest[last] == manifest.last());
        if valid_note_name(t) && !seen.contains(t) {
            assert(!trimmed_lines(prev).contains(t));
            if names.contains(t) {
                names.lemma_multiset_has_no_duplicates();
                assert(names.to_multiset().count(t) == 1);
                assert(!rem.contains(t));
                assert(rem.to_multiset().count(t) == 0);
                assert(names_of(u).to_multiset().count(t) == 1);
                assert(names_of(u).contains(t));
                let i = choose|i: int| 0 <= i < names_of(u).len() && names_of(u)[i] == t;
                lemma_first_named_exists(u, t, i);
            } else {
                assert(spec_rename_key(spec_trim(manifest[last])) is None);
                assert forall|i: int| !is_first_named(u, t, i) by {
                    if is_first_named(u, t, i) {
                        assert(names_of(u)[i] == t);
                        assert(names_of(u).to_multiset().count(t) > 0);
                        assert(names.to_multiset().count(t) > 0);
                    }
                }
            }
        }
        let next = claims(manifest, disk);
        if valid_note_name(t) && !seen.contains(t) {
            if names.contains(t) {
                assert(next.1 == rem.push(t));
            } else {
                assert(next.1 == rem);
            }
            assert(next.2 == seen.push(t));
        } else {
            assert(next == (u, rem, seen));
        }
        assert forall|x: Seq<char>|
            #![trigger next.2.contains(x)]
            next.2.contains(x) <==> (valid_note_name(x) && trimmed_lines(
            manifest,
        ).contains(x)) by {
            broadcast use vstd::seq_lib::group_seq_properties;

            let tm = trimmed_lines(manifest);
            let tp = trimmed_lines(prev);
            assert(tm == tp.push(t));
            assert(tm.contains(x) <==> (tp.contains(x) || x == t));
            assert(claims(prev, disk).2.contains(x) <==> (valid_note_name(x)
                && trimmed_lines(prev).contains(x)));
            assert(seen == claims(prev, disk).2);
        }
        assert forall|x: Seq<char>| next.1.contains(x) implies next.2.contains(x) by {
            broadcast use vstd::seq_lib::group_seq_properties;

        }
    }
}

/// The order the user chose survives reconciliation: the merged order ends with the notes
/// the manifest names, in the manifest's order.
///
/// Stated where no line reaches the rename repair and the disk lists each name once; a
/// repaired note is placed at its stale line's position, which can overtake a later line
/// naming it directly.
pub proof fn lemma_reconcile_keeps_claimed_order(manifest: Seq<Seq<char>>, disk: Seq<Entry>)
    requires
        names_of(disk).no_duplicates(),
        no_repair_reachable(manifest, names_of(disk)),
    ensures
        ({
            let out = spec_reconcile(manifest, disk);
            let claimed = claimed_names(manifest, names_of(disk));
            claimed.len() <= out.len() && out.skip(out.len() - claimed.len()) == claimed
        }),
{
    lemma_claims_follow_manifest(manifest, disk);
    let (u, rem, _) = claims(manifest, disk);
    let head = names_of(u.sort_by(newest_first_order()));
    let out = spec_reconcile(manifest, disk);
    assert(out.skip(out.len() - rem.len()) =~= rem);
}


// --- moving and renaming entries ------------------------------------------------------------

/// The order after moving the note at `index` one place towards the top; unchanged at the
/// top or past the end.
pub open spec fn moved_up(order: Seq<Seq<char>>, index: int) -> Seq<Seq<char>> {
    if 0 < index < order.len() {
        order.update(index, order[index - 1]).update(index - 1, order[index])
    } else {
        order
    }
}

/// The order after moving the note at `index` one place towards the bottom; unchanged at
/// the bottom or past the end.
pub open spec fn moved_down(order: Seq<Seq<char>>, index: int) -> Seq<Seq<char>> {
    if 0 <= index && index + 1 < order.len() {
        order.update(index, order[index + 1]).update(index + 1, order[index])
    } else {
        order
    }
}

/// Move the note at `index` one place towards the top. A no-op at the top, and for a stale
/// index past the end.
pub fn move_up(order: &mut [NoteId], index: usize)
    ensures
        ids_view(final(order)@) == moved_up(ids_view(old(order)@), index as int),
{
    if index > 0 && index < order.len() {
        let upper = order[index - 1].clone();
        let lower = order[index].clone();
        let ghost before = order@;
        order[index] = upper;
        order[index - 1] = lower;
        assert(ids_view(order@) =~= moved_up(ids_view(before), index as int));
    }
}

/// Move the note at `index` one place towards the bottom. A no-op at the bottom, and for a
/// stale index past the end.
pub fn move_down(order: &mut [NoteId], index: usize)
    ensures
        ids_view(final(order)@) == moved_down(ids_view(old(order)@), index as int),
{
    if index < order.len() && index + 1 < order.len() {
        let upper = order[index].clone();
        let lower = order[index + 1].clone();
        let ghost before = order@;
        order[index] = lower;
        order[index + 1] = upper;
        assert(ids_view(order@) =~= moved_down(ids_view(before), index as int));
    }
}

/// Moving a note up and then back down, from its new place, restores the order; and the
/// other way round. Either move only ever swaps two neighbours, so no note is lost or added.
pub proof fn lemma_moves_undo_each_other(order: Seq<Seq<char>>, index: int)
    ensures
        0 < index < order.len() ==> moved_down(moved_up(order, index), index - 1) == order,
        0 <= index && index + 1 < order.len() ==> moved_up(moved_down(order, index), index + 1)
            == order,
        moved_up(order, index).to_multiset() == order.to_multiset(),
        moved_down(order, index).to_multiset() == order.to_multiset(),
{
    broadcast use vstd::seq_lib::group_to_multiset_ensures;
    broadcast use vstd::multiset::group_multiset_axioms;

    if 0 < index < order.len() {
        assert(moved_down(moved_up(order, index), index - 1) =~= order);
        let a = order[index - 1];
        let b = order[index];
        vstd::seq_lib::lemma_update_is_remove_insert(order, index, a);
        vstd::seq_lib::lemma_update_is_remove_insert(order.update(index, a), index - 1, b);
        assert(moved_up(order, index).to_multiset() =~= order.to_multiset());
    }
    if 0 <= index && index + 1 < order.len() {
        assert(moved_up(moved_down(order, index), index + 1) =~= order);
        let a = order[index + 1];
        let b = order[index];
        vstd::seq_lib::lemma_update_is_remove_insert(order, index, a);
        vstd::seq_lib::lemma_update_is_remove_insert(order.update(index, a), index + 1, b);
        assert(moved_down(order, index).to_multiset() =~= order.to_multiset());
    }
}

/// `k` is where `name` first occurs.
pub open spec fn is_first_at(s: Seq<Seq<char>>, name: Seq<char>, k: int) -> bool {
    &&& 0 <= k < s.len()
    &&& s[k] == name
    &&& forall|j: int| 0 <= j < k ==> s[j] != name
}

/// The order with the first entry named `from` pointed at `to`; unchanged when `from` is not
/// listed.
pub open spec fn renamed_entry(order: Seq<Seq<char>>, from: Seq<char>, to: Seq<char>) -> Seq<Seq<char>> {
    if exists|k: int| is_first_at(order, from, k) {
        order.update(choose|k: int| is_first_at(order, from, k), to)
    } else {
        order
    }
}

/// Point an entry at a note's new name, in place: a note the user put at position four
/// stays at position four when it acquires its title.
pub fn rename_entry(order: &mut [NoteId], from: &NoteId, to: &NoteId)
    ensures
        ids_view(final(order)@) == renamed_entry(ids_view(old(order)@), from@, to@),
{
    let ghost before = ids_view(order@);
    let mut k: usize = 0;
    while k < order.len()
        invariant
            k <= order@.len(),
            order@ == old(order)@,
            before == ids_view(order@),
            forall|j: int| 0 <= j < k ==> before[j] != from@,
        decreases order@.len() - k,
    {
        if order[k].same(from) {
            proof {
                assert(is_first_at(before, from@, k as int));
                let c = choose|c: int| is_first_at(before, from@, c);
                assert(c == k as int);
            }
            order[k] = to.clone();
            assert(ids_view(order@) =~= before.update(k as int, to@));
            return;
        }
        k = k + 1;
    }
    assert(!exists|c: int| is_first_at(before, from@, c));
}


// --- the manifest as text ----------------------------------------------------------------------

/// One name per line, top line first, each line ending in `\n`: greppable and editable in
/// any editor.
pub open spec fn manifest_text(lines: Seq<Seq<char>>) -> Seq<char>
    decreases lines.len(),
{
    if lines.len() == 0 {
        Seq::empty()
    } else {
        lines[0] + seq!['\n'] + manifest_text(lines.drop_first())
    }
}

/// A line as `str::lines` yields it: a `\r` before the `\n` is not part of it.
pub open spec fn without_cr(line: Seq<char>) -> Seq<char> {
    if line.len() > 0 && line.last() == '\r' {
        line.drop_last()
    } else {
        line
    }
}

/// `str::lines`: split at `\n`, a `\r` right before it dropped, no empty line after a final
/// `\n`.
pub open spec fn spec_lines(text: Seq<char>) -> Seq<Seq<char>>
    decreases text.len(),
{
    if text.len() == 0 {
        Seq::empty()
    } else {
        let i = first_index_of(text, '\n');
        if i < 0 {
            seq![text]
        } else {
            proof {
                lemma_first_index_bounds(text, '\n');
            }
            seq![without_cr(text.take(i))] + spec_lines(text.skip(i + 1))
        }
    }
}

pub proof fn lemma_first_index_bounds(s: Seq<char>, c: char)
    ensures
        -1 <= first_index_of(s, c) < s.len(),
        first_index_of(s, c) >= 0 ==> s[first_index_of(s, c)] == c,
        forall|j: int| 0 <= j < first_index_of(s, c) ==> s[j] != c,
        first_index_of(s, c) < 0 ==> forall|j: int| 0 <= j < s.len() ==> s[j] != c,
    decreases s.len(),
{
    if s.len() > 0 && s[0] != c {
        lemma_first_index_bounds(s.drop_first(), c);
        assert forall|j: int| 0 < j < s.len() implies s[j] == s.drop_first()[j - 1] by {}
    }
}

proof fn lemma_manifest_text_push(lines: Seq<Seq<char>>, x: Seq<char>)
    ensures
        manifest_text(lines.push(x)) == manifest_text(lines) + x + seq!['\n'],
    decreases lines.len(),
{
    if lines.len() == 0 {
        assert(lines.push(x).drop_first() =~= Seq::<Seq<char>>::empty());
        assert(manifest_text(lines.push(x).drop_first()) =~= Seq::<char>::empty());
        assert(lines.push(x)[0] == x);
        assert(manifest_text(lines) =~= Seq::<char>::empty());
        assert(manifest_text(lines.push(x)) =~= x + seq!['\n']);
    } else {
        lemma_manifest_text_push(lines.drop_first(), x);
        assert(lines.push(x).drop_first() =~= lines.drop_first().push(x));
        assert(manifest_text(lines.push(x)) =~= manifest_text(lines) + x + seq!['\n']);
    }
}

/// The manifest text for `lines`.
pub fn lines_text(lines: &[String]) -> (r: String)
    ensures
        r@ == manifest_text(lines_view(lines@)),
{
    let mut out: Vec<char> = Vec::new();
    let ghost all = lines_view(lines@);
    let mut k: usize = 0;
    assert(all.take(0) =~= Seq::<Seq<char>>::empty());
    while k < lines.len()
        invariant
            k <= lines.len(),
            all == lines_view(lines@),
            out@ == manifest_text(all.take(k as int)),
        decreases lines.len() - k,
    {
        let line = chars_of(lines[k].as_str());
        let ghost before = out@;
        let mut j: usize = 0;
        while j < line.len()
            invariant
                j <= line.len(),
                out@ =~= before + line@.take(j as int),
            decreases line.len() - j,
        {
            out.push(line[j]);
            j = j + 1;
        }
        out.push('\n');
        proof {
            assert(line@.take(line.len() as int) =~= line@);
            assert(all.take(k + 1) =~= all.take(k as int).push(all[k as int]));
            lemma_manifest_text_push(all.take(k as int), all[k as int]);
            assert(out@ =~= manifest_text(all.take(k + 1)));
        }
        k = k + 1;
    }
    assert(all.take(lines.len() as int) =~= all);
    string_of(&out)
}

/// The manifest's lines, as `str::lines` splits them.
pub fn manifest_lines(text: &str) -> (r: Vec<String>)
    ensures
        lines_view(r@) == spec_lines(text@),
{
    let v = chars_of(text);
    let mut out: Vec<String> = Vec::new();
    let mut start: usize = 0;
    assert(v@.skip(0) =~= v@);
    while start < v.len()
        invariant
            start <= v.len(),
            v@ == text@,
            lines_view(out@) + spec_lines(v@.skip(start as int)) == spec_lines(v@),
        decreases v.len() - start,
    {
        let ghost rest = v@.skip(start as int);
        let mut j: usize = start;
        let mut line: Vec<char> = Vec::new();
        while j < v.len() && v[j] != '\n'
            invariant
                start <= j <= v.len(),
                rest == v@.skip(start as int),
                line@ =~= v@.subrange(start as int, j as int),
                forall|i: int| start <= i < j ==> v@[i] != '\n',
            decreases v.len() - j,
        {
            line.push(v[j]);
            j = j + 1;
        }
        let ghost before = lines_view(out@);
        if j < v.len() {
            proof {
                lemma_first_index(rest, '\n', j - start);
                assert(rest.take(j - start) =~= line@);
                assert(rest.skip(j - start + 1) =~= v@.skip(j + 1));
            }
            if line.len() > 0 && line[line.len() - 1] == '\r' {
                line.pop();
            }
            out.push(string_of(&line));
            proof {
                assert(lines_view(out@) =~= before.push(without_cr(rest.take(j - start))));
                assert(spec_lines(rest) =~= seq![without_cr(rest.take(j - start))] + spec_lines(
                    v@.skip(j + 1),
                ));
                assert(lines_view(out@) + spec_lines(v@.skip(j + 1)) =~= before + spec_lines(rest));
            }
            start = j + 1;
        } else {
            proof {
                lemma_first_index_none(rest, '\n');
                assert(rest =~= line@);
                assert(v@.skip(v.len() as int) =~= Seq::<char>::empty());
            }
            out.push(string_of(&line));
            proof {
                assert(lines_view(out@) =~= before.push(rest));
                assert(lines_view(out@) + spec_lines(v@.skip(v.len() as int)) =~= before
                    + spec_lines(rest));
            }
            start = v.len();
        }
    }
    proof {
        assert(v@.skip(v.len() as int) =~= Seq::<char>::empty());
        assert(lines_view(out@) + Seq::<Seq<char>>::empty() =~= lines_view(out@));
    }
    out
}

/// Names that survive a trip through the manifest: no line break inside, and no `\r` at
/// the end that `str::lines` would take for half of one.
pub open spec fn line_safe(name: Seq<char>) -> bool {
    &&& !name.contains('\n')
    &&& !(name.len() > 0 && name.last() == '\r')
}

/// Reading back what was written gives the same lines, for names that fit on a line.
pub proof fn lemma_manifest_round_trip(lines: Seq<Seq<char>>)
    requires
        forall|i: int| 0 <= i < lines.len() ==> line_safe(#[trigger] lines[i]),
    ensures
        spec_lines(manifest_text(lines)) == lines,
    decreases lines.len(),
{
    if lines.len() > 0 {
        let x = lines[0];
        let rest = lines.drop_first();
        assert(line_safe(x));
        assert forall|i: int| 0 <= i < rest.len() implies line_safe(#[trigger] rest[i]) by {
            assert(rest[i] == lines[i + 1]);
        }
        lemma_manifest_round_trip(rest);
        let text = manifest_text(lines);
        assert(text == x + seq!['\n'] + manifest_text(rest));
        assert forall|j: int| 0 <= j < x.len() implies text[j] != '\n' by {
            assert(text[j] == x[j]);
            assert(x.contains(x[j]));
        }
        assert(text[x.len() as int] == '\n');
        lemma_first_index(text, '\n', x.len() as int);
        assert(text.take(x.len() as int) =~= x);
        assert(text.skip(x.len() as int + 1) =~= manifest_text(rest));
        assert(without_cr(x) == x);
        assert(spec_lines(text) =~= seq![x] + rest);
        assert(seq![x] + rest =~= lines);
    }
}


// --- the manifest file -------------------------------------------------------------------------

/// The manifest's file name inside the app directory.
pub const MANIFEST_FILE: &'static str = "order";

/// `k` is the first line naming `name` once trimmed.
pub open spec fn is_first_naming(lines: Seq<Seq<char>>, name: Seq<char>, k: int) -> bool {
    &&& 0 <= k < lines.len()
    &&& spec_trim(lines[k]) == name
    &&& forall|j: int| 0 <= j < k ==> spec_trim(lines[j]) != name
}

/// The lines with the first one naming `from` replaced by `to`, or `None` when none names
/// it and there is nothing to write.
pub open spec fn lines_after_rename(lines: Seq<Seq<char>>, from: Seq<char>, to: Seq<char>) -> Option<
    Seq<Seq<char>>,
> {
    if exists|k: int| is_first_naming(lines, from, k) {
        Some(lines.update(choose|k: int| is_first_naming(lines, from, k), to))
    } else {
        None
    }
}

/// The lines without those naming `id`, or `None` when none names it and there is nothing
/// to write.
pub open spec fn lines_after_removal(lines: Seq<Seq<char>>, id: Seq<char>) -> Option<Seq<Seq<char>>> {
    if exists|k: int| 0 <= k < lines.len() && spec_trim(lines[k]) == id {
        Some(lines.filter(|l: Seq<char>| spec_trim(l) != id))
    } else {
        None
    }
}

/// The `order` file inside the workspace's app directory.
///
/// Reading and writing the file is the caller's: this holds where it lives and turns the
/// order into the exact text to write atomically, and read text back into lines.
#[derive(Debug)]
pub struct OrderStore {
    path: String,
}

impl View for OrderStore {
    type V = Seq<char>;

    closed spec fn view(&self) -> Seq<char> {
        self.path@
    }
}

impl OrderStore {
    /// `<app_dir>/order`, where `app_dir` is `<workspace>/.scratchbox`.
    pub fn new(app_dir: &str) -> (r: OrderStore)
        ensures
            r@ == spec_join(app_dir@, MANIFEST_FILE@),
    {
        OrderStore { path: join(app_dir, MANIFEST_FILE) }
    }

    pub fn path(&self) -> (r: &str)
        ensures
            r@ == self@,
    {
        self.path.as_str()
    }

    /// The remembered order, as raw lines, from the file's text (`None` when it could not
    /// be read as UTF-8, or is missing).
    ///
    /// Lines rather than a `Result` on purpose: a manifest that is missing, binary, or full
    /// of nonsense is a cache miss, not a failure.
    pub fn load(&self, contents: Option<&str>) -> (r: Vec<String>)
        ensures
            lines_view(r@) == match contents {
                Some(text) => spec_lines(text@),
                None => Seq::empty(),
            },
    {
        match contents {
            Some(text) => manifest_lines(text),
            None => {
                let r: Vec<String> = Vec::new();
                assert(lines_view(r@) =~= Seq::<Seq<char>>::empty());
                r
            },
        }
    }

    /// The text that persists `order`: one name per line.
    pub fn save(&self, order: &[NoteId]) -> (r: String)
        ensures
            r@ == manifest_text(ids_view(order@)),
    {
        let mut lines: Vec<String> = Vec::new();
        let mut k: usize = 0;
        while k < order.len()
            invariant
                k <= order.len(),
                lines_view(lines@) =~= ids_view(order@).take(k as int),
            decreases order.len() - k,
        {
            let ghost before = lines_view(lines@);
            lines.push(order[k].as_str().to_owned());
            assert(lines_view(lines@) =~= before.push(order@[k as int]@));
            k = k + 1;
        }
        assert(ids_view(order@).take(order.len() as int) =~= ids_view(order@));
        self.save_lines(&lines)
    }

    /// Follow a note to its new name, keeping its position: the text to write, or `None`
    /// when no line names `from`.
    ///
    /// Edits the lines one by one rather than rewriting them from a parsed order, so
    /// whatever else the user has in there survives a rename untouched.
    pub fn record_rename(&self, lines: &[String], from: &NoteId, to: &NoteId) -> (r: Option<String>)
        ensures
            r is None <==> lines_after_rename(lines_view(lines@), from@, to@) is None,
            r matches Some(text) ==> text@ == manifest_text(
                lines_after_rename(lines_view(lines@), from@, to@).unwrap(),
            ),
    {
        let ghost all = lines_view(lines@);
        let wanted = chars_of(from.as_str());
        let mut k: usize = 0;
        while k < lines.len()
            invariant
                k <= lines.len(),
                all == lines_view(lines@),
                wanted@ == from@,
                forall|j: int| 0 <= j < k ==> spec_trim(all[j]) != from@,
            decreases lines.len() - k,
        {
            let line = chars_of(lines[k].as_str());
            let t = trim_chars(&line);
            if chars_equal(&t, &wanted) {
                proof {
                    assert(is_first_naming(all, from@, k as int));
                    let c = choose|c: int| is_first_naming(all, from@, c);
                    assert(c == k as int);
                }
                let mut edited: Vec<String> = Vec::new();
                let mut j: usize = 0;
                while j < lines.len()
                    invariant
                        j <= lines.len(),
                        k < lines.len(),
                        all == lines_view(lines@),
                        lines_view(edited@) =~= all.update(k as int, to@).take(j as int),
                    decreases lines.len() - j,
                {
                    let ghost before = lines_view(edited@);
                    if j == k {
                        edited.push(to.as_str().to_owned());
                    } else {
                        edited.push(lines[j].clone());
                    }
                    assert(lines_view(edited@) =~= before.push(all.update(k as int, to@)[j as int]));
                    j = j + 1;
                }
                assert(all.update(k as int, to@).take(lines.len() as int) =~= all.update(
                    k as int,
                    to@,
                ));
                return Some(self.save_lines(&edited));
            }
            k = k + 1;
        }
        assert(!exists|c: int| is_first_naming(all, from@, c));
        None
    }

    /// Drop a note's entry: the text to write, or `None` when it was not listed.
    pub fn record_removal(&self, lines: &[String], id: &NoteId) -> (r: Option<String>)
        ensures
            r is None <==> lines_after_removal(lines_view(lines@), id@) is None,
            r matches Some(text) ==> text@ == manifest_text(
                lines_after_removal(lines_view(lines@), id@).unwrap(),
            ),
    {
        let ghost all = lines_view(lines@);
        let ghost keep = |l: Seq<char>| spec_trim(l) != id@;
        let wanted = chars_of(id.as_str());
        let mut kept: Vec<String> = Vec::new();
        let mut dropped = false;
        let mut k: usize = 0;
        assert(all.take(0).filter(keep) =~= Seq::<Seq<char>>::empty());
        while k < lines.len()
            invariant
                k <= lines.len(),
                all == lines_view(lines@),
                wanted@ == id@,
                keep == (|l: Seq<char>| spec_trim(l) != id@),
                lines_view(kept@) == all.take(k as int).filter(keep),
                dropped <==> exists|j: int| 0 <= j < k && spec_trim(all[j]) == id@,
            decreases lines.len() - k,
        {
            let line = chars_of(lines[k].as_str());
            let t = trim_chars(&line);
            let ghost before = lines_view(kept@);
            proof {
                assert(all.take(k + 1) =~= all.take(k as int).push(all[k as int]));
                all.take(k as int).lemma_filter_push(all[k as int], keep);
            }
            if chars_equal(&t, &wanted) {
                dropped = true;
            } else {
                kept.push(lines[k].clone());
                assert(lines_view(kept@) =~= before.push(all[k as int]));
            }
            k = k + 1;
        }
        assert(all.take(lines.len() as int) =~= all);
        if dropped {
            Some(self.save_lines(&kept))
        } else {
            None
        }
    }

    /// The text that persists `lines`.
    fn save_lines(&self, lines: &[String]) -> (r: String)
        ensures
            r@ == manifest_text(lines_view(lines@)),
    {
        lines_text(lines)
    }
}

/// Are the two character sequences the same?
pub fn chars_equal(a: &[char], b: &[char]) -> (r: bool)
    ensures
        r == (a@ == b@),
{
    if a.len() != b.len() {
        return false;
    }
    let mut k: usize = 0;
    while k < a.len()
        invariant
            k <= a.len(),
            a.len() == b.len(),
            forall|j: int| 0 <= j < k ==> a@[j] == b@[j],
        decreases a.len() - k,
    {
        if a[k] != b[k] {
            return false;
        }
        k = k + 1;
    }
    assert(a@ =~= b@);
    true
}

} // verus!
