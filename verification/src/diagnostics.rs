//! When diagnostics switch on, and where they may go.
//!
//! Diagnostics go to a file and never to a standard stream, and nothing here can fail the
//! operation it observes. `RUST_LOG` is ecosystem-wide, so it only turns them on when a
//! directive names a `scratchbox` target; and a log directory a watcher would see change is
//! refused.

use vstd::prelude::*;

use crate::order::{chars_equal, lemma_first_index_bounds, spec_trim, trim_chars};
use crate::paths::{spec_starts_with, starts_with};
use crate::slug::{first_index_of, lemma_first_index, lemma_first_index_none};
use crate::text::chars_of;

verus! {

/// Target prefix a `RUST_LOG` directive has to name before diagnostics exist at all.
pub const TARGET: &'static str = "scratchbox";

/// `str::split` on one character: the pieces between its occurrences, at least one.
pub open spec fn split_on(s: Seq<char>, c: char) -> Seq<Seq<char>>
    decreases s.len(),
{
    let i = first_index_of(s, c);
    if i < 0 {
        seq![s]
    } else {
        proof {
            lemma_first_index_bounds(s, c);
        }
        seq![s.take(i)] + split_on(s.skip(i + 1), c)
    }
}

/// The text before the first `c`, or all of it.
pub open spec fn before_first(s: Seq<char>, c: char) -> Seq<char> {
    split_on(s, c)[0]
}

/// The target a directive names: `target[span{field=value}]=level` without the span
/// selector and the level, trimmed.
pub open spec fn directive_target(directive: Seq<char>) -> Seq<char> {
    spec_trim(before_first(before_first(directive, '='), '['))
}

/// Does any directive in a `RUST_LOG` value name a target inside this project? A bare level
/// like `info` has no target and does not count.
pub open spec fn spec_names_scratchbox(value: Seq<char>) -> bool {
    exists|k: int|
        0 <= k < split_on(value, ',').len() && TARGET@.is_prefix_of(
            directive_target(#[trigger] split_on(value, ',')[k]),
        )
}

fn split_chars(v: &[char], c: char) -> (r: Vec<Vec<char>>)
    ensures
        r@.map_values(|x: Vec<char>| x@) == split_on(v@, c),
    decreases v.len(),
{
    let mut head: Vec<char> = Vec::new();
    let mut j: usize = 0;
    while j < v.len() && v[j] != c
        invariant
            j <= v.len(),
            head@ =~= v@.take(j as int),
            forall|i: int| 0 <= i < j ==> v@[i] != c,
        decreases v.len() - j,
    {
        head.push(v[j]);
        j = j + 1;
    }
    let mut out: Vec<Vec<char>> = Vec::new();
    if j == v.len() {
        proof {
            lemma_first_index_none(v@, c);
            assert(head@ =~= v@);
        }
        out.push(head);
        assert(out@.map_values(|x: Vec<char>| x@) =~= seq![v@]);
        return out;
    }
    proof {
        lemma_first_index(v@, c, j as int);
    }
    let mut tail: Vec<char> = Vec::new();
    let mut k: usize = j + 1;
    while k < v.len()
        invariant
            j < v.len(),
            j + 1 <= k <= v.len(),
            tail@ =~= v@.subrange(j + 1, k as int),
        decreases v.len() - k,
    {
        tail.push(v[k]);
        k = k + 1;
    }
    assert(tail@ =~= v@.skip(j + 1));
    let rest = split_chars(&tail, c);
    let ghost head_view = head@;
    out.push(head);
    let mut m: usize = 0;
    while m < rest.len()
        invariant
            m <= rest@.len(),
            out@.map_values(|x: Vec<char>| x@) =~= seq![head_view] + rest@.map_values(
                |x: Vec<char>| x@,
            ).take(m as int),
        decreases rest@.len() - m,
    {
        let ghost before = out@;
        out.push(crate::naming::copy_chars(rest[m].as_slice()));
        assert(out@.map_values(|x: Vec<char>| x@) =~= before.map_values(|x: Vec<char>| x@).push(
            rest@[m as int]@,
        ));
        assert(rest@.map_values(|x: Vec<char>| x@).take(m + 1) =~= rest@.map_values(
            |x: Vec<char>| x@,
        ).take(m as int).push(rest@[m as int]@));
        m = m + 1;
    }
    assert(rest@.map_values(|x: Vec<char>| x@).take(rest@.len() as int) =~= rest@.map_values(
        |x: Vec<char>| x@,
    ));
    out
}

fn before_first_chars(v: &[char], c: char) -> (r: Vec<char>)
    ensures
        r@ == before_first(v@, c),
{
    let pieces = split_chars(v, c);
    proof {
        lemma_first_index_bounds(v@, c);
        assert(split_on(v@, c).len() >= 1);
        assert(pieces@.map_values(|x: Vec<char>| x@).len() == pieces@.len());
    }
    assert(pieces@.map_values(|x: Vec<char>| x@)[0] == pieces@[0]@);
    crate::naming::copy_chars(pieces[0].as_slice())
}

/// Does any directive in `value` name a target inside this project?
pub fn names_scratchbox(value: &str) -> (r: bool)
    ensures
        r == spec_names_scratchbox(value@),
{
    let v = chars_of(value);
    let directives = split_chars(&v, ',');
    let ghost ds = directives@.map_values(|x: Vec<char>| x@);
    let wanted = chars_of(TARGET);
    let mut k: usize = 0;
    while k < directives.len()
        invariant
            k <= directives@.len(),
            ds == directives@.map_values(|x: Vec<char>| x@),
            ds == split_on(v@, ','),
            v@ == value@,
            wanted@ == TARGET@,
            forall|j: int| 0 <= j < k ==> !TARGET@.is_prefix_of(directive_target(#[trigger] ds[j])),
        decreases directives@.len() - k,
    {
        let target = before_first_chars(&before_first_chars(directives[k].as_slice(), '='), '[');
        let trimmed = trim_chars(&target);
        assert(trimmed@ == directive_target(ds[k as int]));
        if wanted.len() <= trimmed.len() {
            let mut head: Vec<char> = Vec::new();
            let mut i: usize = 0;
            while i < wanted.len()
                invariant
                    i <= wanted.len() <= trimmed.len(),
                    head@ =~= trimmed@.take(i as int),
                decreases wanted.len() - i,
            {
                head.push(trimmed[i]);
                i = i + 1;
            }
            if chars_equal(&head, &wanted) {
                assert(TARGET@.is_prefix_of(directive_target(ds[k as int])));
                return true;
            }
        }
        k = k + 1;
    }
    false
}

/// Is the log directory somewhere a watcher would see it change? Both paths resolved by the
/// caller; both directions count, component-wise.
pub fn overlaps(log_dir: &str, workspace: &str) -> (r: bool)
    ensures
        r == (spec_starts_with(log_dir@, workspace@) || spec_starts_with(workspace@, log_dir@)),
{
    starts_with(log_dir, workspace) || starts_with(workspace, log_dir)
}

/// Past this size the log is started afresh on the next open rather than appended to: one
/// file that never needs rotating, and never grows without bound.
pub const MAX_BYTES: u64 = 8 * 1024 * 1024;

/// Does opening a log that is `existing` bytes long (`None` when there is none) start it
/// afresh? Appending and truncating are never both asked for.
pub fn opens_truncated(existing: Option<u64>) -> (r: bool)
    ensures
        r == (existing matches Some(n) && n >= MAX_BYTES),
{
    match existing {
        Some(n) => n >= MAX_BYTES,
        None => false,
    }
}

} // verus!
