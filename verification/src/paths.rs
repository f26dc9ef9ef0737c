//! Paths as text, joined the way a Unix path is: a relative component goes after a `/`, an
//! absolute one replaces what came before.

use vstd::prelude::*;

use crate::naming::{last_index, last_index_of, lemma_last_index_bounds, push_all};
use crate::order::{chars_equal, lemma_first_index_bounds};
use crate::slug::{first_index_of, lemma_first_index, lemma_first_index_none};
use crate::text::{chars_of, string_of};

verus! {

/// `Path::join` on Unix.
pub open spec fn spec_join(base: Seq<char>, name: Seq<char>) -> Seq<char> {
    if name.len() > 0 && name[0] == '/' {
        name
    } else if base.len() == 0 {
        name
    } else if base.last() == '/' {
        base + name
    } else {
        base + seq!['/'] + name
    }
}

/// `base` with `name` joined onto it.
pub fn join(base: &str, name: &str) -> (r: String)
    ensures
        r@ == spec_join(base@, name@),
{
    let b = chars_of(base);
    let n = chars_of(name);
    if (n.len() > 0 && n[0] == '/') || b.len() == 0 {
        return string_of(&n);
    }
    let mut out = b;
    if out[out.len() - 1] != '/' {
        out.push('/');
    }
    let ghost head = out@;
    let mut k: usize = 0;
    while k < n.len()
        invariant
            k <= n.len(),
            out@ =~= head + n@.take(k as int),
        decreases n.len() - k,
    {
        out.push(n[k]);
        k = k + 1;
    }
    assert(n@.take(n.len() as int) =~= n@);
    string_of(&out)
}


/// A path component as it counts for comparison: an empty one (from a repeated `/`) and `.`
/// count as nothing.
pub open spec fn kept(segment: Seq<char>) -> Seq<Seq<char>> {
    if segment.len() == 0 || segment == seq!['.'] {
        Seq::empty()
    } else {
        seq![segment]
    }
}

/// The named components of a path, in order.
pub open spec fn segments(p: Seq<char>) -> Seq<Seq<char>>
    decreases p.len(),
{
    if p.len() == 0 {
        Seq::empty()
    } else {
        let i = first_index_of(p, '/');
        if i < 0 {
            kept(p)
        } else {
            proof {
                lemma_first_index_bounds(p, '/');
            }
            kept(p.take(i)) + segments(p.skip(i + 1))
        }
    }
}

/// A relative path that starts with a `.` component: `Path::components` keeps that one, as
/// `CurDir`, and skips every other `.`.
pub open spec fn leads_with_cur_dir(p: Seq<char>) -> bool {
    p.len() > 0 && p[0] == '.' && (p.len() == 1 || p[1] == '/')
}

/// The components `Path::starts_with` compares: the root first when the path is absolute,
/// or `.` when a relative path starts with one, then the named components.
pub open spec fn components(p: Seq<char>) -> Seq<Seq<char>> {
    if p.len() > 0 && p[0] == '/' {
        seq![seq!['/']] + segments(p)
    } else if leads_with_cur_dir(p) {
        seq![seq!['.']] + segments(p)
    } else {
        segments(p)
    }
}

/// `Path::starts_with`: component-wise, so `/notes-old` does not start with `/notes`.
pub open spec fn spec_starts_with(p: Seq<char>, base: Seq<char>) -> bool {
    components(base).is_prefix_of(components(p))
}

fn segment_list(p: &[char]) -> (r: Vec<Vec<char>>)
    ensures
        r@.map_values(|v: Vec<char>| v@) == segments(p@),
{
    let mut out: Vec<Vec<char>> = Vec::new();
    let mut start: usize = 0;
    assert(p@.skip(0) =~= p@);
    while start < p.len()
        invariant
            start <= p.len(),
            out@.map_values(|v: Vec<char>| v@) + segments(p@.skip(start as int)) == segments(p@),
        decreases p.len() - start,
    {
        let ghost rest = p@.skip(start as int);
        let mut j: usize = start;
        let mut seg: Vec<char> = Vec::new();
        while j < p.len() && p[j] != '/'
            invariant
                start <= j <= p.len(),
                rest == p@.skip(start as int),
                seg@ =~= p@.subrange(start as int, j as int),
                forall|i: int| start <= i < j ==> p@[i] != '/',
            decreases p.len() - j,
        {
            seg.push(p[j]);
            j = j + 1;
        }
        let ghost before = out@.map_values(|v: Vec<char>| v@);
        let keep = !(seg.len() == 0 || (seg.len() == 1 && seg[0] == '.'));
        proof {
            if seg@.len() == 1 && seg@[0] == '.' {
                assert(seg@ =~= seq!['.']);
            }
            if seg@ == seq!['.'] {
                assert(seg@.len() == 1 && seg@[0] == '.');
            }
        }
        let ghost segv = seg@;
        if keep {
            out.push(seg);
        }
        proof {
            assert(out@.map_values(|v: Vec<char>| v@) =~= before + kept(segv));
        }
        if j < p.len() {
            proof {
                lemma_first_index(rest, '/', j - start);
                assert(rest.take(j - start) =~= segv);
                assert(rest.skip(j - start + 1) =~= p@.skip(j + 1));
                assert(segments(rest) == kept(segv) + segments(p@.skip(j + 1)));
                assert(out@.map_values(|v: Vec<char>| v@) + segments(p@.skip(j + 1)) =~= before
                    + segments(rest));
            }
            start = j + 1;
        } else {
            proof {
                lemma_first_index_none(rest, '/');
                assert(rest =~= segv);
                assert(p@.skip(p.len() as int) =~= Seq::<char>::empty());
                assert(out@.map_values(|v: Vec<char>| v@) + segments(p@.skip(p.len() as int))
                    =~= before + segments(rest));
            }
            start = p.len();
        }
    }
    proof {
        assert(p@.skip(p.len() as int) =~= Seq::<char>::empty());
        assert(out@.map_values(|v: Vec<char>| v@) + Seq::<Seq<char>>::empty() =~= out@.map_values(
            |v: Vec<char>| v@,
        ));
    }
    out
}

fn component_list(p: &[char]) -> (r: Vec<Vec<char>>)
    ensures
        r@.map_values(|v: Vec<char>| v@) == components(p@),
{
    let segs = segment_list(p);
    let lead: Option<char> = if p.len() > 0 && p[0] == '/' {
        Some('/')
    } else if p.len() > 0 && p[0] == '.' && (p.len() == 1 || p[1] == '/') {
        Some('.')
    } else {
        None
    };
    match lead {
        Some(c) => {
            let mut out: Vec<Vec<char>> = Vec::new();
            let mut first: Vec<char> = Vec::new();
            first.push(c);
            out.push(first);
            let ghost head = out@.map_values(|v: Vec<char>| v@);
            assert(head =~= seq![seq![c]]);
            let mut k: usize = 0;
            while k < segs.len()
                invariant
                    k <= segs@.len(),
                    out@.map_values(|v: Vec<char>| v@) =~= head + segs@.map_values(
                        |v: Vec<char>| v@,
                    ).take(k as int),
                decreases segs@.len() - k,
            {
                let ghost before = out@;
                out.push(copy_chars_of(&segs[k]));
                assert(out@.map_values(|v: Vec<char>| v@) =~= before.map_values(
                    |v: Vec<char>| v@,
                ).push(segs@[k as int]@));
                assert(segs@.map_values(|v: Vec<char>| v@).take(k + 1) =~= segs@.map_values(
                    |v: Vec<char>| v@,
                ).take(k as int).push(segs@[k as int]@));
                k = k + 1;
            }
            assert(segs@.map_values(|v: Vec<char>| v@).take(segs@.len() as int) =~= segs@.map_values(
                |v: Vec<char>| v@,
            ));
            out
        },
        None => segs,
    }
}

fn copy_chars_of(v: &Vec<char>) -> (r: Vec<char>)
    ensures
        r@ == v@,
{
    crate::naming::copy_chars(v.as_slice())
}

/// Does `p` start with `base`, component-wise?
pub fn starts_with(p: &str, base: &str) -> (r: bool)
    ensures
        r == spec_starts_with(p@, base@),
{
    let pc = component_list(&chars_of(p));
    let bc = component_list(&chars_of(base));
    let ghost pv = pc@.map_values(|v: Vec<char>| v@);
    let ghost bv = bc@.map_values(|v: Vec<char>| v@);
    if bc.len() > pc.len() {
        return false;
    }
    let mut k: usize = 0;
    while k < bc.len()
        invariant
            k <= bc@.len() <= pc@.len(),
            pv == pc@.map_values(|v: Vec<char>| v@),
            bv == bc@.map_values(|v: Vec<char>| v@),
            pv == components(p@),
            bv == components(base@),
            forall|j: int| 0 <= j < k ==> bv[j] == pv[j],
        decreases bc@.len() - k,
    {
        if !chars_equal(bc[k].as_slice(), pc[k].as_slice()) {
            assert(bv[k as int] != pv[k as int]);
            assert(pv.take(bv.len() as int)[k as int] == pv[k as int]);
            return false;
        }
        k = k + 1;
    }
    assert(bv =~= pv.take(bv.len() as int));
    true
}

/// `Path::parent(p) == Some(dir)`, component-wise: `p` names something directly inside `dir`.
pub open spec fn spec_directly_inside(p: Seq<char>, dir: Seq<char>) -> bool {
    &&& components(p).len() > 0
    &&& components(p).last() != seq!['/']
    &&& components(p).drop_last() == components(dir)
}

/// Does `p` name something directly inside `dir`? A note reached through a symlink may be
/// written only when this holds of where the link really leads.
pub fn directly_inside(p: &str, dir: &str) -> (r: bool)
    ensures
        r == spec_directly_inside(p@, dir@),
{
    let pc = component_list_of(p);
    let dc = component_list_of(dir);
    let ghost pcv = pc@.map_values(|v: Vec<char>| v@);
    let ghost dcv = dc@.map_values(|v: Vec<char>| v@);
    if pc.len() == 0 {
        return false;
    }
    let n = pc.len() - 1;
    let root = pc[n].len() == 1 && pc[n][0] == '/';
    proof {
        assert(pcv.last() == pc@[n as int]@);
        if root {
            assert(pcv.last() =~= seq!['/']);
        }
        if pcv.last() == seq!['/'] {
            assert(pc@[n as int]@.len() == 1 && pc@[n as int]@[0] == '/');
        }
    }
    if root {
        return false;
    }
    if dc.len() != n {
        assert(pcv.drop_last().len() != dcv.len());
        return false;
    }
    let mut k: usize = 0;
    while k < dc.len()
        invariant
            k <= dc@.len(),
            dc@.len() + 1 == pc@.len(),
            pcv == pc@.map_values(|v: Vec<char>| v@),
            dcv == dc@.map_values(|v: Vec<char>| v@),
            pcv == components(p@),
            dcv == components(dir@),
            forall|j: int| 0 <= j < k ==> dcv[j] == pcv[j],
        decreases dc@.len() - k,
    {
        if !chars_equal(dc[k].as_slice(), pc[k].as_slice()) {
            assert(pcv.drop_last()[k as int] == pcv[k as int]);
            return false;
        }
        k = k + 1;
    }
    assert(dcv =~= pcv.drop_last());
    true
}

/// `p` with a leading `~` component replaced by `home`; TOML has no shell expansion, so a
/// config path is expanded here.
pub open spec fn spec_expand_tilde(p: Seq<char>, home: Seq<char>) -> Seq<char> {
    if p.len() > 0 && p[0] == '~' && (p.len() == 1 || p[1] == '/') {
        spec_join(home, without_leading_slashes(p.skip(1)))
    } else {
        p
    }
}

pub open spec fn without_leading_slashes(s: Seq<char>) -> Seq<char>
    decreases s.len(),
{
    if s.len() > 0 && s[0] == '/' {
        without_leading_slashes(s.drop_first())
    } else {
        s
    }
}

pub fn expand_tilde(p: &str, home: &str) -> (r: String)
    ensures
        r@ == spec_expand_tilde(p@, home@),
{
    let v = chars_of(p);
    if v.len() > 0 && v[0] == '~' && (v.len() == 1 || v[1] == '/') {
        let mut i: usize = 1;
        assert(v@.skip(1).skip(0) =~= v@.skip(1));
        while i < v.len() && v[i] == '/'
            invariant
                1 <= i <= v.len(),
                without_leading_slashes(v@.skip(1)) == without_leading_slashes(v@.skip(i as int)),
            decreases v.len() - i,
        {
            assert(v@.skip(i as int).drop_first() =~= v@.skip(i + 1));
            i = i + 1;
        }
        let mut rest: Vec<char> = Vec::new();
        let mut k: usize = i;
        while k < v.len()
            invariant
                i <= k <= v.len(),
                rest@ =~= v@.subrange(i as int, k as int),
            decreases v.len() - k,
        {
            rest.push(v[k]);
            k = k + 1;
        }
        proof {
            assert(rest@ =~= v@.skip(i as int));
            if i == v.len() {
                assert(without_leading_slashes(v@.skip(i as int)) =~= v@.skip(i as int));
            }
        }
        let rest_text = string_of(&rest);
        join(home, rest_text.as_str())
    } else {
        p.to_owned()
    }
}


/// Prefix for in-flight files. The leading dot keeps them out of note listings, and out of a
/// note name, since a note name never starts with a dot.
pub const TEMP_PREFIX: &'static str = ".tmp-";

pub open spec fn trim_end_slashes(s: Seq<char>) -> Seq<char>
    decreases s.len(),
{
    if s.len() > 0 && s.last() == '/' {
        trim_end_slashes(s.drop_last())
    } else {
        s
    }
}

/// Where a file is written before it is renamed over `p`: `.tmp-<name>` in the same
/// directory, so the final rename stays on one filesystem. `None` when `p` names no file
/// (empty, a root, `.` or `..` last).
pub open spec fn spec_staging_path(p: Seq<char>) -> Option<Seq<char>> {
    let t = trim_end_slashes(p);
    let i = last_index_of(t, '/');
    let name = t.skip(i + 1);
    if name.len() == 0 || name == seq!['.'] || name == seq!['.', '.'] {
        None
    } else {
        let parent = if i < 0 {
            Seq::empty()
        } else {
            let head = trim_end_slashes(t.take(i));
            if head.len() == 0 {
                seq!['/']
            } else {
                head
            }
        };
        Some(spec_join(parent, TEMP_PREFIX@ + name))
    }
}

fn trim_end_slash_chars(v: &[char]) -> (r: Vec<char>)
    ensures
        r@ == trim_end_slashes(v@),
{
    let mut out = crate::naming::copy_chars(v);
    while out.len() > 0 && out[out.len() - 1] == '/'
        invariant
            trim_end_slashes(out@) == trim_end_slashes(v@),
        decreases out@.len(),
    {
        let ghost before = out@;
        out.pop();
        assert(out@ =~= before.drop_last());
    }
    out
}

/// The staging path for `p`.
pub fn staging_path(p: &str) -> (r: Option<String>)
    ensures
        opt_text(r) == spec_staging_path(p@),
{
    let t = trim_end_slash_chars(&chars_of(p));
    proof {
        lemma_last_index_bounds(t@, '/');
    }
    let at = last_index(&t, '/');
    let start: usize = match at {
        Some(i) => {
            assert(i < t.len());
            i + 1
        },
        None => 0,
    };
    let mut name: Vec<char> = Vec::new();
    let mut k: usize = start;
    while k < t.len()
        invariant
            start <= k <= t@.len(),
            name@ =~= t@.subrange(start as int, k as int),
        decreases t@.len() - k,
    {
        name.push(t[k]);
        k = k + 1;
    }
    assert(name@ =~= t@.skip(last_index_of(t@, '/') + 1));
    if name.len() == 0 || (name.len() == 1 && name[0] == '.') || (name.len() == 2 && name[0] == '.'
        && name[1] == '.') {
        proof {
            if name@.len() == 1 && name@[0] == '.' {
                assert(name@ =~= seq!['.']);
            }
            if name@.len() == 2 && name@[0] == '.' && name@[1] == '.' {
                assert(name@ =~= seq!['.', '.']);
            }
        }
        return None;
    }
    proof {
        assert(name@ != seq!['.']);
        assert(name@ != seq!['.', '.']);
    }
    let parent: Vec<char> = match at {
        None => Vec::new(),
        Some(i) => {
            let mut head: Vec<char> = Vec::new();
            let mut j: usize = 0;
            while j < i
                invariant
                    j <= i < t@.len(),
                    head@ =~= t@.take(j as int),
                decreases i - j,
            {
                head.push(t[j]);
                j = j + 1;
            }
            let h = trim_end_slash_chars(&head);
            if h.len() == 0 {
                let mut root: Vec<char> = Vec::new();
                root.push('/');
                assert(root@ =~= seq!['/']);
                root
            } else {
                h
            }
        },
    };
    proof {
        if at is None {
            assert(parent@ =~= Seq::<char>::empty());
        }
    }
    let mut file = chars_of(TEMP_PREFIX);
    push_all(&mut file, &name);
    let parent_text = string_of(&parent);
    let file_text = string_of(&file);
    Some(join(parent_text.as_str(), file_text.as_str()))
}

pub open spec fn opt_text(o: Option<String>) -> Option<Seq<char>> {
    match o {
        Some(s) => Some(s@),
        None => None,
    }
}


/// The components of a path, as text.
pub fn component_list_of(p: &str) -> (r: Vec<Vec<char>>)
    ensures
        r@.map_values(|v: Vec<char>| v@) == components(p@),
{
    component_list(&chars_of(p))
}

/// Joining at a separator joins the named components: `a/b` has those of `a`, then those
/// of `b`.
pub proof fn lemma_segments_concat(a: Seq<char>, b: Seq<char>)
    ensures
        segments(a + seq!['/'] + b) == segments(a) + segments(b),
    decreases a.len(),
{
    let p = a + seq!['/'] + b;
    lemma_first_index_bounds(a, '/');
    let i = first_index_of(a, '/');
    if i < 0 {
        assert(p[a.len() as int] == '/');
        assert forall|j: int| 0 <= j < a.len() implies p[j] != '/' by {
            assert(p[j] == a[j]);
        }
        lemma_first_index(p, '/', a.len() as int);
        assert(p.take(a.len() as int) =~= a);
        assert(p.skip(a.len() as int + 1) =~= b);
        if a.len() == 0 {
            assert(segments(a) =~= Seq::<Seq<char>>::empty());
            assert(kept(a) =~= Seq::<Seq<char>>::empty());
        }
        assert(segments(p) == kept(a) + segments(b));
    } else {
        assert(p[i] == '/');
        assert forall|j: int| 0 <= j < i implies p[j] != '/' by {
            assert(p[j] == a[j]);
        }
        lemma_first_index(p, '/', i);
        assert(p.take(i) =~= a.take(i));
        assert(p.skip(i + 1) =~= a.skip(i + 1) + seq!['/'] + b);
        lemma_segments_concat(a.skip(i + 1), b);
        assert(segments(p) == kept(a.take(i)) + segments(a.skip(i + 1) + seq!['/'] + b));
        assert(segments(a) == kept(a.take(i)) + segments(a.skip(i + 1)));
        assert(segments(p) =~= segments(a) + segments(b));
    }
}

/// A name with no separator, other than `.`, is one component.
pub proof fn lemma_segments_of_a_name(n: Seq<char>)
    requires
        n.len() > 0,
        !n.contains('/'),
        n != seq!['.'],
    ensures
        segments(n) == seq![n],
{
    assert forall|j: int| 0 <= j < n.len() implies n[j] != '/' by {
        if n[j] == '/' {
            assert(n.contains('/'));
        }
    }
    lemma_first_index_none(n, '/');
}

/// The components of `root/name`: those of `root`, then `name`.
pub proof fn lemma_components_of_a_child(root: Seq<char>, n: Seq<char>)
    requires
        root.len() > 0,
        n.len() > 0,
        !n.contains('/'),
        n != seq!['.'],
    ensures
        components(root + seq!['/'] + n) == components(root) + seq![n],
{
    let p = root + seq!['/'] + n;
    lemma_segments_concat(root, n);
    lemma_segments_of_a_name(n);
    assert(p[0] == root[0]);
    if root.len() > 1 {
        assert(p[1] == root[1]);
    } else {
        assert(p[1] == '/');
    }
    assert(leads_with_cur_dir(p) == leads_with_cur_dir(root));
    assert(components(p) =~= components(root) + seq![n]);
}

} // verus!
