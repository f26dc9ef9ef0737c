//! Deriving a note's title slug from its first line.

use vstd::prelude::*;

use crate::naming::{MAX_SLUG_LEN, last_index, last_index_of, lemma_last_index_bounds};
use crate::text::{chars_of, string_of};

verus! {

/// `char::is_alphanumeric`: Unicode `Alphabetic` or `Numeric`. Tables, not a formula, so it
/// is named rather than written out.
pub uninterp spec fn spec_is_alphanumeric(c: char) -> bool;

/// Calls `char::is_alphanumeric`, a function of the character alone.
#[verifier::external_body]
fn is_alphanumeric(c: char) -> (r: bool)
    ensures
        r == spec_is_alphanumeric(c),
{
    c.is_alphanumeric()
}

/// `char::is_whitespace`: the Unicode `White_Space` property, which is these code points.
pub open spec fn is_unicode_whitespace(c: char) -> bool {
    ||| '\u{9}' <= c && c <= '\u{D}'
    ||| c == ' '
    ||| c == '\u{85}'
    ||| c == '\u{A0}'
    ||| c == '\u{1680}'
    ||| '\u{2000}' <= c && c <= '\u{200A}'
    ||| c == '\u{2028}'
    ||| c == '\u{2029}'
    ||| c == '\u{202F}'
    ||| c == '\u{205F}'
    ||| c == '\u{3000}'
}

pub fn is_whitespace(c: char) -> (r: bool)
    ensures
        r == is_unicode_whitespace(c),
{
    ('\u{9}' <= c && c <= '\u{D}') || c == ' ' || c == '\u{85}' || c == '\u{A0}' || c
        == '\u{1680}' || ('\u{2000}' <= c && c <= '\u{200A}') || c == '\u{2028}' || c
        == '\u{2029}' || c == '\u{202F}' || c == '\u{205F}' || c == '\u{3000}'
}

/// What `slug::slugify` returns for this text. Its transliteration tables are not stated
/// here; its output shape is, below.
pub uninterp spec fn spec_slugify(s: Seq<char>) -> Seq<char>;

pub open spec fn slug_char(c: char) -> bool {
    ('a' <= c && c <= 'z') || ('0' <= c && c <= '9') || c == '-'
}

/// The shape `slug::slugify` documents for its output: only `a-z`, `0-9` and `-`, never two
/// dashes in a row, never a dash at either end.
pub open spec fn slug_shaped(s: Seq<char>) -> bool {
    &&& forall|i: int| 0 <= i < s.len() ==> slug_char(#[trigger] s[i])
    &&& forall|i: int| 0 < i < s.len() && #[trigger] s[i] == '-' ==> s[i - 1] != '-'
    &&& s.len() > 0 ==> s[0] != '-' && s.last() != '-'
}

/// Calls `slug::slugify`.
///
/// The crate documents that the result "will consist of a-z, 0-9, and '-'", "will never
/// contain more than one '-' in a row and will never start or end with '-'", which is the
/// shape claimed; the result itself is named, since its transliteration goes through
/// `deunicode` tables.
#[verifier::external_body]
fn slugify(s: &str) -> (r: String)
    ensures
        r@ == spec_slugify(s@),
        slug_shaped(r@),
{
    slug::slugify(s)
}

/// The first line, as `str::lines` yields it: up to the first `\n`, without a `\r` that
/// stood right before it. Empty text has no line, which the caller reads as empty.
pub open spec fn first_line(s: Seq<char>) -> Seq<char> {
    let i = first_index_of(s, '\n');
    if i < 0 {
        s
    } else {
        let line = s.take(i);
        if line.len() > 0 && line.last() == '\r' {
            line.drop_last()
        } else {
            line
        }
    }
}

pub open spec fn first_index_of(s: Seq<char>, c: char) -> int
    decreases s.len(),
{
    if s.len() == 0 {
        -1
    } else if s[0] == c {
        0
    } else {
        let rest = first_index_of(s.drop_first(), c);
        if rest < 0 {
            -1
        } else {
            rest + 1
        }
    }
}

/// Leading characters satisfying neither rule dropped: whitespace first, then `#`.
pub open spec fn trim_start_ws(s: Seq<char>) -> Seq<char>
    decreases s.len(),
{
    if s.len() > 0 && is_unicode_whitespace(s[0]) {
        trim_start_ws(s.drop_first())
    } else {
        s
    }
}

pub open spec fn trim_start_hashes(s: Seq<char>) -> Seq<char>
    decreases s.len(),
{
    if s.len() > 0 && s[0] == '#' {
        trim_start_hashes(s.drop_first())
    } else {
        s
    }
}

/// The part of the text the slug is made from: line 1, leading whitespace and Markdown
/// heading hashes removed.
pub open spec fn title_text(text: Seq<char>) -> Seq<char> {
    trim_start_hashes(trim_start_ws(first_line(text)))
}

pub open spec fn trim_end_dashes(s: Seq<char>) -> Seq<char>
    decreases s.len(),
{
    if s.len() > 0 && s.last() == '-' {
        trim_end_dashes(s.drop_last())
    } else {
        s
    }
}

/// Cut to `max`, at the last `-` inside the limit when there is one past the start, then
/// without trailing dashes. Short enough already means untouched.
pub open spec fn spec_truncate(s: Seq<char>, max: nat) -> Seq<char> {
    if s.len() <= max {
        s
    } else {
        let head = s.take(max as int);
        let b = last_index_of(head, '-');
        let cut = if b <= 0 {
            head
        } else {
            head.take(b)
        };
        trim_end_dashes(cut)
    }
}

/// The slug a note's text yields, or `None` when line 1 carries no letter or digit or the
/// slug comes out empty.
pub open spec fn spec_slug_from_first_line(text: Seq<char>) -> Option<Seq<char>> {
    let title = title_text(text);
    if !(exists|i: int| 0 <= i < title.len() && spec_is_alphanumeric(#[trigger] title[i])) {
        None
    } else {
        let slug = spec_truncate(spec_slugify(title), MAX_SLUG_LEN as nat);
        if slug.len() == 0 {
            None
        } else {
            Some(slug)
        }
    }
}

fn first_line_chars(v: &[char]) -> (r: Vec<char>)
    ensures
        r@ == first_line(v@),
{
    let mut out: Vec<char> = Vec::new();
    let mut i: usize = 0;
    while i < v.len()
        invariant
            i <= v.len(),
            out@ =~= v@.take(i as int),
            forall|j: int| 0 <= j < i ==> v@[j] != '\n',
        decreases v.len() - i,
    {
        if v[i] == '\n' {
            proof {
                lemma_first_index(v@, '\n', i as int);
            }
            if out.len() > 0 && out[out.len() - 1] == '\r' {
                out.pop();
            }
            return out;
        }
        out.push(v[i]);
        i = i + 1;
    }
    proof {
        lemma_first_index_none(v@, '\n');
        assert(v@.take(v.len() as int) =~= v@);
    }
    out
}

pub proof fn lemma_first_index(s: Seq<char>, c: char, i: int)
    requires
        0 <= i < s.len(),
        s[i] == c,
        forall|j: int| 0 <= j < i ==> s[j] != c,
    ensures
        first_index_of(s, c) == i,
    decreases i,
{
    if i > 0 {
        lemma_first_index(s.drop_first(), c, i - 1);
    }
}

pub proof fn lemma_first_index_none(s: Seq<char>, c: char)
    requires
        forall|j: int| 0 <= j < s.len() ==> s[j] != c,
    ensures
        first_index_of(s, c) == -1,
    decreases s.len(),
{
    if s.len() > 0 {
        lemma_first_index_none(s.drop_first(), c);
    }
}

fn title_chars(text: &[char]) -> (r: Vec<char>)
    ensures
        r@ == title_text(text@),
{
    let line = first_line_chars(text);
    let mut i: usize = 0;
    assert(line@.skip(0) =~= line@);
    while i < line.len() && is_whitespace(line[i])
        invariant
            i <= line.len(),
            trim_start_ws(line@) == trim_start_ws(line@.skip(i as int)),
        decreases line.len() - i,
    {
        proof {
            assert(line@.skip(i as int).drop_first() =~= line@.skip(i + 1));
        }
        i = i + 1;
    }
    let mut j: usize = i;
    while j < line.len() && line[j] == '#'
        invariant
            i <= j <= line.len(),
            trim_start_hashes(trim_start_ws(line@)) == trim_start_hashes(line@.skip(j as int)),
        decreases line.len() - j,
    {
        proof {
            assert(line@.skip(j as int).drop_first() =~= line@.skip(j + 1));
        }
        j = j + 1;
    }
    let mut out: Vec<char> = Vec::new();
    let mut k: usize = j;
    while k < line.len()
        invariant
            j <= k <= line.len(),
            out@ =~= line@.subrange(j as int, k as int),
        decreases line.len() - k,
    {
        out.push(line[k]);
        k = k + 1;
    }
    proof {
        assert(line@.skip(i as int) =~= line@.subrange(i as int, line.len() as int));
        if i == line.len() {
            assert(trim_start_ws(line@.skip(i as int)) =~= line@.skip(i as int));
        }
        if j == line.len() {
            assert(trim_start_hashes(line@.skip(j as int)) =~= line@.skip(j as int));
        }
        assert(out@ =~= line@.skip(j as int));
    }
    out
}

fn trim_end_dash_chars(v: &mut Vec<char>)
    ensures
        final(v)@ == trim_end_dashes(old(v)@),
{
    while v.len() > 0 && v[v.len() - 1] == '-'
        invariant
            trim_end_dashes(v@) == trim_end_dashes(old(v)@),
        decreases v.len(),
    {
        let ghost before = v@;
        v.pop();
        assert(v@ =~= before.drop_last());
    }
}

/// Cut a slug to `max`, preferring a `-` boundary so words survive intact. A single word
/// longer than the limit is hard-truncated — a too-long name beats no name.
pub fn truncate_on_word_boundary(slug: &[char], max: usize) -> (r: Vec<char>)
    ensures
        r@ == spec_truncate(slug@, max as nat),
{
    let mut head: Vec<char> = Vec::new();
    let n = if slug.len() <= max {
        slug.len()
    } else {
        max
    };
    let mut k: usize = 0;
    while k < n
        invariant
            k <= n <= slug.len(),
            head@ =~= slug@.take(k as int),
        decreases n - k,
    {
        head.push(slug[k]);
        k = k + 1;
    }
    if slug.len() <= max {
        assert(slug@.take(slug.len() as int) =~= slug@);
        return head;
    }
    let mut cut = match last_index(&head, '-') {
        Some(b) => {
            if b == 0 {
                head
            } else {
                let mut c: Vec<char> = Vec::new();
                let mut k: usize = 0;
                while k < b
                    invariant
                        k <= b < head.len(),
                        c@ =~= head@.take(k as int),
                    decreases b - k,
                {
                    c.push(head[k]);
                    k = k + 1;
                }
                c
            }
        },
        None => head,
    };
    trim_end_dash_chars(&mut cut);
    cut
}

/// Derive a slug from a note's first line, or `None` if the line yields nothing usable.
///
/// `None` means "still unslugged" — the caller retries on a later save rather than inventing
/// a name.
pub fn slug_from_first_line(text: &str) -> (r: Option<String>)
    ensures
        r is Some == spec_slug_from_first_line(text@) is Some,
        r matches Some(s) ==> Some(s@) == spec_slug_from_first_line(text@),
        r matches Some(s) ==> {
            &&& 0 < s@.len() <= MAX_SLUG_LEN
            &&& slug_shaped(s@)
        },
{
    let v = chars_of(text);
    let title = title_chars(&v);
    let mut found = false;
    let mut i: usize = 0;
    while i < title.len()
        invariant
            i <= title.len(),
            found == (exists|j: int| 0 <= j < i && spec_is_alphanumeric(#[trigger] title@[j])),
        decreases title.len() - i,
    {
        if is_alphanumeric(title[i]) {
            found = true;
        }
        i = i + 1;
    }
    if !found {
        return None;
    }
    let title_text = string_of(&title);
    let slugged = slugify(title_text.as_str());
    let sv = chars_of(slugged.as_str());
    let cut = truncate_on_word_boundary(&sv, MAX_SLUG_LEN);
    proof {
        lemma_truncate_shaped(sv@, MAX_SLUG_LEN as nat);
    }
    if cut.len() == 0 {
        None
    } else {
        Some(string_of(&cut))
    }
}

proof fn lemma_trim_end_dashes_prefix(s: Seq<char>)
    ensures
        trim_end_dashes(s).len() <= s.len(),
        trim_end_dashes(s) =~= s.take(trim_end_dashes(s).len() as int),
        trim_end_dashes(s).len() > 0 ==> trim_end_dashes(s).last() != '-',
    decreases s.len(),
{
    if s.len() > 0 && s.last() == '-' {
        lemma_trim_end_dashes_prefix(s.drop_last());
    }
}

/// Truncating a slug-shaped text keeps it slug-shaped and within the bound, and a non-empty
/// slug stays non-empty.
pub proof fn lemma_truncate_shaped(s: Seq<char>, max: nat)
    requires
        slug_shaped(s),
        max > 0,
    ensures
        slug_shaped(spec_truncate(s, max)),
        spec_truncate(s, max).len() <= max,
        s.len() > 0 ==> spec_truncate(s, max).len() > 0,
{
    if s.len() > max {
        let head = s.take(max as int);
        lemma_last_index_bounds(head, '-');
        let b = last_index_of(head, '-');
        let cut = if b <= 0 {
            head
        } else {
            head.take(b)
        };
        lemma_trim_end_dashes_prefix(cut);
        let t = trim_end_dashes(cut);
        assert(t =~= s.take(t.len() as int));
        if b > 0 {
            assert(s[b] == '-');
            assert(s[b - 1] != '-');
            assert(cut.last() == s[b - 1]);
            assert(t =~= cut);
        } else {
            assert(b != 0) by {
                if b == 0 {
                    assert(s[0] == '-');
                }
            }
            assert(cut.last() == s[max - 1]);
            assert(head.last() != '-');
            assert(t =~= cut);
        }
        assert(t.len() > 0);
        assert forall|i: int| 0 <= i < t.len() implies slug_char(#[trigger] t[i]) by {
            assert(t[i] == s[i]);
        }
        assert forall|i: int| 0 < i < t.len() && #[trigger] t[i] == '-' implies t[i - 1]
            != '-' by {
            assert(t[i] == s[i]);
            assert(t[i - 1] == s[i - 1]);
        }
    }
}

} // verus!
