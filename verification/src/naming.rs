//! Note naming: timestamp names and the frozen slug.
//!
//! A note is born as `YYYY-MM-DD-HHMM.<ext>`. On the first save where line 1 has content it
//! is renamed once to `YYYY-MM-DD-HHMM-<slug>.<ext>`, and the name freezes there — later
//! edits to line 1 never re-slug, so a note's name stays stable enough to reference.

use vstd::prelude::*;

use crate::note::{
    Format, NoteId, ascii_lower_seq, format_of_extension, format_of_name, valid_note_name,
};
use crate::text::{chars_of, string_of};
use crate::slug::{slug_char, slug_shaped};

verus! {

/// Longest slug appended to a note name.
pub const MAX_SLUG_LEN: usize = 40;

/// Width of the `YYYY-MM-DD-HHMM` prefix.
pub const TIMESTAMP_LEN: usize = 15;

// --- the shape of a name -----------------------------------------------------------------

/// Index of the last `c` in `s`, or -1.
pub open spec fn last_index_of(s: Seq<char>, c: char) -> int
    decreases s.len(),
{
    if s.len() == 0 {
        -1
    } else if s.last() == c {
        s.len() - 1
    } else {
        last_index_of(s.drop_last(), c)
    }
}

/// Stem and extension: split at the last dot, when both sides are non-empty.
pub open spec fn spec_split_extension(s: Seq<char>) -> (Seq<char>, Option<Seq<char>>) {
    let i = last_index_of(s, '.');
    if 0 < i && i < s.len() - 1 {
        (s.take(i), Some(s.skip(i + 1)))
    } else {
        (s, None)
    }
}

pub open spec fn is_ascii_digit(c: char) -> bool {
    '0' <= c && c <= '9'
}

/// Exactly the shape `YYYY-MM-DD-HHMM`: fifteen characters, dashes at 4, 7 and 10, ASCII
/// digits everywhere else.
pub open spec fn spec_is_timestamp(s: Seq<char>) -> bool {
    &&& s.len() == TIMESTAMP_LEN
    &&& forall|i: int|
        0 <= i < s.len() ==> if i == 4 || i == 7 || i == 10 {
            s[i] == '-'
        } else {
            is_ascii_digit(#[trigger] s[i])
        }
}

/// A name whose stem is exactly a timestamp has not been slugged yet; anything else has.
pub open spec fn spec_is_slugged(name: Seq<char>) -> bool {
    !spec_is_timestamp(spec_split_extension(name).0)
}

/// The part of the stem the slug is appended to: the leading timestamp when there is one,
/// else the whole stem.
pub open spec fn slug_prefix(stem: Seq<char>) -> Seq<char> {
    if stem.len() >= TIMESTAMP_LEN && spec_is_timestamp(stem.take(TIMESTAMP_LEN as int)) {
        stem.take(TIMESTAMP_LEN as int)
    } else {
        stem
    }
}

pub open spec fn spec_slugged_name(original: Seq<char>, slug: Seq<char>) -> Seq<char> {
    let (stem, ext) = spec_split_extension(original);
    let prefix = slug_prefix(stem);
    match ext {
        Some(e) => prefix + seq!['-'] + slug + seq!['.'] + e,
        None => prefix + seq!['-'] + slug,
    }
}

pub open spec fn digit(d: nat) -> char {
    if d == 0 { '0' }
    else if d == 1 { '1' }
    else if d == 2 { '2' }
    else if d == 3 { '3' }
    else if d == 4 { '4' }
    else if d == 5 { '5' }
    else if d == 6 { '6' }
    else if d == 7 { '7' }
    else if d == 8 { '8' }
    else { '9' }
}

/// The decimal digits of `n`, as `Display` for an unsigned integer prints them.
pub open spec fn decimal(n: nat) -> Seq<char>
    decreases n,
{
    if n < 10 {
        seq![digit(n)]
    } else {
        decimal(n / 10).push(digit(n % 10))
    }
}

pub open spec fn spec_with_suffix(name: Seq<char>, n: nat) -> Seq<char> {
    let (stem, ext) = spec_split_extension(name);
    match ext {
        Some(e) => stem + seq!['-'] + decimal(n) + seq!['.'] + e,
        None => stem + seq!['-'] + decimal(n),
    }
}

/// The leading timestamp of a name's stem, if it has one.
pub open spec fn spec_timestamp_prefix(name: Seq<char>) -> Option<Seq<char>> {
    let stem = spec_split_extension(name).0;
    if stem.len() >= TIMESTAMP_LEN && spec_is_timestamp(stem.take(TIMESTAMP_LEN as int)) {
        Some(stem.take(TIMESTAMP_LEN as int))
    } else {
        None
    }
}

// --- executable forms ----------------------------------------------------------------------

/// Index of the last `c`, or `None`.
pub fn last_index(v: &[char], c: char) -> (r: Option<usize>)
    ensures
        r matches Some(i) ==> i as int == last_index_of(v@, c),
        r is None ==> last_index_of(v@, c) == -1,
        last_index_of(v@, c) < v@.len(),
{
    let mut k: usize = v.len();
    proof {
        assert(v@.take(v.len() as int) =~= v@);
        lemma_last_index_bounds(v@, c);
    }
    while k > 0
        invariant
            k <= v.len(),
            last_index_of(v@, c) == last_index_of(v@.take(k as int), c),
        decreases k,
    {
        let ghost t = v@.take(k as int);
        assert(t.drop_last() =~= v@.take(k - 1));
        if v[k - 1] == c {
            return Some(k - 1);
        }
        k = k - 1;
    }
    assert(v@.take(0) =~= Seq::<char>::empty());
    None
}

/// `spec_split_extension`, over characters.
pub fn split_extension_chars(v: &[char]) -> (r: (Vec<char>, Option<Vec<char>>))
    ensures
        r.0@ == spec_split_extension(v@).0,
        r.1 is Some == spec_split_extension(v@).1 is Some,
        r.1 matches Some(e) ==> Some(e@) == spec_split_extension(v@).1,
{
    proof {
        lemma_last_index_bounds(v@, '.');
    }
    match last_index(v, '.') {
        Some(i) => {
            if 0 < i && i < v.len() - 1 {
                let mut stem: Vec<char> = Vec::new();
                let mut k: usize = 0;
                while k < i
                    invariant
                        k <= i,
                        i < v.len(),
                        stem@ =~= v@.take(k as int),
                    decreases i - k,
                {
                    stem.push(v[k]);
                    k = k + 1;
                }
                let mut ext: Vec<char> = Vec::new();
                let mut k: usize = i + 1;
                while k < v.len()
                    invariant
                        i + 1 <= k <= v.len(),
                        ext@ =~= v@.subrange(i + 1, k as int),
                    decreases v.len() - k,
                {
                    ext.push(v[k]);
                    k = k + 1;
                }
                (stem, Some(ext))
            } else {
                (copy_chars(v), None)
            }
        },
        None => (copy_chars(v), None),
    }
}

pub proof fn lemma_last_index_bounds(s: Seq<char>, c: char)
    ensures
        -1 <= last_index_of(s, c) < s.len(),
        last_index_of(s, c) >= 0 ==> s[last_index_of(s, c)] == c,
        forall|j: int| last_index_of(s, c) < j < s.len() ==> s[j] != c,
    decreases s.len(),
{
    if s.len() > 0 && s.last() != c {
        lemma_last_index_bounds(s.drop_last(), c);
        assert forall|j: int| last_index_of(s, c) < j < s.len() implies s[j] != c by {
            if j < s.len() - 1 {
                assert(s[j] == s.drop_last()[j]);
            }
        }
    }
}

pub fn copy_chars(v: &[char]) -> (r: Vec<char>)
    ensures
        r@ == v@,
{
    let mut out: Vec<char> = Vec::new();
    let mut k: usize = 0;
    while k < v.len()
        invariant
            k <= v.len(),
            out@ =~= v@.take(k as int),
        decreases v.len() - k,
    {
        out.push(v[k]);
        k = k + 1;
    }
    assert(v@.take(v.len() as int) =~= v@);
    out
}

/// Split a note name into stem and extension. Note names never start with `.`, so there is
/// no dotfile ambiguity here.
pub fn split_extension(name: &str) -> (r: (String, Option<String>))
    ensures
        r.0@ == spec_split_extension(name@).0,
        r.1 is Some == spec_split_extension(name@).1 is Some,
        r.1 matches Some(e) ==> Some(e@) == spec_split_extension(name@).1,
{
    let v = chars_of(name);
    let (stem, ext) = split_extension_chars(&v);
    let stem_text = string_of(&stem);
    match ext {
        Some(e) => (stem_text, Some(string_of(&e))),
        None => (stem_text, None),
    }
}

pub fn is_digit(c: char) -> (r: bool)
    ensures
        r == is_ascii_digit(c),
{
    '0' <= c && c <= '9'
}

/// Does this have the exact shape `YYYY-MM-DD-HHMM`?
pub fn is_timestamp(s: &[char]) -> (r: bool)
    ensures
        r == spec_is_timestamp(s@),
{
    if s.len() != TIMESTAMP_LEN {
        return false;
    }
    let mut i: usize = 0;
    while i < s.len()
        invariant
            s.len() == TIMESTAMP_LEN,
            i <= s.len(),
            forall|j: int|
                0 <= j < i ==> if j == 4 || j == 7 || j == 10 {
                    s@[j] == '-'
                } else {
                    is_ascii_digit(#[trigger] s@[j])
                },
        decreases s.len() - i,
    {
        let ok = if i == 4 || i == 7 || i == 10 {
            s[i] == '-'
        } else {
            is_digit(s[i])
        };
        if !ok {
            return false;
        }
        i = i + 1;
    }
    true
}

/// Has this note already been renamed to its frozen slug?
///
/// Derived from the name's shape: a stem that is exactly a timestamp has not been slugged
/// yet. Anything else — including a file the user created by hand — counts as slugged and is
/// never renamed.
pub fn is_slugged(id: &NoteId) -> (r: bool)
    ensures
        r == spec_is_slugged(id@),
{
    let v = chars_of(id.as_str());
    let (stem, _ext) = split_extension_chars(&v);
    !is_timestamp(&stem)
}

fn take_chars(v: &[char], n: usize) -> (r: Vec<char>)
    requires
        n <= v.len(),
    ensures
        r@ == v@.take(n as int),
{
    let mut out: Vec<char> = Vec::new();
    let mut k: usize = 0;
    while k < n
        invariant
            k <= n <= v.len(),
            out@ =~= v@.take(k as int),
        decreases n - k,
    {
        out.push(v[k]);
        k = k + 1;
    }
    out
}

pub fn push_all(out: &mut Vec<char>, v: &[char])
    ensures
        final(out)@ == old(out)@ + v@,
{
    let mut k: usize = 0;
    let ghost start = out@;
    while k < v.len()
        invariant
            k <= v.len(),
            out@ =~= start + v@.take(k as int),
        decreases v.len() - k,
    {
        out.push(v[k]);
        k = k + 1;
    }
    assert(v@.take(v.len() as int) =~= v@);
}

fn prefix_of_stem(stem: &[char]) -> (r: Vec<char>)
    ensures
        r@ == slug_prefix(stem@),
{
    if stem.len() >= TIMESTAMP_LEN {
        let head = take_chars(stem, TIMESTAMP_LEN);
        if is_timestamp(&head) {
            return head;
        }
    }
    copy_chars(stem)
}

/// Build the slugged name, keeping the original timestamp prefix and extension.
pub fn slugged_name(original: &NoteId, slug: &str) -> (r: String)
    ensures
        r@ == spec_slugged_name(original@, slug@),
{
    let v = chars_of(original.as_str());
    let s = chars_of(slug);
    let (stem, ext) = split_extension_chars(&v);
    let mut out = prefix_of_stem(&stem);
    out.push('-');
    push_all(&mut out, &s);
    match ext {
        Some(e) => {
            out.push('.');
            push_all(&mut out, &e);
        },
        None => {},
    }
    string_of(&out)
}

fn digit_char(d: usize) -> (c: char)
    requires
        d < 10,
    ensures
        c == digit(d as nat),
{
    if d == 0 { '0' }
    else if d == 1 { '1' }
    else if d == 2 { '2' }
    else if d == 3 { '3' }
    else if d == 4 { '4' }
    else if d == 5 { '5' }
    else if d == 6 { '6' }
    else if d == 7 { '7' }
    else if d == 8 { '8' }
    else { '9' }
}

/// Append the decimal digits of `n`.
pub fn push_decimal(out: &mut Vec<char>, n: usize)
    ensures
        final(out)@ == old(out)@ + decimal(n as nat),
    decreases n,
{
    if n >= 10 {
        push_decimal(out, n / 10);
    }
    out.push(digit_char(n % 10));
    proof {
        if n >= 10 {
            assert(decimal(n as nat) == decimal((n / 10) as nat).push(digit((n % 10) as nat)));
        }
    }
}

/// Disambiguate a name that is already taken: `note.md` becomes `note-2.md`.
pub fn with_suffix(name: &str, n: usize) -> (r: String)
    ensures
        r@ == spec_with_suffix(name@, n as nat),
{
    let v = chars_of(name);
    let (stem, ext) = split_extension_chars(&v);
    let mut out = stem;
    out.push('-');
    push_decimal(&mut out, n);
    match ext {
        Some(e) => {
            out.push('.');
            push_all(&mut out, &e);
        },
        None => {},
    }
    string_of(&out)
}

/// The leading `YYYY-MM-DD-HHMM` of a name's stem, if it has one — the part of a name that
/// the rename on first content leaves alone.
pub fn timestamp_prefix(name: &str) -> (r: Option<String>)
    ensures
        r is Some == spec_timestamp_prefix(name@) is Some,
        r matches Some(p) ==> Some(p@) == spec_timestamp_prefix(name@),
{
    let v = chars_of(name);
    let (stem, _ext) = split_extension_chars(&v);
    if stem.len() >= TIMESTAMP_LEN {
        let head = take_chars(&stem, TIMESTAMP_LEN);
        if is_timestamp(&head) {
            return Some(string_of(&head));
        }
    }
    None
}


// --- naming a new note -------------------------------------------------------------------

/// A civil minute, in the zone the note is named in: what its name records of when it was
/// made.
#[derive(Debug, Clone, Copy, PartialEq, Eq, Structural)]
pub struct Minute {
    pub year: i16,
    pub month: i8,
    pub day: i8,
    pub hour: i8,
    pub minute: i8,
}

/// A minute a civil clock can read: years from -9999 to 9999, months, days, hours and
/// minutes in their ranges.
pub open spec fn valid_minute(t: Minute) -> bool {
    &&& -9999 <= t.year <= 9999
    &&& 1 <= t.month <= 12
    &&& 1 <= t.day <= 31
    &&& 0 <= t.hour <= 23
    &&& 0 <= t.minute <= 59
}

impl Minute {
    /// Is this a minute a civil clock can read?
    pub fn is_valid(&self) -> (r: bool)
        ensures
            r == valid_minute(*self),
    {
        -9999 <= self.year && self.year <= 9999 && 1 <= self.month && self.month <= 12 && 1
            <= self.day && self.day <= 31 && 0 <= self.hour && self.hour <= 23 && 0 <= self.minute
            && self.minute <= 59
    }
}

/// `k` zeros, none when `k` is not positive.
pub open spec fn zeros(k: int) -> Seq<char> {
    Seq::new(if k > 0 { k as nat } else { 0 }, |_i: int| '0')
}

/// `n` in decimal, zero-padded on the left to at least `width` digits.
pub open spec fn padded(n: nat, width: nat) -> Seq<char> {
    zeros(width - decimal(n).len()) + decimal(n)
}

/// The year as `%Y` prints it: four digits, zero-padded; a year before 0 as its sign and
/// three.
pub open spec fn year_text(y: int) -> Seq<char> {
    if y >= 0 {
        padded(y as nat, 4)
    } else {
        seq!['-'] + padded((-y) as nat, 3)
    }
}

/// The stamp a note made in minute `t` is named with: `YYYY-MM-DD-HHMM`, the form
/// `%Y-%m-%d-%H%M` prints.
pub open spec fn stamp_of(t: Minute) -> Seq<char> {
    year_text(t.year as int) + seq!['-'] + padded(t.month as nat, 2) + seq!['-'] + padded(
        t.day as nat,
        2,
    ) + seq!['-'] + padded(t.hour as nat, 2) + padded(t.minute as nat, 2)
}

/// How many digits `n` has, below ten thousand.
proof fn lemma_decimal_len(n: nat)
    requires
        n < 10000,
    ensures
        decimal(n).len() == if n < 10 {
            1int
        } else if n < 100 {
            2int
        } else if n < 1000 {
            3int
        } else {
            4int
        },
    decreases n,
{
    if n >= 10 {
        assert(n / 10 < 1000) by (nonlinear_arith)
            requires
                n < 10000,
        ;
        assert(n < 100 ==> n / 10 < 10) by (nonlinear_arith);
        assert(n >= 100 ==> n / 10 >= 10) by (nonlinear_arith);
        assert(n < 1000 ==> n / 10 < 100) by (nonlinear_arith);
        assert(n >= 1000 ==> n / 10 >= 100) by (nonlinear_arith);
        lemma_decimal_len(n / 10);
    }
}

/// Every character of a decimal is an ASCII digit.
proof fn lemma_decimal_digits(n: nat)
    ensures
        forall|i: int| 0 <= i < decimal(n).len() ==> is_ascii_digit(#[trigger] decimal(n)[i]),
    decreases n,
{
    if n >= 10 {
        lemma_decimal_digits(n / 10);
        let d = decimal(n / 10).push(digit(n % 10));
        assert forall|i: int| 0 <= i < d.len() implies is_ascii_digit(#[trigger] d[i]) by {
            if i < d.len() - 1 {
                assert(d[i] == decimal(n / 10)[i]);
            }
        }
    }
}

/// Append `n` zero-padded to `width` digits.
fn push_padded(out: &mut Vec<char>, n: u16, width: u16)
    requires
        n < 10000,
    ensures
        final(out)@ == old(out)@ + padded(n as nat, width as nat),
{
    proof {
        lemma_decimal_len(n as nat);
    }
    let len: u16 = if n < 10 {
        1
    } else if n < 100 {
        2
    } else if n < 1000 {
        3
    } else {
        4
    };
    let ghost start = out@;
    let mut k: u16 = len;
    while k < width
        invariant
            len == decimal(n as nat).len(),
            len <= k,
            k <= width || k == len,
            out@ == start + zeros(k - len),
        decreases width - k,
    {
        out.push('0');
        assert(zeros(k + 1 - len) =~= zeros(k - len).push('0'));
        k = k + 1;
    }
    assert(zeros(k - len) =~= zeros(width - len));
    push_decimal(out, n as usize);
    assert(out@ =~= start + padded(n as nat, width as nat));
}

/// Name for a freshly created note: `YYYY-MM-DD-HHMM.<ext>`, for the minute `now` in the
/// zone it was read in.
///
/// Two notes created in the same minute collide. That is resolved where the directory
/// listing is available, at the file-creation call site.
pub fn new_note_name(now: Minute, ext: &str) -> (r: String)
    requires
        valid_minute(now),
    ensures
        r@ == stamp_of(now) + seq!['.'] + ext@,
{
    let mut out: Vec<char> = Vec::new();
    if now.year >= 0 {
        push_padded(&mut out, now.year as u16, 4);
    } else {
        out.push('-');
        push_padded(&mut out, (-now.year) as u16, 3);
    }
    out.push('-');
    push_padded(&mut out, now.month as u16, 2);
    out.push('-');
    push_padded(&mut out, now.day as u16, 2);
    out.push('-');
    push_padded(&mut out, now.hour as u16, 2);
    push_padded(&mut out, now.minute as u16, 2);
    out.push('.');
    push_all(&mut out, &chars_of(ext));
    let r = string_of(&out);
    assert(r@ =~= stamp_of(now) + seq!['.'] + ext@);
    r
}

/// A padded number that fits its width is exactly that wide, all digits.
proof fn lemma_padded_digits(n: nat, w: nat)
    requires
        n < 10000,
        decimal(n).len() <= w,
    ensures
        padded(n, w).len() == w,
        forall|i: int| 0 <= i < w ==> is_ascii_digit(#[trigger] padded(n, w)[i]),
{
    lemma_decimal_digits(n);
    let p = padded(n, w);
    let z = zeros(w - decimal(n).len());
    assert forall|i: int| 0 <= i < w implies is_ascii_digit(#[trigger] padded(n, w)[i]) by {
        if i < z.len() {
            assert(p[i] == z[i]);
        } else {
            assert(p[i] == decimal(n)[i - z.len()]);
        }
    }
}

/// A note made in a year from 0 on is born with a timestamp for a stem, so it reads as not
/// yet slugged and takes its name from its first line on its first save with a title.
pub proof fn lemma_a_new_name_is_a_timestamp(t: Minute)
    requires
        valid_minute(t),
        t.year >= 0,
    ensures
        spec_is_timestamp(stamp_of(t)),
{
    lemma_decimal_len(t.year as nat);
    lemma_decimal_len(t.month as nat);
    lemma_decimal_len(t.day as nat);
    lemma_decimal_len(t.hour as nat);
    lemma_decimal_len(t.minute as nat);
    lemma_decimal_digits(t.year as nat);
    lemma_decimal_digits(t.month as nat);
    lemma_decimal_digits(t.day as nat);
    lemma_decimal_digits(t.hour as nat);
    lemma_decimal_digits(t.minute as nat);
    let y = padded(t.year as nat, 4);
    let mo = padded(t.month as nat, 2);
    let d = padded(t.day as nat, 2);
    let h = padded(t.hour as nat, 2);
    let mi = padded(t.minute as nat, 2);
    lemma_padded_digits(t.year as nat, 4);
    lemma_padded_digits(t.month as nat, 2);
    lemma_padded_digits(t.day as nat, 2);
    lemma_padded_digits(t.hour as nat, 2);
    lemma_padded_digits(t.minute as nat, 2);
    assert(y.len() == 4 && mo.len() == 2 && d.len() == 2 && h.len() == 2 && mi.len() == 2);
    let s = stamp_of(t);
    assert(s =~= y + seq!['-'] + mo + seq!['-'] + d + seq!['-'] + h + mi);
    assert forall|i: int| 0 <= i < s.len() implies if i == 4 || i == 7 || i == 10 {
        s[i] == '-'
    } else {
        is_ascii_digit(#[trigger] s[i])
    } by {
        if i < 4 {
            assert(s[i] == y[i]);
        } else if i == 4 || i == 7 || i == 10 {
        } else if i < 7 {
            assert(s[i] == mo[i - 5]);
        } else if i < 10 {
            assert(s[i] == d[i - 8]);
        } else if i < 13 {
            assert(s[i] == h[i - 11]);
        } else {
            assert(s[i] == mi[i - 13]);
        }
    }
}

// --- laws ----------------------------------------------------------------------------------

pub proof fn lemma_last_index_absent(s: Seq<char>, c: char)
    requires
        !s.contains(c),
    ensures
        last_index_of(s, c) == -1,
    decreases s.len(),
{
    if s.len() > 0 {
        assert(s.last() != c) by {
            assert(s[s.len() - 1] == s.last());
        }
        assert(!s.drop_last().contains(c)) by {
            assert forall|j: int| 0 <= j < s.drop_last().len() implies s.drop_last()[j] != c by {
                assert(s.drop_last()[j] == s[j]);
            }
        }
        lemma_last_index_absent(s.drop_last(), c);
    }
}

/// Appending text without `c` leaves the last `c` where it was.
pub proof fn lemma_last_index_concat(a: Seq<char>, b: Seq<char>, c: char)
    requires
        !b.contains(c),
    ensures
        last_index_of(a + b, c) == last_index_of(a, c),
    decreases b.len(),
{
    if b.len() > 0 {
        assert((a + b).drop_last() =~= a + b.drop_last());
        assert((a + b).last() == b.last());
        assert(b.last() != c) by {
            assert(b[b.len() - 1] == b.last());
        }
        assert(!b.drop_last().contains(c)) by {
            assert forall|j: int| 0 <= j < b.drop_last().len() implies b.drop_last()[j] != c by {
                assert(b.drop_last()[j] == b[j]);
            }
        }
        lemma_last_index_concat(a, b.drop_last(), c);
    } else {
        assert(a + b =~= a);
    }
}

/// The extension found by the split never holds a dot, and neither does a stem that came
/// without one.
pub proof fn lemma_split_parts(s: Seq<char>)
    ensures
        spec_split_extension(s).1 matches Some(e) ==> !e.contains('.') && e.len() > 0 && s
            =~= spec_split_extension(s).0 + seq!['.'] + e && spec_split_extension(s).0.len() > 0,
        spec_split_extension(s).1 is None ==> spec_split_extension(s).0 == s,
{
    lemma_last_index_bounds(s, '.');
    let i = last_index_of(s, '.');
    if 0 < i && i < s.len() - 1 {
        let e = s.skip(i + 1);
        assert forall|j: int| 0 <= j < e.len() implies e[j] != '.' by {
            assert(e[j] == s[i + 1 + j]);
        }
    }
}

pub proof fn lemma_decimal(n: nat)
    ensures
        decimal(n).len() >= 1,
        !decimal(n).contains('.'),
    decreases n,
{
    if n >= 10 {
        lemma_decimal(n / 10);
        let d = decimal(n / 10).push(digit(n % 10));
        assert forall|j: int| 0 <= j < d.len() implies d[j] != '.' by {
            if j < d.len() - 1 {
                assert(d[j] == decimal(n / 10)[j]);
            }
        }
    }
}

proof fn lemma_no_dot_concat(a: Seq<char>, b: Seq<char>)
    requires
        !a.contains('.'),
        !b.contains('.'),
    ensures
        !(a + b).contains('.'),
{
    assert forall|j: int| 0 <= j < (a + b).len() implies (a + b)[j] != '.' by {
        if j < a.len() {
            assert((a + b)[j] == a[j]);
        } else {
            assert((a + b)[j] == b[j - a.len()]);
        }
    }
}

proof fn lemma_timestamp_no_dot(s: Seq<char>)
    requires
        spec_is_timestamp(s),
    ensures
        !s.contains('.'),
{
    assert forall|j: int| 0 <= j < s.len() implies s[j] != '.' by {
        if !(j == 4 || j == 7 || j == 10) {
            assert(is_ascii_digit(s[j]));
        }
    }
}

/// What a slug passed to [`slugged_name`] looks like here: any text without a dot, which is
/// every slug [`crate::slug::slug_from_first_line`] produces.
pub open spec fn dot_free(s: Seq<char>) -> bool {
    !s.contains('.')
}

/// Slugging a note that has not been slugged yet leaves its name reading as slugged, so it
/// is never renamed a second time.
pub proof fn lemma_slugging_marks_slugged(name: Seq<char>, slug: Seq<char>)
    requires
        valid_note_name(name),
        !spec_is_slugged(name),
        dot_free(slug),
    ensures
        spec_is_slugged(spec_slugged_name(name, slug)),
        spec_timestamp_prefix(spec_slugged_name(name, slug)) == spec_timestamp_prefix(name),
        spec_timestamp_prefix(name) matches Some(p) && p.len() == TIMESTAMP_LEN,
{
    lemma_split_parts(name);
    let (stem, ext) = spec_split_extension(name);
    assert(stem.take(TIMESTAMP_LEN as int) =~= stem);
    let prefix = slug_prefix(stem);
    assert(prefix == stem);
    lemma_timestamp_no_dot(stem);
    let body = prefix + seq!['-'] + slug;
    lemma_no_dot_concat(prefix, seq!['-']);
    lemma_no_dot_concat(prefix + seq!['-'], slug);
    let new = spec_slugged_name(name, slug);
    match ext {
        Some(e) => {
            assert(new =~= (body + seq!['.']) + e);
            lemma_last_index_concat(body + seq!['.'], e, '.');
            assert(last_index_of(body + seq!['.'], '.') == body.len()) by {
                assert((body + seq!['.']).last() == '.');
            }
            assert(spec_split_extension(new).0 =~= body);
        },
        None => {
            assert(new =~= body);
            lemma_last_index_absent(body, '.');
        },
    }
    assert(spec_split_extension(new).0 =~= body);
    assert(!spec_is_timestamp(body));
    assert(body.take(TIMESTAMP_LEN as int) =~= stem);
}

/// Slugging a name that has not been slugged yet, with a slug of the shape the slugger
/// gives, yields a usable note name that reads as slugged, starts with the same timestamp,
/// and keeps the extension.
pub proof fn lemma_slugging_an_unslugged_name(name: Seq<char>, slug: Seq<char>)
    requires
        valid_note_name(name),
        !spec_is_slugged(name),
        slug_shaped(slug),
        slug.len() > 0,
    ensures
        ({
            let new = spec_slugged_name(name, slug);
            &&& valid_note_name(new)
            &&& spec_is_slugged(new)
            &&& new.len() >= TIMESTAMP_LEN && name.len() >= TIMESTAMP_LEN
            &&& new.take(TIMESTAMP_LEN as int) == name.take(TIMESTAMP_LEN as int)
            &&& spec_split_extension(new).1 == spec_split_extension(name).1
        }),
{
    lemma_split_parts(name);
    let (stem, ext) = spec_split_extension(name);
    assert(dot_free(slug)) by {
        assert forall|j: int| 0 <= j < slug.len() implies slug[j] != '.' by {
            assert(slug_char(slug[j]));
        }
    }
    lemma_slugging_marks_slugged(name, slug);
    assert(name.last() != '.') by {
        match ext {
            Some(e) => {
                assert(name.last() == e.last());
                assert(e[e.len() - 1] == e.last());
            },
            None => {
                assert(is_ascii_digit(stem[14]));
            },
        }
    }
    lemma_slugging_keeps_extension(name, slug);
    assert(stem.take(TIMESTAMP_LEN as int) =~= stem);
    assert(slug_prefix(stem) == stem);
    let new = spec_slugged_name(name, slug);
    let body = stem + seq!['-'] + slug;
    assert(new.take(TIMESTAMP_LEN as int) =~= stem);
    assert(name.take(TIMESTAMP_LEN as int) =~= stem);
    assert forall|j: int| 0 <= j < new.len() implies new[j] != '\0' && new[j] != '/' && new[j]
        != '\\' by {
        if j < TIMESTAMP_LEN {
            assert(new[j] == stem[j]);
            if !(j == 4 || j == 7 || j == 10) {
                assert(is_ascii_digit(stem[j]));
            }
        } else if j == TIMESTAMP_LEN {
            assert(new[j] == '-');
        } else if j < body.len() {
            assert(new[j] == slug[j - TIMESTAMP_LEN - 1]);
            assert(slug_char(slug[j - TIMESTAMP_LEN - 1]));
        } else {
            let e = ext.unwrap();
            if j > body.len() {
                assert(new[j] == e[j - body.len() - 1]);
                assert(e[j - body.len() - 1] == name[stem.len() + 1 + (j - body.len() - 1)]);
            } else {
                assert(new[j] == '.');
            }
        }
    }
    assert(new[0] == stem[0]);
    assert(is_ascii_digit(stem[0]));
}

/// Slugging keeps a note's extension, whatever its stem looks like — so its format, and the
/// syntax it is highlighted with, cannot change underneath it.
///
/// A name ending in a dot is left out: it has no extension, and the dash and slug appended
/// after that dot become one.
pub proof fn lemma_slugging_keeps_extension(name: Seq<char>, slug: Seq<char>)
    requires
        valid_note_name(name),
        name.last() != '.',
        dot_free(slug),
    ensures
        spec_split_extension(spec_slugged_name(name, slug)).1 == spec_split_extension(name).1,
{
    lemma_split_parts(name);
    lemma_last_index_bounds(name, '.');
    let (stem, ext) = spec_split_extension(name);
    let prefix = slug_prefix(stem);
    let new = spec_slugged_name(name, slug);
    match ext {
        Some(e) => {
            let body = prefix + seq!['-'] + slug;
            assert(new =~= (body + seq!['.']) + e);
            lemma_last_index_concat(body + seq!['.'], e, '.');
            assert(last_index_of(body + seq!['.'], '.') == body.len()) by {
                assert((body + seq!['.']).last() == '.');
            }
            assert(new.skip(body.len() as int + 1) =~= e);
        },
        None => {
            let i = last_index_of(name, '.');
            assert(i == -1) by {
                if i == 0 {
                    assert(name[0] == '.');
                }
                if i == name.len() - 1 {
                    assert(name.last() == '.');
                }
            }
            assert(!name.contains('.')) by {
                assert forall|j: int| 0 <= j < name.len() implies name[j] != '.' by {}
            }
            assert(!prefix.contains('.')) by {
                assert forall|j: int| 0 <= j < prefix.len() implies prefix[j] != '.' by {
                    assert(prefix[j] == name[j]);
                }
            }
            lemma_no_dot_concat(prefix, seq!['-']);
            lemma_no_dot_concat(prefix + seq!['-'], slug);
            assert(new =~= prefix + seq!['-'] + slug);
            lemma_last_index_absent(new, '.');
        },
    }
}

/// A suffixed name differs from the original, so probing for a free name moves on, and it
/// keeps the original's extension. A name ending in a dot is left out of the second half,
/// for the reason [`lemma_slugging_keeps_extension`] gives.
pub proof fn lemma_suffix_differs_and_keeps_extension(name: Seq<char>, n: nat)
    requires
        valid_note_name(name),
    ensures
        spec_with_suffix(name, n) != name,
        name.last() != '.' ==> spec_split_extension(spec_with_suffix(name, n)).1
            == spec_split_extension(name).1,
{
    lemma_split_parts(name);
    lemma_last_index_bounds(name, '.');
    lemma_decimal(n);
    let (stem, ext) = spec_split_extension(name);
    let d = decimal(n);
    let new = spec_with_suffix(name, n);
    match ext {
        Some(e) => {
            let body = stem + seq!['-'] + d;
            assert(new =~= (body + seq!['.']) + e);
            assert(new.len() > name.len());
            lemma_last_index_concat(body + seq!['.'], e, '.');
            assert(last_index_of(body + seq!['.'], '.') == body.len()) by {
                assert((body + seq!['.']).last() == '.');
            }
            assert(new.skip(body.len() as int + 1) =~= e);
        },
        None => {
            assert(new.len() > name.len());
            if name.last() != '.' {
                let i = last_index_of(name, '.');
                assert(i == -1) by {
                    if i == 0 {
                        assert(name[0] == '.');
                    }
                    if i == name.len() - 1 {
                        assert(name.last() == '.');
                    }
                }
                assert(!name.contains('.')) by {
                    assert forall|j: int| 0 <= j < name.len() implies name[j] != '.' by {}
                }
                lemma_no_dot_concat(stem, seq!['-']);
                lemma_no_dot_concat(stem + seq!['-'], d);
                assert(new =~= stem + seq!['-'] + d);
                lemma_last_index_absent(new, '.');
            }
        }
    }
}


/// Slugging never changes a note's format, and so never the syntax it is highlighted with.
pub proof fn lemma_slugging_keeps_format(name: Seq<char>, slug: Seq<char>)
    requires
        valid_note_name(name),
        dot_free(slug),
    ensures
        format_of_name(spec_slugged_name(name, slug)) == format_of_name(name),
{
    if name.last() != '.' {
        lemma_slugging_keeps_extension(name, slug);
    } else {
        lemma_split_parts(name);
        lemma_last_index_bounds(name, '.');
        let i = last_index_of(name, '.');
        assert(i == name.len() - 1) by {
            assert(name[name.len() - 1] == '.');
        }
        let (stem, ext) = spec_split_extension(name);
        assert(ext is None);
        assert(stem == name);
        let prefix = slug_prefix(stem);
        let new = spec_slugged_name(name, slug);
        assert(new =~= prefix + seq!['-'] + slug);
        if prefix == stem {
            let tail = seq!['-'] + slug;
            assert(new =~= name + tail);
            lemma_no_dot_concat(seq!['-'], slug);
            lemma_last_index_concat(name, tail, '.');
            assert(new.skip(name.len() as int) =~= tail);
            let e = spec_split_extension(new).1->0;
            assert(e =~= tail);
            let lowered = ascii_lower_seq(e);
            assert(lowered[0] == '-');
            assert(format_of_extension(e) == Format::PlainText) by {
                assert(lowered != seq!['m', 'd']) by { assert(seq!['m', 'd'][0] == 'm'); }
                assert(lowered != seq!['j', 's', 'o', 'n']) by { assert(seq!['j', 's', 'o', 'n'][0] == 'j'); }
                assert(lowered != seq!['j', 'a', 'v', 'a']) by { assert(seq!['j', 'a', 'v', 'a'][0] == 'j'); }
                assert(lowered != seq!['t', 's']) by { assert(seq!['t', 's'][0] == 't'); }
                assert(lowered != seq!['j', 's']) by { assert(seq!['j', 's'][0] == 'j'); }
                assert(lowered != seq!['c', 's', 's']) by { assert(seq!['c', 's', 's'][0] == 'c'); }
                assert(lowered != seq!['h', 't', 'm', 'l']) by { assert(seq!['h', 't', 'm', 'l'][0] == 'h'); }
            }
        } else {
            assert(prefix == stem.take(TIMESTAMP_LEN as int));
            lemma_timestamp_no_dot(prefix);
            lemma_no_dot_concat(prefix, seq!['-']);
            lemma_no_dot_concat(prefix + seq!['-'], slug);
            lemma_last_index_absent(new, '.');
        }
    }
}

} // verus!
