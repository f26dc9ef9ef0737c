//! Text helpers shared by the modules: character views of strings and the character classes
//! the naming rules are written in.

use vstd::prelude::*;

verus! {

/// The characters of `s`, in order.
///
/// Calls `str::chars` and collects; std documents that `chars` yields every `char` of the
/// string in order, which is exactly the view.
#[verifier::external_body]
pub(crate) fn chars_of(s: &str) -> (v: Vec<char>)
    ensures
        v@ == s@,
{
    s.chars().collect()
}

/// A `String` holding exactly `v`.
///
/// Calls `FromIterator<char>` for `String`; std documents that it pushes each character in
/// turn.
#[verifier::external_body]
pub(crate) fn string_of(v: &[char]) -> (s: String)
    ensures
        s@ == v@,
{
    v.iter().collect()
}

} // verus!
