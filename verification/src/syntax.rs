//! Which syntax highlights a note.

use vstd::prelude::*;

use crate::note::{Format, format_extension};

verus! {

/// The name of the syntax bat's syntax set gives files with this extension, or `None` when
/// it has none.
pub uninterp spec fn spec_bundled_syntax(extension: Seq<char>) -> Option<Seq<char>>;

/// Loads bat's syntax set through `two_face::syntax::extra_newlines` and calls
/// `SyntaxSet::find_syntax_by_extension`, keeping the found syntax's name. The set is data
/// compiled into the crate, so the answer depends on the extension alone.
#[verifier::external_body]
fn bundled_syntax(extension: &str) -> (r: Option<String>)
    ensures
        match r {
            Some(name) => spec_bundled_syntax(extension@) == Some(name@),
            None => spec_bundled_syntax(extension@) is None,
        },
{
    two_face::syntax::extra_newlines().find_syntax_by_extension(extension).map(|s| s.name.clone())
}

/// What a format's syntax is called: the one bat's set gives its extension, or plain text
/// when there is none. An extension the set does not know renders in the base style, which
/// beats refusing to show the note.
pub open spec fn spec_syntax_name(format: Format) -> Seq<char> {
    match spec_bundled_syntax(format_extension(format)) {
        Some(name) => name,
        None => "Plain Text"@,
    }
}

pub fn syntax_name(format: Format) -> (r: String)
    ensures
        r@ == spec_syntax_name(format),
{
    match bundled_syntax(format.extension()) {
        Some(name) => name,
        None => "Plain Text".to_owned(),
    }
}

} // verus!
