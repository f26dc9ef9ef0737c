//! Note identity and format.

use vstd::prelude::*;

use crate::naming::{split_extension_chars, spec_split_extension};
use crate::text::chars_of;

verus! {

/// Is `s` usable as a note's bare file name?
///
/// Non-empty, no NUL byte, no path separator of either kind, and not starting with a dot —
/// the last of which also rules out `.` and `..`, dotfiles, `.scratchbox`, and the
/// in-flight temp files.
pub open spec fn valid_note_name(s: Seq<char>) -> bool {
    &&& s.len() > 0
    &&& !s.contains('\0')
    &&& !s.contains('/')
    &&& !s.contains('\\')
    &&& s[0] != '.'
}

/// Why a candidate name is refused, without the name itself.
#[derive(Debug, Clone, Copy, PartialEq, Eq, Structural)]
pub enum Rejection {
    Empty,
    Separator,
    NotPlainName,
    NulByte,
    Hidden,
}

/// The reason [`NoteId::new`] gives for refusing `s`, checked in the order it checks them,
/// or `None` when `s` is accepted.
pub open spec fn rejection(s: Seq<char>) -> Option<Rejection> {
    if s.len() == 0 {
        Some(Rejection::Empty)
    } else if s.contains('\0') {
        Some(Rejection::NulByte)
    } else if s.contains('/') || s.contains('\\') {
        Some(Rejection::Separator)
    } else if s == seq!['.'] || s == seq!['.', '.'] {
        Some(Rejection::NotPlainName)
    } else if s[0] == '.' {
        Some(Rejection::Hidden)
    } else {
        None
    }
}

/// A note's bare file name — never a path.
///
/// The field is private: the order manifest is untrusted input, and every `NoteId` goes
/// through [`NoteId::new`], so a line such as `../../.ssh/id_rsa` can never become one.
#[derive(Debug, PartialEq, Eq, PartialOrd, Ord, Hash)]
pub struct NoteId {
    name: String,
}

impl View for NoteId {
    type V = Seq<char>;

    closed spec fn view(&self) -> Seq<char> {
        self.name@
    }
}

/// Why a candidate name is not a usable note name.
#[derive(Debug, Clone, PartialEq, Eq)]
pub enum InvalidNoteId {
    Empty,
    Separator(String),
    NotPlainName(String),
    NulByte(String),
    Hidden(String),
}

impl InvalidNoteId {
    /// The kind of refusal.
    pub open spec fn reason(&self) -> Rejection {
        match self {
            InvalidNoteId::Empty => Rejection::Empty,
            InvalidNoteId::Separator(_) => Rejection::Separator,
            InvalidNoteId::NotPlainName(_) => Rejection::NotPlainName,
            InvalidNoteId::NulByte(_) => Rejection::NulByte,
            InvalidNoteId::Hidden(_) => Rejection::Hidden,
        }
    }

    /// The refused name (empty for [`InvalidNoteId::Empty`]).
    pub open spec fn refused(&self) -> Seq<char> {
        match self {
            InvalidNoteId::Empty => Seq::empty(),
            InvalidNoteId::Separator(s) => s@,
            InvalidNoteId::NotPlainName(s) => s@,
            InvalidNoteId::NulByte(s) => s@,
            InvalidNoteId::Hidden(s) => s@,
        }
    }
}

/// Does `v` hold `c` anywhere?
pub fn contains_char(v: &[char], c: char) -> (r: bool)
    ensures
        r == v@.contains(c),
{
    let mut i: usize = 0;
    while i < v.len()
        invariant
            i <= v.len(),
            forall|j: int| 0 <= j < i ==> v@[j] != c,
        decreases v.len() - i,
    {
        if v[i] == c {
            assert(v@[i as int] == c);
            return true;
        }
        i = i + 1;
    }
    false
}

impl NoteId {
    #[verifier::type_invariant]
    spec fn well_formed(self) -> bool {
        valid_note_name(self.name@)
    }

    /// Validate a bare file name.
    ///
    /// Rejects empty names, `.` and `..`, anything holding a path separator or a NUL byte,
    /// and names beginning with `.`.
    pub fn new(name: &str) -> (r: Result<NoteId, InvalidNoteId>)
        ensures
            r is Ok <==> rejection(name@) is None,
            rejection(name@) is None <==> valid_note_name(name@),
            r matches Ok(id) ==> id@ == name@,
            r matches Err(e) ==> e.reason() == rejection(name@).unwrap() && (e.reason()
                != Rejection::Empty ==> e.refused() == name@),
    {
        let v = chars_of(name);
        if v.len() == 0 {
            return Err(InvalidNoteId::Empty);
        }
        if contains_char(&v, '\0') {
            return Err(InvalidNoteId::NulByte(name.to_owned()));
        }
        if contains_char(&v, '/') || contains_char(&v, '\\') {
            return Err(InvalidNoteId::Separator(name.to_owned()));
        }
        if (v.len() == 1 && v[0] == '.') || (v.len() == 2 && v[0] == '.' && v[1] == '.') {
            proof {
                if v.len() == 1 {
                    assert(v@ =~= seq!['.']);
                } else {
                    assert(v@ =~= seq!['.', '.']);
                }
            }
            return Err(InvalidNoteId::NotPlainName(name.to_owned()));
        }
        proof {
            assert(v@ != seq!['.']);
            assert(v@ != seq!['.', '.']);
        }
        if v[0] == '.' {
            return Err(InvalidNoteId::Hidden(name.to_owned()));
        }
        Ok(NoteId { name: name.to_owned() })
    }

    /// The name, exactly as it was validated.
    pub fn as_str(&self) -> (s: &str)
        ensures
            s@ == self@,
            valid_note_name(self@),
    {
        proof {
            use_type_invariant(self);
        }
        self.name.as_str()
    }

    /// A copy of this id.
    pub fn duplicate(&self) -> (r: NoteId)
        ensures
            r@ == self@,
    {
        proof {
            use_type_invariant(self);
        }
        NoteId { name: self.name.clone() }
    }

    /// Do the two ids name the same note?
    pub fn same(&self, other: &NoteId) -> (r: bool)
        ensures
            r == (self@ == other@),
    {
        self.name == other.name
    }
}

impl Clone for NoteId {
    fn clone(&self) -> (r: Self)
        ensures
            r@ == self@,
    {
        self.duplicate()
    }
}

/// Syntax family of a note, derived from its extension.
#[derive(Debug, Clone, Copy, PartialEq, Eq, Hash, Structural)]
pub enum Format {
    Markdown,
    Json,
    PlainText,
    Java,
    TypeScript,
    JavaScript,
    Css,
    Html,
}

/// ASCII lowercasing of one character, as `char::to_ascii_lowercase` documents it.
pub open spec fn ascii_lower(c: char) -> char {
    if 'A' <= c && c <= 'Z' {
        ((c as u32) + 32) as char
    } else {
        c
    }
}

pub open spec fn ascii_lower_seq(s: Seq<char>) -> Seq<char> {
    s.map_values(|c: char| ascii_lower(c))
}

pub fn lower_char(c: char) -> (r: char)
    ensures
        r == ascii_lower(c),
{
    if 'A' <= c && c <= 'Z' {
        ((c as u8) + 32) as char
    } else {
        c
    }
}

/// The default extension of each format, as characters.
pub open spec fn format_extension(f: Format) -> Seq<char> {
    match f {
        Format::Markdown => seq!['m', 'd'],
        Format::Json => seq!['j', 's', 'o', 'n'],
        Format::PlainText => seq!['t', 'x', 't'],
        Format::Java => seq!['j', 'a', 'v', 'a'],
        Format::TypeScript => seq!['t', 's'],
        Format::JavaScript => seq!['j', 's'],
        Format::Css => seq!['c', 's', 's'],
        Format::Html => seq!['h', 't', 'm', 'l'],
    }
}

/// The format an extension maps to: case-insensitive, anything unrecognized is plain text.
pub open spec fn format_of_extension(ext: Seq<char>) -> Format {
    let e = ascii_lower_seq(ext);
    if e == seq!['m', 'd'] {
        Format::Markdown
    } else if e == seq!['j', 's', 'o', 'n'] {
        Format::Json
    } else if e == seq!['j', 'a', 'v', 'a'] {
        Format::Java
    } else if e == seq!['t', 's'] {
        Format::TypeScript
    } else if e == seq!['j', 's'] {
        Format::JavaScript
    } else if e == seq!['c', 's', 's'] {
        Format::Css
    } else if e == seq!['h', 't', 'm', 'l'] {
        Format::Html
    } else {
        Format::PlainText
    }
}

/// The format a whole note name maps to: by its extension, plain text without one.
pub open spec fn format_of_name(name: Seq<char>) -> Format {
    match spec_split_extension(name).1 {
        Some(ext) => format_of_extension(ext),
        None => Format::PlainText,
    }
}

fn chars_equal(a: &[char], b: &[char]) -> (r: bool)
    ensures
        r == (a@ == b@),
{
    if a.len() != b.len() {
        return false;
    }
    let mut i: usize = 0;
    while i < a.len()
        invariant
            a.len() == b.len(),
            i <= a.len(),
            forall|j: int| 0 <= j < i ==> a@[j] == b@[j],
        decreases a.len() - i,
    {
        if a[i] != b[i] {
            return false;
        }
        i = i + 1;
    }
    assert(a@ =~= b@);
    true
}

fn format_of_chars(ext: &[char]) -> (f: Format)
    ensures
        f == format_of_extension(ext@),
{
    let mut lowered: Vec<char> = Vec::new();
    let mut i: usize = 0;
    while i < ext.len()
        invariant
            i <= ext.len(),
            lowered@ =~= ascii_lower_seq(ext@.take(i as int)),
        decreases ext.len() - i,
    {
        lowered.push(lower_char(ext[i]));
        i = i + 1;
        assert(ascii_lower_seq(ext@.take(i as int)) =~= ascii_lower_seq(
            ext@.take((i - 1) as int),
        ).push(ascii_lower(ext@[i - 1])));
    }
    assert(ext@.take(ext.len() as int) =~= ext@);
    if chars_equal(&lowered, &['m', 'd']) {
        Format::Markdown
    } else if chars_equal(&lowered, &['j', 's', 'o', 'n']) {
        Format::Json
    } else if chars_equal(&lowered, &['j', 'a', 'v', 'a']) {
        Format::Java
    } else if chars_equal(&lowered, &['t', 's']) {
        Format::TypeScript
    } else if chars_equal(&lowered, &['j', 's']) {
        Format::JavaScript
    } else if chars_equal(&lowered, &['c', 's', 's']) {
        Format::Css
    } else if chars_equal(&lowered, &['h', 't', 'm', 'l']) {
        Format::Html
    } else {
        Format::PlainText
    }
}

impl Format {
    /// Map an extension to a format. Case-insensitive; anything unrecognized is plain text.
    pub fn from_extension(ext: &str) -> (f: Format)
        ensures
            f == format_of_extension(ext@),
    {
        let v = chars_of(ext);
        format_of_chars(&v)
    }

    /// Map a whole note name. A name without an extension is plain text.
    pub fn from_name(name: &str) -> (f: Format)
        ensures
            f == format_of_name(name@),
    {
        let v = chars_of(name);
        let (_stem, ext) = split_extension_chars(&v);
        match ext {
            Some(e) => format_of_chars(&e),
            None => Format::PlainText,
        }
    }

    /// Default extension used when creating a note of this format.
    pub fn extension(self) -> (s: &'static str)
        ensures
            s@ == format_extension(self),
    {
        match self {
            Format::Markdown => {
                proof {
                    reveal_strlit("md");
                }
                "md"
            },
            Format::Json => {
                proof {
                    reveal_strlit("json");
                }
                "json"
            },
            Format::PlainText => {
                proof {
                    reveal_strlit("txt");
                }
                "txt"
            },
            Format::Java => {
                proof {
                    reveal_strlit("java");
                }
                "java"
            },
            Format::TypeScript => {
                proof {
                    reveal_strlit("ts");
                }
                "ts"
            },
            Format::JavaScript => {
                proof {
                    reveal_strlit("js");
                }
                "js"
            },
            Format::Css => {
                proof {
                    reveal_strlit("css");
                }
                "css"
            },
            Format::Html => {
                proof {
                    reveal_strlit("html");
                }
                "html"
            },
        }
    }
}

/// Every format's own extension maps back to it.
pub proof fn lemma_extension_round_trip(f: Format)
    ensures
        format_of_extension(format_extension(f)) == f,
{
    let e = format_extension(f);
    assert(ascii_lower_seq(e) =~= e);
}

/// Matching an extension ignores ASCII case: an extension and its lowercase map to the same
/// format.
pub proof fn lemma_extension_case_is_ignored(ext: Seq<char>)
    ensures
        format_of_extension(ext) == format_of_extension(ascii_lower_seq(ext)),
{
    assert(ascii_lower_seq(ascii_lower_seq(ext)) =~= ascii_lower_seq(ext));
}

/// What the note list needs to know about a note without reading its contents.
///
/// `modified` is the modification time in nanoseconds relative to the Unix epoch (negative
/// before it), which orders exactly as the platform's timestamps do.
#[derive(Debug, Clone, PartialEq, Eq)]
pub struct NoteMeta {
    pub id: NoteId,
    pub format: Format,
    pub modified: i128,
    /// True once the rename-on-first-content has happened. Derived from the name's shape.
    pub slugged: bool,
}

impl NoteMeta {
    /// Derive format and slug state from the name.
    pub fn from_id(id: NoteId, modified: i128) -> (m: NoteMeta)
        ensures
            m.id@ == id@,
            m.modified == modified,
            m.format == format_of_name(id@),
            m.slugged == crate::naming::spec_is_slugged(id@),
    {
        let format = Format::from_name(id.as_str());
        let slugged = crate::naming::is_slugged(&id);
        NoteMeta { id, format, modified, slugged }
    }
}

} // verus!
