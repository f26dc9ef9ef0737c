//! The keymap.
//!
//! Anything not claimed here belongs to the editor. The editor is the point of the app, so its
//! keys are not shadowed for app-level shortcuts.
//!
//! [`bindings`] is the normal-mode keymap: dispatch scans it, and everything that prints a key
//! (the status line and the keybindings panel) reads it, so a rebind moves the behaviour and the
//! text that describes it together. The prompt keymaps are the exception: their rule is a
//! catch-all rather than a set of chords.

use vstd::prelude::*;

use crate::naming::{decimal, push_all, push_decimal};
use crate::note::{ascii_lower, lower_char};
use crate::text::chars_of;
use crate::panel::Focus;
use crate::text::string_of;

verus! {

/// A key, as the terminal reports it.
#[derive(Debug, Clone, Copy, PartialEq, Eq, Structural)]
pub enum KeyCode {
    Backspace,
    Enter,
    Left,
    Right,
    Up,
    Down,
    Home,
    End,
    PageUp,
    PageDown,
    Tab,
    BackTab,
    Delete,
    Insert,
    F(u8),
    Char(char),
    Null,
    Esc,
    CapsLock,
    ScrollLock,
    NumLock,
    PrintScreen,
    Pause,
    Menu,
    KeypadBegin,
}

/// A key press with the modifiers that matter here.
#[derive(Debug, Clone, Copy, PartialEq, Eq, Structural)]
pub struct KeyEvent {
    pub code: KeyCode,
    pub ctrl: bool,
    pub alt: bool,
    pub shift: bool,
}

impl KeyEvent {
    pub fn new(code: KeyCode, ctrl: bool, alt: bool, shift: bool) -> (r: KeyEvent)
        ensures
            r == (KeyEvent { code, ctrl, alt, shift }),
    {
        KeyEvent { code, ctrl, alt, shift }
    }
}

/// A chord, matched on `(code, ctrl, alt)` exactly.
///
/// SHIFT is deliberately not compared: terminals set it for every uppercase character and
/// for nothing this app binds, so comparing it would reject chords nobody typed differently.
#[derive(Debug, Clone, Copy, PartialEq, Eq, Structural)]
pub struct Chord {
    pub code: KeyCode,
    pub ctrl: bool,
    pub alt: bool,
}

pub open spec fn chord_matches(chord: Chord, key: KeyEvent) -> bool {
    chord.code == key.code && chord.ctrl == key.ctrl && chord.alt == key.alt
}

pub open spec fn ascii_upper(c: char) -> char {
    if 'a' <= c && c <= 'z' {
        ((c as u32) - 32) as char
    } else {
        c
    }
}

/// How a key is printed, after any modifier.
pub open spec fn code_caption(code: KeyCode, ctrl: bool) -> Seq<char> {
    match code {
        KeyCode::Char(c) => if ctrl {
            seq![ascii_upper(c)]
        } else {
            seq![c]
        },
        KeyCode::Up => seq!['↑'],
        KeyCode::Down => seq!['↓'],
        KeyCode::Tab => seq!['t', 'a', 'b'],
        KeyCode::Enter => seq!['⏎'],
        KeyCode::Esc => seq!['e', 's', 'c'],
        KeyCode::F(n) => seq!['F'] + decimal(n as nat),
        KeyCode::Backspace => seq!['b', 'a', 'c', 'k', 's', 'p', 'a', 'c', 'e'],
        KeyCode::Left => seq!['l', 'e', 'f', 't'],
        KeyCode::Right => seq!['r', 'i', 'g', 'h', 't'],
        KeyCode::Home => seq!['h', 'o', 'm', 'e'],
        KeyCode::End => seq!['e', 'n', 'd'],
        KeyCode::PageUp => seq!['p', 'a', 'g', 'e', 'u', 'p'],
        KeyCode::PageDown => seq!['p', 'a', 'g', 'e', 'd', 'o', 'w', 'n'],
        KeyCode::BackTab => seq!['b', 'a', 'c', 'k', 't', 'a', 'b'],
        KeyCode::Delete => seq!['d', 'e', 'l', 'e', 't', 'e'],
        KeyCode::Insert => seq!['i', 'n', 's', 'e', 'r', 't'],
        KeyCode::Null => seq!['n', 'u', 'l', 'l'],
        KeyCode::CapsLock => seq!['c', 'a', 'p', 's', 'l', 'o', 'c', 'k'],
        KeyCode::ScrollLock => seq!['s', 'c', 'r', 'o', 'l', 'l', 'l', 'o', 'c', 'k'],
        KeyCode::NumLock => seq!['n', 'u', 'm', 'l', 'o', 'c', 'k'],
        KeyCode::PrintScreen => seq!['p', 'r', 'i', 'n', 't', 's', 'c', 'r', 'e', 'e', 'n'],
        KeyCode::Pause => seq!['p', 'a', 'u', 's', 'e'],
        KeyCode::Menu => seq!['m', 'e', 'n', 'u'],
        KeyCode::KeypadBegin => seq!['k', 'e', 'y', 'p', 'a', 'd', 'b', 'e', 'g', 'i', 'n'],
    }
}

/// How a chord is printed, in the app's vocabulary: `^N`, `alt-↑`, `tab`.
pub open spec fn chord_caption(chord: Chord) -> Seq<char> {
    (if chord.ctrl {
        seq!['^']
    } else {
        Seq::empty()
    }) + (if chord.alt {
        seq!['a', 'l', 't', '-']
    } else {
        Seq::empty()
    }) + code_caption(chord.code, chord.ctrl)
}

impl Chord {
    pub fn plain(code: KeyCode) -> (r: Chord)
        ensures
            r == (Chord { code, ctrl: false, alt: false }),
    {
        Chord { code, ctrl: false, alt: false }
    }

    pub fn ctrl(code: KeyCode) -> (r: Chord)
        ensures
            r == (Chord { code, ctrl: true, alt: false }),
    {
        Chord { code, ctrl: true, alt: false }
    }

    pub fn alt(code: KeyCode) -> (r: Chord)
        ensures
            r == (Chord { code, ctrl: false, alt: true }),
    {
        Chord { code, ctrl: false, alt: true }
    }

    pub fn matches(&self, key: KeyEvent) -> (r: bool)
        ensures
            r == chord_matches(*self, key),
    {
        self.code == key.code && self.ctrl == key.ctrl && self.alt == key.alt
    }

    /// How this chord is printed. Derived rather than stored, so a binding whose caption is
    /// just its first chord does not have to repeat it.
    pub fn caption(&self) -> (r: String)
        ensures
            r@ == chord_caption(*self),
    {
        let mut out: Vec<char> = Vec::new();
        if self.ctrl {
            out.push('^');
        }
        if self.alt {
            push_all(&mut out, &['a', 'l', 't', '-']);
        }
        let ghost head = out@;
        match self.code {
            KeyCode::Char(c) => {
                if self.ctrl && 'a' <= c && c <= 'z' {
                    let code: u32 = c as u32;
                    let lowered: u8 = (code - 32) as u8;
                    let upper = lowered as char;
                    assert(upper == ascii_upper(c));
                    out.push(upper);
                } else {
                    out.push(c);
                }
            },
            KeyCode::Up => out.push('↑'),
            KeyCode::Down => out.push('↓'),
            KeyCode::Tab => push_all(&mut out, &['t', 'a', 'b']),
            KeyCode::Enter => out.push('⏎'),
            KeyCode::Esc => push_all(&mut out, &['e', 's', 'c']),
            KeyCode::F(n) => {
                out.push('F');
                push_decimal(&mut out, n as usize);
            },
            KeyCode::Backspace => push_all(&mut out, &['b', 'a', 'c', 'k', 's', 'p', 'a', 'c', 'e']),
            KeyCode::Left => push_all(&mut out, &['l', 'e', 'f', 't']),
            KeyCode::Right => push_all(&mut out, &['r', 'i', 'g', 'h', 't']),
            KeyCode::Home => push_all(&mut out, &['h', 'o', 'm', 'e']),
            KeyCode::End => push_all(&mut out, &['e', 'n', 'd']),
            KeyCode::PageUp => push_all(&mut out, &['p', 'a', 'g', 'e', 'u', 'p']),
            KeyCode::PageDown => push_all(&mut out, &['p', 'a', 'g', 'e', 'd', 'o', 'w', 'n']),
            KeyCode::BackTab => push_all(&mut out, &['b', 'a', 'c', 'k', 't', 'a', 'b']),
            KeyCode::Delete => push_all(&mut out, &['d', 'e', 'l', 'e', 't', 'e']),
            KeyCode::Insert => push_all(&mut out, &['i', 'n', 's', 'e', 'r', 't']),
            KeyCode::Null => push_all(&mut out, &['n', 'u', 'l', 'l']),
            KeyCode::CapsLock => push_all(&mut out, &['c', 'a', 'p', 's', 'l', 'o', 'c', 'k']),
            KeyCode::ScrollLock => push_all(
                &mut out,
                &['s', 'c', 'r', 'o', 'l', 'l', 'l', 'o', 'c', 'k'],
            ),
            KeyCode::NumLock => push_all(&mut out, &['n', 'u', 'm', 'l', 'o', 'c', 'k']),
            KeyCode::PrintScreen => push_all(
                &mut out,
                &['p', 'r', 'i', 'n', 't', 's', 'c', 'r', 'e', 'e', 'n'],
            ),
            KeyCode::Pause => push_all(&mut out, &['p', 'a', 'u', 's', 'e']),
            KeyCode::Menu => push_all(&mut out, &['m', 'e', 'n', 'u']),
            KeyCode::KeypadBegin => push_all(
                &mut out,
                &['k', 'e', 'y', 'p', 'a', 'd', 'b', 'e', 'g', 'i', 'n'],
            ),
        }
        proof {
            assert(out@ =~= chord_caption(*self));
        }
        string_of(&out)
    }
}


/// Which pane a binding applies in.
#[derive(Debug, Clone, Copy, PartialEq, Eq, Structural)]
pub enum Ctx {
    Global,
    ListOnly,
}

/// How the panel groups the bindings.
#[derive(Debug, Clone, Copy, PartialEq, Eq, Structural)]
pub enum Section {
    Notes,
    Navigation,
    Panes,
    General,
}

impl Section {
    /// The panel's heading for this section.
    pub fn title(&self) -> (r: &'static str)
        ensures
            r@ == section_title(*self),
    {
        match self {
            Section::Notes => "Notes",
            Section::Navigation => "Navigation",
            Section::Panes => "Panes",
            Section::General => "General",
        }
    }
}

pub open spec fn section_title(s: Section) -> Seq<char> {
    match s {
        Section::Notes => "Notes"@,
        Section::Navigation => "Navigation"@,
        Section::Panes => "Panes"@,
        Section::General => "General"@,
    }
}

/// The order the panel lists the derived sections in: it leads with what a user came to
/// look up, not with the table's declaration order.
pub open spec fn section_order() -> Seq<Section> {
    seq![Section::Notes, Section::Navigation, Section::Panes, Section::General]
}

/// An app-level command: exactly the set [`bindings`] declares.
#[derive(Debug, Clone, Copy, PartialEq, Eq, Structural)]
pub enum Command {
    Quit,
    NewNote,
    RequestDelete,
    MoveNoteUp,
    MoveNoteDown,
    SelectPrevious,
    SelectNext,
    ToggleFocus,
    /// Show the keybindings panel.
    OpenHelp,
}

/// One documented binding. The table of them is the keymap.
#[derive(Debug)]
pub struct Binding {
    pub chords: Vec<Chord>,
    /// What the panel prints. Covers every chord of the binding at once: `^Q/^C`.
    pub caption: &'static str,
    /// Prose for the panel, written with search in mind: the panel's filter matches over it.
    pub desc: &'static str,
    pub section: Section,
    pub ctx: Ctx,
    pub command: Command,
}

/// A binding as the contracts see it: chords, caption, description, section, context,
/// command.
pub type BindingView = (Seq<Chord>, Seq<char>, Seq<char>, Section, Ctx, Command);

pub open spec fn binding_view(b: Binding) -> BindingView {
    (b.chords@, b.caption@, b.desc@, b.section, b.ctx, b.command)
}

pub open spec fn applies(ctx: Ctx, focus: Focus) -> bool {
    match ctx {
        Ctx::Global => true,
        Ctx::ListOnly => focus == Focus::List,
    }
}

pub open spec fn plain_chord(code: KeyCode) -> Chord {
    Chord { code, ctrl: false, alt: false }
}

pub open spec fn ctrl_chord(code: KeyCode) -> Chord {
    Chord { code, ctrl: true, alt: false }
}

pub open spec fn alt_chord(code: KeyCode) -> Chord {
    Chord { code, ctrl: false, alt: true }
}

/// The normal-mode keymap, in declaration order. The reorder bindings come before the plain
/// arrows; exact matching means the two never answer one event.
pub open spec fn keymap() -> Seq<BindingView> {
    seq![
        (seq![alt_chord(KeyCode::Up)], "alt-↑"@, "move this note up — reorder the list"@,
            Section::Navigation, Ctx::Global, Command::MoveNoteUp),
        (seq![alt_chord(KeyCode::Down)], "alt-↓"@, "move this note down — reorder the list"@,
            Section::Navigation, Ctx::Global, Command::MoveNoteDown),
        (seq![plain_chord(KeyCode::Up)], "↑"@, "select the previous note"@, Section::Navigation,
            Ctx::ListOnly, Command::SelectPrevious),
        (seq![plain_chord(KeyCode::Down)], "↓"@, "select the next note"@, Section::Navigation,
            Ctx::ListOnly, Command::SelectNext),
        (seq![ctrl_chord(KeyCode::Char('n'))], "^N"@, "new note"@, Section::Notes, Ctx::Global,
            Command::NewNote),
        (seq![ctrl_chord(KeyCode::Char('d'))], "^D"@, "delete this note, after a confirmation"@,
            Section::Notes, Ctx::Global, Command::RequestDelete),
        (seq![plain_chord(KeyCode::Tab), ctrl_chord(KeyCode::Tab)], "tab"@,
            "switch pane between the note list and the editor"@, Section::Panes, Ctx::Global,
            Command::ToggleFocus),
        (seq![ctrl_chord(KeyCode::Char('q')), ctrl_chord(KeyCode::Char('c'))], "^Q/^C"@,
            "save and quit"@, Section::General, Ctx::Global, Command::Quit),
        (seq![ctrl_chord(KeyCode::Char('h')), plain_chord(KeyCode::F(1))], "^H/F1"@,
            "show this list of keybindings"@, Section::General, Ctx::Global, Command::OpenHelp),
    ]
}

fn one_chord(a: Chord) -> (r: Vec<Chord>)
    ensures
        r@ == seq![a],
{
    let mut v: Vec<Chord> = Vec::new();
    v.push(a);
    assert(v@ =~= seq![a]);
    v
}

fn two_chords(a: Chord, b: Chord) -> (r: Vec<Chord>)
    ensures
        r@ == seq![a, b],
{
    let mut v: Vec<Chord> = Vec::new();
    v.push(a);
    v.push(b);
    assert(v@ =~= seq![a, b]);
    v
}

/// The normal-mode keymap: dispatch scans it, and the status line and the keybindings panel
/// print from it.
pub fn bindings() -> (r: Vec<Binding>)
    ensures
        r@.map_values(|b: Binding| binding_view(b)) == keymap(),
{
    let mut t: Vec<Binding> = Vec::new();
    t.push(Binding {
        chords: one_chord(Chord::alt(KeyCode::Up)),
        caption: "alt-↑",
        desc: "move this note up — reorder the list",
        section: Section::Navigation,
        ctx: Ctx::Global,
        command: Command::MoveNoteUp,
    });
    t.push(Binding {
        chords: one_chord(Chord::alt(KeyCode::Down)),
        caption: "alt-↓",
        desc: "move this note down — reorder the list",
        section: Section::Navigation,
        ctx: Ctx::Global,
        command: Command::MoveNoteDown,
    });
    t.push(Binding {
        chords: one_chord(Chord::plain(KeyCode::Up)),
        caption: "↑",
        desc: "select the previous note",
        section: Section::Navigation,
        ctx: Ctx::ListOnly,
        command: Command::SelectPrevious,
    });
    t.push(Binding {
        chords: one_chord(Chord::plain(KeyCode::Down)),
        caption: "↓",
        desc: "select the next note",
        section: Section::Navigation,
        ctx: Ctx::ListOnly,
        command: Command::SelectNext,
    });
    t.push(Binding {
        chords: one_chord(Chord::ctrl(KeyCode::Char('n'))),
        caption: "^N",
        desc: "new note",
        section: Section::Notes,
        ctx: Ctx::Global,
        command: Command::NewNote,
    });
    t.push(Binding {
        chords: one_chord(Chord::ctrl(KeyCode::Char('d'))),
        caption: "^D",
        desc: "delete this note, after a confirmation",
        section: Section::Notes,
        ctx: Ctx::Global,
        command: Command::RequestDelete,
    });
    // The second chord keeps a widely-held pane-switching convention working; the caption
    // stays `tab`.
    t.push(Binding {
        chords: two_chords(Chord::plain(KeyCode::Tab), Chord::ctrl(KeyCode::Tab)),
        caption: "tab",
        desc: "switch pane between the note list and the editor",
        section: Section::Panes,
        ctx: Ctx::Global,
        command: Command::ToggleFocus,
    });
    // Ctrl-C arrives as a key event in raw mode, so quitting stays on the ordinary path where
    // the terminal is restored on the way out.
    t.push(Binding {
        chords: two_chords(Chord::ctrl(KeyCode::Char('q')), Chord::ctrl(KeyCode::Char('c'))),
        caption: "^Q/^C",
        desc: "save and quit",
        section: Section::General,
        ctx: Ctx::Global,
        command: Command::Quit,
    });
    // `^H` is reachable from the editor, which `?` would not be; `F1` is the alias.
    t.push(Binding {
        chords: two_chords(Chord::ctrl(KeyCode::Char('h')), Chord::plain(KeyCode::F(1))),
        caption: "^H/F1",
        desc: "show this list of keybindings",
        section: Section::General,
        ctx: Ctx::Global,
        command: Command::OpenHelp,
    });
    assert(t@.map_values(|b: Binding| binding_view(b)) =~= keymap());
    t
}


/// `i` is the first binding declaring `command`.
pub open spec fn is_first_declaring(t: Seq<BindingView>, command: Command, i: int) -> bool {
    &&& 0 <= i < t.len()
    &&& t[i].5 == command
    &&& forall|j: int| 0 <= j < i ==> t[j].5 != command
}

/// The binding that declares `command`.
pub fn binding(command: Command) -> (r: Option<Binding>)
    ensures
        r is Some <==> exists|i: int| is_first_declaring(keymap(), command, i),
        r matches Some(b) ==> binding_view(b) == keymap()[choose|i: int|
            is_first_declaring(keymap(), command, i)],
{
    let mut t = bindings();
    let ghost view = keymap();
    let mut i: usize = 0;
    while i < t.len()
        invariant
            i <= t@.len(),
            view == keymap(),
            t@.map_values(|b: Binding| binding_view(b)) == view,
            forall|j: int| 0 <= j < i ==> view[j].5 != command,
        decreases t@.len() - i,
    {
        assert(view[i as int] == binding_view(t@[i as int]));
        if t[i].command == command {
            proof {
                assert(is_first_declaring(view, command, i as int));
                let c = choose|c: int| is_first_declaring(view, command, c);
                assert(c == i as int);
            }
            return Some(t.remove(i));
        }
        i = i + 1;
    }
    None
}

/// What a key press asks of the app.
#[derive(Debug, Clone, Copy, PartialEq, Eq, Structural)]
pub enum Action {
    /// A command from the table.
    Do(Command),
    ConfirmDelete,
    CancelDelete,
    KeepMine,
    TakeTheirs,
    /// Hand the key to the editor.
    Edit(KeyEvent),
    Ignore,
}

/// Does the binding answer this key in this pane?
pub open spec fn answers(b: BindingView, key: KeyEvent, focus: Focus) -> bool {
    applies(b.4, focus) && exists|k: int| 0 <= k < b.0.len() && chord_matches(#[trigger] b.0[k], key)
}

pub open spec fn is_first_answer(t: Seq<BindingView>, key: KeyEvent, focus: Focus, i: int) -> bool {
    &&& 0 <= i < t.len()
    &&& answers(t[i], key, focus)
    &&& forall|j: int| 0 <= j < i ==> !answers(#[trigger] t[j], key, focus)
}

/// What a key means in normal mode: the command of the first binding that answers it, or
/// else the editor's, when the editor has the keyboard.
pub open spec fn spec_map(key: KeyEvent, focus: Focus) -> Action {
    let t = keymap();
    if exists|i: int| is_first_answer(t, key, focus, i) {
        Action::Do(t[choose|i: int| is_first_answer(t, key, focus, i)].5)
    } else if focus == Focus::Editor {
        Action::Edit(key)
    } else {
        Action::Ignore
    }
}

fn answers_key(b: &Binding, key: KeyEvent, focus: Focus) -> (r: bool)
    ensures
        r == answers(binding_view(*b), key, focus),
{
    let applies_here = match b.ctx {
        Ctx::Global => true,
        Ctx::ListOnly => focus == Focus::List,
    };
    if !applies_here {
        return false;
    }
    let mut k: usize = 0;
    while k < b.chords.len()
        invariant
            k <= b.chords@.len(),
            applies(b.ctx, focus),
            forall|j: int| 0 <= j < k ==> !chord_matches(#[trigger] b.chords@[j], key),
        decreases b.chords@.len() - k,
    {
        if b.chords[k].matches(key) {
            assert(chord_matches(binding_view(*b).0[k as int], key));
            return true;
        }
        k = k + 1;
    }
    false
}

/// What a key means in normal mode: a scan over the one table that declares them. Anything
/// not claimed belongs to the editor.
pub fn map(key: KeyEvent, focus: Focus) -> (r: Action)
    ensures
        r == spec_map(key, focus),
{
    let t = bindings();
    let ghost view = keymap();
    let mut i: usize = 0;
    while i < t.len()
        invariant
            i <= t@.len(),
            view == keymap(),
            t@.map_values(|b: Binding| binding_view(b)) == view,
            forall|j: int| 0 <= j < i ==> !answers(#[trigger] view[j], key, focus),
        decreases t@.len() - i,
    {
        assert(view[i as int] == binding_view(t@[i as int]));
        if answers_key(&t[i], key, focus) {
            proof {
                assert(is_first_answer(view, key, focus, i as int));
                let c = choose|c: int| is_first_answer(view, key, focus, c);
                assert(c == i as int);
            }
            return Action::Do(t[i].command);
        }
        i = i + 1;
    }
    assert(!exists|c: int| is_first_answer(view, key, focus, c));
    if focus == Focus::Editor {
        Action::Edit(key)
    } else {
        Action::Ignore
    }
}

pub open spec fn map_confirmation_spec(key: KeyEvent) -> Action {
    match key.code {
        KeyCode::Char('y') | KeyCode::Char('Y') | KeyCode::Enter => Action::ConfirmDelete,
        _ => Action::CancelDelete,
    }
}

/// What a key means while a delete is waiting to be confirmed: `y`, `Y` or Enter confirm,
/// and everything else cancels. A stray keystroke must not answer a question about
/// destroying a note, nor leak into the buffer behind the prompt.
pub fn map_confirmation(key: KeyEvent) -> (r: Action)
    ensures
        r == map_confirmation_spec(key),
{
    match key.code {
        KeyCode::Char('y') | KeyCode::Char('Y') | KeyCode::Enter => Action::ConfirmDelete,
        _ => Action::CancelDelete,
    }
}

pub open spec fn map_conflict_spec(key: KeyEvent) -> Action {
    match (key.code, key.ctrl) {
        (KeyCode::Char('q'), true) | (KeyCode::Char('c'), true) => Action::Do(Command::Quit),
        (KeyCode::Char('k'), false) | (KeyCode::Char('K'), false) => Action::KeepMine,
        (KeyCode::Char('t'), false) | (KeyCode::Char('T'), false) => Action::TakeTheirs,
        _ => Action::Ignore,
    }
}

/// What a key means while an external change is waiting to be resolved: `k` keeps the
/// buffer, `t` takes the disk's version, and quit is the one way out that is not an
/// answer. Everything else is swallowed.
pub fn map_conflict(key: KeyEvent) -> (r: Action)
    ensures
        r == map_conflict_spec(key),
{
    match (key.code, key.ctrl) {
        (KeyCode::Char('q'), true) | (KeyCode::Char('c'), true) => Action::Do(Command::Quit),
        (KeyCode::Char('k'), false) | (KeyCode::Char('K'), false) => Action::KeepMine,
        (KeyCode::Char('t'), false) | (KeyCode::Char('T'), false) => Action::TakeTheirs,
        _ => Action::Ignore,
    }
}

/// What a key means while the keybindings panel is open.
#[derive(Debug, Clone, Copy, PartialEq, Eq, Structural)]
pub enum HelpKey {
    Close,
    Up,
    Down,
    Top,
    Bottom,
    /// Perform the selected binding.
    Run,
    /// Start filtering the list.
    Search,
    /// A character for the filter.
    Type(char),
    Backspace,
    /// Leave the filter prompt, keeping the query.
    SearchCommit,
    /// Leave the filter prompt and clear the query.
    SearchCancel,
    Quit,
    Ignore,
}

pub open spec fn spec_map_help(key: KeyEvent, searching: bool) -> HelpKey {
    if searching {
        match key.code {
            KeyCode::Char(c) => if key.ctrl && (c == 'q' || c == 'c') {
                HelpKey::Quit
            } else if !key.ctrl && !key.alt {
                HelpKey::Type(c)
            } else {
                HelpKey::Ignore
            },
            KeyCode::Esc => HelpKey::SearchCancel,
            KeyCode::Enter => HelpKey::SearchCommit,
            KeyCode::Backspace => HelpKey::Backspace,
            _ => HelpKey::Ignore,
        }
    } else {
        match (key.code, key.ctrl) {
            (KeyCode::Char('q'), true) | (KeyCode::Char('c'), true) => HelpKey::Quit,
            (KeyCode::Esc, _) => HelpKey::Close,
            (KeyCode::Up, false) | (KeyCode::Char('k'), false) => HelpKey::Up,
            (KeyCode::Down, false) | (KeyCode::Char('j'), false) => HelpKey::Down,
            (KeyCode::Home, false) => HelpKey::Top,
            (KeyCode::End, false) => HelpKey::Bottom,
            (KeyCode::Char('/'), false) => HelpKey::Search,
            (KeyCode::Enter, false) => HelpKey::Run,
            _ => HelpKey::Ignore,
        }
    }
}

/// What a key means while the keybindings panel is open.
///
/// Quit stays live, as it does while an external change is unresolved: a user is never
/// trapped inside a modal. Whether the filter prompt is open decides whether a printable key
/// moves the cursor or goes into the filter, so it is examined first; in there SHIFT is not
/// rejected, or the filter would be lowercase-only.
pub fn map_help(key: KeyEvent, searching: bool) -> (r: HelpKey)
    ensures
        r == spec_map_help(key, searching),
{
    if searching {
        return match key.code {
            KeyCode::Char(c) => {
                if key.ctrl && (c == 'q' || c == 'c') {
                    HelpKey::Quit
                } else if !key.ctrl && !key.alt {
                    HelpKey::Type(c)
                } else {
                    HelpKey::Ignore
                }
            },
            KeyCode::Esc => HelpKey::SearchCancel,
            KeyCode::Enter => HelpKey::SearchCommit,
            KeyCode::Backspace => HelpKey::Backspace,
            _ => HelpKey::Ignore,
        };
    }
    match (key.code, key.ctrl) {
        (KeyCode::Char('q'), true) | (KeyCode::Char('c'), true) => HelpKey::Quit,
        (KeyCode::Esc, _) => HelpKey::Close,
        (KeyCode::Up, false) | (KeyCode::Char('k'), false) => HelpKey::Up,
        (KeyCode::Down, false) | (KeyCode::Char('j'), false) => HelpKey::Down,
        (KeyCode::Home, false) => HelpKey::Top,
        (KeyCode::End, false) => HelpKey::Bottom,
        (KeyCode::Char('/'), false) => HelpKey::Search,
        (KeyCode::Enter, false) => HelpKey::Run,
        _ => HelpKey::Ignore,
    }
}


/// What the panel's keys do. Outside the filter prompt the arrows and `k`/`j` move the
/// cursor one row (up and `k` up, down and `j` down), Home and End jump to the ends, `/`
/// opens the filter, Enter runs the selection, Esc closes the panel. Inside the prompt a
/// plain character goes into the filter instead of moving anything, Enter and Esc leave the
/// prompt, and Backspace edits it; a character with Ctrl or Alt held is ignored there.
/// Ctrl-Q and Ctrl-C quit from both, and Ctrl with an arrow does nothing.
pub proof fn lemma_the_panel_keys(key: KeyEvent, searching: bool)
    ensures
        ({
            let r = spec_map_help(key, searching);
            &&& (!searching && !key.ctrl && (key.code == KeyCode::Up || key.code == KeyCode::Char('k')))
                ==> r == HelpKey::Up
            &&& (!searching && !key.ctrl && (key.code == KeyCode::Down || key.code == KeyCode::Char(
                'j',
            ))) ==> r == HelpKey::Down
            &&& (!searching && !key.ctrl && key.code == KeyCode::Home) ==> r == HelpKey::Top
            &&& (!searching && !key.ctrl && key.code == KeyCode::End) ==> r == HelpKey::Bottom
            &&& (!searching && !key.ctrl && key.code == KeyCode::Char('/')) ==> r == HelpKey::Search
            &&& (!searching && !key.ctrl && key.code == KeyCode::Enter) ==> r == HelpKey::Run
            &&& (!searching && key.code == KeyCode::Esc) ==> r == HelpKey::Close
            &&& (key.ctrl && (key.code == KeyCode::Char('q') || key.code == KeyCode::Char('c')))
                ==> r == HelpKey::Quit
            &&& (searching && !key.ctrl && !key.alt && key.code matches KeyCode::Char(c)) ==> r
                == HelpKey::Type(key.code->Char_0)
            &&& (searching && key.code == KeyCode::Esc) ==> r == HelpKey::SearchCancel
            &&& (searching && key.code == KeyCode::Enter) ==> r == HelpKey::SearchCommit
            &&& (searching && key.code == KeyCode::Backspace) ==> r == HelpKey::Backspace
            &&& searching ==> !(r is Up || r is Down || r is Top || r is Bottom || r is Run
                || r is Close || r is Search)
            &&& !searching ==> !(r is Type || r is Backspace || r is SearchCommit
                || r is SearchCancel)
            &&& (searching && key.code is Char && (key.ctrl || key.alt) && !(key.ctrl && (
            key.code->Char_0 == 'q' || key.code->Char_0 == 'c'))) ==> r == HelpKey::Ignore
            &&& (key.ctrl && (key.code == KeyCode::Up || key.code == KeyCode::Down)) ==> r
                == HelpKey::Ignore
        }),
{
}

// --- laws of the keymap ----------------------------------------------------------------------

/// Every command is declared by exactly one binding: the table is complete, and a rebind
/// cannot leave a second, stale row behind.
pub proof fn lemma_each_command_declared_once(command: Command)
    ensures
        exists|i: int|
            0 <= i < keymap().len() && keymap()[i].5 == command && forall|j: int|
                0 <= j < keymap().len() && j != i ==> keymap()[j].5 != command,
{
    let t = keymap();
    let i: int = match command {
        Command::MoveNoteUp => 0,
        Command::MoveNoteDown => 1,
        Command::SelectPrevious => 2,
        Command::SelectNext => 3,
        Command::NewNote => 4,
        Command::RequestDelete => 5,
        Command::ToggleFocus => 6,
        Command::Quit => 7,
        Command::OpenHelp => 8,
    };
    assert(t[i].5 == command);
    assert forall|j: int| 0 <= j < t.len() && j != i implies t[j].5 != command by {
        assert(0 <= j < 9);
    }
}

/// No chord is declared twice, so a key can answer to one binding at most.
pub proof fn lemma_chords_are_unique(i: int, a: int, j: int, b: int)
    requires
        0 <= i < keymap().len(),
        0 <= j < keymap().len(),
        0 <= a < keymap()[i].0.len(),
        0 <= b < keymap()[j].0.len(),
        keymap()[i].0[a] == keymap()[j].0[b],
    ensures
        i == j && a == b,
{
    let t = keymap();
    assert(0 <= i < 9 && 0 <= j < 9);
}

/// A key that no binding claims reaches the editor when the editor has the keyboard: the
/// table takes its own chords and nothing else.
pub proof fn lemma_unclaimed_keys_reach_the_editor(key: KeyEvent)
    requires
        forall|i: int| 0 <= i < keymap().len() ==> !answers(#[trigger] keymap()[i], key, Focus::Editor),
    ensures
        spec_map(key, Focus::Editor) == Action::Edit(key),
{
    assert(!exists|c: int| is_first_answer(keymap(), key, Focus::Editor, c));
}

/// Every chord of every binding answers with its own command wherever the binding applies;
/// a list-only binding leaves the editor's keys to the editor.
pub proof fn lemma_every_chord_answers_its_command(i: int, a: int, key: KeyEvent, focus: Focus)
    requires
        0 <= i < keymap().len(),
        0 <= a < keymap()[i].0.len(),
        chord_matches(keymap()[i].0[a], key),
    ensures
        spec_map(key, focus) == if applies(keymap()[i].4, focus) {
            Action::Do(keymap()[i].5)
        } else if focus == Focus::Editor {
            Action::Edit(key)
        } else {
            Action::Ignore
        },
{
    let t = keymap();
    assert forall|j: int| 0 <= j < t.len() && j != i implies !answers(#[trigger] t[j], key, focus) by {
        if answers(t[j], key, focus) {
            let b = choose|b: int| 0 <= b < t[j].0.len() && chord_matches(#[trigger] t[j].0[b], key);
            lemma_chords_are_unique(i, a, j, b);
        }
    }
    if applies(t[i].4, focus) {
        assert(answers(t[i], key, focus));
        assert(is_first_answer(t, key, focus, i));
        let c = choose|c: int| is_first_answer(t, key, focus, c);
        assert(c == i);
    } else {
        assert(!answers(t[i], key, focus));
        assert(!exists|c: int| is_first_answer(t, key, focus, c));
    }
}


// --- the keybindings panel's rows ------------------------------------------------------------

/// One row the panel lists.
///
/// `run` is what Enter performs, which is deliberately not the binding the row displays. It is
/// `None` for a literal row (no single command stands behind it), for the panel's own key
/// (opening the panel from the open panel does nothing), and for quit (exiting from a panel
/// opened to read would be wrong; `^Q` still works as a key press).
#[derive(Debug, Clone, Copy)]
pub struct HelpRow {
    pub caption: &'static str,
    pub desc: &'static str,
    pub run: Option<Command>,
}

pub type RowView = (Seq<char>, Seq<char>, Option<Command>);

pub open spec fn row_view(r: HelpRow) -> RowView {
    (r.caption@, r.desc@, r.run)
}

pub open spec fn runnable(command: Command) -> Option<Command> {
    match command {
        Command::Quit | Command::OpenHelp => None,
        _ => Some(command),
    }
}

pub open spec fn row_of(b: BindingView) -> RowView {
    (b.1, b.2, runnable(b.5))
}

impl HelpRow {
    fn from_binding(binding: &Binding) -> (r: HelpRow)
        ensures
            row_view(r) == row_of(binding_view(*binding)),
    {
        HelpRow {
            caption: binding.caption,
            desc: binding.desc,
            run: match binding.command {
                Command::Quit | Command::OpenHelp => None,
                command => Some(command),
            },
        }
    }
}

/// A titled group of rows.
#[derive(Debug)]
pub struct HelpSection {
    pub title: &'static str,
    pub rows: Vec<HelpRow>,
}

pub type SectionView = (Seq<char>, Seq<RowView>);

pub open spec fn rows_view(rows: Seq<HelpRow>) -> Seq<RowView> {
    rows.map_values(|r: HelpRow| row_view(r))
}

pub open spec fn section_view(s: HelpSection) -> SectionView {
    (s.title@, rows_view(s.rows@))
}

pub open spec fn sections_view(s: Seq<HelpSection>) -> Seq<SectionView> {
    s.map_values(|x: HelpSection| section_view(x))
}

impl HelpSection {
    /// A copy of this section.
    pub fn duplicate(&self) -> (r: HelpSection)
        ensures
            section_view(r) == section_view(*self),
    {
        let mut rows: Vec<HelpRow> = Vec::new();
        let mut k: usize = 0;
        while k < self.rows.len()
            invariant
                k <= self.rows@.len(),
                rows_view(rows@) =~= rows_view(self.rows@).take(k as int),
            decreases self.rows@.len() - k,
        {
            let ghost before = rows@;
            rows.push(self.rows[k]);
            assert(rows_view(rows@) =~= rows_view(before).push(row_view(self.rows@[k as int])));
            assert(rows_view(self.rows@).take(k + 1) =~= rows_view(self.rows@).take(k as int).push(
                row_view(self.rows@[k as int]),
            ));
            k = k + 1;
        }
        assert(rows_view(self.rows@).take(self.rows@.len() as int) =~= rows_view(self.rows@));
        HelpSection { title: self.title, rows }
    }
}

impl Clone for HelpSection {
    fn clone(&self) -> (r: Self)
        ensures
            section_view(r) == section_view(*self),
    {
        self.duplicate()
    }
}

/// The rows of the bindings in section `s`, in table order.
pub open spec fn rows_in(t: Seq<BindingView>, s: Section) -> Seq<RowView>
    decreases t.len(),
{
    if t.len() == 0 {
        Seq::empty()
    } else {
        let prev = rows_in(t.drop_last(), s);
        if t.last().3 == s {
            prev.push(row_of(t.last()))
        } else {
            prev
        }
    }
}

pub open spec fn literal_row(caption: Seq<char>, desc: Seq<char>) -> RowView {
    (caption, desc, None)
}

/// The keymaps that are not tabled, written out: their rule is a catch-all ("anything else
/// cancels") rather than a set of chords, so there is nothing to walk.
pub open spec fn literal_view() -> Seq<SectionView> {
    seq![
        ("Delete prompt"@, seq![
            literal_row("y/⏎"@, "confirm the delete"@),
            literal_row("any other key"@, "cancel the delete"@),
        ]),
        ("External change"@, seq![
            literal_row("k"@, "keep mine — write my buffer over theirs"@),
            literal_row("t"@, "take theirs — discard my edits"@),
            literal_row("^Q"@, "quit without saving"@),
        ]),
        ("This panel"@, seq![
            literal_row("esc"@, "close this panel"@),
            literal_row("↑/↓"@, "select a binding"@),
            literal_row("⏎"@, "run the selected binding"@),
            literal_row("/"@, "search this list"@),
        ]),
        ("Editor"@, seq![
            literal_row(""@, "the editor is emacs-style and modeless — there is no mode to leave"@),
            literal_row("^N ^D ^H"@, "taken by scratchbox: edtui's own meanings do not apply to them"@),
        ]),
    ]
}

/// Every section the panel lists: the ones derived from the table, in [`section_order`],
/// then the written-out ones.
pub open spec fn help_view() -> Seq<SectionView> {
    section_order().map_values(|s: Section| (section_title(s), rows_in(keymap(), s)))
        + literal_view()
}

fn literal(caption: &'static str, desc: &'static str) -> (r: HelpRow)
    ensures
        row_view(r) == literal_row(caption@, desc@),
{
    HelpRow { caption, desc, run: None }
}

fn literal_sections() -> (r: Vec<HelpSection>)
    ensures
        sections_view(r@) == literal_view(),
{
    let mut out: Vec<HelpSection> = Vec::new();
    let mut rows: Vec<HelpRow> = Vec::new();
    rows.push(literal("y/⏎", "confirm the delete"));
    rows.push(literal("any other key", "cancel the delete"));
    out.push(HelpSection { title: "Delete prompt", rows });
    let mut rows: Vec<HelpRow> = Vec::new();
    rows.push(literal("k", "keep mine — write my buffer over theirs"));
    rows.push(literal("t", "take theirs — discard my edits"));
    rows.push(literal("^Q", "quit without saving"));
    out.push(HelpSection { title: "External change", rows });
    let mut rows: Vec<HelpRow> = Vec::new();
    rows.push(literal("esc", "close this panel"));
    rows.push(literal("↑/↓", "select a binding"));
    rows.push(literal("⏎", "run the selected binding"));
    rows.push(literal("/", "search this list"));
    out.push(HelpSection { title: "This panel", rows });
    let mut rows: Vec<HelpRow> = Vec::new();
    rows.push(literal("", "the editor is emacs-style and modeless — there is no mode to leave"));
    rows.push(literal("^N ^D ^H", "taken by scratchbox: edtui's own meanings do not apply to them"));
    out.push(HelpSection { title: "Editor", rows });
    assert(sections_view(out@) =~= literal_view()) by {
        assert(section_view(out@[0]) == literal_view()[0]) by {
            assert(rows_view(out@[0].rows@) =~= literal_view()[0].1);
        }
        assert(section_view(out@[1]) == literal_view()[1]) by {
            assert(rows_view(out@[1].rows@) =~= literal_view()[1].1);
        }
        assert(section_view(out@[2]) == literal_view()[2]) by {
            assert(rows_view(out@[2].rows@) =~= literal_view()[2].1);
        }
        assert(section_view(out@[3]) == literal_view()[3]) by {
            assert(rows_view(out@[3].rows@) =~= literal_view()[3].1);
        }
    }
    out
}

/// The panel section for `s`: its bindings' rows, in table order.
fn derived_section(table: &Vec<Binding>, s: Section) -> (r: HelpSection)
    requires
        table@.map_values(|b: Binding| binding_view(b)) == keymap(),
    ensures
        section_view(r) == (section_title(s), rows_in(keymap(), s)),
{
    let ghost view = keymap();
    let mut rows: Vec<HelpRow> = Vec::new();
    let mut k: usize = 0;
    assert(view.take(0) =~= Seq::<BindingView>::empty());
    while k < table.len()
        invariant
            k <= table@.len(),
            view == keymap(),
            table@.map_values(|b: Binding| binding_view(b)) == view,
            rows_view(rows@) == rows_in(view.take(k as int), s),
        decreases table@.len() - k,
    {
        assert(view[k as int] == binding_view(table@[k as int]));
        assert(view.take(k + 1).drop_last() =~= view.take(k as int));
        assert(view.take(k + 1).last() == view[k as int]);
        if table[k].section == s {
            let ghost before = rows_view(rows@);
            rows.push(HelpRow::from_binding(&table[k]));
            assert(rows_view(rows@) =~= before.push(row_of(view[k as int])));
        }
        k = k + 1;
    }
    assert(view.take(table@.len() as int) =~= view);
    HelpSection { title: s.title(), rows }
}

/// Every section the panel lists: the ones derived from the table, then the ones written
/// out for the keymaps that cannot be.
pub fn help_sections() -> (r: Vec<HelpSection>)
    ensures
        sections_view(r@) == help_view(),
{
    let table = bindings();
    let mut out: Vec<HelpSection> = Vec::new();
    out.push(derived_section(&table, Section::Notes));
    out.push(derived_section(&table, Section::Navigation));
    out.push(derived_section(&table, Section::Panes));
    out.push(derived_section(&table, Section::General));
    let ghost head = sections_view(out@);
    assert(head =~= section_order().map_values(
        |s: Section| (section_title(s), rows_in(keymap(), s)),
    ));
    let literals = literal_sections();
    let mut k: usize = 0;
    while k < literals.len()
        invariant
            k <= literals@.len(),
            sections_view(literals@) == literal_view(),
            sections_view(out@) =~= head + literal_view().take(k as int),
        decreases literals@.len() - k,
    {
        let ghost before = out@;
        out.push(literals[k].duplicate());
        assert(sections_view(out@) =~= sections_view(before).push(section_view(literals@[k as int])));
        assert(section_view(literals@[k as int]) == literal_view()[k as int]);
        assert(literal_view().take(k + 1) =~= literal_view().take(k as int).push(
            literal_view()[k as int],
        ));
        k = k + 1;
    }
    assert(literal_view().take(literals@.len() as int) =~= literal_view());
    out
}


// --- filtering the panel -----------------------------------------------------------------------

/// What `str::to_lowercase` makes of this text: Unicode's lowercase mapping, which is tables
/// rather than a formula.
pub uninterp spec fn spec_lowercase(s: Seq<char>) -> Seq<char>;

/// Calls `str::to_lowercase`, a function of the text alone.
#[verifier::external_body]
fn lowercase(s: &str) -> (r: String)
    ensures
        r@ == spec_lowercase(s@),
{
    s.to_lowercase()
}

/// `needle` occurs in `haystack` with ASCII case folded on both sides.
pub open spec fn contains_folded(haystack: Seq<char>, needle: Seq<char>) -> bool {
    needle.len() == 0 || exists|i: int|
        0 <= i && i + needle.len() <= haystack.len() && #[trigger] folded_at(haystack, needle, i)
}

pub open spec fn folded_at(haystack: Seq<char>, needle: Seq<char>, i: int) -> bool {
    forall|k: int| 0 <= k < needle.len() ==> ascii_lower(haystack[i + k]) == ascii_lower(needle[k])
}

/// Substring search that folds ASCII case. The captions and descriptions are ASCII apart
/// from arrows, and an arrow has no case.
fn contains_ignore_case(haystack: &[char], needle: &[char]) -> (r: bool)
    ensures
        r == contains_folded(haystack@, needle@),
{
    if needle.len() == 0 {
        return true;
    }
    if needle.len() > haystack.len() {
        return false;
    }
    let mut i: usize = 0;
    let last = haystack.len() - needle.len();
    while i <= last
        invariant
            0 < needle.len() <= haystack.len(),
            last == haystack.len() - needle.len(),
            i <= last + 1,
            forall|j: int| 0 <= j < i ==> !#[trigger] folded_at(haystack@, needle@, j),
        decreases haystack.len() - i,
    {
        let mut k: usize = 0;
        let mut same = true;
        while k < needle.len()
            invariant
                k <= needle.len(),
                i <= last,
                last == haystack.len() - needle.len(),
                same == forall|m: int| 0 <= m < k ==> ascii_lower(haystack@[i + m]) == ascii_lower(
                    needle@[m],
                ),
            decreases needle.len() - k,
        {
            if lower_char(haystack[i + k]) != lower_char(needle[k]) {
                same = false;
            }
            k = k + 1;
        }
        if same {
            assert(folded_at(haystack@, needle@, i as int));
            return true;
        }
        i = i + 1;
    }
    false
}

pub open spec fn row_hit(row: RowView, needle: Seq<char>) -> bool {
    contains_folded(row.0, needle) || contains_folded(row.1, needle)
}

/// The sections with only the rows that hit `needle`, and without the sections left empty.
pub open spec fn filtered(sections: Seq<SectionView>, needle: Seq<char>) -> Seq<SectionView>
    decreases sections.len(),
{
    if sections.len() == 0 {
        Seq::empty()
    } else {
        let prev = filtered(sections.drop_last(), needle);
        let last = sections.last();
        let rows = last.1.filter(|r: RowView| row_hit(r, needle));
        if rows.len() == 0 {
            prev
        } else {
            prev.push((last.0, rows))
        }
    }
}

/// What the panel lists for `query`: everything for an empty one, else the rows whose
/// caption or description holds the lowercased query, ASCII case folded.
pub open spec fn spec_filter(sections: Seq<SectionView>, query: Seq<char>) -> Seq<SectionView> {
    if query.len() == 0 {
        sections
    } else {
        filtered(sections, spec_lowercase(query))
    }
}

fn row_matches(row: &HelpRow, needle: &[char]) -> (r: bool)
    ensures
        r == row_hit(row_view(*row), needle@),
{
    let caption = chars_of(row.caption);
    if contains_ignore_case(&caption, needle) {
        return true;
    }
    let desc = chars_of(row.desc);
    contains_ignore_case(&desc, needle)
}

/// The rows matching `query`, case-insensitively over caption and description. Sections
/// left with nothing disappear; an empty query is the identity, so the filtered walk is the
/// only walk there is.
pub fn filter(sections: &[HelpSection], query: &str) -> (r: Vec<HelpSection>)
    ensures
        sections_view(r@) == spec_filter(sections_view(sections@), query@),
{
    let ghost all = sections_view(sections@);
    let mut out: Vec<HelpSection> = Vec::new();
    if query.is_empty() {
        let mut k: usize = 0;
        while k < sections.len()
            invariant
                k <= sections@.len(),
                all == sections_view(sections@),
                sections_view(out@) =~= all.take(k as int),
            decreases sections@.len() - k,
        {
            let ghost before = out@;
            out.push(sections[k].duplicate());
            assert(sections_view(out@) =~= sections_view(before).push(all[k as int]));
            assert(all.take(k + 1) =~= all.take(k as int).push(all[k as int]));
            k = k + 1;
        }
        assert(all.take(sections@.len() as int) =~= all);
        return out;
    }
    let lowered = lowercase(query);
    filter_lowered(sections, lowered.as_str())
}

/// The sections with only the rows whose caption or description holds `needle`, ASCII case
/// folded, and without the sections left empty. `needle` is the query as already lowered.
pub fn filter_lowered(sections: &[HelpSection], needle: &str) -> (r: Vec<HelpSection>)
    ensures
        sections_view(r@) == filtered(sections_view(sections@), needle@),
{
    let ghost all = sections_view(sections@);
    let mut out: Vec<HelpSection> = Vec::new();
    let needle = chars_of(needle);
    let ghost hit = |r: RowView| row_hit(r, needle@);
    let mut k: usize = 0;
    assert(all.take(0) =~= Seq::<SectionView>::empty());
    while k < sections.len()
        invariant
            k <= sections@.len(),
            all == sections_view(sections@),
            hit == (|r: RowView| row_hit(r, needle@)),
            sections_view(out@) == filtered(all.take(k as int), needle@),
        decreases sections@.len() - k,
    {
        let section = &sections[k];
        let ghost rv = rows_view(section.rows@);
        let mut rows: Vec<HelpRow> = Vec::new();
        let mut j: usize = 0;
        assert(rv.take(0).filter(hit) =~= Seq::<RowView>::empty());
        while j < section.rows.len()
            invariant
                j <= section.rows@.len(),
                rv == rows_view(section.rows@),
                hit == (|r: RowView| row_hit(r, needle@)),
                rows_view(rows@) == rv.take(j as int).filter(hit),
            decreases section.rows@.len() - j,
        {
            proof {
                assert(rv.take(j + 1) =~= rv.take(j as int).push(rv[j as int]));
                rv.take(j as int).lemma_filter_push(rv[j as int], hit);
            }
            if row_matches(&section.rows[j], &needle) {
                let ghost before = rows_view(rows@);
                rows.push(section.rows[j]);
                assert(rows_view(rows@) =~= before.push(rv[j as int]));
            }
            j = j + 1;
        }
        assert(rv.take(section.rows@.len() as int) =~= rv);
        proof {
            assert(all.take(k + 1).drop_last() =~= all.take(k as int));
            assert(all.take(k + 1).last() == all[k as int]);
            assert(all[k as int] == section_view(*section));
        }
        if rows.len() > 0 {
            let ghost before = sections_view(out@);
            out.push(HelpSection { title: section.title, rows });
            assert(sections_view(out@) =~= before.push((section.title@, rows_view(rows@))));
        }
        k = k + 1;
    }
    assert(all.take(sections@.len() as int) =~= all);
    out
}

// --- counting rows and lines ---------------------------------------------------------------------

pub open spec fn row_count(sections: Seq<SectionView>) -> nat
    decreases sections.len(),
{
    if sections.len() == 0 {
        0
    } else {
        row_count(sections.drop_last()) + sections.last().1.len()
    }
}

/// How many selectable rows the panel lists.
pub fn help_row_count(sections: &[HelpSection]) -> (r: usize)
    requires
        row_count(sections_view(sections@)) <= usize::MAX,
    ensures
        r == row_count(sections_view(sections@)),
{
    let ghost all = sections_view(sections@);
    let mut total: usize = 0;
    let mut k: usize = 0;
    assert(all.take(0) =~= Seq::<SectionView>::empty());
    while k < sections.len()
        invariant
            k <= sections@.len(),
            all == sections_view(sections@),
            row_count(all) <= usize::MAX,
            total == row_count(all.take(k as int)),
        decreases sections@.len() - k,
    {
        proof {
            assert(all.take(k + 1).drop_last() =~= all.take(k as int));
            assert(all.take(k + 1).last() == all[k as int]);
            lemma_row_count_prefix(all, k + 1);
        }
        total = total + sections[k].rows.len();
        k = k + 1;
    }
    assert(all.take(sections@.len() as int) =~= all);
    total
}

proof fn lemma_row_count_prefix(s: Seq<SectionView>, k: int)
    requires
        0 <= k <= s.len(),
    ensures
        row_count(s.take(k)) <= row_count(s),
    decreases s.len() - k,
{
    if k < s.len() {
        lemma_row_count_prefix(s, k + 1);
        assert(s.take(k + 1).drop_last() =~= s.take(k));
    } else {
        assert(s.take(k) =~= s);
    }
}

/// How many body lines the sections occupy: a heading per section, its rows, and a blank
/// line between sections. The cursor addresses rows; the scrolling window addresses lines.
pub open spec fn line_count(sections: Seq<SectionView>) -> nat {
    row_count(sections) + sections.len() + if sections.len() > 0 {
        (sections.len() - 1) as nat
    } else {
        0
    }
}

pub fn help_line_count(sections: &[HelpSection]) -> (r: usize)
    requires
        line_count(sections_view(sections@)) <= usize::MAX,
    ensures
        r == line_count(sections_view(sections@)),
{
    let rows = help_row_count(sections);
    let n = sections.len();
    rows + n + n.saturating_sub(1)
}


// --- laws of the panel ---------------------------------------------------------------------------

proof fn lemma_rows_in_lists(t: Seq<BindingView>, s: Section, i: int)
    requires
        0 <= i < t.len(),
        t[i].3 == s,
    ensures
        rows_in(t, s).contains(row_of(t[i])),
    decreases t.len(),
{
    broadcast use vstd::seq_lib::group_seq_properties;

    if i == t.len() - 1 {
        assert(rows_in(t, s) == rows_in(t.drop_last(), s).push(row_of(t[i])));
        assert(rows_in(t, s)[rows_in(t, s).len() - 1] == row_of(t[i]));
    } else {
        assert(t.drop_last()[i] == t[i]);
        lemma_rows_in_lists(t.drop_last(), s, i);
    }
}

/// Every binding is listed in the panel, with its own caption and description.
pub proof fn lemma_every_binding_is_listed(i: int)
    requires
        0 <= i < keymap().len(),
    ensures
        exists|k: int| 0 <= k < help_view().len() && help_view()[k].1.contains(row_of(keymap()[i])),
{
    let t = keymap();
    let s = t[i].3;
    lemma_rows_in_lists(t, s, i);
    let k: int = match s {
        Section::Notes => 0,
        Section::Navigation => 1,
        Section::Panes => 2,
        Section::General => 3,
    };
    assert(section_order()[k] == s);
    assert(help_view()[k] == (section_title(s), rows_in(t, s)));
}

/// Every section the panel lists has something in it.
pub proof fn lemma_every_section_lists_something()
    ensures
        forall|k: int| 0 <= k < help_view().len() ==> #[trigger] help_view()[k].1.len() > 0,
{
    let t = keymap();
    lemma_rows_in_lists(t, Section::Notes, 4);
    lemma_rows_in_lists(t, Section::Navigation, 0);
    lemma_rows_in_lists(t, Section::Panes, 6);
    lemma_rows_in_lists(t, Section::General, 7);
    assert forall|k: int| 0 <= k < help_view().len() implies #[trigger] help_view()[k].1.len() > 0 by {
        if k < 4 {
            assert(help_view()[k] == (section_title(section_order()[k]), rows_in(
                t,
                section_order()[k],
            )));
        } else {
            assert(help_view()[k] == literal_view()[k - 4]);
        }
    }
}

/// A filtered panel lists no empty section and no row that misses the query, and keeps
/// every section's title.
pub proof fn lemma_filter_lists_only_hits(sections: Seq<SectionView>, needle: Seq<char>)
    ensures
        forall|k: int| 0 <= k < filtered(sections, needle).len() ==> #[trigger] filtered(sections, needle)[k].1.len() > 0,
        forall|k: int, m: int|
            0 <= k < filtered(sections, needle).len() && 0 <= m < filtered(sections, needle)[k].1.len()
                ==> row_hit(#[trigger] filtered(sections, needle)[k].1[m], needle),
        filtered(sections, needle).len() <= sections.len(),
    decreases sections.len(),
{
    broadcast use vstd::seq_lib::group_filter_ensures;

    if sections.len() > 0 {
        lemma_filter_lists_only_hits(sections.drop_last(), needle);
        let hit = |r: RowView| row_hit(r, needle);
        let rows = sections.last().1.filter(hit);
        assert forall|m: int| 0 <= m < rows.len() implies row_hit(#[trigger] rows[m], needle) by {
            sections.last().1.lemma_filter_pred(hit, m);
        }
    }
}

} // verus!
