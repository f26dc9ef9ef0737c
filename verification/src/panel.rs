//! The state of the app's panes and prompts that is not the notes themselves: which pane has
//! the keyboard, an unresolved external change, and the keybindings panel.

use vstd::prelude::*;

use crate::keys::{
    Command, HelpSection, RowView, SectionView, filter, help_line_count, help_row_count,
    help_sections, help_view, keymap, lemma_filter_lists_only_hits, line_count, row_count,
    rows_in, section_order, sections_view, spec_filter, literal_view, filtered,
};
use crate::text::{chars_of, string_of};

verus! {

/// Which pane the keyboard is talking to.
#[derive(Debug, Clone, Copy, PartialEq, Eq, Structural)]
pub enum Focus {
    List,
    Editor,
}

/// An external change to the open note that only the user can decide about.
#[derive(Debug, Clone, Copy, PartialEq, Eq, Structural)]
pub enum Conflict {
    /// The note changed on disk while the buffer held unsaved work.
    Changed,
    /// The note was deleted on disk while the buffer held unsaved work.
    Deleted,
}


/// How long the panel's filter query may get, in characters: longer than any caption or
/// description, and short enough that the prompt cannot push its own hints off the status
/// line.
pub const HELP_QUERY_MAX: usize = 40;

/// The sections the panel lists for a query.
pub open spec fn listed_view(query: Seq<char>) -> Seq<SectionView> {
    spec_filter(help_view(), query)
}

/// Every row of the sections, in order: what the cursor indexes.
pub open spec fn flat_rows(sections: Seq<SectionView>) -> Seq<RowView>
    decreases sections.len(),
{
    if sections.len() == 0 {
        Seq::empty()
    } else {
        flat_rows(sections.drop_last()) + sections.last().1
    }
}

/// The panel's body window for a frame `height` rows tall: less the status line and the
/// panel's two borders, and at least one line.
pub open spec fn window_for(height: u16) -> nat {
    if height >= 4 {
        (height - 3) as nat
    } else {
        1
    }
}

/// `x + delta`, held inside `0..=usize::MAX`.
pub open spec fn add_signed_saturating(x: usize, delta: isize) -> usize {
    if x + delta < 0 {
        0
    } else if x + delta > usize::MAX {
        usize::MAX
    } else {
        (x + delta) as usize
    }
}

/// The panel's state: cursor row, first visible line, filter query, and whether keys go
/// into the filter.
pub type HelpView = (usize, usize, Seq<char>, bool);

/// The cursor and the first visible line pulled back inside what the query lists.
pub open spec fn clamped(v: HelpView, height: u16) -> HelpView {
    let sections = listed_view(v.2);
    let rows = row_count(sections);
    let last_row = if rows > 0 {
        (rows - 1) as nat
    } else {
        0
    };
    let lines = line_count(sections);
    let window = window_for(height);
    let max_offset = if lines > window {
        (lines - window) as nat
    } else {
        0
    };
    (
        if v.0 <= last_row {
            v.0
        } else {
            last_row as usize
        },
        if v.1 <= max_offset {
            v.1
        } else {
            max_offset as usize
        },
        v.2,
        v.3,
    )
}

/// What Enter runs in the panel `v`: the command of the row under the cursor, if it has one.
pub open spec fn selection_of(v: HelpView) -> Option<Command> {
    if v.0 < flat_rows(listed_view(v.2)).len() {
        flat_rows(listed_view(v.2))[v.0 as int].2
    } else {
        None
    }
}

/// The keybindings panel's state while it is open.
#[derive(Debug)]
pub struct Help {
    /// Index into the rows currently listed, not into the keymap.
    cursor: usize,
    /// The first visible body line.
    offset: usize,
    /// The filter query.
    query: String,
    /// Whether keys are going into the query rather than moving the cursor.
    searching: bool,
}

impl View for Help {
    type V = HelpView;

    closed spec fn view(&self) -> HelpView {
        (self.cursor, self.offset, self.query@, self.searching)
    }
}

proof fn lemma_rows_in_len(t: Seq<crate::keys::BindingView>, s: crate::keys::Section)
    ensures
        rows_in(t, s).len() <= t.len(),
    decreases t.len(),
{
    if t.len() > 0 {
        lemma_rows_in_len(t.drop_last(), s);
    }
}

proof fn lemma_row_count_bound(sections: Seq<SectionView>, most: nat)
    requires
        forall|k: int| 0 <= k < sections.len() ==> #[trigger] sections[k].1.len() <= most,
    ensures
        row_count(sections) <= most * sections.len(),
    decreases sections.len(),
{
    if sections.len() > 0 {
        let prev = sections.drop_last();
        assert forall|k: int| 0 <= k < prev.len() implies #[trigger] prev[k].1.len() <= most by {
            assert(prev[k] == sections[k]);
        }
        lemma_row_count_bound(prev, most);
        assert(sections.last() == sections[sections.len() - 1]);
        assert(most * sections.len() == most * prev.len() + most) by (nonlinear_arith)
            requires
                sections.len() == prev.len() + 1,
        ;
    }
}

proof fn lemma_filtered_row_count(sections: Seq<SectionView>, needle: Seq<char>)
    ensures
        row_count(filtered(sections, needle)) <= row_count(sections),
    decreases sections.len(),
{
    if sections.len() > 0 {
        lemma_filtered_row_count(sections.drop_last(), needle);
        let prev = filtered(sections.drop_last(), needle);
        let rows = sections.last().1.filter(|r: RowView| crate::keys::row_hit(r, needle));
        sections.last().1.lemma_filter_len(|r: RowView| crate::keys::row_hit(r, needle));
        assert(row_count(sections) == row_count(sections.drop_last()) + sections.last().1.len());
        if rows.len() > 0 {
            let out = prev.push((sections.last().0, rows));
            assert(filtered(sections, needle) == out);
            assert(out.drop_last() =~= prev);
            assert(row_count(out) == row_count(prev) + rows.len());
        } else {
            assert(filtered(sections, needle) == prev);
        }
    }
}

/// What the panel can list is small: a few dozen rows and lines at most.
pub proof fn lemma_listed_is_small(query: Seq<char>)
    ensures
        row_count(listed_view(query)) <= 72,
        listed_view(query).len() <= 8,
        line_count(listed_view(query)) <= 87,
{
    let all = help_view();
    let t = keymap();
    assert forall|k: int| 0 <= k < all.len() implies #[trigger] all[k].1.len() <= 9 by {
        if k < 4 {
            lemma_rows_in_len(t, section_order()[k]);
            assert(all[k] == (crate::keys::section_title(section_order()[k]), rows_in(
                t,
                section_order()[k],
            )));
        } else {
            assert(all[k] == literal_view()[k - 4]);
        }
    }
    lemma_row_count_bound(all, 9);
    if query.len() > 0 {
        let needle = crate::keys::spec_lowercase(query);
        lemma_filtered_row_count(all, needle);
        lemma_filter_lists_only_hits(all, needle);
    }
}

impl Help {
    /// A closed filter, the cursor on the first row, the view at the top.
    pub fn new() -> (r: Help)
        ensures
            r@ == (0usize, 0usize, Seq::<char>::empty(), false),
    {
        Help { cursor: 0, offset: 0, query: string_of(&[]), searching: false }
    }

    pub fn cursor(&self) -> (r: usize)
        ensures
            r == self@.0,
    {
        self.cursor
    }

    pub fn offset(&self) -> (r: usize)
        ensures
            r == self@.1,
    {
        self.offset
    }

    pub fn query(&self) -> (r: &str)
        ensures
            r@ == self@.2,
    {
        self.query.as_str()
    }

    pub fn searching(&self) -> (r: bool)
        ensures
            r == self@.3,
    {
        self.searching
    }

    /// The sections the panel is currently listing. One walk, indexed by the cursor, the
    /// renderer, and Enter alike.
    pub fn listed(&self) -> (r: Vec<HelpSection>)
        ensures
            sections_view(r@) == listed_view(self@.2),
    {
        filter(&help_sections(), self.query.as_str())
    }

    /// What Enter would run: the selected row's command, if it has one.
    pub fn selection(&self) -> (r: Option<Command>)
        ensures
            r == selection_of(self@),
    {
        let sections = self.listed();
        let ghost all = sections_view(sections@);
        let mut k: usize = 0;
        let mut before: usize = 0;
        proof {
            lemma_listed_is_small(self@.2);
        }
        assert(all.take(0) =~= Seq::<SectionView>::empty());
        assert(flat_rows(all.take(0)) =~= Seq::<RowView>::empty());
        while k < sections.len()
            invariant
                k <= sections@.len(),
                all == sections_view(sections@),
                all == listed_view(self@.2),
                before == flat_rows(all.take(k as int)).len(),
                before <= self@.0,
                row_count(all) <= 72,
                flat_rows(all.take(k as int)).len() == row_count(all.take(k as int)),
            decreases sections@.len() - k,
        {
            proof {
                assert(all.take(k + 1).drop_last() =~= all.take(k as int));
                assert(all.take(k + 1).last() == all[k as int]);
                lemma_row_count_prefix_le(all, k + 1);
            }
            let n = sections[k].rows.len();
            if self.cursor - before < n {
                let row = sections[k].rows[self.cursor - before];
                proof {
                    let i = self@.0 - before;
                    let head = flat_rows(all.take(k as int));
                    let upto = flat_rows(all.take(k + 1));
                    assert(upto == head + all[k as int].1);
                    assert(all[k as int].1 == crate::keys::rows_view(sections@[k as int].rows@));
                    assert(all[k as int].1.len() == n);
                    assert(upto.len() == before + n);
                    lemma_flat_rows_prefix(all, k + 1);
                    assert(upto[self@.0 as int] == all[k as int].1[i]);
                    assert(flat_rows(all)[self@.0 as int] == upto[self@.0 as int]);
                    assert(row.run == all[k as int].1[i].2);
                }
                return row.run;
            }
            before = before + n;
            k = k + 1;
        }
        proof {
            assert(all.take(sections@.len() as int) =~= all);
        }
        None
    }

    /// Pull the cursor and the first visible line back inside what is listed, for a frame
    /// `height` rows tall. The window used is an upper bound on the real one, so this can
    /// only hold the offset short of the end, never leave it past one.
    pub fn clamp(&mut self, height: u16)
        ensures
            final(self)@ == clamped(old(self)@, height),
    {
        let sections = self.listed();
        proof {
            lemma_listed_is_small(self@.2);
        }
        let rows = help_row_count(&sections);
        let last_row = rows.saturating_sub(1);
        let lines = help_line_count(&sections);
        let window = if height >= 4 {
            (height - 3) as usize
        } else {
            1
        };
        if self.cursor > last_row {
            self.cursor = last_row;
        }
        let max_offset = lines.saturating_sub(window);
        if self.offset > max_offset {
            self.offset = max_offset;
        }
    }

    /// Move the cursor by `delta` rows, without wrapping: a list this short is easier to read
    /// when its ends hold still.
    pub fn move_by(&mut self, delta: isize, height: u16)
        ensures
            final(self)@ == clamped(
                (add_signed_saturating(old(self)@.0, delta), old(self)@.1, old(self)@.2, old(self)@.3),
                height,
            ),
    {
        self.cursor = saturating_add_signed(self.cursor, delta);
        self.clamp(height);
    }

    /// Put the cursor on `row`, or on the last row when there are fewer.
    pub fn move_to(&mut self, row: usize, height: u16)
        ensures
            final(self)@ == clamped((row, old(self)@.1, old(self)@.2, old(self)@.3), height),
    {
        self.cursor = row;
        self.clamp(height);
    }

    /// Put the cursor on the last row.
    pub fn move_to_end(&mut self, height: u16)
        ensures
            final(self)@ == clamped((usize::MAX, old(self)@.1, old(self)@.2, old(self)@.3), height),
    {
        self.move_to(usize::MAX, height);
    }

    /// Move the view by `delta` lines without moving the cursor.
    pub fn scroll(&mut self, delta: isize, height: u16)
        ensures
            final(self)@ == clamped(
                (old(self)@.0, add_signed_saturating(old(self)@.1, delta), old(self)@.2, old(self)@.3),
                height,
            ),
    {
        self.offset = saturating_add_signed(self.offset, delta);
        self.clamp(height);
    }

    /// Start filtering the list.
    pub fn search(&mut self, height: u16)
        ensures
            final(self)@ == clamped((old(self)@.0, old(self)@.1, old(self)@.2, true), height),
    {
        self.searching = true;
        self.clamp(height);
    }

    /// Leave the filter prompt, keeping the query.
    pub fn search_commit(&mut self, height: u16)
        ensures
            final(self)@ == clamped((old(self)@.0, old(self)@.1, old(self)@.2, false), height),
    {
        self.searching = false;
        self.clamp(height);
    }

    /// Leave the filter prompt and clear the query: one Esc gives the whole list back, a
    /// second closes the panel.
    pub fn search_cancel(&mut self, height: u16)
        ensures
            final(self)@ == clamped((old(self)@.0, 0usize, Seq::<char>::empty(), false), height),
    {
        self.searching = false;
        self.query = string_of(&[]);
        self.offset = 0;
        self.clamp(height);
    }

    /// Add a character to the query, up to [`HELP_QUERY_MAX`] of them. The view goes back to
    /// the top: it was measured in lines of a list that just changed underneath it.
    pub fn type_char(&mut self, c: char, height: u16)
        ensures
            final(self)@ == clamped(
                (
                    old(self)@.0,
                    0usize,
                    if old(self)@.2.len() < HELP_QUERY_MAX {
                        old(self)@.2.push(c)
                    } else {
                        old(self)@.2
                    },
                    old(self)@.3,
                ),
                height,
            ),
    {
        let mut chars = chars_of(self.query.as_str());
        if chars.len() < HELP_QUERY_MAX {
            chars.push(c);
            self.query = string_of(&chars);
        }
        self.offset = 0;
        self.clamp(height);
    }

    /// Drop the query's last character, if any; the view goes back to the top.
    pub fn backspace(&mut self, height: u16)
        ensures
            final(self)@ == clamped(
                (
                    old(self)@.0,
                    0usize,
                    if old(self)@.2.len() > 0 {
                        old(self)@.2.drop_last()
                    } else {
                        old(self)@.2
                    },
                    old(self)@.3,
                ),
                height,
            ),
    {
        let mut chars = chars_of(self.query.as_str());
        if chars.len() > 0 {
            chars.pop();
            self.query = string_of(&chars);
        }
        self.offset = 0;
        self.clamp(height);
    }
}

impl Default for Help {
    fn default() -> (r: Help)
        ensures
            r@ == (0usize, 0usize, Seq::<char>::empty(), false),
    {
        Help::new()
    }
}

/// `x + delta`, held inside `0..=usize::MAX`.
pub fn saturating_add_signed(x: usize, delta: isize) -> (r: usize)
    ensures
        r == add_signed_saturating(x, delta),
{
    if delta >= 0 {
        x.saturating_add(delta as usize)
    } else {
        let back: usize = ((-(delta + 1)) as usize) + 1;
        x.saturating_sub(back)
    }
}

/// The panel's cursor is on a listed row (or on the first place of an empty list), and its
/// view leaves no more than a window of lines below it, for a frame `height` rows tall.
pub open spec fn panel_in_bounds(v: HelpView, height: u16) -> bool {
    let rows = row_count(listed_view(v.2));
    let lines = line_count(listed_view(v.2));
    &&& (rows > 0 ==> v.0 < rows)
    &&& (rows == 0 ==> v.0 == 0)
    &&& (v.1 == 0 || v.1 + window_for(height) <= lines)
}

/// Whatever the panel was asked to do, the cursor ends on a listed row (or on the first place
/// of an empty list) and the view leaves no more than a window of lines below it; the query
/// and the prompt are left as they were.
pub proof fn lemma_clamping_keeps_the_panel_inside_its_list(v: HelpView, height: u16)
    ensures
        ({
            let c = clamped(v, height);
            let rows = row_count(listed_view(v.2));
            let lines = line_count(listed_view(v.2));
            &&& (rows > 0 ==> c.0 < rows)
            &&& (rows == 0 ==> c.0 == 0)
            &&& c.1 + window_for(height) <= lines || c.1 == 0
            &&& c.2 == v.2
            &&& c.3 == v.3
            &&& panel_in_bounds(c, height)
        }),
{
}

pub proof fn lemma_row_count_prefix_le(s: Seq<SectionView>, k: int)
    requires
        0 <= k <= s.len(),
    ensures
        row_count(s.take(k)) <= row_count(s),
    decreases s.len() - k,
{
    if k < s.len() {
        lemma_row_count_prefix_le(s, k + 1);
        assert(s.take(k + 1).drop_last() =~= s.take(k));
    } else {
        assert(s.take(k) =~= s);
    }
}

proof fn lemma_flat_rows_prefix(s: Seq<SectionView>, k: int)
    requires
        0 <= k <= s.len(),
    ensures
        flat_rows(s.take(k)).is_prefix_of(flat_rows(s)),
        flat_rows(s.take(k)).len() == row_count(s.take(k)),
    decreases s.len() - k,
{
    if k < s.len() {
        lemma_flat_rows_prefix(s, k + 1);
        assert(s.take(k + 1).drop_last() =~= s.take(k));
        assert(flat_rows(s.take(k + 1)) == flat_rows(s.take(k)) + s[k].1);
    } else {
        assert(s.take(k) =~= s);
        lemma_flat_rows_len(s);
    }
}

pub proof fn lemma_flat_rows_len(s: Seq<SectionView>)
    ensures
        flat_rows(s).len() == row_count(s),
    decreases s.len(),
{
    if s.len() > 0 {
        lemma_flat_rows_len(s.drop_last());
    }
}

} // verus!
