//! The arithmetic and text of the screen that do not need a terminal: the keybindings panel's
//! box and body, its scrolling, and the status line's hints.
//!
//! Drawing is the caller's; what is drawn, and where, is decided here.

use vstd::prelude::*;

use crate::keys::{
    Command, HelpSection, RowView, SectionView, binding, chord_caption, help_line_count, keymap,
    line_count, row_count, rows_view, section_view, sections_view,
};
use crate::naming::{decimal, push_all, push_decimal};
use crate::panel::Conflict;
use crate::store::WorkspaceHealth;
use crate::note::Format;
use crate::text::{chars_of, string_of};

verus! {

/// A rectangle of terminal cells.
#[derive(Debug, Clone, Copy, PartialEq, Eq, Structural)]
pub struct Rect {
    pub x: u16,
    pub y: u16,
    pub width: u16,
    pub height: u16,
}

/// The smallest body the keybindings panel will draw into; below this it would be all
/// border and no list, so nothing is drawn at all.
pub const HELP_MIN_BODY_W: u16 = 21;
pub const HELP_MIN_BODY_H: u16 = 6;

/// The panel's preferred floor, never applied past the frame's own width.
pub const HELP_MIN_W: u16 = 30;
/// A ceiling, so the list does not stretch into unreadable lines on a wide terminal.
pub const HELP_MAX_W: u16 = 90;
/// The share of the frame it prefers, in percent.
pub const HELP_PCT: u16 = 70;
/// Columns left uncovered each side, so the panes stay visible around it.
pub const HELP_MARGIN: u16 = 4;
/// Between the left border and the caption column.
pub const HELP_GUTTER: u16 = 3;
/// Between the caption column and the descriptions.
pub const HELP_KEY_GAP: u16 = 2;
/// A blank column before the right border.
pub const HELP_PAD_R: u16 = 1;

pub open spec fn min_int(a: int, b: int) -> int {
    if a <= b {
        a
    } else {
        b
    }
}

pub open spec fn max_int(a: int, b: int) -> int {
    if a >= b {
        a
    } else {
        b
    }
}

/// The panel's width for content `content_w` wide in a frame `frame_w` wide: at least the
/// content plus its borders and padding and its share of the frame; at most the frame, the
/// ceiling, and the frame less its margins when it can spare them; the ceiling winning over
/// the floor; never under 2.
pub open spec fn spec_help_width(content_w: u16, frame_w: u16) -> int {
    let share = frame_w * HELP_PCT / 100;
    let preferred = max_int(min_int(content_w + 2 + HELP_PAD_R, u16::MAX as int), share);
    let limit = if frame_w >= HELP_MIN_W + 2 * HELP_MARGIN {
        min_int(min_int(frame_w as int, HELP_MAX_W as int), frame_w - 2 * HELP_MARGIN)
    } else {
        min_int(frame_w as int, HELP_MAX_W as int)
    };
    max_int(min_int(max_int(preferred, min_int(HELP_MIN_W as int, frame_w as int)), limit), 2)
}

pub fn help_width(content_w: u16, frame_w: u16) -> (r: u16)
    ensures
        r == spec_help_width(content_w, frame_w),
{
    let wide: u32 = frame_w as u32;
    assert(wide * 70 <= 65535 * 70);
    let share: u32 = wide * 70 / 100;
    let share16: u16 = if share > 65535 {
        65535
    } else {
        share as u16
    };
    let padded = content_w.saturating_add(2 + HELP_PAD_R);
    let preferred = if padded >= share16 {
        padded
    } else {
        share16
    };
    let mut limit = if frame_w <= HELP_MAX_W {
        frame_w
    } else {
        HELP_MAX_W
    };
    if frame_w >= HELP_MIN_W + 2 * HELP_MARGIN {
        let spare = frame_w - 2 * HELP_MARGIN;
        if spare < limit {
            limit = spare;
        }
    }
    let floor = if HELP_MIN_W <= frame_w {
        HELP_MIN_W
    } else {
        frame_w
    };
    let raised = if preferred >= floor {
        preferred
    } else {
        floor
    };
    let capped = if raised <= limit {
        raised
    } else {
        limit
    };
    if capped >= 2 {
        capped
    } else {
        2
    }
}

/// The panel's height for `body_len` lines in a frame `frame_h` tall: the body and its two
/// borders, leaving two rows of frame around it but never fewer than one body row, and never
/// taller than the frame (or 2).
pub open spec fn spec_help_height(body_len: u16, frame_h: u16) -> int {
    let ceiling = max_int(if frame_h >= 2 {
        frame_h - 2
    } else {
        0
    }, 3);
    min_int(min_int(min_int(body_len + 2, u16::MAX as int), ceiling), max_int(frame_h as int, 2))
}

pub fn help_height(body_len: u16, frame_h: u16) -> (r: u16)
    ensures
        r == spec_help_height(body_len, frame_h),
{
    let less = frame_h.saturating_sub(2);
    let ceiling = if less >= 3 {
        less
    } else {
        3
    };
    let wanted = body_len.saturating_add(2);
    let a = if wanted <= ceiling {
        wanted
    } else {
        ceiling
    };
    let tallest = if frame_h >= 2 {
        frame_h
    } else {
        2
    };
    if a <= tallest {
        a
    } else {
        tallest
    }
}

/// A rectangle fits on the screen: its far edges are representable.
pub open spec fn on_screen(r: Rect) -> bool {
    r.x + r.width <= u16::MAX && r.y + r.height <= u16::MAX
}

/// A `width` by `height` box centred on `area`, no larger than it.
pub open spec fn spec_centered(area: Rect, width: u16, height: u16) -> Rect {
    let w = min_int(width as int, area.width as int);
    let h = min_int(height as int, area.height as int);
    Rect {
        x: (area.x + (area.width - w) / 2) as u16,
        y: (area.y + (area.height - h) / 2) as u16,
        width: w as u16,
        height: h as u16,
    }
}

pub fn centered(area: Rect, width: u16, height: u16) -> (r: Rect)
    requires
        on_screen(area),
    ensures
        r == spec_centered(area, width, height),
        on_screen(r),
{
    let w = if width <= area.width {
        width
    } else {
        area.width
    };
    let h = if height <= area.height {
        height
    } else {
        area.height
    };
    Rect {
        x: area.x + (area.width - w) / 2,
        y: area.y + (area.height - h) / 2,
        width: w,
        height: h,
    }
}

/// The panel's box, centred on `area`, at least 2 by 2 so it can hold its own border.
pub open spec fn spec_help_rect(content_w: u16, body_len: u16, area: Rect) -> Rect {
    let c = spec_centered(
        area,
        spec_help_width(content_w, area.width) as u16,
        spec_help_height(body_len, area.height) as u16,
    );
    Rect {
        x: c.x,
        y: c.y,
        width: max_int(c.width as int, 2) as u16,
        height: max_int(c.height as int, 2) as u16,
    }
}

/// The panel's box. Total for every size: the panel is sized by arithmetic rather than by a
/// layout, and an underflow here would panic inside the draw.
pub fn help_rect(content_w: u16, body_len: u16, area: Rect) -> (r: Rect)
    requires
        on_screen(area),
    ensures
        r == spec_help_rect(content_w, body_len, area),
{
    let mut rect = centered(
        area,
        help_width(content_w, area.width),
        help_height(body_len, area.height),
    );
    if rect.width < 2 {
        rect.width = 2;
    }
    if rect.height < 2 {
        rect.height = 2;
    }
    rect
}

/// On a screen of at least 2 by 2 the panel's box lies inside it.
pub proof fn lemma_help_rect_fits(content_w: u16, body_len: u16, area: Rect)
    requires
        on_screen(area),
        area.width >= 2,
        area.height >= 2,
    ensures
        ({
            let r = spec_help_rect(content_w, body_len, area);
            &&& area.x <= r.x
            &&& r.x + r.width <= area.x + area.width
            &&& area.y <= r.y
            &&& r.y + r.height <= area.y + area.height
            &&& r.width >= 2
            &&& r.height >= 2
        }),
{
    let w = spec_help_width(content_w, area.width);
    let h = spec_help_height(body_len, area.height);
    assert(2 <= w <= u16::MAX);
    assert(h <= max_int(area.height as int, 2));
}


// --- the panel's text --------------------------------------------------------------------------

/// How many terminal columns a text takes, counted in characters and held to `u16`.
pub open spec fn spec_width_of(text: Seq<char>) -> u16 {
    if text.len() > u16::MAX {
        u16::MAX
    } else {
        text.len() as u16
    }
}

pub fn width_of(text: &str) -> (r: u16)
    ensures
        r == spec_width_of(text@),
{
    let n = chars_of(text).len();
    if n > 65535 {
        65535
    } else {
        n as u16
    }
}

/// The panel's body length in lines, held to `u16`.
pub fn help_lines(sections: &[HelpSection]) -> (r: u16)
    requires
        line_count(sections_view(sections@)) <= usize::MAX,
    ensures
        r == if line_count(sections_view(sections@)) > u16::MAX {
            u16::MAX as nat
        } else {
            line_count(sections_view(sections@))
        },
{
    let n = help_line_count(sections);
    if n > 65535 {
        65535
    } else {
        n as u16
    }
}

pub open spec fn max_caption(rows: Seq<RowView>) -> u16
    decreases rows.len(),
{
    if rows.len() == 0 {
        0
    } else {
        let prev = max_caption(rows.drop_last());
        let w = spec_width_of(rows.last().0);
        if w > prev {
            w
        } else {
            prev
        }
    }
}

pub open spec fn max_desc(rows: Seq<RowView>) -> u16
    decreases rows.len(),
{
    if rows.len() == 0 {
        0
    } else {
        let prev = max_desc(rows.drop_last());
        let w = spec_width_of(rows.last().1);
        if w > prev {
            w
        } else {
            prev
        }
    }
}

pub open spec fn max_title(sections: Seq<SectionView>) -> u16
    decreases sections.len(),
{
    if sections.len() == 0 {
        0
    } else {
        let prev = max_title(sections.drop_last());
        let w = spec_width_of(sections.last().0);
        if w > prev {
            w
        } else {
            prev
        }
    }
}

pub open spec fn sat_u16(x: int) -> int {
    if x > u16::MAX {
        u16::MAX as int
    } else {
        x
    }
}

/// The caption column's width, and the width of the widest line the body produces: a row is
/// gutter, caption, gap and description; a heading is `── Title ` at the description column.
pub open spec fn spec_help_metrics(sections: Seq<SectionView>) -> (u16, u16) {
    let rows = crate::panel::flat_rows(sections);
    let caption_w = max_caption(rows);
    let column = sat_u16(sat_u16(HELP_GUTTER + caption_w) + HELP_KEY_GAP);
    let content_w = max_int(sat_u16(column + max_desc(rows)), sat_u16(sat_u16(column + max_title(sections)) + 4));
    (caption_w, content_w as u16)
}

fn widest(texts: &Vec<&'static str>) -> (r: u16)
    ensures
        r == max_caption(texts@.map_values(|t: &'static str| (t@, Seq::<char>::empty(), None::<Command>))),
{
    let ghost view = texts@.map_values(|t: &'static str| (t@, Seq::<char>::empty(), None::<Command>));
    let mut best: u16 = 0;
    let mut k: usize = 0;
    assert(view.take(0) =~= Seq::<RowView>::empty());
    while k < texts.len()
        invariant
            k <= texts@.len(),
            view == texts@.map_values(|t: &'static str| (t@, Seq::<char>::empty(), None::<Command>)),
            best == max_caption(view.take(k as int)),
        decreases texts@.len() - k,
    {
        proof {
            assert(view.take(k + 1).drop_last() =~= view.take(k as int));
            assert(view.take(k + 1).last() == view[k as int]);
        }
        let w = width_of(texts[k]);
        if w > best {
            best = w;
        }
        k = k + 1;
    }
    assert(view.take(texts@.len() as int) =~= view);
    best
}

proof fn lemma_max_desc_as_caption(rows: Seq<RowView>)
    ensures
        max_desc(rows) == max_caption(rows.map_values(|r: RowView| (r.1, Seq::<char>::empty(), None::<Command>))),
    decreases rows.len(),
{
    let f = |r: RowView| (r.1, Seq::<char>::empty(), None::<Command>);
    if rows.len() > 0 {
        lemma_max_desc_as_caption(rows.drop_last());
        assert(rows.map_values(f).drop_last() =~= rows.drop_last().map_values(f));
    } else {
        assert(rows.map_values(f) =~= Seq::<RowView>::empty());
    }
}

proof fn lemma_max_caption_only_captions(rows: Seq<RowView>)
    ensures
        max_caption(rows) == max_caption(rows.map_values(|r: RowView| (r.0, Seq::<char>::empty(), None::<Command>))),
    decreases rows.len(),
{
    let f = |r: RowView| (r.0, Seq::<char>::empty(), None::<Command>);
    if rows.len() > 0 {
        lemma_max_caption_only_captions(rows.drop_last());
        assert(rows.map_values(f).drop_last() =~= rows.drop_last().map_values(f));
    } else {
        assert(rows.map_values(f) =~= Seq::<RowView>::empty());
    }
}

proof fn lemma_max_title_as_caption(sections: Seq<SectionView>)
    ensures
        max_title(sections) == max_caption(sections.map_values(|s: SectionView| (s.0, Seq::<char>::empty(), None::<Command>))),
    decreases sections.len(),
{
    let f = |s: SectionView| (s.0, Seq::<char>::empty(), None::<Command>);
    if sections.len() > 0 {
        lemma_max_title_as_caption(sections.drop_last());
        assert(sections.map_values(f).drop_last() =~= sections.drop_last().map_values(f));
    } else {
        assert(sections.map_values(f) =~= Seq::<RowView>::empty());
    }
}

/// The caption column's width and the content width of these sections.
pub fn help_metrics(sections: &[HelpSection]) -> (r: (u16, u16))
    ensures
        r == spec_help_metrics(sections_view(sections@)),
{
    let ghost all = sections_view(sections@);
    let mut captions: Vec<&'static str> = Vec::new();
    let mut descs: Vec<&'static str> = Vec::new();
    let mut titles: Vec<&'static str> = Vec::new();
    let mut k: usize = 0;
    assert(all.take(0) =~= Seq::<SectionView>::empty());
    assert(crate::panel::flat_rows(all.take(0)) =~= Seq::<RowView>::empty());
    while k < sections.len()
        invariant
            k <= sections@.len(),
            all == sections_view(sections@),
            captions@.map_values(|t: &'static str| (t@, Seq::<char>::empty(), None::<Command>))
                == crate::panel::flat_rows(all.take(k as int)).map_values(
                |r: RowView| (r.0, Seq::<char>::empty(), None::<Command>),
            ),
            descs@.map_values(|t: &'static str| (t@, Seq::<char>::empty(), None::<Command>))
                == crate::panel::flat_rows(all.take(k as int)).map_values(
                |r: RowView| (r.1, Seq::<char>::empty(), None::<Command>),
            ),
            titles@.map_values(|t: &'static str| (t@, Seq::<char>::empty(), None::<Command>))
                == all.take(k as int).map_values(
                |s: SectionView| (s.0, Seq::<char>::empty(), None::<Command>),
            ),
        decreases sections@.len() - k,
    {
        let section = &sections[k];
        let ghost rv = rows_view(section.rows@);
        let ghost c0 = captions@;
        let ghost d0 = descs@;
        let mut j: usize = 0;
        while j < section.rows.len()
            invariant
                j <= section.rows@.len(),
                rv == rows_view(section.rows@),
                captions@ == c0 + section.rows@.take(j as int).map_values(|r: crate::keys::HelpRow| r.caption),
                descs@ == d0 + section.rows@.take(j as int).map_values(|r: crate::keys::HelpRow| r.desc),
            decreases section.rows@.len() - j,
        {
            captions.push(section.rows[j].caption);
            descs.push(section.rows[j].desc);
            assert(section.rows@.take(j + 1).map_values(|r: crate::keys::HelpRow| r.caption) =~= section.rows@.take(j as int).map_values(|r: crate::keys::HelpRow| r.caption).push(section.rows@[j as int].caption));
            assert(section.rows@.take(j + 1).map_values(|r: crate::keys::HelpRow| r.desc) =~= section.rows@.take(j as int).map_values(|r: crate::keys::HelpRow| r.desc).push(section.rows@[j as int].desc));
            j = j + 1;
        }
        let ghost t0 = titles@;
        titles.push(section.title);
        proof {
            assert(section.rows@.take(section.rows@.len() as int) =~= section.rows@);
            assert(all.take(k + 1).drop_last() =~= all.take(k as int));
            assert(all.take(k + 1).last() == all[k as int]);
            assert(all[k as int] == section_view(*section));
            let fc = |t: &'static str| (t@, Seq::<char>::empty(), None::<Command>);
            let rc = |r: RowView| (r.0, Seq::<char>::empty(), None::<Command>);
            let rd = |r: RowView| (r.1, Seq::<char>::empty(), None::<Command>);
            let sc = |s: SectionView| (s.0, Seq::<char>::empty(), None::<Command>);
            let flat_k = crate::panel::flat_rows(all.take(k as int));
            assert(crate::panel::flat_rows(all.take(k + 1)) == flat_k + rv);
            assert(c0.map_values(fc) == flat_k.map_values(rc));
            assert(d0.map_values(fc) == flat_k.map_values(rd));
            assert(c0.map_values(fc).len() == c0.len());
            assert(flat_k.map_values(rc).len() == flat_k.len());
            assert(d0.map_values(fc).len() == d0.len());
            assert(flat_k.map_values(rd).len() == flat_k.len());
            assert(c0.len() == flat_k.len());
            assert(d0.len() == flat_k.len());
            assert(rv.len() == section.rows@.len());
            assert(captions@.len() == (flat_k + rv).len());
            assert(descs@.len() == (flat_k + rv).len());
            assert forall|i: int| 0 <= i < captions@.len() implies captions@.map_values(fc)[i] == (
            flat_k + rv).map_values(rc)[i] by {
                if i < c0.len() {
                    assert(captions@[i] == c0[i]);
                    assert(c0.map_values(fc)[i] == flat_k.map_values(rc)[i]);
                } else {
                    let m = i - c0.len();
                    assert(captions@[i] == section.rows@[m].caption);
                    assert(rv[m] == crate::keys::row_view(section.rows@[m]));
                }
            }
            assert forall|i: int| 0 <= i < descs@.len() implies descs@.map_values(fc)[i] == (
            flat_k + rv).map_values(rd)[i] by {
                if i < d0.len() {
                    assert(descs@[i] == d0[i]);
                    assert(d0.map_values(fc)[i] == flat_k.map_values(rd)[i]);
                } else {
                    let m = i - d0.len();
                    assert(descs@[i] == section.rows@[m].desc);
                    assert(rv[m] == crate::keys::row_view(section.rows@[m]));
                }
            }
            assert(captions@.map_values(fc) =~= (flat_k + rv).map_values(rc));
            assert(descs@.map_values(fc) =~= (flat_k + rv).map_values(rd));
            assert(titles@ == t0.push(section.title));
            assert(t0.map_values(fc) == all.take(k as int).map_values(sc));
            assert(t0.map_values(fc).len() == t0.len());
            assert(all.take(k as int).map_values(sc).len() == k);
            assert forall|i: int| 0 <= i < titles@.len() implies titles@.map_values(fc)[i]
                == all.take(k + 1).map_values(sc)[i] by {
                if i < t0.len() {
                    assert(t0.map_values(fc)[i] == all.take(k as int).map_values(sc)[i]);
                    assert(all.take(k as int)[i] == all.take(k + 1)[i]);
                } else {
                    assert(titles@[i] == section.title);
                    assert(all.take(k + 1)[i] == all[k as int]);
                }
            }
            assert(titles@.map_values(fc) =~= all.take(k + 1).map_values(sc));
        }
        k = k + 1;
    }
    proof {
        assert(all.take(sections@.len() as int) =~= all);
        let rows = crate::panel::flat_rows(all);
        lemma_max_caption_only_captions(rows);
        lemma_max_desc_as_caption(rows);
        lemma_max_title_as_caption(all);
    }
    let caption_w = widest(&captions);
    let desc_w = widest(&descs);
    let title_w = widest(&titles);
    let column = HELP_GUTTER.saturating_add(caption_w).saturating_add(HELP_KEY_GAP);
    let by_desc = column.saturating_add(desc_w);
    let by_title = column.saturating_add(title_w).saturating_add(4);
    let content_w = if by_desc >= by_title {
        by_desc
    } else {
        by_title
    };
    (caption_w, content_w)
}

/// A format's four-column tag in the note list.
pub fn format_tag(format: Format) -> (r: &'static str)
    ensures
        r@ == match format {
            Format::Markdown => "md  "@,
            Format::Json => "json"@,
            Format::PlainText => "txt "@,
            Format::Java => "java"@,
            Format::TypeScript => "ts  "@,
            Format::JavaScript => "js  "@,
            Format::Css => "css "@,
            Format::Html => "html"@,
        },
{
    match format {
        Format::Markdown => "md  ",
        Format::Json => "json",
        Format::PlainText => "txt ",
        Format::Java => "java",
        Format::TypeScript => "ts  ",
        Format::JavaScript => "js  ",
        Format::Css => "css ",
        Format::Html => "html",
    }
}


// --- the panel's body ------------------------------------------------------------------------------

/// One line of the panel's body.
#[derive(Debug)]
pub struct HelpLine {
    pub text: String,
    /// Where the caption ends, in bytes of `text`; 0 for a line with no caption.
    pub caption_end: usize,
    /// The row this line shows, counted over every listed row; `None` for a heading or a
    /// blank.
    pub row: Option<usize>,
    /// Drawn dimmed: a row Enter cannot run, or the no-match message.
    pub dim: bool,
}

pub type LineView = (Seq<char>, nat, Option<usize>, bool);

pub open spec fn line_view(l: HelpLine) -> LineView {
    (l.text@, l.caption_end as nat, l.row, l.dim)
}

pub open spec fn lines_view(ls: Seq<HelpLine>) -> Seq<LineView> {
    ls.map_values(|l: HelpLine| line_view(l))
}

pub open spec fn spaces(n: nat) -> Seq<char> {
    Seq::new(n, |i: int| ' ')
}

pub open spec fn rule(n: nat) -> Seq<char> {
    Seq::new(n, |i: int| '─')
}

/// How many bytes UTF-8 takes for a character.
pub open spec fn utf8_width(c: char) -> nat {
    if (c as u32) < 0x80 {
        1
    } else if (c as u32) < 0x800 {
        2
    } else if (c as u32) < 0x10000 {
        3
    } else {
        4
    }
}

pub open spec fn utf8_len(s: Seq<char>) -> nat
    decreases s.len(),
{
    if s.len() == 0 {
        0
    } else {
        utf8_len(s.drop_last()) + utf8_width(s.last())
    }
}

/// Right-aligned in `width` columns, as `{:>width$}` pads: spaces before, never cut.
pub open spec fn right_aligned(text: Seq<char>, width: nat) -> Seq<char> {
    if text.len() < width {
        spaces((width - text.len()) as nat) + text
    } else {
        text
    }
}

/// Where the descriptions start.
pub open spec fn desc_column(caption_w: u16) -> nat {
    (HELP_GUTTER + caption_w + HELP_KEY_GAP) as nat
}

pub open spec fn heading_line(title: Seq<char>, caption_w: u16, inner_w: u16) -> LineView {
    let head = spaces(desc_column(caption_w)) + "── "@ + title + " "@;
    let fill = if head.len() < inner_w {
        (inner_w - head.len()) as nat
    } else {
        0
    };
    (head + rule(fill), 0, None, false)
}

pub open spec fn blank_line() -> LineView {
    (Seq::empty(), 0, None, false)
}

/// A row's caption field: the gutter, then the caption right-aligned in `caption_w` columns.
pub open spec fn caption_field(caption: Seq<char>, caption_w: u16) -> Seq<char> {
    spaces(HELP_GUTTER as nat) + right_aligned(caption, caption_w as nat)
}

pub open spec fn row_line(row: RowView, caption_w: u16, index: int) -> LineView {
    let caption = caption_field(row.0, caption_w);
    (caption + spaces(HELP_KEY_GAP as nat) + row.1, utf8_len(caption), Some(index as usize), row.2 is None)
}

pub open spec fn row_lines(rows: Seq<RowView>, caption_w: u16, first: int) -> Seq<LineView>
    decreases rows.len(),
{
    if rows.len() == 0 {
        Seq::empty()
    } else {
        row_lines(rows.drop_last(), caption_w, first) + seq![
            row_line(rows.last(), caption_w, first + rows.len() - 1),
        ]
    }
}

/// The body: a heading per section, its rows, and a blank line between sections.
pub open spec fn body_lines(sections: Seq<SectionView>, caption_w: u16, inner_w: u16) -> Seq<LineView>
    decreases sections.len(),
{
    if sections.len() == 0 {
        Seq::empty()
    } else {
        let prev = sections.drop_last();
        let last = sections.last();
        body_lines(prev, caption_w, inner_w) + (if prev.len() > 0 {
            seq![blank_line()]
        } else {
            Seq::empty()
        }) + seq![heading_line(last.0, caption_w, inner_w)] + row_lines(
            last.1,
            caption_w,
            row_count(prev) as int,
        )
    }
}

/// The rows the lines show, in order, each with whether it is drawn dimmed; headings and
/// blanks show none.
pub open spec fn shown_rows(lines: Seq<LineView>) -> Seq<(Option<usize>, bool)>
    decreases lines.len(),
{
    if lines.len() == 0 {
        Seq::empty()
    } else {
        let prev = shown_rows(lines.drop_last());
        if lines.last().2 is Some {
            prev.push((lines.last().2, lines.last().3))
        } else {
            prev
        }
    }
}

proof fn lemma_shown_rows_concat(a: Seq<LineView>, b: Seq<LineView>)
    ensures
        shown_rows(a + b) == shown_rows(a) + shown_rows(b),
    decreases b.len(),
{
    if b.len() == 0 {
        assert(a + b =~= a);
        assert(shown_rows(b) =~= Seq::<(Option<usize>, bool)>::empty());
        assert(shown_rows(a) + shown_rows(b) =~= shown_rows(a));
    } else {
        lemma_shown_rows_concat(a, b.drop_last());
        assert((a + b).drop_last() =~= a + b.drop_last());
        assert((a + b).last() == b.last());
        if b.last().2 is Some {
            assert(shown_rows(a) + shown_rows(b) =~= (shown_rows(a) + shown_rows(b.drop_last())).push(
                (b.last().2, b.last().3),
            ));
        }
    }
}

proof fn lemma_shown_rows_single(l: LineView)
    ensures
        shown_rows(seq![l]) == if l.2 is Some {
            seq![(l.2, l.3)]
        } else {
            Seq::<(Option<usize>, bool)>::empty()
        },
{
    let e = Seq::<LineView>::empty();
    assert(seq![l].drop_last() =~= e);
    assert(shown_rows(e) == Seq::<(Option<usize>, bool)>::empty());
    assert(seq![l].last() == l);
    if l.2 is Some {
        assert(Seq::<(Option<usize>, bool)>::empty().push((l.2, l.3)) =~= seq![(l.2, l.3)]);
    }
}

/// The rows a section's lines show: numbered on from `first`, dimmed where Enter cannot run
/// them.
pub open spec fn numbered_rows(rows: Seq<RowView>, first: int) -> Seq<(Option<usize>, bool)> {
    Seq::new(rows.len(), |i: int| (Some((first + i) as usize), rows[i].2 is None))
}

proof fn lemma_row_lines_rows(rows: Seq<RowView>, caption_w: u16, first: int)
    ensures
        row_lines(rows, caption_w, first).len() == rows.len(),
        shown_rows(row_lines(rows, caption_w, first)) == numbered_rows(rows, first),
    decreases rows.len(),
{
    if rows.len() > 0 {
        lemma_row_lines_rows(rows.drop_last(), caption_w, first);
        let prev = row_lines(rows.drop_last(), caption_w, first);
        let line = row_line(rows.last(), caption_w, first + rows.len() - 1);
        assert(row_lines(rows, caption_w, first) == prev + seq![line]);
        lemma_shown_rows_concat(prev, seq![line]);
        lemma_shown_rows_single(line);
        assert(numbered_rows(rows, first) =~= numbered_rows(rows.drop_last(), first).push(
            (line.2, line.3),
        ));
    }
}

/// The panel's body has one line per row, one heading per section, and one blank between
/// sections: `line_count` lines in all. Its rows are numbered on across sections, 0 to one
/// less than the number of rows, in the order the sections list them, and a row is dimmed
/// exactly when Enter cannot run it.
pub proof fn lemma_body_lines_count_and_number_the_rows(
    sections: Seq<SectionView>,
    caption_w: u16,
    inner_w: u16,
)
    requires
        row_count(sections) < usize::MAX,
    ensures
        body_lines(sections, caption_w, inner_w).len() == line_count(sections),
        shown_rows(body_lines(sections, caption_w, inner_w)) == numbered_rows(
            crate::panel::flat_rows(sections),
            0,
        ),
    decreases sections.len(),
{
    crate::panel::lemma_flat_rows_len(sections);
    if sections.len() > 0 {
        let prev = sections.drop_last();
        let last = sections.last();
        lemma_body_lines_count_and_number_the_rows(prev, caption_w, inner_w);
        crate::panel::lemma_flat_rows_len(prev);
        let head = body_lines(prev, caption_w, inner_w);
        let gap: Seq<LineView> = if prev.len() > 0 {
            seq![blank_line()]
        } else {
            Seq::empty()
        };
        let title = seq![heading_line(last.0, caption_w, inner_w)];
        let rl = row_lines(last.1, caption_w, row_count(prev) as int);
        lemma_row_lines_rows(last.1, caption_w, row_count(prev) as int);
        assert(body_lines(sections, caption_w, inner_w) == head + gap + title + rl);
        lemma_shown_rows_concat(head, gap);
        lemma_shown_rows_concat(head + gap, title);
        lemma_shown_rows_concat(head + gap + title, rl);
        if prev.len() > 0 {
            lemma_shown_rows_single(blank_line());
        } else {
            assert(shown_rows(gap) == Seq::<(Option<usize>, bool)>::empty());
        }
        lemma_shown_rows_single(heading_line(last.0, caption_w, inner_w));
        let flat = crate::panel::flat_rows(sections);
        assert(flat == crate::panel::flat_rows(prev) + last.1);
        assert(numbered_rows(flat, 0) =~= numbered_rows(crate::panel::flat_rows(prev), 0)
            + numbered_rows(last.1, row_count(prev) as int));
    }
}

/// What the body needs to be laid out without overflow: a caption column that fits the
/// screen's coordinates, a row count that fits a `usize`, and caption fields whose length in
/// bytes does too, as the length of any string in memory does.
pub open spec fn body_fits(sections: Seq<SectionView>, caption_w: u16) -> bool {
    &&& caption_w + HELP_GUTTER + HELP_KEY_GAP <= u16::MAX
    &&& row_count(sections) < usize::MAX
    &&& forall|k: int, m: int|
        0 <= k < sections.len() && 0 <= m < sections[k].1.len() ==> utf8_len(
            caption_field(#[trigger] sections[k].1[m].0, caption_w),
        ) <= usize::MAX
}

proof fn lemma_utf8_len_prefix(s: Seq<char>, k: int)
    requires
        0 <= k <= s.len(),
    ensures
        utf8_len(s.take(k)) <= utf8_len(s),
    decreases s.len() - k,
{
    if k < s.len() {
        lemma_utf8_len_prefix(s, k + 1);
        assert(s.take(k + 1).drop_last() =~= s.take(k));
    } else {
        assert(s.take(k) =~= s);
    }
}

fn push_repeated(out: &mut Vec<char>, c: char, n: usize)
    ensures
        final(out)@ == old(out)@ + Seq::new(n as nat, |i: int| c),
{
    let mut k: usize = 0;
    let ghost start = out@;
    while k < n
        invariant
            k <= n,
            out@ =~= start + Seq::new(k as nat, |i: int| c),
        decreases n - k,
    {
        out.push(c);
        k = k + 1;
    }
}

fn char_bytes(c: char) -> (r: usize)
    ensures
        r == utf8_width(c),
{
    let v = c as u32;
    if v < 0x80 {
        1
    } else if v < 0x800 {
        2
    } else if v < 0x10000 {
        3
    } else {
        4
    }
}

fn bytes_of(v: &Vec<char>) -> (r: usize)
    requires
        utf8_len(v@) <= usize::MAX,
    ensures
        r == utf8_len(v@),
{
    let mut total: usize = 0;
    let mut k: usize = 0;
    assert(v@.take(0) =~= Seq::<char>::empty());
    while k < v.len()
        invariant
            k <= v@.len(),
            utf8_len(v@) <= usize::MAX,
            total == utf8_len(v@.take(k as int)),
        decreases v@.len() - k,
    {
        assert(v@.take(k + 1).drop_last() =~= v@.take(k as int));
        proof {
            lemma_utf8_len_prefix(v@, k + 1);
        }
        total = total + char_bytes(v[k]);
        k = k + 1;
    }
    assert(v@.take(v@.len() as int) =~= v@);
    total
}

fn heading(title: &str, caption_w: u16, inner_w: u16) -> (r: HelpLine)
    requires
        caption_w + HELP_GUTTER + HELP_KEY_GAP <= u16::MAX,
    ensures
        line_view(r) == heading_line(title@, caption_w, inner_w),
{
    let column = (HELP_GUTTER + caption_w + HELP_KEY_GAP) as usize;
    let mut text: Vec<char> = Vec::new();
    push_repeated(&mut text, ' ', column);
    push_all(&mut text, &chars_of("── "));
    push_all(&mut text, &chars_of(title));
    push_all(&mut text, &chars_of(" "));
    let ghost head = text@;
    assert(head =~= spaces(desc_column(caption_w)) + "── "@ + title@ + " "@);
    let fill: usize = if text.len() < inner_w as usize {
        inner_w as usize - text.len()
    } else {
        0
    };
    push_repeated(&mut text, '─', fill);
    HelpLine { text: string_of(&text), caption_end: 0, row: None, dim: false }
}

fn row_entry(row: &crate::keys::HelpRow, caption_w: u16, index: usize) -> (r: HelpLine)
    requires
        utf8_len(caption_field(row.caption@, caption_w)) <= usize::MAX,
    ensures
        line_view(r) == row_line(crate::keys::row_view(*row), caption_w, index as int),
{
    let caption_chars = chars_of(row.caption);
    let mut caption: Vec<char> = Vec::new();
    push_repeated(&mut caption, ' ', HELP_GUTTER as usize);
    if caption_chars.len() < caption_w as usize {
        push_repeated(&mut caption, ' ', caption_w as usize - caption_chars.len());
    }
    push_all(&mut caption, &caption_chars);
    assert(caption@ =~= caption_field(row.caption@, caption_w));
    let caption_end = bytes_of(&caption);
    let mut text = caption;
    push_repeated(&mut text, ' ', HELP_KEY_GAP as usize);
    push_all(&mut text, &chars_of(row.desc));
    HelpLine {
        text: string_of(&text),
        caption_end,
        row: Some(index),
        dim: row.run.is_none(),
    }
}

/// Lay the sections out: a heading per section, its rows, and a blank line between sections.
pub fn help_body(sections: &[HelpSection], caption_w: u16, inner_w: u16) -> (r: Vec<HelpLine>)
    requires
        body_fits(sections_view(sections@), caption_w),
    ensures
        lines_view(r@) == body_lines(sections_view(sections@), caption_w, inner_w),
{
    let ghost all = sections_view(sections@);
    let mut lines: Vec<HelpLine> = Vec::new();
    let mut index: usize = 0;
    let mut k: usize = 0;
    assert(all.take(0) =~= Seq::<SectionView>::empty());
    while k < sections.len()
        invariant
            k <= sections@.len(),
            all == sections_view(sections@),
            body_fits(all, caption_w),
            index == row_count(all.take(k as int)),
            lines_view(lines@) == body_lines(all.take(k as int), caption_w, inner_w),
        decreases sections@.len() - k,
    {
        let section = &sections[k];
        let ghost rv = rows_view(section.rows@);
        proof {
            assert(all.take(k + 1).drop_last() =~= all.take(k as int));
            assert(all.take(k + 1).last() == all[k as int]);
            assert(all[k as int] == section_view(*section));
            crate::panel::lemma_row_count_prefix_le(all, k + 1);
        }
        let ghost before = lines_view(lines@);
        if k > 0 {
            let empty: Vec<char> = Vec::new();
            lines.push(HelpLine { text: string_of(&empty), caption_end: 0, row: None, dim: false });
            assert(lines_view(lines@) =~= before.push(blank_line()));
        }
        let ghost with_blank = lines_view(lines@);
        lines.push(heading(section.title, caption_w, inner_w));
        assert(lines_view(lines@) =~= with_blank.push(heading_line(section.title@, caption_w, inner_w)));
        let ghost with_heading = lines_view(lines@);
        let ghost first = index as int;
        let mut j: usize = 0;
        assert(rv.take(0) =~= Seq::<RowView>::empty());
        while j < section.rows.len()
            invariant
                j <= section.rows@.len(),
                rv == rows_view(section.rows@),
                all == sections_view(sections@),
                k < sections@.len(),
                all[k as int] == section_view(*section),
                body_fits(all, caption_w),
                index == first + j,
                first + rv.len() <= row_count(all.take(k + 1)),
                row_count(all.take(k + 1)) <= row_count(all),
                lines_view(lines@) == with_heading + row_lines(rv.take(j as int), caption_w, first),
            decreases section.rows@.len() - j,
        {
            proof {
                assert(all[k as int].1[j as int] == rv[j as int]);
                assert(utf8_len(caption_field(all[k as int].1[j as int].0, caption_w)) <= usize::MAX);
                assert(rv.take(j + 1).drop_last() =~= rv.take(j as int));
                assert(rv.take(j + 1).last() == rv[j as int]);
            }
            let ghost lv = lines_view(lines@);
            lines.push(row_entry(&section.rows[j], caption_w, index));
            assert(lines_view(lines@) =~= lv.push(row_line(rv[j as int], caption_w, first + j)));
            index = index + 1;
            j = j + 1;
        }
        proof {
            assert(rv.take(rv.len() as int) =~= rv);
            assert(lines_view(lines@) =~= body_lines(all.take(k + 1), caption_w, inner_w));
        }
        k = k + 1;
    }
    assert(all.take(sections@.len() as int) =~= all);
    lines
}

/// The body when the query matches nothing: lined up with the descriptions when it fits
/// there, flush left when it does not.
pub open spec fn no_match_view(query: Seq<char>, caption_w: u16, inner_w: u16) -> LineView {
    let text = "no match for \""@ + query + "\""@;
    let indent = if desc_column(caption_w) + text.len() <= inner_w {
        desc_column(caption_w)
    } else {
        0
    };
    (spaces(indent) + text, 0, None, true)
}

pub fn no_match_line(query: &str, caption_w: u16, inner_w: u16) -> (r: HelpLine)
    requires
        caption_w + HELP_GUTTER + HELP_KEY_GAP <= u16::MAX,
    ensures
        line_view(r) == no_match_view(query@, caption_w, inner_w),
{
    let mut text = chars_of("no match for \"");
    push_all(&mut text, &chars_of(query));
    push_all(&mut text, &chars_of("\""));
    let column = (HELP_GUTTER + caption_w + HELP_KEY_GAP) as usize;
    let indent = if text.len() <= inner_w as usize && column <= inner_w as usize - text.len() {
        column
    } else {
        0
    };
    let mut line: Vec<char> = Vec::new();
    push_repeated(&mut line, ' ', indent);
    push_all(&mut line, &text);
    HelpLine { text: string_of(&line), caption_end: 0, row: None, dim: true }
}


// --- scrolling ---------------------------------------------------------------------------------

pub open spec fn line_rows(lines: Seq<LineView>) -> Seq<Option<usize>> {
    lines.map_values(|l: LineView| l.2)
}

/// `i` is the first line showing row `cursor`.
pub open spec fn is_cursor_line(rows: Seq<Option<usize>>, cursor: usize, i: int) -> bool {
    &&& 0 <= i < rows.len()
    &&& rows[i] == Some(cursor)
    &&& forall|j: int| 0 <= j < i ==> rows[j] != Some(cursor)
}

/// Back from `o` over the lines that carry no row, which brings a section's heading into
/// view with its first binding.
pub open spec fn walk_back(rows: Seq<Option<usize>>, o: int) -> int
    decreases o,
{
    if 0 < o <= rows.len() && rows[o - 1] is None {
        walk_back(rows, o - 1)
    } else {
        o
    }
}

/// The first visible line, chosen so the cursor's row is on screen. It starts from the
/// stored offset, so a view scrolled deliberately survives a key that did not need to move
/// it.
pub open spec fn spec_scroll_to(rows: Seq<Option<usize>>, cursor: usize, offset: usize, visible: usize) -> int {
    if !exists|i: int| is_cursor_line(rows, cursor, i) {
        0
    } else {
        let at = choose|i: int| is_cursor_line(rows, cursor, i);
        let o1 = min_int(offset as int, max_int(rows.len() - 1, 0));
        let o2 = if at < o1 {
            walk_back(rows, at)
        } else {
            o1
        };
        let o3 = if visible > 0 && at >= o2 + visible {
            at + 1 - visible
        } else {
            o2
        };
        min_int(o3, max_int(rows.len() - max_int(visible as int, 1), 0))
    }
}

proof fn lemma_walk_back_bounds(rows: Seq<Option<usize>>, o: int)
    requires
        0 <= o <= rows.len(),
    ensures
        0 <= walk_back(rows, o) <= o,
    decreases o,
{
    if 0 < o && rows[o - 1] is None {
        lemma_walk_back_bounds(rows, o - 1);
    }
}

fn cursor_line(lines: &[HelpLine], cursor: usize) -> (r: Option<usize>)
    ensures
        r matches Some(i) ==> is_cursor_line(line_rows(lines_view(lines@)), cursor, i as int),
        r is None ==> !exists|i: int| is_cursor_line(line_rows(lines_view(lines@)), cursor, i),
{
    let ghost rows = line_rows(lines_view(lines@));
    let mut at: usize = 0;
    while at < lines.len()
        invariant
            at <= lines@.len(),
            rows == line_rows(lines_view(lines@)),
            rows.len() == lines@.len(),
            forall|j: int| 0 <= j < at ==> rows[j] != Some(cursor),
        decreases lines@.len() - at,
    {
        assert(rows[at as int] == lines@[at as int].row);
        if lines[at].row == Some(cursor) {
            assert(is_cursor_line(rows, cursor, at as int));
            return Some(at);
        }
        at = at + 1;
    }
    None
}

pub fn help_scroll_to(lines: &[HelpLine], cursor: usize, offset: usize, visible: usize) -> (r: usize)
    ensures
        r == spec_scroll_to(line_rows(lines_view(lines@)), cursor, offset, visible),
{
    let ghost rows = line_rows(lines_view(lines@));
    let at = match cursor_line(lines, cursor) {
        Some(i) => i,
        None => return 0,
    };
    proof {
        let c = choose|i: int| is_cursor_line(rows, cursor, i);
        assert(c == at as int);
    }
    let last = lines.len() - 1;
    let mut o = if offset <= last {
        offset
    } else {
        last
    };
    if at < o {
        o = at;
        while o > 0 && lines[o - 1].row.is_none()
            invariant
                o <= at < lines@.len(),
                rows == line_rows(lines_view(lines@)),
                rows.len() == lines@.len(),
                walk_back(rows, o as int) == walk_back(rows, at as int),
            decreases o,
        {
            assert(rows[o - 1] == lines@[o - 1].row);
            o = o - 1;
        }
        proof {
            if o > 0 {
                assert(rows[o - 1] == lines@[o - 1].row);
            }
        }
    }
    if visible > 0 && at >= o && at - o >= visible {
        o = at + 1 - visible;
    }
    let floor = if visible >= 1 {
        visible
    } else {
        1
    };
    let most = lines.len().saturating_sub(floor);
    if o <= most {
        o
    } else {
        most
    }
}

/// When the cursor's row is listed and the window shows at least one line, the chosen view
/// shows it.
pub proof fn lemma_scroll_shows_the_cursor(
    rows: Seq<Option<usize>>,
    cursor: usize,
    offset: usize,
    visible: usize,
    i: int,
)
    requires
        is_cursor_line(rows, cursor, i),
        visible > 0,
    ensures
        spec_scroll_to(rows, cursor, offset, visible) <= i < spec_scroll_to(rows, cursor, offset, visible)
            + visible,
{
    let at = choose|j: int| is_cursor_line(rows, cursor, j);
    assert(at == i);
    let o1 = min_int(offset as int, max_int(rows.len() - 1, 0));
    if at < o1 {
        lemma_walk_back_bounds(rows, at);
    }
}

// --- the status line -------------------------------------------------------------------------------

/// How the first chord of `command`'s binding is printed, if the keymap gives it one.
pub open spec fn spec_hint_key(command: Command) -> Option<Seq<char>> {
    if exists|i: int| crate::keys::is_first_declaring(keymap(), command, i) {
        let b = keymap()[choose|i: int| crate::keys::is_first_declaring(keymap(), command, i)];
        if b.0.len() > 0 {
            Some(chord_caption(b.0[0]))
        } else {
            None
        }
    } else {
        None
    }
}

pub fn hint_key(command: Command) -> (r: Option<String>)
    ensures
        match r {
            Some(s) => spec_hint_key(command) == Some(s@),
            None => spec_hint_key(command) is None,
        },
{
    match binding(command) {
        Some(b) => {
            if b.chords.len() > 0 {
                Some(b.chords[0].caption())
            } else {
                None
            }
        },
        None => None,
    }
}

/// The length of the common prefix of two texts.
pub open spec fn is_shared_len(a: Seq<char>, b: Seq<char>, n: int) -> bool {
    &&& 0 <= n <= a.len()
    &&& n <= b.len()
    &&& a.take(n) == b.take(n)
    &&& (n == a.len() || n == b.len() || a[n] != b[n])
}

/// `alt-↑` and `alt-↓` as `alt-↑/↓`: the shared prefix printed once.
pub open spec fn spec_merge_captions(first: Seq<char>, second: Seq<char>) -> Seq<char> {
    let n = choose|n: int| is_shared_len(first, second, n);
    first + seq!['/'] + second.skip(n)
}

pub fn merge_captions(first: &str, second: &str) -> (r: String)
    ensures
        r@ == spec_merge_captions(first@, second@),
{
    let a = chars_of(first);
    let b = chars_of(second);
    let mut n: usize = 0;
    while n < a.len() && n < b.len() && a[n] == b[n]
        invariant
            n <= a@.len(),
            n <= b@.len(),
            a@.take(n as int) == b@.take(n as int),
        decreases a@.len() - n,
    {
        assert(a@.take(n + 1) =~= a@.take(n as int).push(a@[n as int]));
        assert(b@.take(n + 1) =~= b@.take(n as int).push(b@[n as int]));
        n = n + 1;
    }
    proof {
        assert(is_shared_len(a@, b@, n as int));
        let c = choose|c: int| is_shared_len(a@, b@, c);
        if c < n {
            assert(a@.take(n as int)[c] == a@[c]);
            assert(b@.take(n as int)[c] == b@[c]);
        } else if c > n {
            assert(a@.take(c)[n as int] == a@[n as int]);
            assert(b@.take(c)[n as int] == b@[n as int]);
        }
        assert(c == n);
    }
    let mut out = a;
    out.push('/');
    let mut k: usize = n;
    let ghost head = out@;
    while k < b.len()
        invariant
            n <= k <= b@.len(),
            out@ =~= head + b@.subrange(n as int, k as int),
        decreases b@.len() - k,
    {
        out.push(b[k]);
        k = k + 1;
    }
    assert(b@.subrange(n as int, b@.len() as int) =~= b@.skip(n as int));
    string_of(&out)
}

/// One status-line hint: a command, or two commands that share a label.
#[derive(Debug, Clone, Copy)]
pub enum Hint {
    One(Command, &'static str),
    /// Printed with the shared caption prefix once: `alt-↑/↓`, not `alt-↑ alt-↓`.
    Pair(Command, Command, &'static str),
}

pub open spec fn spec_hint_text(hint: Hint) -> Option<Seq<char>> {
    match hint {
        Hint::One(command, label) => match spec_hint_key(command) {
            Some(k) => Some(k + " "@ + label@),
            None => None,
        },
        Hint::Pair(first, second, label) => match (spec_hint_key(first), spec_hint_key(second)) {
            (Some(a), Some(b)) => Some(spec_merge_captions(a, b) + " "@ + label@),
            _ => None,
        },
    }
}

pub fn hint_text(hint: &Hint) -> (r: Option<String>)
    ensures
        match r {
            Some(s) => spec_hint_text(*hint) == Some(s@),
            None => spec_hint_text(*hint) is None,
        },
{
    match hint {
        Hint::One(command, label) => {
            let key = match hint_key(*command) {
                Some(k) => k,
                None => return None,
            };
            let mut out = chars_of(key.as_str());
            push_all(&mut out, &chars_of(" "));
            push_all(&mut out, &chars_of(label));
            Some(string_of(&out))
        },
        Hint::Pair(first, second, label) => {
            let a = match hint_key(*first) {
                Some(k) => k,
                None => return None,
            };
            let b = match hint_key(*second) {
                Some(k) => k,
                None => return None,
            };
            let keys = merge_captions(a.as_str(), b.as_str());
            let mut out = chars_of(keys.as_str());
            push_all(&mut out, &chars_of(" "));
            push_all(&mut out, &chars_of(label));
            Some(string_of(&out))
        },
    }
}

/// What the status line advertises, in the order it prints. Not every binding: the plain
/// arrows are left out, because a line this narrow is better spent on the keys a user cannot
/// guess.
pub open spec fn hint_table() -> Seq<Hint> {
    seq![
        Hint::One(Command::NewNote, "new"),
        Hint::One(Command::RequestDelete, "delete"),
        Hint::Pair(Command::MoveNoteUp, Command::MoveNoteDown, "reorder"),
        Hint::One(Command::ToggleFocus, "switch pane"),
        Hint::One(Command::OpenHelp, "help"),
        Hint::One(Command::Quit, "quit"),
    ]
}

pub fn hints() -> (r: Vec<Hint>)
    ensures
        r@ == hint_table(),
{
    let mut v: Vec<Hint> = Vec::new();
    v.push(Hint::One(Command::NewNote, "new"));
    v.push(Hint::One(Command::RequestDelete, "delete"));
    v.push(Hint::Pair(Command::MoveNoteUp, Command::MoveNoteDown, "reorder"));
    v.push(Hint::One(Command::ToggleFocus, "switch pane"));
    v.push(Hint::One(Command::OpenHelp, "help"));
    v.push(Hint::One(Command::Quit, "quit"));
    assert(v@ =~= hint_table());
    v
}

/// `parts` joined with `sep` between each two.
pub open spec fn joined(parts: Seq<Seq<char>>, sep: Seq<char>) -> Seq<char>
    decreases parts.len(),
{
    if parts.len() == 0 {
        Seq::empty()
    } else if parts.len() == 1 {
        parts[0]
    } else {
        joined(parts.drop_last(), sep) + sep + parts.last()
    }
}

/// The texts of the hints that have one, in order.
pub open spec fn hint_texts(hs: Seq<Hint>) -> Seq<Seq<char>>
    decreases hs.len(),
{
    if hs.len() == 0 {
        Seq::empty()
    } else {
        let prev = hint_texts(hs.drop_last());
        match spec_hint_text(hs.last()) {
            Some(t) => prev.push(t),
            None => prev,
        }
    }
}

/// The default status line's key hints, as text.
pub open spec fn status_hints_text() -> Seq<char> {
    joined(hint_texts(hint_table()), "   "@)
}

/// The default status line's key hints, taken from the keymap so a rebind moves them too.
pub fn status_hints() -> (r: String)
    ensures
        r@ == status_hints_text(),
{
    let hs = hints();
    let mut out: Vec<char> = Vec::new();
    let mut count: usize = 0;
    let mut k: usize = 0;
    assert(hs@.take(0) =~= Seq::<Hint>::empty());
    while k < hs.len()
        invariant
            k <= hs@.len(),
            hs@.len() == 6,
            count == hint_texts(hs@.take(k as int)).len(),
            count <= k,
            out@ == joined(hint_texts(hs@.take(k as int)), "   "@),
        decreases hs@.len() - k,
    {
        proof {
            assert(hs@.take(k + 1).drop_last() =~= hs@.take(k as int));
            assert(hs@.take(k + 1).last() == hs@[k as int]);
        }
        match hint_text(&hs[k]) {
            Some(t) => {
                let ghost prev = hint_texts(hs@.take(k as int));
                if count > 0 {
                    push_all(&mut out, &chars_of("   "));
                }
                push_all(&mut out, &chars_of(t.as_str()));
                proof {
                    let now = prev.push(t@);
                    assert(now.drop_last() =~= prev);
                    if prev.len() == 0 {
                        assert(out@ =~= t@);
                    }
                }
                count = count + 1;
            },
            None => {},
        }
        k = k + 1;
    }
    assert(hs@.take(6) =~= hs@);
    string_of(&out)
}

/// The status line while the panel is open, as text.
pub open spec fn help_hints_text() -> Seq<char> {
    "esc close   ↑/↓ select   ⏎ run   / search   "@ + match spec_hint_key(Command::Quit) {
        Some(k) => k,
        None => Seq::empty(),
    } + " quit"@
}

/// What the status line says while the panel is open, led by the way out.
pub fn help_hints() -> (r: String)
    ensures
        r@ == help_hints_text(),
{
    let mut out = chars_of("esc close   ↑/↓ select   ⏎ run   / search   ");
    match hint_key(Command::Quit) {
        Some(k) => push_all(&mut out, &chars_of(k.as_str())),
        None => {},
    }
    push_all(&mut out, &chars_of(" quit"));
    string_of(&out)
}

/// The status line while the filter prompt is up. No quit hint: inside the prompt `q` is a
/// character; `^Q` stays live everywhere.
pub fn filter_prompt() -> (r: String)
    ensures
        r@ == "⏎ done   esc clear"@,
{
    "⏎ done   esc clear".to_owned()
}


// --- the status line and the prompts -----------------------------------------------------------

/// How the status line is coloured.
#[derive(Debug, Clone, Copy, PartialEq, Eq, Structural)]
pub enum Tone {
    /// Something the user has to act on or know about before typing on.
    Warning,
    /// Messages and hints.
    Quiet,
}

/// What the status line says while an external change waits on the user.
pub const CONFLICT_STATUS: &'static str = "external change \u{2014} [k]eep mine \u{b7} [t]ake theirs \u{b7} ^Q quit";

/// What the status line says while the workspace cannot be written.
pub const UNAVAILABLE_STATUS: &'static str = "workspace unavailable \u{2014} edits are in memory only";

/// The status line, in priority order: a conflict outranks everything, since it is a
/// question the app waits on; an unusable workspace outranks the ordinary status, since it
/// changes what every keystroke means; then a message, which outranks the panel's hints so a
/// refused quit stays where it can be seen; then the panel's hints or the default ones.
/// `help` is whether the panel is open and, if so, whether its filter prompt is up.
pub open spec fn spec_status_line(
    conflict: bool,
    health: WorkspaceHealth,
    status: Option<Seq<char>>,
    help: Option<bool>,
) -> (Seq<char>, Tone) {
    if conflict {
        (CONFLICT_STATUS@, Tone::Warning)
    } else if health != WorkspaceHealth::Usable {
        (UNAVAILABLE_STATUS@, Tone::Warning)
    } else {
        (
            match status {
                Some(s) => s,
                None => match help {
                    Some(true) => "\u{23ce} done   esc clear"@,
                    Some(false) => help_hints_text(),
                    None => status_hints_text(),
                },
            },
            Tone::Quiet,
        )
    }
}

pub fn status_line(
    conflict: bool,
    health: WorkspaceHealth,
    status: Option<&str>,
    help: Option<bool>,
) -> (r: (String, Tone))
    ensures
        (r.0@, r.1) == spec_status_line(
            conflict,
            health,
            match status {
                Some(s) => Some(s@),
                None => None,
            },
            help,
        ),
{
    if conflict {
        (CONFLICT_STATUS.to_owned(), Tone::Warning)
    } else if health != WorkspaceHealth::Usable {
        (UNAVAILABLE_STATUS.to_owned(), Tone::Warning)
    } else {
        let text = match status {
            Some(s) => s.to_owned(),
            None => match help {
                Some(true) => filter_prompt(),
                Some(false) => help_hints(),
                None => status_hints(),
            },
        };
        (text, Tone::Quiet)
    }
}

/// The question a pending delete asks.
pub open spec fn spec_delete_question(name: Seq<char>) -> Seq<char> {
    "Move "@ + name + " to the trash?"@
}

pub fn delete_question(name: &str) -> (r: String)
    ensures
        r@ == spec_delete_question(name@),
{
    let mut out = chars_of("Move ");
    push_all(&mut out, &chars_of(name));
    push_all(&mut out, &chars_of(" to the trash?"));
    string_of(&out)
}

/// What the external-change prompt says about the note `name`, and what its two answers do,
/// for each kind of change.
pub open spec fn spec_conflict_prompt(conflict: Conflict, name: Seq<char>) -> (Seq<char>, Seq<char>, Seq<char>) {
    match conflict {
        Conflict::Changed => (
            name + " changed on disk while you had unsaved edits."@,
            "k  keep mine (write my buffer over theirs)"@,
            "t  take theirs (discard my edits)"@,
        ),
        Conflict::Deleted => (
            name + " was deleted while you had unsaved edits."@,
            "k  keep mine (write my buffer back to disk)"@,
            "t  take theirs (let the note go)"@,
        ),
    }
}

pub fn conflict_prompt(conflict: Conflict, name: &str) -> (r: (String, &'static str, &'static str))
    ensures
        (r.0@, r.1@, r.2@) == spec_conflict_prompt(conflict, name@),
{
    let mut what = chars_of(name);
    match conflict {
        Conflict::Changed => {
            push_all(&mut what, &chars_of(" changed on disk while you had unsaved edits."));
            (
                string_of(&what),
                "k  keep mine (write my buffer over theirs)",
                "t  take theirs (discard my edits)",
            )
        },
        Conflict::Deleted => {
            push_all(&mut what, &chars_of(" was deleted while you had unsaved edits."));
            (
                string_of(&what),
                "k  keep mine (write my buffer back to disk)",
                "t  take theirs (let the note go)",
            )
        },
    }
}

/// The panel's readout: which row the cursor is on, counting from one, of how many; zero of
/// none for an empty list.
pub open spec fn spec_help_readout(cursor: usize, rows: usize) -> Seq<char> {
    " "@ + decimal(if rows > 0 {
        (cursor + 1) as nat
    } else {
        0
    }) + " of "@ + decimal(rows as nat) + " "@
}

pub fn help_readout(cursor: usize, rows: usize) -> (r: String)
    requires
        rows > 0 ==> cursor < usize::MAX,
    ensures
        r@ == spec_help_readout(cursor, rows),
{
    let mut out = chars_of(" ");
    push_decimal(&mut out, if rows > 0 {
        cursor + 1
    } else {
        0
    });
    push_all(&mut out, &chars_of(" of "));
    push_decimal(&mut out, rows);
    push_all(&mut out, &chars_of(" "));
    string_of(&out)
}

/// The filter query as the panel's bottom border echoes it, with a block for the cursor.
pub open spec fn spec_filter_title(query: Seq<char>) -> Seq<char> {
    " Filter: "@ + query + "\u{258a} "@
}

pub fn filter_title(query: &str) -> (r: String)
    ensures
        r@ == spec_filter_title(query@),
{
    let mut out = chars_of(" Filter: ");
    push_all(&mut out, &chars_of(query));
    push_all(&mut out, &chars_of("\u{258a} "));
    string_of(&out)
}

} // verus!
