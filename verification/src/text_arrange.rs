//! Arranging laid out text in its box: where each line starts, how a justified line spreads
//! its spaces, and where the shaped glyphs of a run go.

use vstd::prelude::*;

use crate::grid::seq_sum;
use crate::model::{GlyphPosition, ListMarkerType};
use crate::pt::Pt;
use crate::style::TextAlign;
use crate::text_align::{justify_space_extras, line_start_offset, space_count, JustifyBudget};
use crate::text_types::{TextLine, TextRun};

verus! {

/// Cluster of a glyph that does not come from the source text (such as a list marker).
pub const CLUSTER_NOT_SOURCE: u32 = 0xFFFF_FFFF;

/// Top of the first line: below the top padding, moved down to center the text when it is
/// shorter than a bounded inner height.
pub open spec fn text_top_spec(pad_top: int, inner_h: int, text_h: int) -> int {
    if inner_h != i128::MAX && text_h < inner_h {
        pad_top + (inner_h - text_h) / 2
    } else {
        pad_top
    }
}

/// Top of the first line of a text box (see [`text_top_spec`]).
pub fn text_top(pad_top: Pt, inner_h: Pt, text_h: Pt) -> (r: Pt)
    requires
        -0x10_0000_0000_0000_0000_0000_0000 <= pad_top.0 <= 0x10_0000_0000_0000_0000_0000_0000,
        inner_h.0 == i128::MAX || -0x10_0000_0000_0000_0000_0000_0000 <= inner_h.0 <= 0x10_0000_0000_0000_0000_0000_0000,
        -0x10_0000_0000_0000_0000_0000_0000 <= text_h.0 <= 0x10_0000_0000_0000_0000_0000_0000,
    ensures
        r.0 == text_top_spec(pad_top.0 as int, inner_h.0 as int, text_h.0 as int),
{
    if inner_h.0 != i128::MAX && text_h.0 < inner_h.0 {
        Pt(pad_top.0 + (inner_h.0 - text_h.0) / 2)
    } else {
        pad_top
    }
}

/// Number of spaces a line's justification stretches: those of its text runs (math atoms have
/// none), over the first `k` runs.
pub open spec fn runs_spaces(runs: Seq<TextRun>, k: int) -> int
    decreases k,
{
    if k <= 0 {
        0
    } else {
        runs_spaces(runs, k - 1) + if runs[k - 1].math_tex is None {
            space_count(runs[k - 1].text@) as int
        } else {
            0
        }
    }
}

/// Width a line has to fill: the inner width, less a positive first-line indent on the first
/// line (never below zero).
pub open spec fn line_room(inner_w: int, indent: int, first: bool) -> int {
    if first && indent > 0 {
        if inner_w - indent > 0 {
            inner_w - indent
        } else {
            0
        }
    } else {
        inner_w
    }
}

/// Offset of a line of width `line_w` in a room `room`.
pub open spec fn line_offset_spec(align: TextAlign, room: int, line_w: int) -> int {
    if line_w >= room {
        0
    } else {
        match align {
            TextAlign::Start | TextAlign::Justify => 0,
            TextAlign::Center => (room - line_w) / 2,
            TextAlign::End => room - line_w,
        }
    }
}

/// Extra per space and the number of first spaces that get one more: only on a justified line
/// that is not the last, has spaces and is shorter than its room.
pub open spec fn justify_spec(align: TextAlign, room: int, line_w: int, spaces: int, last: bool) -> (int, int) {
    if align != TextAlign::Justify || last || spaces == 0 || line_w >= room {
        (0, 0)
    } else {
        ((room - line_w) / spaces, (room - line_w) % spaces)
    }
}

/// Where a line of a text box starts and how its spaces stretch.
#[derive(Debug, Clone, Copy, PartialEq, Eq)]
pub struct LinePlacement {
    pub x: Pt,
    pub y: Pt,
    pub extra_per: Pt,
    pub rem: i128,
}

/// Placement of line `i` of `lines`: lines stack down from `top`; a line starts at `x_base`,
/// plus the first-line indent on the first line, plus its alignment offset in its room; a
/// justified line other than the last spreads its room's slack over its spaces.
pub open spec fn line_placement_spec(
    x_base: int,
    inner_w: int,
    indent: int,
    align: TextAlign,
    top: int,
    lines: Seq<TextLine>,
    i: int,
) -> LinePlacement {
    let room = line_room(inner_w, indent, i == 0);
    let w = lines[i].width.0 as int;
    let j = justify_spec(align, room, w, runs_spaces(lines[i].runs@, lines[i].runs@.len() as int), i == lines.len() - 1);
    LinePlacement {
        x: Pt((x_base + (if i == 0 {
            indent
        } else {
            0
        }) + line_offset_spec(align, room, w)) as i128),
        y: Pt((top + seq_sum(line_heights(lines), i)) as i128),
        extra_per: Pt(j.0 as i128),
        rem: j.1 as i128,
    }
}

/// Heights of the lines.
pub open spec fn line_heights(lines: Seq<TextLine>) -> Seq<Pt> {
    lines.map_values(|l: TextLine| l.height)
}

/// Lines few and small enough to be placed: widths and heights within `2^100`, at most `2^20`
/// lines, and a countable number of spaces on each.
pub open spec fn lines_ok(lines: Seq<TextLine>) -> bool {
    &&& lines.len() <= 0x10_0000
    &&& forall|i: int|
        0 <= i < lines.len() ==> {
            &&& -0x10_0000_0000_0000_0000_0000_0000 <= (#[trigger] lines[i]).width.0 <= 0x10_0000_0000_0000_0000_0000_0000
            &&& -0x10_0000_0000_0000_0000_0000_0000 <= lines[i].height.0 <= 0x10_0000_0000_0000_0000_0000_0000
            &&& runs_spaces(lines[i].runs@, lines[i].runs@.len() as int) <= usize::MAX
        }
}

proof fn lemma_runs_spaces_mono(runs: Seq<TextRun>, k: int, m: int)
    requires
        0 <= k <= m,
    ensures
        0 <= runs_spaces(runs, k) <= runs_spaces(runs, m),
    decreases m,
{
    if m > k {
        lemma_runs_spaces_mono(runs, k, m - 1);
    } else if k > 0 {
        lemma_runs_spaces_mono(runs, k - 1, k - 1);
    }
}

/// Spaces a line's justification stretches (see [`runs_spaces`]).
pub fn line_spaces(runs: &Vec<TextRun>) -> (r: usize)
    requires
        runs_spaces(runs@, runs@.len() as int) <= usize::MAX,
    ensures
        r == runs_spaces(runs@, runs@.len() as int),
{
    let mut total: usize = 0;
    let mut k: usize = 0;
    while k < runs.len()
        invariant
            k <= runs@.len(),
            total == runs_spaces(runs@, k as int),
            runs_spaces(runs@, runs@.len() as int) <= usize::MAX,
        decreases runs.len() - k,
    {
        proof {
            lemma_runs_spaces_mono(runs@, k + 1, runs@.len() as int);
        }
        if runs[k].math_tex.is_none() {
            let chars = crate::text::chars_of(runs[k].text.as_str());
            let mut j: usize = 0;
            let ghost base = total;
            while j < chars.len()
                invariant
                    j <= chars@.len(),
                    chars@ == runs@[k as int].text@,
                    total == base + space_count(chars@.subrange(0, j as int)),
                    base + space_count(chars@) <= usize::MAX,
                decreases chars.len() - j,
            {
                proof {
                    assert(chars@.subrange(0, j + 1).drop_last() =~= chars@.subrange(0, j as int));
                    lemma_space_count_prefix(chars@, j + 1);
                }
                if chars[j] == ' ' {
                    total = total + 1;
                }
                j = j + 1;
            }
            proof {
                assert(chars@.subrange(0, chars@.len() as int) =~= chars@);
            }
        }
        k = k + 1;
    }
    total
}

proof fn lemma_space_count_prefix(s: Seq<char>, j: int)
    requires
        0 <= j <= s.len(),
    ensures
        space_count(s.subrange(0, j)) <= space_count(s),
    decreases s.len() - j,
{
    if j < s.len() {
        lemma_space_count_prefix(s, j + 1);
        assert(s.subrange(0, j + 1).drop_last() =~= s.subrange(0, j));
    } else {
        assert(s.subrange(0, j) =~= s);
    }
}

proof fn lemma_heights_bound(lines: Seq<TextLine>, k: int)
    requires
        lines_ok(lines),
        0 <= k <= lines.len(),
    ensures
        -k * 0x10_0000_0000_0000_0000_0000_0000 <= seq_sum(line_heights(lines), k) <= k * 0x10_0000_0000_0000_0000_0000_0000,
    decreases k,
{
    if k > 0 {
        lemma_heights_bound(lines, k - 1);
        assert(line_heights(lines)[k - 1] == lines[k - 1].height);
    }
}

/// Place the lines of a text box (see [`line_placement_spec`]).
pub fn place_text_lines(x_base: Pt, inner_w: Pt, indent: Pt, align: TextAlign, top: Pt, lines: &Vec<TextLine>) -> (r: Vec<
    LinePlacement,
>)
    requires
        lines_ok(lines@),
        -0x10_0000_0000_0000_0000_0000_0000 <= x_base.0 <= 0x10_0000_0000_0000_0000_0000_0000,
        -0x10_0000_0000_0000_0000_0000_0000 <= inner_w.0 <= 0x10_0000_0000_0000_0000_0000_0000,
        -0x10_0000_0000_0000_0000_0000_0000 <= indent.0 <= 0x10_0000_0000_0000_0000_0000_0000,
        -0x10_0000_0000_0000_0000_0000_0000 <= top.0 <= 0x10_0000_0000_0000_0000_0000_0000,
    ensures
        r@.len() == lines@.len(),
        forall|i: int|
            0 <= i < lines@.len() ==> #[trigger] r@[i] == line_placement_spec(
                x_base.0 as int,
                inner_w.0 as int,
                indent.0 as int,
                align,
                top.0 as int,
                lines@,
                i,
            ),
{
    let n = lines.len();
    let mut out: Vec<LinePlacement> = Vec::new();
    let mut y: i128 = top.0;
    let mut i: usize = 0;
    while i < n
        invariant
            n == lines@.len(),
            i <= n,
            lines_ok(lines@),
            -0x10_0000_0000_0000_0000_0000_0000 <= x_base.0 <= 0x10_0000_0000_0000_0000_0000_0000,
            -0x10_0000_0000_0000_0000_0000_0000 <= inner_w.0 <= 0x10_0000_0000_0000_0000_0000_0000,
            -0x10_0000_0000_0000_0000_0000_0000 <= indent.0 <= 0x10_0000_0000_0000_0000_0000_0000,
            -0x10_0000_0000_0000_0000_0000_0000 <= top.0 <= 0x10_0000_0000_0000_0000_0000_0000,
            y == top.0 + seq_sum(line_heights(lines@), i as int),
            out@.len() == i,
            forall|j: int|
                0 <= j < i ==> #[trigger] out@[j] == line_placement_spec(
                    x_base.0 as int,
                    inner_w.0 as int,
                    indent.0 as int,
                    align,
                    top.0 as int,
                    lines@,
                    j,
                ),
        decreases n - i,
    {
        proof {
            lemma_heights_bound(lines@, i as int);
            lemma_heights_bound(lines@, i + 1);
            assert(line_heights(lines@)[i as int] == lines@[i as int].height);
        }
        let line = &lines[i];
        let first = i == 0;
        let room = if first && indent.0 > 0 {
            if inner_w.0 - indent.0 > 0 {
                Pt(inner_w.0 - indent.0)
            } else {
                Pt(0)
            }
        } else {
            inner_w
        };
        let spaces = line_spaces(&line.runs);
        let (extra_per, rem) = justify_space_extras(align, room, line.width, spaces, i + 1 == n);
        let offset = line_start_offset(align, room, line.width);
        let lead = if first {
            indent.0
        } else {
            0
        };
        out.push(LinePlacement { x: Pt(x_base.0 + lead + offset.0), y: Pt(y), extra_per, rem });
        y = y + line.height.0;
        i = i + 1;
    }
    out
}

/// Whether glyph `g` of a run whose characters are `chars` is a space.
pub open spec fn is_space_glyph(g: GlyphPosition, chars: Seq<char>) -> bool {
    (g.cluster as int) < chars.len() && chars[g.cluster as int] == ' '
}

/// Spaces among the first `k` glyphs.
pub open spec fn spaces_before(gs: Seq<GlyphPosition>, chars: Seq<char>, k: int) -> int
    decreases k,
{
    if k <= 0 {
        0
    } else {
        spaces_before(gs, chars, k - 1) + if is_space_glyph(gs[k - 1], chars) {
            1int
        } else {
            0int
        }
    }
}

/// Extra advance of glyph `i`: on a justified line a space gets the per-space extra, plus one
/// while the budget's remainder lasts.
pub open spec fn glyph_extra(gs: Seq<GlyphPosition>, chars: Seq<char>, justify: bool, extra_per: int, rem: int, i: int) -> int {
    if justify && is_space_glyph(gs[i], chars) {
        extra_per + if spaces_before(gs, chars, i) < rem {
            1int
        } else {
            0int
        }
    } else {
        0
    }
}

/// Extra advances of the first `k` glyphs.
pub open spec fn extras_before(gs: Seq<GlyphPosition>, chars: Seq<char>, justify: bool, extra_per: int, rem: int, k: int) -> int
    decreases k,
{
    if k <= 0 {
        0
    } else {
        extras_before(gs, chars, justify, extra_per, rem, k - 1) + glyph_extra(gs, chars, justify, extra_per, rem, k - 1)
    }
}

/// Advances of the first `k` glyphs, extras included.
pub open spec fn advance_before(gs: Seq<GlyphPosition>, chars: Seq<char>, justify: bool, extra_per: int, rem: int, k: int) -> int
    decreases k,
{
    if k <= 0 {
        0
    } else {
        advance_before(gs, chars, justify, extra_per, rem, k - 1) + gs[k - 1].x_advance.0 + glyph_extra(
            gs,
            chars,
            justify,
            extra_per,
            rem,
            k - 1,
        )
    }
}

/// Glyph `i` of a shaped run placed at `(x, y)`: its advance widened by its extra, moved right
/// by `x` and the extras before it, down by `y` less the baseline shift, and its cluster
/// counted from `origin` in the source text (or marked as not from the source).
pub open spec fn placed_glyph(
    gs: Seq<GlyphPosition>,
    chars: Seq<char>,
    justify: bool,
    extra_per: int,
    rem: int,
    x: int,
    y: int,
    baseline_shift: int,
    origin: int,
    from_source: bool,
    i: int,
) -> GlyphPosition {
    let g = gs[i];
    GlyphPosition {
        glyph_id: g.glyph_id,
        cluster: if from_source {
            (origin + g.cluster) as u32
        } else {
            CLUSTER_NOT_SOURCE
        },
        x_offset: Pt((g.x_offset.0 + x + extras_before(gs, chars, justify, extra_per, rem, i)) as i128),
        y_offset: Pt((g.y_offset.0 + y - baseline_shift) as i128),
        x_advance: Pt((g.x_advance.0 + glyph_extra(gs, chars, justify, extra_per, rem, i)) as i128),
        y_advance: g.y_advance,
    }
}

/// Shaped glyphs small and few enough to be placed.
pub open spec fn glyphs_ok(gs: Seq<GlyphPosition>, origin: int, from_source: bool) -> bool {
    &&& gs.len() <= 0x10_0000
    &&& forall|i: int|
        0 <= i < gs.len() ==> {
            &&& -0x10_0000_0000_0000_0000_0000_0000 <= (#[trigger] gs[i]).x_offset.0 <= 0x10_0000_0000_0000_0000_0000_0000
            &&& -0x10_0000_0000_0000_0000_0000_0000 <= gs[i].y_offset.0 <= 0x10_0000_0000_0000_0000_0000_0000
            &&& -0x10_0000_0000_0000_0000_0000_0000 <= gs[i].x_advance.0 <= 0x10_0000_0000_0000_0000_0000_0000
            &&& from_source ==> origin + gs[i].cluster <= u32::MAX
        }
}

proof fn lemma_spaces_before_bounds(gs: Seq<GlyphPosition>, chars: Seq<char>, k: int)
    requires
        0 <= k <= gs.len(),
    ensures
        0 <= spaces_before(gs, chars, k) <= k,
    decreases k,
{
    if k > 0 {
        lemma_spaces_before_bounds(gs, chars, k - 1);
    }
}

proof fn lemma_extras_bounds(gs: Seq<GlyphPosition>, chars: Seq<char>, justify: bool, e: int, rem: int, k: int)
    requires
        0 <= k <= gs.len(),
        glyphs_ok(gs, 0, false),
        0 <= e <= 0x10_0000_0000_0000_0000_0000_0000,
    ensures
        0 <= extras_before(gs, chars, justify, e, rem, k) <= k * 0x10_0000_0000_0000_0000_0000_0001,
        -k * 0x20_0000_0000_0000_0000_0000_0001 <= advance_before(gs, chars, justify, e, rem, k) <= k
            * 0x20_0000_0000_0000_0000_0000_0001,
    decreases k,
{
    if k > 0 {
        lemma_extras_bounds(gs, chars, justify, e, rem, k - 1);
    }
}

/// Place the shaped glyphs of a run at `(x, y)` (see [`placed_glyph`]); on a justified line the
/// spaces take their extras from `budget`. Gives the run's advance, extras included.
pub fn place_shaped_glyphs(
    glyphs: &mut Vec<GlyphPosition>,
    chars: &Vec<char>,
    x: Pt,
    y: Pt,
    baseline_shift: Pt,
    origin: u32,
    from_source: bool,
    justify: bool,
    budget: &mut JustifyBudget,
) -> (r: Pt)
    requires
        glyphs_ok(old(glyphs)@, origin as int, from_source),
        -0x10_0000_0000_0000_0000_0000_0000 <= x.0 <= 0x10_0000_0000_0000_0000_0000_0000,
        -0x10_0000_0000_0000_0000_0000_0000 <= y.0 <= 0x10_0000_0000_0000_0000_0000_0000,
        -0x10_0000_0000_0000_0000_0000_0000 <= baseline_shift.0 <= 0x10_0000_0000_0000_0000_0000_0000,
        0 <= old(budget).extra_per.0 <= 0x10_0000_0000_0000_0000_0000_0000,
    ensures
        final(glyphs)@.len() == old(glyphs)@.len(),
        forall|i: int|
            0 <= i < old(glyphs)@.len() ==> #[trigger] final(glyphs)@[i] == placed_glyph(
                old(glyphs)@,
                chars@,
                justify,
                old(budget).extra_per.0 as int,
                old(budget).rem as int,
                x.0 as int,
                y.0 as int,
                baseline_shift.0 as int,
                origin as int,
                from_source,
                i,
            ),
        r.0 == advance_before(
            old(glyphs)@,
            chars@,
            justify,
            old(budget).extra_per.0 as int,
            old(budget).rem as int,
            old(glyphs)@.len() as int,
        ),
        final(budget).extra_per == old(budget).extra_per,
        ({
            let taken = if justify {
                spaces_before(old(glyphs)@, chars@, old(glyphs)@.len() as int)
            } else {
                0
            };
            final(budget).rem == if old(budget).rem > 0 {
                if taken < old(budget).rem {
                    old(budget).rem - taken
                } else {
                    0
                }
            } else {
                old(budget).rem as int
            }
        }),
{
    let ghost gs = glyphs@;
    let ghost e = budget.extra_per.0 as int;
    let ghost rem0 = budget.rem as int;
    let n = glyphs.len();
    let mut advance: i128 = 0;
    let mut shift: i128 = 0;
    let mut i: usize = 0;
    while i < n
        invariant
            n == gs.len(),
            i <= n,
            glyphs@.len() == n,
            glyphs_ok(gs, origin as int, from_source),
            -0x10_0000_0000_0000_0000_0000_0000 <= x.0 <= 0x10_0000_0000_0000_0000_0000_0000,
            -0x10_0000_0000_0000_0000_0000_0000 <= y.0 <= 0x10_0000_0000_0000_0000_0000_0000,
            -0x10_0000_0000_0000_0000_0000_0000 <= baseline_shift.0 <= 0x10_0000_0000_0000_0000_0000_0000,
            0 <= e <= 0x10_0000_0000_0000_0000_0000_0000,
            budget.extra_per.0 == e,
            budget.rem == (if rem0 > 0 {
                if (if justify {
                    spaces_before(gs, chars@, i as int)
                } else {
                    0
                }) < rem0 {
                    rem0 - (if justify {
                        spaces_before(gs, chars@, i as int)
                    } else {
                        0
                    })
                } else {
                    0
                }
            } else {
                rem0
            }),
            shift == extras_before(gs, chars@, justify, e, rem0, i as int),
            advance == advance_before(gs, chars@, justify, e, rem0, i as int),
            forall|j: int| i <= j < n ==> glyphs@[j] == gs[j],
            forall|j: int|
                0 <= j < i ==> #[trigger] glyphs@[j] == placed_glyph(
                    gs,
                    chars@,
                    justify,
                    e,
                    rem0,
                    x.0 as int,
                    y.0 as int,
                    baseline_shift.0 as int,
                    origin as int,
                    from_source,
                    j,
                ),
        decreases n - i,
    {
        proof {
            assert(glyphs_ok(gs, 0, false));
            lemma_extras_bounds(gs, chars@, justify, e, rem0, i as int);
            lemma_extras_bounds(gs, chars@, justify, e, rem0, i + 1);
            lemma_spaces_before_bounds(gs, chars@, i as int);
        }
        let g = glyphs[i];
        let is_space = (g.cluster as usize) < chars.len() && chars[g.cluster as usize] == ' ';
        let extra: i128 = if justify && is_space {
            budget.take_space_extra().0
        } else {
            0
        };
        let placed = GlyphPosition {
            glyph_id: g.glyph_id,
            cluster: if from_source {
                origin + g.cluster
            } else {
                CLUSTER_NOT_SOURCE
            },
            x_offset: Pt(g.x_offset.0 + x.0 + shift),
            y_offset: Pt(g.y_offset.0 + y.0 - baseline_shift.0),
            x_advance: Pt(g.x_advance.0 + extra),
            y_advance: g.y_advance,
        };
        glyphs.set(i, placed);
        advance = advance + g.x_advance.0 + extra;
        shift = shift + extra;
        i = i + 1;
    }
    Pt(advance)
}

/// Alignment of a list marker in its box: the list style's, else end for a number and center
/// for a bullet (the default marker).
pub open spec fn marker_align_spec(style_align: Option<TextAlign>, marker: Option<ListMarkerType>) -> TextAlign {
    match style_align {
        Some(a) => a,
        None => match marker {
            Some(ListMarkerType::Number) => TextAlign::End,
            _ => TextAlign::Center,
        },
    }
}

/// Alignment of a list marker in its box (see [`marker_align_spec`]).
pub fn marker_align(style_align: Option<TextAlign>, marker: Option<ListMarkerType>) -> (r: TextAlign)
    ensures
        r == marker_align_spec(style_align, marker),
{
    match style_align {
        Some(a) => a,
        None => match marker {
            Some(ListMarkerType::Number) => TextAlign::End,
            _ => TextAlign::Center,
        },
    }
}

/// Left edge of a list marker label of width `label_w`: past the left padding and the depth
/// indent, offset in the marker box by the marker's alignment.
pub fn marker_x(pad_left: Pt, indent: Pt, align: TextAlign, box_w: Pt, label_w: Pt) -> (r: Pt)
    requires
        -0x10_0000_0000_0000_0000_0000_0000 <= pad_left.0 <= 0x10_0000_0000_0000_0000_0000_0000,
        -0x10_0000_0000_0000_0000_0000_0000 <= indent.0 <= 0x10_0000_0000_0000_0000_0000_0000,
        -0x10_0000_0000_0000_0000_0000_0000 <= box_w.0 <= 0x10_0000_0000_0000_0000_0000_0000,
        -0x10_0000_0000_0000_0000_0000_0000 <= label_w.0 <= 0x10_0000_0000_0000_0000_0000_0000,
    ensures
        r.0 == pad_left.0 + indent.0 + line_offset_spec(align, box_w.0 as int, label_w.0 as int),
{
    let off = line_start_offset(align, box_w, label_w);
    Pt(pad_left.0 + indent.0 + off.0)
}

/// Law: on a justified line the spaces of a run take exactly the per-space extra each, plus
/// one for each of the first `rem` spaces; other glyphs take nothing.
pub proof fn law_run_extras_spend_the_budget(gs: Seq<GlyphPosition>, chars: Seq<char>, extra_per: int, rem: int, k: int)
    requires
        0 <= k <= gs.len(),
    ensures
        extras_before(gs, chars, true, extra_per, rem, k) == extra_per * spaces_before(gs, chars, k) + spent_rem(
            rem,
            spaces_before(gs, chars, k),
        ),
        extras_before(gs, chars, false, extra_per, rem, k) == 0,
    decreases k,
{
    if k > 0 {
        law_run_extras_spend_the_budget(gs, chars, extra_per, rem, k - 1);
        let s = spaces_before(gs, chars, k - 1);
        lemma_spaces_before_bounds(gs, chars, k - 1);
        let prev = extras_before(gs, chars, true, extra_per, rem, k - 1);
        assert(prev == extra_per * s + spent_rem(rem, s));
        assert(extra_per * (s + 1) == extra_per * s + extra_per) by (nonlinear_arith);
        if is_space_glyph(gs[k - 1], chars) {
            assert(spaces_before(gs, chars, k) == s + 1);
            assert(spent_rem(rem, s + 1) == spent_rem(rem, s) + if s < rem {
                1int
            } else {
                0int
            });
        } else {
            assert(spaces_before(gs, chars, k) == s);
        }
    } else {
        assert(extra_per * 0 == 0) by (nonlinear_arith);
    }
}

/// How much of a remainder `rem` the first `s` spaces take: one each while it lasts.
pub open spec fn spent_rem(rem: int, s: int) -> int {
    if rem <= 0 {
        0
    } else if s < rem {
        s
    } else {
        rem
    }
}


/// Law: justification stretches every line of a paragraph but the last. The last line of a text
/// box gets no space extras; any other justified line with spaces that is shorter than its room
/// gets extras that fill the room exactly: `spaces * extra_per + rem` is the room left, with
/// `0 <= rem < spaces`. Lines that are not justified are never stretched.
pub proof fn law_justify_fills_all_but_the_last_line(
    x_base: int,
    inner_w: int,
    indent: int,
    align: TextAlign,
    top: int,
    lines: Seq<TextLine>,
    i: int,
)
    requires
        0 <= i < lines.len(),
    ensures
        ({
            let p = line_placement_spec(x_base, inner_w, indent, align, top, lines, i);
            let room = line_room(inner_w, indent, i == 0);
            let w = lines[i].width.0 as int;
            let spaces = runs_spaces(lines[i].runs@, lines[i].runs@.len() as int);
            &&& (i == lines.len() - 1 || align != TextAlign::Justify) ==> p.extra_per.0 == 0 && p.rem == 0
            &&& (i < lines.len() - 1 && align == TextAlign::Justify && spaces > 0 && w < room
                && room - w <= i128::MAX) ==> {
                &&& spaces * p.extra_per.0 + p.rem == room - w
                &&& 0 <= p.rem < spaces
            }
        }),
{
    let room = line_room(inner_w, indent, i == 0);
    let w = lines[i].width.0 as int;
    let spaces = runs_spaces(lines[i].runs@, lines[i].runs@.len() as int);
    if i < lines.len() - 1 && align == TextAlign::Justify && spaces > 0 && w < room && room - w <= i128::MAX {
        let q = (room - w) / spaces;
        let r = (room - w) % spaces;
        assert(spaces * q + r == room - w && 0 <= r < spaces && 0 <= q <= room - w) by (nonlinear_arith)
            requires
                spaces > 0,
                room - w > 0,
                q == (room - w) / spaces,
                r == (room - w) % spaces,
        ;
    }
}


/// Law: where a line of a text box goes. Lines stack without gaps: each line starts where the
/// one before it ends. Inside its room (the inner width, less a positive indent on the first
/// line) a line shorter than the room starts at the room's left edge when aligned to the start or
/// justified, ends at its right edge when aligned to the end, and is centred (the slack on its
/// right exceeds the slack on its left by at most one) when centred.
pub proof fn law_line_placement_geometry(
    x_base: int,
    inner_w: int,
    indent: int,
    align: TextAlign,
    top: int,
    lines: Seq<TextLine>,
    i: int,
)
    requires
        0 <= i < lines.len(),
        i128::MIN <= top + seq_sum(line_heights(lines), i) <= i128::MAX,
        i + 1 < lines.len() ==> i128::MIN <= top + seq_sum(line_heights(lines), i + 1) <= i128::MAX,
        i128::MIN <= x_base + (if i == 0 { indent } else { 0 }) + line_room(inner_w, indent, i == 0) <= i128::MAX,
        i128::MIN <= x_base + (if i == 0 { indent } else { 0 }) <= i128::MAX,
        0 <= inner_w,
    ensures
        ({
            let p = line_placement_spec(x_base, inner_w, indent, align, top, lines, i);
            let left = x_base + (if i == 0 { indent } else { 0 });
            let room = line_room(inner_w, indent, i == 0);
            let w = lines[i].width.0 as int;
            &&& i + 1 < lines.len() ==> line_placement_spec(x_base, inner_w, indent, align, top, lines, i + 1).y.0
                == p.y.0 + lines[i].height.0
            &&& i == 0 ==> p.y.0 == top
            &&& (0 <= w < room && (align == TextAlign::Start || align == TextAlign::Justify)) ==> p.x.0 == left
            &&& (0 <= w < room && align == TextAlign::End) ==> p.x.0 + w == left + room
            &&& (0 <= w < room && align == TextAlign::Center) ==> {
                let l = p.x.0 - left;
                let r = left + room - (p.x.0 + w);
                0 <= l && l <= r <= l + 1
            }
            &&& w >= room ==> p.x.0 == left
        }),
{
    let hs = line_heights(lines);
    assert(seq_sum(hs, i + 1) == seq_sum(hs, i) + hs[i].0);
    if i == 0 {
        assert(seq_sum(hs, 0) == 0);
    }
}

} // verus!
