use vstd::prelude::*;

use crate::model::GlyphPosition;
use crate::pt::Pt;
use vstd::slice::SliceAdditionalExecFns;

verus! {

/// Glyph `i` of `old` after letter spacing `ls`: every glyph but the last gains `ls` of advance,
/// and glyph `i` shifts right by `i * ls`.
pub open spec fn tracked_glyph(old: Seq<GlyphPosition>, ls: int, i: int) -> GlyphPosition {
    let g = old[i];
    if old.len() < 2 || ls == 0 {
        g
    } else {
        GlyphPosition {
            x_offset: Pt((g.x_offset.0 + i * ls) as i128),
            x_advance: Pt((g.x_advance.0 + if i < old.len() - 1 { ls } else { 0 }) as i128),
            ..g
        }
    }
}

/// Inputs for which tracking stays inside `i128`.
pub open spec fn tracking_ok(glyphs: Seq<GlyphPosition>, ls: int) -> bool {
    &&& glyphs.len() <= 0x1_0000_0000
    &&& -0x1_0000_0000_0000_0000_0000 <= ls <= 0x1_0000_0000_0000_0000_0000
    &&& forall|i: int|
        0 <= i < glyphs.len() ==> crate::pt::finite_len((#[trigger] glyphs[i]).x_offset.0 as int)
            && crate::pt::finite_len(glyphs[i].x_advance.0 as int)
}

/// Extra advance between glyphs (not after the last glyph in the run).
///
/// Shaped `x_offset` values are run-relative origins; later glyphs shift by the
/// accumulated tracking so measure and paint stay aligned.
pub fn apply_tracking(glyphs: &mut [GlyphPosition], letter_spacing: Pt)
    requires
        tracking_ok(old(glyphs)@, letter_spacing.0 as int),
    ensures
        final(glyphs)@.len() == old(glyphs)@.len(),
        forall|i: int|
            0 <= i < old(glyphs)@.len() ==> #[trigger] final(glyphs)@[i] == tracked_glyph(
                old(glyphs)@,
                letter_spacing.0 as int,
                i,
            ),
{
    let n = glyphs.len();
    if n < 2 || letter_spacing.0 == 0 {
        return;
    }
    let ghost orig = glyphs@;
    let last = n - 1;
    let mut extra: i128 = 0;
    let mut i: usize = 0;
    while i < n
        invariant
            n == glyphs@.len(),
            n == orig.len(),
            n >= 2,
            letter_spacing.0 != 0,
            last == n - 1,
            i <= n,
            tracking_ok(orig, letter_spacing.0 as int),
            extra == (if i < n { i as int } else { n - 1 }) * letter_spacing.0,
            forall|q: int| 0 <= q < i ==> #[trigger] glyphs@[q] == tracked_glyph(orig, letter_spacing.0 as int, q),
            forall|q: int| i <= q < n ==> #[trigger] glyphs@[q] == orig[q],
        decreases n - i,
    {
        proof {
            let ls = letter_spacing.0 as int;
            assert(-0x1_0000_0000_0000_0000_0000_0000_0000 <= (i + 1) * ls <= 0x1_0000_0000_0000_0000_0000_0000_0000) by (nonlinear_arith)
                requires
                    0 <= i < 0x1_0000_0000,
                    -0x1_0000_0000_0000_0000_0000 <= ls <= 0x1_0000_0000_0000_0000_0000,
            ;
            assert((i + 1) * ls == i * ls + ls) by (nonlinear_arith);
            assert(crate::pt::finite_len(orig[i as int].x_offset.0 as int));
        }
        let mut g = glyphs[i];
        g.x_offset = Pt(g.x_offset.0 + extra);
        if i < last {
            g.x_advance = Pt(g.x_advance.0 + letter_spacing.0);
            extra = extra + letter_spacing.0;
        }
        glyphs.set(i, g);
        i = i + 1;
    }
}

/// Law: tracking widens a run of `n >= 2` glyphs by exactly `(n - 1) * letter_spacing`:
/// the last glyph's origin moves that far and every earlier glyph's advance grows by one step.
pub proof fn law_tracking_shifts_last_glyph(glyphs: Seq<GlyphPosition>, ls: int)
    requires
        glyphs.len() >= 2,
        ls != 0,
        tracking_ok(glyphs, ls),
    ensures
        tracked_glyph(glyphs, ls, glyphs.len() - 1).x_offset.0 == glyphs[glyphs.len() - 1].x_offset.0 + (
        glyphs.len() - 1) * ls,
        tracked_glyph(glyphs, ls, glyphs.len() - 1).x_advance == glyphs[glyphs.len() - 1].x_advance,
        tracked_glyph(glyphs, ls, 0) == (GlyphPosition {
            x_advance: Pt((glyphs[0].x_advance.0 + ls) as i128),
            ..glyphs[0]
        }),
{
    let n = glyphs.len() as int;
    assert(crate::pt::finite_len(glyphs[n - 1].x_offset.0 as int));
    assert(crate::pt::finite_len(glyphs[0].x_advance.0 as int));
    assert(-0x1_0000_0000_0000_0000_0000_0000_0000 <= (n - 1) * ls <= 0x1_0000_0000_0000_0000_0000_0000_0000) by (nonlinear_arith)
        requires
            0 <= n - 1 < 0x1_0000_0000,
            -0x1_0000_0000_0000_0000_0000 <= ls <= 0x1_0000_0000_0000_0000_0000,
    ;
    assert(0 * ls == 0) by (nonlinear_arith);
}

} // verus!
