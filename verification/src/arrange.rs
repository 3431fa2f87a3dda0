use vstd::prelude::*;

use crate::layout_context::{Point, Size};
use crate::model::{FillRect, GeometryNode, GlyphPosition, SemanticNode, TextGlyphRun};
use crate::pt::Pt;

verus! {

/// Display math laid out in its own box: glyphs, their runs and rule rectangles.
pub struct ArrangedMath {
    pub width: Pt,
    pub glyphs: Vec<GlyphPosition>,
    pub text_runs: Vec<TextGlyphRun>,
    pub fill_rects: Vec<FillRect>,
}

/// `run` with its glyph range shifted by `offset`.
pub open spec fn shifted_run(run: TextGlyphRun, offset: int) -> TextGlyphRun {
    TextGlyphRun {
        glyph_range: [(run.glyph_range@[0] + offset) as usize, (run.glyph_range@[1] + offset) as usize],
        style: run.style,
    }
}

/// Append placed math to a box's glyphs, runs and rules; the math runs are re-pointed past the
/// glyphs already there.
pub fn append_placed_math(
    glyphs: &mut Vec<GlyphPosition>,
    text_runs: &mut Vec<TextGlyphRun>,
    fill_rects: &mut Vec<FillRect>,
    placed: ArrangedMath,
)
    requires
        forall|i: int|
            0 <= i < placed.text_runs@.len() ==> (#[trigger] placed.text_runs@[i]).glyph_range@[0] + old(glyphs)@.len()
                <= usize::MAX && placed.text_runs@[i].glyph_range@[1] + old(glyphs)@.len() <= usize::MAX,
    ensures
        final(glyphs)@ == old(glyphs)@ + placed.glyphs@,
        final(fill_rects)@ == old(fill_rects)@ + placed.fill_rects@,
        final(text_runs)@.len() == old(text_runs)@.len() + placed.text_runs@.len(),
        final(text_runs)@.take(old(text_runs)@.len() as int) == old(text_runs)@,
        forall|i: int|
            0 <= i < placed.text_runs@.len() ==> #[trigger] final(text_runs)@[old(text_runs)@.len() + i] == shifted_run(
                placed.text_runs@[i],
                old(glyphs)@.len() as int,
            ),
{
    let glyph_start = glyphs.len();
    let mut more = placed.glyphs;
    glyphs.append(&mut more);
    let ghost runs0 = text_runs@;
    let runs = placed.text_runs;
    let mut i: usize = 0;
    while i < runs.len()
        invariant
            i <= runs@.len(),
            glyph_start == old(glyphs)@.len(),
            runs0 == old(text_runs)@,
            runs@ == placed.text_runs@,
            text_runs@.len() == runs0.len() + i,
            text_runs@.take(runs0.len() as int) == runs0,
            forall|k: int|
                0 <= k < runs@.len() ==> (#[trigger] runs@[k]).glyph_range@[0] + glyph_start <= usize::MAX
                    && runs@[k].glyph_range@[1] + glyph_start <= usize::MAX,
            forall|k: int|
                0 <= k < i ==> #[trigger] text_runs@[runs0.len() + k] == shifted_run(runs@[k], glyph_start as int),
        decreases runs.len() - i,
    {
        let r = &runs[i];
        let shifted = TextGlyphRun {
            glyph_range: [r.glyph_range[0] + glyph_start, r.glyph_range[1] + glyph_start],
            style: r.style.clone(),
        };
        proof {
            assert(shifted.glyph_range@ =~= shifted_run(runs@[i as int], glyph_start as int).glyph_range@);
        }
        let ghost before = text_runs@;
        text_runs.push(shifted);
        proof {
            assert(text_runs@.take(runs0.len() as int) =~= before.take(runs0.len() as int));
            assert forall|k: int| 0 <= k < i + 1 implies #[trigger] text_runs@[runs0.len() + k] == shifted_run(
                runs@[k],
                glyph_start as int,
            ) by {
                if k < i {
                    assert(text_runs@[runs0.len() + k] == before[runs0.len() + k]);
                }
            }
        }
        i = i + 1;
    }
    let mut rects = placed.fill_rects;
    fill_rects.append(&mut rects);
}

/// The box of a leaf node: its id, position and size, with nothing inside.
pub fn arrange_leaf(node: &SemanticNode, position: Point, size: Size) -> (r: GeometryNode)
    ensures
        r.id@ == node.id@,
        r.x == position.x && r.y == position.y,
        r.width == size.width && r.height == size.height,
        r.glyphs@.len() == 0 && r.text_runs@.len() == 0 && r.fill_rects@.len() == 0 && r.children@.len() == 0,
{
    GeometryNode {
        id: node.id.clone(),
        x: position.x,
        y: position.y,
        width: size.width,
        height: size.height,
        glyphs: Vec::new(),
        text_runs: Vec::new(),
        fill_rects: Vec::new(),
        children: Vec::new(),
    }
}

} // verus!
