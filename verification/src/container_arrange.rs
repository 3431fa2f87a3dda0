//! Arranging a container: where each child goes inside it, from the frame the container was
//! measured with at its final size and the sizes its children measured.

use vstd::prelude::*;

use crate::alignment::{align_offset_and_size, align_offset_spec, align_size_spec};
use crate::container::{
    column_slot, column_state, columns_placements, extent_ok, grid_cell, grid_cell_spec, sizes_ok, stack_placements,
    stack_slot,
};
use crate::container_measure::{frame_bounded, tracks_bounded, ContainerFrame};
use crate::grid::{grid_axis_gaps, grid_len_bound, grid_max_tracks, seq_sum};
use crate::layout_context::{LayoutContext, Point, Size};
use crate::model::{Align, CellAlign, JustifyContent, LayoutHint, SemanticNode, StackDirection};
use crate::pt::Pt;
use crate::resolved_style::{resolve_self_align, self_align_spec};
use crate::text_types::opt_text_view;
use crate::theme::Theme;

verus! {

/// Where a container's inner box starts: inside its left and top padding.
pub open spec fn inner_origin(position: Point, f: ContainerFrame) -> Point {
    Point { x: Pt((position.x.0 + f.padding.left.0) as i128), y: Pt((position.y.0 + f.padding.top.0) as i128) }
}

/// A grid's cell alignment; children fill their cells unless the grid says otherwise.
pub open spec fn cell_align_or_default(a: Option<CellAlign>) -> CellAlign {
    match a {
        Some(c) => c,
        None => CellAlign { x: Align::Stretch, y: Align::Stretch },
    }
}

/// Slot of grid child `idx` that measured `size` in its cell: the cell, with the child aligned
/// in it on each axis.
pub open spec fn grid_slot(
    inner_pos: Point,
    cols: Seq<Pt>,
    rows: Seq<Pt>,
    cg: int,
    rg: int,
    align: CellAlign,
    size: Size,
    idx: int,
) -> (Point, Size) {
    let (p, cell) = grid_cell_spec(inner_pos, cols, rows, cg, rg, idx)->Some_0;
    (
        Point {
            x: Pt((p.x.0 + align_offset_spec(align.x, cell.width.0 as int, size.width.0 as int)) as i128),
            y: Pt((p.y.0 + align_offset_spec(align.y, cell.height.0 as int, size.height.0 as int)) as i128),
        },
        Size {
            width: Pt(align_size_spec(align.x, cell.width.0 as int, size.width.0 as int) as i128),
            height: Pt(align_size_spec(align.y, cell.height.0 as int, size.height.0 as int) as i128),
        },
    )
}

/// How many of `n` children a grid places: one per cell, row by row, the rest are left out.
pub open spec fn grid_capacity(ncols: int, nrows: int, n: int) -> int {
    if n < ncols * nrows {
        n
    } else {
        ncols * nrows
    }
}

/// The heights of measured sizes.
pub open spec fn heights_of(sizes: Seq<Size>) -> Seq<Pt> {
    sizes.map_values(|s: Size| s.height)
}

/// Alignment of a stack child: its own role's override, else the stack's.
pub open spec fn child_align(c: SemanticNode, theme: Theme, align_items: Align) -> Align {
    match self_align_spec(c.role@, opt_text_view(c.variant), theme) {
        Some(a) => a,
        None => align_items,
    }
}

/// The cross-axis alignment of each stack child.
pub open spec fn stack_aligns(children: Seq<SemanticNode>, theme: Theme, align_items: Align) -> Seq<Align> {
    children.map_values(|c: SemanticNode| child_align(c, theme, align_items))
}

/// A stack's direction (vertical unless it says otherwise), gap, alignment and justification;
/// a container without a layout hint is a vertical stack without gap that stretches its
/// children from the start.
pub open spec fn stack_params(layout: Option<LayoutHint>) -> (bool, int, Align, JustifyContent) {
    match layout {
        Some(LayoutHint::Stack { direction, gap, align_items, justify_content, .. }) => (
            direction != StackDirection::Horizontal,
            gap as int,
            align_items,
            justify_content,
        ),
        _ => (true, 0, Align::Stretch, JustifyContent::Start),
    }
}

/// Slot of child `i` in a container at `inner_pos`: an overlay's children share the inner
/// origin at their measured size; a grid child is aligned in its cell; a column flow child goes
/// where the flow puts it, at its measured size; a stack child follows the stack's
/// justification and its own alignment.
pub open spec fn container_slot(
    layout: Option<LayoutHint>,
    f: ContainerFrame,
    inner_pos: Point,
    sizes: Seq<Size>,
    aligns: Seq<Align>,
    i: int,
) -> (Point, Size) {
    match layout {
        Some(LayoutHint::Overlay { .. }) => (inner_pos, sizes[i]),
        Some(LayoutHint::Grid { gap, row_gap, column_gap, cell_align, .. }) => grid_slot(
            inner_pos,
            f.grid->Some_0.0@,
            f.grid->Some_0.1@,
            match column_gap {
                Some(g) => g,
                None => gap,
            } as int,
            match row_gap {
                Some(g) => g,
                None => gap,
            } as int,
            cell_align_or_default(cell_align),
            sizes[i],
            i,
        ),
        Some(LayoutHint::Columns { gap, .. }) => (
            column_slot(
                inner_pos,
                f.column_widths->Some_0@,
                gap as int,
                f.inner_max.height.0 as int,
                heights_of(sizes),
                i,
            ),
            sizes[i],
        ),
        _ => {
            let (vertical, gap, _a, justify) = stack_params(layout);
            stack_slot(inner_pos, f.inner_max, sizes, aligns, gap, justify, vertical, i)
        },
    }
}

/// Gaps of a layout hint that stay within the grid bound.
pub open spec fn layout_gaps_ok(layout: Option<LayoutHint>) -> bool {
    match layout {
        Some(LayoutHint::Stack { gap, .. }) => -grid_len_bound() <= gap <= grid_len_bound(),
        Some(LayoutHint::Columns { gap, .. }) => -grid_len_bound() <= gap <= grid_len_bound(),
        Some(LayoutHint::Grid { gap, row_gap, column_gap, .. }) => {
            &&& -grid_len_bound() <= gap <= grid_len_bound()
            &&& row_gap matches Some(g) ==> -grid_len_bound() <= g <= grid_len_bound()
            &&& column_gap matches Some(g) ==> -grid_len_bound() <= g <= grid_len_bound()
        },
        _ => true,
    }
}

/// What arranging measured children needs of a container's frame: a grid's tracks (with a
/// column whenever a child is placed, and no more children than cells), a column flow's widths
/// (at least one column when there are children).
pub open spec fn arrange_inputs_ok(layout: Option<LayoutHint>, f: ContainerFrame, sizes: Seq<Size>) -> bool {
    match layout {
        Some(LayoutHint::Grid { .. }) => {
            &&& f.grid is Some
            &&& sizes.len() > 0 ==> f.grid->Some_0.0@.len() > 0
            &&& sizes.len() <= grid_capacity(
                f.grid->Some_0.0@.len() as int,
                f.grid->Some_0.1@.len() as int,
                sizes.len() as int,
            )
        },
        Some(LayoutHint::Columns { .. }) => {
            &&& f.column_widths is Some
            &&& sizes.len() > 0 ==> f.column_widths->Some_0@.len() > 0
        },
        _ => true,
    }
}

proof fn lemma_grid_cell_bounds(inner_pos: Point, cols: Seq<Pt>, rows: Seq<Pt>, cg: int, rg: int, idx: int)
    requires
        cols.len() > 0,
        0 <= idx,
        tracks_bounded(cols),
        tracks_bounded(rows),
        -grid_len_bound() <= cg <= grid_len_bound(),
        -grid_len_bound() <= rg <= grid_len_bound(),
        extent_ok(inner_pos.x.0 as int),
        extent_ok(inner_pos.y.0 as int),
        grid_cell_spec(inner_pos, cols, rows, cg, rg, idx) is Some,
    ensures
        ({
            let (p, cell) = grid_cell_spec(inner_pos, cols, rows, cg, rg, idx)->Some_0;
            &&& -0x4000_0000_0000_0000_0000_0000_0000_0000 <= p.x.0 <= 0x4000_0000_0000_0000_0000_0000_0000_0000
            &&& -0x4000_0000_0000_0000_0000_0000_0000_0000 <= p.y.0 <= 0x4000_0000_0000_0000_0000_0000_0000_0000
            &&& extent_ok(cell.width.0 as int)
            &&& extent_ok(cell.height.0 as int)
        }),
{
    let c = idx % (cols.len() as int);
    let r = idx / (cols.len() as int);
    assert(0 <= c < cols.len()) by (nonlinear_arith)
        requires
            cols.len() > 0,
            c == idx % (cols.len() as int),
    ;
    assert(0 <= r) by (nonlinear_arith)
        requires
            cols.len() > 0,
            idx >= 0,
            r == idx / (cols.len() as int),
    ;
    lemma_prefix_bound(cols, c);
    lemma_prefix_bound(rows, r);
    assert(-grid_len_bound() * grid_max_tracks() <= cg * c <= grid_len_bound() * grid_max_tracks()) by (nonlinear_arith)
        requires
            -grid_len_bound() <= cg <= grid_len_bound(),
            0 <= c <= grid_max_tracks(),
    ;
    assert(-grid_len_bound() * grid_max_tracks() <= rg * r <= grid_len_bound() * grid_max_tracks()) by (nonlinear_arith)
        requires
            -grid_len_bound() <= rg <= grid_len_bound(),
            0 <= r <= grid_max_tracks(),
    ;
}

proof fn lemma_prefix_bound(v: Seq<Pt>, k: int)
    requires
        tracks_bounded(v),
        0 <= k <= v.len(),
    ensures
        -k * 0x10_0000_0000_0000_0000_0000_0000 <= seq_sum(v, k) <= k * 0x10_0000_0000_0000_0000_0000_0000,
    decreases k,
{
    if k > 0 {
        lemma_prefix_bound(v, k - 1);
        assert(-0x10_0000_0000_0000_0000_0000_0000 <= v[k - 1].0 <= 0x10_0000_0000_0000_0000_0000_0000);
    }
}

/// Place the children of a container arranged at `position` with the frame it was measured
/// with at its final size: one slot per measured child, in order (see [`container_slot`]).
/// A grid's children are measured in their cells and only as many as it has cells; a column
/// flow's in the column the flow is in (see [`next_column_width`]); the others under the
/// frame's child constraint.
pub fn arrange_container_slots(
    node: &SemanticNode,
    frame: &ContainerFrame,
    position: Point,
    children: &[SemanticNode],
    child_sizes: &[Size],
    ctx: &LayoutContext,
) -> (r: Vec<(Point, Size)>)
    requires
        frame_bounded(*frame),
        layout_gaps_ok(node.layout),
        arrange_inputs_ok(node.layout, *frame, child_sizes@),
        sizes_ok(child_sizes@),
        children@.len() == child_sizes@.len(),
        -0x4_0000_0000_0000_0000_0000_0000 <= position.x.0 <= 0x4_0000_0000_0000_0000_0000_0000,
        -0x4_0000_0000_0000_0000_0000_0000 <= position.y.0 <= 0x4_0000_0000_0000_0000_0000_0000,
        extent_ok(frame.inner_max.width.0 as int),
        extent_ok(frame.inner_max.height.0 as int),
    ensures
        r@.len() == child_sizes@.len(),
        forall|i: int|
            0 <= i < child_sizes@.len() ==> #[trigger] r@[i] == container_slot(
                node.layout,
                *frame,
                inner_origin(position, *frame),
                child_sizes@,
                stack_aligns(children@, *ctx.theme, stack_params(node.layout).2),
                i,
            ),
{
    let inner_pos = Point::new(Pt(position.x.0 + frame.padding.left.0), Pt(position.y.0 + frame.padding.top.0));
    let ghost sizes = child_sizes@;
    let n = child_sizes.len();
    match &node.layout {
        Some(LayoutHint::Overlay { .. }) => {
            let mut out: Vec<(Point, Size)> = Vec::new();
            let mut i: usize = 0;
            while i < n
                invariant
                    n == child_sizes@.len(),
                    i <= n,
                    out@.len() == i,
                    forall|j: int| 0 <= j < i ==> #[trigger] out@[j] == (inner_pos, child_sizes@[j]),
                decreases n - i,
            {
                out.push((inner_pos, child_sizes[i]));
                i = i + 1;
            }
            out
        },
        Some(LayoutHint::Grid { gap, row_gap, column_gap, cell_align, .. }) => {
            let (row_gap_pt, col_gap_pt) = grid_axis_gaps(*gap, *row_gap, *column_gap);
            let align = match cell_align {
                Some(a) => *a,
                None => CellAlign { x: Align::Stretch, y: Align::Stretch },
            };
            let mut out: Vec<(Point, Size)> = Vec::new();
            match &frame.grid {
                Some((cols, rows)) => {
                    let ghost cg = col_gap_pt.0 as int;
                    let ghost rg = row_gap_pt.0 as int;
                    let mut i: usize = 0;
                    while i < n
                        invariant
                            n == child_sizes@.len(),
                            i <= n,
                            n > 0 ==> cols@.len() > 0,
                            n <= grid_capacity(cols@.len() as int, rows@.len() as int, n as int),
                            tracks_bounded(cols@),
                            tracks_bounded(rows@),
                            -grid_len_bound() <= cg <= grid_len_bound(),
                            -grid_len_bound() <= rg <= grid_len_bound(),
                            cg == col_gap_pt.0,
                            rg == row_gap_pt.0,
                            extent_ok(inner_pos.x.0 as int),
                            extent_ok(inner_pos.y.0 as int),
                            sizes_ok(child_sizes@),
                            out@.len() == i,
                            forall|j: int|
                                0 <= j < i ==> #[trigger] out@[j] == grid_slot(
                                    inner_pos,
                                    cols@,
                                    rows@,
                                    cg,
                                    rg,
                                    align,
                                    child_sizes@[j],
                                    j,
                                ),
                        decreases n - i,
                    {
                        proof {
                            let nc = cols@.len() as int;
                            let nr = rows@.len() as int;
                            assert((i as int) / nc < nr) by (nonlinear_arith)
                                requires
                                    nc > 0,
                                    0 <= i < n,
                                    n <= grid_capacity(nc, nr, n as int),
                            ;
                            lemma_grid_cell_bounds(inner_pos, cols@, rows@, cg, rg, i as int);
                        }
                        let cell = grid_cell(inner_pos, cols.as_slice(), rows.as_slice(), col_gap_pt, row_gap_pt, i);
                        match cell {
                            Some((p, cell_size)) => {
                                let measured = child_sizes[i];
                                proof {
                                    assert(sizes_ok(child_sizes@));
                                    assert(extent_ok((child_sizes@[i as int]).width.0 as int));
                                }
                                let (dx, w) = align_offset_and_size(align.x, cell_size.width, measured.width);
                                let (dy, h) = align_offset_and_size(align.y, cell_size.height, measured.height);
                                out.push((Point::new(Pt(p.x.0 + dx.0), Pt(p.y.0 + dy.0)), Size::new(w, h)));
                            },
                            None => {
                                proof {
                                    assert(false);
                                }
                            },
                        }
                        i = i + 1;
                    }
                },
                None => {},
            }
            out
        },
        Some(LayoutHint::Columns { gap, .. }) => {
            let mut out: Vec<(Point, Size)> = Vec::new();
            match &frame.column_widths {
                Some(widths) => {
                    let mut heights: Vec<Pt> = Vec::new();
                    let mut k: usize = 0;
                    while k < n
                        invariant
                            n == child_sizes@.len(),
                            k <= n,
                            heights@ == heights_of(child_sizes@).take(k as int),
                        decreases n - k,
                    {
                        heights.push(child_sizes[k].height);
                        k = k + 1;
                        proof {
                            assert(heights@ =~= heights_of(child_sizes@).take(k as int));
                        }
                    }
                    proof {
                        assert(heights@ =~= heights_of(child_sizes@));
                        assert forall|i: int| 0 <= i < heights@.len() implies extent_ok(
                            #[trigger] heights@[i].0 as int,
                        ) by {
                            assert(extent_ok(child_sizes@[i].height.0 as int));
                        }
                    }
                    let points = columns_placements(inner_pos, widths.as_slice(), Pt(*gap as i128), frame.inner_max.height, heights.as_slice());
                    let mut i: usize = 0;
                    while i < n
                        invariant
                            n == child_sizes@.len(),
                            i <= n,
                            points@.len() == n,
                            out@.len() == i,
                            forall|j: int| 0 <= j < i ==> #[trigger] out@[j] == (points@[j], child_sizes@[j]),
                        decreases n - i,
                    {
                        out.push((points[i], child_sizes[i]));
                        i = i + 1;
                    }
                },
                None => {},
            }
            out
        },
        _ => {
            let (vertical, gap, align_items, justify) = match &node.layout {
                Some(LayoutHint::Stack { direction, gap, align_items, justify_content, .. }) => (
                    match direction {
                        StackDirection::Horizontal => false,
                        _ => true,
                    },
                    Pt(*gap as i128),
                    *align_items,
                    *justify_content,
                ),
                _ => (true, Pt(0), Align::Stretch, JustifyContent::Start),
            };
            let ghost expected = stack_aligns(children@, *ctx.theme, align_items);
            let mut aligns: Vec<Align> = Vec::new();
            let mut i: usize = 0;
            while i < n
                invariant
                    n == child_sizes@.len(),
                    n == children@.len(),
                    i <= n,
                    expected == stack_aligns(children@, *ctx.theme, align_items),
                    aligns@.len() == i,
                    forall|j: int| 0 <= j < i ==> #[trigger] aligns@[j] == expected[j],
                decreases n - i,
            {
                let child = &children[i];
                let variant = match &child.variant {
                    Some(v) => Some(v.as_str()),
                    None => None,
                };
                let a = match resolve_self_align(child.role.as_str(), variant, ctx.theme) {
                    Some(a) => a,
                    None => align_items,
                };
                aligns.push(a);
                i = i + 1;
            }
            proof {
                assert(aligns@ =~= expected);
            }
            stack_placements(inner_pos, frame.inner_max, child_sizes, aligns.as_slice(), gap, justify, vertical)
        },
    }
}

/// Width of the column a column flow measures its next child in, after children of these
/// heights: the column the flow is in (the next child may still move on to the next column).
pub open spec fn next_column_width(widths: Seq<Pt>, col_h: int, heights: Seq<Pt>) -> int {
    widths[column_state(heights, widths.len() as int, col_h, heights.len() as int).0].0 as int
}

/// Width of the column a column flow measures its next child in (see [`next_column_width`]).
pub fn column_width_for_next(widths: &[Pt], col_h: Pt, heights: &[Pt]) -> (r: Pt)
    requires
        widths@.len() > 0,
        heights@.len() <= 0x10_0000,
        forall|i: int| 0 <= i < heights@.len() ==> extent_ok(#[trigger] heights@[i].0 as int),
    ensures
        r.0 == next_column_width(widths@, col_h.0 as int, heights@),
{
    let n = widths.len();
    let ghost ncols = n as int;
    let mut col: usize = 0;
    let mut y: i128 = 0;
    let mut k: usize = 0;
    while k < heights.len()
        invariant
            n == widths@.len(),
            n > 0,
            ncols == n,
            k <= heights@.len(),
            heights@.len() <= 0x10_0000,
            forall|i: int| 0 <= i < heights@.len() ==> extent_ok(#[trigger] heights@[i].0 as int),
            (col as int, y as int) == column_state(heights@, ncols, col_h.0 as int, k as int),
            col < n,
            -k * 0x10_0000_0000_0000_0000_0000_0000 <= y <= k * 0x10_0000_0000_0000_0000_0000_0000,
        decreases heights.len() - k,
    {
        let h = heights[k].0;
        if y + h > col_h.0 && y != 0 {
            col = col + 1;
            y = 0;
            if col >= n {
                col = n - 1;
            }
        }
        y = y + h;
        k = k + 1;
    }
    widths[col]
}

} // verus!
