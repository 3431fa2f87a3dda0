//! Container geometry: how stacks, overlays, grids and column flows size themselves and place
//! their children, given the sizes the children measured.

use vstd::prelude::*;

use crate::alignment::{
    align_offset_and_size, align_offset_spec, align_size_spec, clamped_natural, justify_offset, justify_spec,
};
use crate::grid::{seq_sum, sum_inputs_ok, sum_prefix};
use crate::layout_context::{Point, Size};
use crate::model::{Align, JustifyContent};
use crate::pt::Pt;

verus! {

/// Magnitude bound for child extents and gaps.
pub open spec fn extent_ok(x: int) -> bool {
    -0x10_0000_0000_0000_0000_0000_0000 <= x <= 0x10_0000_0000_0000_0000_0000_0000
}

/// Child sizes whose sums stay inside `i128`.
pub open spec fn sizes_ok(sizes: Seq<Size>) -> bool {
    &&& sizes.len() <= 0x10_0000
    &&& forall|i: int|
        0 <= i < sizes.len() ==> extent_ok((#[trigger] sizes[i]).width.0 as int) && extent_ok(sizes[i].height.0 as int)
}

/// Extent along a stack's main axis.
pub open spec fn main_of(s: Size, vertical: bool) -> int {
    if vertical {
        s.height.0 as int
    } else {
        s.width.0 as int
    }
}

/// Extent across a stack's main axis.
pub open spec fn cross_of(s: Size, vertical: bool) -> int {
    if vertical {
        s.width.0 as int
    } else {
        s.height.0 as int
    }
}

/// Sum of the main extents of the first `k` children.
pub open spec fn main_sum(sizes: Seq<Size>, vertical: bool, k: int) -> int
    decreases k,
{
    if k <= 0 {
        0
    } else {
        main_sum(sizes, vertical, k - 1) + main_of(sizes[k - 1], vertical)
    }
}

/// Largest cross extent of the first `k` children, at least zero.
pub open spec fn cross_max(sizes: Seq<Size>, vertical: bool, k: int) -> int
    decreases k,
{
    if k <= 0 {
        0
    } else {
        let m = cross_max(sizes, vertical, k - 1);
        if cross_of(sizes[k - 1], vertical) > m {
            cross_of(sizes[k - 1], vertical)
        } else {
            m
        }
    }
}

/// Main-axis extent a stack's children use: their extents plus one gap between neighbours.
pub open spec fn stack_used_spec(sizes: Seq<Size>, gap: int, vertical: bool) -> int {
    main_sum(sizes, vertical, sizes.len() as int) + if sizes.len() > 0 {
        gap * (sizes.len() - 1)
    } else {
        0
    }
}

pub(crate) proof fn lemma_main_sum_bound(sizes: Seq<Size>, vertical: bool, k: int)
    requires
        sizes_ok(sizes),
        0 <= k <= sizes.len(),
    ensures
        -k * 0x10_0000_0000_0000_0000_0000_0000 <= main_sum(sizes, vertical, k) <= k * 0x10_0000_0000_0000_0000_0000_0000,
    decreases k,
{
    if k > 0 {
        lemma_main_sum_bound(sizes, vertical, k - 1);
        assert(extent_ok(sizes[k - 1].width.0 as int));
    }
}

pub(crate) proof fn lemma_cross_max_bound(sizes: Seq<Size>, vertical: bool, k: int)
    requires
        sizes_ok(sizes),
        0 <= k <= sizes.len(),
    ensures
        0 <= cross_max(sizes, vertical, k) <= 0x10_0000_0000_0000_0000_0000_0000,
    decreases k,
{
    if k > 0 {
        lemma_cross_max_bound(sizes, vertical, k - 1);
        assert(extent_ok(sizes[k - 1].width.0 as int));
    }
}

/// Main-axis extent the children of a stack use (measure pass of a stack).
pub fn stack_used_main(sizes: &[Size], gap: Pt, vertical: bool) -> (r: Pt)
    requires
        sizes_ok(sizes@),
        extent_ok(gap.0 as int),
    ensures
        r.0 == stack_used_spec(sizes@, gap.0 as int, vertical),
{
    let n = sizes.len();
    let mut used: i128 = 0;
    let mut i: usize = 0;
    while i < n
        invariant
            n == sizes@.len(),
            sizes_ok(sizes@),
            i <= n,
            used == main_sum(sizes@, vertical, i as int),
        decreases n - i,
    {
        proof {
            lemma_main_sum_bound(sizes@, vertical, i as int);
            assert(extent_ok(sizes@[i as int].width.0 as int));
        }
        let m = if vertical {
            sizes[i].height.0
        } else {
            sizes[i].width.0
        };
        used = used + m;
        i = i + 1;
    }
    proof {
        lemma_main_sum_bound(sizes@, vertical, n as int);
    }
    if n > 0 && gap.0 != 0 {
        let k = (n - 1) as i128;
        proof {
            assert(-0x10_0000_0000_0000_0000_0000_0000 * 0x10_0000 <= gap.0 * k <= 0x10_0000_0000_0000_0000_0000_0000
                * 0x10_0000) by (nonlinear_arith)
                requires
                    extent_ok(gap.0 as int),
                    0 <= k < 0x10_0000,
            ;
        }
        used = used + gap.0 * k;
    }
    Pt(used)
}

proof fn lemma_used_bound(sizes: Seq<Size>, gap: int, vertical: bool)
    requires
        sizes_ok(sizes),
        extent_ok(gap),
    ensures
        -0x10_0000_0000_0000_0000_0000_0000 * 0x20_0000 <= stack_used_spec(sizes, gap, vertical)
            <= 0x10_0000_0000_0000_0000_0000_0000 * 0x20_0000,
{
    lemma_main_sum_bound(sizes, vertical, sizes.len() as int);
    if sizes.len() > 0 {
        let k = sizes.len() - 1;
        assert(-0x10_0000_0000_0000_0000_0000_0000 * 0x10_0000 <= gap * k <= 0x10_0000_0000_0000_0000_0000_0000
            * 0x10_0000) by (nonlinear_arith)
            requires
                extent_ok(gap),
                0 <= k < 0x10_0000,
        ;
    }
}

/// Natural size of a stack: its used main extent by its widest child across.
pub fn stack_extent(sizes: &[Size], gap: Pt, vertical: bool) -> (r: Size)
    requires
        sizes_ok(sizes@),
        extent_ok(gap.0 as int),
    ensures
        main_of(r, vertical) == stack_used_spec(sizes@, gap.0 as int, vertical),
        cross_of(r, vertical) == cross_max(sizes@, vertical, sizes@.len() as int),
{
    let used = stack_used_main(sizes, gap, vertical);
    let mut cross: i128 = 0;
    let mut i: usize = 0;
    while i < sizes.len()
        invariant
            i <= sizes@.len(),
            sizes_ok(sizes@),
            cross == cross_max(sizes@, vertical, i as int),
        decreases sizes.len() - i,
    {
        proof {
            lemma_cross_max_bound(sizes@, vertical, i as int);
        }
        let c = if vertical {
            sizes[i].width.0
        } else {
            sizes[i].height.0
        };
        if c > cross {
            cross = c;
        }
        i = i + 1;
    }
    if vertical {
        Size::new(Pt(cross), used)
    } else {
        Size::new(used, Pt(cross))
    }
}

/// Natural size of an overlay: its widest and its tallest child (at least zero).
pub fn overlay_extent(sizes: &[Size]) -> (r: Size)
    ensures
        r.width.0 == cross_max(sizes@, true, sizes@.len() as int),
        r.height.0 == cross_max(sizes@, false, sizes@.len() as int),
{
    let mut w: i128 = 0;
    let mut h: i128 = 0;
    let mut i: usize = 0;
    while i < sizes.len()
        invariant
            i <= sizes@.len(),
            w == cross_max(sizes@, true, i as int),
            h == cross_max(sizes@, false, i as int),
        decreases sizes.len() - i,
    {
        if sizes[i].width.0 > w {
            w = sizes[i].width.0;
        }
        if sizes[i].height.0 > h {
            h = sizes[i].height.0;
        }
        i = i + 1;
    }
    Size::new(Pt(w), Pt(h))
}

/// Where a stack places child `i`: along the main axis after the justify offset, the earlier
/// children and their gaps; across it by the child's alignment.
pub open spec fn stack_slot(
    inner_pos: Point,
    inner: Size,
    sizes: Seq<Size>,
    aligns: Seq<Align>,
    gap: int,
    justify: JustifyContent,
    vertical: bool,
    i: int,
) -> (Point, Size) {
    let start = justify_spec(justify, main_of(inner, vertical), stack_used_spec(sizes, gap, vertical));
    let main_pos = (if vertical {
        inner_pos.y.0 as int
    } else {
        inner_pos.x.0 as int
    }) + start + main_sum(sizes, vertical, i) + gap * i;
    let off = align_offset_spec(aligns[i], cross_of(inner, vertical), cross_of(sizes[i], vertical));
    let cross = align_size_spec(aligns[i], cross_of(inner, vertical), cross_of(sizes[i], vertical));
    if vertical {
        (
            Point { x: Pt((inner_pos.x.0 + off) as i128), y: Pt(main_pos as i128) },
            Size { width: Pt(cross as i128), height: sizes[i].height },
        )
    } else {
        (
            Point { x: Pt(main_pos as i128), y: Pt((inner_pos.y.0 + off) as i128) },
            Size { width: sizes[i].width, height: Pt(cross as i128) },
        )
    }
}

/// Place the children of a stack: one slot per child, in order.
pub fn stack_placements(
    inner_pos: Point,
    inner: Size,
    sizes: &[Size],
    aligns: &[Align],
    gap: Pt,
    justify: JustifyContent,
    vertical: bool,
) -> (r: Vec<(Point, Size)>)
    requires
        sizes_ok(sizes@),
        aligns@.len() == sizes@.len(),
        extent_ok(gap.0 as int),
        extent_ok(inner_pos.x.0 as int),
        extent_ok(inner_pos.y.0 as int),
        extent_ok(inner.width.0 as int),
        extent_ok(inner.height.0 as int),
    ensures
        r@.len() == sizes@.len(),
        forall|i: int|
            0 <= i < sizes@.len() ==> #[trigger] r@[i] == stack_slot(
                inner_pos,
                inner,
                sizes@,
                aligns@,
                gap.0 as int,
                justify,
                vertical,
                i,
            ),
{
    let n = sizes.len();
    let used = stack_used_main(sizes, gap, vertical);
    proof {
        lemma_used_bound(sizes@, gap.0 as int, vertical);
        lemma_main_sum_bound(sizes@, vertical, n as int);
        assert(-0x10_0000_0000_0000_0000_0000_0000 * 0x10_0000 <= gap.0 * n <= 0x10_0000_0000_0000_0000_0000_0000
            * 0x10_0000) by (nonlinear_arith)
            requires
                extent_ok(gap.0 as int),
                0 <= n <= 0x10_0000,
        ;
    }
    let inner_main = if vertical {
        inner.height
    } else {
        inner.width
    };
    let inner_cross = if vertical {
        inner.width
    } else {
        inner.height
    };
    let start = justify_offset(justify, inner_main, used);
    let mut current: i128 = (if vertical {
        inner_pos.y.0
    } else {
        inner_pos.x.0
    }) + start.0;
    let mut out: Vec<(Point, Size)> = Vec::new();
    let mut i: usize = 0;
    while i < n
        invariant
            n == sizes@.len(),
            aligns@.len() == n,
            sizes_ok(sizes@),
            extent_ok(gap.0 as int),
            extent_ok(inner_pos.x.0 as int),
            extent_ok(inner_pos.y.0 as int),
            extent_ok(inner.width.0 as int),
            extent_ok(inner.height.0 as int),
            inner_cross.0 == cross_of(inner, vertical),
            i <= n,
            current == (if vertical {
                inner_pos.y.0 as int
            } else {
                inner_pos.x.0 as int
            }) + justify_spec(justify, main_of(inner, vertical), stack_used_spec(sizes@, gap.0 as int, vertical))
                + main_sum(sizes@, vertical, i as int) + gap.0 * i,
            -0x10_0000_0000_0000_0000_0000_0000 * 0x80_0000 <= justify_spec(
                justify,
                main_of(inner, vertical),
                stack_used_spec(sizes@, gap.0 as int, vertical),
            ) <= 0x10_0000_0000_0000_0000_0000_0000 * 0x80_0000,
            0 <= justify_spec(justify, main_of(inner, vertical), stack_used_spec(sizes@, gap.0 as int, vertical)),
            out@.len() == i,
            forall|j: int|
                0 <= j < i ==> #[trigger] out@[j] == stack_slot(
                    inner_pos,
                    inner,
                    sizes@,
                    aligns@,
                    gap.0 as int,
                    justify,
                    vertical,
                    j,
                ),
        decreases n - i,
    {
        proof {
            lemma_main_sum_bound(sizes@, vertical, i as int);
            assert(extent_ok(sizes@[i as int].width.0 as int));
            assert(-0x10_0000_0000_0000_0000_0000_0000 * 0x10_0000 <= gap.0 * (i + 1) <= 0x10_0000_0000_0000_0000_0000_0000
                * 0x10_0000) by (nonlinear_arith)
                requires
                    extent_ok(gap.0 as int),
                    0 <= i < 0x10_0000,
            ;
        }
        proof {
            assert(gap.0 * (i + 1) == gap.0 * i + gap.0) by (nonlinear_arith);
            assert(-0x10_0000_0000_0000_0000_0000_0000 * 0x10_0000 <= gap.0 * i <= 0x10_0000_0000_0000_0000_0000_0000
                * 0x10_0000) by (nonlinear_arith)
                requires
                    extent_ok(gap.0 as int),
                    0 <= i < 0x10_0000,
            ;
            lemma_main_sum_bound(sizes@, vertical, i + 1);
        }
        let s = sizes[i];
        let natural_cross = if vertical {
            s.width
        } else {
            s.height
        };
        let (off, cross) = align_offset_and_size(aligns[i], inner_cross, natural_cross);
        let slot = if vertical {
            (Point::new(Pt(inner_pos.x.0 + off.0), Pt(current)), Size::new(cross, s.height))
        } else {
            (Point::new(Pt(current), Pt(inner_pos.y.0 + off.0)), Size::new(s.width, cross))
        };
        out.push(slot);
        let m = if vertical {
            s.height.0
        } else {
            s.width.0
        };
        current = current + m + gap.0;
        i = i + 1;
    }
    out
}

/// State of a column flow after the first `k` children: `(column, y within the column)`.
/// A child that does not fit below earlier ones starts the next column (the last one repeats).
pub open spec fn column_state(heights: Seq<Pt>, ncols: int, col_h: int, k: int) -> (int, int)
    decreases k,
{
    if k <= 0 {
        (0, 0)
    } else {
        let (c, y) = column_state(heights, ncols, col_h, k - 1);
        let (c2, y2) = column_before(c, y, heights[k - 1].0 as int, ncols, col_h);
        (c2, y2 + heights[k - 1].0)
    }
}

/// Column and y where a child of height `h` goes, from column `c` at `y`.
pub open spec fn column_before(c: int, y: int, h: int, ncols: int, col_h: int) -> (int, int) {
    if y + h > col_h && y != 0 {
        (if c + 1 >= ncols {
            ncols - 1
        } else {
            c + 1
        }, 0)
    } else {
        (c, y)
    }
}

/// Left edge of column `c`: the columns before it and their gaps.
pub open spec fn column_left(widths: Seq<Pt>, gap: int, c: int) -> int {
    seq_sum(widths, c) + gap * c
}

/// Position of child `k` in a column flow.
pub open spec fn column_slot(inner_pos: Point, widths: Seq<Pt>, gap: int, col_h: int, heights: Seq<Pt>, k: int) -> Point {
    let ncols = if widths.len() > 0 {
        widths.len() as int
    } else {
        1
    };
    let (c, y) = column_state(heights, ncols, col_h, k);
    let (c2, y2) = column_before(c, y, heights[k].0 as int, ncols, col_h);
    Point { x: Pt((inner_pos.x.0 + column_left(widths, gap, c2)) as i128), y: Pt((inner_pos.y.0 + y2) as i128) }
}

proof fn lemma_column_state_bounds(heights: Seq<Pt>, ncols: int, col_h: int, k: int)
    requires
        ncols >= 1,
        0 <= k <= heights.len(),
        forall|i: int| 0 <= i < heights.len() ==> extent_ok(#[trigger] heights[i].0 as int),
    ensures
        0 <= column_state(heights, ncols, col_h, k).0 < ncols,
        -k * 0x10_0000_0000_0000_0000_0000_0000 <= column_state(heights, ncols, col_h, k).1 <= k
            * 0x10_0000_0000_0000_0000_0000_0000,
    decreases k,
{
    if k > 0 {
        lemma_column_state_bounds(heights, ncols, col_h, k - 1);
    }
}

/// Place children in equal columns left to right (the flow used when columns are not paged).
pub fn columns_placements(inner_pos: Point, widths: &[Pt], gap: Pt, col_h: Pt, heights: &[Pt]) -> (r: Vec<Point>)
    requires
        sum_inputs_ok(widths@, gap.0 as int),
        heights@.len() <= 0x10_0000,
        forall|i: int| 0 <= i < heights@.len() ==> extent_ok(#[trigger] heights@[i].0 as int),
        extent_ok(inner_pos.x.0 as int),
        extent_ok(inner_pos.y.0 as int),
    ensures
        r@.len() == heights@.len(),
        forall|k: int|
            0 <= k < heights@.len() ==> #[trigger] r@[k] == column_slot(
                inner_pos,
                widths@,
                gap.0 as int,
                col_h.0 as int,
                heights@,
                k,
            ),
{
    let n: usize = if widths.len() > 0 {
        widths.len()
    } else {
        1
    };
    let ghost ncols = n as int;
    let mut col: usize = 0;
    let mut y: i128 = 0;
    let mut out: Vec<Point> = Vec::new();
    let mut k: usize = 0;
    while k < heights.len()
        invariant
            k <= heights@.len(),
            n == if widths@.len() > 0 {
                widths@.len()
            } else {
                1
            },
            ncols == n,
            sum_inputs_ok(widths@, gap.0 as int),
            heights@.len() <= 0x10_0000,
            forall|i: int| 0 <= i < heights@.len() ==> extent_ok(#[trigger] heights@[i].0 as int),
            extent_ok(inner_pos.x.0 as int),
            extent_ok(inner_pos.y.0 as int),
            (col as int, y as int) == column_state(heights@, ncols, col_h.0 as int, k as int),
            out@.len() == k,
            forall|j: int|
                0 <= j < k ==> #[trigger] out@[j] == column_slot(
                    inner_pos,
                    widths@,
                    gap.0 as int,
                    col_h.0 as int,
                    heights@,
                    j,
                ),
        decreases heights.len() - k,
    {
        proof {
            lemma_column_state_bounds(heights@, ncols, col_h.0 as int, k as int);
        }
        let h = heights[k].0;
        if y + h > col_h.0 && y != 0 {
            col = col + 1;
            y = 0;
            if col >= n {
                col = n - 1;
            }
        }
        assert(col < n);
        assert(-k * 0x10_0000_0000_0000_0000_0000_0000 <= y <= k * 0x10_0000_0000_0000_0000_0000_0000);
        let x = if widths.len() > 0 {
            sum_prefix(widths, col, gap).0
        } else {
            0
        };
        proof {
            if widths@.len() == 0 {
                assert(col == 0);
                assert(seq_sum(widths@, 0) == 0);
            }
            crate::grid::lemma_seq_sum_bounds(widths@, col as int);
            let pb = crate::pt::pt_bound();
            assert(-0x1_0000 * 0x1000_0000_0000_0000_0000_0000_0000 <= -(col as int) * pb
                && (col as int) * pb <= 0x1_0000 * 0x1000_0000_0000_0000_0000_0000_0000) by (nonlinear_arith)
                requires
                    pb == 0x1000_0000_0000_0000_0000_0000_0000,
                    0 <= col <= 0x1_0000,
            ;
            assert(-0x1000_0000_0000_0000_0000_0000_0000 * 0x1_0000 <= gap.0 * col
                <= 0x1000_0000_0000_0000_0000_0000_0000 * 0x1_0000) by (nonlinear_arith)
                requires
                    -0x1000_0000_0000_0000_0000_0000_0000 <= gap.0 <= 0x1000_0000_0000_0000_0000_0000_0000,
                    0 <= col <= 0x1_0000,
            ;
        }
        out.push(Point::new(Pt(inner_pos.x.0 + x), Pt(inner_pos.y.0 + y)));
        y = y + h;
        k = k + 1;
    }
    out
}

/// Law: each stack child starts where the previous one ends plus the gap.
pub proof fn law_stack_slots_are_consecutive(
    inner_pos: Point,
    inner: Size,
    sizes: Seq<Size>,
    aligns: Seq<Align>,
    gap: int,
    justify: JustifyContent,
    vertical: bool,
    i: int,
)
    requires
        0 <= i,
        i + 1 < sizes.len(),
        aligns.len() == sizes.len(),
        sizes_ok(sizes),
        extent_ok(gap),
        extent_ok(inner_pos.x.0 as int),
        extent_ok(inner_pos.y.0 as int),
        extent_ok(inner.width.0 as int),
        extent_ok(inner.height.0 as int),
    ensures
        ({
            let a = stack_slot(inner_pos, inner, sizes, aligns, gap, justify, vertical, i);
            let b = stack_slot(inner_pos, inner, sizes, aligns, gap, justify, vertical, i + 1);
            if vertical {
                b.0.y.0 as int == a.0.y.0 + sizes[i].height.0 + gap
            } else {
                b.0.x.0 as int == a.0.x.0 + sizes[i].width.0 + gap
            }
        }),
{
    lemma_used_bound(sizes, gap, vertical);
    lemma_main_sum_bound(sizes, vertical, i);
    lemma_main_sum_bound(sizes, vertical, i + 1);
    assert(gap * (i + 1) == gap * i + gap) by (nonlinear_arith);
    assert(-0x10_0000_0000_0000_0000_0000_0000 * 0x10_0000 <= gap * (i + 1) <= 0x10_0000_0000_0000_0000_0000_0000
        * 0x10_0000) by (nonlinear_arith)
        requires
            extent_ok(gap),
            0 <= i + 1 < 0x10_0000,
    ;
    assert(-0x10_0000_0000_0000_0000_0000_0000 * 0x10_0000 <= gap * i <= 0x10_0000_0000_0000_0000_0000_0000
        * 0x10_0000) by (nonlinear_arith)
        requires
            extent_ok(gap),
            0 <= i < 0x10_0000,
    ;
}

/// The cell of child `idx` in a grid filled row by row: `None` past the last row.
pub open spec fn grid_cell_spec(inner_pos: Point, cols: Seq<Pt>, rows: Seq<Pt>, col_gap: int, row_gap: int, idx: int) -> Option<
    (Point, Size),
> {
    let c = idx % (cols.len() as int);
    let r = idx / (cols.len() as int);
    if r >= rows.len() {
        None
    } else {
        Some(
            (
                Point {
                    x: Pt((inner_pos.x.0 + seq_sum(cols, c) + col_gap * c) as i128),
                    y: Pt((inner_pos.y.0 + seq_sum(rows, r) + row_gap * r) as i128),
                },
                Size { width: cols[c], height: rows[r] },
            ),
        )
    }
}

/// Cell of child `idx` of a grid (row-major).
pub fn grid_cell(inner_pos: Point, cols: &[Pt], rows: &[Pt], col_gap: Pt, row_gap: Pt, idx: usize) -> (r: Option<(Point, Size)>)
    requires
        cols@.len() > 0,
        sum_inputs_ok(cols@, col_gap.0 as int),
        sum_inputs_ok(rows@, row_gap.0 as int),
        extent_ok(inner_pos.x.0 as int),
        extent_ok(inner_pos.y.0 as int),
    ensures
        r == grid_cell_spec(inner_pos, cols@, rows@, col_gap.0 as int, row_gap.0 as int, idx as int),
{
    let c = idx % cols.len();
    let r = idx / cols.len();
    if r >= rows.len() {
        return None;
    }
    let x = sum_prefix(cols, c, col_gap);
    let y = sum_prefix(rows, r, row_gap);
    proof {
        crate::grid::lemma_seq_sum_bounds(cols@, c as int);
        crate::grid::lemma_seq_sum_bounds(rows@, r as int);
        let pb = crate::pt::pt_bound();
        assert(-0x1_0000 * 0x1000_0000_0000_0000_0000_0000_0000 <= -(c as int) * pb && (c as int) * pb <= 0x1_0000
            * 0x1000_0000_0000_0000_0000_0000_0000) by (nonlinear_arith)
            requires
                pb == 0x1000_0000_0000_0000_0000_0000_0000,
                0 <= c <= 0x1_0000,
        ;
        assert(-0x1_0000 * 0x1000_0000_0000_0000_0000_0000_0000 <= -(r as int) * pb && (r as int) * pb <= 0x1_0000
            * 0x1000_0000_0000_0000_0000_0000_0000) by (nonlinear_arith)
            requires
                pb == 0x1000_0000_0000_0000_0000_0000_0000,
                0 <= r <= 0x1_0000,
        ;
        assert(-0x1_0000 * 0x1000_0000_0000_0000_0000_0000_0000 <= col_gap.0 * c <= 0x1_0000
            * 0x1000_0000_0000_0000_0000_0000_0000) by (nonlinear_arith)
            requires
                -0x1000_0000_0000_0000_0000_0000_0000 <= col_gap.0 <= 0x1000_0000_0000_0000_0000_0000_0000,
                0 <= c <= 0x1_0000,
        ;
        assert(-0x1_0000 * 0x1000_0000_0000_0000_0000_0000_0000 <= row_gap.0 * r <= 0x1_0000
            * 0x1000_0000_0000_0000_0000_0000_0000) by (nonlinear_arith)
            requires
                -0x1000_0000_0000_0000_0000_0000_0000 <= row_gap.0 <= 0x1000_0000_0000_0000_0000_0000_0000,
                0 <= r <= 0x1_0000,
        ;
    }
    Some((Point::new(Pt(inner_pos.x.0 + x.0), Pt(inner_pos.y.0 + y.0)), Size::new(cols[c], rows[r])))
}

} // verus!
