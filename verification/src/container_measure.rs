//! Measuring a container: the constraint its children are measured under, and its size from
//! the sizes they measured.

use vstd::prelude::*;

use crate::columns::{ceil_div_pt, ceil_div_spec, equal_tracks, min_size};
use crate::container::{
    cross_max, lemma_cross_max_bound, lemma_main_sum_bound, main_sum, overlay_extent, sizes_ok, stack_extent,
    stack_used_main, stack_used_spec,
};
use crate::fixed_size::{apply_fixed_min_outer, fixed_size_hint, fixed_size_hint_spec, inner_max_for_children, inner_max_spec};
use crate::grid::{
    gap_total, grid_avail_bound, grid_axis_gaps, grid_len_bound, grid_max_tracks, lemma_resolved_track_bound,
    lemma_seq_sum_bounds, resolve_outcome, resolve_tracks, seq_sum, sum_with_gaps,
};
use crate::layout_context::{LayoutContext, Size, SizeConstraint};
use crate::model::{FixedSizeHint, GridTrack, LayoutHint, SemanticNode, StackDirection};
use crate::pt::Pt;
use crate::resolved_style::{
    law_padding_non_negative, lemma_padding_fits_i64, padding_for_role_variant, role_padding, EdgeInsets,
};
use crate::text_types::opt_text_view;

verus! {

/// The measured size raised to a fixed size on each axis that declares one, then kept within
/// the constraint (unchanged without a fixed size).
pub open spec fn fixed_min_outer_spec(m: Size, fixed: FixedSizeHint, c: SizeConstraint) -> Size {
    if fixed.width is None && fixed.height is None {
        m
    } else {
        c.constrain_spec(
            Size {
                width: match fixed.width {
                    Some(w) => if m.width.0 >= w.0 {
                        m.width
                    } else {
                        w
                    },
                    None => m.width,
                },
                height: match fixed.height {
                    Some(h) => if m.height.0 >= h.0 {
                        m.height
                    } else {
                        h
                    },
                    None => m.height,
                },
            },
        )
    }
}

/// The size `(w, h)` of a constraint's bound.
pub open spec fn size_of(w: int, h: int) -> Size {
    Size { width: Pt(w as i128), height: Pt(h as i128) }
}

/// A constraint from nothing up to `max`.
pub open spec fn up_to(max: Size) -> SizeConstraint {
    SizeConstraint { min: size_of(0, 0), max }
}

/// The width children of a column flow are measured at: the narrowest column (the whole inner
/// width without columns).
pub open spec fn column_measure_width(ws: Seq<int>, inner_w: int) -> int {
    if ws.len() > 0 {
        min_size(ws, ws.len() as int)
    } else {
        inner_w
    }
}

/// The constraint a container's children are measured under: an overlay's inner size; a column
/// flow's narrowest column, unbounded in height; a stack's inner size across, unbounded along
/// unless a fixed size bounds it. A grid child is measured in its own cell (see
/// [`crate::container::grid_cell`]); the grid's whole inner size bounds every cell.
pub open spec fn child_constraint_spec(layout: Option<LayoutHint>, inner: (int, int), fixed: FixedSizeHint, measure_w: int) -> SizeConstraint {
    match layout {
        Some(LayoutHint::Overlay { .. }) => up_to(size_of(inner.0, inner.1)),
        Some(LayoutHint::Grid { .. }) => up_to(size_of(inner.0, inner.1)),
        Some(LayoutHint::Columns { .. }) => up_to(size_of(measure_w, i128::MAX as int)),
        Some(LayoutHint::Stack { direction: StackDirection::Horizontal, .. }) => up_to(
            size_of(
                if fixed.width is Some {
                    inner.0
                } else {
                    i128::MAX as int
                },
                inner.1,
            ),
        ),
        _ => up_to(
            size_of(
                inner.0,
                if fixed.height is Some {
                    inner.1
                } else {
                    i128::MAX as int
                },
            ),
        ),
    }
}

/// Inputs a container can be measured from without leaving `i128`: bounded constraint and
/// fixed sizes, gaps and track counts.
pub open spec fn container_inputs_ok(node: SemanticNode, constraint: SizeConstraint) -> bool {
    &&& constraint.max.width.0 == i128::MAX || 0 <= constraint.max.width.0 <= grid_avail_bound()
    &&& constraint.max.height.0 == i128::MAX || 0 <= constraint.max.height.0 <= grid_avail_bound()
    &&& fixed_size_hint_spec(node.layout).width matches Some(w) ==> 0 <= w.0 <= grid_avail_bound()
    &&& fixed_size_hint_spec(node.layout).height matches Some(h) ==> 0 <= h.0 <= grid_avail_bound()
    &&& match node.layout {
        Some(LayoutHint::Grid { columns, rows, gap, row_gap, column_gap, .. }) => {
            &&& columns.len() <= grid_max_tracks()
            &&& rows.len() <= grid_max_tracks()
            &&& -grid_len_bound() <= gap <= grid_len_bound()
            &&& row_gap matches Some(g) ==> -grid_len_bound() <= g <= grid_len_bound()
            &&& column_gap matches Some(g) ==> -grid_len_bound() <= g <= grid_len_bound()
            &&& constraint.max.width.0 == i128::MAX && fixed_size_hint_spec(node.layout).width is None
                ==> crate::grid::pt_sum(columns@, columns.len() as int) >= 0
            &&& constraint.max.height.0 == i128::MAX && fixed_size_hint_spec(node.layout).height is None
                ==> crate::grid::pt_sum(rows@, rows.len() as int) >= 0
        },
        Some(LayoutHint::Columns { count, gap }) => count <= grid_max_tracks() && -grid_len_bound() <= gap
            <= grid_len_bound(),
        Some(LayoutHint::Stack { gap, .. }) => -grid_len_bound() <= gap <= grid_len_bound(),
        _ => true,
    }
}

/// How a container measures its children: its padding, fixed size and inner room, the
/// constraint each child is measured under, a grid's resolved column and row sizes, and a
/// column flow's column widths.
#[derive(Debug)]
pub struct ContainerFrame {
    pub padding: EdgeInsets,
    pub fixed: FixedSizeHint,
    pub inner_max: Size,
    pub child_constraint: SizeConstraint,
    pub grid: Option<(Vec<Pt>, Vec<Pt>)>,
    pub column_widths: Option<Vec<Pt>>,
}

/// `f` is the frame of a container with this padding, fixed size, inner room and layout.
pub open spec fn frame_is(
    f: ContainerFrame,
    pad: EdgeInsets,
    fixed: FixedSizeHint,
    inner: (int, int),
    layout: Option<LayoutHint>,
    measure_w: int,
) -> bool {
    &&& f.padding == pad
    &&& f.fixed == fixed
    &&& f.inner_max == size_of(inner.0, inner.1)
    &&& f.child_constraint == child_constraint_spec(layout, inner, fixed, measure_w)
}

/// A grid axis has no auto track.
pub open spec fn no_auto(tracks: Seq<GridTrack>) -> bool {
    forall|i: int| 0 <= i < tracks.len() ==> !(#[trigger] tracks[i] is Auto)
}

/// `v` holds exactly the sizes `s`.
pub open spec fn holds_sizes(v: Seq<Pt>, s: Seq<int>) -> bool {
    v.len() == s.len() && forall|i: int| 0 <= i < s.len() ==> #[trigger] v[i].0 == s[i]
}

/// Resolved track sizes few and small enough to be summed with their gaps.
pub open spec fn tracks_bounded(v: Seq<Pt>) -> bool {
    &&& v.len() <= grid_max_tracks()
    &&& forall|i: int|
        0 <= i < v.len() ==> -0x10_0000_0000_0000_0000_0000_0000 <= #[trigger] v[i].0
            <= 0x10_0000_0000_0000_0000_0000_0000
}

/// A frame whose padding is non-negative and fits `i64`, and whose grid sizes are bounded.
pub open spec fn frame_bounded(f: ContainerFrame) -> bool {
    &&& 0 <= f.padding.top.0 <= i64::MAX
    &&& 0 <= f.padding.right.0 <= i64::MAX
    &&& 0 <= f.padding.bottom.0 <= i64::MAX
    &&& 0 <= f.padding.left.0 <= i64::MAX
    &&& f.grid matches Some(g) ==> tracks_bounded(g.0@) && tracks_bounded(g.1@)
    &&& f.column_widths matches Some(w) ==> tracks_bounded(w@)
}

/// Resolve one grid axis, failing on auto tracks.
fn resolve_axis(tracks: &Vec<GridTrack>, gap: Pt, available: Pt) -> (r: Result<Vec<Pt>, String>)
    requires
        crate::grid::grid_inputs_ok(tracks@, gap.0 as int, available.0 as int, Seq::<Pt>::empty()),
    ensures
        !no_auto(tracks@) ==> r is Err,
        no_auto(tracks@) ==> match resolve_outcome(tracks@, gap.0 as int, available.0 as int, Seq::<Pt>::empty()) {
            None => r is Err,
            Some(s) => r matches Ok(v) && holds_sizes(v@, s),
        },
        r matches Ok(v) ==> tracks_bounded(v@),
{
    let r = resolve_tracks(tracks.as_slice(), gap, available);
    proof {
        if !no_auto(tracks@) {
            let i = choose|i: int| 0 <= i < tracks.len() && #[trigger] tracks@[i] is Auto;
            assert(tracks@[i] is Auto);
        } else if r is Ok {
            let v = r->Ok_0;
            let s = resolve_outcome(tracks@, gap.0 as int, available.0 as int, Seq::<Pt>::empty())->Some_0;
            crate::grid::lemma_fr_sum_bounds(tracks@, tracks.len() as int);
            assert forall|i: int| 0 <= i < v@.len() implies -0x10_0000_0000_0000_0000_0000_0000 <= #[trigger] v@[i].0
                <= 0x10_0000_0000_0000_0000_0000_0000 by {
                lemma_resolved_track_bound(tracks@, gap.0 as int, available.0 as int, i);
                assert(s[i] == crate::grid::resolved_track(
                    tracks@,
                    Seq::<Pt>::empty(),
                    gap.0 as int,
                    available.0 as int,
                    i,
                ));
            }
        }
    }
    r
}

proof fn lemma_no_sizes_auto_sum(tracks: Seq<GridTrack>, k: int)
    requires
        0 <= k <= tracks.len(),
    ensures
        crate::grid::auto_sum(tracks, Seq::<Pt>::empty(), k) == 0,
    decreases k,
{
    if k > 0 {
        lemma_no_sizes_auto_sum(tracks, k - 1);
    }
}

proof fn lemma_equal_tracks_sums(count: int, k: int)
    requires
        0 <= k <= count,
    ensures
        crate::grid::pt_sum(equal_tracks(count), k) == 0,
        crate::grid::auto_sum(equal_tracks(count), Seq::<Pt>::empty(), k) == 0,
    decreases k,
{
    if k > 0 {
        lemma_equal_tracks_sums(count, k - 1);
    }
}

/// Measure setup of a container: padding, fixed size, inner room, and the constraint its
/// children are measured under (see [`child_constraint_spec`]); a grid's tracks are resolved
/// within the inner room and a column flow's columns across the inner width.
pub fn container_frame(node: &SemanticNode, constraint: SizeConstraint, ctx: &LayoutContext) -> (r: Result<ContainerFrame, String>)
    requires
        container_inputs_ok(*node, constraint),
    ensures
        match role_padding(node.role@, opt_text_view(node.variant), *ctx.theme) {
            None => r is Err,
            Some(pad) => {
                let fixed = fixed_size_hint_spec(node.layout);
                let inner = inner_max_spec(constraint, pad, fixed);
                match node.layout {
                    Some(LayoutHint::Grid { columns, rows, gap, row_gap, column_gap, .. }) => {
                        let rg = match row_gap {
                            Some(g) => g,
                            None => gap,
                        } as int;
                        let cg = match column_gap {
                            Some(g) => g,
                            None => gap,
                        } as int;
                        if !no_auto(columns@) || !no_auto(rows@) {
                            r is Err
                        } else {
                            match (
                                resolve_outcome(columns@, cg, inner.0, Seq::empty()),
                                resolve_outcome(rows@, rg, inner.1, Seq::empty()),
                            ) {
                                (Some(cs), Some(rs)) => {
                                    &&& r is Ok
                                    &&& frame_is(r->Ok_0, pad, fixed, inner, node.layout, 0)
                                    &&& r->Ok_0.grid is Some
                                    &&& holds_sizes(r->Ok_0.grid->Some_0.0@, cs)
                                    &&& holds_sizes(r->Ok_0.grid->Some_0.1@, rs)
                                    &&& r->Ok_0.column_widths is None
                                },
                                _ => r is Err,
                            }
                        }
                    },
                    Some(LayoutHint::Columns { count, gap }) => match resolve_outcome(
                        equal_tracks(count as int),
                        gap as int,
                        inner.0,
                        Seq::empty(),
                    ) {
                        None => r is Err,
                        Some(ws) => {
                            &&& r is Ok
                            &&& frame_is(r->Ok_0, pad, fixed, inner, node.layout, column_measure_width(ws, inner.0))
                            &&& r->Ok_0.grid is None
                            &&& r->Ok_0.column_widths is Some
                            &&& holds_sizes(r->Ok_0.column_widths->Some_0@, ws)
                        },
                    },
                    _ => r is Ok && frame_is(r->Ok_0, pad, fixed, inner, node.layout, 0) && r->Ok_0.grid is None
                        && r->Ok_0.column_widths is None,
                }
            },
        },
        r matches Ok(f) ==> frame_bounded(f),
{
    let variant = match &node.variant {
        Some(v) => Some(v.as_str()),
        None => None,
    };
    let padding = padding_for_role_variant(node.role.as_str(), variant, ctx.theme)?;
    proof {
        lemma_padding_fits_i64(node.role@, opt_text_view(node.variant), *ctx.theme);
        law_padding_non_negative(node.role@, opt_text_view(node.variant), *ctx.theme);
    }
    let fixed = fixed_size_hint(&node.layout);
    let inner_max = inner_max_for_children(constraint, padding, fixed);
    let unbounded = Pt(i128::MAX);
    match &node.layout {
        Some(LayoutHint::Grid { columns, rows, gap, row_gap, column_gap, .. }) => {
            let (row_gap_pt, col_gap_pt) = grid_axis_gaps(*gap, *row_gap, *column_gap);
            proof {
                lemma_no_sizes_auto_sum(columns@, columns.len() as int);
                lemma_no_sizes_auto_sum(rows@, rows.len() as int);
            }
            let cols = resolve_axis(columns, col_gap_pt, inner_max.width)?;
            let rws = resolve_axis(rows, row_gap_pt, inner_max.height)?;
            Ok(
                ContainerFrame {
                    padding,
                    fixed,
                    inner_max,
                    child_constraint: SizeConstraint::new(Size::new(Pt(0), Pt(0)), inner_max),
                    grid: Some((cols, rws)),
                    column_widths: None,
                },
            )
        },
        Some(LayoutHint::Columns { count, gap }) => {
            let mut tracks: Vec<GridTrack> = Vec::new();
            let mut i: u32 = 0;
            while i < *count
                invariant
                    i <= *count <= grid_max_tracks(),
                    tracks@ == equal_tracks(i as int),
                decreases *count - i,
            {
                tracks.push(GridTrack::Fr { fr: 1 });
                i = i + 1;
                proof {
                    assert(tracks@ =~= equal_tracks(i as int));
                }
            }
            proof {
                lemma_equal_tracks_sums(*count as int, *count as int);
            }
            assert(no_auto(tracks@));
            let widths = resolve_axis(&tracks, Pt(*gap as i128), inner_max.width)?;
            let ghost ws = resolve_outcome(equal_tracks(*count as int), *gap as int, inner_max.width.0 as int, Seq::<Pt>::empty())->Some_0;
            let mut measure_w = inner_max.width;
            if widths.len() > 0 {
                measure_w = widths[0];
                let mut k: usize = 1;
                while k < widths.len()
                    invariant
                        1 <= k <= widths.len(),
                        widths.len() == ws.len(),
                        forall|j: int| 0 <= j < ws.len() ==> #[trigger] widths[j].0 == ws[j],
                        measure_w.0 == min_size(ws, k as int),
                    decreases widths.len() - k,
                {
                    if widths[k].0 < measure_w.0 {
                        measure_w = widths[k];
                    }
                    k = k + 1;
                }
            }
            Ok(
                ContainerFrame {
                    padding,
                    fixed,
                    inner_max,
                    child_constraint: SizeConstraint::new(Size::new(Pt(0), Pt(0)), Size::new(measure_w, unbounded)),
                    grid: None,
                    column_widths: Some(widths),
                },
            )
        },
        Some(LayoutHint::Overlay { .. }) => Ok(
            ContainerFrame {
                padding,
                fixed,
                inner_max,
                child_constraint: SizeConstraint::new(Size::new(Pt(0), Pt(0)), inner_max),
                grid: None,
                column_widths: None,
            },
        ),
        Some(LayoutHint::Stack { direction: StackDirection::Horizontal, .. }) => {
            let w = if fixed.width.is_some() {
                inner_max.width
            } else {
                unbounded
            };
            Ok(
                ContainerFrame {
                    padding,
                    fixed,
                    inner_max,
                    child_constraint: SizeConstraint::new(Size::new(Pt(0), Pt(0)), Size::new(w, inner_max.height)),
                    grid: None,
                    column_widths: None,
                },
            )
        },
        _ => {
            let h = if fixed.height.is_some() {
                inner_max.height
            } else {
                unbounded
            };
            Ok(
                ContainerFrame {
                    padding,
                    fixed,
                    inner_max,
                    child_constraint: SizeConstraint::new(Size::new(Pt(0), Pt(0)), Size::new(inner_max.width, h)),
                    grid: None,
                    column_widths: None,
                },
            )
        },
    }
}

proof fn lemma_stack_used_bound(sizes: Seq<Size>, gap: int, vertical: bool)
    requires
        sizes_ok(sizes),
        -grid_len_bound() <= gap <= grid_len_bound(),
    ensures
        -0x1000_0000_0000_0000_0000_0000_0000_0000 <= stack_used_spec(sizes, gap, vertical)
            <= 0x1000_0000_0000_0000_0000_0000_0000_0000,
{
    let n = sizes.len() as int;
    lemma_main_sum_bound(sizes, vertical, n);
    if n > 0 {
        assert(-grid_len_bound() * 0x10_0000 <= gap * (n - 1) <= grid_len_bound() * 0x10_0000) by (nonlinear_arith)
            requires
                -grid_len_bound() <= gap <= grid_len_bound(),
                1 <= n <= 0x10_0000,
        ;
    }
}

/// A container's content extent before padding: an overlay's widest and tallest child; a
/// grid's resolved tracks with their gaps; a column flow's inner width by its children's total
/// height shared over its columns (rounded up); a stack's children along its axis with one gap
/// between neighbours, by its widest (or tallest) child across.
pub open spec fn content_extent_spec(layout: Option<LayoutHint>, f: ContainerFrame, sizes: Seq<Size>) -> (int, int) {
    let n = sizes.len() as int;
    match layout {
        Some(LayoutHint::Overlay { .. }) => (cross_max(sizes, true, n), cross_max(sizes, false, n)),
        Some(LayoutHint::Grid { gap, row_gap, column_gap, .. }) => {
            let cols = f.grid->Some_0.0@;
            let rows = f.grid->Some_0.1@;
            let cg = match column_gap {
                Some(g) => g,
                None => gap,
            } as int;
            let rg = match row_gap {
                Some(g) => g,
                None => gap,
            } as int;
            (
                seq_sum(cols, cols.len() as int) + gap_total(cg, cols.len() as int),
                seq_sum(rows, rows.len() as int) + gap_total(rg, rows.len() as int),
            )
        },
        Some(LayoutHint::Columns { count, .. }) => (
            f.inner_max.width.0 as int,
            ceil_div_spec(
                main_sum(sizes, true, n),
                if count == 0 {
                    1
                } else {
                    count as int
                },
            ),
        ),
        Some(LayoutHint::Stack { direction: StackDirection::Horizontal, gap, .. }) => (
            stack_used_spec(sizes, gap as int, false),
            cross_max(sizes, false, n),
        ),
        Some(LayoutHint::Stack { gap, .. }) => (cross_max(sizes, true, n), stack_used_spec(sizes, gap as int, true)),
        None => (cross_max(sizes, true, n), stack_used_spec(sizes, 0, true)),
    }
}

/// A container's measured outer size before its fixed size applies: content plus padding.
pub open spec fn measured_outer_spec(layout: Option<LayoutHint>, f: ContainerFrame, sizes: Seq<Size>) -> Size {
    let e = content_extent_spec(layout, f, sizes);
    size_of(e.0 + f.padding.horizontal_spec(), e.1 + f.padding.vertical_spec())
}

/// Size of a container from the sizes its children measured under the frame's constraint (a
/// grid's children do not change its size): content plus padding, raised to a declared fixed
/// size and then kept within the constraint.
pub fn measure_container_size(node: &SemanticNode, frame: &ContainerFrame, child_sizes: &[Size], constraint: SizeConstraint) -> (r: Size)
    requires
        container_inputs_ok(*node, constraint),
        frame_bounded(*frame),
        node.layout matches Some(LayoutHint::Grid { .. }) ==> frame.grid is Some,
        node.layout matches Some(LayoutHint::Columns { .. }) ==> frame.inner_max.width.0
            + frame.padding.horizontal_spec() <= i128::MAX,
        sizes_ok(child_sizes@),
    ensures
        r == fixed_min_outer_spec(measured_outer_spec(node.layout, *frame, child_sizes@), frame.fixed, constraint),
{
    let ghost sizes = child_sizes@;
    let ghost n = sizes.len() as int;
    proof {
        lemma_cross_max_bound(sizes, true, n);
        lemma_cross_max_bound(sizes, false, n);
        lemma_main_sum_bound(sizes, true, n);
        lemma_main_sum_bound(sizes, false, n);
    }
    let ph = frame.padding.horizontal();
    let pv = frame.padding.vertical();
    let (w, h): (i128, i128) = match &node.layout {
        Some(LayoutHint::Overlay { .. }) => {
            let e = overlay_extent(child_sizes);
            (e.width.0, e.height.0)
        },
        Some(LayoutHint::Grid { gap, row_gap, column_gap, .. }) => {
            let (row_gap_pt, col_gap_pt) = grid_axis_gaps(*gap, *row_gap, *column_gap);
            match &frame.grid {
                Some((cols, rows)) => {
                    proof {
                        lemma_seq_sum_bounds(cols@, cols.len() as int);
                        lemma_seq_sum_bounds(rows@, rows.len() as int);
                        assert(gap_total(col_gap_pt.0 as int, cols.len() as int) <= grid_len_bound() * grid_max_tracks()) by (nonlinear_arith)
                            requires
                                -grid_len_bound() <= col_gap_pt.0 <= grid_len_bound(),
                                cols.len() <= grid_max_tracks(),
                        ;
                        assert(gap_total(row_gap_pt.0 as int, rows.len() as int) <= grid_len_bound() * grid_max_tracks()) by (nonlinear_arith)
                            requires
                                -grid_len_bound() <= row_gap_pt.0 <= grid_len_bound(),
                                rows.len() <= grid_max_tracks(),
                        ;
                        assert(gap_total(col_gap_pt.0 as int, cols.len() as int) >= -grid_len_bound() * grid_max_tracks()) by (nonlinear_arith)
                            requires
                                -grid_len_bound() <= col_gap_pt.0 <= grid_len_bound(),
                                cols.len() <= grid_max_tracks(),
                        ;
                        assert(gap_total(row_gap_pt.0 as int, rows.len() as int) >= -grid_len_bound() * grid_max_tracks()) by (nonlinear_arith)
                            requires
                                -grid_len_bound() <= row_gap_pt.0 <= grid_len_bound(),
                                rows.len() <= grid_max_tracks(),
                        ;
                    }
                    let tw = sum_with_gaps(cols.as_slice(), col_gap_pt);
                    let th = sum_with_gaps(rows.as_slice(), row_gap_pt);
                    (tw.0, th.0)
                },
                None => (0, 0),
            }
        },
        Some(LayoutHint::Columns { count, .. }) => {
            let n_cols: i128 = if *count == 0 {
                1
            } else {
                *count as i128
            };
            proof {
                lemma_stack_used_bound(sizes, 0, true);
            }
            let content_h = stack_used_main(child_sizes, Pt(0), true);
            let packed = ceil_div_pt(content_h, n_cols);
            proof {
                let hh = content_h.0 as int;
                let nn = n_cols as int;
                if hh > 0 {
                    assert((hh + nn - 1) / nn <= hh) by (nonlinear_arith)
                        requires
                            hh > 0,
                            nn >= 1,
                    ;
                    assert((hh + nn - 1) / nn >= 0) by (nonlinear_arith)
                        requires
                            hh > 0,
                            nn >= 1,
                    ;
                }
            }
            (frame.inner_max.width.0, packed.0)
        },
        Some(LayoutHint::Stack { direction, gap, .. }) => {
            let vertical = match direction {
                StackDirection::Horizontal => false,
                _ => true,
            };
            proof {
                lemma_stack_used_bound(sizes, *gap as int, vertical);
            }
            let e = stack_extent(child_sizes, Pt(*gap as i128), vertical);
            (e.width.0, e.height.0)
        },
        None => {
            proof {
                lemma_stack_used_bound(sizes, 0, true);
            }
            let e = stack_extent(child_sizes, Pt(0), true);
            (e.width.0, e.height.0)
        },
    };
    let measured = Size::new(Pt(w + ph.0), Pt(h + pv.0));
    apply_fixed_min_outer(measured, frame.fixed, constraint)
}

} // verus!
