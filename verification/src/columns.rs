use vstd::prelude::*;

use crate::grid::{grid_avail_bound, grid_len_bound, resolve_outcome, resolve_tracks};
use crate::layout_context::LayoutContext;
use crate::model::{CanvasMode, GridTrack, LayoutHint, NodeContent, SemanticNode};
use crate::resolved_style::{padding_for_role_variant, role_padding};
use crate::text_types::opt_text_view;
use crate::pagination::{cursor_bound, page_bound, page_len_ok, ColumnBand, Paginator};
use crate::place::{
    lemma_region_break_view, region_after_break, region_break, region_height, region_of, region_remaining,
};
use crate::resolved_style::EdgeInsets;
use crate::text::{decimal, decimal_text, join, owned};
use crate::pt::{trunc_div, Pt};

verus! {

/// A piece of a columns container: a run of flowing children `[start, end)`, or one child that
/// spans every column.
#[derive(Debug, Clone, Copy, PartialEq, Eq, Structural)]
pub enum Segment {
    Flow(usize, usize),
    Span(usize),
}

/// End of the run of flowing (non-spanning) children that starts at `i`.
pub open spec fn flow_end(children: Seq<SemanticNode>, i: int) -> int
    decreases children.len() - i,
{
    if i < 0 || i >= children.len() || children[i].column_span_all {
        i
    } else {
        flow_end(children, i + 1)
    }
}

pub proof fn lemma_flow_end_bounds(children: Seq<SemanticNode>, i: int)
    requires
        0 <= i <= children.len(),
    ensures
        i <= flow_end(children, i) <= children.len(),
    decreases children.len() - i,
{
    if i < children.len() && !children[i].column_span_all {
        lemma_flow_end_bounds(children, i + 1);
    }
}

/// Segments of the children from `i` on: each spanning child alone, each maximal run of
/// flowing children together.
pub open spec fn segments_from(children: Seq<SemanticNode>, i: int) -> Seq<Segment>
    decreases children.len() - i,
{
    if i < 0 || i >= children.len() {
        seq![]
    } else if children[i].column_span_all {
        seq![Segment::Span(i as usize)] + segments_from(children, i + 1)
    } else {
        let e = flow_end(children, i);
        proof {
            lemma_flow_end_bounds(children, i);
        }
        if e <= i {
            seq![]
        } else {
            seq![Segment::Flow(i as usize, e as usize)] + segments_from(children, e)
        }
    }
}

/// Split a columns container's children into flowing runs and spanning children, in order.
pub fn split_segments(children: &[SemanticNode]) -> (out: Vec<Segment>)
    ensures
        out@ == segments_from(children@, 0),
{
    let ghost c = children@;
    let mut out: Vec<Segment> = Vec::new();
    let mut i: usize = 0;
    while i < children.len()
        invariant
            c == children@,
            i <= c.len(),
            segments_from(c, 0) == out@ + segments_from(c, i as int),
        decreases c.len() - i,
    {
        if children[i].column_span_all {
            out.push(Segment::Span(i));
            proof {
                assert(segments_from(c, 0) == out@ + segments_from(c, i + 1));
            }
            i = i + 1;
            continue;
        }
        let start = i;
        while i < children.len() && !children[i].column_span_all
            invariant
                c == children@,
                start <= i <= c.len(),
                flow_end(c, start as int) == flow_end(c, i as int),
            decreases c.len() - i,
        {
            i = i + 1;
        }
        proof {
            assert(flow_end(c, i as int) == i);
            assert(segments_from(c, 0) == out@.push(Segment::Flow(start, i)) + segments_from(c, i as int));
        }
        out.push(Segment::Flow(start, i));
    }
    proof {
        assert(segments_from(c, i as int) =~= seq![]);
    }
    out
}

/// Ceiling of `h / n` for positive `n`; zero for non-positive heights; `h` itself when `n <= 0`.
pub open spec fn ceil_div_spec(h: int, n: int) -> int {
    if n <= 0 {
        h
    } else if h <= 0 {
        0
    } else {
        (h + n - 1) / n
    }
}

pub fn ceil_div_pt(h: Pt, n: i128) -> (r: Pt)
    requires
        h.0 + n - 1 <= i128::MAX,
    ensures
        r.0 == ceil_div_spec(h.0 as int, n as int),
{
    if n <= 0 {
        return h;
    }
    if h.0 <= 0 {
        return Pt(0);
    }
    Pt((h.0 + (n - 1)) / n)
}

/// Law: for a positive height and count, the ceiling share is the least one whose `n` copies
/// cover the height.
pub proof fn law_ceil_div_covers(h: int, n: int)
    requires
        h > 0,
        n > 0,
    ensures
        ceil_div_spec(h, n) * n >= h,
        (ceil_div_spec(h, n) - 1) * n < h,
{
    let q = (h + n - 1) / n;
    assert(q * n <= h + n - 1 < q * n + n) by (nonlinear_arith)
        requires
            n > 0,
            q == (h + n - 1) / n,
    ;
    assert(q * n >= h) by (nonlinear_arith)
        requires
            q * n + n > h + n - 1,
    ;
    assert((q - 1) * n < h) by (nonlinear_arith)
        requires
            q * n <= h + n - 1,
    ;
}

/// Height of the column band for a flow segment of total height `total` split over `n` columns:
/// an equal share, at least the tallest minimum start block, enough whole minimum blocks per
/// column for every block to start somewhere, and never more than the `room` left on the page.
pub open spec fn band_height_spec(total: int, min_block: int, n: int, room: int) -> int {
    let share = ceil_div_spec(total, n);
    let b1 = if share < min_block {
        min_block
    } else {
        share
    };
    let b2 = if min_block > 0 {
        let slots = trunc_div(total + min_block - 1, min_block);
        let per_col = trunc_div(slots + n - 1, n);
        let needed = per_col * min_block;
        if needed > b1 {
            needed
        } else {
            b1
        }
    } else {
        b1
    };
    if b2 > room {
        room
    } else {
        b2
    }
}

/// Band height on a fresh page when the first try left no room: the equal share, at least the
/// minimum block, capped by the page room.
pub open spec fn band_height_retry(total: int, min_block: int, n: int, room: int) -> int {
    let share = ceil_div_spec(total, n);
    let b = if share > min_block {
        share
    } else {
        min_block
    };
    if b < room {
        b
    } else {
        room
    }
}

/// Room left from `y` to the page bottom `pb`.
pub open spec fn page_room(y: int, pb: int) -> int {
    if y >= pb {
        0
    } else {
        pb - y
    }
}

/// Where the band of a flow segment starts, how tall it is, and how many page breaks it took,
/// from the cursor `y` on pages whose content spans `[pt, pb]`: first a page break when the
/// tallest minimum start block does not fit below the cursor (away from the page top), then
/// another when the band would get no height.
pub open spec fn flow_band_spec(y: int, pt: int, pb: int, total: int, min_block: int, n: int) -> (int, int, int) {
    let brk1 = min_block > page_room(y, pb) && y != pt;
    let y2 = if brk1 {
        pt
    } else {
        y
    };
    let b = band_height_spec(total, min_block, n, page_room(y2, pb));
    if b <= 0 {
        (pt, band_height_retry(total, min_block, n, page_room(pt, pb)), if brk1 {
            2int
        } else {
            1int
        })
    } else {
        (y2, b, if brk1 {
            1int
        } else {
            0int
        })
    }
}

/// Flow segment heights small enough for band arithmetic.
pub open spec fn segment_heights_ok(total: Pt, min_block: Pt) -> bool {
    &&& 0 <= total.0 <= page_bound()
    &&& 0 <= min_block.0 <= page_bound()
}

proof fn lemma_band_height_bounds(total: int, min_block: int, n: int, room: int)
    requires
        0 <= total <= page_bound(),
        0 <= min_block <= page_bound(),
        1 <= n <= 0x10000,
        room >= 0,
    ensures
        0 <= band_height_spec(total, min_block, n, room) <= room,
        0 <= band_height_retry(total, min_block, n, room) <= room,
{
    let share = ceil_div_spec(total, n);
    assert(0 <= share <= total) by (nonlinear_arith)
        requires
            share == (if total <= 0 {
                0
            } else {
                (total + n - 1) / n
            }),
            0 <= total,
            n >= 1,
    ;
    if min_block > 0 {
        let slots = trunc_div(total + min_block - 1, min_block);
        assert(0 <= slots) by (nonlinear_arith)
            requires
                slots == (total + min_block - 1) / min_block,
                total >= 0,
                min_block > 0,
        ;
        let per_col = trunc_div(slots + n - 1, n);
        assert(0 <= per_col) by (nonlinear_arith)
            requires
                per_col == (slots + n - 1) / n,
                slots >= 0,
                n >= 1,
        ;
        assert(0 <= per_col * min_block) by (nonlinear_arith)
            requires
                per_col >= 0,
                min_block > 0,
        ;
    }
}

/// Open the column band for a flow segment of a columns container (see [`flow_band_spec`]):
/// leave any band, break the page as needed, and enter a band of the given column widths at
/// the cursor. `total_h` is the segment's measured height and `min_block` its tallest minimum
/// start block.
pub fn enter_flow_segment_band(
    paginator: &mut Paginator,
    widths: &Vec<Pt>,
    col_gap: Pt,
    total_h: Pt,
    min_block: Pt,
) -> (r: Result<(), String>)
    requires
        old(paginator).wf(),
        old(paginator).mode == CanvasMode::Paged,
        old(paginator).current_page_index + 3 < usize::MAX,
        1 <= widths.len() <= 0x10000,
        forall|i: int| 0 <= i < widths.len() ==> #[trigger] page_len_ok(widths[i]),
        page_len_ok(col_gap),
        segment_heights_ok(total_h, min_block),
    ensures
        final(paginator).wf(),
        final(paginator).page_config == old(paginator).page_config,
        final(paginator).mode == old(paginator).mode,
        forall|i: int| 0 <= i < old(paginator).pages@.len() ==> #[trigger] final(paginator).pages[i] == old(paginator).pages[i],
        ({
            let p = *old(paginator);
            let y = match p.column_band {
                Some(b) => b.used_max_y.0 as int,
                None => p.current_y.0 as int,
            };
            let (top, h, breaks) = flow_band_spec(
                y,
                p.page_config.margin@[0].0 as int,
                p.page_bottom_spec(),
                total_h.0 as int,
                min_block.0 as int,
                widths.len() as int,
            );
            &&& r is Ok
            &&& final(paginator).current_y.0 == top
            &&& final(paginator).current_page_index == p.current_page_index + breaks
            &&& final(paginator).column_band matches Some(band) && band.content_x == p.page_config.margin@[3]
                && band.column_widths@ == widths@ && band.gap == col_gap && band.col == 0 && band.band_top.0 == top
                && band.band_bottom.0 == top + h && band.used_max_y.0 == top
        }),
{
    let ghost p0 = *paginator;
    if paginator.in_column_band() {
        paginator.exit_column_band();
    }
    let ghost p1 = *paginator;
    proof {
        assert forall|i: int| 0 <= i < p0.pages@.len() implies #[trigger] paginator.pages[i] == p0.pages[i] by {}
        assert(page_len_ok(paginator.page_config.margin@[0]));
        assert(page_len_ok(paginator.page_config.margin@[2]));
        assert(page_len_ok(paginator.page_config.margin@[3]));
    }
    let n_cols = widths.len() as i128;
    let mut remaining_page = paginator.remaining_page_height();
    if min_block.0 > remaining_page.0 && !paginator.at_content_top() {
        let ghost before = *paginator;
        let _ = region_break(paginator);
        proof {
            assert forall|i: int| 0 <= i < p0.pages@.len() implies #[trigger] paginator.pages[i] == p0.pages[i] by {
                assert(paginator.pages[i] == before.pages[i]);
            }
        }
        remaining_page = paginator.remaining_page_height();
    }
    proof {
        lemma_band_height_bounds(total_h.0 as int, min_block.0 as int, n_cols as int, remaining_page.0 as int);
        assert(ceil_div_spec(total_h.0 as int, n_cols as int) <= total_h.0) by (nonlinear_arith)
            requires
                n_cols >= 1,
                total_h.0 >= 0,
                ceil_div_spec(total_h.0 as int, n_cols as int) == (if total_h.0 <= 0 {
                    0
                } else {
                    (total_h.0 + n_cols - 1) / (n_cols as int)
                }),
        ;
    }
    let share = ceil_div_pt(total_h, n_cols);
    let mut band_h = share;
    if band_h.0 < min_block.0 {
        band_h = min_block;
    }
    if min_block.0 > 0 {
        let slots = (total_h.0 + min_block.0 - 1) / min_block.0;
        proof {
            assert(0 <= slots && slots * min_block.0 <= total_h.0 + min_block.0 - 1) by (nonlinear_arith)
                requires
                    slots == (total_h.0 + min_block.0 - 1) / (min_block.0 as int),
                    total_h.0 >= 0,
                    min_block.0 > 0,
            ;
        }
        let per_col = (slots + n_cols - 1) / n_cols;
        proof {
            assert(0 <= per_col <= slots + 1) by (nonlinear_arith)
                requires
                    per_col == (slots + n_cols - 1) / (n_cols as int),
                    slots >= 0,
                    n_cols >= 1,
            ;
            assert(0 <= per_col * min_block.0 <= total_h.0 + 2 * min_block.0) by (nonlinear_arith)
                requires
                    0 <= per_col <= slots + 1,
                    slots * min_block.0 <= total_h.0 + min_block.0 - 1,
                    min_block.0 > 0,
            ;
        }
        let needed = per_col * min_block.0;
        if needed > band_h.0 {
            band_h = Pt(needed);
        }
    }
    if band_h.0 > remaining_page.0 {
        band_h = remaining_page;
    }
    if band_h.0 <= 0 {
        let ghost before = *paginator;
        let _ = region_break(paginator);
        proof {
            assert forall|i: int| 0 <= i < p0.pages@.len() implies #[trigger] paginator.pages[i] == p0.pages[i] by {
                assert(paginator.pages[i] == before.pages[i]);
            }
        }
        remaining_page = paginator.remaining_page_height();
        proof {
            lemma_band_height_bounds(total_h.0 as int, min_block.0 as int, n_cols as int, remaining_page.0 as int);
        }
        let b = if share.0 > min_block.0 {
            share
        } else {
            min_block
        };
        band_h = if b.0 < remaining_page.0 {
            b
        } else {
            remaining_page
        };
    }
    let band_top = paginator.current_y;
    let band_bottom = Pt(band_top.0 + band_h.0);
    let left = paginator.content_left();
    let ws = widths.clone();
    assert(ws@ =~= widths@);
    let ghost before = *paginator;
    let r = paginator.enter_column_band(left, ws, col_gap, band_top, band_bottom);
    proof {
        assert forall|i: int| 0 <= i < p0.pages@.len() implies #[trigger] paginator.pages[i] == p0.pages[i] by {
            assert(paginator.pages[i] == before.pages[i]);
        }
    }
    r
}

/// Error text for a padded columns block taller than an empty region.
pub open spec fn padded_columns_message(id: Seq<char>, packed: int, region: int) -> Seq<char> {
    "UNSPLITTABLE_OVERFLOW: padded columns '"@ + id + "' height "@ + decimal_text(packed)
        + " exceeds page content height "@ + decimal_text(region)
}

/// Open the band of a padded columns block, which is never split: its flow height shared over
/// the columns, plus the vertical padding, must fit one region. Moves to the next region when it
/// does not fit below the cursor (away from the region top), fails when it is taller than an
/// empty region, and otherwise enters a band inside the padding. Gives the block's top and
/// outer height.
pub fn enter_padded_columns_band(
    node_id: &str,
    paginator: &mut Paginator,
    widths: &Vec<Pt>,
    col_gap: Pt,
    total_h: Pt,
    padding: EdgeInsets,
) -> (r: Result<(Pt, Pt), String>)
    requires
        old(paginator).wf(),
        old(paginator).mode == CanvasMode::Paged,
        old(paginator).current_page_index + 2 < usize::MAX,
        1 <= widths.len() <= 0x10000,
        forall|i: int| 0 <= i < widths.len() ==> #[trigger] page_len_ok(widths[i]),
        page_len_ok(col_gap),
        0 <= total_h.0 <= page_bound(),
        0 <= padding.top.0 <= i64::MAX,
        0 <= padding.bottom.0 <= i64::MAX,
    ensures
        final(paginator).wf(),
        final(paginator).page_config == old(paginator).page_config,
        final(paginator).mode == old(paginator).mode,
        forall|i: int| 0 <= i < old(paginator).pages@.len() ==> #[trigger] final(paginator).pages[i] == old(paginator).pages[i],
        ({
            let p = *old(paginator);
            let pt = p.page_config.margin@[0].0 as int;
            let pb = p.page_bottom_spec();
            let inner = ceil_div_spec(total_h.0 as int, widths.len() as int);
            let packed = inner + padding.vertical_spec();
            let rv = region_of(p, p);
            let rv1 = if packed > region_remaining(rv) && rv.y != rv.top {
                region_after_break(rv, pt, pb)
            } else {
                rv
            };
            if packed > region_height(rv1) {
                r is Err && r->Err_0@ == padded_columns_message(node_id@, packed, region_height(rv1))
            } else {
                &&& r is Ok
                &&& r->Ok_0.0.0 == rv1.y
                &&& r->Ok_0.1.0 == packed
                &&& final(paginator).current_page_index == p.current_page_index + rv1.breaks
                &&& final(paginator).current_y.0 == rv1.y + padding.top.0
                &&& final(paginator).column_band matches Some(band) && band.content_x == p.page_config.margin@[3]
                    && band.column_widths@ == widths@ && band.gap == col_gap && band.col == 0 && band.band_top.0
                    == rv1.y + padding.top.0 && band.band_bottom.0 == rv1.y + padding.top.0 + inner
                    && band.used_max_y == band.band_top
            }
        }),
{
    let ghost p0 = *paginator;
    let n_cols = widths.len() as i128;
    proof {
        assert(ceil_div_spec(total_h.0 as int, n_cols as int) <= total_h.0) by (nonlinear_arith)
            requires
                n_cols >= 1,
                total_h.0 >= 0,
                ceil_div_spec(total_h.0 as int, n_cols as int) == (if total_h.0 <= 0 {
                    0
                } else {
                    (total_h.0 + n_cols - 1) / (n_cols as int)
                }),
        ;
        assert(page_len_ok(paginator.page_config.margin@[0]));
        assert(page_len_ok(paginator.page_config.margin@[2]));
        assert(page_len_ok(paginator.page_config.margin@[3]));
    }
    let packed_inner = ceil_div_pt(total_h, n_cols);
    let packed = Pt(packed_inner.0 + padding.vertical().0);
    if packed.0 > paginator.remaining_height().0 && !paginator.at_content_top() {
        let ghost before = *paginator;
        let _ = region_break(paginator);
        proof {
            lemma_region_break_view(before, *paginator, p0);
            assert forall|i: int| 0 <= i < p0.pages@.len() implies #[trigger] paginator.pages[i] == p0.pages[i] by {
                assert(paginator.pages[i] == before.pages[i]);
            }
        }
    }
    let region = paginator.page_content_height();
    if packed.0 > region.0 {
        let m = join(join(owned("UNSPLITTABLE_OVERFLOW: padded columns '"), node_id), "' height ");
        let m = join(join(m, decimal(packed.0).as_str()), " exceeds page content height ");
        return Err(join(m, decimal(region.0).as_str()));
    }
    let top = paginator.current_y;
    let inner_top = Pt(top.0 + padding.top.0);
    let inner_bottom = Pt(inner_top.0 + packed_inner.0);
    let left = paginator.content_left();
    let ws = widths.clone();
    assert(ws@ =~= widths@);
    let ghost before = *paginator;
    let r = paginator.enter_column_band(left, ws, col_gap, inner_top, inner_bottom);
    proof {
        assert forall|i: int| 0 <= i < p0.pages@.len() implies #[trigger] paginator.pages[i] == p0.pages[i] by {
            assert(paginator.pages[i] == before.pages[i]);
        }
    }
    match r {
        Ok(()) => Ok((top, packed)),
        Err(e) => Err(e),
    }
}

/// Close a padded columns block: leave its band and put the cursor below the block.
pub fn leave_padded_columns_band(paginator: &mut Paginator, top: Pt, packed: Pt)
    requires
        old(paginator).wf(),
        -cursor_bound() <= top.0 + packed.0 <= cursor_bound(),
    ensures
        final(paginator).wf(),
        final(paginator).column_band is None,
        final(paginator).current_y.0 == top.0 + packed.0,
        final(paginator).pages == old(paginator).pages,
        final(paginator).current_page_index == old(paginator).current_page_index,
        final(paginator).page_config == old(paginator).page_config,
        final(paginator).mode == old(paginator).mode,
{
    if paginator.in_column_band() {
        paginator.exit_column_band();
    }
    paginator.current_y = Pt(top.0 + packed.0);
}

/// `count` equal fraction tracks.
pub open spec fn equal_tracks(count: int) -> Seq<GridTrack> {
    Seq::new(count as nat, |i: int| GridTrack::Fr { fr: 1 })
}

/// The least of the first `k` sizes.
pub open spec fn min_size(xs: Seq<int>, k: int) -> int
    decreases k,
{
    if k <= 1 {
        xs[0]
    } else {
        let m = min_size(xs, k - 1);
        if xs[k - 1] < m {
            xs[k - 1]
        } else {
            m
        }
    }
}

/// How a columns container lays out: its column widths and gap, the width its children are
/// measured at (the narrowest column), and its padding (a padded block is never split).
#[derive(Debug)]
pub struct ColumnsSetup {
    pub widths: Vec<Pt>,
    pub gap: Pt,
    pub measure_w: Pt,
    pub padding: EdgeInsets,
}

/// Check a columns container and resolve its columns: 2 to 4 equal columns across the content
/// width with the declared gap.
pub fn columns_setup(node: &SemanticNode, content_width: Pt, ctx: &LayoutContext) -> (r: Result<ColumnsSetup, String>)
    requires
        content_width.0 == i128::MAX || -grid_avail_bound() <= content_width.0 <= grid_avail_bound(),
        node.layout matches Some(LayoutHint::Columns { gap, .. }) ==> -grid_len_bound() <= gap <= grid_len_bound(),
    ensures
        match node.layout {
            Some(LayoutHint::Columns { count, gap }) => if count < 2 || count > 4 {
                r is Err
            } else {
                match role_padding(node.role@, opt_text_view(node.variant), *ctx.theme) {
                    None => r is Err,
                    Some(pad) => if !(node.content is Container) {
                        r is Err
                    } else {
                        match resolve_outcome(equal_tracks(count as int), gap as int, content_width.0 as int, Seq::empty()) {
                            None => r is Err,
                            Some(ws) => {
                                &&& r is Ok
                                &&& r->Ok_0.widths.len() == ws.len() == count
                                &&& forall|i: int| 0 <= i < ws.len() ==> #[trigger] r->Ok_0.widths[i].0 == ws[i]
                                &&& r->Ok_0.gap.0 == gap
                                &&& r->Ok_0.measure_w.0 == min_size(ws, ws.len() as int)
                                &&& r->Ok_0.padding == pad
                            },
                        }
                    },
                }
            },
            _ => r is Err,
        },
{
    let (count, gap) = match &node.layout {
        Some(LayoutHint::Columns { count, gap }) => (*count, *gap),
        _ => {
            let m = join(owned("place_columns called without columns layout on '"), node.id.as_str());
            return Err(join(m, "'"));
        },
    };
    if count < 2 || count > 4 {
        let m = join(join(owned("columns count must be 2..=4 on '"), node.id.as_str()), "' (got ");
        let m = join(m, decimal(count as i128).as_str());
        return Err(join(m, ")"));
    }
    let gap_pt = Pt(gap as i128);
    let variant = match &node.variant {
        Some(v) => Some(v.as_str()),
        None => None,
    };
    let padding = padding_for_role_variant(node.role.as_str(), variant, ctx.theme)?;
    match &node.content {
        NodeContent::Container { .. } => {},
        _ => {
            let m = join(owned("columns layout requires container content on '"), node.id.as_str());
            return Err(join(m, "'"));
        },
    }
    let mut tracks: Vec<GridTrack> = Vec::new();
    let mut i: u32 = 0;
    while i < count
        invariant
            i <= count <= 4,
            tracks@ == equal_tracks(i as int),
        decreases count - i,
    {
        tracks.push(GridTrack::Fr { fr: 1 });
        i = i + 1;
        proof {
            assert(tracks@ =~= equal_tracks(i as int));
        }
    }
    proof {
        assert forall|j: int| 0 <= j < tracks.len() implies !(#[trigger] tracks[j] is Auto) by {}
        lemma_equal_tracks_no_points(count as int, count as int);
        assert(-grid_len_bound() <= gap <= grid_len_bound());
    }
    let widths = resolve_tracks(&tracks, gap_pt, content_width)?;
    let ghost ws = resolve_outcome(equal_tracks(count as int), gap as int, content_width.0 as int, Seq::<Pt>::empty())->Some_0;
    let mut measure_w = widths[0];
    let mut k: usize = 1;
    while k < widths.len()
        invariant
            1 <= k <= widths.len(),
            widths.len() == ws.len(),
            forall|j: int| 0 <= j < ws.len() ==> #[trigger] widths[j].0 == ws[j],
            measure_w.0 == min_size(ws, k as int),
        decreases widths.len() - k,
    {
        if widths[k].0 < measure_w.0 {
            measure_w = widths[k];
        }
        k = k + 1;
    }
    Ok(ColumnsSetup { widths, gap: gap_pt, measure_w, padding })
}

proof fn lemma_equal_tracks_no_points(count: int, k: int)
    requires
        0 <= k <= count,
    ensures
        crate::grid::pt_sum(equal_tracks(count), k) == 0,
        crate::grid::auto_sum(equal_tracks(count), Seq::<Pt>::empty(), k) == 0,
    decreases k,
{
    if k > 0 {
        lemma_equal_tracks_no_points(count, k - 1);
    }
}

} // verus!
