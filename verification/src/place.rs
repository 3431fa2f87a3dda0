use vstd::prelude::*;

use crate::layout_context::LayoutContext;
use crate::model::{BreakInside, CanvasMode, LayoutHint, NodeContent, SemanticNode, StackDirection};
use crate::pagination::{band_restarted, cursor_ok, ColumnBand, Paginator};
use crate::alignment::{align_offset_and_size, align_offset_spec, align_size_spec};
use crate::layout_context::{Point, Size};
use crate::model::Align;
use crate::table_pagination::{band_key, fragment_in_range, in_layout_range, key_x};
use crate::text::{decimal, decimal_text, join, owned};
use crate::text_frag::{fragment_height, fragment_height_spec, pages_metrics_ok, TextPages};
use crate::pt::Pt;
use crate::resolved_style::{opt_str_view, padding_for_role_variant, resolve_self_align, role_padding, self_align_spec};
use crate::text::same_text;
use crate::text_types::opt_text_view;

verus! {

/// Break to the next packing region: next column when in a band, else next page.
pub fn region_break(paginator: &mut Paginator) -> (r: Result<(), String>)
    requires
        old(paginator).wf(),
        old(paginator).current_page_index + 1 < usize::MAX,
    ensures
        r is Ok,
        final(paginator).wf(),
        final(paginator).page_config == old(paginator).page_config,
        final(paginator).mode == old(paginator).mode,
        match old(paginator).column_band {
            None => if old(paginator).mode == CanvasMode::Paged {
                &&& final(paginator).current_page_index == old(paginator).current_page_index + 1
                &&& final(paginator).current_y == old(paginator).page_config.margin@[0]
                &&& final(paginator).column_band is None
                &&& forall|i: int| 0 <= i < old(paginator).pages@.len() ==> #[trigger] final(paginator).pages[i] == old(paginator).pages[i]
            } else {
                *final(paginator) == *old(paginator)
            },
            Some(b) => if b.col + 1 < b.column_widths.len() {
                &&& final(paginator).column_band == Some(ColumnBand { col: (b.col + 1) as usize, ..b })
                &&& final(paginator).current_y == b.band_top
                &&& final(paginator).pages == old(paginator).pages
                &&& final(paginator).current_page_index == old(paginator).current_page_index
            } else {
                old(paginator).mode == CanvasMode::Paged ==> {
                    &&& final(paginator).current_page_index == old(paginator).current_page_index + 1
                    &&& forall|i: int| 0 <= i < old(paginator).pages@.len() ==> #[trigger] final(paginator).pages[i] == old(paginator).pages[i]
                    &&& final(paginator).current_y.0 == old(paginator).page_config.margin@[0].0
                    &&& old(paginator).page_bottom_spec() >= old(paginator).page_config.margin@[0].0 ==> (final(paginator).column_band matches Some(nb) && band_restarted(
                        nb,
                        b,
                        old(paginator).page_config.margin@[0].0 as int,
                        old(paginator).page_bottom_spec(),
                    ))
                    &&& old(paginator).page_bottom_spec() < old(paginator).page_config.margin@[0].0 ==> final(paginator).column_band is None
                }
            },
        },
{
    if paginator.in_column_band() {
        let _ = paginator.column_break();
    } else {
        paginator.page_break();
    }
    Ok(())
}

/// Last index of the keep-with-next group that starts at `start`.
pub fn keep_group_end(items: &[SemanticNode], start: usize) -> (r: usize)
    ensures
        start <= r,
        start < items@.len() ==> r < items@.len(),
        forall|k: int| start <= k < r ==> (#[trigger] items@[k]).keep_with_next,
        r + 1 < items@.len() ==> !items@[r as int].keep_with_next,
{
    let mut end = start;
    while items.len() > 0 && end < items.len() - 1 && items[end].keep_with_next
        invariant
            start <= end,
            start < items@.len() ==> end < items@.len(),
            forall|k: int| start <= k < end ==> (#[trigger] items@[k]).keep_with_next,
        decreases items@.len() - end,
    {
        end = end + 1;
    }
    end
}

/// A text node may be split across pages unless it avoids breaks or is a list item.
pub open spec fn can_split_text_spec(node: SemanticNode) -> bool {
    node.break_inside != BreakInside::Avoid && node.content is Text && node.role@ != "list_item"@
}

pub fn can_split_text(node: &SemanticNode) -> (r: bool)
    ensures
        r == can_split_text_spec(*node),
{
    let is_text = match &node.content {
        NodeContent::Text(_) => true,
        _ => false,
    };
    node.break_inside != BreakInside::Avoid && is_text && !same_text(&node.role, "list_item")
}

/// A container may be split at child boundaries when it does not avoid breaks, is not an
/// overlay, grid, columns or horizontal stack, and has no padding (padding is never fragmented).
pub open spec fn can_split_stack_layout(layout: Option<LayoutHint>) -> bool {
    match layout {
        Some(LayoutHint::Overlay { .. }) => false,
        Some(LayoutHint::Grid { .. }) => false,
        Some(LayoutHint::Columns { .. }) => false,
        Some(LayoutHint::Stack { direction: StackDirection::Horizontal, .. }) => false,
        _ => true,
    }
}

pub fn can_split_stack(node: &SemanticNode, ctx: &LayoutContext) -> (r: Result<bool, String>)
    ensures
        (node.break_inside == BreakInside::Avoid || !(node.content is Container) || !can_split_stack_layout(
            node.layout,
        )) ==> r == Ok::<bool, String>(false),
        !(node.break_inside == BreakInside::Avoid || !(node.content is Container) || !can_split_stack_layout(
            node.layout,
        )) ==> match role_padding(node.role@, opt_text_view(node.variant), *ctx.theme) {
            None => r is Err,
            Some(p) => r == Ok::<bool, String>(
                p.top.0 == 0 && p.right.0 == 0 && p.bottom.0 == 0 && p.left.0 == 0,
            ),
        },
{
    if node.break_inside == BreakInside::Avoid {
        return Ok(false);
    }
    match &node.content {
        NodeContent::Container { .. } => {},
        _ => {
            return Ok(false);
        },
    }
    match &node.layout {
        Some(LayoutHint::Overlay { .. }) | Some(LayoutHint::Grid { .. }) | Some(LayoutHint::Columns { .. }) => {
            return Ok(false);
        },
        Some(LayoutHint::Stack { direction: StackDirection::Horizontal, .. }) => {
            return Ok(false);
        },
        _ => {},
    }
    let variant = match &node.variant {
        Some(v) => Some(v.as_str()),
        None => None,
    };
    let padding = padding_for_role_variant(node.role.as_str(), variant, ctx.theme)?;
    Ok(padding.top.0 == 0 && padding.right.0 == 0 && padding.bottom.0 == 0 && padding.left.0 == 0)
}

/// Advance the cursor by a gap between flow items: always on an infinite canvas; on pages only
/// when the gap still fits above the region bottom (a gap never forces a break).
pub fn apply_gap(paginator: &mut Paginator, gap: Pt, canvas_mode: CanvasMode)
    requires
        old(paginator).wf(),
        cursor_ok(Pt((old(paginator).current_y.0 + gap.0) as i128)),
        -0x1000_0000_0000_0000_0000_0000_0000_0000 <= old(paginator).current_y.0 + gap.0
            <= 0x1000_0000_0000_0000_0000_0000_0000_0000,
    ensures
        final(paginator).wf(),
        final(paginator).pages == old(paginator).pages,
        final(paginator).current_page_index == old(paginator).current_page_index,
        final(paginator).page_config == old(paginator).page_config,
        final(paginator).mode == old(paginator).mode,
        canvas_mode == CanvasMode::Infinite ==> final(paginator).current_y.0 == old(paginator).current_y.0 + gap.0
            && final(paginator).column_band == old(paginator).column_band,
        canvas_mode != CanvasMode::Infinite ==> if old(paginator).current_y.0 + gap.0 <= old(
            paginator,
        ).region_bottom_spec() {
            &&& final(paginator).current_y.0 == old(paginator).current_y.0 + gap.0
            &&& match old(paginator).column_band {
                None => final(paginator).column_band is None,
                Some(b) => final(paginator).column_band == Some(
                    ColumnBand {
                        used_max_y: if old(paginator).current_y.0 + gap.0 > b.used_max_y.0 {
                            Pt((old(paginator).current_y.0 + gap.0) as i128)
                        } else {
                            b.used_max_y
                        },
                        ..b
                    },
                ),
            }
        } else {
            *final(paginator) == *old(paginator)
        },
{
    if canvas_mode == CanvasMode::Infinite {
        paginator.current_y = Pt(paginator.current_y.0 + gap.0);
        return;
    }
    let limit = match &paginator.column_band {
        Some(b) => b.band_bottom,
        None => paginator.page_bottom_limit(),
    };
    if paginator.current_y.0 + gap.0 <= limit.0 {
        let y = Pt(paginator.current_y.0 + gap.0);
        paginator.current_y = y;
        match paginator.column_band.take() {
            Some(mut b) => {
                if y.0 > b.used_max_y.0 {
                    b.used_max_y = y;
                }
                paginator.column_band = Some(b);
            },
            None => {},
        }
    }
}

/// The packing region a block lands in: the cursor, the region's top and bottom, the column
/// geometry (see [`band_key`]) and the page breaks taken so far.
pub struct RegionView {
    pub y: int,
    pub top: int,
    pub bottom: int,
    pub key: Option<(Pt, Seq<Pt>, Pt, usize)>,
    pub breaks: int,
}

/// The region of paginator `p`, counting page breaks since `p0`.
pub open spec fn region_of(p: Paginator, p0: Paginator) -> RegionView {
    RegionView {
        y: p.current_y.0 as int,
        top: match p.column_band {
            Some(b) => b.band_top.0 as int,
            None => p.page_config.margin@[0].0 as int,
        },
        bottom: p.region_bottom_spec(),
        key: band_key(p),
        breaks: p.current_page_index - p0.current_page_index,
    }
}

/// Height left in the region.
pub open spec fn region_remaining(rv: RegionView) -> int {
    if rv.y >= rv.bottom {
        0
    } else {
        rv.bottom - rv.y
    }
}

/// Height of the whole region.
pub open spec fn region_height(rv: RegionView) -> int {
    rv.bottom - rv.top
}

/// The region after a region break on pages whose content spans `[pt, pb]`: the next column of
/// a band, else the next page (where a band restarts at its first column when the page has room).
pub open spec fn region_after_break(rv: RegionView, pt: int, pb: int) -> RegionView {
    match rv.key {
        None => RegionView { y: pt, top: pt, bottom: pb, key: None, breaks: rv.breaks + 1 },
        Some((cx, ws, g, c)) => if c + 1 < ws.len() {
            RegionView { y: rv.top, top: rv.top, bottom: rv.bottom, key: Some((cx, ws, g, (c + 1) as usize)), breaks: rv.breaks }
        } else if pb >= pt {
            RegionView { y: pt, top: pt, bottom: pb, key: Some((cx, ws, g, 0usize)), breaks: rv.breaks + 1 }
        } else {
            RegionView { y: pt, top: pt, bottom: pb, key: None, breaks: rv.breaks + 1 }
        },
    }
}

/// Where a block of height `h` starts, and the region after it: in a band it always goes at the
/// cursor; on a page it moves to the next page when it would cross the bottom.
pub open spec fn region_allocate(rv: RegionView, h: int, pt: int, pb: int) -> (int, RegionView) {
    match rv.key {
        Some(_) => (rv.y, RegionView { y: rv.y + h, ..rv }),
        None => if rv.y + h > pb {
            (pt, RegionView { y: pt + h, top: pt, bottom: pb, key: None, breaks: rv.breaks + 1 })
        } else {
            (rv.y, RegionView { y: rv.y + h, ..rv })
        },
    }
}

/// A planned text fragment: lines `[start, end)`, the cursor y where it starts, the column
/// geometry it was placed under and the page breaks before it.
pub struct TextFragView {
    pub start: int,
    pub end: int,
    pub y: int,
    pub key: Option<(Pt, Seq<Pt>, Pt, usize)>,
    pub breaks: int,
}

/// Why a text block could not be placed.
pub enum TextStop {
    /// This line (with the padding it carries) is taller than an empty region.
    LineTooTall(int),
    /// The cursor would leave the range that page arithmetic supports.
    OutOfRange,
}

/// `done` followed by the items of `rest`, or the error of `rest`.
pub open spec fn prepend_all<A, E>(done: Seq<A>, rest: Result<Seq<A>, E>) -> Result<Seq<A>, E> {
    match rest {
        Ok(s) => Ok(done + s),
        Err(e) => Err(e),
    }
}

/// The last line of a fragment that starts at `start`: take lines while the fragment still fits
/// in `room`.
pub open spec fn extend_end(prep: TextPages, start: int, end: int, room: int) -> int
    decreases prep.layout.lines@.len() - end,
{
    if end < prep.layout.lines@.len() && fragment_height_spec(prep, start, end + 1) <= room {
        extend_end(prep, start, end + 1, room)
    } else {
        end
    }
}

pub proof fn lemma_extend_end(prep: TextPages, start: int, end: int, room: int)
    requires
        end <= prep.layout.lines@.len(),
    ensures
        end <= extend_end(prep, start, end, room) <= prep.layout.lines@.len(),
    decreases prep.layout.lines@.len() - end,
{
    if end < prep.layout.lines@.len() && fragment_height_spec(prep, start, end + 1) <= room {
        lemma_extend_end(prep, start, end + 1, room);
    }
}

/// Packing a text block line by line from line `start`: a line that does not fit below the
/// cursor moves to the next region (unless the region is empty); a line taller than an empty
/// region fails; then the fragment takes as many lines as fit.
pub open spec fn text_lines_plan(prep: TextPages, rv: RegionView, start: int, pt: int, pb: int) -> Result<
    Seq<TextFragView>,
    TextStop,
>
    decreases prep.layout.lines@.len() - start,
{
    if 0 <= start < prep.layout.lines@.len() {
        let first_h = fragment_height_spec(prep, start, start + 1);
        let rv1 = if first_h > region_remaining(rv) && rv.y != rv.top {
            region_after_break(rv, pt, pb)
        } else {
            rv
        };
        if first_h > region_height(rv1) {
            Err(TextStop::LineTooTall(start))
        } else {
            let end = extend_end(prep, start, start + 1, region_remaining(rv1));
            let h = fragment_height_spec(prep, start, end);
            if !fragment_in_range(rv1.y, h) {
                Err(TextStop::OutOfRange)
            } else {
                let (fy, rv2) = region_allocate(rv1, h, pt, pb);
                proof {
                    lemma_extend_end(prep, start, start + 1, region_remaining(rv1));
                }
                prepend_all(
                    seq![TextFragView { start, end, y: fy, key: rv1.key, breaks: rv2.breaks }],
                    text_lines_plan(prep, rv2, end, pt, pb),
                )
            }
        }
    } else {
        Ok(Seq::empty())
    }
}

/// How a text block is placed: as fragments, or (a block without lines that does not fit) as an
/// unsplittable block.
pub enum TextPlanView {
    Fragments(Seq<TextFragView>),
    Unsplittable,
}

/// Placing a splittable text block: whole below the cursor when it fits; whole at the top of
/// the next page when it fits an empty page (outside column bands); else fragment by fragment.
pub open spec fn text_plan(prep: TextPages, rv: RegionView, pt: int, pb: int) -> Result<TextPlanView, TextStop> {
    let n = prep.layout.lines@.len() as int;
    let full = fragment_height_spec(prep, 0, n);
    if full <= region_remaining(rv) {
        if !fragment_in_range(rv.y, full) {
            Err(TextStop::OutOfRange)
        } else {
            let (fy, rv2) = region_allocate(rv, full, pt, pb);
            Ok(TextPlanView::Fragments(seq![TextFragView { start: 0, end: n, y: fy, key: rv.key, breaks: rv2.breaks }]))
        }
    } else if rv.key is None && rv.y != rv.top && full <= region_height(rv) {
        let rv1 = region_after_break(rv, pt, pb);
        if !fragment_in_range(rv1.y, full) {
            Err(TextStop::OutOfRange)
        } else {
            let (fy, rv2) = region_allocate(rv1, full, pt, pb);
            Ok(TextPlanView::Fragments(seq![TextFragView { start: 0, end: n, y: fy, key: rv1.key, breaks: rv2.breaks }]))
        }
    } else if n == 0 {
        Ok(TextPlanView::Unsplittable)
    } else {
        match text_lines_plan(prep, rv, 0, pt, pb) {
            Ok(s) => Ok(TextPlanView::Fragments(s)),
            Err(e) => Err(e),
        }
    }
}

/// The placement of `prep` for the paginator `p`.
pub open spec fn text_plan_for(prep: TextPages, p: Paginator) -> Result<TextPlanView, TextStop> {
    text_plan(prep, region_of(p, p), p.page_config.margin@[0].0 as int, p.page_bottom_spec())
}

/// A placed text fragment: lines `[start, end)` of the block, at `pos`, `width` wide, on `page`.
#[derive(Debug, PartialEq, Eq)]
pub struct TextFragment {
    pub start: usize,
    pub end: usize,
    pub pos: Point,
    pub width: Pt,
    pub page: usize,
}

/// How a splittable text block was placed.
#[derive(Debug, PartialEq, Eq)]
pub enum TextPlacement {
    /// The block's fragments, in order.
    Fragments(Vec<TextFragment>),
    /// A block without lines that does not fit below the cursor: it is placed as one
    /// unsplittable block instead (nothing was allocated).
    Unsplittable,
}

/// Offset and width of a text block's fragments across the content width: its outer width
/// (capped by the content width) aligned, with a zero width widened to the content width.
pub open spec fn text_offset_and_width(outer_w: int, content_width: int, align: Align) -> (int, int) {
    let natural = if outer_w < content_width {
        outer_w
    } else {
        content_width
    };
    let w = align_size_spec(align, content_width, natural);
    (align_offset_spec(align, content_width, natural), if w == 0 {
        content_width
    } else {
        w
    })
}

/// `f` is the planned fragment `v` placed from paginator `p0`, shifted by `dx` and `w` wide.
pub open spec fn text_fragment_is(f: TextFragment, v: TextFragView, p0: Paginator, dx: int, w: int) -> bool {
    &&& f.start == v.start
    &&& f.end == v.end
    &&& f.pos.y.0 == v.y
    &&& f.pos.x.0 == key_x(p0.page_config.margin@[3].0 as int, v.key) + dx
    &&& f.width.0 == w
    &&& f.page == p0.current_page_index + v.breaks
}

/// Error text for a line taller than an empty region.
/// Error text for a text block whose fragments would run past the range layout positions take.
pub open spec fn text_range_message(id: Seq<char>) -> Seq<char> {
    "UNSPLITTABLE_OVERFLOW: text '"@ + id + "' runs past the layout range"@
}

fn text_range_error(id: &str) -> (r: String)
    ensures
        r@ == text_range_message(id@),
{
    proof {
        reveal_strlit("UNSPLITTABLE_OVERFLOW: text '");
        reveal_strlit("' runs past the layout range");
    }
    join(join(owned("UNSPLITTABLE_OVERFLOW: text '"), id), "' runs past the layout range")
}

pub open spec fn line_too_tall_message(id: Seq<char>, line: int) -> Seq<char> {
    "UNSPLITTABLE_OVERFLOW: text '"@ + id + "' line "@ + decimal_text(line) + " taller than a page"@
}

/// The paginator after a region break is the region [`region_after_break`] describes.
pub proof fn lemma_region_break_view(before: Paginator, after: Paginator, p0: Paginator)
    requires
        before.wf(),
        before.mode == CanvasMode::Paged,
        before.page_config == p0.page_config,
        after.page_config == before.page_config,
        match before.column_band {
            None => {
                &&& after.current_page_index == before.current_page_index + 1
                &&& after.current_y == before.page_config.margin@[0]
                &&& after.column_band is None
            },
            Some(b) => if b.col + 1 < b.column_widths.len() {
                &&& after.column_band == Some(ColumnBand { col: (b.col + 1) as usize, ..b })
                &&& after.current_y == b.band_top
                &&& after.current_page_index == before.current_page_index
            } else {
                &&& after.current_page_index == before.current_page_index + 1
                &&& after.current_y.0 == before.page_config.margin@[0].0
                &&& before.page_bottom_spec() >= before.page_config.margin@[0].0 ==> (after.column_band matches Some(nb)
                    && band_restarted(nb, b, before.page_config.margin@[0].0 as int, before.page_bottom_spec()))
                &&& before.page_bottom_spec() < before.page_config.margin@[0].0 ==> after.column_band is None
            },
        },
    ensures
        region_of(after, p0) == region_after_break(
            region_of(before, p0),
            p0.page_config.margin@[0].0 as int,
            p0.page_bottom_spec(),
        ),
{
    match before.column_band {
        None => {},
        Some(b) => {
            if b.col + 1 < b.column_widths.len() {
            } else if before.page_bottom_spec() >= before.page_config.margin@[0].0 {
                let nb = after.column_band->Some_0;
                assert(nb.column_widths@ == b.column_widths@);
            }
        },
    }
}

/// Last line of the fragment that starts at `start` (see [`extend_end`]).
fn fragment_end(prep: &TextPages, start: usize, room: Pt) -> (end: usize)
    requires
        start < prep.layout.lines@.len(),
        pages_metrics_ok(*prep),
    ensures
        end == extend_end(*prep, start as int, start + 1, room.0 as int),
        start < end <= prep.layout.lines@.len(),
{
    let n = prep.layout.lines.len();
    let mut end = start + 1;
    while end < n
        invariant
            start < end <= n,
            n == prep.layout.lines@.len(),
            pages_metrics_ok(*prep),
            extend_end(*prep, start as int, start + 1, room.0 as int) == extend_end(*prep, start as int, end as int, room.0 as int),
        decreases n - end,
    {
        let h = fragment_height(prep, start, end + 1);
        if h.0 > room.0 {
            return end;
        }
        end = end + 1;
    }
    end
}

/// Place a splittable text block in paged flow, given its lines (`prep`).
///
/// The block goes whole below the cursor when it fits; whole at the top of the next page when it
/// fits an empty page (outside column bands); otherwise line by line, moving to the next region
/// when a line does not fit, and failing on a line taller than an empty region. A block without
/// lines that fits nowhere is left to unsplittable placement.
#[verifier::rlimit(40)]
pub fn place_splittable_text(
    node_id: &str,
    prep: &TextPages,
    content_width: Pt,
    align_mode: Align,
    paginator: &mut Paginator,
) -> (r: Result<TextPlacement, String>)
    requires
        old(paginator).wf(),
        old(paginator).mode == CanvasMode::Paged,
        pages_metrics_ok(*prep),
        crate::pagination::page_len_ok(content_width),
        -crate::pagination::page_bound() <= prep.outer_w.0,
        old(paginator).current_page_index + 2 * prep.layout.lines@.len() + 4 < usize::MAX,
    ensures
        final(paginator).wf(),
        final(paginator).page_config == old(paginator).page_config,
        final(paginator).mode == old(paginator).mode,
        forall|i: int| 0 <= i < old(paginator).pages@.len() ==> #[trigger] final(paginator).pages[i] == old(paginator).pages[i],
        ({
            let (dx, w) = text_offset_and_width(prep.outer_w.0 as int, content_width.0 as int, align_mode);
            match text_plan_for(*prep, *old(paginator)) {
                Ok(TextPlanView::Unsplittable) => r == Ok::<TextPlacement, String>(TextPlacement::Unsplittable)
                    && *final(paginator) == *old(paginator),
                Ok(TextPlanView::Fragments(vs)) => {
                    &&& r matches Ok(TextPlacement::Fragments(fs))
                    &&& fs.len() == vs.len()
                    &&& vs.len() > 0
                    &&& forall|k: int| 0 <= k < vs.len() ==> text_fragment_is(#[trigger] fs[k], vs[k], *old(paginator), dx, w)
                    &&& final(paginator).current_y.0 == vs.last().y + fragment_height_spec(*prep, vs.last().start, vs.last().end)
                    &&& final(paginator).current_page_index == old(paginator).current_page_index + vs.last().breaks
                    &&& band_key(*final(paginator)) == vs.last().key
                },
                Err(TextStop::LineTooTall(k)) => r is Err && r->Err_0@ == line_too_tall_message(node_id@, k),
                Err(TextStop::OutOfRange) => r is Err && r->Err_0@ == text_range_message(node_id@),
            }
        }),
{
    let ghost p0 = *paginator;
    let ghost pt = p0.page_config.margin@[0].0 as int;
    let ghost pb = p0.page_bottom_spec();
    let n = prep.layout.lines.len();
    let full_h = fragment_height(prep, 0, n);
    let natural = if prep.outer_w.0 < content_width.0 {
        prep.outer_w
    } else {
        content_width
    };
    let (dx, w0) = align_offset_and_size(align_mode, content_width, natural);
    let child_w = if w0.0 == 0 {
        content_width
    } else {
        w0
    };
    proof {
        assert(0 <= dx.0 <= 0x40_0000_0000_0000_0000_0000_0000);
        assert(crate::pagination::page_len_ok(p0.page_config.margin@[3]));
        match p0.column_band {
            Some(b) => {
                crate::pagination::lemma_column_x_bound(b.content_x.0 as int, b.column_widths@, b.gap.0 as int, b.col as int);
            },
            None => {},
        }
    }
    if full_h.0 <= paginator.remaining_height().0 {
        if !in_layout_range(paginator.current_y, full_h) {
            return Err(text_range_error(node_id));
        }
        let pos = paginator.allocate_space(full_h);
        let page = paginator.current_page_index;
        let mut out: Vec<TextFragment> = Vec::new();
        out.push(TextFragment { start: 0, end: n, pos: Point::new(Pt(pos.x.0 + dx.0), pos.y), width: child_w, page });
        return Ok(TextPlacement::Fragments(out));
    }
    if !paginator.in_column_band() && !paginator.at_content_top() && full_h.0 <= paginator.page_content_height().0 {
        let ghost before = *paginator;
        let _ = region_break(paginator);
        proof {
            lemma_region_break_view(before, *paginator, p0);
            assert(crate::pagination::page_len_ok(p0.page_config.margin@[3]));
        }
        if !in_layout_range(paginator.current_y, full_h) {
            return Err(text_range_error(node_id));
        }
        let pos = paginator.allocate_space(full_h);
        let page = paginator.current_page_index;
        let mut out: Vec<TextFragment> = Vec::new();
        out.push(TextFragment { start: 0, end: n, pos: Point::new(Pt(pos.x.0 + dx.0), pos.y), width: child_w, page });
        return Ok(TextPlacement::Fragments(out));
    }
    if n == 0 {
        return Ok(TextPlacement::Unsplittable);
    }
    let ghost lines_total = text_lines_plan(*prep, region_of(p0, p0), 0, pt, pb);
    let ghost mut done: Seq<TextFragView> = Seq::empty();
    let mut out: Vec<TextFragment> = Vec::new();
    let mut start: usize = 0;
    proof {
        assert(prepend_all(done, lines_total) == lines_total) by {
            match lines_total {
                Ok(s) => {
                    assert(done + s =~= s);
                },
                Err(e) => {},
            }
        }
    }
    while start < n
        invariant
            n == prep.layout.lines@.len(),
            0 < n,
            0 <= start <= n,
            pages_metrics_ok(*prep),
            0 <= dx.0 <= 0x40_0000_0000_0000_0000_0000_0000,
            dx.0 == text_offset_and_width(prep.outer_w.0 as int, content_width.0 as int, align_mode).0,
            child_w.0 == text_offset_and_width(prep.outer_w.0 as int, content_width.0 as int, align_mode).1,
            paginator.wf(),
            p0.wf(),
            p0 == *old(paginator),
            p0.mode == CanvasMode::Paged,
            paginator.mode == CanvasMode::Paged,
            paginator.page_config == p0.page_config,
            pt == p0.page_config.margin@[0].0,
            pb == p0.page_bottom_spec(),
            p0.current_page_index <= paginator.current_page_index <= p0.current_page_index + 2 * start,
            p0.current_page_index + 2 * n + 4 < usize::MAX,
            forall|i: int| 0 <= i < p0.pages@.len() ==> #[trigger] paginator.pages[i] == p0.pages[i],
            !(fragment_height_spec(*prep, 0, n as int) <= region_remaining(region_of(p0, p0))),
            !(p0.column_band is None && p0.current_y.0 != pt && fragment_height_spec(*prep, 0, n as int)
                <= region_height(region_of(p0, p0))),
            text_plan_for(*prep, p0) == match lines_total {
                Ok(s) => Ok(TextPlanView::Fragments(s)),
                Err(e) => Err::<TextPlanView, TextStop>(e),
            },
            lines_total == text_lines_plan(*prep, region_of(p0, p0), 0, pt, pb),
            lines_total == prepend_all(done, text_lines_plan(*prep, region_of(*paginator, p0), start as int, pt, pb)),
            out.len() == done.len(),
            forall|k: int| 0 <= k < done.len() ==> text_fragment_is(#[trigger] out[k], done[k], p0, dx.0 as int, child_w.0 as int),
            start > 0 ==> {
                &&& done.len() > 0
                &&& paginator.current_y.0 == done.last().y + fragment_height_spec(*prep, done.last().start, done.last().end)
                &&& paginator.current_page_index == p0.current_page_index + done.last().breaks
                &&& band_key(*paginator) == done.last().key
            },
        decreases n - start,
    {
        let ghost rv = region_of(*paginator, p0);
        let first_h = fragment_height(prep, start, start + 1);
        if first_h.0 > paginator.remaining_height().0 && !paginator.at_content_top() {
            let ghost before = *paginator;
            let _ = region_break(paginator);
            proof {
                lemma_region_break_view(before, *paginator, p0);
                assert forall|i: int| 0 <= i < p0.pages@.len() implies #[trigger] paginator.pages[i] == p0.pages[i] by {
                    assert(paginator.pages[i] == before.pages[i]);
                }
            }
        }
        let ghost rv1 = region_of(*paginator, p0);
        assert(rv1 == (if fragment_height_spec(*prep, start as int, start + 1) > region_remaining(rv) && rv.y != rv.top {
            region_after_break(rv, pt, pb)
        } else {
            rv
        }));
        if first_h.0 > paginator.page_content_height().0 {
            let m = join(join(owned("UNSPLITTABLE_OVERFLOW: text '"), node_id), "' line ");
            let m = join(m, decimal(start as i128).as_str());
            return Err(join(m, " taller than a page"));
        }
        let room = paginator.remaining_height();
        let end = fragment_end(prep, start, room);
        let h = fragment_height(prep, start, end);
        if !in_layout_range(paginator.current_y, h) {
            return Err(text_range_error(node_id));
        }
        let ghost before = *paginator;
        proof {
            assert(crate::pagination::page_len_ok(before.page_config.margin@[3]));
            match before.column_band {
                Some(b) => {
                    crate::pagination::lemma_column_x_bound(b.content_x.0 as int, b.column_widths@, b.gap.0 as int, b.col as int);
                    let k = b.col as int;
                    assert((2 * k + 1) * crate::pagination::page_bound() <= 0x100_0000_0000_0000_0000_0000_0000_0000) by (nonlinear_arith)
                        requires
                            0 <= k <= 0x10000,
                    ;
                },
                None => {},
            }
        }
        let pos = paginator.allocate_space(h);
        proof {
            assert forall|i: int| 0 <= i < p0.pages@.len() implies #[trigger] paginator.pages[i] == p0.pages[i] by {
                assert(paginator.pages[i] == before.pages[i]);
            }
        }
        let page = paginator.current_page_index;
        let ghost frag = TextFragView {
            start: start as int,
            end: end as int,
            y: pos.y.0 as int,
            key: rv1.key,
            breaks: paginator.current_page_index - p0.current_page_index,
        };
        out.push(TextFragment { start, end, pos: Point::new(Pt(pos.x.0 + dx.0), pos.y), width: child_w, page });
        proof {
            let rest = text_lines_plan(*prep, region_of(*paginator, p0), end as int, pt, pb);
            match rest {
                Ok(s) => {
                    assert(done + (seq![frag] + s) =~= done.push(frag) + s);
                },
                Err(e) => {},
            }
            done = done.push(frag);
        }
        start = end;
    }
    Ok(TextPlacement::Fragments(out))
}

/// Fragments cover lines `[from, to)` in order: each takes the lines the previous one left.
pub open spec fn fragments_tile(vs: Seq<TextFragView>, from: int, to: int) -> bool {
    &&& vs.len() > 0
    &&& vs[0].start == from
    &&& vs.last().end == to
    &&& forall|k: int| 0 <= k < vs.len() ==> (#[trigger] vs[k]).start <= vs[k].end
    &&& forall|k: int| 0 <= k < vs.len() - 1 ==> (#[trigger] vs[k]).end == vs[k + 1].start
}

proof fn lemma_text_lines_tile(prep: TextPages, rv: RegionView, start: int, pt: int, pb: int)
    requires
        0 <= start,
    ensures
        text_lines_plan(prep, rv, start, pt, pb) matches Ok(vs) ==> if start < prep.layout.lines@.len() {
            fragments_tile(vs, start, prep.layout.lines@.len() as int) && forall|k: int|
                0 <= k < vs.len() ==> (#[trigger] vs[k]).start < vs[k].end
        } else {
            vs.len() == 0
        },
    decreases prep.layout.lines@.len() - start,
{
    let n = prep.layout.lines@.len() as int;
    if start < n {
        let first_h = fragment_height_spec(prep, start, start + 1);
        let rv1 = if first_h > region_remaining(rv) && rv.y != rv.top {
            region_after_break(rv, pt, pb)
        } else {
            rv
        };
        let end = extend_end(prep, start, start + 1, region_remaining(rv1));
        let h = fragment_height_spec(prep, start, end);
        if first_h <= region_height(rv1) && fragment_in_range(rv1.y, h) {
            lemma_extend_end(prep, start, start + 1, region_remaining(rv1));
            let (fy, rv2) = region_allocate(rv1, h, pt, pb);
            lemma_text_lines_tile(prep, rv2, end, pt, pb);
            let f = TextFragView { start, end, y: fy, key: rv1.key, breaks: rv2.breaks };
            if let Ok(rest) = text_lines_plan(prep, rv2, end, pt, pb) {
                let vs = seq![f] + rest;
                assert forall|k: int| 0 <= k < vs.len() - 1 implies (#[trigger] vs[k]).end == vs[k + 1].start by {
                    if k > 0 {
                        assert(vs[k] == rest[k - 1]);
                        assert(vs[k + 1] == rest[k]);
                    }
                }
                assert forall|k: int| 0 <= k < vs.len() implies (#[trigger] vs[k]).start < vs[k].end by {
                    if k > 0 {
                        assert(vs[k] == rest[k - 1]);
                    }
                }
                if rest.len() > 0 {
                    assert(vs.last() == rest.last());
                }
            }
        }
    }
}

/// Law: a placed text block is cut into fragments that cover its lines in order, each fragment
/// taking the lines the previous one left (a block moved whole is one fragment).
pub proof fn law_text_fragments_tile_lines(prep: TextPages, p: Paginator)
    ensures
        text_plan_for(prep, p) matches Ok(TextPlanView::Fragments(vs)) ==> fragments_tile(
            vs,
            0,
            prep.layout.lines@.len() as int,
        ),
{
    lemma_text_lines_tile(prep, region_of(p, p), 0, p.page_config.margin@[0].0 as int, p.page_bottom_spec());
}

/// Where an unsplittable block went: its position (after alignment), width, height and page.
#[derive(Debug, PartialEq, Eq)]
pub struct BlockPlacement {
    pub pos: Point,
    pub width: Pt,
    pub height: Pt,
    pub page: usize,
}

/// Error text for an unsplittable block taller than an empty region.
pub open spec fn unsplittable_message(id: Seq<char>, height: int, region: int) -> Seq<char> {
    "UNSPLITTABLE_OVERFLOW: node '"@ + id + "' height "@ + decimal_text(height) + " exceeds page content height "@
        + decimal_text(region)
}

/// Place a block that never splits, of measured size `measured`, in the flow.
///
/// On pages it moves to the next region when it does not fit below the cursor (away from the
/// region top) and fails when it is taller than an empty region; on an infinite canvas it goes
/// at the cursor. It is aligned across the content width.
pub fn place_unsplittable(
    node_id: &str,
    measured: Size,
    content_width: Pt,
    align_mode: Align,
    canvas_mode: CanvasMode,
    paginator: &mut Paginator,
) -> (r: Result<BlockPlacement, String>)
    requires
        old(paginator).wf(),
        old(paginator).mode == canvas_mode,
        old(paginator).current_page_index + 3 < usize::MAX,
        crate::pagination::page_len_ok(content_width),
        -crate::pagination::page_bound() <= measured.width.0,
        crate::pagination::page_len_ok(measured.height),
        -crate::pagination::cursor_bound() <= old(paginator).current_y.0 + measured.height.0
            <= crate::pagination::cursor_bound(),
    ensures
        final(paginator).wf(),
        final(paginator).page_config == old(paginator).page_config,
        final(paginator).mode == old(paginator).mode,
        ({
            let p = *old(paginator);
            let h = measured.height.0 as int;
            let dx = align_offset_spec(align_mode, content_width.0 as int, measured.width.0 as int);
            let w = align_size_spec(align_mode, content_width.0 as int, measured.width.0 as int);
            if canvas_mode == CanvasMode::Paged {
                let pt = p.page_config.margin@[0].0 as int;
                let pb = p.page_bottom_spec();
                let rv = region_of(p, p);
                let rv1 = if h > region_remaining(rv) && rv.y != rv.top {
                    region_after_break(rv, pt, pb)
                } else {
                    rv
                };
                if h > region_height(rv1) {
                    r is Err && r->Err_0@ == unsplittable_message(node_id@, h, region_height(rv1))
                } else {
                    let (fy, rv2) = region_allocate(rv1, h, pt, pb);
                    &&& r matches Ok(b) && b.pos.y.0 == fy && b.pos.x.0 == key_x(
                        p.page_config.margin@[3].0 as int,
                        rv1.key,
                    ) + dx && b.width.0 == w && b.height == measured.height && b.page == p.current_page_index
                        + rv2.breaks
                    &&& region_of(*final(paginator), p) == rv2
                }
            } else {
                &&& r matches Ok(b) && b.pos.y == p.current_y && b.pos.x.0 == p.page_config.margin@[3].0 + dx
                    && b.width.0 == w && b.height == measured.height && b.page == p.current_page_index
                &&& final(paginator).current_y.0 == p.current_y.0 + h
            }
        }),
{
    let ghost p0 = *paginator;
    let (dx, child_w) = align_offset_and_size(align_mode, content_width, measured.width);
    if canvas_mode == CanvasMode::Paged {
        if measured.height.0 > paginator.remaining_height().0 && !paginator.at_content_top() {
            let ghost before = *paginator;
            let _ = region_break(paginator);
            proof {
                lemma_region_break_view(before, *paginator, p0);
            }
        }
        let region = paginator.page_content_height();
        if measured.height.0 > region.0 {
            let m = join(join(owned("UNSPLITTABLE_OVERFLOW: node '"), node_id), "' height ");
            let m = join(join(m, decimal(measured.height.0).as_str()), " exceeds page content height ");
            return Err(join(m, decimal(region.0).as_str()));
        }
    }
    let ghost before = *paginator;
    proof {
        assert(crate::pagination::page_len_ok(before.page_config.margin@[0]));
        assert(crate::pagination::page_len_ok(before.page_config.margin@[3]));
        match before.column_band {
            Some(b) => {
                crate::pagination::lemma_column_x_bound(b.content_x.0 as int, b.column_widths@, b.gap.0 as int, b.col as int);
                let k = b.col as int;
                assert((2 * k + 1) * crate::pagination::page_bound() <= 0x100_0000_0000_0000_0000_0000_0000_0000) by (nonlinear_arith)
                    requires
                        0 <= k <= 0x10000,
                ;
            },
            None => {},
        }
    }
    let pos = paginator.allocate_space(measured.height);
    let page = paginator.current_page_index;
    Ok(BlockPlacement { pos: Point::new(Pt(pos.x.0 + dx.0), pos.y), width: child_w, height: measured.height, page })
}

/// Height needed to start a keep-with-next group: each item's minimum start height, with the
/// gap between items.
pub open spec fn group_start_height(hs: Seq<Pt>, gap: int, k: int) -> int
    decreases k,
{
    if k <= 0 {
        0
    } else {
        group_start_height(hs, gap, k - 1) + (if k > 1 {
            gap
        } else {
            0
        }) + hs[k - 1].0
    }
}

proof fn lemma_group_start_height_bound(hs: Seq<Pt>, gap: int, k: int)
    requires
        0 <= k <= hs.len(),
        -crate::pagination::page_bound() <= gap <= crate::pagination::page_bound(),
        forall|i: int| 0 <= i < hs.len() ==> #[trigger] crate::pagination::page_len_ok(hs[i]),
    ensures
        -2 * k * crate::pagination::page_bound() <= group_start_height(hs, gap, k) <= 2 * k * crate::pagination::page_bound(),
    decreases k,
{
    if k > 0 {
        lemma_group_start_height_bound(hs, gap, k - 1);
        assert(crate::pagination::page_len_ok(hs[k - 1]));
    }
}

/// Keep a group together: away from the region top, move to the next region when the group's
/// minimum start heights (`min_heights`, with `gap` between items) do not fit below the cursor.
pub fn ensure_group_starts_together(min_heights: &[Pt], gap: Pt, paginator: &mut Paginator) -> (r: Result<(), String>)
    requires
        old(paginator).wf(),
        old(paginator).mode == CanvasMode::Paged,
        old(paginator).current_page_index + 1 < usize::MAX,
        min_heights.len() <= 0x100_0000,
        crate::pagination::page_len_ok(gap),
        forall|i: int| 0 <= i < min_heights.len() ==> #[trigger] crate::pagination::page_len_ok(min_heights[i]),
    ensures
        r is Ok,
        final(paginator).wf(),
        ({
            let p = *old(paginator);
            let rv = region_of(p, p);
            let moves = rv.y != rv.top && group_start_height(min_heights@, gap.0 as int, min_heights.len() as int)
                > region_remaining(rv);
            if moves {
                region_of(*final(paginator), p) == region_after_break(
                    rv,
                    p.page_config.margin@[0].0 as int,
                    p.page_bottom_spec(),
                ) && final(paginator).page_config == p.page_config && final(paginator).mode == p.mode
            } else {
                *final(paginator) == p
            }
        }),
{
    if paginator.at_content_top() {
        return Ok(());
    }
    let mut needed: i128 = 0;
    let mut k: usize = 0;
    while k < min_heights.len()
        invariant
            k <= min_heights.len() <= 0x100_0000,
            crate::pagination::page_len_ok(gap),
            forall|i: int| 0 <= i < min_heights.len() ==> #[trigger] crate::pagination::page_len_ok(min_heights[i]),
            needed == group_start_height(min_heights@, gap.0 as int, k as int),
        decreases min_heights.len() - k,
    {
        proof {
            lemma_group_start_height_bound(min_heights@, gap.0 as int, k as int);
            assert(crate::pagination::page_len_ok(min_heights@[k as int]));
            assert(2 * k * 0x10_0000_0000_0000_0000_0000_0000 <= 0x4000_0000_0000_0000_0000_0000_0000_0000) by (nonlinear_arith)
                requires
                    0 <= k <= 0x100_0000,
            ;
        }
        if k > 0 {
            needed = needed + gap.0;
        }
        needed = needed + min_heights[k].0;
        k = k + 1;
    }
    if needed > paginator.remaining_height().0 {
        let ghost before = *paginator;
        let r = region_break(paginator);
        proof {
            lemma_region_break_view(before, *paginator, before);
        }
        return r;
    }
    Ok(())
}

/// How a flow item is placed.
#[derive(Debug, Clone, Copy, PartialEq, Eq, Structural)]
pub enum PlaceKind {
    /// A columns container, laid out in column bands.
    Columns,
    /// A native table, split on row boundaries.
    Table,
    /// Text split into line fragments.
    SplittableText,
    /// A stack split at its children.
    SplittableStack,
    /// A block placed whole.
    Unsplittable,
}

/// How a flow item is placed: with fixed pages a columns container goes into column bands, a
/// table splits on rows, splittable text on lines and a splittable stack at its children;
/// everything else, and everything on an endless canvas, is placed whole.
pub open spec fn place_kind_spec(node: SemanticNode, mode: CanvasMode, split_stack: bool) -> PlaceKind {
    if mode == CanvasMode::Paged && node.layout matches Some(LayoutHint::Columns { .. }) {
        PlaceKind::Columns
    } else if mode == CanvasMode::Paged && node.content is Table {
        PlaceKind::Table
    } else if mode == CanvasMode::Paged && can_split_text_spec(node) {
        PlaceKind::SplittableText
    } else if mode == CanvasMode::Paged && split_stack {
        PlaceKind::SplittableStack
    } else {
        PlaceKind::Unsplittable
    }
}

/// Whether a node may split at its children (see [`can_split_stack`]): `None` when its padding
/// cannot be resolved.
pub open spec fn split_stack_spec(node: SemanticNode, ctx: LayoutContext) -> Option<bool> {
    if node.break_inside == BreakInside::Avoid || !(node.content is Container) || !can_split_stack_layout(node.layout) {
        Some(false)
    } else {
        match role_padding(node.role@, opt_text_view(node.variant), *ctx.theme) {
            None => None,
            Some(p) => Some(p.top.0 == 0 && p.right.0 == 0 && p.bottom.0 == 0 && p.left.0 == 0),
        }
    }
}

/// Decide how a flow item is placed (see [`place_kind_spec`]); fails when a stack's padding,
/// which decides whether it may split, cannot be resolved.
pub fn place_kind(node: &SemanticNode, mode: CanvasMode, ctx: &LayoutContext) -> (r: Result<PlaceKind, String>)
    ensures
        (mode == CanvasMode::Paged && !(node.layout matches Some(LayoutHint::Columns { .. })) && !(node.content is Table)
            && !can_split_text_spec(*node) && split_stack_spec(*node, *ctx) is None) ==> r is Err,
        !(mode == CanvasMode::Paged && !(node.layout matches Some(LayoutHint::Columns { .. })) && !(node.content is Table)
            && !can_split_text_spec(*node) && split_stack_spec(*node, *ctx) is None) ==> r is Ok && r->Ok_0
            == place_kind_spec(
            *node,
            mode,
            split_stack_spec(*node, *ctx) == Some(true),
        ),
{
    match mode {
        CanvasMode::Paged => {},
        _ => {
            return Ok(PlaceKind::Unsplittable);
        },
    }
    match &node.layout {
        Some(LayoutHint::Columns { .. }) => {
            return Ok(PlaceKind::Columns);
        },
        _ => {},
    }
    match &node.content {
        NodeContent::Table(_) => {
            return Ok(PlaceKind::Table);
        },
        _ => {},
    }
    if can_split_text(node) {
        return Ok(PlaceKind::SplittableText);
    }
    if can_split_stack(node, ctx)? {
        Ok(PlaceKind::SplittableStack)
    } else {
        Ok(PlaceKind::Unsplittable)
    }
}

/// Alignment of a flow item: its role's own, else its container's.
pub fn item_align(node: &SemanticNode, align_items: Align, ctx: &LayoutContext) -> (r: Align)
    ensures
        r == match self_align_spec(node.role@, opt_text_view(node.variant), *ctx.theme) {
            Some(a) => a,
            None => align_items,
        },
{
    let variant = match &node.variant {
        Some(v) => Some(v.as_str()),
        None => None,
    };
    match resolve_self_align(node.role.as_str(), variant, ctx.theme) {
        Some(a) => a,
        None => align_items,
    }
}

/// Gap and child alignment a split stack flows its children with (none and stretch without a
/// stack hint).
pub fn stack_flow_params(node: &SemanticNode) -> (r: (Pt, Align))
    ensures
        r == match node.layout {
            Some(LayoutHint::Stack { gap, align_items, .. }) => (Pt(gap as i128), align_items),
            _ => (Pt(0), Align::Stretch),
        },
{
    match &node.layout {
        Some(LayoutHint::Stack { gap, align_items, .. }) => (Pt(*gap as i128), *align_items),
        _ => (Pt(0), Align::Stretch),
    }
}

} // verus!
