use vstd::prelude::*;

use crate::layout_context::Point;
use crate::alignment::{align_offset_and_size, align_offset_spec, align_size_spec};
use crate::fixed_size::{subtract_if_bounded, subtract_if_bounded_spec};
use crate::grid::{
    gap_total, grid_avail_bound, grid_len_bound, grid_max_tracks, lemma_resolved_track_bound, resolve_outcome,
    resolve_tracks, seq_sum, sum_with_gaps,
};
use crate::layout_context::LayoutContext;
use crate::model::{Align, CanvasMode, GridTrack, NodeContent, SemanticNode, TableDataSource};
use crate::resolved_style::{
    law_padding_non_negative, lemma_padding_fits_i64, padding_for_role_variant, role_padding, EdgeInsets,
};
use crate::text_types::opt_text_view;
use crate::pagination::{column_x_spec, cursor_bound, page_bound, page_len_ok, Paginator};
use crate::pt::Pt;
use crate::text::{decimal, decimal_text, join, owned};

verus! {

/// Largest row count a table may have (its rows must fit in memory far below this).
pub open spec fn max_table_rows() -> int {
    0x1_0000_0000_0000 // 2^48
}

/// Row heights, gap and vertical padding of a table being split into page fragments:
/// measured heights are non-negative and bounded, the gap is a declared `i64`, and the
/// padding is the sum of two non-negative `i64` sides.
pub open spec fn table_rows_ok(hs: Seq<Pt>, gap: int, pad: int) -> bool {
    &&& hs.len() <= max_table_rows()
    &&& forall|i: int| 0 <= i < hs.len() ==> 0 <= #[trigger] hs[i].0 <= page_bound()
    &&& i64::MIN <= gap <= i64::MAX
    &&& 0 <= pad <= 2 * (i64::MAX as int)
}

/// Row indices `from, from + 1, .., to - 1`.
pub open spec fn index_range(from: int, to: int) -> Seq<usize> {
    Seq::new((to - from) as nat, |k: int| (from + k) as usize)
}

/// Greedy fill of one fragment: starting at row `i` with `used` height already taken, add rows
/// `i, i + 1, ..` (below `end`) while the padding plus the used height stays within `room`.
/// A row after another row also takes the gap. Gives the first row not taken and the used height.
pub open spec fn take_rows(hs: Seq<Pt>, i: int, end: int, gap: int, pad: int, room: int, used: int, nonempty: bool) -> (
    int,
    int,
)
    decreases end - i,
{
    if i < end {
        let add = if nonempty {
            gap + hs[i].0
        } else {
            hs[i].0 as int
        };
        if pad + (used + add) <= room {
            take_rows(hs, i + 1, end, gap, pad, room, used + add, true)
        } else {
            (i, used)
        }
    } else {
        (i, used)
    }
}

/// The greedy fill stops between `i` and `end`.
pub proof fn lemma_take_rows_range(hs: Seq<Pt>, i: int, end: int, gap: int, pad: int, room: int, used: int, nonempty: bool)
    requires
        i <= end,
    ensures
        i <= take_rows(hs, i, end, gap, pad, room, used, nonempty).0 <= end,
    decreases end - i,
{
    if i < end {
        let add = if nonempty {
            gap + hs[i].0
        } else {
            hs[i].0 as int
        };
        if pad + (used + add) <= room {
            lemma_take_rows_range(hs, i + 1, end, gap, pad, room, used + add, true);
        }
    }
}

/// What the greedy fill gives: it stops between `i` and `end`, keeps `used` when it takes
/// nothing, fits in `room` when it takes something, and never drops by more than one
/// (negative) gap per row taken.
pub proof fn lemma_take_rows(hs: Seq<Pt>, i: int, end: int, gap: int, pad: int, room: int, used: int, nonempty: bool)
    requires
        0 <= i <= end <= hs.len(),
        forall|k: int| 0 <= k < hs.len() ==> 0 <= #[trigger] hs[k].0,
    ensures
        ({
            let r = take_rows(hs, i, end, gap, pad, room, used, nonempty);
            &&& i <= r.0 <= end
            &&& r.0 == i ==> r.1 == used
            &&& r.0 > i ==> pad + r.1 <= room
            &&& gap >= i64::MIN ==> r.1 >= used - (r.0 - i) * 0x1_0000_0000_0000_0000
            &&& r.1 <= used || pad + r.1 <= room
        }),
    decreases end - i,
{
    if i < end {
        let add = if nonempty {
            gap + hs[i].0
        } else {
            hs[i].0 as int
        };
        if pad + (used + add) <= room {
            lemma_take_rows(hs, i + 1, end, gap, pad, room, used + add, true);
        }
    }
}

/// Stacked height of rows with `gap` between neighbours.
pub open spec fn rows_extent(hs: Seq<Pt>, gap: int) -> int
    decreases hs.len(),
{
    if hs.len() == 0 {
        0
    } else if hs.len() == 1 {
        hs[0].0 as int
    } else {
        rows_extent(hs.drop_last(), gap) + gap + hs.last().0
    }
}

/// The greedy fill stacks the rows it takes onto the rows `prior` already in the fragment.
pub proof fn lemma_take_rows_extent(
    hs: Seq<Pt>,
    i: int,
    end: int,
    gap: int,
    pad: int,
    room: int,
    base: int,
    prior: Seq<Pt>,
)
    requires
        0 <= i <= end <= hs.len(),
    ensures
        ({
            let r = take_rows(hs, i, end, gap, pad, room, base + rows_extent(prior, gap), prior.len() > 0);
            r.1 == base + rows_extent(prior + hs.subrange(i, r.0), gap)
        }),
    decreases end - i,
{
    let used = base + rows_extent(prior, gap);
    let r = take_rows(hs, i, end, gap, pad, room, used, prior.len() > 0);
    if i < end {
        let add = if prior.len() > 0 {
            gap + hs[i].0
        } else {
            hs[i].0 as int
        };
        if pad + (used + add) <= room {
            let p2 = prior.push(hs[i]);
            assert(p2.drop_last() =~= prior);
            assert(rows_extent(p2, gap) == rows_extent(prior, gap) + add);
            lemma_take_rows_extent(hs, i + 1, end, gap, pad, room, base, p2);
            lemma_take_rows_range(hs, i + 1, end, gap, pad, room, used + add, true);
            assert(p2 + hs.subrange(i + 1, r.0) =~= prior + hs.subrange(i, r.0));
        } else {
            assert(prior + hs.subrange(i, i) =~= prior);
        }
    } else {
        assert(prior + hs.subrange(i, i) =~= prior);
    }
}

/// Why a table could not be split into fragments.
pub enum PlanStop {
    /// The repeated header rows do not fit on an empty page.
    HeaderRows,
    /// This row (with the repeated headers) does not fit on an empty page.
    Row(int),
    /// The cursor would leave the range that page arithmetic supports.
    OutOfRange,
}

/// A planned table fragment: its rows (repeated headers first), their heights, the cursor y
/// where it starts, its height, and how many page breaks preceded it.
pub struct FragmentView {
    pub rows: Seq<usize>,
    /// How many of `rows` are repeated header rows.
    pub headers: int,
    pub heights: Seq<Pt>,
    pub y: int,
    pub height: int,
    pub breaks: int,
}

/// `done` followed by the fragments of `rest`, or the error of `rest`.
pub open spec fn prepend(done: Seq<FragmentView>, rest: Result<Seq<FragmentView>, PlanStop>) -> Result<
    Seq<FragmentView>,
    PlanStop,
> {
    match rest {
        Ok(s) => Ok(done + s),
        Err(e) => Err(e),
    }
}

/// A fragment height the cursor can take at `y`.
pub open spec fn fragment_in_range(y: int, height: int) -> bool {
    &&& -cursor_bound() / 2 <= height <= cursor_bound() / 2
    &&& -cursor_bound() <= y + height <= cursor_bound()
}

/// Whether a fragment of `height` placed at `y` stays in the layout range (see
/// [`fragment_in_range`]).
pub fn in_layout_range(y: Pt, height: Pt) -> (r: bool)
    requires
        -cursor_bound() <= y.0 <= cursor_bound(),
    ensures
        r == fragment_in_range(y.0 as int, height.0 as int),
{
    let half: i128 = 0x800_0000_0000_0000_0000_0000_0000_0000;
    let bound: i128 = 0x1000_0000_0000_0000_0000_0000_0000_0000;
    if height.0 < -half || height.0 > half {
        return false;
    }
    -bound <= y.0 + height.0 && y.0 + height.0 <= bound
}

/// Splitting a table on row boundaries, from row `next` with the cursor at `y` on a page whose
/// content spans `[top, bottom]`.
///
/// Each fragment after the first repeats the `h` header rows (once the body is past them),
/// then takes as many body rows as fit. When the headers or the first body row do not fit,
/// the table moves to the next page, unless the cursor is already at the top of a page: then
/// the table cannot be split.
pub open spec fn table_plan(
    hs: Seq<Pt>,
    h: int,
    gap: int,
    pad: int,
    top: int,
    bottom: int,
    y: int,
    breaks: int,
    first: bool,
    next: int,
) -> Result<Seq<FragmentView>, PlanStop>
    decreases hs.len() - next, (if y == top {
        0int
    } else {
        1int
    }),
{
    if 0 <= next < hs.len() && 0 <= h <= hs.len() && forall|k: int| 0 <= k < hs.len() ==> 0 <= #[trigger] hs[k].0 {
        let room = bottom - y;
        let at_top = y == top;
        let repeat = !first && h > 0 && next >= h;
        let hdr = take_rows(hs, 0, h, gap, pad, room, 0, false);
        if repeat && hdr.0 < h {
            if at_top {
                Err(PlanStop::HeaderRows)
            } else {
                table_plan(hs, h, gap, pad, top, bottom, top, breaks + 1, first, next)
            }
        } else {
            let used0 = if repeat {
                hdr.1
            } else {
                0
            };
            let body = take_rows(hs, next, hs.len() as int, gap, pad, room, used0, repeat);
            if body.0 <= next {
                if at_top {
                    Err(PlanStop::Row(next))
                } else {
                    table_plan(hs, h, gap, pad, top, bottom, top, breaks + 1, first, next)
                }
            } else {
                let height = pad + body.1;
                if !fragment_in_range(y, height) {
                    Err(PlanStop::OutOfRange)
                } else {
                    let frag = FragmentView {
                        rows: (if repeat {
                            index_range(0, h)
                        } else {
                            Seq::empty()
                        }) + index_range(next, body.0),
                        headers: if repeat {
                            h
                        } else {
                            0
                        },
                        heights: (if repeat {
                            hs.subrange(0, h)
                        } else {
                            Seq::empty()
                        }) + hs.subrange(next, body.0),
                        y,
                        height,
                        breaks,
                    };
                    proof {
                        lemma_take_rows_range(hs, next, hs.len() as int, gap, pad, room, used0, repeat);
                    }
                    prepend(seq![frag], table_plan(hs, h, gap, pad, top, bottom, y + height, breaks, false, body.0))
                }
            }
        }
    } else {
        Ok(Seq::empty())
    }
}

/// The column geometry that decides where a block lands: band start, widths, gap and column.
pub open spec fn band_key(p: Paginator) -> Option<(Pt, Seq<Pt>, Pt, usize)> {
    match p.column_band {
        Some(b) => Some((b.content_x, b.column_widths@, b.gap, b.col)),
        None => None,
    }
}

/// The column geometry after `breaks` page breaks from `p0`: unchanged before the first break,
/// then the band restarted at its first column (or gone when the page has no content height).
pub open spec fn band_key_after(p0: Paginator, breaks: int) -> Option<(Pt, Seq<Pt>, Pt, usize)> {
    if breaks == 0 {
        band_key(p0)
    } else {
        match p0.column_band {
            Some(b) => if p0.page_bottom_spec() >= p0.page_config.margin@[0].0 {
                Some((b.content_x, b.column_widths@, b.gap, 0usize))
            } else {
                None
            },
            None => None,
        }
    }
}

/// Left edge of a block placed under column geometry `key` (the page margin outside a band).
pub open spec fn key_x(left: int, key: Option<(Pt, Seq<Pt>, Pt, usize)>) -> int {
    match key {
        Some((cx, ws, g, c)) => column_x_spec(cx.0 as int, ws, g.0 as int, c as int),
        None => left,
    }
}

/// Left edge of a fragment placed after `breaks` page breaks from `p0`.
pub open spec fn fragment_x(p0: Paginator, breaks: int) -> int {
    key_x(p0.page_config.margin@[3].0 as int, band_key_after(p0, breaks))
}

/// The table split of `hs` for the paginator `p`, with at most as many header rows as rows.
pub open spec fn plan_for(hs: Seq<Pt>, header_rows: usize, gap: Pt, pad: Pt, p: Paginator) -> Result<
    Seq<FragmentView>,
    PlanStop,
> {
    table_plan(
        hs,
        if header_rows < hs.len() {
            header_rows as int
        } else {
            hs.len() as int
        },
        gap.0 as int,
        pad.0 as int,
        p.page_config.margin@[0].0 as int,
        p.page_bottom_spec(),
        p.current_y.0 as int,
        0,
        true,
        0,
    )
}

/// A placed table fragment: row indices into the table, their heights, where it starts,
/// its height and the page it lands on.
#[derive(Debug)]
pub struct TableFragment {
    pub rows: Vec<usize>,
    pub heights: Vec<Pt>,
    pub pos: Point,
    pub height: Pt,
    pub page: usize,
}

/// `f` is the planned fragment `v`, placed from paginator `p0`.
pub open spec fn fragment_is(f: TableFragment, v: FragmentView, p0: Paginator) -> bool {
    &&& f.rows@ == v.rows
    &&& f.heights@ == v.heights
    &&& f.pos.y.0 == v.y
    &&& f.pos.x.0 == fragment_x(p0, v.breaks)
    &&& f.height.0 == v.height
    &&& f.page == p0.current_page_index + v.breaks
}

/// Error text for header rows that do not fit on an empty page.
pub open spec fn header_rows_message(id: Seq<char>) -> Seq<char> {
    "Table '"@ + id + "' header rows do not fit on an empty page (cannot paginate)"@
}

/// Error text for a table whose fragments would run past the range layout positions take.
pub open spec fn table_range_message(id: Seq<char>) -> Seq<char> {
    "Table '"@ + id + "' runs past the layout range"@
}

/// Error text for a row that does not fit on an empty page.
pub open spec fn row_message(id: Seq<char>, row: int) -> Seq<char> {
    "Table '"@ + id + "' row "@ + decimal_text(row) + " does not fit on a page (cannot paginate on row boundaries)"@
}

/// Greedy fill of one fragment (see [`take_rows`]), pushing the rows taken and their heights.
fn take_rows_into(
    hs: &[Pt],
    from: usize,
    end: usize,
    gap: Pt,
    pad: Pt,
    room: i128,
    used_init: i128,
    nonempty_init: bool,
    rows: &mut Vec<usize>,
    heights: &mut Vec<Pt>,
) -> (r: (usize, i128))
    requires
        from <= end <= hs.len(),
        table_rows_ok(hs@, gap.0 as int, pad.0 as int),
        -2 * cursor_bound() <= room <= 2 * cursor_bound(),
        -0x2_0000_0000_0000_0000_0000_0000_0000 <= used_init <= 2 * cursor_bound(),
    ensures
        r.0 as int == take_rows(hs@, from as int, end as int, gap.0 as int, pad.0 as int, room as int, used_init as int, nonempty_init).0,
        r.1 as int == take_rows(hs@, from as int, end as int, gap.0 as int, pad.0 as int, room as int, used_init as int, nonempty_init).1,
        final(rows)@ == old(rows)@ + index_range(from as int, r.0 as int),
        final(heights)@ == old(heights)@ + hs@.subrange(from as int, r.0 as int),
{
    let ghost target = take_rows(hs@, from as int, end as int, gap.0 as int, pad.0 as int, room as int, used_init as int, nonempty_init);
    let mut i = from;
    let mut used = used_init;
    let mut nonempty = nonempty_init;
    while i < end
        invariant
            from <= i <= end <= hs.len(),
            table_rows_ok(hs@, gap.0 as int, pad.0 as int),
            -2 * cursor_bound() <= room <= 2 * cursor_bound(),
            -0x2_0000_0000_0000_0000_0000_0000_0000 <= used_init <= 2 * cursor_bound(),
            used >= used_init - (i - from) * 0x1_0000_0000_0000_0000,
            used <= used_init || pad.0 + used <= room,
            target == take_rows(hs@, from as int, end as int, gap.0 as int, pad.0 as int, room as int, used_init as int, nonempty_init),
            target == take_rows(hs@, i as int, end as int, gap.0 as int, pad.0 as int, room as int, used as int, nonempty),
            rows@ == old(rows)@ + index_range(from as int, i as int),
            heights@ == old(heights)@ + hs@.subrange(from as int, i as int),
        decreases end - i,
    {
        let h = hs[i];
        proof {
            assert(0 <= hs@[i as int].0 <= page_bound());
        }
        let add = if nonempty {
            gap.0 + h.0
        } else {
            h.0
        };
        if pad.0 + (used + add) <= room {
            rows.push(i);
            heights.push(h);
            proof {
                assert(rows@ =~= old(rows)@ + index_range(from as int, i + 1));
                assert(heights@ =~= old(heights)@ + hs@.subrange(from as int, i + 1));
            }
            used = used + add;
            nonempty = true;
            i = i + 1;
        } else {
            assert(take_rows(hs@, i as int, end as int, gap.0 as int, pad.0 as int, room as int, used as int, nonempty)
                == (i as int, used as int));
            return (i, used);
        }
    }
    (i, used)
}

proof fn lemma_prepend_push(done: Seq<FragmentView>, frag: FragmentView, rest: Result<Seq<FragmentView>, PlanStop>)
    ensures
        prepend(done, prepend(seq![frag], rest)) == prepend(done.push(frag), rest),
{
    match rest {
        Ok(s) => {
            assert(done + (seq![frag] + s) =~= done.push(frag) + s);
        },
        Err(e) => {},
    }
}

/// Split a table into page fragments on row boundaries, in paged mode.
///
/// `heights` are the measured row heights, `header_rows` the leading rows repeated at the top of
/// every continuation fragment, `gap` the space between rows and `pad` the table's vertical
/// padding. Each fragment is allocated from the paginator; an empty table is one padded box.
pub fn paginate_table_root_flow_paged(
    table_id: &str,
    heights: &[Pt],
    header_rows: usize,
    gap: Pt,
    pad: Pt,
    paginator: &mut Paginator,
) -> (r: Result<Vec<TableFragment>, String>)
    requires
        old(paginator).wf(),
        table_rows_ok(heights@, gap.0 as int, pad.0 as int),
        old(paginator).current_page_index + heights.len() + 3 < usize::MAX,
        heights.len() == 0 ==> -cursor_bound() <= old(paginator).current_y.0 + pad.0 <= cursor_bound(),
    ensures
        old(paginator).mode != CanvasMode::Paged ==> r is Err && *final(paginator) == *old(paginator),
        old(paginator).mode == CanvasMode::Paged ==> {
            &&& final(paginator).wf()
            &&& final(paginator).page_config == old(paginator).page_config
            &&& final(paginator).mode == old(paginator).mode
            &&& forall|i: int| 0 <= i < old(paginator).pages@.len() ==> #[trigger] final(paginator).pages[i] == old(paginator).pages[i]
        },
        old(paginator).mode == CanvasMode::Paged && heights.len() == 0 ==> {
            let p0 = *old(paginator);
            let moves = p0.column_band is None && p0.current_y.0 + pad.0 > p0.page_bottom_spec();
            &&& r is Ok
            &&& r->Ok_0.len() == 1
            &&& r->Ok_0[0].rows@.len() == 0
            &&& r->Ok_0[0].heights@.len() == 0
            &&& r->Ok_0[0].height == pad
            &&& r->Ok_0[0].pos.y == if moves {
                p0.page_config.margin@[0]
            } else {
                p0.current_y
            }
            &&& r->Ok_0[0].pos.x.0 == key_x(p0.page_config.margin@[3].0 as int, band_key(p0))
            &&& r->Ok_0[0].page == p0.current_page_index + if moves {
                1usize
            } else {
                0usize
            }
            &&& final(paginator).current_y.0 == r->Ok_0[0].pos.y.0 + pad.0
        },
        old(paginator).mode == CanvasMode::Paged && heights.len() > 0 ==> match plan_for(
            heights@,
            header_rows,
            gap,
            pad,
            *old(paginator),
        ) {
            Ok(frags) => {
                &&& r is Ok
                &&& r->Ok_0.len() == frags.len()
                &&& forall|k: int| 0 <= k < frags.len() ==> fragment_is(#[trigger] r->Ok_0[k], frags[k], *old(paginator))
                &&& frags.len() > 0
                &&& final(paginator).current_y.0 == frags.last().y + frags.last().height
                &&& final(paginator).current_page_index == old(paginator).current_page_index + frags.last().breaks
            },
            Err(PlanStop::HeaderRows) => r is Err && r->Err_0@ == header_rows_message(table_id@),
            Err(PlanStop::Row(k)) => r is Err && r->Err_0@ == row_message(table_id@, k),
            Err(PlanStop::OutOfRange) => r is Err && r->Err_0@ == table_range_message(table_id@),
        },
{
    if paginator.mode != CanvasMode::Paged {
        return Err(owned("paginate_table_root_flow_paged called in non-paged mode"));
    }
    let ghost p0 = *paginator;
    let n = heights.len();
    if n == 0 {
        let pos = paginator.allocate_space(pad);
        let page = paginator.current_page_index;
        let mut out: Vec<TableFragment> = Vec::new();
        out.push(TableFragment { rows: Vec::new(), heights: Vec::new(), pos, height: pad, page });
        return Ok(out);
    }
    let h = if header_rows < n {
        header_rows
    } else {
        n
    };
    proof {
        assert(page_len_ok(paginator.page_config.margin@[0]));
    }
    let top = paginator.page_config.margin[0];
    let bottom = paginator.page_bottom_limit();
    let ghost total = plan_for(heights@, header_rows, gap, pad, p0);
    let ghost mut done: Seq<FragmentView> = Seq::empty();
    let mut out: Vec<TableFragment> = Vec::new();
    let mut first = true;
    let mut next: usize = 0;
    proof {
        assert(prepend(done, total) == total) by {
            match total {
                Ok(s) => {
                    assert(done + s =~= s);
                },
                Err(e) => {},
            }
        }
    }
    while next < n
        invariant
            n == heights.len(),
            0 < n,
            h as int == if header_rows < n {
                header_rows as int
            } else {
                n as int
            },
            0 <= next <= n,
            table_rows_ok(heights@, gap.0 as int, pad.0 as int),
            paginator.wf(),
            p0 == *old(paginator),
            p0.mode == CanvasMode::Paged,
            p0.wf(),
            paginator.mode == CanvasMode::Paged,
            paginator.page_config == p0.page_config,
            top == p0.page_config.margin@[0],
            bottom.0 == p0.page_bottom_spec(),
            p0.current_page_index <= paginator.current_page_index,
            paginator.current_page_index - p0.current_page_index <= next + (if paginator.current_y == top {
                1int
            } else {
                0int
            }),
            p0.current_page_index + n + 3 < usize::MAX,
            forall|i: int| 0 <= i < p0.pages@.len() ==> #[trigger] paginator.pages[i] == p0.pages[i],
            band_key(*paginator) == band_key_after(p0, paginator.current_page_index - p0.current_page_index),
            total == plan_for(heights@, header_rows, gap, pad, p0),
            total == prepend(
                done,
                table_plan(
                    heights@,
                    h as int,
                    gap.0 as int,
                    pad.0 as int,
                    top.0 as int,
                    bottom.0 as int,
                    paginator.current_y.0 as int,
                    paginator.current_page_index - p0.current_page_index,
                    first,
                    next as int,
                ),
            ),
            out.len() == done.len(),
            forall|k: int| 0 <= k < done.len() ==> fragment_is(#[trigger] out[k], done[k], p0),
            first == (done.len() == 0),
            next > 0 ==> done.len() > 0,
            next == n ==> paginator.current_y.0 == done.last().y + done.last().height
                && paginator.current_page_index - p0.current_page_index == done.last().breaks,
        decreases n - next, (if paginator.current_y == top {
            0int
        } else {
            1int
        }),
    {
        let ghost breaks = paginator.current_page_index - p0.current_page_index;
        let y = paginator.current_y;
        proof {
            assert(page_len_ok(paginator.page_config.margin@[2]));
        }
        let room = bottom.0 - y.0;
        let at_top = y.0 == top.0;
        let repeat = !first && h > 0 && next >= h;
        let ghost cur = table_plan(
            heights@,
            h as int,
            gap.0 as int,
            pad.0 as int,
            top.0 as int,
            bottom.0 as int,
            y.0 as int,
            breaks,
            first,
            next as int,
        );
        let mut rows: Vec<usize> = Vec::new();
        let mut hts: Vec<Pt> = Vec::new();
        let mut used: i128 = 0;
        let ghost hdr = take_rows(heights@, 0, h as int, gap.0 as int, pad.0 as int, room as int, 0, false);
        if repeat {
            let (hend, hused) = take_rows_into(heights, 0, h, gap, pad, room, 0, false, &mut rows, &mut hts);
            proof {
                lemma_take_rows(heights@, 0, h as int, gap.0 as int, pad.0 as int, room as int, 0, false);
            }
            if hend < h {
                if !at_top {
                    let ghost before = *paginator;
                    paginator.page_break();
                    proof {
                        assert forall|i: int| 0 <= i < p0.pages@.len() implies #[trigger] paginator.pages[i] == p0.pages[i] by {
                            assert(paginator.pages[i] == before.pages[i]);
                        }
                    }
                    continue;
                }
                return Err(join(join(owned("Table '"), table_id), "' header rows do not fit on an empty page (cannot paginate)"));
            }
            used = hused;
        }
        let (bend, bused) = take_rows_into(heights, next, n, gap, pad, room, used, repeat, &mut rows, &mut hts);
        proof {
            lemma_take_rows(heights@, next as int, n as int, gap.0 as int, pad.0 as int, room as int, used as int, repeat);
        }
        if bend == next {
            if !at_top {
                let ghost before = *paginator;
                paginator.page_break();
                proof {
                    assert forall|i: int| 0 <= i < p0.pages@.len() implies #[trigger] paginator.pages[i] == p0.pages[i] by {
                        assert(paginator.pages[i] == before.pages[i]);
                    }
                }
                continue;
            }
            let m = join(join(owned("Table '"), table_id), "' row ");
            let m = join(m, decimal(next as i128).as_str());
            return Err(join(m, " does not fit on a page (cannot paginate on row boundaries)"));
        }
        let height = Pt(pad.0 + bused);
        let half: i128 = 0x800_0000_0000_0000_0000_0000_0000_0000;
        let bound: i128 = 0x1000_0000_0000_0000_0000_0000_0000_0000;
        if !(-half <= height.0 && height.0 <= half && -bound <= y.0 + height.0 && y.0 + height.0 <= bound) {
            proof {
                reveal_strlit("Table '");
                reveal_strlit("' runs past the layout range");
            }
            return Err(join(join(owned("Table '"), table_id), "' runs past the layout range"));
        }
        let ghost before = *paginator;
        let pos = paginator.allocate_space(height);
        proof {
            assert forall|i: int| 0 <= i < p0.pages@.len() implies #[trigger] paginator.pages[i] == p0.pages[i] by {
                assert(paginator.pages[i] == before.pages[i]);
            }
        }
        let page = paginator.current_page_index;
        let ghost frag = FragmentView {
            rows: rows@,
            headers: if repeat {
                h as int
            } else {
                0
            },
            heights: hts@,
            y: y.0 as int,
            height: height.0 as int,
            breaks,
        };
        out.push(TableFragment { rows, heights: hts, pos, height, page });
        proof {
            lemma_prepend_push(done, frag, table_plan(
                heights@,
                h as int,
                gap.0 as int,
                pad.0 as int,
                top.0 as int,
                bottom.0 as int,
                y.0 + height.0,
                breaks,
                false,
                bend as int,
            ));
            done = done.push(frag);
        }
        first = false;
        next = bend;
    }
    Ok(out)
}

/// The body rows of a fragment: its rows after the repeated headers.
pub open spec fn body_rows(f: FragmentView) -> Seq<usize> {
    f.rows.skip(f.headers)
}

/// The body rows of all fragments, in fragment order.
pub open spec fn all_body_rows(frags: Seq<FragmentView>) -> Seq<usize>
    decreases frags.len(),
{
    if frags.len() == 0 {
        Seq::empty()
    } else {
        body_rows(frags[0]) + all_body_rows(frags.drop_first())
    }
}

/// A fragment's headers are rows `0..headers`, followed by a non-empty body; a fragment that is
/// not the table's first repeats all `h` headers once its body is past them, and the first
/// repeats none.
pub open spec fn fragment_headers_ok(f: FragmentView, h: int, later: bool) -> bool {
    &&& 0 <= f.headers <= f.rows.len()
    &&& body_rows(f).len() > 0
    &&& f.rows.take(f.headers) == index_range(0, f.headers)
    &&& f.headers == if later && h > 0 && body_rows(f)[0] >= h {
        h
    } else {
        0
    }
}

/// Every fragment is its padding plus its rows stacked with `gap`, and ends above `bottom`.
pub open spec fn fragments_fit(frags: Seq<FragmentView>, gap: int, pad: int, bottom: int) -> bool {
    forall|k: int|
        0 <= k < frags.len() ==> {
            &&& (#[trigger] frags[k]).height == pad + rows_extent(frags[k].heights, gap)
            &&& frags[k].y + frags[k].height <= bottom
        }
}

/// Every fragment repeats its headers as [`fragment_headers_ok`] says, counting from a plan
/// that starts with the table's first fragment when `first`.
pub open spec fn headers_repeated(frags: Seq<FragmentView>, h: int, first: bool) -> bool {
    forall|k: int| 0 <= k < frags.len() ==> fragment_headers_ok(#[trigger] frags[k], h, k > 0 || !first)
}

proof fn lemma_fragment_headers(f: FragmentView, h: int, first: bool, next: int, bend: int)
    requires
        0 <= h,
        0 <= next < bend <= usize::MAX,
        f.rows == (if !first && h > 0 && next >= h {
            index_range(0, h)
        } else {
            Seq::empty()
        }) + index_range(next, bend),
        f.headers == if !first && h > 0 && next >= h {
            h
        } else {
            0
        },
    ensures
        body_rows(f) == index_range(next, bend),
        fragment_headers_ok(f, h, !first),
{
    let hd: Seq<usize> = if !first && h > 0 && next >= h {
        index_range(0, h)
    } else {
        Seq::empty()
    };
    assert(body_rows(f) =~= index_range(next, bend));
    assert(f.rows.take(f.headers) =~= index_range(0, f.headers));
    assert(body_rows(f)[0] == next as usize);
}

proof fn lemma_index_range_concat(a: int, b: int, c: int)
    requires
        0 <= a <= b <= c,
    ensures
        index_range(a, b) + index_range(b, c) == index_range(a, c),
{
    assert(index_range(a, b) + index_range(b, c) =~= index_range(a, c));
}

proof fn lemma_fragment_fits(hs: Seq<Pt>, h: int, gap: int, pad: int, room: int, first: bool, next: int)
    requires
        0 <= next < hs.len(),
        0 <= h <= hs.len(),
        forall|k: int| 0 <= k < hs.len() ==> 0 <= #[trigger] hs[k].0,
        ({
            let repeat = !first && h > 0 && next >= h;
            let hdr = take_rows(hs, 0, h, gap, pad, room, 0, false);
            !(repeat && hdr.0 < h)
        }),
    ensures
        ({
            let repeat = !first && h > 0 && next >= h;
            let hdr = take_rows(hs, 0, h, gap, pad, room, 0, false);
            let used0 = if repeat {
                hdr.1
            } else {
                0
            };
            let body = take_rows(hs, next, hs.len() as int, gap, pad, room, used0, repeat);
            let prior: Seq<Pt> = if repeat {
                hs.subrange(0, h)
            } else {
                Seq::empty()
            };
            body.0 > next ==> body.1 == rows_extent(prior + hs.subrange(next, body.0), gap) && pad + body.1 <= room
        }),
{
    let repeat = !first && h > 0 && next >= h;
    let hdr = take_rows(hs, 0, h, gap, pad, room, 0, false);
    let used0 = if repeat {
        hdr.1
    } else {
        0
    };
    let prior: Seq<Pt> = if repeat {
        hs.subrange(0, h)
    } else {
        Seq::empty()
    };
    if repeat {
        lemma_take_rows_extent(hs, 0, h, gap, pad, room, 0, Seq::empty());
        lemma_take_rows_range(hs, 0, h, gap, pad, room, 0, false);
        assert(Seq::<Pt>::empty() + hs.subrange(0, h) =~= prior);
    }
    lemma_take_rows_extent(hs, next, hs.len() as int, gap, pad, room, 0, prior);
    lemma_take_rows(hs, next, hs.len() as int, gap, pad, room, used0, repeat);
}

proof fn lemma_plan_rows(hs: Seq<Pt>, h: int, gap: int, pad: int, top: int, bottom: int, y: int, breaks: int, first: bool, next: int)
    requires
        0 <= next <= hs.len() <= usize::MAX,
        0 <= h <= hs.len(),
        forall|k: int| 0 <= k < hs.len() ==> 0 <= #[trigger] hs[k].0,
    ensures
        table_plan(hs, h, gap, pad, top, bottom, y, breaks, first, next) matches Ok(frags) ==> {
            &&& all_body_rows(frags) == index_range(next, hs.len() as int)
            &&& headers_repeated(frags, h, first)
            &&& fragments_fit(frags, gap, pad, bottom)
        },
    decreases hs.len() - next, (if y == top {
        0int
    } else {
        1int
    }),
{
    if next < hs.len() {
        let room = bottom - y;
        let at_top = y == top;
        let repeat = !first && h > 0 && next >= h;
        let hdr = take_rows(hs, 0, h, gap, pad, room, 0, false);
        if repeat && hdr.0 < h {
            if !at_top {
                lemma_plan_rows(hs, h, gap, pad, top, bottom, top, breaks + 1, first, next);
            }
        } else {
            let used0 = if repeat {
                hdr.1
            } else {
                0
            };
            let body = take_rows(hs, next, hs.len() as int, gap, pad, room, used0, repeat);
            lemma_take_rows_range(hs, next, hs.len() as int, gap, pad, room, used0, repeat);
            if body.0 <= next {
                if !at_top {
                    lemma_plan_rows(hs, h, gap, pad, top, bottom, top, breaks + 1, first, next);
                }
            } else if fragment_in_range(y, pad + body.1) {
                let height = pad + body.1;
                lemma_plan_rows(hs, h, gap, pad, top, bottom, y + height, breaks, false, body.0);
                let rest = table_plan(hs, h, gap, pad, top, bottom, y + height, breaks, false, body.0);
                if let Ok(tail) = rest {
                    let frags = table_plan(hs, h, gap, pad, top, bottom, y, breaks, first, next)->Ok_0;
                    let f = frags[0];
                    assert(frags == seq![f] + tail);
                    assert(frags.drop_first() =~= tail);
                    lemma_fragment_headers(f, h, first, next, body.0);
                    lemma_index_range_concat(next, body.0, hs.len() as int);
                    assert forall|k: int| 0 <= k < frags.len() implies fragment_headers_ok(#[trigger] frags[k], h, k > 0 || !first) by {
                        if k > 0 {
                            assert(frags[k] == tail[k - 1]);
                        }
                    }
                    lemma_fragment_fits(hs, h, gap, pad, bottom - y, first, next);
                    assert(f.heights == (if repeat {
                        hs.subrange(0, h)
                    } else {
                        Seq::empty()
                    }) + hs.subrange(next, body.0));
                    assert forall|k: int| 0 <= k < frags.len() implies {
                        &&& (#[trigger] frags[k]).height == pad + rows_extent(frags[k].heights, gap)
                        &&& frags[k].y + frags[k].height <= bottom
                    } by {
                        if k > 0 {
                            assert(frags[k] == tail[k - 1]);
                        }
                    }
                }
            }
        }
    }
}

/// Law: a table is split on row boundaries. The body rows of the fragments are every row of
/// the table exactly once, in order; each fragment is its padding plus its rows stacked with
/// the gap, and ends above the page bottom; the first fragment repeats no header, and every
/// later fragment whose body is past the headers starts with the header rows.
pub proof fn law_table_split_on_row_boundaries(hs: Seq<Pt>, header_rows: usize, gap: Pt, pad: Pt, p: Paginator)
    requires
        hs.len() <= usize::MAX,
        forall|k: int| 0 <= k < hs.len() ==> 0 <= #[trigger] hs[k].0,
    ensures
        plan_for(hs, header_rows, gap, pad, p) matches Ok(frags) ==> {
            &&& all_body_rows(frags) == index_range(0, hs.len() as int)
            &&& fragments_fit(frags, gap.0 as int, pad.0 as int, p.page_bottom_spec())
            &&& headers_repeated(
                frags,
                if header_rows < hs.len() {
                    header_rows as int
                } else {
                    hs.len() as int
                },
                true,
            )
        },
{
    let h = if header_rows < hs.len() {
        header_rows as int
    } else {
        hs.len() as int
    };
    lemma_plan_rows(
        hs,
        h,
        gap.0 as int,
        pad.0 as int,
        p.page_config.margin@[0].0 as int,
        p.page_bottom_spec(),
        p.current_y.0 as int,
        0,
        true,
        0,
    );
}

/// Sum of the first `k` lengths of `xs`.
pub open spec fn int_sum(xs: Seq<int>, k: int) -> int
    decreases k,
{
    if k <= 0 {
        0
    } else {
        int_sum(xs, k - 1) + xs[k - 1]
    }
}

proof fn lemma_sum_of_view(items: Seq<Pt>, xs: Seq<int>, k: int)
    requires
        0 <= k <= items.len() == xs.len(),
        forall|i: int| 0 <= i < xs.len() ==> #[trigger] items[i].0 == xs[i],
    ensures
        seq_sum(items, k) == int_sum(xs, k),
    decreases k,
{
    if k > 0 {
        lemma_sum_of_view(items, xs, k - 1);
    }
}

/// Horizontal geometry of a table's fragments in the root flow: the natural width of its
/// columns (resolved within the content width less padding) plus padding, capped by the content
/// width and aligned; then the columns resolved again within the fragment's inner width.
/// Gives the offset, the fragment width and the column sizes.
pub open spec fn table_width_plan(tracks: Seq<GridTrack>, gap: int, content_width: int, align: Align, pad_h: int) -> Option<
    (int, int, Seq<int>),
> {
    if exists|i: int| 0 <= i < tracks.len() && #[trigger] tracks[i] is Auto {
        None
    } else {
        let inner_max = subtract_if_bounded_spec(content_width, pad_h);
        match resolve_outcome(tracks, gap, inner_max, Seq::empty()) {
            None => None,
            Some(natural_cols) => {
                let natural = int_sum(natural_cols, natural_cols.len() as int) + gap_total(gap, natural_cols.len() as int)
                    + pad_h;
                let natural_outer = if natural > content_width {
                    content_width
                } else {
                    natural
                };
                let dx = align_offset_spec(align, content_width, natural_outer);
                let w = align_size_spec(align, content_width, natural_outer);
                match resolve_outcome(tracks, gap, subtract_if_bounded_spec(w, pad_h), Seq::empty()) {
                    None => None,
                    Some(cols) => Some((dx, w, cols)),
                }
            },
        }
    }
}

/// Where a table's fragments sit across the content width, their column sizes and padding.
#[derive(Debug)]
pub struct TableFragmentWidth {
    /// Offset of every fragment from the content's left edge.
    pub dx: Pt,
    pub width: Pt,
    pub col_sizes: Vec<Pt>,
    pub padding: EdgeInsets,
}

/// Horizontal geometry of a table in the paged root flow (see [`table_width_plan`]).
///
/// Fails outside paged mode, for a node that is not a table, for a role whose padding does not
/// resolve, for a table whose rows come from an asset, and when the columns do not resolve.
pub fn table_fragment_width(
    node: &SemanticNode,
    mode: CanvasMode,
    content_width: Pt,
    align_mode: Align,
    ctx: &LayoutContext,
) -> (r: Result<TableFragmentWidth, String>)
    requires
        -grid_avail_bound() <= content_width.0 <= grid_avail_bound(),
        match node.content {
            NodeContent::Table(spec) => spec.column_widths.len() <= grid_max_tracks() && -grid_len_bound() <= spec.gap
                <= grid_len_bound(),
            _ => true,
        },
    ensures
        mode != CanvasMode::Paged ==> r is Err,
        mode == CanvasMode::Paged ==> match node.content {
            NodeContent::Table(spec) => match role_padding(node.role@, opt_text_view(node.variant), *ctx.theme) {
                None => r is Err,
                Some(pad) => match spec.data {
                    TableDataSource::Asset { .. } => r is Err,
                    TableDataSource::Inline { .. } => match table_width_plan(
                        spec.column_widths@,
                        spec.gap as int,
                        content_width.0 as int,
                        align_mode,
                        pad.horizontal_spec(),
                    ) {
                        None => r is Err,
                        Some((dx, w, cols)) => {
                            &&& r is Ok
                            &&& r->Ok_0.dx.0 == dx
                            &&& r->Ok_0.width.0 == w
                            &&& r->Ok_0.col_sizes.len() == cols.len()
                            &&& forall|i: int| 0 <= i < cols.len() ==> #[trigger] r->Ok_0.col_sizes[i].0 == cols[i]
                            &&& r->Ok_0.padding == pad
                        },
                    },
                },
            },
            _ => r is Err,
        },
{
    if mode != CanvasMode::Paged {
        return Err(owned("paginate_table_root_flow_paged called in non-paged mode"));
    }
    let spec = match &node.content {
        NodeContent::Table(spec) => spec,
        _ => {
            return Err(owned("paginate_table_root_flow_paged called for non-table node"));
        },
    };
    let variant = match &node.variant {
        Some(v) => Some(v.as_str()),
        None => None,
    };
    let padding = padding_for_role_variant(node.role.as_str(), variant, ctx.theme)?;
    proof {
        lemma_padding_fits_i64(node.role@, opt_text_view(node.variant), *ctx.theme);
        law_padding_non_negative(node.role@, opt_text_view(node.variant), *ctx.theme);
    }
    let gap = Pt(spec.gap as i128);
    match &spec.data {
        TableDataSource::Inline { .. } => {},
        TableDataSource::Asset { source } => {
            let m = join(join(owned("Table '"), node.id.as_str()), "' uses asset-backed data source '");
            let m = join(join(m, source.as_str()), "'. Compile must expand assets before pagination/layout.");
            return Err(m);
        },
    }
    let pad_h = padding.horizontal();
    let inner_max_w = subtract_if_bounded(content_width, pad_h);
    let natural_cols = resolve_tracks(&spec.column_widths, gap, inner_max_w)?;
    let ghost tracks = spec.column_widths@;
    proof {
        assert forall|i: int| 0 <= i < natural_cols.len() implies -crate::pt::pt_bound() <= #[trigger] natural_cols@[i].0
            <= crate::pt::pt_bound() by {
            lemma_resolved_track_bound(tracks, gap.0 as int, inner_max_w.0 as int, i);
        }
    }
    let natural_inner = sum_with_gaps(&natural_cols, gap);
    let ghost ncols = resolve_outcome(tracks, gap.0 as int, inner_max_w.0 as int, Seq::<Pt>::empty())->Some_0;
    proof {
        lemma_sum_of_view(natural_cols@, ncols, ncols.len() as int);
        crate::grid::lemma_seq_sum_bounds(natural_cols@, natural_cols@.len() as int);
        let k = natural_cols@.len() as int;
        assert(k * 0x1000_0000_0000_0000_0000_0000_0000 <= 0x1000_0000_0000_0000_0000_0000_0000_0000) by (nonlinear_arith)
            requires
                0 <= k <= 0x10000,
        ;
        let m = if natural_cols@.len() > 0 { natural_cols@.len() - 1 } else { 0 };
        assert(-0x10_0000_0000_0000_0000 <= gap.0 * m <= 0x10_0000_0000_0000_0000) by (nonlinear_arith)
            requires
                -0x4_0000_0000_0000 <= gap.0 <= 0x4_0000_0000_0000,
                0 <= m <= 0x10000,
        ;
    }
    let natural = Pt(natural_inner.0 + pad_h.0);
    let natural_outer = if natural.0 > content_width.0 {
        content_width
    } else {
        natural
    };
    let (dx, frag_w) = align_offset_and_size(align_mode, content_width, natural_outer);
    let frag_inner_w = subtract_if_bounded(frag_w, pad_h);
    let col_sizes = resolve_tracks(&spec.column_widths, gap, frag_inner_w)?;
    Ok(TableFragmentWidth { dx, width: frag_w, col_sizes, padding })
}

} // verus!
