use vstd::prelude::*;

use crate::model::GridTrack;
use crate::pt::{trunc_div, Pt};

verus! {

// ---------------------------------------------------------------------------------------------
// Mathematical model of one grid axis.
// ---------------------------------------------------------------------------------------------

/// Bound on the magnitude of gaps and content sizes handed to track resolution.
pub open spec fn grid_len_bound() -> int {
    0x4_0000_0000_0000 // 2^50
}

/// Bound on the magnitude of a finite `available` extent.
pub open spec fn grid_avail_bound() -> int {
    0x400_0000_0000_0000_0000_0000 // 2^90
}

/// Most tracks on one axis.
pub open spec fn grid_max_tracks() -> int {
    0x10000
}

/// Fixed points of a track (0 for the other kinds).
pub open spec fn pt_of(t: GridTrack) -> int {
    match t {
        GridTrack::Pt { pt } => pt as int,
        _ => 0,
    }
}

/// Fraction weight of a track (0 for the other kinds).
pub open spec fn fr_of(t: GridTrack) -> int {
    match t {
        GridTrack::Fr { fr } => fr as int,
        _ => 0,
    }
}

/// Sum of the fixed-point tracks among the first `k`.
pub open spec fn pt_sum(tracks: Seq<GridTrack>, k: int) -> int
    decreases k,
{
    if k <= 0 {
        0
    } else {
        pt_sum(tracks, k - 1) + pt_of(tracks[k - 1])
    }
}

/// Sum of the fraction weights among the first `k` tracks.
pub open spec fn fr_sum(tracks: Seq<GridTrack>, k: int) -> int
    decreases k,
{
    if k <= 0 {
        0
    } else {
        fr_sum(tracks, k - 1) + fr_of(tracks[k - 1])
    }
}

/// Number of `Fr` tracks among the first `k` (weight 0 included).
pub open spec fn fr_count(tracks: Seq<GridTrack>, k: int) -> int
    decreases k,
{
    if k <= 0 {
        0
    } else {
        fr_count(tracks, k - 1) + if tracks[k - 1] is Fr { 1int } else { 0int }
    }
}

/// Content size of track `i` when it is `auto` (missing sizes count as 0), else 0.
pub open spec fn auto_content(tracks: Seq<GridTrack>, sizes: Seq<Pt>, i: int) -> int {
    if tracks[i] is Auto {
        if i < sizes.len() {
            sizes[i].0 as int
        } else {
            0
        }
    } else {
        0
    }
}

/// Sum of the auto content sizes among the first `k` tracks.
pub open spec fn auto_sum(tracks: Seq<GridTrack>, sizes: Seq<Pt>, k: int) -> int
    decreases k,
{
    if k <= 0 {
        0
    } else {
        auto_sum(tracks, sizes, k - 1) + auto_content(tracks, sizes, k - 1)
    }
}

/// Total of the gaps between `n` tracks.
pub open spec fn gap_total(gap: int, n: int) -> int {
    gap * (if n > 0 { n - 1 } else { 0 })
}

/// Room left for auto tracks after fixed tracks and gaps (never negative).
pub open spec fn fit_room(tracks: Seq<GridTrack>, gap: int, available: int) -> int {
    let r = available - pt_sum(tracks, tracks.len() as int) - gap_total(gap, tracks.len() as int);
    if r > 0 {
        r
    } else {
        0
    }
}

/// True when the auto tracks overflow a bounded axis and must shrink.
pub open spec fn fit_shrinks(tracks: Seq<GridTrack>, sizes: Seq<Pt>, gap: int, available: int) -> bool {
    &&& available != i128::MAX
    &&& tracks.len() > 0
    &&& auto_sum(tracks, sizes, tracks.len() as int) > fit_room(tracks, gap, available)
}

/// Proportional share of the room given to auto track `i` when shrinking.
pub open spec fn auto_share(tracks: Seq<GridTrack>, sizes: Seq<Pt>, gap: int, available: int, i: int) -> int {
    if tracks[i] is Auto {
        trunc_div(
            auto_content(tracks, sizes, i) * fit_room(tracks, gap, available),
            auto_sum(tracks, sizes, tracks.len() as int),
        )
    } else {
        0
    }
}

/// Sum of the proportional shares among the first `k` tracks.
pub open spec fn share_sum(tracks: Seq<GridTrack>, sizes: Seq<Pt>, gap: int, available: int, k: int) -> int
    decreases k,
{
    if k <= 0 {
        0
    } else {
        share_sum(tracks, sizes, gap, available, k - 1) + auto_share(tracks, sizes, gap, available, k - 1)
    }
}

/// Index of the last auto track among the first `k`, or -1.
pub open spec fn last_auto(tracks: Seq<GridTrack>, k: int) -> int
    decreases k,
{
    if k <= 0 {
        -1
    } else if tracks[k - 1] is Auto {
        k - 1
    } else {
        last_auto(tracks, k - 1)
    }
}

/// Size of auto track `i` after fitting the axis (0 for other tracks).
///
/// Autos keep their content size unless they overflow a bounded axis; then each gets its
/// proportional share of the room and the last auto track takes the rounding leftover.
pub open spec fn fitted_auto(tracks: Seq<GridTrack>, sizes: Seq<Pt>, gap: int, available: int, i: int) -> int {
    if !fit_shrinks(tracks, sizes, gap, available) {
        auto_content(tracks, sizes, i)
    } else {
        auto_share(tracks, sizes, gap, available, i) + if i == last_auto(tracks, tracks.len() as int) {
            fit_room(tracks, gap, available) - share_sum(tracks, sizes, gap, available, tracks.len() as int)
        } else {
            0
        }
    }
}

/// Sum of the fitted auto sizes among the first `k` tracks.
pub open spec fn fitted_sum(tracks: Seq<GridTrack>, sizes: Seq<Pt>, gap: int, available: int, k: int) -> int
    decreases k,
{
    if k <= 0 {
        0
    } else {
        fitted_sum(tracks, sizes, gap, available, k - 1) + fitted_auto(tracks, sizes, gap, available, k - 1)
    }
}

/// Inputs for which resolving an axis stays inside `i128`.
pub open spec fn grid_inputs_ok(tracks: Seq<GridTrack>, gap: int, available: int, sizes: Seq<Pt>) -> bool {
    &&& tracks.len() <= grid_max_tracks()
    &&& -grid_len_bound() <= gap <= grid_len_bound()
    &&& (available == i128::MAX || -grid_avail_bound() <= available <= grid_avail_bound())
    &&& forall|i: int| 0 <= i < sizes.len() ==> -grid_len_bound() <= #[trigger] sizes[i].0 <= grid_len_bound()
    &&& (available == i128::MAX ==> pt_sum(tracks, tracks.len() as int) + auto_sum(tracks, sizes, tracks.len() as int) >= 0)
}

/// Sum of the fixed and fitted auto tracks of an axis.
pub open spec fn fixed_total(tracks: Seq<GridTrack>, sizes: Seq<Pt>, gap: int, available: int) -> int {
    pt_sum(tracks, tracks.len() as int) + fitted_sum(tracks, sizes, gap, available, tracks.len() as int)
}

/// Space left for `Fr` tracks once fixed tracks, fitted autos and gaps are placed (never negative).
pub open spec fn fr_remaining(tracks: Seq<GridTrack>, sizes: Seq<Pt>, gap: int, available: int) -> int {
    let n = tracks.len() as int;
    let for_tracks = if available == i128::MAX {
        available
    } else if available - gap_total(gap, n) > 0 {
        available - gap_total(gap, n)
    } else {
        0
    };
    let r = for_tracks - fixed_total(tracks, sizes, gap, available);
    if r > 0 {
        r
    } else {
        0
    }
}

/// Floor share of the `Fr` space for track `i`, before the remainder is handed out.
pub open spec fn fr_base(tracks: Seq<GridTrack>, sizes: Seq<Pt>, gap: int, available: int, i: int) -> int {
    let total = fr_sum(tracks, tracks.len() as int);
    if total == 0 {
        0
    } else {
        fr_remaining(tracks, sizes, gap, available) * fr_of(tracks[i]) / total
    }
}

/// Sum of the `Fr` floor shares among the first `k` tracks.
pub open spec fn fr_base_sum(tracks: Seq<GridTrack>, sizes: Seq<Pt>, gap: int, available: int, k: int) -> int
    decreases k,
{
    if k <= 0 {
        0
    } else {
        fr_base_sum(tracks, sizes, gap, available, k - 1) + if tracks[k - 1] is Fr {
            fr_base(tracks, sizes, gap, available, k - 1)
        } else {
            0
        }
    }
}

/// Millipoints left after the floor shares; the earliest `Fr` tracks get one each.
pub open spec fn fr_leftover(tracks: Seq<GridTrack>, sizes: Seq<Pt>, gap: int, available: int) -> int {
    fr_remaining(tracks, sizes, gap, available) - fr_base_sum(tracks, sizes, gap, available, tracks.len() as int)
}

/// Resolved size of track `i`.
pub open spec fn resolved_track(tracks: Seq<GridTrack>, sizes: Seq<Pt>, gap: int, available: int, i: int) -> int {
    match tracks[i] {
        GridTrack::Pt { pt } => pt as int,
        GridTrack::Auto { .. } => fitted_auto(tracks, sizes, gap, available, i),
        GridTrack::Fr { .. } => fr_base(tracks, sizes, gap, available, i) + if fr_count(tracks, i)
            < fr_leftover(tracks, sizes, gap, available) {
            1int
        } else {
            0int
        },
    }
}

/// True when some `auto` track is written `{"auto": false}`.
pub open spec fn has_false_auto(tracks: Seq<GridTrack>) -> bool {
    exists|i: int| 0 <= i < tracks.len() && tracks[i] == (GridTrack::Auto { auto: false })
}

/// Sum of a sequence of lengths among the first `k`.
pub open spec fn seq_sum(xs: Seq<Pt>, k: int) -> int
    decreases k,
{
    if k <= 0 {
        0
    } else {
        seq_sum(xs, k - 1) + xs[k - 1].0
    }
}

// ---------------------------------------------------------------------------------------------
// Lemmas.
// ---------------------------------------------------------------------------------------------

proof fn lemma_pt_sum_bounds(tracks: Seq<GridTrack>, k: int)
    requires
        0 <= k <= tracks.len(),
    ensures
        -k * 0x8000_0000_0000_0000 <= pt_sum(tracks, k) <= k * 0x8000_0000_0000_0000,
    decreases k,
{
    if k > 0 {
        lemma_pt_sum_bounds(tracks, k - 1);
    }
}

pub(crate) proof fn lemma_fr_sum_bounds(tracks: Seq<GridTrack>, k: int)
    requires
        0 <= k <= tracks.len(),
    ensures
        0 <= fr_sum(tracks, k) <= k * 0x1_0000_0000,
        0 <= fr_count(tracks, k) <= k,
    decreases k,
{
    if k > 0 {
        lemma_fr_sum_bounds(tracks, k - 1);
    }
}

proof fn lemma_auto_sum_bounds(tracks: Seq<GridTrack>, sizes: Seq<Pt>, k: int)
    requires
        0 <= k <= tracks.len(),
        forall|i: int| 0 <= i < sizes.len() ==> -grid_len_bound() <= #[trigger] sizes[i].0 <= grid_len_bound(),
    ensures
        -k * grid_len_bound() <= auto_sum(tracks, sizes, k) <= k * grid_len_bound(),
    decreases k,
{
    if k > 0 {
        lemma_auto_sum_bounds(tracks, sizes, k - 1);
        if k - 1 < sizes.len() {
            assert(-grid_len_bound() <= sizes[k - 1].0 <= grid_len_bound());
        }
    }
}

/// `last_auto` names an auto track exactly when one exists.
proof fn lemma_last_auto(tracks: Seq<GridTrack>, k: int)
    requires
        0 <= k <= tracks.len(),
    ensures
        -1 <= last_auto(tracks, k) < k,
        last_auto(tracks, k) >= 0 ==> tracks[last_auto(tracks, k)] is Auto,
        last_auto(tracks, k) < 0 ==> forall|i: int| 0 <= i < k ==> !(tracks[i] is Auto),
    decreases k,
{
    if k > 0 {
        lemma_last_auto(tracks, k - 1);
    }
}

/// With no auto track the auto sum is 0.
proof fn lemma_no_auto_sum_zero(tracks: Seq<GridTrack>, sizes: Seq<Pt>, k: int)
    requires
        0 <= k <= tracks.len(),
        forall|i: int| 0 <= i < k ==> !(tracks[i] is Auto),
    ensures
        auto_sum(tracks, sizes, k) == 0,
    decreases k,
{
    if k > 0 {
        lemma_no_auto_sum_zero(tracks, sizes, k - 1);
    }
}

/// Summing the fitted sizes: shares plus the leftover on the last auto track.
proof fn lemma_fitted_sum_shrink(tracks: Seq<GridTrack>, sizes: Seq<Pt>, gap: int, available: int, k: int)
    requires
        0 <= k <= tracks.len(),
        fit_shrinks(tracks, sizes, gap, available),
    ensures
        fitted_sum(tracks, sizes, gap, available, k) == share_sum(tracks, sizes, gap, available, k) + if 0
            <= last_auto(tracks, tracks.len() as int) < k {
            fit_room(tracks, gap, available) - share_sum(tracks, sizes, gap, available, tracks.len() as int)
        } else {
            0
        },
    decreases k,
{
    lemma_last_auto(tracks, tracks.len() as int);
    if k > 0 {
        lemma_fitted_sum_shrink(tracks, sizes, gap, available, k - 1);
    }
}

/// Without shrinking the fitted autos are the content sizes.
proof fn lemma_fitted_sum_plain(tracks: Seq<GridTrack>, sizes: Seq<Pt>, gap: int, available: int, k: int)
    requires
        0 <= k <= tracks.len(),
        !fit_shrinks(tracks, sizes, gap, available),
    ensures
        fitted_sum(tracks, sizes, gap, available, k) == auto_sum(tracks, sizes, k),
    decreases k,
{
    if k > 0 {
        lemma_fitted_sum_plain(tracks, sizes, gap, available, k - 1);
    }
}

/// Shrinking makes the auto tracks fill the room exactly.
pub proof fn lemma_shrunk_autos_fill_room(tracks: Seq<GridTrack>, sizes: Seq<Pt>, gap: int, available: int)
    requires
        fit_shrinks(tracks, sizes, gap, available),
    ensures
        fitted_sum(tracks, sizes, gap, available, tracks.len() as int) == fit_room(tracks, gap, available),
{
    let n = tracks.len() as int;
    lemma_last_auto(tracks, n);
    if last_auto(tracks, n) < 0 {
        lemma_no_auto_sum_zero(tracks, sizes, n);
    }
    lemma_fitted_sum_shrink(tracks, sizes, gap, available, n);
}

/// Each proportional share is no larger in magnitude than the content size bound.
proof fn lemma_auto_share_bound(tracks: Seq<GridTrack>, sizes: Seq<Pt>, gap: int, available: int, i: int)
    requires
        0 <= i < tracks.len(),
        fit_shrinks(tracks, sizes, gap, available),
        forall|q: int| 0 <= q < sizes.len() ==> -grid_len_bound() <= #[trigger] sizes[q].0 <= grid_len_bound(),
    ensures
        -grid_len_bound() <= auto_share(tracks, sizes, gap, available, i) <= grid_len_bound(),
{
    if tracks[i] is Auto {
        let c = auto_content(tracks, sizes, i);
        let room = fit_room(tracks, gap, available);
        let s = auto_sum(tracks, sizes, tracks.len() as int);
        if i < sizes.len() {
            assert(-grid_len_bound() <= sizes[i].0 <= grid_len_bound());
        }
        assert(-grid_len_bound() <= c <= grid_len_bound());
        assert(0 <= room < s);
        if c >= 0 {
            assert(0 <= (c * room) / s <= c) by (nonlinear_arith)
                requires
                    c >= 0,
                    0 <= room < s,
            ;
        } else {
            let d = -c;
            assert(0 <= (d * room) / s <= d) by (nonlinear_arith)
                requires
                    d >= 0,
                    0 <= room < s,
            ;
            assert(-(c * room) == d * room) by (nonlinear_arith)
                requires
                    d == -c,
            ;
        }
    }
}

/// Partial sums of the shares stay within `k` content bounds.
proof fn lemma_share_sum_bounds(tracks: Seq<GridTrack>, sizes: Seq<Pt>, gap: int, available: int, k: int)
    requires
        0 <= k <= tracks.len(),
        fit_shrinks(tracks, sizes, gap, available),
        forall|i: int| 0 <= i < sizes.len() ==> -grid_len_bound() <= #[trigger] sizes[i].0 <= grid_len_bound(),
    ensures
        -k * grid_len_bound() <= share_sum(tracks, sizes, gap, available, k) <= k * grid_len_bound(),
    decreases k,
{
    if k > 0 {
        lemma_share_sum_bounds(tracks, sizes, gap, available, k - 1);
        lemma_auto_share_bound(tracks, sizes, gap, available, k - 1);
    }
}

proof fn lemma_room_bound(tracks: Seq<GridTrack>, gap: int, available: int)
    requires
        tracks.len() <= grid_max_tracks(),
        -grid_len_bound() <= gap <= grid_len_bound(),
        -grid_avail_bound() <= available <= grid_avail_bound(),
    ensures
        0 <= fit_room(tracks, gap, available) <= 0x800_0000_0000_0000_0000_0000,
{
    let n = tracks.len() as int;
    lemma_pt_sum_bounds(tracks, n);
    let m = if n > 0 { n - 1 } else { 0 };
    assert(-0x10_0000_0000_0000_0000 <= gap * m <= 0x10_0000_0000_0000_0000) by (nonlinear_arith)
        requires
            -0x4_0000_0000_0000 <= gap <= 0x4_0000_0000_0000,
            0 <= m <= 0x10000,
    ;
    assert(-0x1_0000_0000_0000_0000_0000 <= pt_sum(tracks, n) <= 0x1_0000_0000_0000_0000_0000) by (nonlinear_arith)
        requires
            -n * 0x8000_0000_0000_0000 <= pt_sum(tracks, n) <= n * 0x8000_0000_0000_0000,
            n <= 0x10000,
    ;
}

/// Partial sums of the fitted autos stay small.
proof fn lemma_fitted_partial_bound(tracks: Seq<GridTrack>, sizes: Seq<Pt>, gap: int, available: int, k: int)
    requires
        0 <= k <= tracks.len(),
        grid_inputs_ok(tracks, gap, available, sizes),
    ensures
        -0x1000_0000_0000_0000_0000_0000 <= fitted_sum(tracks, sizes, gap, available, k) <= 0x1000_0000_0000_0000_0000_0000,
{
    let n = tracks.len() as int;
    if fit_shrinks(tracks, sizes, gap, available) {
        lemma_fitted_sum_shrink(tracks, sizes, gap, available, k);
        lemma_share_sum_bounds(tracks, sizes, gap, available, k);
        lemma_share_sum_bounds(tracks, sizes, gap, available, n);
        lemma_room_bound(tracks, gap, available);
        assert(k * grid_len_bound() <= 0x10_0000_0000_0000_0000) by (nonlinear_arith)
            requires
                0 <= k <= 0x10000,
        ;
        assert(n * grid_len_bound() <= 0x10_0000_0000_0000_0000) by (nonlinear_arith)
            requires
                0 <= n <= 0x10000,
        ;
    } else {
        lemma_fitted_sum_plain(tracks, sizes, gap, available, k);
        lemma_auto_sum_bounds(tracks, sizes, k);
        assert(k * grid_len_bound() <= 0x10_0000_0000_0000_0000) by (nonlinear_arith)
            requires
                0 <= k <= 0x10000,
        ;
    }
}

/// Floor division facts for a non-negative dividend.
proof fn lemma_floor_div(a: int, f: int)
    requires
        a >= 0,
        f > 0,
    ensures
        0 <= a / f,
        f * (a / f) <= a,
        a - f * (a / f) < f,
{
    assert(f * (a / f) + a % f == a) by (nonlinear_arith)
        requires
            f > 0,
    ;
    assert(0 <= a % f < f) by (nonlinear_arith)
        requires
            f > 0,
    ;
    assert(0 <= a / f) by (nonlinear_arith)
        requires
            a >= 0,
            f > 0,
    ;
}

/// The floor shares lose less than one millipoint per `Fr` track.
proof fn lemma_fr_floor_loss(tracks: Seq<GridTrack>, sizes: Seq<Pt>, gap: int, available: int, k: int)
    requires
        0 <= k <= tracks.len(),
        fr_sum(tracks, tracks.len() as int) > 0,
    ensures
        ({
            let r = fr_remaining(tracks, sizes, gap, available);
            let f = fr_sum(tracks, tracks.len() as int);
            let d = r * fr_sum(tracks, k) - f * fr_base_sum(tracks, sizes, gap, available, k);
            0 <= d <= (f - 1) * fr_count(tracks, k)
        }),
    decreases k,
{
    let r = fr_remaining(tracks, sizes, gap, available);
    let f = fr_sum(tracks, tracks.len() as int);
    if k > 0 {
        lemma_fr_floor_loss(tracks, sizes, gap, available, k - 1);
        let w = fr_of(tracks[k - 1]);
        let a = r * w;
        assert(r >= 0);
        assert(w >= 0);
        assert(a >= 0) by (nonlinear_arith)
            requires
                a == r * w,
                r >= 0,
                w >= 0,
        ;
        lemma_floor_div(a, f);
        let prev_sum = fr_sum(tracks, k - 1);
        assert(r * fr_sum(tracks, k) == r * prev_sum + a) by (nonlinear_arith)
            requires
                fr_sum(tracks, k) == prev_sum + w,
                a == r * w,
        ;
        let pb = fr_base_sum(tracks, sizes, gap, available, k - 1);
        if tracks[k - 1] is Fr {
            assert(f * fr_base_sum(tracks, sizes, gap, available, k) == f * pb + f * (a / f)) by (nonlinear_arith)
                requires
                    fr_base_sum(tracks, sizes, gap, available, k) == pb + a / f,
            ;
            assert((f - 1) * fr_count(tracks, k) == (f - 1) * fr_count(tracks, k - 1) + (f - 1)) by (nonlinear_arith)
                requires
                    fr_count(tracks, k) == fr_count(tracks, k - 1) + 1,
            ;
        } else {
            assert(w == 0);
            assert(a == 0);
        }
    }
}

/// After the floor shares, the leftover is smaller than the number of `Fr` tracks.
proof fn lemma_fr_leftover_small(tracks: Seq<GridTrack>, sizes: Seq<Pt>, gap: int, available: int)
    requires
        fr_sum(tracks, tracks.len() as int) > 0,
    ensures
        0 <= fr_leftover(tracks, sizes, gap, available) < fr_count(tracks, tracks.len() as int),
{
    let n = tracks.len() as int;
    lemma_fr_floor_loss(tracks, sizes, gap, available, n);
    lemma_fr_sum_bounds(tracks, n);
    let r = fr_remaining(tracks, sizes, gap, available);
    let f = fr_sum(tracks, n);
    let s = fr_base_sum(tracks, sizes, gap, available, n);
    let c = fr_count(tracks, n);
    lemma_fr_count_positive(tracks, n);
    assert(r * f - f * s == f * (r - s)) by (nonlinear_arith);
    assert(0 <= r - s < c) by (nonlinear_arith)
        requires
            0 <= f * (r - s) <= (f - 1) * c,
            f > 0,
            c >= 1,
    ;
}

proof fn lemma_fr_leftover_or_zero(tracks: Seq<GridTrack>, gap: int, available: int)
    requires
        fr_sum(tracks, tracks.len() as int) == 0,
    ensures
        forall|i: int| 0 <= i < tracks.len() ==> fr_base(tracks, Seq::<Pt>::empty(), gap, available, i) == 0,
{
}

/// On an axis without auto tracks (bounded, or without weighted fractions), every resolved
/// track is a moderate length.
pub proof fn lemma_resolved_track_bound(tracks: Seq<GridTrack>, gap: int, available: int, i: int)
    requires
        0 <= i < tracks.len(),
        grid_inputs_ok(tracks, gap, available, Seq::<Pt>::empty()),
        available != i128::MAX || fr_sum(tracks, tracks.len() as int) == 0,
        forall|j: int| 0 <= j < tracks.len() ==> !(#[trigger] tracks[j] is Auto),
    ensures
        -0x10_0000_0000_0000_0000_0000_0000 <= resolved_track(tracks, Seq::<Pt>::empty(), gap, available, i)
            <= 0x10_0000_0000_0000_0000_0000_0000,
{
    let sizes = Seq::<Pt>::empty();
    let n = tracks.len() as int;
    match tracks[i] {
        GridTrack::Pt { pt } => {},
        GridTrack::Auto { .. } => {},
        GridTrack::Fr { .. } => {
            if available == i128::MAX {
                lemma_fr_sum_bounds(tracks, n);
                lemma_fr_leftover_or_zero(tracks, gap, available);
            } else {
                lemma_pt_sum_bounds(tracks, n);
                lemma_fitted_partial_bound(tracks, sizes, gap, available, n);
                let m = if n > 0 { n - 1 } else { 0 };
                assert(-0x10_0000_0000_0000_0000 <= gap * m <= 0x10_0000_0000_0000_0000) by (nonlinear_arith)
                    requires
                        -0x4_0000_0000_0000 <= gap <= 0x4_0000_0000_0000,
                        0 <= m <= 0x10000,
                ;
                assert(-0x1_0000_0000_0000_0000_0000 <= pt_sum(tracks, n) <= 0x1_0000_0000_0000_0000_0000) by (nonlinear_arith)
                    requires
                        -n * 0x8000_0000_0000_0000 <= pt_sum(tracks, n) <= n * 0x8000_0000_0000_0000,
                        n <= 0x10000,
                ;
                let r = fr_remaining(tracks, sizes, gap, available);
                assert(0 <= r <= 0x1000_0000_0000_0000_0000_0000_0000);
                let total = fr_sum(tracks, n);
                let w = fr_of(tracks[i]);
                lemma_fr_of_le_sum(tracks, i, n);
                lemma_fr_sum_bounds(tracks, n);
                if total > 0 {
                    assert(0 <= r * w / total <= r) by (nonlinear_arith)
                        requires
                            0 <= r,
                            0 <= w <= total,
                            total > 0,
                    ;
                }
            }
        },
    }
}

/// Prefix weight sums grow with the prefix.
proof fn lemma_fr_sum_mono(tracks: Seq<GridTrack>, k: int, m: int)
    requires
        0 <= k <= m <= tracks.len(),
    ensures
        fr_sum(tracks, k) <= fr_sum(tracks, m),
    decreases m - k,
{
    if k < m {
        lemma_fr_sum_mono(tracks, k, m - 1);
    }
}

/// The floor shares of a prefix never exceed the space they divide.
proof fn lemma_fr_base_sum_range(tracks: Seq<GridTrack>, sizes: Seq<Pt>, gap: int, available: int, k: int)
    requires
        0 <= k <= tracks.len(),
        fr_sum(tracks, tracks.len() as int) > 0,
    ensures
        0 <= fr_base_sum(tracks, sizes, gap, available, k) <= fr_remaining(tracks, sizes, gap, available),
    decreases k,
{
    let r = fr_remaining(tracks, sizes, gap, available);
    let f = fr_sum(tracks, tracks.len() as int);
    let sk = fr_base_sum(tracks, sizes, gap, available, k);
    lemma_fr_floor_loss(tracks, sizes, gap, available, k);
    lemma_fr_sum_mono(tracks, k, tracks.len() as int);
    lemma_fr_sum_bounds(tracks, k);
    if k > 0 {
        lemma_fr_base_sum_range(tracks, sizes, gap, available, k - 1);
        let w = fr_of(tracks[k - 1]);
        assert(r * w >= 0) by (nonlinear_arith)
            requires
                r >= 0,
                w >= 0,
        ;
        lemma_floor_div(r * w, f);
    }
    assert(sk <= r) by (nonlinear_arith)
        requires
            f * sk <= r * fr_sum(tracks, k),
            fr_sum(tracks, k) <= f,
            f > 0,
            r >= 0,
    ;
}

/// Each weight is at most the total weight.
proof fn lemma_fr_of_le_sum(tracks: Seq<GridTrack>, i: int, k: int)
    requires
        0 <= i < k <= tracks.len(),
    ensures
        fr_of(tracks[i]) <= fr_sum(tracks, k),
    decreases k,
{
    lemma_fr_sum_bounds(tracks, k - 1);
    if i < k - 1 {
        lemma_fr_of_le_sum(tracks, i, k - 1);
    }
}

/// Some `Fr` track exists when the weights sum to a positive number.
proof fn lemma_fr_count_positive(tracks: Seq<GridTrack>, k: int)
    requires
        0 <= k <= tracks.len(),
    ensures
        fr_sum(tracks, k) <= 0x1_0000_0000 * fr_count(tracks, k),
    decreases k,
{
    if k > 0 {
        lemma_fr_count_positive(tracks, k - 1);
    }
}

/// With every weight 0 the floor shares are all 0.
proof fn lemma_fr_base_sum_zero(tracks: Seq<GridTrack>, sizes: Seq<Pt>, gap: int, available: int, k: int)
    requires
        0 <= k <= tracks.len(),
        fr_sum(tracks, tracks.len() as int) == 0,
    ensures
        fr_base_sum(tracks, sizes, gap, available, k) == 0,
    decreases k,
{
    if k > 0 {
        lemma_fr_base_sum_zero(tracks, sizes, gap, available, k - 1);
    }
}

/// Sum of the resolved sizes of the first `k` tracks.
pub open spec fn resolved_sum(tracks: Seq<GridTrack>, sizes: Seq<Pt>, gap: int, available: int, k: int) -> int
    decreases k,
{
    if k <= 0 {
        0
    } else {
        resolved_sum(tracks, sizes, gap, available, k - 1) + resolved_track(tracks, sizes, gap, available, k - 1)
    }
}

proof fn lemma_resolved_sum_split(tracks: Seq<GridTrack>, sizes: Seq<Pt>, gap: int, available: int, k: int)
    requires
        0 <= k <= tracks.len(),
        fr_leftover(tracks, sizes, gap, available) >= 0,
    ensures
        resolved_sum(tracks, sizes, gap, available, k) == pt_sum(tracks, k) + fitted_sum(tracks, sizes, gap, available, k)
            + fr_base_sum(tracks, sizes, gap, available, k) + if fr_count(tracks, k) < fr_leftover(
            tracks,
            sizes,
            gap,
            available,
        ) {
            fr_count(tracks, k)
        } else {
            fr_leftover(tracks, sizes, gap, available)
        },
    decreases k,
{
    if k > 0 {
        lemma_resolved_sum_split(tracks, sizes, gap, available, k - 1);
        if !fit_shrinks(tracks, sizes, gap, available) {
            assert(!(tracks[k - 1] is Auto) ==> auto_content(tracks, sizes, k - 1) == 0);
        } else {
            assert(!(tracks[k - 1] is Auto) ==> auto_share(tracks, sizes, gap, available, k - 1) == 0);
            lemma_last_auto(tracks, tracks.len() as int);
        }
    }
}

/// Law: when `Fr` tracks are present on a bounded axis and the fixed and auto tracks fit,
/// the resolved tracks plus the gaps fill `available` exactly.
pub proof fn law_fr_tracks_fill_available(tracks: Seq<GridTrack>, gap: int, available: int, sizes: Seq<Pt>)
    requires
        grid_inputs_ok(tracks, gap, available, sizes),
        fr_sum(tracks, tracks.len() as int) > 0,
        available != i128::MAX,
        available - gap_total(gap, tracks.len() as int) >= fixed_total(tracks, sizes, gap, available),
        available - gap_total(gap, tracks.len() as int) >= 0,
    ensures
        resolved_sum(tracks, sizes, gap, available, tracks.len() as int) + gap_total(gap, tracks.len() as int)
            == available,
{
    let n = tracks.len() as int;
    lemma_fr_leftover_small(tracks, sizes, gap, available);
    lemma_resolved_sum_split(tracks, sizes, gap, available, n);
}

/// Law: fitted auto tracks never push fixed tracks, autos and gaps past a bounded `available`
/// that holds the fixed tracks and gaps; when they had to shrink they fill it exactly.
pub proof fn law_autos_fit_available(tracks: Seq<GridTrack>, gap: int, available: int, sizes: Seq<Pt>)
    requires
        grid_inputs_ok(tracks, gap, available, sizes),
        available != i128::MAX,
        available - pt_sum(tracks, tracks.len() as int) - gap_total(gap, tracks.len() as int) >= 0,
    ensures
        fit_shrinks(tracks, sizes, gap, available) ==> fixed_total(tracks, sizes, gap, available) + gap_total(
            gap,
            tracks.len() as int,
        ) == available,
        auto_sum(tracks, sizes, tracks.len() as int) >= 0 ==> fixed_total(tracks, sizes, gap, available)
            + gap_total(gap, tracks.len() as int) <= available,
{
    let n = tracks.len() as int;
    if fit_shrinks(tracks, sizes, gap, available) {
        lemma_shrunk_autos_fill_room(tracks, sizes, gap, available);
    } else {
        lemma_fitted_sum_plain(tracks, sizes, gap, available, n);
    }
}

// ---------------------------------------------------------------------------------------------
// Executable functions.
// ---------------------------------------------------------------------------------------------

/// Resolve per-axis grid gaps. Omitted `row_gap` / `column_gap` fall back to `gap`.
pub fn grid_axis_gaps(gap: i64, row_gap: Option<i64>, column_gap: Option<i64>) -> (r: (Pt, Pt))
    ensures
        r.0.0 == (match row_gap {
            Some(g) => g,
            None => gap,
        }),
        r.1.0 == (match column_gap {
            Some(g) => g,
            None => gap,
        }),
{
    let rg = match row_gap {
        Some(g) => g,
        None => gap,
    };
    let cg = match column_gap {
        Some(g) => g,
        None => gap,
    };
    (Pt(rg as i128), Pt(cg as i128))
}

/// Shrink auto track sizes so `pt + auto + gaps` fits `available`.
///
/// `pt` tracks are never resized. Overflowing autos shrink in proportion.
/// Unbounded `available` leaves autos unchanged.
fn fit_auto_sizes(tracks: &[GridTrack], auto_sizes: &[Pt], gap: Pt, available: Pt) -> (r: Vec<Pt>)
    requires
        grid_inputs_ok(tracks@, gap.0 as int, available.0 as int, auto_sizes@),
    ensures
        r.len() == tracks.len(),
        forall|i: int|
            0 <= i < tracks.len() ==> #[trigger] r[i].0 == fitted_auto(
                tracks@,
                auto_sizes@,
                gap.0 as int,
                available.0 as int,
                i,
            ),
{
    let n = tracks.len();
    let ghost ts = tracks@;
    let ghost ss = auto_sizes@;
    let mut autos: Vec<Pt> = Vec::new();
    let mut auto_total: i128 = 0;
    let mut i: usize = 0;
    while i < n
        invariant
            n == tracks.len(),
            ts == tracks@,
            ss == auto_sizes@,
            i <= n,
            autos.len() == i,
            forall|j: int| 0 <= j < i ==> #[trigger] autos[j].0 == auto_content(ts, ss, j),
            auto_total == auto_sum(ts, ss, i as int),
            grid_inputs_ok(ts, gap.0 as int, available.0 as int, ss),
        decreases n - i,
    {
        proof {
            lemma_auto_sum_bounds(ts, ss, i + 1);
        }
        let v = if tracks[i].is_auto() {
            if i < auto_sizes.len() {
                auto_sizes[i]
            } else {
                Pt(0)
            }
        } else {
            Pt(0)
        };
        autos.push(v);
        auto_total = auto_total + v.0;
        i = i + 1;
    }
    if available.0 == i128::MAX || n == 0 {
        return autos;
    }
    let mut pt_total: i128 = 0;
    let mut k: usize = 0;
    while k < n
        invariant
            n == tracks.len(),
            ts == tracks@,
            k <= n,
            pt_total == pt_sum(ts, k as int),
        decreases n - k,
    {
        proof {
            lemma_pt_sum_bounds(ts, k + 1);
        }
        match tracks[k] {
            GridTrack::Pt { pt } => {
                pt_total = pt_total + pt as i128;
            },
            _ => {},
        }
        k = k + 1;
    }
    proof {
        lemma_pt_sum_bounds(ts, n as int);
        let g = gap.0 as int;
        let m = (n - 1) as int;
        assert(-0x10_0000_0000_0000_0000 <= g * m <= 0x10_0000_0000_0000_0000) by (nonlinear_arith)
            requires
                -0x4_0000_0000_0000 <= g <= 0x4_0000_0000_0000,
                0 <= m <= 0x10000,
        ;
        assert(-0x1_0000_0000_0000_0000_0000 <= pt_total <= 0x1_0000_0000_0000_0000_0000) by (nonlinear_arith)
            requires
                -(n as int) * 0x8000_0000_0000_0000 <= pt_total <= (n as int) * 0x8000_0000_0000_0000,
                n <= 0x10000,
        ;
    }
    let gaps = gap.0 * ((n - 1) as i128);
    let raw = available.0 - pt_total - gaps;
    let room: i128 = if raw > 0 {
        raw
    } else {
        0
    };
    assert(room == fit_room(ts, gap.0 as int, available.0 as int));
    if auto_total <= room {
        return autos;
    }
    if auto_total == 0 {
        return autos;
    }
    assert(fit_shrinks(ts, ss, gap.0 as int, available.0 as int));
    let ghost room_i = room as int;
    let ghost total_i = auto_total as int;
    let mut used: i128 = 0;
    let mut last: usize = n;
    let mut j: usize = 0;
    while j < n
        invariant
            n == tracks.len(),
            ts == tracks@,
            ss == auto_sizes@,
            j <= n,
            autos.len() == n,
            room_i == fit_room(ts, gap.0 as int, available.0 as int),
            room == room_i,
            auto_total == total_i,
            total_i == auto_sum(ts, ss, n as int),
            fit_shrinks(ts, ss, gap.0 as int, available.0 as int),
            grid_inputs_ok(ts, gap.0 as int, available.0 as int, ss),
            forall|q: int| 0 <= q < j ==> #[trigger] autos[q].0 == auto_share(ts, ss, gap.0 as int, available.0 as int, q),
            forall|q: int| j <= q < n ==> #[trigger] autos[q].0 == auto_content(ts, ss, q),
            used == share_sum(ts, ss, gap.0 as int, available.0 as int, j as int),
            last <= n,
            last == n ==> last_auto(ts, j as int) == -1,
            last < n ==> last_auto(ts, j as int) == last as int,
        decreases n - j,
    {
        proof {
            lemma_share_sum_bounds(ts, ss, gap.0 as int, available.0 as int, (j + 1) as int);
            lemma_auto_sum_bounds(ts, ss, n as int);
        }
        if !tracks[j].is_auto() {
            assert(auto_share(ts, ss, gap.0 as int, available.0 as int, j as int) == 0);
            autos.set(j, Pt(0));
            j = j + 1;
            continue;
        }
        last = j;
        let c = autos[j].0;
        proof {
            if (j as int) < ss.len() {
                assert(-grid_len_bound() <= ss[j as int].0 <= grid_len_bound());
            }
            assert(-grid_len_bound() <= c <= grid_len_bound());
            assert(0 <= room < auto_total);
            assert(auto_total <= n * grid_len_bound());
            assert(auto_total <= 0x10_0000_0000_0000_0000);
            assert(-0x100_0000_0000_0000_0000_0000_0000_0000 <= c * room <= 0x100_0000_0000_0000_0000_0000_0000_0000) by (nonlinear_arith)
                requires
                    -0x4_0000_0000_0000 <= c <= 0x4_0000_0000_0000,
                    0 <= room < auto_total,
                    auto_total <= 0x10_0000_0000_0000_0000,
            ;
        }
        let prod = c * room;
        let share = crate::pt::i128_div(prod, auto_total);
        autos.set(j, Pt(share));
        used = used + share;
        j = j + 1;
    }
    proof {
        lemma_last_auto(ts, n as int);
        if last == n {
            lemma_no_auto_sum_zero(ts, ss, n as int);
        }
        lemma_share_sum_bounds(ts, ss, gap.0 as int, available.0 as int, n as int);
    }
    let rem = room - used;
    let ghost before = autos@;
    if last < n {
        let cur = autos[last].0;
        proof {
            lemma_auto_share_bound(ts, ss, gap.0 as int, available.0 as int, last as int);
        }
        autos.set(last, Pt(cur + rem));
    }
    assert forall|q: int| 0 <= q < n implies #[trigger] autos[q].0 == fitted_auto(
        ts,
        ss,
        gap.0 as int,
        available.0 as int,
        q,
    ) by {
        assert(before[q].0 == auto_share(ts, ss, gap.0 as int, available.0 as int, q));
        assert(fit_shrinks(ts, ss, gap.0 as int, available.0 as int));
        if last < n {
            assert(last_auto(ts, n as int) == last as int);
            if q == last as int {
                assert(autos[q].0 == before[q].0 + (room - used));
            } else {
                assert(autos[q].0 == before[q].0);
            }
        } else {
            assert(last_auto(ts, n as int) == -1);
            assert(autos[q].0 == before[q].0);
        }
    }
    autos
}

/// Like [`resolve_tracks`], but `auto` tracks use `auto_sizes[i]` as their content size.
///
/// - `available` includes gaps.
/// - Auto tracks hug content, then shrink if `pt + auto + gaps` would overflow `available`
///   (they must not spill into sibling tracks).
/// - `Fr` tracks share leftover after `pt`, fitted `auto`, and gaps.
/// - Remainder millipt go to earlier `Fr` tracks.
pub fn resolve_tracks_with_intrinsics(tracks: &[GridTrack], gap: Pt, available: Pt, auto_sizes: &[Pt]) -> (r:
    Result<Vec<Pt>, String>)
    requires
        grid_inputs_ok(tracks@, gap.0 as int, available.0 as int, auto_sizes@),
    ensures
        matches_outcome(r, resolve_outcome(tracks@, gap.0 as int, available.0 as int, auto_sizes@)),
{
    let ghost ts = tracks@;
    let ghost ss = auto_sizes@;
    let ghost g = gap.0 as int;
    let ghost av = available.0 as int;
    let n = tracks.len();
    if n == 0 {
        return Ok(Vec::new());
    }
    let mut i: usize = 0;
    while i < n
        invariant
            n == tracks.len(),
            i <= n,
            forall|j: int| 0 <= j < i ==> #[trigger] tracks[j] != (GridTrack::Auto { auto: false }),
        decreases n - i,
    {
        match tracks[i] {
            GridTrack::Auto { auto } => {
                if !auto {
                    return Err("grid auto track must be {\"auto\": true}".to_owned());
                }
            },
            _ => {},
        }
        i = i + 1;
    }
    assert(!has_false_auto(ts));
    let fitted = fit_auto_sizes(tracks, auto_sizes, gap, available);
    let mut fixed_sum: i128 = 0;
    let mut fr_total: i128 = 0;
    let mut k: usize = 0;
    while k < n
        invariant
            n == tracks.len(),
            ts == tracks@,
            ss == auto_sizes@,
            g == gap.0,
            av == available.0,
            k <= n,
            fitted.len() == n,
            forall|q: int| 0 <= q < n ==> #[trigger] fitted[q].0 == fitted_auto(ts, ss, g, av, q),
            grid_inputs_ok(ts, g, av, ss),
            fixed_sum == pt_sum(ts, k as int) + fitted_sum(ts, ss, g, av, k as int),
            fr_total == fr_sum(ts, k as int),
        decreases n - k,
    {
        proof {
            lemma_pt_sum_bounds(ts, k + 1);
            lemma_fitted_partial_bound(ts, ss, g, av, k + 1);
            lemma_fr_sum_bounds(ts, k + 1);
            assert((k + 1) * 0x8000_0000_0000_0000 <= 0x1_0000_0000_0000_0000_0000) by (nonlinear_arith)
                requires
                    k + 1 <= 0x10000,
            ;
            assert((k + 1) * 0x1_0000_0000 <= 0x1_0000_0000_0000) by (nonlinear_arith)
                requires
                    k + 1 <= 0x10000,
            ;
            if !(ts[k as int] is Auto) {
                if fit_shrinks(ts, ss, g, av) {
                    assert(auto_share(ts, ss, g, av, k as int) == 0);
                    lemma_last_auto(ts, n as int);
                }
            }
        }
        match tracks[k] {
            GridTrack::Pt { pt } => {
                fixed_sum = fixed_sum + pt as i128;
            },
            GridTrack::Fr { fr } => {
                fr_total = fr_total + fr as i128;
            },
            GridTrack::Auto { .. } => {
                fixed_sum = fixed_sum + fitted[k].0;
            },
        }
        k = k + 1;
    }
    if fr_total > 0 && available.0 == i128::MAX {
        return Err(
            "Cannot resolve fr tracks with infinite available size; give the grid a fixed height or use stack/table".to_owned(),
        );
    }
    proof {
        let m = (n - 1) as int;
        assert(-0x10_0000_0000_0000_0000 <= g * m <= 0x10_0000_0000_0000_0000) by (nonlinear_arith)
            requires
                -0x4_0000_0000_0000 <= g <= 0x4_0000_0000_0000,
                0 <= m <= 0x10000,
        ;
        lemma_fr_sum_bounds(ts, n as int);
        if av == i128::MAX {
            assert(!fit_shrinks(ts, ss, g, av));
            lemma_fitted_sum_plain(ts, ss, g, av, n as int);
        }
    }
    proof {
        lemma_pt_sum_bounds(ts, n as int);
        lemma_fitted_partial_bound(ts, ss, g, av, n as int);
        assert((n as int) * 0x8000_0000_0000_0000 <= 0x1_0000_0000_0000_0000_0000) by (nonlinear_arith)
            requires
                n <= 0x10000,
        ;
    }
    let gap_sum: i128 = if gap.0 != 0 {
        gap.0 * ((n - 1) as i128)
    } else {
        assert(g * ((n - 1) as int) == 0) by (nonlinear_arith)
            requires
                g == 0,
        ;
        0
    };
    assert(gap_sum == gap_total(g, n as int));
    let mut for_tracks: i128 = if available.0 == i128::MAX {
        available.0
    } else {
        available.0 - gap_sum
    };
    if for_tracks < 0 {
        for_tracks = 0;
    }
    let mut remaining: i128 = for_tracks - fixed_sum;
    if remaining < 0 {
        remaining = 0;
    }
    assert(remaining == fr_remaining(ts, ss, g, av));
    let ghost rem_i = remaining as int;
    let ghost f_i = fr_total as int;
    proof {
        if fr_total == 0 {
            lemma_fr_base_sum_zero(ts, ss, g, av, n as int);
        } else {
            lemma_fr_leftover_small(ts, ss, g, av);
        }
    }
    let mut out: Vec<Pt> = Vec::new();
    let mut remainder: i128 = remaining;
    let mut j: usize = 0;
    while j < n
        invariant
            n == tracks.len(),
            ts == tracks@,
            ss == auto_sizes@,
            g == gap.0,
            av == available.0,
            j <= n,
            fitted.len() == n,
            forall|q: int| 0 <= q < n ==> #[trigger] fitted[q].0 == fitted_auto(ts, ss, g, av, q),
            fr_total == fr_sum(ts, n as int),
            f_i == fr_total,
            rem_i == remaining,
            remaining == fr_remaining(ts, ss, g, av),
            0 <= remaining,
            fr_total > 0 ==> av != i128::MAX,
            av != i128::MAX ==> remaining <= 0x4000_0000_0000_0000_0000_0000,
            0 <= fr_total <= 0x1_0000_0000_0000,
            out.len() == j,
            forall|q: int| 0 <= q < j ==> #[trigger] out[q].0 == (match ts[q] {
                GridTrack::Pt { pt } => pt as int,
                GridTrack::Auto { .. } => fitted_auto(ts, ss, g, av, q),
                GridTrack::Fr { .. } => fr_base(ts, ss, g, av, q),
            }),
            remainder == remaining - fr_base_sum(ts, ss, g, av, j as int),
            fr_total == 0 ==> fr_base_sum(ts, ss, g, av, n as int) == 0,
            fr_total > 0 ==> 0 <= fr_leftover(ts, ss, g, av),
        decreases n - j,
    {
        proof {
            if fr_total == 0 {
                lemma_fr_base_sum_zero(ts, ss, g, av, j + 1);
            } else {
                lemma_fr_base_sum_range(ts, ss, g, av, j as int);
                lemma_fr_base_sum_range(ts, ss, g, av, j + 1);
            }
        }
        match tracks[j] {
            GridTrack::Pt { pt } => {
                out.push(Pt(pt as i128));
            },
            GridTrack::Auto { .. } => {
                out.push(fitted[j]);
            },
            GridTrack::Fr { fr } => {
                if fr_total == 0 {
                    out.push(Pt(0));
                } else {
                    proof {
                        lemma_fr_of_le_sum(ts, j as int, n as int);
                        assert(0 <= remaining * (fr as int) <= 0x4000_0000_0000_0000_0000_0000 * 0x1_0000_0000) by (nonlinear_arith)
                            requires
                                0 <= remaining <= 0x4000_0000_0000_0000_0000_0000,
                                0 <= fr <= 0xffff_ffff,
                        ;
                        lemma_floor_div(remaining * (fr as int), fr_total as int);
                    }
                    let share = remaining * (fr as i128) / fr_total;
                    proof {
                        assert(share <= remaining) by (nonlinear_arith)
                            requires
                                share == remaining * (fr as int) / (fr_total as int),
                                fr as int <= fr_total,
                                fr_total > 0,
                                remaining >= 0,
                        ;
                    }
                    out.push(Pt(share));
                    remainder = remainder - share;
                }
            },
        }
        j = j + 1;
    }
    let ghost base = out@;
    assert forall|q: int| 0 <= q < n implies -0x1_0000_0000_0000_0000_0000_0000 <= #[trigger] base[q].0 <= 0x1_0000_0000_0000_0000_0000_0000 by {
        match ts[q] {
            GridTrack::Pt { pt } => {},
            GridTrack::Auto { .. } => {
                lemma_fitted_partial_bound(ts, ss, g, av, q);
                lemma_fitted_partial_bound(ts, ss, g, av, q + 1);
            },
            GridTrack::Fr { fr } => {
                if fr_total > 0 {
                    lemma_fr_base_sum_range(ts, ss, g, av, q);
                    lemma_fr_base_sum_range(ts, ss, g, av, q + 1);
                }
            },
        }
    }
    let mut t: usize = 0;
    while t < n
        invariant
            n == tracks.len(),
            ts == tracks@,
            t <= n,
            out.len() == n,
            base.len() == n,
            forall|q: int| t <= q < n ==> #[trigger] out[q] == base[q],
            forall|q: int| 0 <= q < t ==> #[trigger] out[q].0 == base[q].0 + (if ts[q] is Fr && fr_count(ts, q) < fr_leftover(
                ts,
                ss,
                g,
                av,
            ) {
                1int
            } else {
                0int
            }),
            remainder == if fr_count(ts, t as int) < fr_leftover(ts, ss, g, av) {
                fr_leftover(ts, ss, g, av) - fr_count(ts, t as int)
            } else {
                0
            },
            0 <= fr_leftover(ts, ss, g, av),
            forall|q: int| 0 <= q < n ==> -0x1_0000_0000_0000_0000_0000_0000 <= #[trigger] base[q].0 <= 0x1_0000_0000_0000_0000_0000_0000,
        decreases n - t,
    {
        if remainder > 0 {
            match tracks[t] {
                GridTrack::Fr { .. } => {
                    let cur = out[t].0;
                    out.set(t, Pt(cur + 1));
                    remainder = remainder - 1;
                },
                _ => {},
            }
        }
        t = t + 1;
    }
    Ok(out)
}

/// Error text for an axis with auto tracks, which need the content measured first.
pub open spec fn auto_track_message() -> Seq<char> {
    "Cannot resolve auto tracks without content measure; give the grid a finite size and auto+fr rows"@
}

/// Resolve grid track sizes for a single axis (columns or rows).
///
/// Auto tracks are not allowed here — call [`resolve_tracks_with_intrinsics`] after measuring.
pub fn resolve_tracks(tracks: &[GridTrack], gap: Pt, available: Pt) -> (r: Result<Vec<Pt>, String>)
    requires
        grid_inputs_ok(tracks@, gap.0 as int, available.0 as int, Seq::<Pt>::empty()),
    ensures
        (exists|i: int| 0 <= i < tracks.len() && #[trigger] tracks[i] is Auto) ==> r is Err && r->Err_0@
            == auto_track_message(),
        (forall|i: int| 0 <= i < tracks.len() ==> !(#[trigger] tracks[i] is Auto)) ==> matches_outcome(
            r,
            resolve_outcome(tracks@, gap.0 as int, available.0 as int, Seq::<Pt>::empty()),
        ),
{
    let mut i: usize = 0;
    while i < tracks.len()
        invariant
            i <= tracks.len(),
            forall|j: int| 0 <= j < i ==> !(#[trigger] tracks[j] is Auto),
        decreases tracks.len() - i,
    {
        if tracks[i].is_auto() {
            proof {
                reveal_strlit(
                    "Cannot resolve auto tracks without content measure; give the grid a finite size and auto+fr rows",
                );
            }
            return Err(
                crate::text::owned(
                    "Cannot resolve auto tracks without content measure; give the grid a finite size and auto+fr rows",
                ),
            );
        }
        i = i + 1;
    }
    let empty: Vec<Pt> = Vec::new();
    assert(empty@ =~= Seq::<Pt>::empty());
    resolve_tracks_with_intrinsics(tracks, gap, available, empty.as_slice())
}

/// Lengths small enough that a few thousand of them, and their gaps, sum inside `i128`.
pub open spec fn sum_inputs_ok(items: Seq<Pt>, gap: int) -> bool {
    &&& items.len() <= grid_max_tracks()
    &&& -crate::pt::pt_bound() <= gap <= crate::pt::pt_bound()
    &&& forall|i: int| 0 <= i < items.len() ==> -crate::pt::pt_bound() <= #[trigger] items[i].0 <= crate::pt::pt_bound()
}

pub proof fn lemma_seq_sum_bounds(items: Seq<Pt>, k: int)
    requires
        0 <= k <= items.len(),
        forall|i: int| 0 <= i < items.len() ==> -crate::pt::pt_bound() <= #[trigger] items[i].0 <= crate::pt::pt_bound(),
    ensures
        -k * crate::pt::pt_bound() <= seq_sum(items, k) <= k * crate::pt::pt_bound(),
    decreases k,
{
    if k > 0 {
        lemma_seq_sum_bounds(items, k - 1);
        assert(-crate::pt::pt_bound() <= items[k - 1].0 <= crate::pt::pt_bound());
    }
}

/// Total extent of tracks laid out with `gap` between neighbours.
pub fn sum_with_gaps(items: &[Pt], gap: Pt) -> (r: Pt)
    requires
        sum_inputs_ok(items@, gap.0 as int),
    ensures
        r.0 == seq_sum(items@, items.len() as int) + gap_total(gap.0 as int, items.len() as int),
{
    let n = items.len();
    let mut sum: i128 = 0;
    let mut i: usize = 0;
    while i < n
        invariant
            n == items.len(),
            sum_inputs_ok(items@, gap.0 as int),
            i <= n,
            sum == seq_sum(items@, i as int) + gap.0 * (if i < n {
                i as int
            } else if n > 0 {
                n - 1
            } else {
                0
            }),
        decreases n - i,
    {
        proof {
            lemma_seq_sum_bounds(items@, i + 1);
            let b = crate::pt::pt_bound();
            let k = (i + 1) as int;
            let g = gap.0 as int;
            assert(k * b <= 0x2000_0000_0000_0000_0000_0000_0000_0000 && -0x2000_0000_0000_0000_0000_0000_0000_0000 <= g * i <= 0x2000_0000_0000_0000_0000_0000_0000_0000 && -0x2000_0000_0000_0000_0000_0000_0000_0000 <= g * k <= 0x2000_0000_0000_0000_0000_0000_0000_0000) by (nonlinear_arith)
                requires
                    0 <= k <= 0x10001,
                    0 <= i <= 0x10000,
                    k == i + 1,
                    b == 0x1000_0000_0000_0000_0000_0000_0000,
                    -b <= g <= b,
            ;
            assert(g * k == g * i + g) by (nonlinear_arith)
                requires
                    k == i + 1,
            ;
        }
        sum = sum + items[i].0;
        if gap.0 != 0 && i + 1 < n {
            sum = sum + gap.0;
        }
        i = i + 1;
    }
    Pt(sum)
}

/// Law: the offset after the last of `n >= 1` tracks ([`sum_prefix`] with `count == n`) is
/// their total extent ([`sum_with_gaps`]) plus one gap.
pub proof fn law_offset_past_all_tracks(items: Seq<Pt>, gap: int)
    requires
        items.len() >= 1,
    ensures
        seq_sum(items, items.len() as int) + gap * items.len() == seq_sum(items, items.len() as int) + gap_total(
            gap,
            items.len() as int,
        ) + gap,
{
    let n = items.len() as int;
    assert(gap * n == gap * (n - 1) + gap) by (nonlinear_arith);
}

/// Offset of track `count`: the first `count` tracks, each followed by a gap.
pub fn sum_prefix(items: &[Pt], count: usize, gap: Pt) -> (r: Pt)
    requires
        count <= items.len(),
        sum_inputs_ok(items@, gap.0 as int),
    ensures
        r.0 == seq_sum(items@, count as int) + gap.0 * count,
{
    let mut sum: i128 = 0;
    let mut i: usize = 0;
    while i < count
        invariant
            count <= items.len(),
            sum_inputs_ok(items@, gap.0 as int),
            i <= count,
            sum == seq_sum(items@, i as int) + gap.0 * i,
        decreases count - i,
    {
        proof {
            lemma_seq_sum_bounds(items@, i + 1);
            let b = crate::pt::pt_bound();
            let k = (i + 1) as int;
            let g = gap.0 as int;
            assert(k * b <= 0x2000_0000_0000_0000_0000_0000_0000_0000 && -0x2000_0000_0000_0000_0000_0000_0000_0000 <= g * k <= 0x2000_0000_0000_0000_0000_0000_0000_0000 && -0x2000_0000_0000_0000_0000_0000_0000_0000 <= g * i <= 0x2000_0000_0000_0000_0000_0000_0000_0000) by (nonlinear_arith)
                requires
                    0 <= k <= 0x10001,
                    k == i + 1,
                    0 <= i,
                    b == 0x1000_0000_0000_0000_0000_0000_0000,
                    -b <= g <= b,
            ;
            assert(g * k == g * i + g) by (nonlinear_arith)
                requires
                    k == i + 1,
            ;
        }
        sum = sum + items[i].0;
        if gap.0 != 0 {
            sum = sum + gap.0;
        }
        i = i + 1;
    }
    Pt(sum)
}

/// Outcome of resolving one axis: `None` for the rejected inputs, else the track sizes.
pub open spec fn resolve_outcome(tracks: Seq<GridTrack>, gap: int, available: int, sizes: Seq<Pt>) -> Option<
    Seq<int>,
> {
    if tracks.len() == 0 {
        Some(Seq::empty())
    } else if has_false_auto(tracks) {
        None
    } else if fr_sum(tracks, tracks.len() as int) > 0 && available == i128::MAX {
        None
    } else {
        Some(Seq::new(tracks.len(), |i: int| resolved_track(tracks, sizes, gap, available, i)))
    }
}

/// `r` is the outcome `o`: an error for `None`, else exactly the sizes of `o`.
pub open spec fn matches_outcome(r: Result<Vec<Pt>, String>, o: Option<Seq<int>>) -> bool {
    match o {
        None => r is Err,
        Some(s) => r is Ok && r->Ok_0.len() == s.len() && forall|i: int|
            0 <= i < s.len() ==> #[trigger] r->Ok_0[i].0 == s[i],
    }
}

} // verus!
