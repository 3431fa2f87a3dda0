use vstd::prelude::*;

use crate::model::{Align, JustifyContent};
use crate::pt::Pt;

verus! {

/// The child size after clamping to the available space: `min(natural, available)`.
pub open spec fn clamped_natural(available: int, natural: int) -> int {
    if natural > available {
        available
    } else {
        natural
    }
}

/// Free space left beside the clamped child (never negative).
pub open spec fn align_free(available: int, natural: int) -> int {
    let f = available - clamped_natural(available, natural);
    if f > 0 {
        f
    } else {
        0
    }
}

/// Offset of an aligned child inside an axis.
pub open spec fn align_offset_spec(align: Align, available: int, natural: int) -> int {
    match align {
        Align::Stretch => 0,
        Align::Start => 0,
        Align::Center => align_free(available, natural) / 2,
        Align::End => align_free(available, natural),
    }
}

/// Size of an aligned child along an axis: the whole axis when stretched, else its clamped size.
pub open spec fn align_size_spec(align: Align, available: int, natural: int) -> int {
    match align {
        Align::Stretch => available,
        _ => clamped_natural(available, natural),
    }
}

/// Compute a deterministic offset + (possibly stretched) size for a child inside an axis.
///
/// - For `stretch`, the child size becomes `available` and offset is 0.
/// - For other align modes, the child keeps its `natural` size (clamped to `available`)
///   and is offset within the available space.
pub fn align_offset_and_size(align: Align, available: Pt, natural: Pt) -> (r: (Pt, Pt))
    requires
        i128::MIN <= available.0 - clamped_natural(available.0 as int, natural.0 as int) <= i128::MAX,
    ensures
        r.0.0 == align_offset_spec(align, available.0 as int, natural.0 as int),
        r.1.0 == align_size_spec(align, available.0 as int, natural.0 as int),
{
    let natural = if natural.0 > available.0 {
        available
    } else {
        natural
    };
    let diff = available.0 - natural.0;
    let free = if diff > 0 {
        diff
    } else {
        0
    };
    match align {
        Align::Stretch => (Pt(0), available),
        Align::Start => (Pt(0), natural),
        Align::Center => (Pt(free / 2), natural),
        Align::End => (Pt(free), natural),
    }
}

/// Law: an aligned child never leaves its axis: offset and size are non-negative and the
/// child ends within `available` (for a non-negative available extent).
pub proof fn law_aligned_child_stays_inside(align: Align, available: int, natural: int)
    requires
        available >= 0,
        natural >= 0,
    ensures
        ({
            let off = match align {
                Align::Stretch => 0,
                Align::Start => 0,
                Align::Center => align_free(available, natural) / 2,
                Align::End => align_free(available, natural),
            };
            let size = match align {
                Align::Stretch => available,
                _ => clamped_natural(available, natural),
            };
            0 <= off && 0 <= size && off + size <= available
        }),
{
}

/// Leading offset of a stack's children: none, half the free space, or all of it.
pub open spec fn justify_spec(justify: JustifyContent, available: int, used: int) -> int {
    let free = if available - used > 0 {
        available - used
    } else {
        0
    };
    match justify {
        JustifyContent::Start => 0,
        JustifyContent::Center => free / 2,
        JustifyContent::End => free,
    }
}

/// Compute the deterministic leading offset for main-axis distribution.
pub fn justify_offset(justify: JustifyContent, available: Pt, used: Pt) -> (r: Pt)
    requires
        i128::MIN <= available.0 - used.0 <= i128::MAX,
    ensures
        r.0 == justify_spec(justify, available.0 as int, used.0 as int),
{
    let diff = available.0 - used.0;
    let free = if diff > 0 {
        diff
    } else {
        0
    };
    match justify {
        JustifyContent::Start => Pt(0),
        JustifyContent::Center => Pt(free / 2),
        JustifyContent::End => Pt(free),
    }
}

} // verus!
