use vstd::prelude::*;

use crate::layout_context::{Size, SizeConstraint};
use crate::model::{FixedSizeHint, LayoutHint};
use crate::pt::{finite_len, Pt};
use crate::resolved_style::EdgeInsets;

verus! {

/// A length that is finite and bounded, or the unbounded marker.
pub open spec fn extent_ok(x: Pt) -> bool {
    x.0 == i128::MAX || finite_len(x.0 as int)
}

/// Insets whose sides are finite and bounded.
pub open spec fn insets_ok(p: EdgeInsets) -> bool {
    finite_len(p.top.0 as int) && finite_len(p.right.0 as int) && finite_len(p.bottom.0 as int) && finite_len(
        p.left.0 as int,
    )
}

/// The fixed size a layout hint declares (none for other layouts).
pub open spec fn fixed_size_hint_spec(layout: Option<LayoutHint>) -> FixedSizeHint {
    match layout {
        Some(LayoutHint::Stack { size, .. }) => size,
        Some(LayoutHint::Overlay { size }) => size,
        Some(LayoutHint::Grid { size, .. }) => size,
        _ => FixedSizeHint { width: None, height: None },
    }
}

/// Extract the fixed-size hint (if any) from a container layout hint.
///
/// Only some layout variants carry an explicit fixed size.
pub fn fixed_size_hint(layout: &Option<LayoutHint>) -> (r: FixedSizeHint)
    ensures
        r == fixed_size_hint_spec(*layout),
{
    match layout {
        Some(LayoutHint::Stack { size, .. }) => *size,
        Some(LayoutHint::Overlay { size }) => *size,
        Some(LayoutHint::Grid { size, .. }) => *size,
        _ => FixedSizeHint { width: None, height: None },
    }
}

/// `max - amount` floored at 0, unless `max` is unbounded.
pub open spec fn subtract_if_bounded_spec(max: int, amount: int) -> int {
    if max == i128::MAX {
        max
    } else if max - amount > 0 {
        max - amount
    } else {
        0
    }
}

pub open spec fn min_spec(a: int, b: int) -> int {
    if a <= b {
        a
    } else {
        b
    }
}

fn min_pt(a: Pt, b: Pt) -> (r: Pt)
    ensures
        r.0 == min_spec(a.0 as int, b.0 as int),
{
    if a.0 <= b.0 {
        a
    } else {
        b
    }
}

/// Subtract `amount` from a bounded `max` (never below 0); an unbounded `max` stays unbounded.
pub fn subtract_if_bounded(max: Pt, amount: Pt) -> (r: Pt)
    requires
        max.0 == i128::MAX || i128::MIN <= max.0 - amount.0 <= i128::MAX,
    ensures
        r.0 == subtract_if_bounded_spec(max.0 as int, amount.0 as int),
{
    if max.0 == i128::MAX {
        return max;
    }
    let v = max.0 - amount.0;
    if v > 0 {
        Pt(v)
    } else {
        Pt(0)
    }
}

/// Inner size available to children: the parent's max minus padding, capped by a fixed size
/// minus padding on each axis that declares one.
pub open spec fn inner_max_spec(constraint: SizeConstraint, padding: EdgeInsets, fixed: FixedSizeHint) -> (int, int) {
    let w0 = subtract_if_bounded_spec(constraint.max.width.0 as int, padding.horizontal_spec());
    let h0 = subtract_if_bounded_spec(constraint.max.height.0 as int, padding.vertical_spec());
    let w = match fixed.width {
        Some(fw) => min_spec(w0, subtract_if_bounded_spec(fw.0 as int, padding.horizontal_spec())),
        None => w0,
    };
    let h = match fixed.height {
        Some(fh) => min_spec(h0, subtract_if_bounded_spec(fh.0 as int, padding.vertical_spec())),
        None => h0,
    };
    (w, h)
}

/// Compute the maximum inner size available to children, applying padding and
/// fixed-size hints deterministically.
///
/// - Padding is always subtracted from the parent constraint's max.
/// - If a fixed width/height is present, children are constrained to the
///   corresponding inner size (fixed outer minus padding), but never exceed the
///   parent-provided max (deterministic).
pub fn inner_max_for_children(constraint: SizeConstraint, padding: EdgeInsets, fixed: FixedSizeHint) -> (r: Size)
    requires
        extent_ok(constraint.max.width),
        extent_ok(constraint.max.height),
        insets_ok(padding),
        fixed.width matches Some(w) ==> extent_ok(w),
        fixed.height matches Some(h) ==> extent_ok(h),
    ensures
        (r.width.0 as int, r.height.0 as int) == inner_max_spec(constraint, padding, fixed),
{
    let ph = padding.horizontal();
    let pv = padding.vertical();
    let mut inner_max = Size::new(
        subtract_if_bounded(constraint.max.width, ph),
        subtract_if_bounded(constraint.max.height, pv),
    );
    match fixed.width {
        Some(w) => {
            let fixed_inner_w = subtract_if_bounded(w, ph);
            inner_max.width = min_pt(inner_max.width, fixed_inner_w);
        },
        None => {},
    }
    match fixed.height {
        Some(h) => {
            let fixed_inner_h = subtract_if_bounded(h, pv);
            inner_max.height = min_pt(inner_max.height, fixed_inner_h);
        },
        None => {},
    }
    inner_max
}

/// Cap an already-negotiated inner size using fixed-size hints.
///
/// This is used during arrangement to ensure any re-measurement uses the same
/// effective bounds as the measurement pass for fixed-size containers.
pub fn cap_inner_size_by_fixed(inner: Size, padding: EdgeInsets, fixed: FixedSizeHint) -> (r: Size)
    requires
        insets_ok(padding),
        fixed.width matches Some(w) ==> extent_ok(w),
        fixed.height matches Some(h) ==> extent_ok(h),
    ensures
        r.width.0 == match fixed.width {
            Some(fw) => min_spec(inner.width.0 as int, subtract_if_bounded_spec(fw.0 as int, padding.horizontal_spec())),
            None => inner.width.0 as int,
        },
        r.height.0 == match fixed.height {
            Some(fh) => min_spec(inner.height.0 as int, subtract_if_bounded_spec(fh.0 as int, padding.vertical_spec())),
            None => inner.height.0 as int,
        },
{
    let mut capped = inner;
    match fixed.width {
        Some(w) => {
            let fixed_inner_w = subtract_if_bounded(w, padding.horizontal());
            capped.width = min_pt(capped.width, fixed_inner_w);
        },
        None => {},
    }
    match fixed.height {
        Some(h) => {
            let fixed_inner_h = subtract_if_bounded(h, padding.vertical());
            capped.height = min_pt(capped.height, fixed_inner_h);
        },
        None => {},
    }
    capped
}

/// Apply the fixed-size hint as a minimum outer size.
///
/// If a fixed width/height is present, the measured size becomes:
/// `max(measured, fixed)` for that axis, then clamped to the parent constraint.
pub fn apply_fixed_min_outer(measured_outer: Size, fixed: FixedSizeHint, constraint: SizeConstraint) -> (r: Size)
    ensures
        (fixed.width is None && fixed.height is None) ==> r == measured_outer,
        !(fixed.width is None && fixed.height is None) ==> r == constraint.constrain_spec(
            Size {
                width: match fixed.width {
                    Some(w) => if measured_outer.width.0 >= w.0 {
                        measured_outer.width
                    } else {
                        w
                    },
                    None => measured_outer.width,
                },
                height: match fixed.height {
                    Some(h) => if measured_outer.height.0 >= h.0 {
                        measured_outer.height
                    } else {
                        h
                    },
                    None => measured_outer.height,
                },
            },
        ),
{
    let mut out = measured_outer;
    let mut changed = false;
    match fixed.width {
        Some(w) => {
            if out.width.0 < w.0 {
                out.width = w;
            }
            changed = true;
        },
        None => {},
    }
    match fixed.height {
        Some(h) => {
            if out.height.0 < h.0 {
                out.height = h;
            }
            changed = true;
        },
        None => {},
    }
    if changed {
        constraint.constrain(out)
    } else {
        out
    }
}

/// Law: the inner space handed to children never exceeds the parent's max minus padding and is
/// never negative on a bounded axis.
pub proof fn law_inner_max_within_parent(constraint: SizeConstraint, padding: EdgeInsets, fixed: FixedSizeHint)
    requires
        constraint.max.width.0 != i128::MAX,
        constraint.max.height.0 != i128::MAX,
        fixed.width matches Some(w) ==> w.0 != i128::MAX,
        fixed.height matches Some(h) ==> h.0 != i128::MAX,
    ensures
        0 <= inner_max_spec(constraint, padding, fixed).0 <= subtract_if_bounded_spec(
            constraint.max.width.0 as int,
            padding.horizontal_spec(),
        ),
        0 <= inner_max_spec(constraint, padding, fixed).1 <= subtract_if_bounded_spec(
            constraint.max.height.0 as int,
            padding.vertical_spec(),
        ),
{
}

} // verus!
