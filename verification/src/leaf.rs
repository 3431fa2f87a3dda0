use vstd::prelude::*;

use crate::layout_context::{Size, SizeConstraint};
use crate::pt::{trunc_div, Pt};
use crate::text::{decimal, decimal_text, join, owned};

verus! {

pub open spec fn in_i128(x: int) -> bool {
    i128::MIN <= x <= i128::MAX
}

/// Error text for a box with a size that is not positive.
pub open spec fn size_message(what: Seq<char>, width: int, height: int) -> Seq<char> {
    what + " size must be positive (width="@ + decimal_text(width) + ", height="@ + decimal_text(height) + ")"@
}

/// Error text when fitting a size into its bounds overflows.
pub open spec fn fit_overflow_message() -> Seq<char> {
    "choose_fit_scale: overflow comparing width/height constraints"@
}

/// Error text when scaling a size overflows.
pub open spec fn scale_overflow_message() -> Seq<char> {
    "checked_mul_div: overflow during scaling"@
}

/// The error `measure_image` gives where [`measure_image_spec`] has no size: a size that is not
/// positive, else an overflow fitting it into its bounds, else an overflow scaling it.
pub open spec fn measure_image_error(width: int, height: int, constraint: SizeConstraint) -> Seq<char> {
    if width <= 0 || height <= 0 {
        size_message("Image"@, width, height)
    } else if fit_scale_spec(width, height, constraint.max.width.0 as int, constraint.max.height.0 as int) is None {
        fit_overflow_message()
    } else {
        scale_overflow_message()
    }
}

/// Scale `num/den` that fits `(w, h)` into `(max_w, max_h)`; `None` when a comparison overflows
/// or a size is not positive.
pub open spec fn fit_scale_spec(w: int, h: int, max_w: int, max_h: int) -> Option<(int, int)> {
    let mw = if max_w > 0 { max_w } else { 0 };
    let mh = if max_h > 0 { max_h } else { 0 };
    if w <= 0 || h <= 0 {
        None
    } else if max_w == i128::MAX && max_h == i128::MAX {
        Some((1, 1))
    } else if max_w == i128::MAX {
        Some((mh, h))
    } else if max_h == i128::MAX {
        Some((mw, w))
    } else if !in_i128(max_w * h) || !in_i128(max_h * w) {
        None
    } else if max_w * h <= max_h * w {
        Some((mw, w))
    } else {
        Some((mh, h))
    }
}

/// `value * num / den` (truncating); 0 for a non-positive `num`; `None` on overflow or `den == 0`.
pub open spec fn mul_div_spec(value: int, num: int, den: int) -> Option<int> {
    if den == 0 {
        None
    } else if num <= 0 {
        Some(0)
    } else if !in_i128(value * num) {
        None
    } else {
        Some(trunc_div(value * num, den))
    }
}

fn is_unbounded(v: Pt) -> (r: bool)
    ensures
        r == (v.0 == i128::MAX),
{
    v.0 == i128::MAX
}

/// Choose the scale factor (as a rational num/den) that fits (width,height) into (max_w,max_h).
/// Returned ratio is always >= 0 and typically <= 1 for downscaling.
fn choose_fit_scale(width: Pt, height: Pt, max_w: Pt, max_h: Pt) -> (r: Result<(i128, i128), String>)
    ensures
        match fit_scale_spec(width.0 as int, height.0 as int, max_w.0 as int, max_h.0 as int) {
            Some((n, d)) => r matches Ok(p) && p.0 == n && p.1 == d,
            None => r is Err,
        },
        width.0 > 0 && height.0 > 0 ==> (r matches Err(e) ==> e@ == fit_overflow_message()),
{
    proof {
        reveal_strlit("choose_fit_scale: overflow comparing width/height constraints");
    }
    let w = width.0;
    let h = height.0;
    if w <= 0 || h <= 0 {
        return Err(owned("choose_fit_scale: width/height must be positive"));
    }
    if is_unbounded(max_w) && is_unbounded(max_h) {
        return Ok((1, 1));
    }
    if is_unbounded(max_w) {
        let num = if max_h.0 > 0 {
            max_h.0
        } else {
            0
        };
        return Ok((num, h));
    }
    if is_unbounded(max_h) {
        let num = if max_w.0 > 0 {
            max_w.0
        } else {
            0
        };
        return Ok((num, w));
    }
    let left = match max_w.0.checked_mul(h) {
        Some(v) => v,
        None => {
            return Err(owned("choose_fit_scale: overflow comparing width/height constraints"));
        },
    };
    let right = match max_h.0.checked_mul(w) {
        Some(v) => v,
        None => {
            return Err(owned("choose_fit_scale: overflow comparing width/height constraints"));
        },
    };
    if left <= right {
        Ok((if max_w.0 > 0 {
            max_w.0
        } else {
            0
        }, w))
    } else {
        Ok((if max_h.0 > 0 {
            max_h.0
        } else {
            0
        }, h))
    }
}

fn checked_mul_div(value: i128, num: i128, den: i128) -> (r: Result<i128, String>)
    requires
        den >= 0,
        value > 0,
    ensures
        match mul_div_spec(value as int, num as int, den as int) {
            Some(v) => r == Ok::<i128, String>(v as i128),
            None => r is Err,
        },
        den > 0 ==> (r matches Err(e) ==> e@ == scale_overflow_message()),
{
    proof {
        reveal_strlit("checked_mul_div: overflow during scaling");
    }
    if den == 0 {
        return Err(owned("checked_mul_div: division by zero"));
    }
    if num <= 0 {
        return Ok(0);
    }
    let prod = match value.checked_mul(num) {
        Some(p) => p,
        None => {
            return Err(owned("checked_mul_div: overflow during scaling"));
        },
    };
    Ok(crate::pt::i128_div(prod, den))
}

/// The size `measure_image` returns, or `None` when it fails.
pub open spec fn measure_image_spec(width: int, height: int, constraint: SizeConstraint) -> Option<Size> {
    let max = constraint.max;
    let natural = Size { width: Pt(width as i128), height: Pt(height as i128) };
    if width <= 0 || height <= 0 {
        None
    } else if max.width.0 == i128::MAX && max.height.0 == i128::MAX {
        Some(constraint.constrain_spec(natural))
    } else if (max.width.0 == i128::MAX || width <= max.width.0) && (max.height.0 == i128::MAX || height
        <= max.height.0) {
        Some(constraint.constrain_spec(natural))
    } else {
        match fit_scale_spec(width, height, max.width.0 as int, max.height.0 as int) {
            None => None,
            Some((n, d)) => match (mul_div_spec(width, n, d), mul_div_spec(height, n, d)) {
                (Some(sw), Some(sh)) => Some(
                    constraint.constrain_spec(Size { width: Pt(sw as i128), height: Pt(sh as i128) }),
                ),
                _ => None,
            },
        }
    }
}

/// Deterministic sizing for leaf nodes (no external resource loading).
pub fn measure_image(width: Pt, height: Pt, constraint: SizeConstraint) -> (r: Result<Size, String>)
    ensures
        match measure_image_spec(width.0 as int, height.0 as int, constraint) {
            Some(s) => r == Ok::<Size, String>(s),
            None => r is Err && r->Err_0@ == measure_image_error(width.0 as int, height.0 as int, constraint),
        },
{
    proof {
        reveal_strlit("Image");
        reveal_strlit("Image size must be positive (width=");
        reveal_strlit(" size must be positive (width=");
        assert("Image"@ + " size must be positive (width="@ =~= "Image size must be positive (width="@);
        reveal_strlit(", height=");
        reveal_strlit(")");
    }
    if width.0 <= 0 || height.0 <= 0 {
        let m = join(
            join(
                join(join(owned("Image size must be positive (width="), decimal(width.0).as_str()), ", height="),
                decimal(height.0).as_str(),
            ),
            ")",
        );
        return Err(m);
    }
    let natural = Size::new(width, height);
    let max = constraint.max;
    if is_unbounded(max.width) && is_unbounded(max.height) {
        return Ok(constraint.constrain(natural));
    }
    if (is_unbounded(max.width) || width.0 <= max.width.0) && (is_unbounded(max.height) || height.0
        <= max.height.0) {
        return Ok(constraint.constrain(natural));
    }
    let (scale_num, scale_den) = match choose_fit_scale(width, height, max.width, max.height) {
        Ok(p) => p,
        Err(e) => {
            return Err(e);
        },
    };
    let scaled_w = match checked_mul_div(width.0, scale_num, scale_den) {
        Ok(v) => v,
        Err(e) => {
            return Err(e);
        },
    };
    let scaled_h = match checked_mul_div(height.0, scale_num, scale_den) {
        Ok(v) => v,
        Err(e) => {
            return Err(e);
        },
    };
    Ok(constraint.constrain(Size::new(Pt(scaled_w), Pt(scaled_h))))
}

/// Table references keep their declared size, clamped by the constraint.
pub fn measure_table_reference(width: Pt, height: Pt, constraint: SizeConstraint) -> (r: Result<Size, String>)
    ensures
        (width.0 <= 0 || height.0 <= 0) ==> r is Err && r->Err_0@ == size_message(
            "TableReference"@,
            width.0 as int,
            height.0 as int,
        ),
        !(width.0 <= 0 || height.0 <= 0) ==> r == Ok::<Size, String>(
            constraint.constrain_spec(Size { width, height }),
        ),
{
    proof {
        reveal_strlit("TableReference");
        reveal_strlit("TableReference size must be positive (width=");
        reveal_strlit(" size must be positive (width=");
        assert("TableReference"@ + " size must be positive (width="@ =~= "TableReference size must be positive (width="@);
        reveal_strlit(", height=");
        reveal_strlit(")");
    }
    if width.0 <= 0 || height.0 <= 0 {
        let m = join(
            join(
                join(
                    join(owned("TableReference size must be positive (width="), decimal(width.0).as_str()),
                    ", height=",
                ),
                decimal(height.0).as_str(),
            ),
            ")",
        );
        return Err(m);
    }
    Ok(constraint.constrain(Size::new(width, height)))
}

/// Law: a scaled-down image keeps within a bounded max width it was scaled for, when the
/// scale comes from the width axis.
pub proof fn law_fit_scale_respects_width(w: int, h: int, max_w: int, max_h: int)
    requires
        w > 0,
        h > 0,
        0 <= max_w < i128::MAX,
        max_h == i128::MAX,
    ensures
        fit_scale_spec(w, h, max_w, max_h) == Some((max_w, w)),
        (w * max_w) / w == max_w,
{
    assert((w * max_w) / w == max_w) by (nonlinear_arith)
        requires
            w > 0,
    ;
}

} // verus!
