use vstd::prelude::*;

use crate::list_markers::ListMarkerMap;
use crate::pt::Pt;
use crate::theme::Theme;

verus! {

/// What layout consults besides the tree: the theme, and the list marker labels derived for
/// arrangement.
pub struct LayoutContext<'a> {
    pub theme: &'a Theme,
    /// Derived list marker labels keyed by semantic node id (used during arrangement).
    pub list_markers: ListMarkerMap,
}

impl<'a> LayoutContext<'a> {
    /// A context over `theme` with no marker labels yet.
    pub fn new(theme: &'a Theme) -> (r: Self)
        ensures
            *r.theme == *theme,
            r.list_markers@ == Map::<Seq<char>, Seq<char>>::empty(),
    {
        LayoutContext { theme, list_markers: ListMarkerMap::new() }
    }
}

/// Represents a 2D size in fixed-point units.
#[derive(Debug, Clone, Copy, PartialEq, Eq, Structural)]
pub struct Size {
    pub width: Pt,
    pub height: Pt,
}

impl Size {
    pub fn new(width: Pt, height: Pt) -> (r: Self)
        ensures
            r.width == width,
            r.height == height,
    {
        Self { width, height }
    }
}

/// Represents a 2D point in fixed-point units.
#[derive(Debug, Clone, Copy, PartialEq, Eq, Structural)]
pub struct Point {
    pub x: Pt,
    pub y: Pt,
}

impl Point {
    pub fn new(x: Pt, y: Pt) -> (r: Self)
        ensures
            r.x == x,
            r.y == y,
    {
        Self { x, y }
    }
}

/// Constraints for layout measurement.
#[derive(Debug, Clone, Copy, PartialEq, Eq, Structural)]
pub struct SizeConstraint {
    pub min: Size,
    pub max: Size,
}

/// `v` raised to `lo`, then lowered to `hi` (`v.max(lo).min(hi)`).
pub open spec fn clamp_spec(v: int, lo: int, hi: int) -> int {
    let raised = if v >= lo { v } else { lo };
    if raised <= hi {
        raised
    } else {
        hi
    }
}

impl SizeConstraint {
    pub fn new(min: Size, max: Size) -> (r: Self)
        ensures
            r.min == min,
            r.max == max,
    {
        Self { min, max }
    }

    /// Returns a constraint that allows anything from 0 to infinity (represented by max i128 or close to it)
    pub fn infinite() -> (r: Self)
        ensures
            r.min.width.0 == 0,
            r.min.height.0 == 0,
            r.max.width.0 == i128::MAX,
            r.max.height.0 == i128::MAX,
    {
        Self {
            min: Size { width: Pt(0), height: Pt(0) },
            max: Size { width: Pt(i128::MAX), height: Pt(i128::MAX) },
        }
    }

    /// The size `constrain` returns for `size`.
    pub open spec fn constrain_spec(&self, size: Size) -> Size {
        Size {
            width: Pt(clamp_spec(size.width.0 as int, self.min.width.0 as int, self.max.width.0 as int) as i128),
            height: Pt(clamp_spec(size.height.0 as int, self.min.height.0 as int, self.max.height.0 as int) as i128),
        }
    }

    /// Returns the closest size to `size` that satisfies the constraints.
    pub fn constrain(&self, size: Size) -> (r: Size)
        ensures
            r == self.constrain_spec(size),
    {
        let width = clamp_i128(size.width.0, self.min.width.0, self.max.width.0);
        let height = clamp_i128(size.height.0, self.min.height.0, self.max.height.0);
        Size { width: Pt(width), height: Pt(height) }
    }
}

/// `v.max(lo).min(hi)` on `i128`.
fn clamp_i128(v: i128, lo: i128, hi: i128) -> (r: i128)
    ensures
        r == clamp_spec(v as int, lo as int, hi as int),
{
    let raised = if v >= lo {
        v
    } else {
        lo
    };
    if raised <= hi {
        raised
    } else {
        hi
    }
}

/// Law: when `min <= max` on an axis, the constrained size lies within the bounds, and a size
/// that already satisfies them is returned unchanged.
pub proof fn law_constrain_within_bounds(c: SizeConstraint, size: Size)
    requires
        c.min.width.0 <= c.max.width.0,
        c.min.height.0 <= c.max.height.0,
    ensures
        c.min.width.0 <= c.constrain_spec(size).width.0 <= c.max.width.0,
        c.min.height.0 <= c.constrain_spec(size).height.0 <= c.max.height.0,
        (c.min.width.0 <= size.width.0 <= c.max.width.0 && c.min.height.0 <= size.height.0 <= c.max.height.0)
            ==> c.constrain_spec(size) == size,
        c.constrain_spec(c.constrain_spec(size)) == c.constrain_spec(size),
{
}

} // verus!
