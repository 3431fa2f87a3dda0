use vstd::prelude::*;

verus! {

/// A length in fixed-point units of 1/1000 pt.
///
/// `Pt(i128::MAX)` stands for an unbounded extent throughout layout.
#[derive(Debug, Clone, Copy, PartialEq, Eq, Structural)]
pub struct Pt(pub i128);

/// Largest magnitude a finite layout length may take so that sums and products of a few
/// lengths stay inside `i128`.
pub open spec fn pt_bound() -> int {
    0x1000_0000_0000_0000_0000_0000_0000 // 2^108
}

/// A finite length of bounded magnitude.
pub open spec fn finite_len(x: int) -> bool {
    -pt_bound() < x < pt_bound()
}

/// True when `v` encodes an unbounded extent.
pub open spec fn is_unbounded_spec(v: Pt) -> bool {
    v.0 == i128::MAX
}

impl Pt {
    /// The zero length.
    pub fn zero() -> (r: Pt)
        ensures
            r.0 == 0,
    {
        Pt(0)
    }

    /// Sum of two lengths.
    pub fn plus(self, other: Pt) -> (r: Pt)
        requires
            i128::MIN <= self.0 + other.0 <= i128::MAX,
        ensures
            r.0 == self.0 + other.0,
    {
        Pt(self.0 + other.0)
    }

    /// Difference of two lengths.
    pub fn minus(self, other: Pt) -> (r: Pt)
        requires
            i128::MIN <= self.0 - other.0 <= i128::MAX,
        ensures
            r.0 == self.0 - other.0,
    {
        Pt(self.0 - other.0)
    }
}

/// Rust's truncating division on integers, for a positive divisor.
pub open spec fn trunc_div(a: int, b: int) -> int
    recommends
        b > 0,
{
    if a >= 0 {
        a / b
    } else {
        -((-a) / b)
    }
}

/// Rust's remainder (sign follows the dividend), for a positive divisor.
pub open spec fn trunc_rem(a: int, b: int) -> int
    recommends
        b > 0,
{
    a - b * trunc_div(a, b)
}

/// Truncating division of `i128` values by a positive divisor, as Rust's `/` computes it.
pub fn i128_div(a: i128, b: i128) -> (r: i128)
    requires
        b > 0,
        a > i128::MIN,
    ensures
        r == trunc_div(a as int, b as int),
{
    if a >= 0 {
        a / b
    } else {
        let q = (-a) / b;
        -q
    }
}

} // verus!
