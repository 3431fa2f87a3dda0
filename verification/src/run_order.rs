use vstd::prelude::*;

use crate::model::Modifier;
use crate::text::{chars_of, same_text};

verus! {

/// Position of `t` in the precedence list, or the list's length when it is absent.
pub open spec fn prec_index(t: Seq<char>, prec: Seq<Seq<char>>) -> int
    decreases prec.len(),
{
    if prec.len() == 0 {
        0
    } else if prec[0] == t {
        0
    } else {
        1 + prec_index(t, prec.drop_first())
    }
}

/// Three-way lexicographic order of two character sequences by code point: -1, 0 or 1.
/// (UTF-8 preserves code point order, so this is the byte order `str` compares by.)
pub open spec fn lex_order(a: Seq<char>, b: Seq<char>) -> int
    decreases a.len(),
{
    if a.len() == 0 && b.len() == 0 {
        0
    } else if a.len() == 0 {
        -1
    } else if b.len() == 0 {
        1
    } else if a[0] != b[0] {
        if (a[0] as u32) < (b[0] as u32) {
            -1
        } else {
            1
        }
    } else {
        lex_order(a.drop_first(), b.drop_first())
    }
}

/// Three-way order of two integers: -1, 0 or 1.
pub open spec fn int_order(a: int, b: int) -> int {
    if a < b {
        -1
    } else if a == b {
        0
    } else {
        1
    }
}

/// The order modifiers apply in, as -1, 0 or 1: by type precedence, then type name, then longer
/// ranges first, then range start, then later range ends first, then intent.
pub open spec fn modifier_order(a: Modifier, b: Modifier, prec: Seq<Seq<char>>) -> int {
    let pa = prec_index(a.mod_type@, prec);
    let pb = prec_index(b.mod_type@, prec);
    let la = a.range@[1] - a.range@[0];
    let lb = b.range@[1] - b.range@[0];
    if pa != pb {
        int_order(pa, pb)
    } else if lex_order(a.mod_type@, b.mod_type@) != 0 {
        lex_order(a.mod_type@, b.mod_type@)
    } else if la != lb {
        int_order(lb, la)
    } else if a.range@[0] != b.range@[0] {
        int_order(a.range@[0] as int, b.range@[0] as int)
    } else if a.range@[1] != b.range@[1] {
        int_order(b.range@[1] as int, a.range@[1] as int)
    } else {
        lex_order(a.intent@, b.intent@)
    }
}

/// A precedence list as values.
pub open spec fn prec_view(precedence: Seq<String>) -> Seq<Seq<char>> {
    precedence.map_values(|s: String| s@)
}

/// Position of `mod_type` in `precedence`, or its length when absent.
pub fn precedence_index(mod_type: &str, precedence: &[String]) -> (r: usize)
    ensures
        r == prec_index(mod_type@, prec_view(precedence@)),
{
    let mut i: usize = 0;
    assert(precedence@.skip(0) =~= precedence@);
    while i < precedence.len()
        invariant
            i <= precedence@.len(),
            prec_index(mod_type@, prec_view(precedence@)) == i + prec_index(
                mod_type@,
                prec_view(precedence@.skip(i as int)),
            ),
        decreases precedence.len() - i,
    {
        proof {
            assert(prec_view(precedence@.skip(i as int)).drop_first() =~= prec_view(precedence@.skip(i + 1)));
        }
        if same_text(&precedence[i], mod_type) {
            return i;
        }
        i = i + 1;
    }
    proof {
        assert(prec_view(precedence@.skip(i as int)) =~= Seq::<Seq<char>>::empty());
    }
    i
}

/// Character code of `c`.
fn code_of(c: char) -> (r: u32)
    ensures
        r == c as u32,
{
    c as u32
}

/// Lexicographic order of two strings by character code: -1, 0 or 1.
pub fn text_order(a: &str, b: &str) -> (r: i8)
    ensures
        r as int == lex_order(a@, b@),
{
    let ca = chars_of(a);
    let cb = chars_of(b);
    let mut i: usize = 0;
    assert(a@.skip(0) =~= a@);
    assert(b@.skip(0) =~= b@);
    while i < ca.len() && i < cb.len()
        invariant
            ca@ == a@,
            cb@ == b@,
            i <= ca@.len(),
            i <= cb@.len(),
            lex_order(a@, b@) == lex_order(a@.skip(i as int), b@.skip(i as int)),
        decreases ca.len() - i,
    {
        proof {
            assert(a@.skip(i as int).drop_first() =~= a@.skip(i + 1));
            assert(b@.skip(i as int).drop_first() =~= b@.skip(i + 1));
        }
        if ca[i] != cb[i] {
            let x = code_of(ca[i]);
            let y = code_of(cb[i]);
            if x < y {
                return -1;
            }
            return 1;
        }
        assert(a@.skip(i as int)[0] == b@.skip(i as int)[0]);
        i = i + 1;
    }
    if i < ca.len() {
        1
    } else if i < cb.len() {
        -1
    } else {
        proof {
            assert(a@.skip(i as int).len() == 0);
            assert(b@.skip(i as int).len() == 0);
        }
        0
    }
}

/// Three-way order of two lengths.
fn usize_order(a: usize, b: usize) -> (r: i8)
    ensures
        r as int == int_order(a as int, b as int),
{
    if a < b {
        -1
    } else if a == b {
        0
    } else {
        1
    }
}

/// The order two modifiers apply in, as -1, 0 or 1 (`modifier_order`).
pub fn modifier_order_of(a: &Modifier, b: &Modifier, precedence: &[String]) -> (r: i8)
    requires
        a.range@[0] <= a.range@[1],
        b.range@[0] <= b.range@[1],
    ensures
        r as int == modifier_order(*a, *b, prec_view(precedence@)),
{
    let pa = precedence_index(a.mod_type.as_str(), precedence);
    let pb = precedence_index(b.mod_type.as_str(), precedence);
    if pa != pb {
        return usize_order(pa, pb);
    }
    let t = text_order(a.mod_type.as_str(), b.mod_type.as_str());
    if t != 0 {
        return t;
    }
    let la = a.range[1] - a.range[0];
    let lb = b.range[1] - b.range[0];
    if la != lb {
        return usize_order(lb, la);
    }
    if a.range[0] != b.range[0] {
        return usize_order(a.range[0], b.range[0]);
    }
    if a.range[1] != b.range[1] {
        return usize_order(b.range[1], a.range[1]);
    }
    text_order(a.intent.as_str(), b.intent.as_str())
}

} // verus!
