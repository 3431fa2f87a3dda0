use vstd::prelude::*;

use crate::pt::Pt;
use crate::style::TextAlign;

verus! {

/// Mutable budget of millipt to inject into U+0020 advances while placing a justified line.
pub struct JustifyBudget {
    pub extra_per: Pt,
    pub rem: i128,
}

impl JustifyBudget {
    /// Extra advance for the next space: one more millipoint while the remainder lasts.
    pub fn take_space_extra(&mut self) -> (r: Pt)
        requires
            old(self).extra_per.0 < i128::MAX,
        ensures
            (old(self).extra_per.0 == 0 && old(self).rem == 0) ==> r.0 == 0 && *final(self) == *old(self),
            !(old(self).extra_per.0 == 0 && old(self).rem == 0) ==> {
                &&& r.0 == old(self).extra_per.0 + if old(self).rem > 0 {
                    1int
                } else {
                    0int
                }
                &&& final(self).extra_per == old(self).extra_per
                &&& final(self).rem == if old(self).rem > 0 {
                    old(self).rem - 1
                } else {
                    old(self).rem as int
                }
            },
    {
        if self.extra_per.0 == 0 && self.rem == 0 {
            return Pt(0);
        }
        let mut e = self.extra_per;
        if self.rem > 0 {
            e = Pt(e.0 + 1);
            self.rem = self.rem - 1;
        }
        e
    }
}

/// Compute a deterministic x-start offset for a line of text inside a text box.
///
/// `Justify` uses the same start offset as `Start`; stretching is applied separately
/// by expanding U+0020 advances on non-final lines.
pub fn line_start_offset(align: TextAlign, node_width: Pt, line_width: Pt) -> (r: Pt)
    requires
        i128::MIN <= node_width.0 - line_width.0 <= i128::MAX,
    ensures
        line_width.0 >= node_width.0 ==> r.0 == 0,
        line_width.0 < node_width.0 ==> r.0 == match align {
            TextAlign::Start | TextAlign::Justify => 0,
            TextAlign::Center => (node_width.0 - line_width.0) / 2,
            TextAlign::End => node_width.0 - line_width.0,
        },
{
    if line_width.0 >= node_width.0 {
        return Pt(0);
    }
    let free = node_width.0 - line_width.0;
    match align {
        TextAlign::Start | TextAlign::Justify => Pt(0),
        TextAlign::Center => Pt(free / 2),
        TextAlign::End => Pt(free),
    }
}

/// Extra advance per U+0020 on a justified line, plus leftover millipt for the first gaps.
///
/// Returns `(extra_per_space, remainder)` where the first `remainder` spaces also get +1 millipt.
pub fn justify_space_extras(
    align: TextAlign,
    node_width: Pt,
    line_width: Pt,
    space_count: usize,
    is_last_line: bool,
) -> (r: (Pt, i128))
    requires
        i128::MIN <= node_width.0 - line_width.0 <= i128::MAX,
    ensures
        (align != TextAlign::Justify || is_last_line || space_count == 0 || line_width.0 >= node_width.0) ==> r.0.0
            == 0 && r.1 == 0,
        !(align != TextAlign::Justify || is_last_line || space_count == 0 || line_width.0 >= node_width.0) ==> {
            &&& r.0.0 == (node_width.0 - line_width.0) / (space_count as int)
            &&& r.1 == (node_width.0 - line_width.0) % (space_count as int)
        },
{
    match align {
        TextAlign::Justify => {},
        _ => {
            return (Pt(0), 0);
        },
    }
    if is_last_line || space_count == 0 {
        return (Pt(0), 0);
    }
    if line_width.0 >= node_width.0 {
        return (Pt(0), 0);
    }
    let free = node_width.0 - line_width.0;
    let n = space_count as i128;
    (Pt(free / n), free % n)
}

/// Law: on a justified line the per-space extras hand out exactly the free width.
pub proof fn law_justify_extras_fill_line(node_width: int, line_width: int, space_count: int)
    requires
        line_width < node_width,
        space_count > 0,
    ensures
        ((node_width - line_width) / space_count) * space_count + (node_width - line_width) % space_count
            == node_width - line_width,
        0 <= (node_width - line_width) % space_count < space_count,
{
    let f = node_width - line_width;
    assert((f / space_count) * space_count + f % space_count == f) by (nonlinear_arith)
        requires
            space_count > 0,
    ;
    assert(0 <= f % space_count < space_count) by (nonlinear_arith)
        requires
            space_count > 0,
    ;
}

/// Number of U+0020 characters in `s`.
pub open spec fn space_count(s: Seq<char>) -> nat
    decreases s.len(),
{
    if s.len() == 0 {
        0
    } else {
        space_count(s.drop_last()) + if s.last() == ' ' {
            1nat
        } else {
            0nat
        }
    }
}

/// Number of U+0020 characters over all the parts.
pub open spec fn parts_space_count(parts: Seq<String>) -> nat
    decreases parts.len(),
{
    if parts.len() == 0 {
        0
    } else {
        parts_space_count(parts.drop_last()) + space_count(parts.last()@)
    }
}

proof fn lemma_space_count_le(s: Seq<char>)
    ensures
        space_count(s) <= s.len(),
    decreases s.len(),
{
    if s.len() > 0 {
        lemma_space_count_le(s.drop_last());
    }
}

/// Count the U+0020 spaces of a line's text parts (the gaps justification stretches).
pub fn count_justify_spaces(line_text_parts: &[String]) -> (r: usize)
    requires
        parts_space_count(line_text_parts@) <= usize::MAX,
    ensures
        r == parts_space_count(line_text_parts@),
{
    let mut total: usize = 0;
    let mut k: usize = 0;
    assert(line_text_parts@.take(0) =~= Seq::<String>::empty());
    while k < line_text_parts.len()
        invariant
            k <= line_text_parts@.len(),
            parts_space_count(line_text_parts@) <= usize::MAX,
            total == parts_space_count(line_text_parts@.take(k as int)),
        decreases line_text_parts.len() - k,
    {
        let chars = crate::text::chars_of(line_text_parts[k].as_str());
        let mut n: usize = 0;
        let mut i: usize = 0;
        assert(chars@.take(0) =~= Seq::<char>::empty());
        while i < chars.len()
            invariant
                i <= chars@.len(),
                n == space_count(chars@.take(i as int)),
            decreases chars.len() - i,
        {
            proof {
                assert(chars@.take(i + 1).drop_last() =~= chars@.take(i as int));
                lemma_space_count_le(chars@.take(i as int));
            }
            if chars[i] == ' ' {
                n = n + 1;
            }
            i = i + 1;
        }
        proof {
            assert(chars@.take(i as int) =~= chars@);
            assert(line_text_parts@.take(k + 1).drop_last() =~= line_text_parts@.take(k as int));
            lemma_parts_prefix_le(line_text_parts@, k + 1);
        }
        total = total + n;
        k = k + 1;
    }
    proof {
        assert(line_text_parts@.take(k as int) =~= line_text_parts@);
    }
    total
}

proof fn lemma_parts_prefix_le(parts: Seq<String>, k: int)
    requires
        0 <= k <= parts.len(),
    ensures
        parts_space_count(parts.take(k)) <= parts_space_count(parts),
    decreases parts.len() - k,
{
    if k < parts.len() {
        lemma_parts_prefix_le(parts.drop_last(), k);
        assert(parts.drop_last().take(k) =~= parts.take(k));
    } else {
        assert(parts.take(k) =~= parts);
    }
}

} // verus!
