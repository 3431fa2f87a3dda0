use vstd::prelude::*;

use crate::pt::Pt;
use crate::text_types::{TextLayout, TextLine};

verus! {

/// A text node laid out for splitting across pages: its lines and the box around them.
pub struct TextPages {
    pub layout: TextLayout,
    pub padding_top: Pt,
    pub padding_bottom: Pt,
    pub padding_left: Pt,
    pub inner_w: Pt,
    pub outer_w: Pt,
    pub first_line_indent: Pt,
}

/// Sum of the heights of lines `[start, end)`.
pub open spec fn lines_height(lines: Seq<TextLine>, start: int, end: int) -> int
    decreases end - start,
{
    if end <= start {
        0
    } else {
        lines_height(lines, start, end - 1) + lines[end - 1].height.0
    }
}

/// Heights small enough that any sum over the lines stays inside `i128`.
pub open spec fn pages_metrics_ok(prep: TextPages) -> bool {
    &&& prep.layout.lines@.len() <= 0x100_0000
    &&& forall|i: int|
        0 <= i < prep.layout.lines@.len() ==> -0x10_0000_0000_0000_0000_0000_0000 <= (
        #[trigger] prep.layout.lines@[i]).height.0 <= 0x10_0000_0000_0000_0000_0000_0000
    &&& -0x10_0000_0000_0000_0000_0000_0000 <= prep.padding_top.0 <= 0x10_0000_0000_0000_0000_0000_0000
    &&& -0x10_0000_0000_0000_0000_0000_0000 <= prep.padding_bottom.0 <= 0x10_0000_0000_0000_0000_0000_0000
}

/// Height of the fragment holding lines `[start, end)`: the lines, plus the top padding when it
/// starts the node and the bottom padding when it ends it.
pub open spec fn fragment_height_spec(prep: TextPages, start: int, end: int) -> int {
    lines_height(prep.layout.lines@, start, end) + (if start == 0 {
        prep.padding_top.0 as int
    } else {
        0
    }) + (if end == prep.layout.lines@.len() {
        prep.padding_bottom.0 as int
    } else {
        0
    })
}

proof fn lemma_lines_height_bound(lines: Seq<TextLine>, start: int, end: int)
    requires
        0 <= start <= end <= lines.len(),
        forall|i: int|
            0 <= i < lines.len() ==> -0x10_0000_0000_0000_0000_0000_0000 <= (#[trigger] lines[i]).height.0
                <= 0x10_0000_0000_0000_0000_0000_0000,
    ensures
        -(end - start) * 0x10_0000_0000_0000_0000_0000_0000 <= lines_height(lines, start, end) <= (end - start)
            * 0x10_0000_0000_0000_0000_0000_0000,
    decreases end - start,
{
    if start < end {
        lemma_lines_height_bound(lines, start, end - 1);
    }
}

pub fn fragment_height(prep: &TextPages, start: usize, end: usize) -> (r: Pt)
    requires
        start <= end <= prep.layout.lines@.len(),
        pages_metrics_ok(*prep),
    ensures
        r.0 == fragment_height_spec(*prep, start as int, end as int),
{
    let lines = &prep.layout.lines;
    let mut h: i128 = 0;
    let mut i = start;
    while i < end
        invariant
            start <= i <= end <= lines@.len(),
            lines@ == prep.layout.lines@,
            pages_metrics_ok(*prep),
            h == lines_height(lines@, start as int, i as int),
        decreases end - i,
    {
        proof {
            lemma_lines_height_bound(lines@, start as int, i as int);
            assert(lines@[i as int].height.0 <= 0x10_0000_0000_0000_0000_0000_0000);
        }
        h = h + lines[i].height.0;
        i = i + 1;
    }
    proof {
        lemma_lines_height_bound(lines@, start as int, end as int);
    }
    if start == 0 {
        h = h + prep.padding_top.0;
    }
    if end == lines.len() {
        h = h + prep.padding_bottom.0;
    }
    Pt(h)
}

/// Height of a node's first fragment: its first line with the top padding (and the bottom padding
/// when that line is the last), or just the padding when it has no line.
pub fn first_line_height(prep: &TextPages) -> (r: Pt)
    requires
        pages_metrics_ok(*prep),
    ensures
        prep.layout.lines@.len() == 0 ==> r.0 == prep.padding_top.0 + prep.padding_bottom.0,
        prep.layout.lines@.len() > 0 ==> r.0 == fragment_height_spec(*prep, 0, 1),
{
    if prep.layout.lines.len() == 0 {
        Pt(prep.padding_top.0 + prep.padding_bottom.0)
    } else {
        fragment_height(prep, 0, 1)
    }
}

/// Law: splitting a text node's lines at any point leaves the fragment heights summing to the
/// height of the whole node.
pub proof fn law_fragments_partition_height(prep: TextPages, k: int)
    requires
        0 < k < prep.layout.lines@.len(),
    ensures
        fragment_height_spec(prep, 0, k) + fragment_height_spec(prep, k, prep.layout.lines@.len() as int)
            == fragment_height_spec(prep, 0, prep.layout.lines@.len() as int),
{
    lemma_lines_height_split(prep.layout.lines@, 0, k, prep.layout.lines@.len() as int);
}

proof fn lemma_lines_height_split(lines: Seq<TextLine>, a: int, b: int, c: int)
    requires
        a <= b <= c,
    ensures
        lines_height(lines, a, b) + lines_height(lines, b, c) == lines_height(lines, a, c),
    decreases c - b,
{
    if b < c {
        lemma_lines_height_split(lines, a, b, c - 1);
    }
}

} // verus!
