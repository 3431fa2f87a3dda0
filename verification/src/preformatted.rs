//! Preformatted text (code blocks): hard newlines only, whitespace kept verbatim, blank lines
//! kept, no wrapping by width.

use vstd::prelude::*;

use crate::pt::Pt;
use crate::style::StyleView;
use crate::text_types::{
    line_height_for_style, line_height_spec, merge_push, push_or_merge_run, run_views, style_metrics_ok, TextLayout,
    TextLine, TextRun, TextRunView,
};
use crate::wrap_tokenize::{copy_run, FragKind, Fragment};

verus! {

/// A laid out line as values.
pub struct LineView {
    pub runs: Seq<TextRunView>,
    pub width: int,
    pub height: int,
}

/// A line as values.
pub open spec fn line_view(l: TextLine) -> LineView {
    LineView { runs: run_views(l.runs@), width: l.width.0 as int, height: l.height.0 as int }
}

/// Lines as values.
pub open spec fn line_views(lines: Seq<TextLine>) -> Seq<LineView> {
    lines.map_values(|l: TextLine| line_view(l))
}

/// Height a fragment asks of its line: an atom's measured height or the line height of the
/// fragment's style, at least the base line height.
pub open spec fn frag_height(f: Fragment, atom_h: int, base: int) -> int {
    let h = if f.kind == FragKind::Atom {
        atom_h
    } else {
        line_height_spec(f.run->Some_0.style@)
    };
    if h > base {
        h
    } else {
        base
    }
}

/// A finished line: its runs and width, and its tallest fragment's height (the base height
/// when it is empty).
pub open spec fn flushed(cur: Seq<TextRunView>, w: int, h: int, base: int) -> LineView {
    LineView {
        runs: cur,
        width: w,
        height: if cur.len() == 0 {
            base
        } else if h > base {
            h
        } else {
            base
        },
    }
}

/// After the first `k` fragments: the finished lines, and the open line's runs, width and
/// height. A newline finishes the open line; any other fragment joins it (merged into the
/// previous run when they touch and share a style), widening it by its measured width.
pub open spec fn pre_state(
    frags: Seq<Fragment>,
    widths: Seq<Pt>,
    atom_hs: Seq<Pt>,
    base: int,
    k: int,
) -> (Seq<LineView>, Seq<TextRunView>, int, int)
    decreases k,
{
    if k <= 0 {
        (seq![], seq![], 0, base)
    } else {
        let (done, cur, w, h) = pre_state(frags, widths, atom_hs, base, k - 1);
        let f = frags[k - 1];
        if f.kind == FragKind::Newline {
            (done.push(flushed(cur, w, h, base)), seq![], 0, base)
        } else {
            let fh = frag_height(f, atom_hs[k - 1].0 as int, base);
            (done, merge_push(cur, f.run->Some_0@), w + widths[k - 1].0, if fh > h {
                fh
            } else {
                h
            })
        }
    }
}

/// The lines of preformatted text: every line the fragments finish, then the last, open one
/// (kept even when empty).
pub open spec fn pre_lines(frags: Seq<Fragment>, widths: Seq<Pt>, atom_hs: Seq<Pt>, base: int) -> Seq<LineView> {
    let (done, cur, w, h) = pre_state(frags, widths, atom_hs, base, frags.len() as int);
    done.push(flushed(cur, w, h, base))
}

/// Fragments that can be laid out: a run on each that is not a newline, styles whose line
/// heights are computable, measured widths and atom heights within `2^100`, at most `2^20`.
pub open spec fn frags_ok(frags: Seq<Fragment>, widths: Seq<Pt>, atom_hs: Seq<Pt>) -> bool {
    &&& frags.len() == widths.len()
    &&& frags.len() == atom_hs.len()
    &&& frags.len() <= 0x10_0000
    &&& forall|k: int|
        0 <= k < frags.len() ==> {
            &&& (#[trigger] frags[k]).kind != FragKind::Newline ==> frags[k].run is Some
            &&& frags[k].kind != FragKind::Newline && frags[k].kind != FragKind::Atom ==> style_metrics_ok(
                frags[k].run->Some_0.style@,
            )
            &&& -0x10_0000_0000_0000_0000_0000_0000 <= widths[k].0 <= 0x10_0000_0000_0000_0000_0000_0000
            &&& -0x10_0000_0000_0000_0000_0000_0000 <= atom_hs[k].0 <= 0x10_0000_0000_0000_0000_0000_0000
        }
}

proof fn lemma_line_height_bound(s: StyleView)
    requires
        style_metrics_ok(s),
    ensures
        -0x100_0000_0000_0000_0000_0000_0000_0000 <= line_height_spec(s) <= 0x100_0000_0000_0000_0000_0000_0000_0000,
{
    let fs = s.font_size.0 as int;
    let lhm = s.line_height_mult as int;
    assert(-0x100_0000_0000_0000_0000_0000_0000_0000int <= fs * lhm <= 0x100_0000_0000_0000_0000_0000_0000_0000int) by (nonlinear_arith)
        requires
            -0x1000_0000_0000_0000int <= fs <= 0x1000_0000_0000_0000int,
            -0x1000_0000_0000_0000int <= lhm <= 0x1000_0000_0000_0000int,
    ;
    let p = fs * lhm;
    assert(-0x100_0000_0000_0000_0000_0000_0000_0000int / 1000 - 1 <= crate::pt::trunc_div(p, 1000)
        <= 0x100_0000_0000_0000_0000_0000_0000_0000int / 1000 + 1) by (nonlinear_arith)
        requires
            -0x100_0000_0000_0000_0000_0000_0000_0000int <= p <= 0x100_0000_0000_0000_0000_0000_0000_0000int,
    ;
}

proof fn lemma_pre_state_bounds(frags: Seq<Fragment>, widths: Seq<Pt>, atom_hs: Seq<Pt>, base: int, k: int)
    requires
        frags_ok(frags, widths, atom_hs),
        0 <= k <= frags.len(),
        -0x10_0000_0000_0000_0000_0000_0000 <= base <= 0x10_0000_0000_0000_0000_0000_0000,
    ensures
        ({
            let (done, cur, w, h) = pre_state(frags, widths, atom_hs, base, k);
            &&& done.len() <= k
            &&& -k * 0x10_0000_0000_0000_0000_0000_0000 <= w <= k * 0x10_0000_0000_0000_0000_0000_0000
            &&& -0x100_0000_0000_0000_0000_0000_0000_0000 <= h <= 0x100_0000_0000_0000_0000_0000_0000_0000
        }),
    decreases k,
{
    if k > 0 {
        lemma_pre_state_bounds(frags, widths, atom_hs, base, k - 1);
        let f = frags[k - 1];
        if f.kind != FragKind::Newline && f.kind != FragKind::Atom {
            lemma_line_height_bound(f.run->Some_0.style@);
        }
    }
}

/// Lay out preformatted text from its fragments, given each fragment's measured width and, for
/// an inline math atom, its measured height (see [`pre_lines`]).
pub fn preformatted_lines(frags: &Vec<Fragment>, widths: &[Pt], atom_heights: &[Pt], base_line_height: Pt) -> (r: Vec<
    TextLine,
>)
    requires
        frags_ok(frags@, widths@, atom_heights@),
        -0x10_0000_0000_0000_0000_0000_0000 <= base_line_height.0 <= 0x10_0000_0000_0000_0000_0000_0000,
    ensures
        line_views(r@) == pre_lines(frags@, widths@, atom_heights@, base_line_height.0 as int),
{
    let ghost base = base_line_height.0 as int;
    let mut out: Vec<TextLine> = Vec::new();
    let mut line_runs: Vec<TextRun> = Vec::new();
    let mut line_width = Pt(0);
    let mut line_height = base_line_height;
    let n = frags.len();
    let mut k: usize = 0;
    while k < n
        invariant
            n == frags@.len(),
            k <= n,
            frags_ok(frags@, widths@, atom_heights@),
            -0x10_0000_0000_0000_0000_0000_0000 <= base_line_height.0 <= 0x10_0000_0000_0000_0000_0000_0000,
            base == base_line_height.0,
            ({
                let (done, cur, w, h) = pre_state(frags@, widths@, atom_heights@, base, k as int);
                &&& line_views(out@) == done
                &&& run_views(line_runs@) == cur
                &&& line_width.0 == w
                &&& line_height.0 == h
            }),
        decreases n - k,
    {
        proof {
            lemma_pre_state_bounds(frags@, widths@, atom_heights@, base, k as int);
        }
        let ghost before = out@;
        let frag = &frags[k];
        match frag.kind {
            FragKind::Newline => {
                let ghost runs_before = line_runs@;
                let width = line_width;
                let height = if line_runs.len() == 0 {
                    base_line_height
                } else if line_height.0 > base_line_height.0 {
                    line_height
                } else {
                    base_line_height
                };
                let mut runs: Vec<TextRun> = Vec::new();
                std::mem::swap(&mut runs, &mut line_runs);
                out.push(TextLine { runs, width, height });
                line_width = Pt(0);
                line_height = base_line_height;
                proof {
                    assert(line_views(out@) =~= line_views(before).push(line_view(out@.last())));
                    assert(run_views(line_runs@) =~= Seq::<TextRunView>::empty());
                }
            },
            _ => {
                let run = match &frag.run {
                    Some(r) => copy_run(r),
                    None => {
                        proof {
                            assert(false);
                        }
                        return out;
                    },
                };
                let h0 = match frag.kind {
                    FragKind::Atom => atom_heights[k],
                    _ => {
                        proof {
                            lemma_line_height_bound(run.style@);
                        }
                        line_height_for_style(&run.style)
                    },
                };
                let fh = if h0.0 > base_line_height.0 {
                    h0
                } else {
                    base_line_height
                };
                line_width = Pt(line_width.0 + widths[k].0);
                if fh.0 > line_height.0 {
                    line_height = fh;
                }
                push_or_merge_run(&mut line_runs, run);
            },
        }
        k = k + 1;
    }
    proof {
        lemma_pre_state_bounds(frags@, widths@, atom_heights@, base, n as int);
    }
    let ghost before = out@;
    let width = line_width;
    let height = if line_runs.len() == 0 {
        base_line_height
    } else if line_height.0 > base_line_height.0 {
        line_height
    } else {
        base_line_height
    };
    out.push(TextLine { runs: line_runs, width, height });
    proof {
        assert(line_views(out@) =~= line_views(before).push(line_view(out@.last())));
    }
    out
}

/// Widest line width (at least zero) among the first `k` lines.
pub open spec fn lines_width(lines: Seq<TextLine>, k: int) -> int
    decreases k,
{
    if k <= 0 {
        0
    } else {
        let m = lines_width(lines, k - 1);
        if lines[k - 1].width.0 > m {
            lines[k - 1].width.0 as int
        } else {
            m
        }
    }
}

/// Total height of the first `k` lines.
pub open spec fn lines_height(lines: Seq<TextLine>, k: int) -> int
    decreases k,
{
    if k <= 0 {
        0
    } else {
        lines_height(lines, k - 1) + lines[k - 1].height.0
    }
}

proof fn lemma_lines_extent_bounds(lines: Seq<TextLine>, k: int)
    requires
        0 <= k <= lines.len(),
        lines.len() <= 0x10_0000,
        forall|i: int|
            0 <= i < lines.len() ==> -0x10_0000_0000_0000_0000_0000_0000 <= (#[trigger] lines[i]).height.0
                <= 0x10_0000_0000_0000_0000_0000_0000,
    ensures
        -k * 0x10_0000_0000_0000_0000_0000_0000 <= lines_height(lines, k) <= k * 0x10_0000_0000_0000_0000_0000_0000,
    decreases k,
{
    if k > 0 {
        lemma_lines_extent_bounds(lines, k - 1);
    }
}

/// A text layout of these lines: as wide as its widest line (at least zero) and as tall as its
/// lines together.
pub fn layout_of_lines(lines: Vec<TextLine>) -> (r: TextLayout)
    requires
        lines@.len() <= 0x10_0000,
        forall|i: int|
            0 <= i < lines@.len() ==> -0x10_0000_0000_0000_0000_0000_0000 <= (#[trigger] lines@[i]).height.0
                <= 0x10_0000_0000_0000_0000_0000_0000,
    ensures
        r.lines@ == lines@,
        r.width.0 == lines_width(lines@, lines@.len() as int),
        r.height.0 == lines_height(lines@, lines@.len() as int),
{
    let mut width: i128 = 0;
    let mut height: i128 = 0;
    let mut k: usize = 0;
    while k < lines.len()
        invariant
            k <= lines@.len(),
            lines@.len() <= 0x10_0000,
            forall|i: int|
                0 <= i < lines@.len() ==> -0x10_0000_0000_0000_0000_0000_0000 <= (#[trigger] lines@[i]).height.0
                    <= 0x10_0000_0000_0000_0000_0000_0000,
            width == lines_width(lines@, k as int),
            height == lines_height(lines@, k as int),
        decreases lines.len() - k,
    {
        proof {
            lemma_lines_extent_bounds(lines@, k + 1);
        }
        if lines[k].width.0 > width {
            width = lines[k].width.0;
        }
        height = height + lines[k].height.0;
        k = k + 1;
    }
    TextLayout { lines, width: Pt(width), height: Pt(height) }
}

} // verus!
