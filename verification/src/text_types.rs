use vstd::prelude::*;
use vstd::string::*;

use crate::pt::Pt;
use crate::style::{Style, StyleView};

verus! {

/// A contiguous segment of text with a single resolved `Style`.
///
/// Offsets are byte offsets into the original UTF-8 string.
#[derive(Debug, Clone, PartialEq)]
pub struct TextRun {
    pub start: usize,
    pub end: usize,
    pub style: Style,
    pub text: String,
    /// TeX source when this run is an unsplittable inline math atom (U+FFFC).
    pub math_tex: Option<String>,
}

/// A run with its strings as character sequences.
pub struct TextRunView {
    pub start: int,
    pub end: int,
    pub style: StyleView,
    pub text: Seq<char>,
    pub math_tex: Option<Seq<char>>,
}

pub open spec fn opt_text_view(s: Option<String>) -> Option<Seq<char>> {
    match s {
        Some(t) => Some(t@),
        None => None,
    }
}

impl View for TextRun {
    type V = TextRunView;

    open spec fn view(&self) -> TextRunView {
        TextRunView {
            start: self.start as int,
            end: self.end as int,
            style: self.style@,
            text: self.text@,
            math_tex: opt_text_view(self.math_tex),
        }
    }
}

/// Runs as values.
pub open spec fn run_views(runs: Seq<TextRun>) -> Seq<TextRunView> {
    runs.map_values(|r: TextRun| r@)
}

/// `runs` after appending `next`, merged into the last run when they touch and share a style.
pub open spec fn merge_push(runs: Seq<TextRunView>, next: TextRunView) -> Seq<TextRunView> {
    if runs.len() > 0 && runs.last().end == next.start && runs.last().style == next.style
        && runs.last().math_tex is None && next.math_tex is None {
        runs.drop_last().push(TextRunView { end: next.end, text: runs.last().text + next.text, ..runs.last() })
    } else {
        runs.push(next)
    }
}

/// True when `push_or_merge_run` would concatenate `next` onto `prev`.
pub open spec fn runs_merge_spec(prev: TextRun, next: TextRun) -> bool {
    prev.end == next.start && prev.style@ == next.style@ && prev.math_tex is None && next.math_tex is None
}

/// Field-wise equality of two styles.
pub fn style_eq(a: &Style, b: &Style) -> (r: bool)
    ensures
        r == (a@ == b@),
{
    a.font_family == b.font_family && a.font_size.0 == b.font_size.0 && a.line_height_mult == b.line_height_mult
        && a.color == b.color && a.text_align == b.text_align && a.bold == b.bold && a.italic == b.italic
        && a.strikethrough == b.strikethrough && a.underline == b.underline && a.letter_spacing.0
        == b.letter_spacing.0 && a.first_line_indent.0 == b.first_line_indent.0 && a.baseline_shift.0
        == b.baseline_shift.0
}

/// True when `push_or_merge_run` would concatenate `next` onto `prev`.
pub fn runs_merge(prev: &TextRun, next: &TextRun) -> (r: bool)
    ensures
        r == runs_merge_spec(*prev, *next),
{
    prev.end == next.start && style_eq(&prev.style, &next.style) && prev.math_tex.is_none()
        && next.math_tex.is_none()
}

/// Extra advance inserted between two wrap fragments that later merge into one shaped run.
///
/// Tracking is applied inside a shaped run (not after its last glyph). Measuring each
/// whitespace/word fragment separately would omit the join between fragments, so center/end
/// alignment and wrap decisions would use a width smaller than paint.
pub fn merge_join_tracking(prev: &TextRun, next: &TextRun) -> (r: Pt)
    ensures
        r == if runs_merge_spec(*prev, *next) && prev.text@.len() != 0 && next.text@.len() != 0 {
            prev.style.letter_spacing
        } else {
            Pt(0)
        },
{
    if runs_merge(prev, next) && !prev.text.as_str().is_empty() && !next.text.as_str().is_empty() {
        prev.style.letter_spacing
    } else {
        Pt(0)
    }
}

/// `prev` extended by `next`: the end and text of `next` appended.
pub open spec fn merged_run_ok(m: TextRun, prev: TextRun, next: TextRun) -> bool {
    &&& m.start == prev.start
    &&& m.end == next.end
    &&& m.style == prev.style
    &&& m.text@ == prev.text@ + next.text@
    &&& m.math_tex == prev.math_tex
}

/// Pushes a run into `out`, merging with the previous run when possible.
///
/// Two runs can be merged when they are adjacent in the original string (byte offsets touch)
/// and have an identical resolved `Style`.
pub fn push_or_merge_run(out: &mut Vec<TextRun>, run: TextRun)
    ensures
        (old(out)@.len() > 0 && runs_merge_spec(old(out)@.last(), run)) ==> {
            &&& final(out)@.len() == old(out)@.len()
            &&& final(out)@.drop_last() == old(out)@.drop_last()
            &&& merged_run_ok(final(out)@.last(), old(out)@.last(), run)
        },
        !(old(out)@.len() > 0 && runs_merge_spec(old(out)@.last(), run)) ==> final(out)@ == old(out)@.push(run),
        run_views(final(out)@) == merge_push(run_views(old(out)@), run@),
{
    let n = out.len();
    if n > 0 {
        let merge = runs_merge(&out[n - 1], &run);
        if merge {
            let mut last = out.pop().unwrap();
            last.end = run.end;
            last.text.append(run.text.as_str());
            out.push(last);
            proof {
                assert(out@.drop_last() =~= old(out)@.drop_last());
                assert(run_views(out@) =~= merge_push(run_views(old(out)@), run@));
            }
            return;
        }
    }
    out.push(run);
    proof {
        assert(run_views(out@) =~= merge_push(run_views(old(out)@), run@));
    }
}

/// One laid out line of text.
#[derive(Debug, Clone, PartialEq)]
pub struct TextLine {
    pub runs: Vec<TextRun>,
    pub width: Pt,
    pub height: Pt,
}

/// The result of laying out a text node.
#[derive(Debug, Clone, PartialEq)]
pub struct TextLayout {
    pub lines: Vec<TextLine>,
    pub width: Pt,
    pub height: Pt,
}

/// Line height of a style: `font_size * line_height_mult / 1000`, plus the baseline shift's magnitude.
pub open spec fn line_height_spec(s: StyleView) -> int {
    crate::pt::trunc_div(s.font_size.0 * s.line_height_mult, 1000) + if s.baseline_shift.0 < 0 {
        -s.baseline_shift.0
    } else {
        s.baseline_shift.0 as int
    }
}

/// Styles whose line-height arithmetic stays inside `i128`.
pub open spec fn style_metrics_ok(s: StyleView) -> bool {
    &&& -0x1000_0000_0000_0000 <= s.font_size.0 <= 0x1000_0000_0000_0000
    &&& -0x1000_0000_0000_0000 <= s.line_height_mult <= 0x1000_0000_0000_0000
    &&& -0x1_0000_0000_0000_0000_0000_0000 <= s.baseline_shift.0 <= 0x1_0000_0000_0000_0000_0000_0000
}

pub fn line_height_for_style(style: &Style) -> (r: Pt)
    requires
        style_metrics_ok(style@),
    ensures
        r.0 == line_height_spec(style@),
{
    let fs = style.font_size.0;
    let lhm = style.line_height_mult;
    proof {
        assert(-0x100_0000_0000_0000_0000_0000_0000_0000int <= fs * lhm <= 0x100_0000_0000_0000_0000_0000_0000_0000int) by (nonlinear_arith)
            requires
                -0x1000_0000_0000_0000int <= fs <= 0x1000_0000_0000_0000int,
                -0x1000_0000_0000_0000int <= lhm <= 0x1000_0000_0000_0000int,
        ;
        let p = fs * lhm;
        assert(-0x100_0000_0000_0000_0000_0000_0000_0000int <= crate::pt::trunc_div(p, 1000) <= 0x100_0000_0000_0000_0000_0000_0000_0000int) by (nonlinear_arith)
            requires
                -0x100_0000_0000_0000_0000_0000_0000_0000int <= p <= 0x100_0000_0000_0000_0000_0000_0000_0000int,
        ;
    }
    let base = crate::pt::i128_div(fs * lhm, 1000);
    let shift = style.baseline_shift.0;
    let shift_abs = if shift < 0 {
        -shift
    } else {
        shift
    };
    Pt(base + shift_abs)
}

/// The texts of the runs, concatenated.
pub open spec fn run_texts(runs: Seq<TextRunView>) -> Seq<char>
    decreases runs.len(),
{
    if runs.len() == 0 {
        seq![]
    } else {
        run_texts(runs.drop_last()) + runs.last().text
    }
}

/// `runs` tile the byte range `[a, b)`: each run is non-empty and starts where the previous one
/// ended, the first at `a`, the last ending at `b` (no runs when `a == b`).
pub open spec fn runs_tile(runs: Seq<TextRunView>, a: int, b: int) -> bool {
    if runs.len() == 0 {
        a == b
    } else {
        &&& runs[0].start == a
        &&& runs.last().end == b
        &&& forall|k: int| 0 <= k < runs.len() ==> (#[trigger] runs[k]).start < runs[k].end
        &&& forall|k: int| 0 <= k < runs.len() - 1 ==> #[trigger] runs_meet(runs, k)
    }
}

/// Run `k` ends where run `k + 1` starts.
pub open spec fn runs_meet(runs: Seq<TextRunView>, k: int) -> bool {
    runs[k].end == runs[k + 1].start
}

proof fn lemma_push_tiles(acc: Seq<TextRunView>, r: TextRunView, a: int)
    requires
        runs_tile(acc, a, r.start),
        r.start < r.end,
    ensures
        runs_tile(acc.push(r), a, r.end),
        run_texts(acc.push(r)) == run_texts(acc) + r.text,
{
    let m = acc.push(r);
    assert(m.drop_last() =~= acc);
    assert forall|k: int| 0 <= k < m.len() implies (#[trigger] m[k]).start < m[k].end by {
        if k < acc.len() {
            assert(m[k] == acc[k]);
        }
    }
    assert forall|k: int| 0 <= k < m.len() - 1 implies #[trigger] runs_meet(m, k) by {
        assert(m[k] == acc[k]);
        if k + 1 < acc.len() {
            assert(m[k + 1] == acc[k + 1]);
            assert(runs_meet(acc, k));
        }
    }
}

proof fn lemma_extend_last_tiles(acc: Seq<TextRunView>, end: int, extra: Seq<char>, a: int)
    requires
        acc.len() > 0,
        runs_tile(acc, a, acc.last().end),
        acc.last().end < end,
    ensures
        ({
            let m = acc.drop_last().push(TextRunView { end, text: acc.last().text + extra, ..acc.last() });
            &&& runs_tile(m, a, end)
            &&& run_texts(m) == run_texts(acc) + extra
        }),
{
    let last = acc.last();
    let front = acc.drop_last();
    let merged = TextRunView { end, text: last.text + extra, ..last };
    let m = front.push(merged);
    assert(m.drop_last() =~= front);
    assert(run_texts(front) + (last.text + extra) =~= run_texts(front) + last.text + extra);
    assert forall|k: int| 0 <= k < m.len() implies (#[trigger] m[k]).start < m[k].end by {
        if k < front.len() {
            assert(m[k] == acc[k]);
        }
    }
    assert forall|k: int| 0 <= k < m.len() - 1 implies #[trigger] runs_meet(m, k) by {
        assert(m[k] == acc[k]);
        if k + 1 < front.len() {
            assert(m[k + 1] == acc[k + 1]);
            assert(runs_meet(acc, k));
        } else {
            assert(runs_meet(acc, k));
        }
    }
}

/// Pushing a run that continues the tiling keeps it a tiling, merged or not.
pub proof fn lemma_merge_push_tiles(acc: Seq<TextRunView>, r: TextRunView, a: int)
    requires
        runs_tile(acc, a, r.start),
        r.start < r.end,
    ensures
        runs_tile(merge_push(acc, r), a, r.end),
        run_texts(merge_push(acc, r)) == run_texts(acc) + r.text,
{
    if acc.len() > 0 && acc.last().end == r.start && acc.last().style == r.style && acc.last().math_tex is None
        && r.math_tex is None {
        lemma_extend_last_tiles(acc, r.end, r.text, a);
    } else {
        lemma_push_tiles(acc, r, a);
    }
}

} // verus!
