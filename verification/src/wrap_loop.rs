use vstd::prelude::*;

use crate::pt::Pt;
use crate::text_types::{line_height_for_style, line_height_spec, style_metrics_ok, TextLine, TextRun};
use crate::run_split::{char_offset, char_offsets, find_offset};
use crate::text::{join, owned};
use crate::text_types::{merge_push, run_texts, run_views, TextRunView};
use crate::wrap::{
    advance_of, break_at, flush_line, flushed_line_ok, join_of, line_ok, max_height, merged_piece_runs, metric_ok,
    next_line_width, piece_ok, push_piece, trim_leading_ws, trim_trailing_ws, BreakPoint, Piece,
};
use crate::wrap_tokenize::{
    all_white_space, byte_len, copy_run, white_space, fragment_for, law_fragments_tile_text, scan_frags, spans_tile, split_run_for_wrapping, FragKind,
    Fragment,
};

verus! {

/// Most fragments a paragraph may hold while it is wrapped.
pub open spec fn max_wrap_fragments() -> int {
    0x40_0000 // 2^22
}

/// A run whose tracking, line height and byte offsets stay inside the arithmetic bounds.
pub open spec fn wrap_run_ok(r: TextRun) -> bool {
    &&& metric_ok(r.style.letter_spacing.0 as int)
    &&& style_metrics_ok(r.style@)
    &&& metric_ok(line_height_spec(r.style@))
    &&& r.start + byte_len(r.text@) <= usize::MAX
}

/// A fragment carries a run exactly when it is not a hard newline, its run is in bounds, words
/// and whitespace are never empty, and whitespace holds only whitespace.
pub open spec fn wrap_fragment_ok(f: Fragment) -> bool {
    if f.kind == FragKind::Newline {
        f.run is None
    } else {
        f.run matches Some(r) && wrap_run_ok(r) && (f.kind != FragKind::Atom ==> r.text@.len() > 0) && (f.kind
            == FragKind::Whitespace ==> all_white_space(r.text@))
    }
}

/// Greedy line breaking of a paragraph's fragments, one decision at a time.
///
/// The shaper's measurements come from outside: [`WrapRuns::need`] says which one the next step
/// takes, and [`WrapRuns::step`] applies it.
pub struct WrapRuns {
    /// The fragments still to place start at `i`; forced splits replace fragment `i`.
    pub frags: Vec<Fragment>,
    pub i: usize,
    /// The line being built, with its advance and height.
    pub line: Vec<Piece>,
    pub line_width: Pt,
    pub line_height: Pt,
    /// Where the line may break: after its last whitespace piece.
    pub last_break: Option<BreakPoint>,
    pub is_first_line: bool,
    /// Fragment `i` overflows an empty line and waits for the prefix that fits.
    pub pending_fit: bool,
    pub out_lines: Vec<TextLine>,
    pub max_width: Pt,
    pub base_line_height: Pt,
    pub first_line_indent: Pt,
}

impl WrapRuns {
    /// The state's standing invariant.
    pub open spec fn wf(&self) -> bool {
        &&& self.i <= self.frags@.len() <= max_wrap_fragments()
        &&& self.line@.len() <= self.i
        &&& line_ok(self.line@)
        &&& self.line_width.0 == advance_of(self.line@)
        &&& forall|k: int| 0 <= k < self.frags@.len() ==> #[trigger] wrap_fragment_ok(self.frags@[k])
        &&& self.max_width.0 == i128::MAX || metric_ok(self.max_width.0 as int)
        &&& metric_ok(self.base_line_height.0 as int)
        &&& metric_ok(self.first_line_indent.0 as int)
        &&& self.pending_fit ==> self.i < self.frags@.len() && self.frags@[self.i as int].kind == FragKind::Text
            && self.line@.len() == 0
        &&& forall|k: int|
            0 <= k < self.line@.len() && (#[trigger] self.line@[k]).kind == FragKind::Whitespace ==> all_white_space(
                self.line@[k].run.text@,
            )
        &&& self.last_break matches Some(bp) ==> {
            &&& bp.next_start == bp.line_len_excluding_ws + 1
            &&& bp.next_start <= self.line@.len()
            &&& self.line@[bp.line_len_excluding_ws as int].kind == FragKind::Whitespace
        }
    }

    /// True when lines are unbounded: only hard newlines break.
    pub open spec fn infinite(&self) -> bool {
        self.max_width.0 == i128::MAX
    }

    /// Width available to the current line: the first line gives up the indent.
    pub open spec fn line_limit_spec(&self) -> int {
        if self.is_first_line && self.first_line_indent.0 > 0 && !self.infinite() {
            let d = self.max_width.0 - self.first_line_indent.0;
            if d > 0 {
                d
            } else {
                0
            }
        } else {
            self.max_width.0 as int
        }
    }

    /// The fragment the next step is about.
    pub open spec fn current(&self) -> Fragment {
        self.frags@[self.i as int]
    }
}

/// What the next wrapping step takes from the shaper.
#[derive(Debug)]
pub enum WrapNeed {
    /// Every fragment is placed: take the lines with [`WrapRuns::finish`].
    Done,
    /// The next step takes no measurement.
    Step,
    /// The advance of this run's text in its style.
    Width(TextRun),
    /// The advance and height of this inline math run.
    Math(TextRun),
    /// The byte length of the longest prefix of this run's text whose advance fits `limit`.
    Fit(TextRun, Pt),
}

/// A measurement handed to [`WrapRuns::step`].
#[derive(Debug, Clone, Copy, PartialEq, Eq)]
pub enum WrapInput {
    Nothing,
    Width(Pt),
    Math(Pt, Pt),
    Fit(usize),
}

/// True when `s` is exactly one character.
fn single_char(s: &str) -> (r: bool)
    ensures
        r == (s@.len() == 1),
{
    let chars = crate::text::chars_of(s);
    chars.len() == 1
}

/// The measurement the next step of `s` takes.
pub open spec fn need_spec(s: WrapRuns) -> WrapNeed {
    if s.i >= s.frags@.len() {
        WrapNeed::Done
    } else {
        let f = s.current();
        match f.kind {
            FragKind::Newline => WrapNeed::Step,
            FragKind::Atom => WrapNeed::Math(f.run->Some_0),
            FragKind::Whitespace => if s.line@.len() == 0 {
                WrapNeed::Step
            } else {
                WrapNeed::Width(f.run->Some_0)
            },
            FragKind::Text => if s.pending_fit && f.run->Some_0.text@.len() != 1 {
                WrapNeed::Fit(f.run->Some_0, Pt(s.line_limit_spec() as i128))
            } else {
                WrapNeed::Width(f.run->Some_0)
            },
        }
    }
}

/// `input` is the kind of measurement `need` asks for, inside the metric bounds.
pub open spec fn answers(need: WrapNeed, input: WrapInput) -> bool {
    match need {
        WrapNeed::Done => false,
        WrapNeed::Step => input == WrapInput::Nothing,
        WrapNeed::Width(_) => input matches WrapInput::Width(w) && metric_ok(w.0 as int),
        WrapNeed::Math(_) => input matches WrapInput::Math(w, h) && metric_ok(w.0 as int) && metric_ok(h.0 as int),
        WrapNeed::Fit(_, _) => input is Fit,
    }
}

impl WrapRuns {
    /// Width available to the current line.
    pub fn line_limit(&self) -> (r: Pt)
        requires
            self.wf(),
        ensures
            r.0 == self.line_limit_spec(),
    {
        if self.is_first_line && self.first_line_indent.0 > 0 && self.max_width.0 != i128::MAX {
            let d = self.max_width.0 - self.first_line_indent.0;
            if d > 0 {
                Pt(d)
            } else {
                Pt(0)
            }
        } else {
            self.max_width
        }
    }

    /// The measurement the next step takes.
    pub fn need(&self) -> (r: WrapNeed)
        requires
            self.wf(),
        ensures
            r == need_spec(*self),
    {
        if self.i >= self.frags.len() {
            return WrapNeed::Done;
        }
        let f = &self.frags[self.i];
        proof {
            assert(wrap_fragment_ok(self.frags@[self.i as int]));
        }
        match f.kind {
            FragKind::Newline => WrapNeed::Step,
            FragKind::Atom => WrapNeed::Math(copy_run(f.run.as_ref().unwrap())),
            FragKind::Whitespace => if self.line.len() == 0 {
                WrapNeed::Step
            } else {
                WrapNeed::Width(copy_run(f.run.as_ref().unwrap()))
            },
            FragKind::Text => if self.pending_fit && !single_char(f.run.as_ref().unwrap().text.as_str()) {
                WrapNeed::Fit(copy_run(f.run.as_ref().unwrap()), self.line_limit())
            } else {
                WrapNeed::Width(copy_run(f.run.as_ref().unwrap()))
            },
        }
    }
}

/// Fragments `run` splits into (see [`split_run_for_wrapping`]).
pub open spec fn fragment_count(run: TextRun) -> int {
    if run.math_tex is Some {
        1
    } else {
        scan_frags(run.text@, 0, 0).len() as int
    }
}

/// Fragments of the first `k` runs.
pub open spec fn fragments_before(runs: Seq<TextRun>, k: int) -> int
    decreases k,
{
    if k <= 0 {
        0
    } else {
        fragments_before(runs, k - 1) + fragment_count(runs[k - 1])
    }
}

/// Fragment `j` of `run`, as [`split_run_for_wrapping`] gives it.
pub open spec fn is_fragment_of(run: TextRun, j: int, f: Fragment) -> bool {
    if run.math_tex is Some {
        f.kind == FragKind::Atom && f.run == Some(run)
    } else {
        fragment_for(run, scan_frags(run.text@, 0, 0)[j], f)
    }
}

proof fn lemma_tile_bounds(spans: Seq<(FragKind, int, int)>, a: int, b: int, k: int)
    requires
        spans_tile(spans, a, b),
        0 <= k < spans.len(),
    ensures
        a <= spans[k].1 < spans[k].2 <= b,
{
    assert forall|j: int| 0 <= j <= k implies a <= #[trigger] spans[j].1 by {
        lemma_tile_lower(spans, a, b, j);
    }
    lemma_tile_upper(spans, a, b, k);
}

proof fn lemma_tile_lower(spans: Seq<(FragKind, int, int)>, a: int, b: int, j: int)
    requires
        spans_tile(spans, a, b),
        0 <= j < spans.len(),
    ensures
        a <= spans[j].1,
    decreases j,
{
    if j > 0 {
        lemma_tile_lower(spans, a, b, j - 1);
        assert(spans[j - 1].2 == spans[j].1);
    }
}

proof fn lemma_tile_upper(spans: Seq<(FragKind, int, int)>, a: int, b: int, j: int)
    requires
        spans_tile(spans, a, b),
        0 <= j < spans.len(),
    ensures
        spans[j].2 <= b,
    decreases spans.len() - j,
{
    if j < spans.len() - 1 {
        lemma_tile_upper(spans, a, b, j + 1);
        assert(spans[j].2 == spans[j + 1].1);
    }
}

impl WrapRuns {
    /// Start wrapping `runs` into lines of at most `max_width` (`Pt(i128::MAX)` for no limit),
    /// with lines at least `base_line_height` tall and the first line indented.
    ///
    /// Fails for a paragraph with more fragments than the state can hold.
    pub fn new(runs: &[TextRun], max_width: Pt, base_line_height: Pt, first_line_indent: Pt) -> (r: Result<
        WrapRuns,
        String,
    >)
        requires
            forall|k: int| 0 <= k < runs@.len() ==> #[trigger] wrap_run_ok(runs@[k]),
            max_width.0 == i128::MAX || metric_ok(max_width.0 as int),
            metric_ok(base_line_height.0 as int),
            metric_ok(first_line_indent.0 as int),
        ensures
            fragments_before(runs@, runs@.len() as int) <= max_wrap_fragments() ==> r is Ok,
            r matches Ok(s) ==> {
                &&& s.wf()
                &&& s.frags@.len() == fragments_before(runs@, runs@.len() as int)
                &&& forall|k: int, j: int|
                    0 <= k < runs@.len() && 0 <= j < fragment_count(runs@[k]) ==> is_fragment_of(
                        runs@[k],
                        j,
                        #[trigger] s.frags@[fragments_before(runs@, k) + j],
                    )
                &&& s.i == 0
                &&& s.line@.len() == 0
                &&& s.line_height == base_line_height
                &&& s.last_break is None
                &&& s.is_first_line
                &&& !s.pending_fit
                &&& s.out_lines@.len() == 0
                &&& s.max_width == max_width
                &&& s.base_line_height == base_line_height
                &&& s.first_line_indent == first_line_indent
                &&& one_line_per_newline(s)
                &&& max_width.0 >= 0 ==> lines_fit(s)
                &&& runs_nonneg(runs@) ==> frags_nonneg(s)
            },
    {
        let mut frags: Vec<Fragment> = Vec::new();
        let mut k: usize = 0;
        while k < runs.len()
            invariant
                k <= runs@.len(),
                forall|q: int| 0 <= q < runs@.len() ==> #[trigger] wrap_run_ok(runs@[q]),
                frags@.len() == fragments_before(runs@, k as int),
                frags@.len() <= max_wrap_fragments(),
                forall|q: int| 0 <= q < frags@.len() ==> #[trigger] wrap_fragment_ok(frags@[q]),
                forall|q: int, j: int|
                    0 <= q < k && 0 <= j < fragment_count(runs@[q]) ==> is_fragment_of(
                        runs@[q],
                        j,
                        #[trigger] frags@[fragments_before(runs@, q) + j],
                    ),
                runs_nonneg(runs@) ==> forall|q: int|
                    0 <= q < frags@.len() ==> ((#[trigger] frags@[q]).run matches Some(x) ==> x.style.letter_spacing.0 >= 0),
            decreases runs@.len() - k,
        {
            let run = &runs[k];
            proof {
                assert(wrap_run_ok(runs@[k as int]));
            }
            let ghost before = frags@;
            let pushed = push_run_fragments(&mut frags, run);
            if !pushed {
                proof {
                    lemma_fragments_before_mono(runs@, k + 1, runs@.len() as int);
                }
                return Err(crate::text::owned("paragraph has too many fragments to wrap"));
            }
            proof {
                assert(forall|q: int| 0 <= q < before.len() ==> #[trigger] frags@[q] == before[q]);
                assert forall|q: int, jj: int|
                    0 <= q < k + 1 && 0 <= jj < fragment_count(runs@[q]) implies is_fragment_of(
                    runs@[q],
                    jj,
                    #[trigger] frags@[fragments_before(runs@, q) + jj],
                ) by {
                    lemma_fragments_before_mono(runs@, 0, q);
                    if q < k {
                        lemma_fragments_before_mono(runs@, q + 1, k as int);
                        assert(fragments_before(runs@, q + 1) == fragments_before(runs@, q) + fragment_count(runs@[q]));
                        assert(fragments_before(runs@, q) + jj < before.len());
                        assert(frags@[fragments_before(runs@, q) + jj] == before[fragments_before(runs@, q) + jj]);
                    } else {
                        assert(is_fragment_of(runs@[q], jj, frags@[before.len() + jj]));
                    }
                }
                if runs_nonneg(runs@) {
                    assert(runs@[k as int].style.letter_spacing.0 >= 0);
                    assert forall|q: int| 0 <= q < frags@.len() implies ((#[trigger] frags@[q]).run matches Some(x)
                        ==> x.style.letter_spacing.0 >= 0) by {
                        if q >= before.len() {
                            let jj = q - before.len();
                            assert(is_fragment_of(runs@[k as int], jj, frags@[before.len() + jj]));
                        } else {
                            assert(frags@[q] == before[q]);
                        }
                    }
                }
            }
            k = k + 1;
        }
        Ok(WrapRuns {
            frags,
            i: 0,
            line: Vec::new(),
            line_width: Pt(0),
            line_height: base_line_height,
            last_break: None,
            is_first_line: true,
            pending_fit: false,
            out_lines: Vec::new(),
            max_width,
            base_line_height,
            first_line_indent,
        })
    }
}

/// Append the fragments of `run`, unless that would exceed the fragment limit.
fn push_run_fragments(frags: &mut Vec<Fragment>, run: &TextRun) -> (r: bool)
    requires
        wrap_run_ok(*run),
        old(frags)@.len() <= max_wrap_fragments(),
        forall|q: int| 0 <= q < old(frags)@.len() ==> #[trigger] wrap_fragment_ok(old(frags)@[q]),
    ensures
        r == (old(frags)@.len() + fragment_count(*run) <= max_wrap_fragments()),
        !r ==> final(frags)@ == old(frags)@,
        r ==> {
            &&& final(frags)@.len() == old(frags)@.len() + fragment_count(*run)
            &&& forall|q: int| 0 <= q < old(frags)@.len() ==> #[trigger] final(frags)@[q] == old(frags)@[q]
            &&& forall|j: int| 0 <= j < fragment_count(*run) ==> is_fragment_of(*run, j, #[trigger] final(frags)@[old(frags)@.len() + j])
        },
        final(frags)@.len() <= max_wrap_fragments(),
        forall|q: int| 0 <= q < final(frags)@.len() ==> #[trigger] wrap_fragment_ok(final(frags)@[q]),
{
    let part = split_run_for_wrapping(run);
    let ghost spans = scan_frags(run.text@, 0, 0);
    proof {
        law_fragments_tile_text(run.text@);
        crate::wrap_tokenize::lemma_scan_ws_spans(run.text@, 0, 0);
    }
    if part.len() > 0x40_0000 - frags.len() {
        return false;
    }
    let ghost before = frags@;
    let mut j: usize = 0;
    while j < part.len()
        invariant
            j <= part@.len(),
            frags@.len() == before.len() + j,
            before.len() + part@.len() <= max_wrap_fragments(),
            forall|q: int| 0 <= q < before.len() ==> #[trigger] frags@[q] == before[q],
            forall|q: int| 0 <= q < j ==> #[trigger] frags@[before.len() + q] == part@[q],
            forall|q: int| 0 <= q < frags@.len() ==> #[trigger] wrap_fragment_ok(frags@[q]),
            wrap_run_ok(*run),
            run.math_tex is Some ==> part@.len() == 1 && part@[0].kind == FragKind::Atom && part@[0].run == Some(*run),
            run.math_tex is None ==> {
                &&& part@.len() == spans.len()
                &&& forall|q: int| 0 <= q < spans.len() ==> #[trigger] fragment_for(*run, spans[q], part@[q])
            },
            spans == scan_frags(run.text@, 0, 0),
            spans_tile(spans, 0, run.text@.len() as int),
            crate::wrap_tokenize::ws_spans_hold_ws(spans, run.text@),
        decreases part@.len() - j,
    {
        proof {
            if run.math_tex is None {
                lemma_span_fragment_ok(*run, spans, j as int, part@[j as int]);
            }
        }
        frags.push(part[j].clone_fragment());
        j = j + 1;
    }
    true
}

/// The fragment of a run's span `j` is in bounds.
proof fn lemma_span_fragment_ok(run: TextRun, spans: Seq<(FragKind, int, int)>, j: int, f: Fragment)
    requires
        wrap_run_ok(run),
        spans_tile(spans, 0, run.text@.len() as int),
        crate::wrap_tokenize::ws_spans_hold_ws(spans, run.text@),
        0 <= j < spans.len(),
        fragment_for(run, spans[j], f),
    ensures
        wrap_fragment_ok(f),
{
    lemma_tile_bounds(spans, 0, run.text@.len() as int, j);
    let sp = spans[j];
    crate::wrap_tokenize::lemma_byte_len_prefix(run.text@, sp.2, run.text@.len() as int);
    assert(run.text@.take(run.text@.len() as int) =~= run.text@);
    if sp.0 != FragKind::Newline {
        let r = f.run->Some_0;
        assert(r.text@ == run.text@.subrange(sp.1, sp.2));
        lemma_byte_len_split(run.text@, sp.1, sp.2);
        if sp.0 == FragKind::Whitespace {
            assert forall|q: int| 0 <= q < r.text@.len() implies crate::wrap_tokenize::white_space(#[trigger] r.text@[q]) by {
                assert(r.text@[q] == run.text@[sp.1 + q]);
                assert(spans[j].1 <= sp.1 + q);
            }
        }
    }
}

proof fn lemma_fragments_before_mono(runs: Seq<TextRun>, a: int, b: int)
    requires
        0 <= a <= b <= runs.len(),
    ensures
        fragments_before(runs, a) <= fragments_before(runs, b),
    decreases b - a,
{
    if a < b {
        lemma_fragments_before_mono(runs, a, b - 1);
        if runs[b - 1].math_tex is None {
        }
    }
}

/// The bytes of a piece of text are the bytes up to its end less the bytes before it.
proof fn lemma_byte_len_split(s: Seq<char>, i: int, j: int)
    requires
        0 <= i <= j <= s.len(),
    ensures
        byte_len(s.take(i)) + byte_len(s.subrange(i, j)) == byte_len(s.take(j)),
    decreases j - i,
{
    if i < j {
        lemma_byte_len_split(s, i, j - 1);
        assert(s.subrange(i, j).drop_last() =~= s.subrange(i, j - 1));
        assert(s.take(j).drop_last() =~= s.take(j - 1));
    } else {
        assert(s.subrange(i, j) =~= Seq::<char>::empty());
    }
}

/// The setup of a wrap (limits and base height) is unchanged.
pub open spec fn same_setup(o: WrapRuns, n: WrapRuns) -> bool {
    &&& n.max_width == o.max_width
    &&& n.base_line_height == o.base_line_height
    &&& n.first_line_indent == o.first_line_indent
}

/// The line height after a piece of height `piece_h` joins a line of height `h`.
pub open spec fn raised_height(h: int, piece_h: int, base: int) -> int {
    let raised = if piece_h > h {
        piece_h
    } else {
        h
    };
    if raised < base {
        base
    } else {
        raised
    }
}

/// The advance of the line once `p` joins it, with the tracking where it merges.
pub open spec fn width_with(o: WrapRuns, p: Piece) -> int {
    o.line_width.0 + (if o.line@.len() > 0 {
        join_of(o.line@.last().run, p.run)
    } else {
        0
    }) + p.width.0
}

/// `p` may join the current line.
pub open spec fn fits(o: WrapRuns, p: Piece) -> bool {
    o.infinite() || width_with(o, p) <= o.line_limit_spec()
}

/// `n` is `o` with fragment `i` placed as piece `p` on the line.
pub open spec fn pushed(o: WrapRuns, n: WrapRuns, p: Piece) -> bool {
    &&& n.frags@ == o.frags@
    &&& n.i == o.i + 1
    &&& n.line@ == o.line@.push(p)
    &&& n.line_height.0 == raised_height(o.line_height.0 as int, p.height.0 as int, o.base_line_height.0 as int)
    &&& n.last_break == if p.kind == FragKind::Whitespace {
        Some(BreakPoint { line_len_excluding_ws: o.line@.len() as usize, next_start: (o.line@.len() + 1) as usize })
    } else {
        o.last_break
    }
    &&& n.is_first_line == o.is_first_line
    &&& !n.pending_fit
    &&& n.out_lines@ == o.out_lines@
    &&& same_setup(o, n)
}

/// The pieces a break at `bp` keeps on the line.
pub open spec fn kept_part(ps: Seq<Piece>, bp: BreakPoint) -> Seq<Piece> {
    let head = if bp.next_start <= ps.len() {
        ps.subrange(0, bp.next_start as int)
    } else {
        ps
    };
    if bp.line_len_excluding_ws <= head.len() {
        head.take(bp.line_len_excluding_ws as int)
    } else {
        head
    }
}

/// The pieces a break at `bp` carries to the next line.
pub open spec fn rest_part(ps: Seq<Piece>, bp: BreakPoint) -> Seq<Piece> {
    if bp.next_start <= ps.len() {
        ps.subrange(bp.next_start as int, ps.len() as int)
    } else {
        seq![]
    }
}

/// `n` is `o` after its non-empty line overflowed: the line breaks after its last whitespace
/// (the rest starts the next line), or, without one, ends where it is; fragment `i` is retried.
pub open spec fn overflowed(o: WrapRuns, n: WrapRuns) -> bool {
    &&& n.frags@ == o.frags@
    &&& n.i == o.i
    &&& !n.is_first_line
    &&& n.last_break is None
    &&& !n.pending_fit
    &&& same_setup(o, n)
    &&& n.out_lines@.len() == o.out_lines@.len() + 1
    &&& n.out_lines@.drop_last() == o.out_lines@
    &&& match o.last_break {
        Some(bp) => {
            &&& flushed_line_ok(
                n.out_lines@.last(),
                kept_part(o.line@, bp),
                o.line_height.0 as int,
                o.base_line_height.0 as int,
            )
            &&& n.line@ == trim_leading_ws(rest_part(o.line@, bp))
            &&& n.line_height.0 == max_height(n.line@, o.base_line_height.0 as int)
        },
        None => {
            &&& flushed_line_ok(n.out_lines@.last(), o.line@, o.line_height.0 as int, o.base_line_height.0 as int)
            &&& n.line@.len() == 0
            &&& n.line_height == o.base_line_height
        },
    }
}

/// `n` is `o` past a hard newline: the line ends (even empty) and the next one is not the first.
pub open spec fn broke_hard(o: WrapRuns, n: WrapRuns) -> bool {
    &&& n.frags@ == o.frags@
    &&& n.i == o.i + 1
    &&& !n.is_first_line
    &&& n.last_break is None
    &&& !n.pending_fit
    &&& same_setup(o, n)
    &&& n.out_lines@.len() == o.out_lines@.len() + 1
    &&& n.out_lines@.drop_last() == o.out_lines@
    &&& flushed_line_ok(n.out_lines@.last(), o.line@, o.line_height.0 as int, o.base_line_height.0 as int)
    &&& n.line@.len() == 0
    &&& n.line_height == o.base_line_height
}

/// `n` is `o` with fragment `i` skipped.
pub open spec fn skipped(o: WrapRuns, n: WrapRuns) -> bool {
    &&& n.frags@ == o.frags@
    &&& n.i == o.i + 1
    &&& n.line@ == o.line@
    &&& n.line_height == o.line_height
    &&& n.last_break == o.last_break
    &&& n.is_first_line == o.is_first_line
    &&& n.pending_fit == o.pending_fit
    &&& n.out_lines@ == o.out_lines@
    &&& same_setup(o, n)
}

/// `n` is `o` waiting for the prefix of fragment `i` that fits an empty line.
pub open spec fn awaits_fit(o: WrapRuns, n: WrapRuns) -> bool {
    &&& n.frags@ == o.frags@
    &&& n.i == o.i
    &&& n.line@ == o.line@
    &&& n.line_height == o.line_height
    &&& n.last_break == o.last_break
    &&& n.is_first_line == o.is_first_line
    &&& n.pending_fit
    &&& n.out_lines@ == o.out_lines@
    &&& same_setup(o, n)
}

/// `b` is the byte offset of a character boundary strictly inside `text`.
pub open spec fn inner_boundary(text: Seq<char>, b: int) -> bool {
    exists|k: int| 0 < k < text.len() && #[trigger] char_offset(text, k) == b
}

/// The character index at byte offset `b` of `text`.
pub open spec fn boundary_index(text: Seq<char>, b: int) -> int {
    choose|k: int| 0 < k < text.len() && #[trigger] char_offset(text, k) == b
}

/// `h` and `t` are `r` cut at byte offset `b`: text before and after, same style.
pub open spec fn cut_at(r: TextRun, b: int, h: Fragment, t: Fragment) -> bool {
    let k = boundary_index(r.text@, b);
    &&& h.kind == FragKind::Text
    &&& t.kind == FragKind::Text
    &&& h.run matches Some(hr) && hr.start == r.start && hr.end == r.start + b && hr.style == r.style && hr.text@
        == r.text@.take(k) && hr.math_tex is None
    &&& t.run matches Some(tr) && tr.start == r.start + b && tr.end == r.end && tr.style == r.style && tr.text@
        == r.text@.skip(k) && tr.math_tex is None
}

/// `n` is `o` with fragment `i` cut at byte offset `b` into two fragments.
pub open spec fn split_current(o: WrapRuns, n: WrapRuns, b: int) -> bool {
    &&& n.frags@.len() == o.frags@.len() + 1
    &&& forall|j: int| 0 <= j < o.i ==> #[trigger] n.frags@[j] == o.frags@[j]
    &&& forall|j: int| o.i < j < o.frags@.len() ==> #[trigger] n.frags@[j + 1] == o.frags@[j]
    &&& cut_at(o.current().run->Some_0, b, n.frags@[o.i as int], n.frags@[o.i + 1])
    &&& n.i == o.i
    &&& n.line@ == o.line@
    &&& n.line_height == o.line_height
    &&& n.last_break == o.last_break
    &&& n.is_first_line == o.is_first_line
    &&& !n.pending_fit
    &&& n.out_lines@ == o.out_lines@
    &&& same_setup(o, n)
}

/// Error text for inline math wider than the line.
pub open spec fn math_too_wide_message(tex: Option<Seq<char>>) -> Seq<char> {
    "UNSPLITTABLE_OVERFLOW: inline math '"@ + (match tex {
        Some(t) => t,
        None => Seq::empty(),
    }) + "' is wider than the line"@
}

/// Where a word that overflows an empty line is cut: after the longest prefix that fits, else
/// after its first character, so that wrapping always moves on.
pub open spec fn forced_cut(text: Seq<char>, b: int) -> int {
    if inner_boundary(text, b) {
        b
    } else {
        char_offset(text, 1)
    }
}

/// Error text for a paragraph cut into more fragments than wrapping holds.
pub open spec fn too_many_fragments_message() -> Seq<char> {
    "paragraph has too many fragments to wrap"@
}

/// The outcome of one wrapping step of `o` on `input`: `n` and `r`.
pub open spec fn step_spec(o: WrapRuns, input: WrapInput, n: WrapRuns, r: Result<(), String>) -> bool {
    let f = o.current();
    let run = f.run->Some_0;
    match f.kind {
        FragKind::Newline => r is Ok && broke_hard(o, n),
        FragKind::Atom => {
            let (w, h) = match input {
                WrapInput::Math(w, h) => (w, h),
                _ => (Pt(0), Pt(0)),
            };
            let lh = line_height_spec(run.style@);
            let p = Piece { kind: FragKind::Atom, run, width: w, height: if h.0 > lh { h } else { Pt(lh as i128) } };
            if fits(o, p) {
                r is Ok && pushed(o, n, p)
            } else if o.line@.len() > 0 {
                r is Ok && overflowed(o, n)
            } else {
                r is Err && r->Err_0@ == math_too_wide_message(crate::text_types::opt_text_view(run.math_tex))
            }
        },
        _ => if f.kind == FragKind::Whitespace && o.line@.len() == 0 {
            r is Ok && skipped(o, n)
        } else if o.pending_fit && run.text@.len() == 1 {
            // A single character wider than an empty line goes on it alone.
            let w = match input {
                WrapInput::Width(w) => w,
                _ => Pt(0),
            };
            r is Ok && pushed(o, n, Piece { kind: f.kind, run, width: w, height: Pt(line_height_spec(run.style@) as i128) })
        } else if o.pending_fit {
            let b = match input {
                WrapInput::Fit(b) => b as int,
                _ => 0,
            };
            if o.frags@.len() < max_wrap_fragments() {
                r is Ok && split_current(o, n, forced_cut(run.text@, b))
            } else {
                r is Err && r->Err_0@ == too_many_fragments_message()
            }
        } else {
            let w = match input {
                WrapInput::Width(w) => w,
                _ => Pt(0),
            };
            let p = Piece { kind: f.kind, run, width: w, height: Pt(line_height_spec(run.style@) as i128) };
            if fits(o, p) {
                r is Ok && pushed(o, n, p)
            } else if o.line@.len() > 0 {
                r is Ok && overflowed(o, n)
            } else if f.kind == FragKind::Whitespace {
                r is Ok && skipped(o, n)
            } else {
                r is Ok && awaits_fit(o, n)
            }
        },
    }
}

pub(crate) proof fn lemma_trim_leading_suffix(ps: Seq<Piece>)
    ensures
        trim_leading_ws(ps).len() <= ps.len(),
        trim_leading_ws(ps) == ps.skip(ps.len() - trim_leading_ws(ps).len()),
    decreases ps.len(),
{
    if ps.len() > 0 && ps[0].kind == FragKind::Whitespace {
        lemma_trim_leading_suffix(ps.drop_first());
        let t = trim_leading_ws(ps);
        assert(ps.drop_first().skip(ps.drop_first().len() - t.len()) =~= ps.skip(ps.len() - t.len()));
    } else {
        assert(ps.skip(0) =~= ps);
    }
}

pub(crate) proof fn lemma_advance_push(ps: Seq<Piece>, p: Piece)
    ensures
        advance_of(ps.push(p)) == advance_of(ps) + (if ps.len() > 0 {
            join_of(ps.last().run, p.run)
        } else {
            0
        }) + p.width.0,
{
    assert(ps.push(p).drop_last() =~= ps);
}

impl WrapRuns {
    /// Place fragment `i` on the line as `p`.
    fn push_current(&mut self, p: Piece)
        requires
            old(self).wf(),
            old(self).i < old(self).frags@.len(),
            !old(self).pending_fit,
            piece_ok(p),
            p.kind == old(self).current().kind,
            old(self).current().run == Some(p.run),
        ensures
            final(self).wf(),
            pushed(*old(self), *final(self), p),
    {
        proof {
            crate::wrap::lemma_advance_bound(self.line@);
            assert(self.line@.len() * 0x20_0000_0000_0000_0000_0000_0000 <= 0x800_0000_0000_0000_0000_0000_0000_0000) by (nonlinear_arith)
                requires
                    self.line@.len() <= 0x40_0000,
            ;
            lemma_advance_push(self.line@, p);
        }
        push_piece(&mut self.line, &mut self.line_width, &mut self.line_height, p, self.base_line_height, &mut self.last_break);
        self.i = self.i + 1;
        proof {
            assert forall|k: int| 0 <= k < self.line@.len() implies #[trigger] piece_ok(self.line@[k]) by {
                if k < self.line@.len() - 1 {
                    assert(self.line@[k] == old(self).line@[k]);
                }
            }
            assert(wrap_fragment_ok(old(self).frags@[old(self).i as int]));
            assert forall|k: int|
                0 <= k < self.line@.len() && (#[trigger] self.line@[k]).kind == FragKind::Whitespace implies all_white_space(
                self.line@[k].run.text@,
            ) by {
                if k < self.line@.len() - 1 {
                    assert(self.line@[k] == old(self).line@[k]);
                }
            }
        }
    }

    /// The line overflowed: break it after its last whitespace, or end it where it is.
    fn overflow_line(&mut self)
        requires
            old(self).wf(),
            old(self).line@.len() > 0,
        ensures
            final(self).wf(),
            overflowed(*old(self), *final(self)),
    {
        match self.last_break {
            Some(bp) => {
                break_at(bp, &mut self.out_lines, &mut self.line, &mut self.line_width, &mut self.line_height, self.base_line_height);
                proof {
                    let ps = old(self).line@;
                    let rest = rest_part(ps, bp);
                    lemma_trim_leading_suffix(rest);
                    let t = trim_leading_ws(rest);
                    assert forall|k: int| 0 <= k < t.len() implies #[trigger] piece_ok(t[k]) by {
                        let m = rest.len() - t.len();
                        assert(t[k] == rest[m + k]);
                        if bp.next_start <= ps.len() {
                            assert(rest[m + k] == ps[bp.next_start + m + k]);
                        }
                    }
                }
            },
            None => {
                flush_line(&mut self.out_lines, &mut self.line, &mut self.line_width, &mut self.line_height, self.base_line_height);
            },
        }
        self.is_first_line = false;
        self.last_break = None;
        self.pending_fit = false;
    }

    /// A hard newline: end the line, even when empty.
    fn hard_break(&mut self)
        requires
            old(self).wf(),
            old(self).i < old(self).frags@.len(),
        ensures
            final(self).wf(),
            broke_hard(*old(self), *final(self)),
    {
        flush_line(&mut self.out_lines, &mut self.line, &mut self.line_width, &mut self.line_height, self.base_line_height);
        self.is_first_line = false;
        self.last_break = None;
        self.pending_fit = false;
        self.i = self.i + 1;
    }
}

proof fn lemma_char_offset_strict(text: Seq<char>, a: int, b: int)
    requires
        0 <= a < b <= text.len(),
    ensures
        char_offset(text, a) < char_offset(text, b),
{
    assert(text.take(a + 1).drop_last() =~= text.take(a));
    crate::wrap_tokenize::lemma_byte_len_prefix(text, a + 1, b);
}

/// A forced cut of a text of two or more characters is strictly inside it.
proof fn lemma_forced_cut_inner(text: Seq<char>, b: int)
    requires
        text.len() >= 2,
    ensures
        inner_boundary(text, forced_cut(text, b)),
{
    if !inner_boundary(text, b) {
        lemma_boundary_index(text, char_offset(text, 1), 1);
    }
}

/// The character index at an inner boundary is the one whose offset it is.
proof fn lemma_boundary_index(text: Seq<char>, b: int, k: int)
    requires
        0 < k < text.len(),
        char_offset(text, k) == b,
    ensures
        inner_boundary(text, b),
        boundary_index(text, b) == k,
{
    let j = boundary_index(text, b);
    if j < k {
        lemma_char_offset_strict(text, j, k);
    } else if k < j {
        lemma_char_offset_strict(text, k, j);
    }
}

impl WrapRuns {
    /// Cut fragment `i` after the prefix that fits (byte offset `b`), or after its first
    /// character when `b` is not a boundary strictly inside it.
    #[verifier::rlimit(40)]
    fn cut_current(&mut self, b: usize) -> (r: Result<(), String>)
        requires
            old(self).wf(),
            old(self).pending_fit,
            old(self).current().run->Some_0.text@.len() >= 2,
        ensures
            ({
                let run = old(self).current().run->Some_0;
                if old(self).frags@.len() < max_wrap_fragments() {
                    r is Ok && final(self).wf() && split_current(*old(self), *final(self), forced_cut(run.text@, b as int))
                } else {
                    &&& r is Err
                    &&& *final(self) == *old(self)
                    &&& r->Err_0@ == too_many_fragments_message()
                }
            }),
    {
        let i = self.i;
        proof {
            assert(wrap_fragment_ok(self.frags@[i as int]));
        }
        let run = copy_run(self.frags[i].run.as_ref().unwrap());
        let ghost text = run.text@;
        proof {
            assert(text.take(text.len() as int) =~= text);
        }
        let chars = crate::text::chars_of(run.text.as_str());
        let offsets = char_offsets(&chars);
        let found = find_offset(&offsets, b);
        let ghost b0 = b as int;
        let (k, b) = match found {
            Some(k) if k > 0 && k < chars.len() => (k, b),
            _ => {
                proof {
                    if inner_boundary(text, b as int) {
                        let j = choose|j: int| 0 < j < text.len() && #[trigger] char_offset(text, j) == b;
                        assert(offsets@[j] == char_offset(text, j));
                        match found {
                            Some(k) => {
                                if k == 0 {
                                    lemma_char_offset_strict(text, 0, j);
                                    assert(char_offset(text, 0) == 0) by {
                                        assert(text.take(0) =~= Seq::<char>::empty());
                                    }
                                } else {
                                    lemma_char_offset_strict(text, j, text.len() as int);
                                }
                            },
                            None => {},
                        }
                    }
                    assert(!inner_boundary(text, b as int));
                }
                (1, offsets[1])
            },
        };
        proof {
            lemma_boundary_index(text, b as int, k as int);
            if inner_boundary(text, b0) {
                assert(b as int == b0);
            }
            assert(b as int == forced_cut(text, b0));
        }
        if self.frags.len() >= 0x40_0000 {
            proof {
                reveal_strlit("paragraph has too many fragments to wrap");
            }
            return Err(owned("paragraph has too many fragments to wrap"));
        }
        let n = chars.len();
        let head_text = crate::text::collect_chars(&chars, 0, k);
        let tail_text = crate::text::collect_chars(&chars, k, n);
        proof {
            crate::wrap_tokenize::lemma_byte_len_prefix(text, k as int, text.len() as int);
            lemma_byte_len_split(text, k as int, text.len() as int);
            assert(text.subrange(0, k as int) =~= text.take(k as int));
            assert(text.subrange(k as int, n as int) =~= text.skip(k as int));
        }
        let head = Fragment {
            kind: FragKind::Text,
            run: Some(
                TextRun { start: run.start, end: run.start + b, style: run.style.duplicate(), text: head_text, math_tex: None },
            ),
        };
        let tail = Fragment {
            kind: FragKind::Text,
            run: Some(TextRun { start: run.start + b, end: run.end, style: run.style.duplicate(), text: tail_text, math_tex: None }),
        };
        let ghost before = self.frags@;
        self.frags.set(i, head);
        self.frags.insert(i + 1, tail);
        self.pending_fit = false;
        proof {
            assert forall|q: int| 0 <= q < self.frags@.len() implies #[trigger] wrap_fragment_ok(self.frags@[q]) by {
                if q < i {
                    assert(self.frags@[q] == before[q]);
                } else if q > i + 1 {
                    assert(self.frags@[q] == before[q - 1]);
                }
            }
            assert forall|j: int| 0 <= j < i implies #[trigger] self.frags@[j] == before[j] by {}
            assert forall|j: int| i < j < before.len() implies #[trigger] self.frags@[j + 1] == before[j] by {}
        }
        Ok(())
    }

    /// `p` may join the current line.
    fn piece_fits(&self, p: &Piece) -> (r: bool)
        requires
            self.wf(),
            piece_ok(*p),
        ensures
            r == fits(*self, *p),
    {
        if self.max_width.0 == i128::MAX {
            return true;
        }
        proof {
            crate::wrap::lemma_advance_bound(self.line@);
            assert(self.line@.len() * 0x20_0000_0000_0000_0000_0000_0000 <= 0x800_0000_0000_0000_0000_0000_0000_0000) by (nonlinear_arith)
                requires
                    self.line@.len() <= 0x40_0000,
            ;
        }
        let w = next_line_width(self.line.as_slice(), self.line_width, p.width, &p.run);
        w.0 <= self.line_limit().0
    }

    /// Take the next wrapping step with the measurement `input` that [`WrapRuns::need`] asked for.
    ///
    /// A fragment that fits joins the line; one that overflows a non-empty line breaks it (after
    /// its last whitespace when there is one) and is retried; a word that overflows an empty line
    /// waits for the prefix that fits, then is cut there (after its first character when no
    /// proper prefix fits; a single character goes on the line alone); inline math wider than
    /// an empty line fails.
    pub fn step(&mut self, input: WrapInput) -> (r: Result<(), String>)
        requires
            old(self).wf(),
            answers(need_spec(*old(self)), input),
        ensures
            step_spec(*old(self), input, *final(self), r),
            r is Ok ==> final(self).wf(),
    {
        let i = self.i;
        proof {
            assert(wrap_fragment_ok(self.frags@[i as int]));
        }
        let kind = self.frags[i].kind;
        match kind {
            FragKind::Newline => {
                self.hard_break();
                Ok(())
            },
            FragKind::Atom => {
                let (w, h) = match input {
                    WrapInput::Math(w, h) => (w, h),
                    _ => (Pt(0), Pt(0)),
                };
                let run = copy_run(self.frags[i].run.as_ref().unwrap());
                let lh = line_height_for_style(&run.style);
                let ph = if h.0 > lh.0 {
                    h
                } else {
                    lh
                };
                let tex = match &run.math_tex {
                    Some(t) => t.as_str(),
                    None => {
                        proof {
                            reveal_strlit("");
                        }
                        ""
                    },
                };
                assert(tex@ == match crate::text_types::opt_text_view(run.math_tex) {
                    Some(t) => t,
                    None => Seq::<char>::empty(),
                });
                let m = join(join(owned("UNSPLITTABLE_OVERFLOW: inline math '"), tex), "' is wider than the line");
                let p = Piece { kind: FragKind::Atom, run, width: w, height: ph };
                if self.piece_fits(&p) {
                    self.push_current(p);
                    Ok(())
                } else if self.line.len() > 0 {
                    self.overflow_line();
                    Ok(())
                } else {
                    Err(m)
                }
            },
            _ => {
                if kind == FragKind::Whitespace && self.line.len() == 0 {
                    self.i = i + 1;
                    return Ok(());
                }
                if self.pending_fit && !single_char(self.frags[i].run.as_ref().unwrap().text.as_str()) {
                    let b = match input {
                        WrapInput::Fit(b) => b,
                        _ => 0,
                    };
                    proof {
                        crate::wrap_tokenize::lemma_chars_le_bytes(self.current().run->Some_0.text@);
                    }
                    return self.cut_current(b);
                }
                if self.pending_fit {
                    // A single character wider than an empty line goes on it alone.
                    self.pending_fit = false;
                    let w = match input {
                        WrapInput::Width(w) => w,
                        _ => Pt(0),
                    };
                    let run = copy_run(self.frags[i].run.as_ref().unwrap());
                    let lh = line_height_for_style(&run.style);
                    let p = Piece { kind, run, width: w, height: lh };
                    self.push_current(p);
                    return Ok(());
                }
                let w = match input {
                    WrapInput::Width(w) => w,
                    _ => Pt(0),
                };
                let run = copy_run(self.frags[i].run.as_ref().unwrap());
                let lh = line_height_for_style(&run.style);
                let p = Piece { kind, run, width: w, height: lh };
                if self.piece_fits(&p) {
                    self.push_current(p);
                    Ok(())
                } else if self.line.len() > 0 {
                    self.overflow_line();
                    Ok(())
                } else if kind == FragKind::Whitespace {
                    self.i = i + 1;
                    Ok(())
                } else {
                    self.pending_fit = true;
                    Ok(())
                }
            },
        }
    }

    /// End wrapping: the last line (kept even when empty) closes the paragraph's lines.
    pub fn finish(self) -> (r: Vec<TextLine>)
        requires
            self.wf(),
        ensures
            r@.len() == self.out_lines@.len() + 1,
            r@.drop_last() == self.out_lines@,
            flushed_line_ok(r@.last(), self.line@, self.line_height.0 as int, self.base_line_height.0 as int),
    {
        let mut s = self;
        flush_line(&mut s.out_lines, &mut s.line, &mut s.line_width, &mut s.line_height, s.base_line_height);
        s.out_lines
    }
}

/// How much is left to place of a fragment: its bytes for words and whitespace, one for a
/// newline or an inline math atom.
pub open spec fn fragment_weight(f: Fragment) -> int {
    match f.run {
        Some(r) => if f.kind == FragKind::Atom {
            1
        } else {
            byte_len(r.text@) as int
        },
        None => 1,
    }
}

/// What is left to place of fragments `fs`.
pub open spec fn weight_sum(fs: Seq<Fragment>) -> int
    decreases fs.len(),
{
    if fs.len() == 0 {
        0
    } else {
        fragment_weight(fs[0]) + weight_sum(fs.drop_first())
    }
}

/// How far a wrap is from done: what is left to place, the pieces on the line, the bytes of the
/// current fragment, and whether it still has to be measured against an empty line.
pub open spec fn wrap_measure(s: WrapRuns) -> (int, int, int, int) {
    (
        weight_sum(s.frags@.skip(s.i as int)),
        s.line@.len() as int,
        if s.i < s.frags@.len() {
            fragment_weight(s.frags@[s.i as int])
        } else {
            0
        },
        if s.pending_fit {
            0
        } else {
            1
        },
    )
}

/// `a` is lexicographically below `b`, and both are non-negative.
pub open spec fn measure_below(a: (int, int, int, int), b: (int, int, int, int)) -> bool {
    &&& 0 <= a.0 && 0 <= a.1 && 0 <= a.2 && 0 <= a.3
    &&& {
        ||| a.0 < b.0
        ||| a.0 == b.0 && a.1 < b.1
        ||| a.0 == b.0 && a.1 == b.1 && a.2 < b.2
        ||| a.0 == b.0 && a.1 == b.1 && a.2 == b.2 && a.3 < b.3
    }
}

proof fn lemma_weight_sum_concat(a: Seq<Fragment>, b: Seq<Fragment>)
    ensures
        weight_sum(a + b) == weight_sum(a) + weight_sum(b),
    decreases a.len(),
{
    if a.len() > 0 {
        assert((a + b).drop_first() =~= a.drop_first() + b);
        lemma_weight_sum_concat(a.drop_first(), b);
    } else {
        assert(a + b =~= b);
    }
}

proof fn lemma_weight_sum_nonneg(fs: Seq<Fragment>)
    requires
        forall|k: int| 0 <= k < fs.len() ==> #[trigger] wrap_fragment_ok(fs[k]),
    ensures
        weight_sum(fs) >= 0,
    decreases fs.len(),
{
    if fs.len() > 0 {
        assert forall|k: int| 0 <= k < fs.drop_first().len() implies #[trigger] wrap_fragment_ok(fs.drop_first()[k]) by {
            assert(fs.drop_first()[k] == fs[k + 1]);
        }
        lemma_weight_sum_nonneg(fs.drop_first());
        assert(wrap_fragment_ok(fs[0]));
        lemma_fragment_weight_positive(fs[0]);
    }
}

proof fn lemma_fragment_weight_positive(f: Fragment)
    requires
        wrap_fragment_ok(f),
    ensures
        fragment_weight(f) >= 1,
{
    if f.run is Some && f.kind != FragKind::Atom {
        crate::wrap_tokenize::lemma_chars_le_bytes(f.run->Some_0.text@);
    }
}

proof fn lemma_skip_step(fs: Seq<Fragment>, i: int)
    requires
        0 <= i < fs.len(),
    ensures
        weight_sum(fs.skip(i)) == fragment_weight(fs[i]) + weight_sum(fs.skip(i + 1)),
{
    assert(fs.skip(i).drop_first() =~= fs.skip(i + 1));
}

/// Law: every step that succeeds brings the wrap strictly closer to done, so wrapping a
/// paragraph always ends (a word none of whose proper prefixes fits an empty line loses its
/// first character to a line of its own).
pub proof fn law_wrap_steps_make_progress(o: WrapRuns, input: WrapInput, n: WrapRuns, r: Result<(), String>)
    requires
        o.wf(),
        answers(need_spec(o), input),
        step_spec(o, input, n, r),
        r is Ok,
        n.wf(),
    ensures
        measure_below(wrap_measure(n), wrap_measure(o)),
{
    let i = o.i as int;
    assert(wrap_fragment_ok(o.frags@[i]));
    lemma_fragment_weight_positive(o.frags@[i]);
    lemma_skip_step(o.frags@, i);
    assert forall|k: int| 0 <= k < n.frags@.skip(n.i as int).len() implies #[trigger] wrap_fragment_ok(
        n.frags@.skip(n.i as int)[k],
    ) by {
        assert(n.frags@.skip(n.i as int)[k] == n.frags@[n.i + k]);
        assert(wrap_fragment_ok(n.frags@[n.i + k]));
    }
    lemma_weight_sum_nonneg(n.frags@.skip(n.i as int));
    if n.i < n.frags@.len() {
        assert(wrap_fragment_ok(n.frags@[n.i as int]));
        lemma_fragment_weight_positive(n.frags@[n.i as int]);
    }
    let f = o.current();
    if f.kind != FragKind::Newline && f.kind != FragKind::Atom && !(f.kind == FragKind::Whitespace && o.line@.len() == 0)
        && o.pending_fit && f.run->Some_0.text@.len() != 1 {
        // A cut: the two halves weigh what the fragment weighed; the current one shrinks.
        let run = f.run->Some_0;
        let b0 = match input {
            WrapInput::Fit(b) => b as int,
            _ => 0,
        };
        let text = run.text@;
        let b = forced_cut(text, b0);
        lemma_forced_cut_inner(text, b0);
        assert(split_current(o, n, b));
        let k = boundary_index(text, b);
        let head = n.frags@[i];
        let tail = n.frags@[i + 1];
        assert(n.frags@.skip(i) =~= seq![head, tail] + o.frags@.skip(i + 1)) by {
            assert forall|j: int| 0 <= j < n.frags@.skip(i).len() implies n.frags@.skip(i)[j] == (seq![head, tail]
                + o.frags@.skip(i + 1))[j] by {
                if j >= 2 {
                    let q = i + j - 1;
                    assert(o.i < q < o.frags@.len());
                    assert(n.frags@[q + 1] == o.frags@[q]);
                }
            }
        }
        lemma_weight_sum_concat(seq![head, tail], o.frags@.skip(i + 1));
        assert(seq![head, tail].drop_first() =~= seq![tail]);
        assert(seq![tail].drop_first() =~= Seq::<Fragment>::empty());
        assert(seq![tail][0] == tail);
        assert(seq![head, tail][0] == head);
        assert(weight_sum(Seq::<Fragment>::empty()) == 0);
        assert(weight_sum(seq![tail]) == fragment_weight(tail));
        assert(weight_sum(seq![head, tail]) == fragment_weight(head) + fragment_weight(tail));
        assert(text.take(text.len() as int) =~= text);
        crate::wrap_tokenize::lemma_byte_len_prefix(text, k, text.len() as int);
        lemma_byte_len_split(text, k, text.len() as int);
        assert(text.subrange(k, text.len() as int) =~= text.skip(k));
        lemma_char_offset_strict(text, k, text.len() as int);
        assert(fragment_weight(head) + fragment_weight(tail) == fragment_weight(o.frags@[i]));
        assert(wrap_measure(n).0 == wrap_measure(o).0);
        assert(wrap_measure(n).1 == wrap_measure(o).1);
        assert(wrap_measure(n).2 < wrap_measure(o).2);
    } else if n.i == o.i {
        assert(n.frags@ == o.frags@);
        assert(wrap_measure(n).0 == wrap_measure(o).0);
        // An overflow: the line loses at least the pieces up to its break.
        match o.last_break {
            Some(bp) => {
                let rest = rest_part(o.line@, bp);
                lemma_trim_leading_suffix(rest);
            },
            None => {},
        }
    } else {
        assert(n.frags@ == o.frags@);
        assert(n.i == o.i + 1);
    }
}

/// The characters of `s` that are not whitespace, in order.
pub open spec fn visible(s: Seq<char>) -> Seq<char>
    decreases s.len(),
{
    if s.len() == 0 {
        seq![]
    } else {
        visible(s.drop_last()) + if white_space(s.last()) {
            Seq::<char>::empty()
        } else {
            seq![s.last()]
        }
    }
}

/// The texts of pieces, concatenated.
pub open spec fn piece_texts(ps: Seq<Piece>) -> Seq<char>
    decreases ps.len(),
{
    if ps.len() == 0 {
        seq![]
    } else {
        piece_texts(ps.drop_last()) + ps.last().run.text@
    }
}

/// The text of a fragment (none for a hard newline).
pub open spec fn frag_text(f: Fragment) -> Seq<char> {
    match f.run {
        Some(r) => r.text@,
        None => seq![],
    }
}

/// The texts of fragments, concatenated.
pub open spec fn frag_texts(fs: Seq<Fragment>) -> Seq<char>
    decreases fs.len(),
{
    if fs.len() == 0 {
        seq![]
    } else {
        frag_text(fs[0]) + frag_texts(fs.drop_first())
    }
}

/// The texts of lines' runs, concatenated.
pub open spec fn line_texts(ls: Seq<TextLine>) -> Seq<char>
    decreases ls.len(),
{
    if ls.len() == 0 {
        seq![]
    } else {
        line_texts(ls.drop_last()) + run_texts(run_views(ls.last().runs@))
    }
}

/// The visible text a wrap holds: in its finished lines, on the line being built, and in the
/// fragments still to place.
pub open spec fn wrap_content(s: WrapRuns) -> Seq<char> {
    visible(line_texts(s.out_lines@) + piece_texts(s.line@) + frag_texts(s.frags@.skip(s.i as int)))
}

proof fn lemma_visible_concat(a: Seq<char>, b: Seq<char>)
    ensures
        visible(a + b) == visible(a) + visible(b),
    decreases b.len(),
{
    if b.len() == 0 {
        assert(a + b =~= a);
        assert(visible(a) + visible(b) =~= visible(a));
    } else {
        assert((a + b).drop_last() =~= a + b.drop_last());
        lemma_visible_concat(a, b.drop_last());
        let tail = if white_space(b.last()) {
            Seq::<char>::empty()
        } else {
            seq![b.last()]
        };
        assert(visible(a) + visible(b.drop_last()) + tail =~= visible(a) + (visible(b.drop_last()) + tail));
    }
}

proof fn lemma_visible_ws(s: Seq<char>)
    requires
        all_white_space(s),
    ensures
        visible(s) == Seq::<char>::empty(),
    decreases s.len(),
{
    if s.len() > 0 {
        assert forall|j: int| 0 <= j < s.drop_last().len() implies white_space(#[trigger] s.drop_last()[j]) by {
            assert(s.drop_last()[j] == s[j]);
        }
        lemma_visible_ws(s.drop_last());
        assert(white_space(s[s.len() - 1]));
        assert(visible(s) =~= Seq::<char>::empty());
    }
}

proof fn lemma_piece_texts_concat(a: Seq<Piece>, b: Seq<Piece>)
    ensures
        piece_texts(a + b) == piece_texts(a) + piece_texts(b),
    decreases b.len(),
{
    if b.len() == 0 {
        assert(a + b =~= a);
        assert(piece_texts(a) + piece_texts(b) =~= piece_texts(a));
    } else {
        assert((a + b).drop_last() =~= a + b.drop_last());
        lemma_piece_texts_concat(a, b.drop_last());
        assert(piece_texts(a) + piece_texts(b.drop_last()) + b.last().run.text@ =~= piece_texts(a) + (piece_texts(
            b.drop_last(),
        ) + b.last().run.text@));
    }
}

/// Whitespace pieces hold only whitespace.
pub open spec fn ws_pieces_hold_ws(ps: Seq<Piece>) -> bool {
    forall|k: int| 0 <= k < ps.len() && (#[trigger] ps[k]).kind == FragKind::Whitespace ==> all_white_space(ps[k].run.text@)
}

proof fn lemma_trim_trailing_visible(ps: Seq<Piece>)
    requires
        ws_pieces_hold_ws(ps),
    ensures
        visible(piece_texts(trim_trailing_ws(ps))) == visible(piece_texts(ps)),
    decreases ps.len(),
{
    if ps.len() > 0 && ps.last().kind == FragKind::Whitespace {
        let d = ps.drop_last();
        assert forall|k: int| 0 <= k < d.len() && (#[trigger] d[k]).kind == FragKind::Whitespace implies all_white_space(
            d[k].run.text@,
        ) by {
            assert(d[k] == ps[k]);
        }
        lemma_trim_trailing_visible(d);
        assert(ps[ps.len() - 1].kind == FragKind::Whitespace);
        lemma_visible_concat(piece_texts(d), ps.last().run.text@);
        lemma_visible_ws(ps.last().run.text@);
        assert(visible(piece_texts(d)) + Seq::<char>::empty() =~= visible(piece_texts(d)));
    }
}

proof fn lemma_trim_leading_visible(ps: Seq<Piece>)
    requires
        ws_pieces_hold_ws(ps),
    ensures
        visible(piece_texts(trim_leading_ws(ps))) == visible(piece_texts(ps)),
    decreases ps.len(),
{
    if ps.len() > 0 && ps[0].kind == FragKind::Whitespace {
        let d = ps.drop_first();
        assert forall|k: int| 0 <= k < d.len() && (#[trigger] d[k]).kind == FragKind::Whitespace implies all_white_space(
            d[k].run.text@,
        ) by {
            assert(d[k] == ps[k + 1]);
        }
        lemma_trim_leading_visible(d);
        assert(ps =~= seq![ps[0]] + d);
        lemma_piece_texts_concat(seq![ps[0]], d);
        assert(seq![ps[0]].drop_last() =~= Seq::<Piece>::empty());
        assert(seq![ps[0]].last() == ps[0]);
        assert(piece_texts(Seq::<Piece>::empty()) == Seq::<char>::empty());
        assert(Seq::<char>::empty() + ps[0].run.text@ =~= ps[0].run.text@);
        assert(piece_texts(seq![ps[0]]) =~= ps[0].run.text@);
        lemma_visible_concat(ps[0].run.text@, piece_texts(d));
        lemma_visible_ws(ps[0].run.text@);
        assert(Seq::<char>::empty() + visible(piece_texts(d)) =~= visible(piece_texts(d)));
    }
}

proof fn lemma_merge_push_text(acc: Seq<TextRunView>, r: TextRunView)
    ensures
        run_texts(merge_push(acc, r)) == run_texts(acc) + r.text,
{
    if acc.len() > 0 && acc.last().end == r.start && acc.last().style == r.style && acc.last().math_tex is None
        && r.math_tex is None {
        let last = acc.last();
        let m = acc.drop_last().push(TextRunView { end: r.end, text: last.text + r.text, ..last });
        assert(m.drop_last() =~= acc.drop_last());
        assert(run_texts(acc.drop_last()) + (last.text + r.text) =~= run_texts(acc.drop_last()) + last.text + r.text);
    } else {
        assert(acc.push(r).drop_last() =~= acc);
    }
}

proof fn lemma_merged_texts(ps: Seq<Piece>)
    ensures
        run_texts(merged_piece_runs(ps)) == piece_texts(ps),
    decreases ps.len(),
{
    if ps.len() > 0 {
        lemma_merged_texts(ps.drop_last());
        lemma_merge_push_text(merged_piece_runs(ps.drop_last()), ps.last().run@);
    }
}

proof fn lemma_frag_texts_skip(fs: Seq<Fragment>, i: int)
    requires
        0 <= i < fs.len(),
    ensures
        frag_texts(fs.skip(i)) == frag_text(fs[i]) + frag_texts(fs.skip(i + 1)),
{
    assert(fs.skip(i).drop_first() =~= fs.skip(i + 1));
}

proof fn lemma_line_texts_push(ls: Seq<TextLine>, l: TextLine)
    ensures
        line_texts(ls.push(l)) == line_texts(ls) + run_texts(run_views(l.runs@)),
{
    assert(ls.push(l).drop_last() =~= ls);
}

/// The visible text of a flushed line is that of its pieces.
proof fn lemma_flushed_visible(l: TextLine, ps: Seq<Piece>, h: int, base: int)
    requires
        flushed_line_ok(l, ps, h, base),
        ws_pieces_hold_ws(ps),
    ensures
        visible(run_texts(run_views(l.runs@))) == visible(piece_texts(ps)),
{
    lemma_merged_texts(trim_trailing_ws(ps));
    lemma_trim_trailing_visible(ps);
}

proof fn lemma_content_parts(s: WrapRuns)
    ensures
        wrap_content(s) == visible(line_texts(s.out_lines@)) + visible(piece_texts(s.line@)) + visible(
            frag_texts(s.frags@.skip(s.i as int)),
        ),
{
    let a = line_texts(s.out_lines@);
    let b = piece_texts(s.line@);
    let c = frag_texts(s.frags@.skip(s.i as int));
    lemma_visible_concat(a + b, c);
    lemma_visible_concat(a, b);
}

proof fn lemma_line_ws(s: WrapRuns)
    requires
        s.wf(),
    ensures
        ws_pieces_hold_ws(s.line@),
{
}

/// An overflowing line keeps its visible text: what it emits plus what it carries on.
proof fn lemma_overflow_visible(o: WrapRuns, n: WrapRuns)
    requires
        o.wf(),
        o.line@.len() > 0,
        overflowed(o, n),
    ensures
        visible(line_texts(n.out_lines@)) + visible(piece_texts(n.line@)) == visible(line_texts(o.out_lines@))
            + visible(piece_texts(o.line@)),
{
    let l = n.out_lines@.last();
    assert(n.out_lines@ =~= o.out_lines@.push(l));
    lemma_line_texts_push(o.out_lines@, l);
    lemma_visible_concat(line_texts(o.out_lines@), run_texts(run_views(l.runs@)));
    lemma_line_ws(o);
    match o.last_break {
        Some(bp) => {
            let ps = o.line@;
            let lle = bp.line_len_excluding_ws as int;
            let kept = kept_part(ps, bp);
            let rest = rest_part(ps, bp);
            assert(kept =~= ps.take(lle));
            assert(rest =~= ps.skip(lle + 1));
            assert(ps =~= kept + seq![ps[lle]] + rest);
            assert forall|k: int| 0 <= k < kept.len() && (#[trigger] kept[k]).kind == FragKind::Whitespace implies all_white_space(
                kept[k].run.text@,
            ) by {
                assert(kept[k] == ps[k]);
            }
            assert forall|k: int| 0 <= k < rest.len() && (#[trigger] rest[k]).kind == FragKind::Whitespace implies all_white_space(
                rest[k].run.text@,
            ) by {
                assert(rest[k] == ps[lle + 1 + k]);
            }
            lemma_flushed_visible(l, kept, o.line_height.0 as int, o.base_line_height.0 as int);
            lemma_trim_leading_visible(rest);
            lemma_piece_texts_concat(kept + seq![ps[lle]], rest);
            lemma_piece_texts_concat(kept, seq![ps[lle]]);
            assert(seq![ps[lle]].drop_last() =~= Seq::<Piece>::empty());
            assert(seq![ps[lle]].last() == ps[lle]);
            assert(piece_texts(Seq::<Piece>::empty()) == Seq::<char>::empty());
            assert(Seq::<char>::empty() + ps[lle].run.text@ =~= ps[lle].run.text@);
            lemma_visible_concat(piece_texts(kept) + ps[lle].run.text@, piece_texts(rest));
            lemma_visible_concat(piece_texts(kept), ps[lle].run.text@);
            lemma_visible_ws(ps[lle].run.text@);
            assert(visible(piece_texts(kept)) + Seq::<char>::empty() =~= visible(piece_texts(kept)));
            assert(visible(line_texts(o.out_lines@)) + visible(piece_texts(kept)) + visible(piece_texts(rest))
                =~= visible(line_texts(o.out_lines@)) + (visible(piece_texts(kept)) + visible(piece_texts(rest))));
        },
        None => {
            lemma_flushed_visible(l, o.line@, o.line_height.0 as int, o.base_line_height.0 as int);
            assert(piece_texts(n.line@) == Seq::<char>::empty());
            assert(visible(Seq::<char>::empty()) == Seq::<char>::empty());
            assert(visible(line_texts(o.out_lines@)) + visible(piece_texts(o.line@)) + Seq::<char>::empty()
                =~= visible(line_texts(o.out_lines@)) + visible(piece_texts(o.line@)));
        },
    }
}

/// Law: wrapping loses and invents no text. Every step keeps the visible (non-whitespace) text
/// held in the finished lines, the line being built and the fragments still to place; only
/// whitespace at line breaks and hard newlines go.
pub proof fn law_wrap_step_keeps_text(o: WrapRuns, input: WrapInput, n: WrapRuns, r: Result<(), String>)
    requires
        o.wf(),
        answers(need_spec(o), input),
        step_spec(o, input, n, r),
        r is Ok,
        n.wf(),
    ensures
        wrap_content(n) == wrap_content(o),
{
    let i = o.i as int;
    let f = o.current();
    assert(wrap_fragment_ok(o.frags@[i]));
    lemma_content_parts(o);
    lemma_content_parts(n);
    lemma_frag_texts_skip(o.frags@, i);
    lemma_visible_concat(frag_text(f), frag_texts(o.frags@.skip(i + 1)));
    let lt = visible(line_texts(o.out_lines@));
    let pt = visible(piece_texts(o.line@));
    let rest = visible(frag_texts(o.frags@.skip(i + 1)));
    if f.kind == FragKind::Newline {
        lemma_overflow_or_newline(o, n);
        assert(frag_text(f) == Seq::<char>::empty());
        assert(visible(Seq::<char>::empty()) == Seq::<char>::empty());
        assert(Seq::<char>::empty() + rest =~= rest);
    } else if f.kind == FragKind::Whitespace && o.line@.len() == 0 {
        lemma_visible_ws(frag_text(f));
        assert(Seq::<char>::empty() + rest =~= rest);
    } else if f.kind != FragKind::Atom && o.pending_fit && f.run->Some_0.text@.len() != 1 {
        let run = f.run->Some_0;
        let b0 = match input {
            WrapInput::Fit(b) => b as int,
            _ => 0,
        };
        let text = run.text@;
        let b = forced_cut(text, b0);
        lemma_forced_cut_inner(text, b0);
        assert(split_current(o, n, b));
        let k = boundary_index(text, b);
        let head = n.frags@[i];
        let tail = n.frags@[i + 1];
        lemma_frag_texts_skip(n.frags@, i);
        lemma_frag_texts_skip(n.frags@, i + 1);
        assert(n.frags@.skip(i + 2) =~= o.frags@.skip(i + 1)) by {
            assert forall|j: int| 0 <= j < n.frags@.skip(i + 2).len() implies #[trigger] n.frags@.skip(i + 2)[j]
                == o.frags@.skip(i + 1)[j] by {
                let q = i + 1 + j;
                assert(o.i < q < o.frags@.len());
                assert(n.frags@[q + 1] == o.frags@[q]);
            }
        }
        assert(text.take(k) + text.skip(k) =~= text);
        assert(frag_texts(n.frags@.skip(i)) =~= frag_texts(o.frags@.skip(i)));
    } else if n.i == o.i + 1 {
        // Pushed, or whitespace dropped at an empty line.
        if n.line@.len() == o.line@.len() + 1 {
            let p = n.line@.last();
            assert(n.line@.drop_last() =~= o.line@);
            lemma_visible_concat(piece_texts(o.line@), p.run.text@);
            assert(frag_text(f) == p.run.text@);
            assert(lt + (pt + visible(p.run.text@)) + rest =~= lt + pt + (visible(frag_text(f)) + rest));
        } else {
            lemma_visible_ws(frag_text(f));
            assert(Seq::<char>::empty() + rest =~= rest);
        }
    } else if n.pending_fit {
        // Waiting for the prefix that fits: nothing moved.
    } else {
        lemma_overflow_visible(o, n);
        assert(lt + pt + visible(frag_texts(o.frags@.skip(i))) =~= (lt + pt) + visible(frag_texts(o.frags@.skip(i))));
    }
}

proof fn lemma_overflow_or_newline(o: WrapRuns, n: WrapRuns)
    requires
        o.wf(),
        broke_hard(o, n),
    ensures
        visible(line_texts(n.out_lines@)) + visible(piece_texts(n.line@)) == visible(line_texts(o.out_lines@))
            + visible(piece_texts(o.line@)),
{
    let l = n.out_lines@.last();
    assert(n.out_lines@ =~= o.out_lines@.push(l));
    lemma_line_texts_push(o.out_lines@, l);
    lemma_visible_concat(line_texts(o.out_lines@), run_texts(run_views(l.runs@)));
    lemma_line_ws(o);
    lemma_flushed_visible(l, o.line@, o.line_height.0 as int, o.base_line_height.0 as int);
    assert(piece_texts(n.line@) == Seq::<char>::empty());
    assert(visible(Seq::<char>::empty()) == Seq::<char>::empty());
    assert(visible(line_texts(o.out_lines@)) + visible(piece_texts(o.line@)) + Seq::<char>::empty()
        =~= visible(line_texts(o.out_lines@)) + visible(piece_texts(o.line@)));
}

/// Law: the lines a finished wrap gives hold exactly its visible text: with every fragment
/// placed, closing the last line loses nothing visible. (A new wrap holds the visible text of
/// all its fragments, and each step keeps it: see [`law_wrap_step_keeps_text`].)
pub proof fn law_finished_lines_hold_the_text(s: WrapRuns, lines: Seq<TextLine>)
    requires
        s.wf(),
        s.i == s.frags@.len(),
        lines.len() == s.out_lines@.len() + 1,
        lines.drop_last() == s.out_lines@,
        flushed_line_ok(lines.last(), s.line@, s.line_height.0 as int, s.base_line_height.0 as int),
    ensures
        visible(line_texts(lines)) == wrap_content(s),
{
    lemma_content_parts(s);
    assert(s.frags@.skip(s.i as int) =~= Seq::<Fragment>::empty());
    assert(frag_texts(Seq::<Fragment>::empty()) == Seq::<char>::empty());
    assert(visible(Seq::<char>::empty()) == Seq::<char>::empty());
    let l = lines.last();
    assert(lines =~= s.out_lines@.push(l));
    lemma_line_texts_push(s.out_lines@, l);
    lemma_visible_concat(line_texts(s.out_lines@), run_texts(run_views(l.runs@)));
    lemma_line_ws(s);
    lemma_flushed_visible(l, s.line@, s.line_height.0 as int, s.base_line_height.0 as int);
    assert(visible(line_texts(s.out_lines@)) + visible(piece_texts(s.line@)) + Seq::<char>::empty()
        =~= visible(line_texts(s.out_lines@)) + visible(piece_texts(s.line@)));
}

/// Hard newlines among the first `k` fragments.
pub open spec fn newlines_before(fs: Seq<Fragment>, k: int) -> int
    decreases k,
{
    if k <= 0 {
        0
    } else {
        newlines_before(fs, k - 1) + if fs[k - 1].kind == FragKind::Newline {
            1int
        } else {
            0int
        }
    }
}

/// Without a width limit the lines closed so far are one per hard newline placed, and no word
/// waits for a cut.
pub open spec fn one_line_per_newline(s: WrapRuns) -> bool {
    s.infinite() ==> s.out_lines@.len() == newlines_before(s.frags@, s.i as int) && !s.pending_fit
}

/// Law: without a width limit only hard newlines break lines. A new wrap has closed no line;
/// each step keeps the lines closed at one per newline placed; so a finished wrap gives one
/// line more than its paragraph has newlines.
pub proof fn law_unbounded_wrap_breaks_only_at_newlines(
    o: WrapRuns,
    input: WrapInput,
    n: WrapRuns,
    r: Result<(), String>,
)
    requires
        o.wf(),
        answers(need_spec(o), input),
        step_spec(o, input, n, r),
        r is Ok,
        one_line_per_newline(o),
    ensures
        one_line_per_newline(n),
{
    if o.infinite() {
        let f = o.current();
        assert(n.frags@ == o.frags@);
        assert(newlines_before(o.frags@, o.i + 1) == newlines_before(o.frags@, o.i as int) + if f.kind
            == FragKind::Newline {
            1int
        } else {
            0int
        });
    }
}

/// Law: the lines of a finished wrap without a width limit are one more than the newlines of
/// its fragments (see [`law_unbounded_wrap_breaks_only_at_newlines`]).
pub proof fn law_unbounded_wrap_line_count(s: WrapRuns, lines: Seq<TextLine>)
    requires
        s.wf(),
        s.infinite(),
        s.i == s.frags@.len(),
        one_line_per_newline(s),
        lines.len() == s.out_lines@.len() + 1,
    ensures
        lines.len() == newlines_before(s.frags@, s.frags@.len() as int) + 1,
{
}

/// Width closed line `k` may take: the first line gives up the indent.
pub open spec fn limit_of_line(s: WrapRuns, k: int) -> int {
    if k == 0 && s.first_line_indent.0 > 0 && !s.infinite() {
        let d = s.max_width.0 - s.first_line_indent.0;
        if d > 0 {
            d
        } else {
            0
        }
    } else {
        s.max_width.0 as int
    }
}

/// The line's text is a single character (a character wider than the line goes on one alone).
pub open spec fn single_char_line(l: TextLine) -> bool {
    run_texts(run_views(l.runs@)).len() == 1
}

/// A piece of non-negative advance and tracking.
pub open spec fn piece_nonneg(p: Piece) -> bool {
    p.width.0 >= 0 && p.run.style.letter_spacing.0 >= 0
}

/// Every fragment's tracking is non-negative.
pub open spec fn frags_nonneg(s: WrapRuns) -> bool {
    forall|k: int|
        0 <= k < s.frags@.len() ==> ((#[trigger] s.frags@[k]).run matches Some(r) ==> r.style.letter_spacing.0 >= 0)
}

/// Every run's tracking is non-negative.
pub open spec fn runs_nonneg(runs: Seq<TextRun>) -> bool {
    forall|k: int| 0 <= k < runs.len() ==> (#[trigger] runs[k]).style.letter_spacing.0 >= 0
}

/// A measurement of non-negative advance.
pub open spec fn input_nonneg(input: WrapInput) -> bool {
    match input {
        WrapInput::Width(w) => w.0 >= 0,
        WrapInput::Math(w, _) => w.0 >= 0,
        _ => true,
    }
}

/// The closed lines fit their limits and the current line fits its own, except a line that is a
/// single character too wide for any line.
pub open spec fn lines_fit(s: WrapRuns) -> bool {
    &&& s.is_first_line <==> s.out_lines@.len() == 0
    &&& forall|k: int|
        0 <= k < s.out_lines@.len() ==> (#[trigger] s.out_lines@[k]).width.0 <= limit_of_line(s, k) || single_char_line(
            s.out_lines@[k],
        )
    &&& forall|k: int| 0 <= k < s.line@.len() ==> #[trigger] piece_nonneg(s.line@[k])
    &&& s.line_width.0 <= s.line_limit_spec() || (s.line@.len() == 1 && s.line@[0].kind == FragKind::Text
        && s.line@[0].run.text@.len() == 1)
}

proof fn lemma_advance_nonneg(ps: Seq<Piece>)
    requires
        forall|k: int| 0 <= k < ps.len() ==> #[trigger] piece_nonneg(ps[k]),
    ensures
        advance_of(ps) >= 0,
    decreases ps.len(),
{
    if ps.len() > 0 {
        lemma_advance_nonneg(ps.drop_last());
        assert(piece_nonneg(ps[ps.len() - 1]));
        if ps.len() > 1 {
            assert(piece_nonneg(ps[ps.len() - 2]));
        }
    }
}

proof fn lemma_advance_prefix(ps: Seq<Piece>, j: int)
    requires
        0 <= j <= ps.len(),
        forall|k: int| 0 <= k < ps.len() ==> #[trigger] piece_nonneg(ps[k]),
    ensures
        advance_of(ps.take(j)) <= advance_of(ps),
    decreases ps.len(),
{
    if j == ps.len() {
        assert(ps.take(j) =~= ps);
    } else {
        lemma_advance_prefix(ps.drop_last(), j);
        assert(ps.drop_last().take(j) =~= ps.take(j));
        assert(piece_nonneg(ps[ps.len() - 1]));
        if ps.len() > 1 {
            assert(piece_nonneg(ps[ps.len() - 2]));
        }
    }
}

proof fn lemma_advance_suffix(ps: Seq<Piece>, j: int)
    requires
        0 <= j <= ps.len(),
        forall|k: int| 0 <= k < ps.len() ==> #[trigger] piece_nonneg(ps[k]),
    ensures
        advance_of(ps.skip(j)) <= advance_of(ps),
    decreases ps.len(),
{
    if j == 0 {
        assert(ps.skip(0) =~= ps);
    } else if j == ps.len() {
        assert(ps.skip(j) =~= Seq::<Piece>::empty());
        lemma_advance_nonneg(ps);
    } else {
        lemma_advance_suffix(ps.drop_last(), j);
        assert(ps.drop_last().skip(j) =~= ps.skip(j).drop_last());
        assert(piece_nonneg(ps[ps.len() - 1]));
        assert(piece_nonneg(ps[ps.len() - 2]));
        if ps.skip(j).len() > 1 {
            assert(ps.skip(j)[ps.skip(j).len() - 2] == ps[ps.len() - 2]);
        }
    }
}

/// A flushed line fits where its pieces did, or is a single character.
proof fn lemma_flushed_fits(l: TextLine, ps: Seq<Piece>, h: int, base: int, limit: int)
    requires
        flushed_line_ok(l, ps, h, base),
        forall|k: int| 0 <= k < ps.len() ==> #[trigger] piece_nonneg(ps[k]),
        0 <= limit,
        advance_of(ps) <= limit || (ps.len() == 1 && ps[0].kind == FragKind::Text && ps[0].run.text@.len() == 1),
    ensures
        l.width.0 <= limit || single_char_line(l),
{
    let t = trim_trailing_ws(ps);
    crate::wrap::lemma_trim_prefix(ps);
    if advance_of(ps) <= limit {
        lemma_advance_prefix(ps, t.len() as int);
    } else {
        assert(t == ps);
        lemma_merged_texts(t);
        assert(t.drop_last() =~= Seq::<Piece>::empty());
        assert(piece_texts(t) == piece_texts(t.drop_last()) + t.last().run.text@);
        assert(piece_texts(Seq::<Piece>::empty()) =~= Seq::<char>::empty());
    }
}

/// Law: with a width limit, finished lines fit it. Each step keeps every closed line within its
/// limit (the first line gives up the indent) and the open line within the current one; the only
/// exception is a character wider than any line, which gets a line of its own. It holds for
/// measurements of non-negative advance and fragments of non-negative tracking.
pub proof fn law_wrap_step_keeps_lines_within_width(o: WrapRuns, input: WrapInput, n: WrapRuns, r: Result<(), String>)
    requires
        o.wf(),
        n.wf(),
        o.max_width.0 >= 0,
        answers(need_spec(o), input),
        input_nonneg(input),
        step_spec(o, input, n, r),
        r is Ok,
        frags_nonneg(o),
        lines_fit(o),
    ensures
        frags_nonneg(n),
        lines_fit(n),
{
    let f = o.current();
    assert(frags_nonneg(o) && 0 <= o.i < o.frags@.len());
    assert(wrap_fragment_ok(f));
    assert(f.run matches Some(r0) ==> r0.style.letter_spacing.0 >= 0);
    assert(o.line_limit_spec() >= 0);
    assert(n.line_limit_spec() >= o.line_limit_spec() || n.is_first_line == o.is_first_line);
    if n.out_lines@.len() == o.out_lines@.len() + 1 {
        // A line closed: the old line, or the part of it before its last whitespace.
        let k = o.out_lines@.len() as int;
        assert(limit_of_line(n, k) == o.line_limit_spec());
        assert forall|q: int| 0 <= q < n.out_lines@.len() implies (#[trigger] n.out_lines@[q]).width.0 <= limit_of_line(
            n,
            q,
        ) || single_char_line(n.out_lines@[q]) by {
            if q < k {
                assert(n.out_lines@[q] == n.out_lines@.drop_last()[q]);
                assert(limit_of_line(n, q) == limit_of_line(o, q));
            } else {
                let l = n.out_lines@.last();
                if o.last_break is Some && overflowed(o, n) {
                    let bp = o.last_break->Some_0;
                    let kept = kept_part(o.line@, bp);
                    assert(kept =~= o.line@.take(bp.line_len_excluding_ws as int));
                    lemma_advance_prefix(o.line@, bp.line_len_excluding_ws as int);
                    assert(!(o.line@.len() == 1 && o.line@[0].kind == FragKind::Text));
                    lemma_flushed_fits(l, kept, o.line_height.0 as int, o.base_line_height.0 as int, o.line_limit_spec());
                } else {
                    lemma_flushed_fits(
                        l,
                        o.line@,
                        o.line_height.0 as int,
                        o.base_line_height.0 as int,
                        o.line_limit_spec(),
                    );
                }
            }
        }
        if o.last_break is Some && overflowed(o, n) {
            let bp = o.last_break->Some_0;
            let rest = rest_part(o.line@, bp);
            assert(rest =~= o.line@.skip(bp.next_start as int));
            lemma_trim_leading_suffix(rest);
            let m = rest.len() - n.line@.len();
            assert(n.line@ =~= o.line@.skip(bp.next_start + m));
            lemma_advance_suffix(o.line@, bp.next_start + m);
            assert(!(o.line@.len() == 1 && o.line@[0].kind == FragKind::Text));
            assert forall|q: int| 0 <= q < n.line@.len() implies #[trigger] piece_nonneg(n.line@[q]) by {
                assert(n.line@[q] == o.line@[bp.next_start + m + q]);
            }
        }
    } else if n.line@.len() == o.line@.len() + 1 {
        // A piece joined the line.
        let p = n.line@.last();
        assert(n.line@ == o.line@.push(p));
        assert(f.kind != FragKind::Newline);
        assert(p.run == f.run->Some_0);
        assert(piece_nonneg(p));
        lemma_advance_push(o.line@, p);
        assert forall|q: int| 0 <= q < n.line@.len() implies #[trigger] piece_nonneg(n.line@[q]) by {
            if q < o.line@.len() {
                assert(n.line@[q] == o.line@[q]);
            }
        }
        assert forall|q: int| 0 <= q < n.out_lines@.len() implies (#[trigger] n.out_lines@[q]).width.0 <= limit_of_line(
            n,
            q,
        ) || single_char_line(n.out_lines@[q]) by {
            assert(n.out_lines@[q] == o.out_lines@[q]);
        }
    } else {
        assert forall|q: int| 0 <= q < n.out_lines@.len() implies (#[trigger] n.out_lines@[q]).width.0 <= limit_of_line(
            n,
            q,
        ) || single_char_line(n.out_lines@[q]) by {
            assert(n.out_lines@[q] == o.out_lines@[q]);
        }
    }
    if n.frags@.len() == o.frags@.len() + 1 {
        assert forall|k: int| 0 <= k < n.frags@.len() implies ((#[trigger] n.frags@[k]).run matches Some(r)
            ==> r.style.letter_spacing.0 >= 0) by {
            if k < o.i {
                assert(n.frags@[k] == o.frags@[k]);
            } else if k <= o.i + 1 {
                assert(f.run is Some);
            } else {
                assert(n.frags@[(k - 1) + 1] == o.frags@[k - 1]);
            }
        }
    }
}

/// Law: with a width limit, every line of a finished wrap fits its limit (the first line gives up
/// the indent), except a character wider than any line, alone on its line. See
/// [`law_wrap_step_keeps_lines_within_width`] for the steps.
pub proof fn law_finished_lines_fit_the_width(s: WrapRuns, lines: Seq<TextLine>)
    requires
        s.wf(),
        s.max_width.0 >= 0,
        lines_fit(s),
        lines.len() == s.out_lines@.len() + 1,
        lines.drop_last() == s.out_lines@,
        flushed_line_ok(lines.last(), s.line@, s.line_height.0 as int, s.base_line_height.0 as int),
    ensures
        forall|k: int| 0 <= k < lines.len() ==> (#[trigger] lines[k]).width.0 <= limit_of_line(s, k) || single_char_line(
            lines[k],
        ),
{
    assert forall|k: int| 0 <= k < lines.len() implies (#[trigger] lines[k]).width.0 <= limit_of_line(s, k)
        || single_char_line(lines[k]) by {
        if k < s.out_lines@.len() {
            assert(lines[k] == lines.drop_last()[k]);
        } else {
            assert(limit_of_line(s, k) == s.line_limit_spec());
            lemma_flushed_fits(lines[k], s.line@, s.line_height.0 as int, s.base_line_height.0 as int, s.line_limit_spec());
        }
    }
}

} // verus!
