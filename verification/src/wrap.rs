use vstd::prelude::*;

use crate::pt::Pt;
use crate::text_types::{
    merge_join_tracking, merge_push, push_or_merge_run, run_views, runs_merge_spec, TextLine, TextRun, TextRunView,
};
use crate::wrap_tokenize::{copy_run, FragKind};

verus! {

/// A measured fragment placed on the line being built.
#[derive(Debug)]
pub struct Piece {
    /// Text, whitespace or atom.
    pub kind: FragKind,
    pub run: TextRun,
    pub width: Pt,
    pub height: Pt,
}

/// Where the current line may break: after the last whitespace pushed.
#[derive(Debug, Clone, Copy, PartialEq, Eq, Structural)]
pub struct BreakPoint {
    /// How many pieces stay on the current line, excluding the trailing whitespace.
    pub line_len_excluding_ws: usize,
    /// The piece the next line starts from.
    pub next_start: usize,
}

/// Tracking inserted between two fragments that later merge into one shaped run.
pub open spec fn join_of(prev: TextRun, next: TextRun) -> int {
    if runs_merge_spec(prev, next) && prev.text@.len() != 0 && next.text@.len() != 0 {
        prev.style.letter_spacing.0 as int
    } else {
        0
    }
}

/// Advance of a line of pieces: their widths plus the tracking between merging neighbours.
pub open spec fn advance_of(ps: Seq<Piece>) -> int
    decreases ps.len(),
{
    if ps.len() == 0 {
        0
    } else {
        advance_of(ps.drop_last()) + (if ps.len() > 1 {
            join_of(ps[ps.len() - 2].run, ps.last().run)
        } else {
            0
        }) + ps.last().width.0
    }
}

/// Magnitude bound for piece metrics.
pub open spec fn metric_ok(x: int) -> bool {
    -0x10_0000_0000_0000_0000_0000_0000 <= x <= 0x10_0000_0000_0000_0000_0000_0000
}

/// A piece whose width, height and tracking are inside the metric bound.
pub open spec fn piece_ok(p: Piece) -> bool {
    metric_ok(p.width.0 as int) && metric_ok(p.height.0 as int) && metric_ok(p.run.style.letter_spacing.0 as int)
}

/// A line short enough, of bounded pieces, that its advance fits in `i128`.
pub open spec fn line_ok(ps: Seq<Piece>) -> bool {
    ps.len() <= 0x100_0000 && forall|i: int| 0 <= i < ps.len() ==> #[trigger] piece_ok(ps[i])
}

pub proof fn lemma_advance_bound(ps: Seq<Piece>)
    requires
        line_ok(ps),
    ensures
        -ps.len() * 0x20_0000_0000_0000_0000_0000_0000 <= advance_of(ps) <= ps.len() * 0x20_0000_0000_0000_0000_0000_0000,
    decreases ps.len(),
{
    if ps.len() > 0 {
        let s = ps.drop_last();
        assert forall|i: int| 0 <= i < s.len() implies #[trigger] piece_ok(s[i]) by {
            assert(s[i] == ps[i]);
        }
        lemma_advance_bound(s);
        assert(piece_ok(ps[ps.len() - 1]));
        if ps.len() > 1 {
            assert(piece_ok(ps[ps.len() - 2]));
        }
    }
}

/// Width of the line after appending a piece of `piece_width` for `run`.
pub fn next_line_width(line: &[Piece], line_width: Pt, piece_width: Pt, run: &TextRun) -> (r: Pt)
    requires
        line@.len() > 0 ==> piece_ok(line@.last()),
        -0x1000_0000_0000_0000_0000_0000_0000_0000 <= line_width.0 <= 0x1000_0000_0000_0000_0000_0000_0000_0000,
        metric_ok(piece_width.0 as int),
    ensures
        r.0 == line_width.0 + (if line@.len() > 0 {
            join_of(line@.last().run, *run)
        } else {
            0
        }) + piece_width.0,
{
    let join = if line.len() > 0 {
        merge_join_tracking(&line[line.len() - 1].run, run)
    } else {
        Pt(0)
    };
    Pt(line_width.0 + join.0 + piece_width.0)
}

/// Advance of a line of pieces.
pub fn pieces_advance(line: &[Piece]) -> (r: Pt)
    requires
        line_ok(line@),
    ensures
        r.0 == advance_of(line@),
{
    let mut w: i128 = 0;
    let mut i: usize = 0;
    assert(line@.take(0) =~= Seq::<Piece>::empty());
    while i < line.len()
        invariant
            i <= line@.len(),
            line_ok(line@),
            w == advance_of(line@.take(i as int)),
        decreases line.len() - i,
    {
        let ghost t = line@.take(i + 1);
        proof {
            assert(t.drop_last() =~= line@.take(i as int));
            assert forall|j: int| 0 <= j < t.len() implies #[trigger] piece_ok(t[j]) by {
                assert(t[j] == line@[j]);
            }
            lemma_advance_bound(t.drop_last());
            assert(piece_ok(line@[i as int]));
            if i > 0 {
                assert(piece_ok(line@[i - 1]));
            }
        }
        if i > 0 {
            w = w + merge_join_tracking(&line[i - 1].run, &line[i].run).0;
        }
        w = w + line[i].width.0;
        i = i + 1;
    }
    proof {
        assert(line@.take(i as int) =~= line@);
    }
    Pt(w)
}

/// Append a piece to the line: widen the line, raise its height (never below the base line
/// height), and record a break opportunity after a whitespace piece.
pub fn push_piece(
    line: &mut Vec<Piece>,
    line_width: &mut Pt,
    line_height: &mut Pt,
    piece: Piece,
    base_line_height: Pt,
    last_break: &mut Option<BreakPoint>,
)
    requires
        old(line)@.len() > 0 ==> piece_ok(old(line)@.last()),
        -0x1000_0000_0000_0000_0000_0000_0000_0000 <= old(line_width).0 <= 0x1000_0000_0000_0000_0000_0000_0000_0000,
        piece_ok(piece),
    ensures
        final(line)@ == old(line)@.push(piece),
        final(line_width).0 == old(line_width).0 + (if old(line)@.len() > 0 {
            join_of(old(line)@.last().run, piece.run)
        } else {
            0
        }) + piece.width.0,
        final(line_height).0 == ({
            let raised = if piece.height.0 > old(line_height).0 {
                piece.height.0
            } else {
                old(line_height).0
            };
            if raised < base_line_height.0 {
                base_line_height.0
            } else {
                raised
            }
        }),
        piece.kind == FragKind::Whitespace ==> *final(last_break) == Some(
            BreakPoint { line_len_excluding_ws: old(line)@.len() as usize, next_start: (old(line)@.len() + 1) as usize },
        ),
        piece.kind != FragKind::Whitespace ==> *final(last_break) == *old(last_break),
{
    *line_width = next_line_width(line.as_slice(), *line_width, piece.width, &piece.run);
    if piece.height.0 > line_height.0 {
        *line_height = piece.height;
    }
    if line_height.0 < base_line_height.0 {
        *line_height = base_line_height;
    }
    let is_ws = piece.kind == FragKind::Whitespace;
    line.push(piece);
    if is_ws {
        let len = line.len();
        *last_break = Some(BreakPoint { line_len_excluding_ws: len - 1, next_start: len });
    }
}

/// The line without its trailing whitespace pieces.
pub open spec fn trim_trailing_ws(ps: Seq<Piece>) -> Seq<Piece>
    decreases ps.len(),
{
    if ps.len() > 0 && ps.last().kind == FragKind::Whitespace {
        trim_trailing_ws(ps.drop_last())
    } else {
        ps
    }
}

/// The line without its leading whitespace pieces.
pub open spec fn trim_leading_ws(ps: Seq<Piece>) -> Seq<Piece>
    decreases ps.len(),
{
    if ps.len() > 0 && ps[0].kind == FragKind::Whitespace {
        trim_leading_ws(ps.drop_first())
    } else {
        ps
    }
}

/// The runs of a line's pieces, merged where they touch and share a style.
pub open spec fn merged_piece_runs(ps: Seq<Piece>) -> Seq<TextRunView>
    decreases ps.len(),
{
    if ps.len() == 0 {
        seq![]
    } else {
        merge_push(merged_piece_runs(ps.drop_last()), ps.last().run@)
    }
}

/// The tallest piece height, starting from `h`.
pub open spec fn max_height(ps: Seq<Piece>, h: int) -> int
    decreases ps.len(),
{
    if ps.len() == 0 {
        h
    } else {
        let m = max_height(ps.drop_last(), h);
        if ps.last().height.0 > m {
            ps.last().height.0 as int
        } else {
            m
        }
    }
}

/// The line `flush_line` emits for pieces `ps`.
pub open spec fn flushed_line_ok(l: TextLine, ps: Seq<Piece>, line_height: int, base: int) -> bool {
    let t = trim_trailing_ws(ps);
    &&& run_views(l.runs@) == merged_piece_runs(t)
    &&& l.width.0 == advance_of(t)
    &&& l.height.0 == if t.len() == 0 {
        base
    } else if line_height > base {
        line_height
    } else {
        base
    }
}

pub(crate) proof fn lemma_trim_prefix(ps: Seq<Piece>)
    ensures
        trim_trailing_ws(ps).len() <= ps.len(),
        trim_trailing_ws(ps) == ps.take(trim_trailing_ws(ps).len() as int),
    decreases ps.len(),
{
    if ps.len() > 0 && ps.last().kind == FragKind::Whitespace {
        lemma_trim_prefix(ps.drop_last());
        assert(ps.drop_last().take(trim_trailing_ws(ps).len() as int) =~= ps.take(trim_trailing_ws(ps).len() as int));
    } else {
        assert(ps.take(ps.len() as int) =~= ps);
    }
}

proof fn lemma_line_ok_prefix(ps: Seq<Piece>, k: int)
    requires
        line_ok(ps),
        0 <= k <= ps.len(),
    ensures
        line_ok(ps.take(k)),
{
    assert forall|i: int| 0 <= i < ps.take(k).len() implies #[trigger] piece_ok(ps.take(k)[i]) by {
        assert(ps.take(k)[i] == ps[i]);
    }
}

/// End the current line: drop trailing whitespace, emit its merged runs with their advance and
/// height (the base height for an empty line), then start an empty line.
pub fn flush_line(
    out_lines: &mut Vec<TextLine>,
    line: &mut Vec<Piece>,
    line_width: &mut Pt,
    line_height: &mut Pt,
    base_line_height: Pt,
)
    requires
        line_ok(old(line)@),
    ensures
        final(out_lines)@.len() == old(out_lines)@.len() + 1,
        final(out_lines)@.drop_last() == old(out_lines)@,
        flushed_line_ok(final(out_lines)@.last(), old(line)@, old(line_height).0 as int, base_line_height.0 as int),
        final(line)@.len() == 0,
        final(line_width).0 == 0,
        *final(line_height) == base_line_height,
{
    let ghost ps = line@;
    while line.len() > 0 && line[line.len() - 1].kind == FragKind::Whitespace
        invariant
            trim_trailing_ws(ps) == trim_trailing_ws(line@),
            line_ok(line@),
        decreases line@.len(),
    {
        let ghost before = line@;
        let _ = line.pop();
        proof {
            assert(line@ =~= before.drop_last());
            lemma_line_ok_prefix(before, before.len() - 1);
            assert(before.take(before.len() - 1) =~= before.drop_last());
        }
    }
    let ghost t = line@;
    proof {
        assert(trim_trailing_ws(line@) == line@);
    }
    let width = pieces_advance(line.as_slice());
    *line_width = width;
    let mut runs: Vec<TextRun> = Vec::new();
    let mut i: usize = 0;
    assert(t.take(0) =~= Seq::<Piece>::empty());
    while i < line.len()
        invariant
            t == line@,
            i <= t.len(),
            run_views(runs@) == merged_piece_runs(t.take(i as int)),
        decreases t.len() - i,
    {
        proof {
            assert(t.take(i + 1).drop_last() =~= t.take(i as int));
            assert(t.take(i + 1).last() == t[i as int]);
        }
        push_or_merge_run(&mut runs, copy_run(&line[i].run));
        i = i + 1;
    }
    proof {
        assert(t.take(t.len() as int) =~= t);
    }
    let height = if runs.len() == 0 {
        base_line_height
    } else if line_height.0 > base_line_height.0 {
        *line_height
    } else {
        base_line_height
    };
    proof {
        if t.len() > 0 {
            assert(merged_piece_runs(t).len() > 0);
        } else {
            assert(merged_piece_runs(t) =~= Seq::<TextRunView>::empty());
        }
    }
    out_lines.push(TextLine { runs, width, height });
    line.clear();
    *line_width = Pt(0);
    *line_height = base_line_height;
}

/// Recompute a line's width and height from its pieces (height at least the base height).
pub fn recompute_line_metrics(line: &[Piece], width: &mut Pt, height: &mut Pt, base_line_height: Pt)
    requires
        line_ok(line@),
    ensures
        final(width).0 == advance_of(line@),
        final(height).0 == max_height(line@, base_line_height.0 as int),
{
    let mut h = base_line_height;
    let mut i: usize = 0;
    assert(line@.take(0) =~= Seq::<Piece>::empty());
    while i < line.len()
        invariant
            i <= line@.len(),
            h.0 == max_height(line@.take(i as int), base_line_height.0 as int),
        decreases line.len() - i,
    {
        proof {
            assert(line@.take(i + 1).drop_last() =~= line@.take(i as int));
        }
        if line[i].height.0 > h.0 {
            h = line[i].height;
        }
        i = i + 1;
    }
    proof {
        assert(line@.take(i as int) =~= line@);
        lemma_max_height_ge(line@, base_line_height.0 as int);
    }
    *width = pieces_advance(line);
    *height = if h.0 < base_line_height.0 {
        base_line_height
    } else {
        h
    };
}

proof fn lemma_max_height_ge(ps: Seq<Piece>, h: int)
    ensures
        max_height(ps, h) >= h,
    decreases ps.len(),
{
    if ps.len() > 0 {
        lemma_max_height_ge(ps.drop_last(), h);
    }
}

/// Break the line at `bp`: emit the pieces before the trailing whitespace, and start the next
/// line with the pieces after it (leading whitespace dropped), re-measured.
pub fn break_at(
    bp: BreakPoint,
    out_lines: &mut Vec<TextLine>,
    line: &mut Vec<Piece>,
    line_width: &mut Pt,
    line_height: &mut Pt,
    base_line_height: Pt,
)
    requires
        line_ok(old(line)@),
    ensures
        ({
            let ps = old(line)@;
            let rest = if bp.next_start <= ps.len() {
                ps.subrange(bp.next_start as int, ps.len() as int)
            } else {
                seq![]
            };
            let head = if bp.next_start <= ps.len() {
                ps.subrange(0, bp.next_start as int)
            } else {
                ps
            };
            let kept = if bp.line_len_excluding_ws <= head.len() {
                head.take(bp.line_len_excluding_ws as int)
            } else {
                head
            };
            &&& final(out_lines)@.len() == old(out_lines)@.len() + 1
            &&& final(out_lines)@.drop_last() == old(out_lines)@
            &&& flushed_line_ok(final(out_lines)@.last(), kept, old(line_height).0 as int, base_line_height.0 as int)
            &&& final(line)@ == trim_leading_ws(rest)
            &&& final(line_width).0 == advance_of(trim_leading_ws(rest))
            &&& final(line_height).0 == max_height(trim_leading_ws(rest), base_line_height.0 as int)
        }),
{
    let ghost ps = line@;
    let mut remainder = if bp.next_start <= line.len() {
        line.split_off(bp.next_start)
    } else {
        Vec::new()
    };
    let ghost head = line@;
    proof {
        lemma_line_ok_prefix(ps, head.len() as int);
        assert(ps.take(head.len() as int) =~= head);
    }
    line.truncate(bp.line_len_excluding_ws);
    proof {
        lemma_line_ok_prefix(head, line@.len() as int);
        assert(head.take(line@.len() as int) =~= line@);
        if bp.line_len_excluding_ws <= head.len() {
            assert(line@ =~= head.take(bp.line_len_excluding_ws as int));
        }
    }
    flush_line(out_lines, line, line_width, line_height, base_line_height);
    let ghost rest = remainder@;
    proof {
        assert forall|i: int| 0 <= i < rest.len() implies #[trigger] piece_ok(rest[i]) by {
            if bp.next_start <= ps.len() {
                assert(rest[i] == ps[bp.next_start + i]);
            }
        }
    }
    while remainder.len() > 0 && remainder[0].kind == FragKind::Whitespace
        invariant
            trim_leading_ws(rest) == trim_leading_ws(remainder@),
            remainder@.len() <= rest.len(),
            forall|i: int| 0 <= i < remainder@.len() ==> #[trigger] piece_ok(remainder@[i]),
        decreases remainder@.len(),
    {
        let ghost before = remainder@;
        let _ = remainder.remove(0);
        proof {
            assert(remainder@ =~= before.drop_first());
            assert forall|i: int| 0 <= i < remainder@.len() implies #[trigger] piece_ok(remainder@[i]) by {
                assert(remainder@[i] == before[i + 1]);
            }
        }
    }
    proof {
        assert(trim_leading_ws(remainder@) == remainder@);
    }
    *line = remainder;
    recompute_line_metrics(line.as_slice(), line_width, line_height, base_line_height);
}

/// End a preformatted line: runs verbatim, the measured width, and the height (the base height
/// for an empty line); then start an empty line.
pub fn flush_line_preformatted(
    out_lines: &mut Vec<TextLine>,
    line_runs: &mut Vec<TextRun>,
    line_width: &mut Pt,
    line_height: &mut Pt,
    base_line_height: Pt,
)
    ensures
        final(out_lines)@ == old(out_lines)@.push(
            TextLine {
                runs: *old(line_runs),
                width: *old(line_width),
                height: if old(line_runs)@.len() == 0 {
                    base_line_height
                } else if old(line_height).0 > base_line_height.0 {
                    *old(line_height)
                } else {
                    base_line_height
                },
            },
        ),
        final(line_runs)@.len() == 0,
        final(line_width).0 == 0,
        *final(line_height) == base_line_height,
{
    let width = *line_width;
    let height = if line_runs.len() == 0 {
        base_line_height
    } else if line_height.0 > base_line_height.0 {
        *line_height
    } else {
        base_line_height
    };
    let mut runs: Vec<TextRun> = Vec::new();
    std::mem::swap(&mut runs, line_runs);
    out_lines.push(TextLine { runs, width, height });
    *line_width = Pt(0);
    *line_height = base_line_height;
}

} // verus!
