use vstd::prelude::*;

use crate::text::{chars_of, collect_chars};
use crate::text_types::TextRun;

verus! {

/// Kind of a wrap fragment.
#[derive(Debug, Clone, Copy, PartialEq, Eq, Structural)]
pub enum FragKind {
    Text,
    Whitespace,
    Newline,
    Atom,
}

/// A piece of a run that line breaking treats as a unit.
#[derive(Debug, Clone)]
pub struct Fragment {
    pub kind: FragKind,
    /// Present for text, whitespace and atoms; absent for newlines.
    pub run: Option<TextRun>,
}

/// Unicode `White_Space`: the characters `char::is_whitespace` accepts.
pub open spec fn white_space(c: char) -> bool {
    let u = c as u32;
    ||| 0x09 <= u <= 0x0D
    ||| u == 0x20
    ||| u == 0x85
    ||| u == 0xA0
    ||| u == 0x1680
    ||| 0x2000 <= u <= 0x200A
    ||| u == 0x2028
    ||| u == 0x2029
    ||| u == 0x202F
    ||| u == 0x205F
    ||| u == 0x3000
}

/// True for the characters with the Unicode `White_Space` property (as `char::is_whitespace`).
fn is_white_space(c: char) -> (r: bool)
    ensures
        r == white_space(c),
{
    let u = c as u32;
    (0x09 <= u && u <= 0x0D) || u == 0x20 || u == 0x85 || u == 0xA0 || u == 0x1680 || (0x2000 <= u && u <= 0x200A)
        || u == 0x2028 || u == 0x2029 || u == 0x202F || u == 0x205F || u == 0x3000
}

/// Bytes of `c` in UTF-8.
pub open spec fn utf8_width(c: char) -> nat {
    let u = c as u32;
    if u < 0x80 {
        1
    } else if u < 0x800 {
        2
    } else if u < 0x10000 {
        3
    } else {
        4
    }
}

/// Bytes of `s` in UTF-8.
pub open spec fn byte_len(s: Seq<char>) -> nat
    decreases s.len(),
{
    if s.len() == 0 {
        0
    } else {
        byte_len(s.drop_last()) + utf8_width(s.last())
    }
}

/// The UTF-8 width of a character is the length of its encoding.
pub proof fn lemma_utf8_width_is_encoding_len(c: char)
    ensures
        vstd::utf8::encode_scalar(c as u32).len() == utf8_width(c),
{
}

/// The byte length of a prefix grows with the prefix.
pub proof fn lemma_byte_len_prefix(s: Seq<char>, i: int, j: int)
    requires
        0 <= i <= j <= s.len(),
    ensures
        byte_len(s.take(i)) <= byte_len(s.take(j)),
    decreases j - i,
{
    if i < j {
        lemma_byte_len_prefix(s, i, j - 1);
        assert(s.take(j).drop_last() =~= s.take(j - 1));
    }
}

/// Every character takes at least one byte.
pub proof fn lemma_chars_le_bytes(s: Seq<char>)
    ensures
        s.len() <= byte_len(s),
    decreases s.len(),
{
    if s.len() > 0 {
        lemma_chars_le_bytes(s.drop_last());
    }
}

/// Hard line breaks.
pub open spec fn is_line_break(c: char) -> bool {
    c == '\n' || c == '\r'
}

/// Characters after which a line may break: hyphen-minus and soft hyphen.
pub open spec fn is_break_after(c: char) -> bool {
    c == '-' || c == '\u{AD}'
}

/// End of the whitespace group that continues at `i` (newlines end it).
pub open spec fn ws_end(s: Seq<char>, i: int) -> int
    decreases s.len() - i,
{
    if i < 0 || i >= s.len() || is_line_break(s[i]) || !white_space(s[i]) {
        i
    } else {
        ws_end(s, i + 1)
    }
}

pub proof fn lemma_ws_end_bounds(s: Seq<char>, i: int)
    requires
        0 <= i <= s.len(),
    ensures
        i <= ws_end(s, i) <= s.len(),
    decreases s.len() - i,
{
    if i < s.len() && !is_line_break(s[i]) && white_space(s[i]) {
        lemma_ws_end_bounds(s, i + 1);
    }
}

/// The pending text segment `[seg_start, i)`, when it is not empty.
pub open spec fn text_span(seg_start: int, i: int) -> Seq<(FragKind, int, int)> {
    if seg_start < i {
        seq![(FragKind::Text, seg_start, i)]
    } else {
        seq![]
    }
}

/// Fragments of `s` from position `i`, with a text segment pending since `seg_start`, as
/// `(kind, first char, end char)`: text up to a break, grouped whitespace, one newline per
/// line-break character, and text ending just after a hyphen.
pub open spec fn scan_frags(s: Seq<char>, seg_start: int, i: int) -> Seq<(FragKind, int, int)>
    decreases s.len() - i,
{
    if i < 0 || i >= s.len() {
        text_span(seg_start, s.len() as int)
    } else if is_line_break(s[i]) {
        text_span(seg_start, i) + seq![(FragKind::Newline, i, i + 1)] + scan_frags(s, i + 1, i + 1)
    } else if white_space(s[i]) {
        let e = ws_end(s, i + 1);
        proof {
            lemma_ws_end_bounds(s, i + 1);
        }
        text_span(seg_start, i) + seq![(FragKind::Whitespace, i, e)] + scan_frags(s, e, e)
    } else if is_break_after(s[i]) {
        seq![(FragKind::Text, seg_start, i + 1)] + scan_frags(s, i + 1, i + 1)
    } else {
        scan_frags(s, seg_start, i + 1)
    }
}

/// `f` is the fragment of `run` that spans characters `[span.1, span.2)` of its text.
pub open spec fn fragment_for(run: TextRun, span: (FragKind, int, int), f: Fragment) -> bool {
    let s = run.text@;
    &&& f.kind == span.0
    &&& if span.0 == FragKind::Newline {
        f.run is None
    } else {
        f.run matches Some(r) && {
            &&& r.start == run.start + byte_len(s.take(span.1))
            &&& r.end == run.start + byte_len(s.take(span.2))
            &&& r.style == run.style
            &&& r.text@ == s.subrange(span.1, span.2)
            &&& r.math_tex is None
        }
    }
}

impl Fragment {
    /// An exact copy.
    pub fn clone_fragment(&self) -> (r: Fragment)
        ensures
            r == *self,
    {
        Fragment {
            kind: self.kind,
            run: match &self.run {
                Some(r) => Some(copy_run(r)),
                None => None,
            },
        }
    }
}

/// An exact copy of a run.
pub fn copy_run(run: &TextRun) -> (r: TextRun)
    ensures
        r == *run,
{
    TextRun {
        start: run.start,
        end: run.end,
        style: run.style.duplicate(),
        text: run.text.clone(),
        math_tex: match &run.math_tex {
            Some(t) => Some(t.clone()),
            None => None,
        },
    }
}

/// The text fragment for characters `[from, to)`.
fn text_fragment(
    run: &TextRun,
    chars: &Vec<char>,
    kind: FragKind,
    from: usize,
    to: usize,
    from_b: usize,
    to_b: usize,
) -> (f: Fragment)
    requires
        chars@ == run.text@,
        from <= to <= chars@.len(),
        from_b == byte_len(run.text@.take(from as int)),
        to_b == byte_len(run.text@.take(to as int)),
        run.start + to_b <= usize::MAX,
        from_b <= to_b,
        kind != FragKind::Newline,
    ensures
        fragment_for(*run, (kind, from as int, to as int), f),
{
    Fragment {
        kind,
        run: Some(
            TextRun {
                start: run.start + from_b,
                end: run.start + to_b,
                style: run.style.duplicate(),
                text: collect_chars(chars, from, to),
                math_tex: None,
            },
        ),
    }
}

/// Split a run into wrap fragments: an inline math run stays one atom; other text is cut at
/// hard newlines, around whitespace groups and after hyphens. Offsets are UTF-8 byte offsets.
pub fn split_run_for_wrapping(run: &TextRun) -> (out: Vec<Fragment>)
    requires
        run.start + byte_len(run.text@) <= usize::MAX,
    ensures
        run.math_tex is Some ==> out@.len() == 1 && out@[0].kind == FragKind::Atom && out@[0].run == Some(
            *run,
        ),
        run.math_tex is None ==> {
            let spans = scan_frags(run.text@, 0, 0);
            &&& out@.len() == spans.len()
            &&& forall|k: int| 0 <= k < spans.len() ==> #[trigger] fragment_for(*run, spans[k], out@[k])
        },
{
    if run.math_tex.is_some() {
        return vec![Fragment { kind: FragKind::Atom, run: Some(copy_run(run)) }];
    }
    let ghost s = run.text@;
    let chars = chars_of(run.text.as_str());
    let n = chars.len();
    let mut out: Vec<Fragment> = Vec::new();
    let ghost mut spans: Seq<(FragKind, int, int)> = seq![];
    let mut seg_start: usize = 0;
    let mut seg_b: usize = 0;
    let mut i: usize = 0;
    let mut ib: usize = 0;
    proof {
        lemma_byte_len_prefix(s, 0, n as int);
        assert(s.take(n as int) =~= s);
        assert(s.take(0) =~= seq![]);
    }
    while i < n
        invariant
            chars@ == s,
            s == run.text@,
            run.math_tex is None,
            n == s.len(),
            run.start + byte_len(s) <= usize::MAX,
            0 <= seg_start <= i <= n,
            seg_b == byte_len(s.take(seg_start as int)),
            ib == byte_len(s.take(i as int)),
            scan_frags(s, 0, 0) == spans + scan_frags(s, seg_start as int, i as int),
            out@.len() == spans.len(),
            forall|k: int| 0 <= k < spans.len() ==> #[trigger] fragment_for(*run, spans[k], out@[k]),
        decreases n - i,
    {
        let ch = chars[i];
        proof {
            lemma_byte_len_prefix(s, i as int, i + 1);
            lemma_byte_len_prefix(s, i + 1, n as int);
            lemma_byte_len_prefix(s, seg_start as int, i as int);
            assert(s.take(n as int) =~= s);
            assert(s.take(i + 1).drop_last() =~= s.take(i as int));
        }
        let ch_len: usize = utf8_len(ch);
        if ch == '\n' || ch == '\r' {
            if seg_start < i {
                let f = text_fragment(run, &chars, FragKind::Text, seg_start, i, seg_b, ib);
                out.push(f);
            }
            out.push(Fragment { kind: FragKind::Newline, run: None });
            proof {
                let before = spans;
                spans = spans + text_span(seg_start as int, i as int) + seq![(FragKind::Newline, i as int, i + 1)];
                assert(scan_frags(s, 0, 0) == spans + scan_frags(s, i + 1, i + 1));
                assert forall|k: int| 0 <= k < spans.len() implies #[trigger] fragment_for(*run, spans[k], out@[k]) by {
                    if k < before.len() {
                        assert(spans[k] == before[k]);
                    }
                }
            }
            i += 1;
            ib += ch_len;
            seg_start = i;
            seg_b = ib;
            continue;
        }
        if is_white_space(ch) {
            if seg_start < i {
                let f = text_fragment(run, &chars, FragKind::Text, seg_start, i, seg_b, ib);
                out.push(f);
            }
            let ws_start = i;
            let ws_b = ib;
            i += 1;
            ib += ch_len;
            while i < n
                invariant
                    chars@ == s,
                    n == s.len(),
                    run.start + byte_len(s) <= usize::MAX,
                    ws_start < i <= n,
                    ib == byte_len(s.take(i as int)),
                    ws_end(s, ws_start + 1) == ws_end(s, i as int),
                ensures
                    ws_end(s, ws_start + 1) == i,
                    ws_start < i <= n,
                    ib == byte_len(s.take(i as int)),
                decreases n - i,
            {
                let ch2 = chars[i];
                if ch2 == '\n' || ch2 == '\r' || !is_white_space(ch2) {
                    break;
                }
                proof {
                    lemma_byte_len_prefix(s, i + 1, n as int);
                    assert(s.take(n as int) =~= s);
                    assert(s.take(i + 1).drop_last() =~= s.take(i as int));
                }
                let w2 = utf8_len(ch2);
                i += 1;
                ib += w2;
            }
            proof {
                lemma_byte_len_prefix(s, ws_start as int, i as int);
                lemma_byte_len_prefix(s, i as int, n as int);
            }
            let f = text_fragment(run, &chars, FragKind::Whitespace, ws_start, i, ws_b, ib);
            out.push(f);
            proof {
                let before = spans;
                let e = ws_end(s, ws_start + 1);
                assert(e == i);
                spans = spans + text_span(seg_start as int, ws_start as int) + seq![
                    (FragKind::Whitespace, ws_start as int, e),
                ];
                assert(scan_frags(s, 0, 0) == spans + scan_frags(s, e, e));
                assert forall|k: int| 0 <= k < spans.len() implies #[trigger] fragment_for(*run, spans[k], out@[k]) by {
                    if k < before.len() {
                        assert(spans[k] == before[k]);
                    }
                }
            }
            seg_start = i;
            seg_b = ib;
            continue;
        }
        if ch == '-' || ch == '\u{AD}' {
            let f = text_fragment(run, &chars, FragKind::Text, seg_start, i + 1, seg_b, ib + ch_len);
            out.push(f);
            proof {
                let before = spans;
                spans = spans + seq![(FragKind::Text, seg_start as int, i + 1)];
                assert(scan_frags(s, 0, 0) == spans + scan_frags(s, i + 1, i + 1));
                assert forall|k: int| 0 <= k < spans.len() implies #[trigger] fragment_for(*run, spans[k], out@[k]) by {
                    if k < before.len() {
                        assert(spans[k] == before[k]);
                    }
                }
            }
            i += 1;
            ib += ch_len;
            seg_start = i;
            seg_b = ib;
            continue;
        }
        i += 1;
        ib += ch_len;
    }
    if seg_start < n {
        proof {
            lemma_byte_len_prefix(s, seg_start as int, n as int);
        }
        let f = text_fragment(run, &chars, FragKind::Text, seg_start, n, seg_b, ib);
        out.push(f);
        proof {
            let before = spans;
            spans = spans + text_span(seg_start as int, n as int);
            assert forall|k: int| 0 <= k < spans.len() implies #[trigger] fragment_for(*run, spans[k], out@[k]) by {
                if k < before.len() {
                    assert(spans[k] == before[k]);
                }
            }
        }
    }
    proof {
        assert(spans =~= scan_frags(s, 0, 0));
    }
    out
}

/// Bytes of `c` in UTF-8 (`char::len_utf8`).
pub fn utf8_len(c: char) -> (r: usize)
    ensures
        r == utf8_width(c),
{
    let u = c as u32;
    if u < 0x80 {
        1
    } else if u < 0x800 {
        2
    } else if u < 0x10000 {
        3
    } else {
        4
    }
}

/// `spans` tile the characters `[a, b)`: each span is non-empty and starts where the previous
/// one ended, the first at `a`, the last ending at `b` (no spans when `a == b`).
pub open spec fn spans_tile(spans: Seq<(FragKind, int, int)>, a: int, b: int) -> bool {
    if spans.len() == 0 {
        a == b
    } else {
        &&& spans[0].1 == a
        &&& spans.last().2 == b
        &&& forall|k: int| 0 <= k < spans.len() ==> (#[trigger] spans[k]).1 < spans[k].2
        &&& forall|k: int| 0 <= k < spans.len() - 1 ==> (#[trigger] spans[k]).2 == spans[k + 1].1
    }
}

proof fn lemma_spans_tile_concat(x: Seq<(FragKind, int, int)>, y: Seq<(FragKind, int, int)>, a: int, m: int, b: int)
    requires
        spans_tile(x, a, m),
        spans_tile(y, m, b),
    ensures
        spans_tile(x + y, a, b),
{
    let z = x + y;
    if x.len() > 0 && y.len() > 0 {
        assert forall|k: int| 0 <= k < z.len() - 1 implies (#[trigger] z[k]).2 == z[k + 1].1 by {
            if k < x.len() - 1 {
                assert(z[k] == x[k] && z[k + 1] == x[k + 1]);
            } else if k == x.len() - 1 {
                assert(z[k] == x.last() && z[k + 1] == y[0]);
            } else {
                assert(z[k] == y[k - x.len()] && z[k + 1] == y[k - x.len() + 1]);
            }
        }
        assert forall|k: int| 0 <= k < z.len() implies (#[trigger] z[k]).1 < z[k].2 by {
            if k < x.len() {
                assert(z[k] == x[k]);
            } else {
                assert(z[k] == y[k - x.len()]);
            }
        }
    } else if x.len() == 0 {
        assert(z =~= y);
    } else {
        assert(z =~= x);
    }
}

proof fn lemma_scan_tiles(s: Seq<char>, seg: int, i: int)
    requires
        0 <= seg <= i <= s.len(),
    ensures
        spans_tile(scan_frags(s, seg, i), seg, s.len() as int),
    decreases s.len() - i,
{
    if i >= s.len() {
    } else if is_line_break(s[i]) {
        lemma_scan_tiles(s, i + 1, i + 1);
        lemma_spans_tile_concat(text_span(seg, i), seq![(FragKind::Newline, i, i + 1)], seg, i, i + 1);
        lemma_spans_tile_concat(
            text_span(seg, i) + seq![(FragKind::Newline, i, i + 1)],
            scan_frags(s, i + 1, i + 1),
            seg,
            i + 1,
            s.len() as int,
        );
    } else if white_space(s[i]) {
        let e = ws_end(s, i + 1);
        lemma_ws_end_bounds(s, i + 1);
        lemma_scan_tiles(s, e, e);
        lemma_spans_tile_concat(text_span(seg, i), seq![(FragKind::Whitespace, i, e)], seg, i, e);
        lemma_spans_tile_concat(
            text_span(seg, i) + seq![(FragKind::Whitespace, i, e)],
            scan_frags(s, e, e),
            seg,
            e,
            s.len() as int,
        );
    } else if is_break_after(s[i]) {
        lemma_scan_tiles(s, i + 1, i + 1);
        lemma_spans_tile_concat(seq![(FragKind::Text, seg, i + 1)], scan_frags(s, i + 1, i + 1), seg, i + 1, s.len() as int);
    } else {
        lemma_scan_tiles(s, seg, i + 1);
    }
}

/// Law: the fragments of a run tile its text: every character belongs to exactly one
/// fragment, in order, and no fragment is empty.
pub proof fn law_fragments_tile_text(s: Seq<char>)
    ensures
        spans_tile(scan_frags(s, 0, 0), 0, s.len() as int),
{
    lemma_scan_tiles(s, 0, 0);
}

/// Every character of `s` is whitespace.
pub open spec fn all_white_space(s: Seq<char>) -> bool {
    forall|j: int| 0 <= j < s.len() ==> white_space(#[trigger] s[j])
}

/// The whitespace spans of `spans` hold only whitespace characters of `s`.
pub open spec fn ws_spans_hold_ws(spans: Seq<(FragKind, int, int)>, s: Seq<char>) -> bool {
    forall|k: int, j: int|
        0 <= k < spans.len() && spans[k].0 == FragKind::Whitespace && spans[k].1 <= j < spans[k].2 ==> white_space(
            #[trigger] s[j],
        ) && #[trigger] spans[k].1 <= j
}

proof fn lemma_ws_end_all_ws(s: Seq<char>, i: int, j: int)
    requires
        0 <= i <= j < ws_end(s, i),
    ensures
        white_space(s[j]),
    decreases s.len() - i,
{
    if i < s.len() && !is_line_break(s[i]) && white_space(s[i]) {
        if j > i {
            lemma_ws_end_all_ws(s, i + 1, j);
        }
    }
}

proof fn lemma_ws_spans_concat(a: Seq<(FragKind, int, int)>, b: Seq<(FragKind, int, int)>, s: Seq<char>)
    requires
        ws_spans_hold_ws(a, s),
        ws_spans_hold_ws(b, s),
    ensures
        ws_spans_hold_ws(a + b, s),
{
    let c = a + b;
    assert forall|k: int, j: int|
        0 <= k < c.len() && c[k].0 == FragKind::Whitespace && c[k].1 <= j < c[k].2 implies white_space(#[trigger] s[j])
        && #[trigger] c[k].1 <= j by {
        if k < a.len() {
            assert(c[k] == a[k]);
            assert(a[k].1 <= j);
        } else {
            assert(c[k] == b[k - a.len()]);
            assert(b[k - a.len()].1 <= j);
        }
    }
}

/// The whitespace fragments of a run hold only whitespace.
pub proof fn lemma_scan_ws_spans(s: Seq<char>, seg: int, i: int)
    requires
        0 <= seg <= i <= s.len(),
    ensures
        ws_spans_hold_ws(scan_frags(s, seg, i), s),
    decreases s.len() - i,
{
    if i >= s.len() {
    } else if is_line_break(s[i]) {
        lemma_scan_ws_spans(s, i + 1, i + 1);
        lemma_ws_spans_concat(text_span(seg, i), seq![(FragKind::Newline, i, i + 1)], s);
        lemma_ws_spans_concat(text_span(seg, i) + seq![(FragKind::Newline, i, i + 1)], scan_frags(s, i + 1, i + 1), s);
    } else if white_space(s[i]) {
        let e = ws_end(s, i + 1);
        lemma_ws_end_bounds(s, i + 1);
        lemma_scan_ws_spans(s, e, e);
        let w = seq![(FragKind::Whitespace, i, e)];
        assert forall|k: int, j: int|
            0 <= k < w.len() && w[k].0 == FragKind::Whitespace && w[k].1 <= j < w[k].2 implies white_space(#[trigger] s[j])
            && #[trigger] w[k].1 <= j by {
            if j > i {
                lemma_ws_end_all_ws(s, i + 1, j);
            }
        }
        lemma_ws_spans_concat(text_span(seg, i), w, s);
        lemma_ws_spans_concat(text_span(seg, i) + w, scan_frags(s, e, e), s);
    } else if is_break_after(s[i]) {
        lemma_scan_ws_spans(s, i + 1, i + 1);
        lemma_ws_spans_concat(seq![(FragKind::Text, seg, i + 1)], scan_frags(s, i + 1, i + 1), s);
    } else {
        lemma_scan_ws_spans(s, seg, i + 1);
    }
}

} // verus!
