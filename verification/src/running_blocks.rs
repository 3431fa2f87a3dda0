//! Running blocks (headers and footers): page-number placeholders, and where each block goes
//! in its band on a page.

use vstd::prelude::*;

use crate::alignment::{align_offset_and_size, align_offset_spec, align_size_spec};
use crate::layout_context::{LayoutContext, Point, Size};
use crate::model::{
    Align, CanvasMode, Manifest, NodeContent, PageConfig, RunningBlockPosition, SemanticNode, TableDataSource, TableSpec,
};
use crate::pagination::{page_bound, page_config_ok, page_len_ok};
use crate::pt::Pt;
use crate::resolved_style::{resolve_self_align, self_align_spec};
use crate::text::{chars_of, decimal, decimal_text, join, owned, push_char};
use crate::text_types::opt_text_view;

verus! {

/// `s` with each occurrence of `pat`, found left to right without overlap, replaced by `rep`.
pub open spec fn replace_all(s: Seq<char>, pat: Seq<char>, rep: Seq<char>) -> Seq<char>
    decreases s.len(),
{
    if s.len() == 0 || pat.len() == 0 {
        s
    } else if pat.len() <= s.len() && s.subrange(0, pat.len() as int) == pat {
        rep + replace_all(s.subrange(pat.len() as int, s.len() as int), pat, rep)
    } else {
        seq![s[0]] + replace_all(s.subrange(1, s.len() as int), pat, rep)
    }
}

/// True when `pat` occurs in `chars` at `at`.
fn occurs_at(chars: &Vec<char>, at: usize, pat: &Vec<char>) -> (r: bool)
    requires
        at <= chars@.len(),
    ensures
        r == (pat@.len() <= chars@.len() - at && chars@.subrange(at as int, at + pat@.len()) == pat@),
{
    if pat.len() > chars.len() - at {
        return false;
    }
    let mut k: usize = 0;
    while k < pat.len()
        invariant
            k <= pat@.len() <= chars@.len() - at,
            at + pat@.len() <= chars.len(),
            forall|j: int| 0 <= j < k ==> chars@[at + j] == pat@[j],
        decreases pat.len() - k,
    {
        if chars[at + k] != pat[k] {
            proof {
                assert(chars@.subrange(at as int, at + pat@.len())[k as int] != pat@[k as int]);
            }
            return false;
        }
        k = k + 1;
    }
    proof {
        assert(chars@.subrange(at as int, at + pat@.len()) =~= pat@);
    }
    true
}

/// Replace each occurrence of a non-empty `pat` in `text`, left to right, by `rep`.
pub fn replace_text(text: &str, pat: &str, rep: &str) -> (r: String)
    requires
        pat@.len() > 0,
    ensures
        r@ == replace_all(text@, pat@, rep@),
{
    let chars = chars_of(text);
    let pat_chars = chars_of(pat);
    let rep_chars = chars_of(rep);
    let n = chars.len();
    let mut out = String::new();
    let mut i: usize = 0;
    proof {
        assert(chars@.subrange(0, n as int) =~= chars@);
    }
    while i < n
        invariant
            n == chars@.len(),
            i <= n,
            pat_chars@.len() > 0,
            chars@ == text@,
            pat_chars@ == pat@,
            rep_chars@ == rep@,
            replace_all(text@, pat@, rep@) == out@ + replace_all(chars@.subrange(i as int, n as int), pat@, rep@),
        decreases n - i,
    {
        let ghost rest = chars@.subrange(i as int, n as int);
        if occurs_at(&chars, i, &pat_chars) {
            let mut k: usize = 0;
            let ghost before = out@;
            while k < rep_chars.len()
                invariant
                    k <= rep_chars@.len(),
                    out@ == before + rep_chars@.subrange(0, k as int),
                decreases rep_chars.len() - k,
            {
                push_char(&mut out, rep_chars[k]);
                k = k + 1;
                proof {
                    assert(out@ =~= before + rep_chars@.subrange(0, k as int));
                }
            }
            proof {
                assert(rest.subrange(0, pat@.len() as int) =~= chars@.subrange(i as int, i + pat@.len()));
                assert(rest.subrange(pat@.len() as int, rest.len() as int) =~= chars@.subrange(
                    i + pat@.len(),
                    n as int,
                ));
                assert(rep_chars@.subrange(0, k as int) =~= rep@);
                assert(out@ + replace_all(chars@.subrange(i + pat@.len(), n as int), pat@, rep@) =~= before
                    + replace_all(rest, pat@, rep@));
            }
            i = i + pat_chars.len();
        } else {
            let ghost before = out@;
            push_char(&mut out, chars[i]);
            proof {
                if pat@.len() <= rest.len() {
                    assert(rest.subrange(0, pat@.len() as int) =~= chars@.subrange(i as int, i + pat@.len()));
                }
                assert(rest.subrange(1, rest.len() as int) =~= chars@.subrange(i + 1, n as int));
                assert(out@ + replace_all(chars@.subrange(i + 1, n as int), pat@, rep@) =~= before + replace_all(
                    rest,
                    pat@,
                    rep@,
                ));
            }
            i = i + 1;
        }
    }
    proof {
        assert(chars@.subrange(n as int, n as int) =~= Seq::<char>::empty());
        assert(out@ + replace_all(Seq::<char>::empty(), pat@, rep@) =~= out@);
    }
    out
}

/// Text of a running block on page `current` of `total`: `{{page_current}}` and then
/// `{{page_total}}` replaced by the decimal page numbers.
pub open spec fn page_text(s: Seq<char>, current: int, total: int) -> Seq<char> {
    replace_all(
        replace_all(s, "{{page_current}}"@, decimal_text(current)),
        "{{page_total}}"@,
        decimal_text(total),
    )
}

/// Replace the page-number placeholders of a running block's text.
pub fn substitute_page_numbers(text: &str, page_current: usize, page_total: usize) -> (r: String)
    ensures
        r@ == page_text(text@, page_current as int, page_total as int),
{
    let cur_pat = "{{page_current}}";
    let tot_pat = "{{page_total}}";
    proof {
        reveal_strlit("{{page_current}}");
        reveal_strlit("{{page_total}}");
    }
    let cur = decimal(page_current as i128);
    let tot = decimal(page_total as i128);
    let once = replace_text(text, cur_pat, cur.as_str());
    replace_text(once.as_str(), tot_pat, tot.as_str())
}

/// `b` is `a` with the page numbers substituted in every text of its subtree (a table's inline
/// cells included); everything else is unchanged.
pub open spec fn node_substituted(a: SemanticNode, b: SemanticNode, current: int, total: int) -> bool
    decreases a, 0int,
{
    &&& b == (SemanticNode { content: b.content, ..a })
    &&& match a.content {
        NodeContent::Text(t) => b.content matches NodeContent::Text(u) && u@ == page_text(t@, current, total),
        NodeContent::Container { children } => {
            proof {
                assert(decreases_to!(a => a.content));
                assert(decreases_to!(a.content => children));
                assert(decreases_to!(children => children@));
            }
            &&& b.content matches NodeContent::Container { children: c2 }
            &&& c2@.len() == children@.len()
            &&& nodes_substituted(children@, c2@, current, total, children@.len() as int)
        },
        NodeContent::Table(spec) => match spec.data {
            TableDataSource::Inline { rows } => {
                proof {
                    assert(decreases_to!(a => a.content));
                    assert(decreases_to!(a.content => spec));
                    assert(decreases_to!(spec => spec.data));
                    assert(decreases_to!(spec.data => rows));
                    assert(decreases_to!(rows => rows@));
                }
                &&& b.content matches NodeContent::Table(s2)
                &&& s2 == (TableSpec { data: s2.data, ..spec })
                &&& s2.data matches TableDataSource::Inline { rows: r2 }
                &&& r2@.len() == rows@.len()
                &&& rows_substituted(rows@, r2@, current, total, rows@.len() as int)
            },
            TableDataSource::Asset { .. } => b.content == a.content,
        },
        _ => b.content == a.content,
    }
}

/// The first `k` nodes of `b` are those of `a` with page numbers substituted.
pub open spec fn nodes_substituted(a: Seq<SemanticNode>, b: Seq<SemanticNode>, current: int, total: int, k: int) -> bool
    decreases a, k,
{
    if k <= 0 || k > a.len() {
        true
    } else {
        proof {
            assert(decreases_to!(a => a[k - 1]));
        }
        nodes_substituted(a, b, current, total, k - 1) && node_substituted(a[k - 1], b[k - 1], current, total)
    }
}

/// The first `k` rows of `b` are those of `a` with page numbers substituted cell by cell.
pub open spec fn rows_substituted(
    a: Seq<Vec<SemanticNode>>,
    b: Seq<Vec<SemanticNode>>,
    current: int,
    total: int,
    k: int,
) -> bool
    decreases a, k,
{
    if k <= 0 || k > a.len() {
        true
    } else {
        proof {
            assert(decreases_to!(a => a[k - 1]));
            assert(decreases_to!(a[k - 1] => a[k - 1]@));
        }
        &&& rows_substituted(a, b, current, total, k - 1)
        &&& b[k - 1]@.len() == a[k - 1]@.len()
        &&& nodes_substituted(a[k - 1]@, b[k - 1]@, current, total, a[k - 1]@.len() as int)
    }
}

proof fn lemma_nodes_substituted_frame(
    a: Seq<SemanticNode>,
    b: Seq<SemanticNode>,
    b2: Seq<SemanticNode>,
    current: int,
    total: int,
    k: int,
)
    requires
        0 <= k <= a.len(),
        k <= b.len(),
        k <= b2.len(),
        forall|j: int| 0 <= j < k ==> b[j] == b2[j],
        nodes_substituted(a, b, current, total, k),
    ensures
        nodes_substituted(a, b2, current, total, k),
    decreases k,
{
    if k > 0 {
        lemma_nodes_substituted_frame(a, b, b2, current, total, k - 1);
    }
}

proof fn lemma_rows_substituted_frame(
    a: Seq<Vec<SemanticNode>>,
    b: Seq<Vec<SemanticNode>>,
    b2: Seq<Vec<SemanticNode>>,
    current: int,
    total: int,
    k: int,
)
    requires
        0 <= k <= a.len(),
        k <= b.len(),
        k <= b2.len(),
        forall|j: int| 0 <= j < k ==> b[j]@ == b2[j]@,
        rows_substituted(a, b, current, total, k),
    ensures
        rows_substituted(a, b2, current, total, k),
    decreases k,
{
    if k > 0 {
        lemma_rows_substituted_frame(a, b, b2, current, total, k - 1);
    }
}

fn substitute_in_nodes(nodes: &mut Vec<SemanticNode>, page_current: usize, page_total: usize)
    ensures
        final(nodes)@.len() == old(nodes)@.len(),
        nodes_substituted(old(nodes)@, final(nodes)@, page_current as int, page_total as int, old(nodes)@.len() as int),
    decreases old(nodes)@, 1int,
{
    let ghost orig = nodes@;
    let n = nodes.len();
    let mut i: usize = 0;
    while i < n
        invariant
            n == orig.len(),
            orig == old(nodes)@,
            nodes@.len() == n,
            i <= n,
            forall|j: int| i <= j < n ==> nodes@[j] == orig[j],
            nodes_substituted(orig, nodes@, page_current as int, page_total as int, i as int),
        decreases n - i,
    {
        proof {
            assert(decreases_to!(orig => orig[i as int]));
            assert(decreases_to!(orig => nodes@[i as int]));
        }
        let ghost before = nodes@;
        let slot = &mut nodes[i];
        proof {
            assert(decreases_to!(orig => *slot));
        }
        substitute_placeholders_in_node(slot, page_current, page_total);
        proof {
            lemma_nodes_substituted_frame(orig, before, nodes@, page_current as int, page_total as int, i as int);
        }
        i = i + 1;
    }
}

/// Substitute the page numbers of page `page_current` of `page_total` in every text of a
/// running block's subtree, table cells included.
pub fn substitute_placeholders_in_node(node: &mut SemanticNode, page_current: usize, page_total: usize)
    ensures
        node_substituted(*old(node), *final(node), page_current as int, page_total as int),
    decreases *old(node), 2int,
{
    let ghost orig = *node;
    match &mut node.content {
        NodeContent::Text(t) => {
            let s = substitute_page_numbers(t.as_str(), page_current, page_total);
            *t = s;
        },
        NodeContent::Container { children } => {
            let ghost cs = orig.content->Container_children;
            proof {
                assert(decreases_to!(orig => orig.content));
                assert(decreases_to!(orig.content => cs));
                assert(decreases_to!(cs => cs@));
                assert(children@ == cs@);
            }
            substitute_in_nodes(children, page_current, page_total);
        },
        NodeContent::Table(spec) => match &mut spec.data {
            TableDataSource::Inline { rows } => {
                let ghost sp = orig.content->Table_0;
                let ghost rr = sp.data->Inline_rows;
                let ghost orig_rows = rr@;
                proof {
                    assert(decreases_to!(orig => orig.content));
                    assert(decreases_to!(orig.content => sp));
                    assert(decreases_to!(sp => sp.data));
                    assert(decreases_to!(sp.data => rr));
                    assert(decreases_to!(rr => rr@));
                    assert(rows@ == orig_rows);
                }
                let n = rows.len();
                let mut k: usize = 0;
                while k < n
                    invariant
                        n == orig_rows.len(),
                        rows@.len() == n,
                        k <= n,
                        decreases_to!(orig => orig_rows),
                        orig == *old(node),
                        forall|j: int| k <= j < n ==> rows@[j] == orig_rows[j],
                        rows_substituted(orig_rows, rows@, page_current as int, page_total as int, k as int),
                    decreases n - k,
                {
                    proof {
                        assert(decreases_to!(orig_rows => orig_rows[k as int]));
                        assert(decreases_to!(orig_rows[k as int] => orig_rows[k as int]@));
                        assert(decreases_to!(orig => rows@[k as int]@));
                    }
                    let ghost before = rows@;
                    let row = &mut rows[k];
                    proof {
                        assert(decreases_to!(orig => row@));
                    }
                    substitute_in_nodes(row, page_current, page_total);
                    proof {
                        lemma_rows_substituted_frame(orig_rows, before, rows@, page_current as int, page_total as int, k as int);
                    }
                    k = k + 1;
                }
            },
            TableDataSource::Asset { .. } => {},
        },
        _ => {},
    }
}

/// Whether running blocks are laid out at all: not without any; refused unless pages are fixed.
pub fn running_blocks_wanted(manifest: &Manifest) -> (r: Result<bool, String>)
    ensures
        manifest.running_blocks@.len() == 0 ==> r == Ok::<bool, String>(false),
        manifest.running_blocks@.len() > 0 && manifest.canvas_mode != CanvasMode::Paged ==> r is Err,
        manifest.running_blocks@.len() > 0 && manifest.canvas_mode == CanvasMode::Paged ==> r == Ok::<bool, String>(true),
{
    if manifest.running_blocks.len() == 0 {
        return Ok(false);
    }
    match manifest.canvas_mode {
        CanvasMode::Paged => Ok(true),
        _ => Err(owned("running blocks are only supported when canvas_mode is 'paged'")),
    }
}

/// The band a running block goes in on a page: `(start, end)`, from the page top to the top
/// margin for a header, from the bottom margin to the page bottom for a footer.
pub open spec fn band_spec(position: RunningBlockPosition, page: PageConfig) -> (int, int) {
    match position {
        RunningBlockPosition::Header => (0, page.margin@[0].0 as int),
        RunningBlockPosition::Footer => (page.height.0 - page.margin@[2].0, page.height.0 as int),
    }
}

/// Start and end of the band of a running block position (see [`band_spec`]).
pub fn running_band(position: RunningBlockPosition, page: &PageConfig) -> (r: (Pt, Pt))
    requires
        page_config_ok(*page),
    ensures
        (r.0.0 as int, r.1.0 as int) == band_spec(position, *page),
{
    match position {
        RunningBlockPosition::Header => (Pt(0), page.margin[0]),
        RunningBlockPosition::Footer => {
            assert(page_len_ok(page.margin@[2]));
            (Pt(page.height.0 - page.margin[2].0), page.height)
        },
    }
}

/// The name a band position is reported by.
pub open spec fn position_name(position: RunningBlockPosition) -> Seq<char> {
    match position {
        RunningBlockPosition::Header => "Header"@,
        RunningBlockPosition::Footer => "Footer"@,
    }
}

/// Error text for a band whose cursor has passed its end before a block is measured.
pub open spec fn band_full_message(position: RunningBlockPosition, page: int) -> Seq<char> {
    "running block overflow: position "@ + position_name(position) + " has no remaining band height on page "@
        + decimal_text(page)
}

/// Error text for a block that runs past the end of its band.
pub open spec fn band_overflow_message(position: RunningBlockPosition, page: int) -> Seq<char> {
    "running block overflow: position "@ + position_name(position) + " exceeds band height on page "@
        + decimal_text(page)
}

fn band_message(position: RunningBlockPosition, full: bool, page_current: usize) -> (r: String)
    ensures
        full ==> r@ == band_full_message(position, page_current as int),
        !full ==> r@ == band_overflow_message(position, page_current as int),
{
    let name = match position {
        RunningBlockPosition::Header => "Header",
        RunningBlockPosition::Footer => "Footer",
    };
    let tail = if full {
        " has no remaining band height on page "
    } else {
        " exceeds band height on page "
    };
    proof {
        reveal_strlit("Header");
        reveal_strlit("Footer");
        reveal_strlit("running block overflow: position ");
        reveal_strlit(" has no remaining band height on page ");
        reveal_strlit(" exceeds band height on page ");
    }
    let m = join(owned("running block overflow: position "), name);
    let m = join(m, tail);
    let page = decimal(page_current as i128);
    join(m, page.as_str())
}

/// Room left in a band at `cursor`, which a running block is measured within; refused once the
/// cursor has passed the band's end.
pub fn running_block_room(position: RunningBlockPosition, cursor: Pt, band_end: Pt, page_current: usize) -> (r: Result<Pt, String>)
    requires
        page_len_ok(band_end),
        -2 * page_bound() <= cursor.0 <= 2 * page_bound(),
    ensures
        cursor.0 > band_end.0 ==> r is Err && r->Err_0@ == band_full_message(position, page_current as int),
        cursor.0 <= band_end.0 ==> r is Ok && r->Ok_0.0 == band_end.0 - cursor.0,
{
    if cursor.0 > band_end.0 {
        return Err(band_message(position, true, page_current));
    }
    Ok(Pt(band_end.0 - cursor.0))
}

/// Where a running block that measured `measured` goes in its band: at `cursor`, offset across
/// the content width by the block's own alignment (start unless its role says otherwise).
pub open spec fn running_slot(cursor: int, x_base: int, content_w: int, measured: Size, align: Align) -> (Point, Size) {
    (
        Point {
            x: Pt((x_base + align_offset_spec(align, content_w, measured.width.0 as int)) as i128),
            y: Pt(cursor as i128),
        },
        Size { width: Pt(align_size_spec(align, content_w, measured.width.0 as int) as i128), height: measured.height },
    )
}

/// The alignment of a running block: its role's, else start.
pub open spec fn running_align(node: SemanticNode, ctx: LayoutContext) -> Align {
    match self_align_spec(node.role@, opt_text_view(node.variant), *ctx.theme) {
        Some(a) => a,
        None => Align::Start,
    }
}

/// Place a measured running block at `cursor` in its band (see [`running_slot`]) and give the
/// cursor after it.
pub fn place_running_block(
    node: &SemanticNode,
    cursor: Pt,
    x_base: Pt,
    content_w: Pt,
    measured: Size,
    ctx: &LayoutContext,
) -> (r: (Point, Size, Pt))
    requires
        -2 * page_bound() <= cursor.0 <= 2 * page_bound(),
        page_len_ok(x_base),
        0 <= content_w.0 <= 2 * page_bound(),
        0 <= measured.width.0 <= 2 * page_bound(),
        0 <= measured.height.0 <= 2 * page_bound(),
    ensures
        (r.0, r.1) == running_slot(cursor.0 as int, x_base.0 as int, content_w.0 as int, measured, running_align(*node, *ctx)),
        r.2.0 == cursor.0 + measured.height.0,
{
    let variant = match &node.variant {
        Some(v) => Some(v.as_str()),
        None => None,
    };
    let align = match resolve_self_align(node.role.as_str(), variant, ctx.theme) {
        Some(a) => a,
        None => Align::Start,
    };
    let (dx, w) = align_offset_and_size(align, content_w, measured.width);
    (Point::new(Pt(x_base.0 + dx.0), cursor), Size::new(w, measured.height), Pt(cursor.0 + measured.height.0))
}

/// Refuse a running block that ended past its band's end.
pub fn check_running_block_fits(position: RunningBlockPosition, cursor: Pt, band_end: Pt, page_current: usize) -> (r: Result<(), String>)
    ensures
        cursor.0 > band_end.0 ==> r is Err && r->Err_0@ == band_overflow_message(position, page_current as int),
        cursor.0 <= band_end.0 ==> r is Ok,
{
    if cursor.0 > band_end.0 {
        return Err(band_message(position, false, page_current));
    }
    Ok(())
}

} // verus!
