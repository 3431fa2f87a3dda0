//! Post-layout diagnostics. Not part of the lock or appearance hash.

use vstd::prelude::*;

use crate::model::{GeometryNode, LayoutResult, Manifest, NodeContent, Page, SemanticNode, TableDataSource};
use crate::pagination::{content_height, content_height_spec, page_config_ok};
use crate::pt::{trunc_div, Pt};
use crate::resolved_style::{padding_for_role_variant, role_padding, EdgeInsets};
use crate::text::{decimal, decimal_text, join, owned, same_text};
use crate::text_types::opt_text_view;
use crate::theme::Theme;

verus! {

/// Hint attached to a box with unused space at the bottom.
pub const GROWER_HINT: &'static str = "nest {fr:1} in the grower; do not pack an auto-height stack";

/// Hint attached to an underfilled single page.
pub const PAGE_HINT_ONE: &'static str = "one-page form: copy ex_filled_page.json; leftover on table or notes {fr:1}";

/// Hint attached to an underfilled page that is not the last.
pub const PAGE_HINT_MID: &'static str = "do not pre-paginate with break_before; one flow tree, engine fills the page";

#[derive(Debug, Clone, Copy, PartialEq, Eq, Structural)]
pub enum LayoutDiagKind {
    Slack,
    PageUnderfill,
}

#[derive(Debug, Clone, PartialEq, Eq)]
pub struct LayoutDiag {
    pub kind: LayoutDiagKind,
    pub node_id: String,
    pub unused_below: Pt,
    pub unused_above: Pt,
    pub inner_height: Pt,
    pub after_id: Option<String>,
    pub hint: &'static str,
    pub page: Option<usize>,
}

/// Unused space below as a whole percentage of the inner height (0 for an empty box).
pub open spec fn unused_pct_spec(unused_below: int, inner_height: int) -> int {
    if inner_height <= 0 {
        0
    } else {
        trunc_div(unused_below * 100, inner_height)
    }
}

/// The report line of a diagnostic: its kind's tag, the box (or page), the unused space
/// below with its percentage of the inner height, the space above (for a box), the node it
/// follows (`-` for none) and the hint.
pub open spec fn diag_text(d: LayoutDiag) -> Seq<char> {
    let after = match d.after_id {
        Some(a) => a@,
        None => "-"@,
    };
    let pct = decimal_text(unused_pct_spec(d.unused_below.0 as int, d.inner_height.0 as int));
    let below = decimal_text(d.unused_below.0 as int);
    match d.kind {
        LayoutDiagKind::Slack => "LAYOUT_SLACK id="@ + d.node_id@ + " unused_below="@ + below + " ("@ + pct
            + "%) unused_above="@ + decimal_text(d.unused_above.0 as int) + " after="@ + after + " hint="@ + d.hint@,
        LayoutDiagKind::PageUnderfill => "PAGE_UNDERFILL page="@ + decimal_text(
            match d.page {
                Some(p) => p as int,
                None => 0,
            },
        ) + " unused_below="@ + below + " ("@ + pct + "%) after="@ + after + " hint="@ + d.hint@,
    }
}

impl LayoutDiag {
    pub fn unused_pct(&self) -> (r: i128)
        requires
            -0x100_0000_0000_0000_0000_0000_0000_0000 <= self.unused_below.0 <= 0x100_0000_0000_0000_0000_0000_0000_0000,
        ensures
            r == unused_pct_spec(self.unused_below.0 as int, self.inner_height.0 as int),
    {
        if self.inner_height.0 <= 0 {
            0
        } else {
            let num = self.unused_below.0 * 100;
            proof {
                assert(-0x1_0000_0000_0000_0000_0000_0000_0000_0000int <= num <= 0x1_0000_0000_0000_0000_0000_0000_0000_0000int);
                assert(-0x1_0000_0000_0000_0000_0000_0000_0000_0000int <= trunc_div(num as int, self.inner_height.0 as int)
                    <= 0x1_0000_0000_0000_0000_0000_0000_0000_0000int) by (nonlinear_arith)
                    requires
                        -0x1_0000_0000_0000_0000_0000_0000_0000_0000int <= num <= 0x1_0000_0000_0000_0000_0000_0000_0000_0000int,
                        self.inner_height.0 > 0,
                ;
            }
            crate::pt::i128_div(num, self.inner_height.0)
        }
    }

    /// The diagnostic as one report line.
    pub fn to_text(&self) -> (r: String)
        requires
            -0x100_0000_0000_0000_0000_0000_0000_0000 <= self.unused_below.0 <= 0x100_0000_0000_0000_0000_0000_0000_0000,
        ensures
            r@ == diag_text(*self),
    {
        proof {
            reveal_strlit("-");
            reveal_strlit("LAYOUT_SLACK id=");
            reveal_strlit(" unused_below=");
            reveal_strlit(" (");
            reveal_strlit("%) unused_above=");
            reveal_strlit(" after=");
            reveal_strlit(" hint=");
            reveal_strlit("PAGE_UNDERFILL page=");
            reveal_strlit("%) after=");
        }
        let after = match &self.after_id {
            Some(a) => a.as_str(),
            None => "-",
        };
        let pct = decimal(self.unused_pct());
        let below = decimal(self.unused_below.0);
        match self.kind {
            LayoutDiagKind::Slack => {
                let t = join(owned("LAYOUT_SLACK id="), self.node_id.as_str());
                let t = join(join(t, " unused_below="), below.as_str());
                let t = join(join(join(t, " ("), pct.as_str()), "%) unused_above=");
                let t = join(t, decimal(self.unused_above.0).as_str());
                let t = join(join(t, " after="), after);
                join(join(t, " hint="), self.hint)
            },
            LayoutDiagKind::PageUnderfill => {
                let page = match self.page {
                    Some(p) => p,
                    None => 0,
                };
                let t = join(owned("PAGE_UNDERFILL page="), decimal(page as i128).as_str());
                let t = join(join(t, " unused_below="), below.as_str());
                let t = join(join(join(t, " ("), pct.as_str()), "%) after=");
                let t = join(t, after);
                join(join(t, " hint="), self.hint)
            },
        }
    }
}

/// Leaves and tables paint their own box; containers and tables do not.
pub fn paints_own_box(content: &NodeContent) -> (r: bool)
    ensures
        r == !(content is Container || content is Table),
{
    match content {
        NodeContent::Container { .. } => false,
        NodeContent::Table(_) => false,
        _ => true,
    }
}

/// Magnitude bound for the geometry slack arithmetic.
pub open spec fn slack_len_ok(x: int) -> bool {
    -0x10_0000_0000_0000_0000_0000_0000 <= x <= 0x10_0000_0000_0000_0000_0000_0000
}

/// `max(x, 0)`.
pub open spec fn nonneg(x: int) -> int {
    if x > 0 {
        x
    } else {
        0
    }
}

/// Unused space of a box: `(below, above, inner height, after)` when the unused space below is
/// at least 12% of the inner height and not dominated by space above; `None` otherwise.
pub open spec fn slack_spec(geo: GeometryNode, padding: EdgeInsets, paints_own: bool) -> Option<
    (int, int, int, Option<Seq<char>>),
> {
    let inner_h = nonneg(geo.height.0 - padding.vertical_spec());
    let inner_top = geo.y.0 + padding.top.0;
    let inner_bottom = inner_top + inner_h;
    if inner_h <= 0 {
        None
    } else if geo.children@.len() == 0 && paints_own {
        None
    } else {
        let (above, below, after) = if geo.children@.len() == 0 {
            (0int, inner_h, None::<Seq<char>>)
        } else {
            let first = geo.children@[0];
            let last = geo.children@.last();
            (nonneg(first.y.0 - inner_top), nonneg(inner_bottom - last.y.0 - last.height.0), Some(last.id@))
        };
        if below * 100 < inner_h * 12 {
            None
        } else if above > 0 && below <= above * 2 {
            None
        } else {
            Some((below, above, inner_h, after))
        }
    }
}

/// Bounded geometry for slack arithmetic.
pub open spec fn slack_geo_ok(geo: GeometryNode, padding: EdgeInsets) -> bool {
    &&& slack_len_ok(geo.y.0 as int)
    &&& slack_len_ok(geo.height.0 as int)
    &&& slack_len_ok(padding.top.0 as int)
    &&& slack_len_ok(padding.bottom.0 as int)
    &&& forall|i: int|
        0 <= i < geo.children@.len() ==> slack_len_ok((#[trigger] geo.children@[i]).y.0 as int) && slack_len_ok(
            geo.children@[i].height.0 as int,
        )
}

pub fn slack_for_box(id: &str, geo: &GeometryNode, padding: EdgeInsets, paints_own_box: bool) -> (r: Option<LayoutDiag>)
    requires
        slack_geo_ok(*geo, padding),
    ensures
        match slack_spec(*geo, padding, paints_own_box) {
            None => r is None,
            Some((below, above, inner, after)) => r matches Some(d) && d.kind == LayoutDiagKind::Slack && d.node_id@
                == id@ && d.unused_below.0 == below && d.unused_above.0 == above && d.inner_height.0 == inner
                && opt_text_view(d.after_id) == after && d.hint@ == GROWER_HINT@ && d.page is None,
        },
{
    let v = padding.top.0 + padding.bottom.0;
    let raw = geo.height.0 - v;
    let inner_h: i128 = if raw > 0 {
        raw
    } else {
        0
    };
    if inner_h <= 0 {
        return None;
    }
    let inner_top = geo.y.0 + padding.top.0;
    let inner_bottom = inner_top + inner_h;
    let n = geo.children.len();
    let (unused_above, unused_below, after_id): (i128, i128, Option<String>) = if n == 0 {
        if paints_own_box {
            return None;
        }
        (0, inner_h, None)
    } else {
        let first = &geo.children[0];
        let last = &geo.children[n - 1];
        proof {
            assert(slack_len_ok(geo.children@[0].y.0 as int));
            assert(slack_len_ok(geo.children@[n - 1].y.0 as int));
        }
        let a = first.y.0 - inner_top;
        let b = inner_bottom - last.y.0 - last.height.0;
        (
            if a > 0 {
                a
            } else {
                0
            },
            if b > 0 {
                b
            } else {
                0
            },
            Some(last.id.clone()),
        )
    };
    if unused_below * 100 < inner_h * 12 {
        return None;
    }
    if unused_above > 0 && unused_below <= unused_above * 2 {
        return None;
    }
    Some(
        LayoutDiag {
            kind: LayoutDiagKind::Slack,
            node_id: owned(id),
            unused_below: Pt(unused_below),
            unused_above: Pt(unused_above),
            inner_height: Pt(inner_h),
            after_id,
            hint: GROWER_HINT,
            page: None,
        },
    )
}

// ---------------------------------------------------------------------------------------------
// Finding boxes.

/// The first box with id `id` in a pre-order walk of `node`.
pub open spec fn find_box(node: GeometryNode, id: Seq<char>) -> Option<GeometryNode>
    decreases node, 0int,
{
    if node.id@ == id {
        Some(node)
    } else {
        proof {
            assert(decreases_to!(node => node.children));
            assert(decreases_to!(node.children => node.children@));
        }
        find_in_boxes(node.children@, id, node.children@.len() as int)
    }
}

/// The first box with id `id` among the subtrees of the first `k` boxes.
pub open spec fn find_in_boxes(nodes: Seq<GeometryNode>, id: Seq<char>, k: int) -> Option<GeometryNode>
    decreases nodes, k,
{
    if k <= 0 || k > nodes.len() {
        None
    } else {
        match find_in_boxes(nodes, id, k - 1) {
            Some(g) => Some(g),
            None => {
                proof {
                    assert(decreases_to!(nodes => nodes[k - 1]));
                }
                find_box(nodes[k - 1], id)
            },
        }
    }
}

fn find_in_node<'a>(node: &'a GeometryNode, id: &str) -> (r: Option<&'a GeometryNode>)
    ensures
        match find_box(*node, id@) {
            None => r is None,
            Some(g) => r matches Some(x) && *x == g,
        },
    decreases *node, 1int,
{
    if same_text(&node.id, id) {
        return Some(node);
    }
    proof {
        assert(decreases_to!(*node => node.children));
        assert(decreases_to!(node.children => node.children@));
    }
    let mut k: usize = 0;
    while k < node.children.len()
        invariant
            k <= node.children@.len(),
            node.id@ != id@,
            find_in_boxes(node.children@, id@, k as int) is None,
            decreases_to!(*node => node.children@),
        decreases node.children.len() - k,
    {
        proof {
            assert(decreases_to!(node.children@ => node.children@[k as int]));
        }
        match find_in_node(&node.children[k], id) {
            Some(g) => {
                proof {
                    lemma_find_in_boxes_found(node.children@, id@, k + 1, node.children@.len() as int);
                }
                return Some(g);
            },
            None => {},
        }
        k = k + 1;
    }
    None
}

proof fn lemma_find_in_boxes_found(nodes: Seq<GeometryNode>, id: Seq<char>, j: int, k: int)
    requires
        0 < j <= k <= nodes.len(),
        find_in_boxes(nodes, id, j) is Some,
    ensures
        find_in_boxes(nodes, id, k) == find_in_boxes(nodes, id, j),
    decreases k - j,
{
    if j < k {
        lemma_find_in_boxes_found(nodes, id, j, k - 1);
    }
}

/// The first box with id `id`, searching page by page.
pub open spec fn find_geo_spec(pages: Seq<Page>, id: Seq<char>, k: int) -> Option<GeometryNode>
    decreases k,
{
    if k <= 0 || k > pages.len() {
        None
    } else {
        match find_geo_spec(pages, id, k - 1) {
            Some(g) => Some(g),
            None => find_box(pages[k - 1].root, id),
        }
    }
}

pub fn find_geo<'a>(layout: &'a LayoutResult, id: &str) -> (r: Option<&'a GeometryNode>)
    ensures
        match find_geo_spec(layout.pages@, id@, layout.pages@.len() as int) {
            None => r is None,
            Some(g) => r matches Some(x) && *x == g,
        },
{
    let mut k: usize = 0;
    while k < layout.pages.len()
        invariant
            k <= layout.pages@.len(),
            find_geo_spec(layout.pages@, id@, k as int) is None,
        decreases layout.pages.len() - k,
    {
        match find_in_node(&layout.pages[k].root, id) {
            Some(g) => {
                proof {
                    lemma_find_geo_found(layout.pages@, id@, k + 1, layout.pages@.len() as int);
                }
                return Some(g);
            },
            None => {},
        }
        k = k + 1;
    }
    None
}

proof fn lemma_find_geo_found(pages: Seq<Page>, id: Seq<char>, j: int, k: int)
    requires
        0 < j <= k <= pages.len(),
        find_geo_spec(pages, id, j) is Some,
    ensures
        find_geo_spec(pages, id, k) == find_geo_spec(pages, id, j),
    decreases k - j,
{
    if j < k {
        lemma_find_geo_found(pages, id, j, k - 1);
    }
}

/// True when `id` is among `ids`.
fn contains_id(ids: &Vec<String>, id: &String) -> (r: bool)
    ensures
        r == exists|i: int| 0 <= i < ids@.len() && (#[trigger] ids@[i])@ == id@,
{
    let mut i: usize = 0;
    while i < ids.len()
        invariant
            i <= ids@.len(),
            forall|j: int| 0 <= j < i ==> (#[trigger] ids@[j])@ != id@,
        decreases ids.len() - i,
    {
        if *id == ids[i] {
            return true;
        }
        i = i + 1;
    }
    false
}

/// A node's padding, or none when its decoration's padding is invalid.
pub open spec fn padding_or_zero(node: SemanticNode, theme: Theme) -> EdgeInsets {
    match role_padding(node.role@, opt_text_view(node.variant), theme) {
        Some(p) => p,
        None => EdgeInsets { top: Pt(0), right: Pt(0), bottom: Pt(0), left: Pt(0) },
    }
}

/// Report unused space inside `node`'s box once per node id.
pub fn consider(node: &SemanticNode, layout: &LayoutResult, theme: &Theme, diags: &mut Vec<LayoutDiag>, seen: &mut Vec<String>)
    requires
        find_geo_spec(layout.pages@, node.id@, layout.pages@.len() as int) matches Some(g) ==> slack_geo_ok(
            g,
            padding_or_zero(*node, *theme),
        ),
    ensures
        (exists|i: int| 0 <= i < old(seen)@.len() && (#[trigger] old(seen)@[i])@ == node.id@) ==> final(diags)@
            == old(diags)@ && final(seen)@ == old(seen)@,
        !(exists|i: int| 0 <= i < old(seen)@.len() && (#[trigger] old(seen)@[i])@ == node.id@) ==> {
            &&& final(seen)@.len() == old(seen)@.len() + 1
            &&& final(seen)@.last()@ == node.id@
            &&& match find_geo_spec(layout.pages@, node.id@, layout.pages@.len() as int) {
                None => final(diags)@ == old(diags)@,
                Some(geo) => {
                    match slack_spec(geo, padding_or_zero(*node, *theme), !(node.content is Container || node.content is Table)) {
                        None => final(diags)@ == old(diags)@,
                        Some(_) => final(diags)@.len() == old(diags)@.len() + 1 && final(diags)@.drop_last()
                            == old(diags)@,
                    }
                },
            }
        },
{
    if contains_id(seen, &node.id) {
        return;
    }
    seen.push(node.id.clone());
    let geo = match find_geo(layout, node.id.as_str()) {
        Some(g) => g,
        None => {
            return;
        },
    };
    let variant = match &node.variant {
        Some(v) => Some(v.as_str()),
        None => None,
    };
    let padding = match padding_for_role_variant(node.role.as_str(), variant, theme) {
        Ok(p) => p,
        Err(_) => EdgeInsets::zero(),
    };
    match slack_for_box(node.id.as_str(), geo, padding, paints_own_box(&node.content)) {
        Some(d) => {
            diags.push(d);
        },
        None => {},
    }
}

// ---------------------------------------------------------------------------------------------
// Running blocks and page underfill.

/// Ids of a subtree in pre-order: the node, then its container children's subtrees, or its
/// inline table cells' subtrees row by row.
pub open spec fn subtree_ids(node: SemanticNode) -> Seq<Seq<char>>
    decreases node, 0int,
{
    seq![node.id@] + match node.content {
        NodeContent::Container { children } => {
            proof {
                assert(decreases_to!(node => node.content));
                assert(decreases_to!(node.content => children));
                assert(decreases_to!(children => children@));
            }
            children_ids(children@, children@.len() as int)
        },
        NodeContent::Table(spec) => match spec.data {
            TableDataSource::Inline { rows } => {
                proof {
                    assert(decreases_to!(node => node.content));
                    assert(decreases_to!(node.content => spec));
                    assert(decreases_to!(spec => spec.data));
                    assert(decreases_to!(spec.data => rows));
                    assert(decreases_to!(rows => rows@));
                }
                rows_ids(rows@, rows@.len() as int)
            },
            TableDataSource::Asset { .. } => seq![],
        },
        _ => seq![],
    }
}

/// Ids of the subtrees of the first `k` nodes.
pub open spec fn children_ids(children: Seq<SemanticNode>, k: int) -> Seq<Seq<char>>
    decreases children, k,
{
    if k <= 0 || k > children.len() {
        seq![]
    } else {
        proof {
            assert(decreases_to!(children => children[k - 1]));
        }
        children_ids(children, k - 1) + subtree_ids(children[k - 1])
    }
}

/// Ids of the cells' subtrees of the first `k` rows.
pub open spec fn rows_ids(rows: Seq<Vec<SemanticNode>>, k: int) -> Seq<Seq<char>>
    decreases rows, k,
{
    if k <= 0 || k > rows.len() {
        seq![]
    } else {
        proof {
            assert(decreases_to!(rows => rows[k - 1]));
            assert(decreases_to!(rows[k - 1] => rows[k - 1]@));
        }
        rows_ids(rows, k - 1) + children_ids(rows[k - 1]@, rows[k - 1]@.len() as int)
    }
}

pub open spec fn id_views(ids: Seq<String>) -> Seq<Seq<char>> {
    ids.map_values(|s: String| s@)
}

fn collect_children_ids(children: &Vec<SemanticNode>, out: &mut Vec<String>)
    ensures
        id_views(final(out)@) == id_views(old(out)@) + children_ids(children@, children@.len() as int),
    decreases children@, 1int,
{
    let ghost start = id_views(out@);
    let mut i: usize = 0;
    while i < children.len()
        invariant
            i <= children@.len(),
            start == id_views(old(out)@),
            id_views(out@) == start + children_ids(children@, i as int),
        decreases children.len() - i,
    {
        proof {
            assert(decreases_to!(children@ => children@[i as int]));
        }
        collect_ids(&children[i], out);
        proof {
            assert(start + children_ids(children@, i + 1) =~= start + children_ids(children@, i as int) + subtree_ids(
                children@[i as int],
            ));
        }
        i = i + 1;
    }
}

/// Append the ids of `node`'s subtree, in pre-order.
fn collect_ids(node: &SemanticNode, out: &mut Vec<String>)
    ensures
        id_views(final(out)@) == id_views(old(out)@) + subtree_ids(*node),
    decreases *node, 2int,
{
    let ghost start = id_views(out@);
    out.push(node.id.clone());
    proof {
        assert(id_views(out@) =~= start + seq![node.id@]);
    }
    match &node.content {
        NodeContent::Container { children } => {
            proof {
                assert(decreases_to!(*node => node.content));
                assert(decreases_to!(node.content => *children));
                assert(decreases_to!(*children => children@));
            }
            collect_children_ids(children, out);
            proof {
                assert(id_views(out@) =~= start + subtree_ids(*node));
            }
        },
        NodeContent::Table(spec) => match &spec.data {
            TableDataSource::Inline { rows } => {
                proof {
                    assert(decreases_to!(*node => node.content));
                    assert(decreases_to!(node.content => *spec));
                    assert(decreases_to!(*spec => spec.data));
                    assert(decreases_to!(spec.data => *rows));
                    assert(decreases_to!(*rows => rows@));
                }
                let ghost mid = id_views(out@);
                let mut k: usize = 0;
                while k < rows.len()
                    invariant
                        k <= rows@.len(),
                        id_views(out@) == mid + rows_ids(rows@, k as int),
                        decreases_to!(*node => rows@),
                    decreases rows.len() - k,
                {
                    proof {
                        assert(decreases_to!(rows@ => rows@[k as int]));
                        assert(decreases_to!(rows@[k as int] => rows@[k as int]@));
                    }
                    collect_children_ids(&rows[k], out);
                    proof {
                        assert(mid + rows_ids(rows@, k + 1) =~= mid + rows_ids(rows@, k as int) + children_ids(
                            rows@[k as int]@,
                            rows@[k as int]@.len() as int,
                        ));
                    }
                    k = k + 1;
                }
                proof {
                    assert(id_views(out@) =~= start + subtree_ids(*node));
                }
            },
            TableDataSource::Asset { .. } => {
                proof {
                    assert(id_views(out@) =~= start + subtree_ids(*node));
                }
            },
        },
        _ => {
            proof {
                assert(id_views(out@) =~= start + subtree_ids(*node));
            }
        },
    }
}

/// Ids of every node of the running blocks, block by block.
pub open spec fn running_ids_spec(blocks: Seq<crate::model::RunningBlock>, k: int) -> Seq<Seq<char>>
    decreases k,
{
    if k <= 0 || k > blocks.len() {
        seq![]
    } else {
        running_ids_spec(blocks, k - 1) + subtree_ids(blocks[k - 1].node)
    }
}

/// Ids of every node of the manifest's running blocks (headers and footers).
pub fn running_ids(manifest: &Manifest) -> (r: Vec<String>)
    ensures
        id_views(r@) == running_ids_spec(manifest.running_blocks@, manifest.running_blocks@.len() as int),
{
    let mut ids: Vec<String> = Vec::new();
    let mut k: usize = 0;
    assert(id_views(ids@) =~= Seq::<Seq<char>>::empty());
    while k < manifest.running_blocks.len()
        invariant
            k <= manifest.running_blocks@.len(),
            id_views(ids@) == running_ids_spec(manifest.running_blocks@, k as int),
        decreases manifest.running_blocks.len() - k,
    {
        collect_ids(&manifest.running_blocks[k].node, &mut ids);
        k = k + 1;
    }
    ids
}

/// The id belongs to a running block.
pub open spec fn is_running(running: Seq<String>, id: Seq<char>) -> bool {
    exists|j: int| 0 <= j < running.len() && (#[trigger] running[j])@ == id
}

pub open spec fn bottom_of(g: GeometryNode) -> int {
    g.y.0 + g.height.0
}

/// Index of the non-running child among the first `k` that reaches lowest (the first of equals).
pub open spec fn lowest_child(children: Seq<GeometryNode>, running: Seq<String>, k: int) -> Option<int>
    decreases k,
{
    if k <= 0 || k > children.len() {
        None
    } else {
        let prev = lowest_child(children, running, k - 1);
        if is_running(running, children[k - 1].id@) {
            prev
        } else {
            match prev {
                None => Some(k - 1),
                Some(j) => if bottom_of(children[k - 1]) > bottom_of(children[j]) {
                    Some(k - 1)
                } else {
                    prev
                },
            }
        }
    }
}

/// Highest top among the first `k` non-running children.
pub open spec fn highest_top(children: Seq<GeometryNode>, running: Seq<String>, k: int) -> Option<int>
    decreases k,
{
    if k <= 0 || k > children.len() {
        None
    } else {
        let prev = highest_top(children, running, k - 1);
        if is_running(running, children[k - 1].id@) {
            prev
        } else {
            match prev {
                None => Some(children[k - 1].y.0 as int),
                Some(t) => if children[k - 1].y.0 < t {
                    Some(children[k - 1].y.0 as int)
                } else {
                    prev
                },
            }
        }
    }
}

/// Underfill of a page: `(below, above, last child id)` when the space left under the lowest
/// flow box is at least a quarter of the content height; the last of several pages is skipped.
pub open spec fn page_underfill_spec(page: Page, running: Seq<String>, top: int, h: int, n: int, i: int) -> Option<
    (int, int, Seq<char>),
> {
    let children = page.root.children@;
    if n > 1 && i + 1 == n {
        None
    } else {
        match lowest_child(children, running, children.len() as int) {
            None => None,
            Some(li) => {
                let below = nonneg(top + h - bottom_of(children[li]));
                let above = nonneg(
                    match highest_top(children, running, children.len() as int) {
                        Some(t) => t,
                        None => top,
                    } - top,
                );
                if below * 100 < h * 25 {
                    None
                } else {
                    Some((below, above, children[li].id@))
                }
            },
        }
    }
}

/// Magnitude bound for page content spans.
pub open spec fn page_span_ok(x: int) -> bool {
    -0x1000_0000_0000_0000_0000_0000_0000 <= x <= 0x1000_0000_0000_0000_0000_0000_0000
}

pub open spec fn page_geo_ok(page: Page) -> bool {
    forall|i: int|
        0 <= i < page.root.children@.len() ==> slack_len_ok((#[trigger] page.root.children@[i]).y.0 as int)
            && slack_len_ok(page.root.children@[i].height.0 as int)
}

/// The page-underfill diagnostic of page `i` of `n`, if any.
pub fn page_underfill(page: &Page, running: &Vec<String>, content_top: Pt, content_h: Pt, n: usize, i: usize) -> (r: Option<
    LayoutDiag,
>)
    requires
        page_geo_ok(*page),
        page_span_ok(content_top.0 as int),
        page_span_ok(content_h.0 as int),
    ensures
        match page_underfill_spec(*page, running@, content_top.0 as int, content_h.0 as int, n as int, i as int) {
            None => r is None,
            Some((below, above, after)) => r matches Some(d) && d.kind == LayoutDiagKind::PageUnderfill && d.node_id@
                == page.root.id@ && d.unused_below.0 == below && d.unused_above.0 == above && d.inner_height
                == content_h && opt_text_view(d.after_id) == Some(after) && d.page == Some(i) && d.hint@ == (if n
                == 1 {
                PAGE_HINT_ONE@
            } else {
                PAGE_HINT_MID@
            }),
        },
{
    if n > 1 && i == n - 1 {
        return None;
    }
    let children = &page.root.children;
    let mut lowest: Option<usize> = None;
    let mut top_most: Option<i128> = None;
    let mut k: usize = 0;
    while k < children.len()
        invariant
            k <= children@.len(),
            children@ == page.root.children@,
            page_geo_ok(*page),
            lowest_child(children@, running@, k as int) == match lowest {
                Some(j) => Some(j as int),
                None => None::<int>,
            },
            lowest matches Some(j) ==> j < k,
            top_most matches Some(t) ==> slack_len_ok(t as int),
            highest_top(children@, running@, k as int) == match top_most {
                Some(t) => Some(t as int),
                None => None::<int>,
            },
        decreases children.len() - k,
    {
        let child = &children[k];
        proof {
            assert(slack_len_ok(children@[k as int].y.0 as int));
            if let Some(j) = lowest {
                assert(slack_len_ok(children@[j as int].y.0 as int));
                assert(slack_len_ok(children@[j as int].height.0 as int));
            }
        }
        if !contains_id(running, &child.id) {
            let bottom = child.y.0 + child.height.0;
            match lowest {
                None => {
                    lowest = Some(k);
                },
                Some(j) => {
                    if bottom > children[j].y.0 + children[j].height.0 {
                        lowest = Some(k);
                    }
                },
            }
            match top_most {
                None => {
                    top_most = Some(child.y.0);
                },
                Some(t) => {
                    if child.y.0 < t {
                        top_most = Some(child.y.0);
                    }
                },
            }
        }
        k = k + 1;
    }
    let li = match lowest {
        Some(j) => j,
        None => {
            return None;
        },
    };
    let after = &children[li];
    proof {
        assert(slack_len_ok(children@[li as int].y.0 as int));
        assert(slack_len_ok(children@[li as int].height.0 as int));
    }
    let last_bottom = after.y.0 + after.height.0;
    let content_bottom = content_top.0 + content_h.0;
    let below_raw = content_bottom - last_bottom;
    let unused_below: i128 = if below_raw > 0 {
        below_raw
    } else {
        0
    };
    let t = match top_most {
        Some(t) => t,
        None => content_top.0,
    };
    let above_raw = t - content_top.0;
    let unused_above: i128 = if above_raw > 0 {
        above_raw
    } else {
        0
    };
    if unused_below * 100 < content_h.0 * 25 {
        return None;
    }
    let hint = if n == 1 {
        PAGE_HINT_ONE
    } else {
        PAGE_HINT_MID
    };
    Some(
        LayoutDiag {
            kind: LayoutDiagKind::PageUnderfill,
            node_id: page.root.id.clone(),
            unused_below: Pt(unused_below),
            unused_above: Pt(unused_above),
            inner_height: content_h,
            after_id: Some(after.id.clone()),
            hint,
            page: Some(i),
        },
    )
}

/// A diagnostic with its strings as character sequences.
pub struct LayoutDiagView {
    pub kind: LayoutDiagKind,
    pub node_id: Seq<char>,
    pub unused_below: int,
    pub unused_above: int,
    pub inner_height: int,
    pub after_id: Option<Seq<char>>,
    pub hint: Seq<char>,
    pub page: Option<usize>,
}

impl View for LayoutDiag {
    type V = LayoutDiagView;

    open spec fn view(&self) -> LayoutDiagView {
        LayoutDiagView {
            kind: self.kind,
            node_id: self.node_id@,
            unused_below: self.unused_below.0 as int,
            unused_above: self.unused_above.0 as int,
            inner_height: self.inner_height.0 as int,
            after_id: opt_text_view(self.after_id),
            hint: self.hint@,
            page: self.page,
        }
    }
}

/// The underfill diagnostic of page `i` of `n`, as a value.
pub open spec fn page_diag_view(page: Page, running: Seq<String>, top: int, h: int, n: int, i: int) -> Option<
    LayoutDiagView,
> {
    match page_underfill_spec(page, running, top, h, n, i) {
        None => None,
        Some((below, above, after)) => Some(
            LayoutDiagView {
                kind: LayoutDiagKind::PageUnderfill,
                node_id: page.root.id@,
                unused_below: below,
                unused_above: above,
                inner_height: h,
                after_id: Some(after),
                hint: if n == 1 {
                    PAGE_HINT_ONE@
                } else {
                    PAGE_HINT_MID@
                },
                page: Some(i as usize),
            },
        ),
    }
}

/// Underfill diagnostics of the first `k` pages, in page order.
pub open spec fn page_diags(pages: Seq<Page>, running: Seq<String>, top: int, h: int, k: int) -> Seq<LayoutDiagView>
    decreases k,
{
    if k <= 0 || k > pages.len() {
        seq![]
    } else {
        let rest = page_diags(pages, running, top, h, k - 1);
        match page_diag_view(pages[k - 1], running, top, h, pages.len() as int, k - 1) {
            Some(d) => rest.push(d),
            None => rest,
        }
    }
}

pub open spec fn diag_views(ds: Seq<LayoutDiag>) -> Seq<LayoutDiagView> {
    ds.map_values(|d: LayoutDiag| d@)
}

/// Report pages whose flow content leaves a quarter or more of the content box empty below
/// (running blocks aside; the last of several pages is exempt).
pub fn consider_pages(manifest: &Manifest, layout: &LayoutResult, theme: &Theme, diags: &mut Vec<LayoutDiag>)
    requires
        page_config_ok(manifest.page_config),
        forall|i: int| 0 <= i < layout.pages@.len() ==> page_geo_ok(#[trigger] layout.pages@[i]),
    ensures
        ({
            let pad = padding_or_zero(manifest.root, *theme);
            let top = manifest.page_config.margin@[0].0 + pad.top.0;
            let h = content_height_spec(manifest.page_config) - pad.vertical_spec();
            let running = running_ids_spec(manifest.running_blocks@, manifest.running_blocks@.len() as int);
            if layout.pages@.len() == 0 || h <= 0 {
                final(diags)@ == old(diags)@
            } else {
                exists|ids: Seq<String>|
                    id_views(ids) == running && diag_views(final(diags)@) == diag_views(old(diags)@) + page_diags(
                        layout.pages@,
                        ids,
                        top,
                        h,
                        layout.pages@.len() as int,
                    )
            }
        }),
{
    let n = layout.pages.len();
    if n == 0 {
        return;
    }
    let variant = match &manifest.root.variant {
        Some(v) => Some(v.as_str()),
        None => None,
    };
    let pad = match padding_for_role_variant(manifest.root.role.as_str(), variant, theme) {
        Ok(p) => p,
        Err(_) => EdgeInsets::zero(),
    };
    proof {
        crate::resolved_style::law_padding_non_negative(manifest.root.role@, opt_text_view(manifest.root.variant), *theme);
        crate::resolved_style::lemma_padding_fits_i64(manifest.root.role@, opt_text_view(manifest.root.variant), *theme);
        assert(crate::pagination::page_len_ok(manifest.page_config.margin@[0]));
        assert(crate::pagination::page_len_ok(manifest.page_config.margin@[2]));
    }
    let content_top = Pt(manifest.page_config.margin[0].0 + pad.top.0);
    let ch = content_height(&manifest.page_config);
    let content_h = Pt(ch.0 - (pad.top.0 + pad.bottom.0));
    if content_h.0 <= 0 {
        return;
    }
    let running = running_ids(manifest);
    let ghost start = diag_views(diags@);
    let mut i: usize = 0;
    while i < n
        invariant
            i <= n,
            n == layout.pages@.len(),
            forall|j: int| 0 <= j < layout.pages@.len() ==> page_geo_ok(#[trigger] layout.pages@[j]),
            page_span_ok(content_top.0 as int),
            page_span_ok(content_h.0 as int),
            diag_views(diags@) == start + page_diags(layout.pages@, running@, content_top.0 as int, content_h.0 as int, i as int),
        decreases n - i,
    {
        let d = page_underfill(&layout.pages[i], &running, content_top, content_h, n, i);
        match d {
            Some(x) => {
                let ghost xv = x@;
                let ghost prev = diags@;
                diags.push(x);
                assert(diag_views(diags@) =~= diag_views(prev).push(xv));
                proof {
                    assert(xv == page_diag_view(layout.pages@[i as int], running@, content_top.0 as int, content_h.0 as int, n as int, i as int)->Some_0);
                    assert(diag_views(diags@) =~= start + page_diags(
                        layout.pages@,
                        running@,
                        content_top.0 as int,
                        content_h.0 as int,
                        i + 1,
                    ));
                }
            },
            None => {},
        }
        i = i + 1;
    }
}


proof fn lemma_lowest_child(children: Seq<GeometryNode>, running: Seq<String>, k: int)
    requires
        0 <= k <= children.len(),
    ensures
        lowest_child(children, running, k) matches Some(li) ==> {
            &&& 0 <= li < k
            &&& !is_running(running, children[li].id@)
            &&& forall|j: int|
                0 <= j < k && !is_running(running, #[trigger] children[j].id@) ==> bottom_of(children[li]) >= bottom_of(
                    children[j],
                )
        },
        lowest_child(children, running, k) is None ==> forall|j: int|
            0 <= j < k ==> is_running(running, #[trigger] children[j].id@),
    decreases k,
{
    if k > 0 {
        lemma_lowest_child(children, running, k - 1);
    }
}

/// Law: page underfill is measured under the lowest box of the page's flow. When a page is
/// reported, the box it names after is a child that is not a running block, no other flow child
/// reaches lower, and the unused space is the content bottom less that box's bottom (never
/// below zero). A page whose children are all running blocks is never reported.
pub proof fn law_underfill_measured_below_lowest_box(
    page: Page,
    running: Seq<String>,
    top: int,
    h: int,
    n: int,
    i: int,
)
    ensures
        page_underfill_spec(page, running, top, h, n, i) matches Some((below, above, after)) ==> exists|li: int|
            {
                &&& 0 <= li < page.root.children@.len()
                &&& #[trigger] page.root.children@[li].id@ == after
                &&& !is_running(running, page.root.children@[li].id@)
                &&& below == nonneg(top + h - bottom_of(page.root.children@[li]))
                &&& below * 100 >= h * 25
                &&& forall|j: int|
                    0 <= j < page.root.children@.len() && !is_running(running, #[trigger] page.root.children@[j].id@)
                        ==> bottom_of(page.root.children@[li]) >= bottom_of(page.root.children@[j])
            },
        (forall|j: int|
            0 <= j < page.root.children@.len() ==> is_running(running, #[trigger] page.root.children@[j].id@))
            ==> page_underfill_spec(page, running, top, h, n, i) is None,
{
    let children = page.root.children@;
    lemma_lowest_child(children, running, children.len() as int);
    if let Some(li) = lowest_child(children, running, children.len() as int) {
        if page_underfill_spec(page, running, top, h, n, i) is Some {
            assert(children[li].id@ == children[li].id@);
        }
        assert(!is_running(running, children[li].id@));
    }
}


/// A non-running child among the first `k` starts at `t`.
spec fn starts_at(children: Seq<GeometryNode>, running: Seq<String>, k: int, t: int) -> bool {
    exists|lt: int| 0 <= lt < k && !is_running(running, children[lt].id@) && #[trigger] children[lt].y.0 == t
}

proof fn lemma_highest_top(children: Seq<GeometryNode>, running: Seq<String>, k: int)
    requires
        0 <= k <= children.len(),
    ensures
        highest_top(children, running, k) matches Some(t) ==> {
            &&& starts_at(children, running, k, t)
            &&& forall|j: int|
                0 <= j < k && !is_running(running, #[trigger] children[j].id@) ==> t <= children[j].y.0
        },
        highest_top(children, running, k) is None ==> forall|j: int|
            0 <= j < k ==> is_running(running, #[trigger] children[j].id@),
    decreases k,
{
    if k > 0 {
        lemma_highest_top(children, running, k - 1);
        let prev = highest_top(children, running, k - 1);
        let y = children[k - 1].y.0 as int;
        let new_wins = !is_running(running, children[k - 1].id@) && match prev {
            None => true,
            Some(t) => y < t,
        };
        if new_wins {
            assert(0 <= k - 1 < k && !is_running(running, children[k - 1].id@) && children[k - 1].y.0 == y);
            assert(starts_at(children, running, k, y));
        } else if let Some(t) = prev {
            let lt = choose|lt: int|
                0 <= lt < k - 1 && !is_running(running, children[lt].id@) && #[trigger] children[lt].y.0 == t;
            assert(0 <= lt < k && !is_running(running, children[lt].id@) && children[lt].y.0 == t);
            assert(starts_at(children, running, k, t));
        }
    }
}

/// Law: page underfill reports the space left above the page's flow as the distance from the
/// content top down to the highest flow box (never below zero): no flow child starts higher.
pub proof fn law_underfill_above_measured_to_highest_box(
    page: Page,
    running: Seq<String>,
    top: int,
    h: int,
    n: int,
    i: int,
)
    ensures
        page_underfill_spec(page, running, top, h, n, i) matches Some((below, above, after)) ==> exists|lt: int|
            {
                &&& 0 <= lt < page.root.children@.len()
                &&& !is_running(running, page.root.children@[lt].id@)
                &&& above == nonneg(#[trigger] page.root.children@[lt].y.0 - top)
                &&& forall|j: int|
                    0 <= j < page.root.children@.len() && !is_running(running, #[trigger] page.root.children@[j].id@)
                        ==> page.root.children@[lt].y.0 <= page.root.children@[j].y.0
            },
{
    let children = page.root.children@;
    lemma_highest_top(children, running, children.len() as int);
    lemma_lowest_child(children, running, children.len() as int);
    if page_underfill_spec(page, running, top, h, n, i) is Some {
        let li = lowest_child(children, running, children.len() as int)->Some_0;
        assert(!is_running(running, children[li].id@));
        assert(highest_top(children, running, children.len() as int) is Some);
        let t = highest_top(children, running, children.len() as int)->Some_0;
        assert(starts_at(children, running, children.len() as int, t));
        let lt = choose|lt: int|
            0 <= lt < children.len() && !is_running(running, children[lt].id@) && #[trigger] children[lt].y.0 == t;
        assert(children[lt].y.0 - top == t - top);
    }
}

} // verus!
