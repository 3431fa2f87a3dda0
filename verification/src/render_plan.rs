use vstd::prelude::*;

use crate::list_markers::last_map;
use crate::model::{
    GeometryNode, LayoutResult, Manifest, NodeContent, Page, RunningBlock, SemanticNode, TableDataSource, TextGlyphRun,
};
use crate::pt::Pt;
use crate::resolved_style::{
    box_decoration_spec, opt_deco_view, opt_str_view, padding_for_role_variant, resolve_box_decoration,
    resolve_text_style, role_padding, text_style_spec, EdgeInsets,
};
use crate::text::{decimal, join, owned, same_text};
use crate::text_types::opt_text_view;
use crate::theme::{palette_color_spec, resolve_palette_color, resolve_theme_decoration, resolved_decoration, Theme};
use crate::visual_primitives::{
    has_paint_decoration, inline_blur, BlurRefView, BoxDecoration, BoxDecorationView, Fill, FillRef, FillRefView,
};

verus! {

/// An axis-aligned rectangle in fixed-point units.
#[derive(Debug, Clone, Copy, PartialEq, Eq, Structural)]
pub struct Rect {
    pub x: Pt,
    pub y: Pt,
    pub width: Pt,
    pub height: Pt,
}

/// `rect` shrunk by `padding` on every side; width and height never go below zero.
pub fn inset_rect(rect: Rect, padding: EdgeInsets) -> (r: Rect)
    requires
        i128::MIN <= rect.x.0 + padding.left.0 <= i128::MAX,
        i128::MIN <= rect.y.0 + padding.top.0 <= i128::MAX,
        i128::MIN <= padding.horizontal_spec() <= i128::MAX,
        i128::MIN <= padding.vertical_spec() <= i128::MAX,
        i128::MIN <= rect.width.0 - padding.horizontal_spec() <= i128::MAX,
        i128::MIN <= rect.height.0 - padding.vertical_spec() <= i128::MAX,
    ensures
        r.x.0 == rect.x.0 + padding.left.0,
        r.y.0 == rect.y.0 + padding.top.0,
        r.width.0 == if rect.width.0 - padding.horizontal_spec() > 0 {
            rect.width.0 - padding.horizontal_spec()
        } else {
            0
        },
        r.height.0 == if rect.height.0 - padding.vertical_spec() > 0 {
            rect.height.0 - padding.vertical_spec()
        } else {
            0
        },
{
    let w = rect.width.0 - padding.horizontal().0;
    let h = rect.height.0 - padding.vertical().0;
    Rect {
        x: Pt(rect.x.0 + padding.left.0),
        y: Pt(rect.y.0 + padding.top.0),
        width: Pt(
            if w > 0 {
                w
            } else {
                0
            },
        ),
        height: Pt(
            if h > 0 {
                h
            } else {
                0
            },
        ),
    }
}

/// What painting needs to know of a node's content.
#[derive(Debug, Clone, PartialEq, Eq)]
pub enum NodeContentInfo {
    Text,
    Math,
    Image { src: String },
    TableReference { source: String, view_mode: String },
    Container,
}

/// What painting needs to know of a semantic node.
#[derive(Debug, Clone, PartialEq, Eq)]
pub struct SemanticInfo {
    pub role: String,
    pub variant: Option<String>,
    pub content: NodeContentInfo,
}

/// Content info as values.
pub enum ContentInfoView {
    Text,
    Math,
    Image { src: Seq<char> },
    TableReference { source: Seq<char>, view_mode: Seq<char> },
    Container,
}

/// Semantic info as values.
pub struct SemanticInfoView {
    pub role: Seq<char>,
    pub variant: Option<Seq<char>>,
    pub content: ContentInfoView,
}

/// Content info as a value.
pub open spec fn content_view(c: NodeContentInfo) -> ContentInfoView {
    match c {
        NodeContentInfo::Text => ContentInfoView::Text,
        NodeContentInfo::Math => ContentInfoView::Math,
        NodeContentInfo::Image { src } => ContentInfoView::Image { src: src@ },
        NodeContentInfo::TableReference { source, view_mode } => ContentInfoView::TableReference {
            source: source@,
            view_mode: view_mode@,
        },
        NodeContentInfo::Container => ContentInfoView::Container,
    }
}

impl View for SemanticInfo {
    type V = SemanticInfoView;

    open spec fn view(&self) -> SemanticInfoView {
        SemanticInfoView { role: self.role@, variant: opt_text_view(self.variant), content: content_view(self.content) }
    }
}

/// The info painting records for a node: code blocks and form fields paint as text, tables as
/// containers.
pub open spec fn info_of(node: SemanticNode) -> SemanticInfoView {
    SemanticInfoView { role: node.role@, variant: opt_text_view(node.variant), content: content_info_of(node.content) }
}

pub open spec fn content_info_of(content: NodeContent) -> ContentInfoView {
    match content {
            NodeContent::Text(_) => ContentInfoView::Text,
            NodeContent::CodeBlock(_) => ContentInfoView::Text,
            NodeContent::Math(_) => ContentInfoView::Math,
            NodeContent::Image { src, .. } => ContentInfoView::Image { src: src@ },
            NodeContent::TableReference { source, view_mode, .. } => ContentInfoView::TableReference {
                source: source@,
                view_mode: view_mode@,
            },
            NodeContent::Container { .. } => ContentInfoView::Container,
            NodeContent::Table(_) => ContentInfoView::Container,
            NodeContent::FormField(_) => ContentInfoView::Text,
    }
}

/// `(id, info)` of a subtree in pre-order: the node, then its container children's subtrees, or
/// its inline table cells' subtrees row by row.
pub open spec fn subtree_infos(node: SemanticNode) -> Seq<(Seq<char>, SemanticInfoView)>
    decreases node, 0int,
{
    seq![(node.id@, info_of(node))] + match node.content {
        NodeContent::Container { children } => {
            proof {
                assert(decreases_to!(node => node.content));
                assert(decreases_to!(node.content => children));
                assert(decreases_to!(children => children@));
            }
            children_infos(children@, children@.len() as int)
        },
        NodeContent::Table(spec) => match spec.data {
            TableDataSource::Inline { rows } => {
                proof {
                    assert(decreases_to!(node => node.content));
                    assert(decreases_to!(node.content => spec));
                    assert(decreases_to!(spec => spec.data));
                    assert(decreases_to!(spec.data => rows));
                    assert(decreases_to!(rows => rows@));
                }
                rows_infos(rows@, rows@.len() as int)
            },
            TableDataSource::Asset { .. } => seq![],
        },
        _ => seq![],
    }
}

pub open spec fn children_infos(children: Seq<SemanticNode>, k: int) -> Seq<(Seq<char>, SemanticInfoView)>
    decreases children, k,
{
    if k <= 0 || k > children.len() {
        seq![]
    } else {
        proof {
            assert(decreases_to!(children => children[k - 1]));
        }
        children_infos(children, k - 1) + subtree_infos(children[k - 1])
    }
}

pub open spec fn rows_infos(rows: Seq<Vec<SemanticNode>>, k: int) -> Seq<(Seq<char>, SemanticInfoView)>
    decreases rows, k,
{
    if k <= 0 || k > rows.len() {
        seq![]
    } else {
        proof {
            assert(decreases_to!(rows => rows[k - 1]));
            assert(decreases_to!(rows[k - 1] => rows[k - 1]@));
        }
        rows_infos(rows, k - 1) + children_infos(rows[k - 1]@, rows[k - 1]@.len() as int)
    }
}

/// `m` after binding each entry in turn.
pub open spec fn with_infos(m: Map<Seq<char>, SemanticInfoView>, es: Seq<(Seq<char>, SemanticInfoView)>) -> Map<
    Seq<char>,
    SemanticInfoView,
>
    decreases es.len(),
{
    if es.len() == 0 {
        m
    } else {
        with_infos(m, es.drop_last()).insert(es.last().0, es.last().1)
    }
}

proof fn lemma_with_infos_concat(
    m: Map<Seq<char>, SemanticInfoView>,
    a: Seq<(Seq<char>, SemanticInfoView)>,
    b: Seq<(Seq<char>, SemanticInfoView)>,
)
    ensures
        with_infos(with_infos(m, a), b) == with_infos(m, a + b),
    decreases b.len(),
{
    if b.len() > 0 {
        lemma_with_infos_concat(m, a, b.drop_last());
        assert((a + b).drop_last() =~= a + b.drop_last());
    } else {
        assert(a + b =~= a);
    }
}

/// The info of a node id: a later entry for an id replaces an earlier one.
pub struct SemanticIndex {
    entries: Vec<(String, SemanticInfo)>,
}

/// A semantic info as a value, as a function.
pub open spec fn info_fn() -> spec_fn(SemanticInfo) -> SemanticInfoView {
    |i: SemanticInfo| i@
}

impl View for SemanticIndex {
    type V = Map<Seq<char>, SemanticInfoView>;

    closed spec fn view(&self) -> Map<Seq<char>, SemanticInfoView> {
        last_map(self.entries@, info_fn())
    }
}

impl SemanticIndex {
    pub fn new() -> (r: Self)
        ensures
            r@ == Map::<Seq<char>, SemanticInfoView>::empty(),
    {
        SemanticIndex { entries: Vec::new() }
    }

    pub fn insert(&mut self, id: String, info: SemanticInfo)
        ensures
            final(self)@ == old(self)@.insert(id@, info@),
    {
        let ghost before = self.entries@;
        self.entries.push((id, info));
        proof {
            assert(self.entries@.drop_last() =~= before);
        }
    }

    /// The info recorded for `id`.
    pub fn get(&self, id: &str) -> (r: Option<&SemanticInfo>)
        ensures
            r is Some <==> self@.contains_key(id@),
            r matches Some(v) ==> v@ == self@[id@],
    {
        let ghost f = info_fn();
        let mut i: usize = self.entries.len();
        while i > 0
            invariant
                i <= self.entries@.len(),
                f == info_fn(),
                forall|j: int| i <= j < self.entries@.len() ==> (#[trigger] self.entries@[j]).0@ != id@,
            decreases i,
        {
            if same_text(&self.entries[i - 1].0, id) {
                proof {
                    let e = self.entries@;
                    crate::list_markers::lemma_last_map_prefix(e, f, i as int, id@);
                    let p = e.take(i as int);
                    assert(p.drop_last() =~= e.take(i - 1));
                    assert(p.last() == e[i - 1]);
                    assert(last_map(p, f) == last_map(p.drop_last(), f).insert(p.last().0@, f(p.last().1)));
                }
                return Some(&self.entries[i - 1].1);
            }
            i = i - 1;
        }
        proof {
            crate::list_markers::lemma_last_map_prefix(self.entries@, f, 0, id@);
            assert(self.entries@.take(0) =~= Seq::<(String, SemanticInfo)>::empty());
        }
        None
    }
}

fn content_info(content: &NodeContent) -> (r: NodeContentInfo)
    ensures
        content_view(r) == content_info_of(*content),
{
    match content {
        NodeContent::Text(_) => NodeContentInfo::Text,
        NodeContent::CodeBlock(_) => NodeContentInfo::Text,
        NodeContent::Math(_) => NodeContentInfo::Math,
        NodeContent::Image { src, .. } => NodeContentInfo::Image { src: src.clone() },
        NodeContent::TableReference { source, view_mode, .. } => NodeContentInfo::TableReference {
            source: source.clone(),
            view_mode: view_mode.clone(),
        },
        NodeContent::Container { .. } => NodeContentInfo::Container,
        NodeContent::Table(_) => NodeContentInfo::Container,
        NodeContent::FormField(_) => NodeContentInfo::Text,
    }
}

fn walk_children_index(children: &Vec<SemanticNode>, out: &mut SemanticIndex)
    ensures
        final(out)@ == with_infos(old(out)@, children_infos(children@, children@.len() as int)),
    decreases children@, 1int,
{
    let ghost m0 = out@;
    let mut i: usize = 0;
    while i < children.len()
        invariant
            i <= children@.len(),
            m0 == old(out)@,
            out@ == with_infos(m0, children_infos(children@, i as int)),
        decreases children.len() - i,
    {
        proof {
            assert(decreases_to!(children@ => children@[i as int]));
        }
        index_semantic_tree(&children[i], out);
        proof {
            lemma_with_infos_concat(m0, children_infos(children@, i as int), subtree_infos(children@[i as int]));
        }
        i = i + 1;
    }
}

/// Record the paint info of every node of the subtree, by node id.
pub fn index_semantic_tree(node: &SemanticNode, out: &mut SemanticIndex)
    ensures
        final(out)@ == with_infos(old(out)@, subtree_infos(*node)),
    decreases *node, 2int,
{
    let ghost m0 = out@;
    let info = SemanticInfo {
        role: node.role.clone(),
        variant: match &node.variant {
            Some(v) => Some(v.clone()),
            None => None,
        },
        content: content_info(&node.content),
    };
    let ghost iv = info@;
    assert(iv == info_of(*node));
    out.insert(node.id.clone(), info);
    let ghost head = seq![(node.id@, info_of(*node))];
    proof {
        assert(head.last() == (node.id@, info_of(*node)));
        assert(with_infos(m0, head.drop_last()) == m0);
        assert(head.drop_last() =~= Seq::<(Seq<char>, SemanticInfoView)>::empty());
        assert(out@ == with_infos(m0, head));
    }
    match &node.content {
        NodeContent::Container { children } => {
            proof {
                assert(decreases_to!(*node => node.content));
                assert(decreases_to!(node.content => *children));
                assert(decreases_to!(*children => children@));
            }
            walk_children_index(children, out);
            proof {
                lemma_with_infos_concat(m0, head, children_infos(children@, children@.len() as int));
            }
        },
        NodeContent::Table(spec) => match &spec.data {
            TableDataSource::Inline { rows } => {
                proof {
                    assert(decreases_to!(*node => node.content));
                    assert(decreases_to!(node.content => *spec));
                    assert(decreases_to!(*spec => spec.data));
                    assert(decreases_to!(spec.data => *rows));
                    assert(decreases_to!(*rows => rows@));
                }
                let mut k: usize = 0;
                while k < rows.len()
                    invariant
                        k <= rows@.len(),
                        out@ == with_infos(m0, head + rows_infos(rows@, k as int)),
                        decreases_to!(*node => rows@),
                    decreases rows.len() - k,
                {
                    proof {
                        assert(decreases_to!(rows@ => rows@[k as int]));
                        assert(decreases_to!(rows@[k as int] => rows@[k as int]@));
                    }
                    walk_children_index(&rows[k], out);
                    proof {
                        let c = children_infos(rows@[k as int]@, rows@[k as int]@.len() as int);
                        lemma_with_infos_concat(m0, head + rows_infos(rows@, k as int), c);
                        assert(head + rows_infos(rows@, k as int) + c =~= head + rows_infos(rows@, k + 1));
                    }
                    k = k + 1;
                }
                proof {
                    assert(head + rows_infos(rows@, rows@.len() as int) =~= subtree_infos(*node));
                }
            },
            TableDataSource::Asset { .. } => {
                proof {
                    assert(head =~= subtree_infos(*node));
                }
            },
        },
        _ => {
            proof {
                assert(head =~= subtree_infos(*node));
            }
        },
    }
}

// ---------------------------------------------------------------------------------------------
// The render plan: paint operations per page.
// ---------------------------------------------------------------------------------------------

/// One paint operation of a page.
#[derive(Debug, PartialEq, Eq)]
pub enum PaintOp {
    DrawBox { node_id: String, rect: Rect, decoration: BoxDecoration },
    /// Blur of what is already painted behind `rect` (glass-style backgrounds).
    BackdropBlur { node_id: String, rect: Rect, radius_pt: i64, corner_radius_pt: Option<i64> },
    DrawText { node_id: String, rect: Rect, runs: Vec<TextGlyphRun> },
    DrawImage { node_id: String, rect: Rect, src: String },
    DrawTableReference { node_id: String, rect: Rect, source: String, view_mode: String },
}

/// The paint operations of one page, in painting order.
#[derive(Debug, PartialEq, Eq)]
pub struct PageRenderPlan {
    pub index: usize,
    pub ops: Vec<PaintOp>,
}

/// Paint operations for every page of a layout.
#[derive(Debug, PartialEq, Eq)]
pub struct RenderPlan {
    pub pages: Vec<PageRenderPlan>,
}

/// A paint operation as values.
pub enum PaintOpView {
    DrawBox { node_id: Seq<char>, rect: Rect, decoration: BoxDecorationView },
    BackdropBlur { node_id: Seq<char>, rect: Rect, radius_pt: i64, corner_radius_pt: Option<i64> },
    DrawText { node_id: Seq<char>, rect: Rect, runs: Seq<TextGlyphRun> },
    DrawImage { node_id: Seq<char>, rect: Rect, src: Seq<char> },
    DrawTableReference { node_id: Seq<char>, rect: Rect, source: Seq<char>, view_mode: Seq<char> },
}

impl View for PaintOp {
    type V = PaintOpView;

    open spec fn view(&self) -> PaintOpView {
        match *self {
            PaintOp::DrawBox { node_id, rect, decoration } => PaintOpView::DrawBox {
                node_id: node_id@,
                rect,
                decoration: decoration@,
            },
            PaintOp::BackdropBlur { node_id, rect, radius_pt, corner_radius_pt } => PaintOpView::BackdropBlur {
                node_id: node_id@,
                rect,
                radius_pt,
                corner_radius_pt,
            },
            PaintOp::DrawText { node_id, rect, runs } => PaintOpView::DrawText { node_id: node_id@, rect, runs: runs@ },
            PaintOp::DrawImage { node_id, rect, src } => PaintOpView::DrawImage { node_id: node_id@, rect, src: src@ },
            PaintOp::DrawTableReference { node_id, rect, source, view_mode } => PaintOpView::DrawTableReference {
                node_id: node_id@,
                rect,
                source: source@,
                view_mode: view_mode@,
            },
        }
    }
}

/// Paint operations as values.
pub open spec fn ops_view(ops: Seq<PaintOp>) -> Seq<PaintOpView> {
    ops.map_values(|o: PaintOp| o@)
}

/// A plan as `(page index, operations)` per page.
pub open spec fn plan_view(plan: RenderPlan) -> Seq<(usize, Seq<PaintOpView>)> {
    plan.pages@.map_values(|p: PageRenderPlan| (p.index, ops_view(p.ops@)))
}

fn push_op(ops: &mut Vec<PaintOp>, op: PaintOp)
    ensures
        ops_view(final(ops)@) == ops_view(old(ops)@).push(op@),
{
    ops.push(op);
    assert(ops_view(ops@) =~= ops_view(old(ops)@).push(op@));
}

/// True when a decoration paints anything.
pub open spec fn paints(d: BoxDecorationView) -> bool {
    d.background is Some || d.border is Some || d.corner_radius_pt is Some || d.shadow is Some || d.blur is Some
}

/// The operations a node's decoration paints over `rect`: a backdrop blur when the blur is
/// inline, then the box itself (without the blur) when anything is left to paint. Padding takes
/// no part; a decoration that names a missing primitive is an error.
pub open spec fn decoration_ops(node_id: Seq<char>, rect: Rect, named: Option<BoxDecorationView>, theme: Theme) -> Result<
    Seq<PaintOpView>,
    Seq<char>,
> {
    match named {
        None => Ok(seq![]),
        Some(n) => {
            let unpadded = BoxDecorationView {
                background: n.background,
                border: n.border,
                corner_radius_pt: n.corner_radius_pt,
                padding_pt: None,
                shadow: n.shadow,
                blur: n.blur,
            };
            if !paints(unpadded) {
                Ok(seq![])
            } else {
                match resolved_decoration(unpadded, theme) {
                    Err(e) => Err(e),
                    Ok(d) => {
                        let (blur_ops, rest) = match d.blur {
                            Some(BlurRefView::Inline(b)) => (
                                seq![
                                    PaintOpView::BackdropBlur {
                                        node_id,
                                        rect,
                                        radius_pt: b.radius_pt,
                                        corner_radius_pt: d.corner_radius_pt,
                                    },
                                ],
                                BoxDecorationView {
                                    background: d.background,
                                    border: d.border,
                                    corner_radius_pt: d.corner_radius_pt,
                                    padding_pt: d.padding_pt,
                                    shadow: d.shadow,
                                    blur: None,
                                },
                            ),
                            _ => (seq![], d),
                        };
                        Ok(
                            blur_ops + if paints(rest) {
                                seq![PaintOpView::DrawBox { node_id, rect, decoration: rest }]
                            } else {
                                seq![]
                            },
                        )
                    },
                }
            }
        },
    }
}

fn append_decoration_ops(
    node_id: &str,
    rect: Rect,
    named: Option<BoxDecoration>,
    theme: &Theme,
    ops: &mut Vec<PaintOp>,
) -> (r: Result<(), String>)
    ensures
        match decoration_ops(node_id@, rect, opt_deco_view(named), *theme) {
            Ok(s) => r is Ok && ops_view(final(ops)@) == ops_view(old(ops)@) + s,
            Err(e) => r matches Err(m) && m@ == e,
        },
{
    let mut named = match named {
        Some(d) => d,
        None => {
            assert(ops_view(ops@) =~= ops_view(old(ops)@) + seq![]);
            return Ok(());
        },
    };
    named.padding_pt = None;
    if !has_paint_decoration(&named) {
        assert(ops_view(ops@) =~= ops_view(old(ops)@) + seq![]);
        return Ok(());
    }
    let mut decoration = match resolve_theme_decoration(&named, theme) {
        Ok(d) => d,
        Err(e) => {
            return Err(e);
        },
    };
    let ghost ops0 = ops_view(ops@);
    match inline_blur(&decoration) {
        Some(blur) => {
            push_op(
                ops,
                PaintOp::BackdropBlur {
                    node_id: owned(node_id),
                    rect,
                    radius_pt: blur.radius_pt,
                    corner_radius_pt: decoration.corner_radius_pt,
                },
            );
            decoration.blur = None;
        },
        None => {},
    }
    let ghost ops1 = ops_view(ops@);
    if has_paint_decoration(&decoration) {
        push_op(ops, PaintOp::DrawBox { node_id: owned(node_id), rect, decoration });
        assert(ops_view(ops@) =~= ops1 + seq![
            PaintOpView::DrawBox { node_id: node_id@, rect, decoration: decoration@ },
        ]);
    } else {
        assert(ops_view(ops@) =~= ops1 + seq![]);
    }
    proof {
        assert(ops_view(ops@) =~= ops0 + (ops1.skip(ops0.len() as int) + ops_view(ops@).skip(ops1.len() as int)));
    }
    Ok(())
}

/// The box of a geometry node.
pub open spec fn rect_of(geo: GeometryNode) -> Rect {
    Rect { x: geo.x, y: geo.y, width: geo.width, height: geo.height }
}

/// `rect` shrunk by `padding`, sizes floored at zero.
pub open spec fn inset_spec(rect: Rect, padding: EdgeInsets) -> Rect {
    let w = rect.width.0 - padding.horizontal_spec();
    let h = rect.height.0 - padding.vertical_spec();
    Rect {
        x: Pt((rect.x.0 + padding.left.0) as i128),
        y: Pt((rect.y.0 + padding.top.0) as i128),
        width: Pt(if w > 0 { w as i128 } else { 0 }),
        height: Pt(if h > 0 { h as i128 } else { 0 }),
    }
}

/// The box an image paints into: the node's box inside its role padding, or the whole box when
/// the padding is invalid.
pub open spec fn image_rect(rect: Rect, padding: Option<EdgeInsets>) -> Rect {
    match padding {
        Some(p) => inset_spec(rect, p),
        None => rect,
    }
}

/// Id of the `i`th rule rectangle of a node.
pub open spec fn rule_id(id: Seq<char>, i: int) -> Seq<char> {
    id + "::rule_"@ + crate::text::decimal_text(i)
}

/// A decoration with only a solid background of `color`.
pub open spec fn solid_decoration(color: Seq<char>) -> BoxDecorationView {
    BoxDecorationView {
        background: Some(FillRefView::Solid(color)),
        border: None,
        corner_radius_pt: None,
        padding_pt: None,
        shadow: None,
        blur: None,
    }
}

/// One solid box per fill rectangle (fraction rules and the like), in the node's text color.
pub open spec fn rule_ops(geo: GeometryNode, info: SemanticInfoView, theme: Theme) -> Seq<PaintOpView> {
    let color = palette_color_spec(text_style_spec(info.role, info.variant, theme).color, theme);
    Seq::new(
        geo.fill_rects@.len(),
        |i: int|
            PaintOpView::DrawBox {
                node_id: rule_id(geo.id@, i),
                rect: Rect {
                    x: geo.fill_rects@[i].x,
                    y: geo.fill_rects@[i].y,
                    width: geo.fill_rects@[i].width,
                    height: geo.fill_rects@[i].height,
                },
                decoration: solid_decoration(color),
            },
    )
}

/// What a node's content paints after its children: text and math paint their rules and their
/// runs; an image paints inside its padding; a table reference paints its box; a container
/// paints nothing.
pub open spec fn content_ops(geo: GeometryNode, info: SemanticInfoView, theme: Theme) -> Seq<PaintOpView> {
    match info.content {
        ContentInfoView::Container => seq![],
        ContentInfoView::Text | ContentInfoView::Math => rule_ops(geo, info, theme).push(
            PaintOpView::DrawText { node_id: geo.id@, rect: rect_of(geo), runs: geo.text_runs@ },
        ),
        ContentInfoView::Image { src } => seq![
            PaintOpView::DrawImage {
                node_id: geo.id@,
                rect: image_rect(rect_of(geo), role_padding(info.role, info.variant, theme)),
                src,
            },
        ],
        ContentInfoView::TableReference { source, view_mode } => seq![
            PaintOpView::DrawTableReference { node_id: geo.id@, rect: rect_of(geo), source, view_mode },
        ],
    }
}

/// The operations a geometry subtree paints, in painting order: for a node the index knows, its
/// decoration, then its children, then its content; a node the index does not know paints only
/// its children. The first decoration that fails to resolve is the error.
pub open spec fn geometry_ops(geo: GeometryNode, index: Map<Seq<char>, SemanticInfoView>, theme: Theme) -> Result<
    Seq<PaintOpView>,
    Seq<char>,
>
    decreases geo, 0int,
{
    let kids = {
        proof {
            assert(decreases_to!(geo => geo.children));
            assert(decreases_to!(geo.children => geo.children@));
        }
        children_ops(geo.children@, geo.children@.len() as int, index, theme)
    };
    if !index.contains_key(geo.id@) {
        kids
    } else {
        let info = index[geo.id@];
        match decoration_ops(geo.id@, rect_of(geo), box_decoration_spec(info.role, info.variant, theme), theme) {
            Err(e) => Err(e),
            Ok(deco) => match kids {
                Err(e) => Err(e),
                Ok(k) => Ok(deco + k + content_ops(geo, info, theme)),
            },
        }
    }
}

/// The operations of the first `k` children, in order.
pub open spec fn children_ops(
    children: Seq<GeometryNode>,
    k: int,
    index: Map<Seq<char>, SemanticInfoView>,
    theme: Theme,
) -> Result<Seq<PaintOpView>, Seq<char>>
    decreases children, k,
{
    if k <= 0 || k > children.len() {
        Ok(seq![])
    } else {
        proof {
            assert(decreases_to!(children => children[k - 1]));
        }
        match children_ops(children, k - 1, index, theme) {
            Err(e) => Err(e),
            Ok(a) => match geometry_ops(children[k - 1], index, theme) {
                Err(e) => Err(e),
                Ok(b) => Ok(a + b),
            },
        }
    }
}

proof fn lemma_children_err_persists(
    children: Seq<GeometryNode>,
    k: int,
    n: int,
    index: Map<Seq<char>, SemanticInfoView>,
    theme: Theme,
)
    requires
        0 <= k <= n <= children.len(),
        children_ops(children, k, index, theme) is Err,
    ensures
        children_ops(children, n, index, theme) == children_ops(children, k, index, theme),
    decreases n - k,
{
    if n > k {
        lemma_children_err_persists(children, k, n - 1, index, theme);
    }
}

/// Every coordinate of the box lies within `2^100` of zero.
pub open spec fn rect_bounded(geo: GeometryNode) -> bool {
    let b = 0x1_0000_0000_0000_0000_0000_0000int;
    &&& -b <= geo.x.0 <= b
    &&& -b <= geo.y.0 <= b
    &&& -b <= geo.width.0 <= b
    &&& -b <= geo.height.0 <= b
}

/// Every box of the subtree has bounded coordinates.
pub open spec fn geo_bounded(geo: GeometryNode) -> bool
    decreases geo, 0int,
{
    rect_bounded(geo) && {
        proof {
            assert(decreases_to!(geo => geo.children));
            assert(decreases_to!(geo.children => geo.children@));
        }
        children_bounded(geo.children@, geo.children@.len() as int)
    }
}

/// The first `k` children's subtrees have bounded coordinates.
pub open spec fn children_bounded(children: Seq<GeometryNode>, k: int) -> bool
    decreases children, k,
{
    if k <= 0 || k > children.len() {
        true
    } else {
        proof {
            assert(decreases_to!(children => children[k - 1]));
        }
        children_bounded(children, k - 1) && geo_bounded(children[k - 1])
    }
}

proof fn lemma_children_bounded(children: Seq<GeometryNode>, k: int, i: int)
    requires
        0 <= i < k <= children.len(),
        children_bounded(children, k),
    ensures
        geo_bounded(children[i]),
    decreases k,
{
    if i < k - 1 {
        lemma_children_bounded(children, k - 1, i);
    }
}

fn copy_runs(runs: &Vec<TextGlyphRun>) -> (r: Vec<TextGlyphRun>)
    ensures
        r@ == runs@,
{
    let mut out: Vec<TextGlyphRun> = Vec::new();
    let mut i: usize = 0;
    while i < runs.len()
        invariant
            i <= runs@.len(),
            out@ == runs@.take(i as int),
        decreases runs.len() - i,
    {
        out.push(TextGlyphRun { glyph_range: runs[i].glyph_range, style: runs[i].style.clone() });
        assert(out@ =~= runs@.take(i + 1));
        i = i + 1;
    }
    assert(runs@.take(runs@.len() as int) =~= runs@);
    out
}

fn opt_as_str(s: &Option<String>) -> (r: Option<&str>)
    ensures
        opt_str_view(r) == opt_text_view(*s),
{
    match s {
        Some(v) => Some(v.as_str()),
        None => None,
    }
}

fn emit_math_rules(geo: &GeometryNode, info: &SemanticInfo, theme: &Theme, ops: &mut Vec<PaintOp>)
    ensures
        ops_view(final(ops)@) == ops_view(old(ops)@) + rule_ops(*geo, info@, *theme),
{
    if geo.fill_rects.len() == 0 {
        assert(ops_view(ops@) =~= ops_view(old(ops)@) + rule_ops(*geo, info@, *theme));
        return;
    }
    let style = resolve_text_style(info.role.as_str(), opt_as_str(&info.variant), theme);
    let color = resolve_palette_color(style.color.as_str(), theme);
    let ghost all = rule_ops(*geo, info@, *theme);
    let mut i: usize = 0;
    while i < geo.fill_rects.len()
        invariant
            i <= geo.fill_rects@.len(),
            all == rule_ops(*geo, info@, *theme),
            color@ == palette_color_spec(text_style_spec(info@.role, info@.variant, *theme).color, *theme),
            ops_view(ops@) == ops_view(old(ops)@) + all.take(i as int),
        decreases geo.fill_rects.len() - i,
    {
        let r = geo.fill_rects[i];
        let id = join(join(owned(geo.id.as_str()), "::rule_"), decimal(i as i128).as_str());
        proof {
            reveal_strlit("::rule_");
        }
        let decoration = BoxDecoration {
            background: Some(FillRef::Inline(Fill::Solid { color: color.clone() })),
            border: None,
            corner_radius_pt: None,
            padding_pt: None,
            shadow: None,
            blur: None,
        };
        let op = PaintOp::DrawBox { node_id: id, rect: Rect { x: r.x, y: r.y, width: r.width, height: r.height }, decoration };
        assert(op@ == all[i as int]);
        push_op(ops, op);
        assert(all.take(i + 1) =~= all.take(i as int).push(all[i as int]));
        i = i + 1;
    }
    assert(all.take(all.len() as int) =~= all);
}

fn append_children_ops(
    children: &Vec<GeometryNode>,
    index: &SemanticIndex,
    theme: &Theme,
    ops: &mut Vec<PaintOp>,
) -> (r: Result<(), String>)
    requires
        children_bounded(children@, children@.len() as int),
    ensures
        match children_ops(children@, children@.len() as int, index@, *theme) {
            Ok(s) => r is Ok && ops_view(final(ops)@) == ops_view(old(ops)@) + s,
            Err(e) => r matches Err(m) && m@ == e,
        },
    decreases children@, 1int,
{
    let mut i: usize = 0;
    while i < children.len()
        invariant
            i <= children@.len(),
            children_bounded(children@, children@.len() as int),
            children_ops(children@, i as int, index@, *theme) matches Ok(s) && ops_view(ops@) == ops_view(old(ops)@) + s,
        decreases children.len() - i,
    {
        proof {
            assert(decreases_to!(children@ => children@[i as int]));
            lemma_children_bounded(children@, children@.len() as int, i as int);
        }
        let ghost before = ops_view(ops@);
        let res = append_ops_for_geometry(&children[i], index, theme, ops);
        match res {
            Ok(()) => {
                proof {
                    let a = children_ops(children@, i as int, index@, *theme)->Ok_0;
                    let b = geometry_ops(children@[i as int], index@, *theme)->Ok_0;
                    assert(ops_view(ops@) =~= ops_view(old(ops)@) + (a + b));
                }
            },
            Err(m) => {
                proof {
                    lemma_children_err_persists(children@, i + 1, children@.len() as int, index@, *theme);
                }
                return Err(m);
            },
        }
        i = i + 1;
    }
    Ok(())
}

/// Append the paint operations of a geometry subtree: for a node the index knows, its
/// decoration (with an inline backdrop blur first), then its children, then its content.
pub fn append_ops_for_geometry(
    geo: &GeometryNode,
    index: &SemanticIndex,
    theme: &Theme,
    ops: &mut Vec<PaintOp>,
) -> (r: Result<(), String>)
    requires
        geo_bounded(*geo),
    ensures
        match geometry_ops(*geo, index@, *theme) {
            Ok(s) => r is Ok && ops_view(final(ops)@) == ops_view(old(ops)@) + s,
            Err(e) => r matches Err(m) && m@ == e,
        },
    decreases *geo, 2int,
{
    proof {
        assert(decreases_to!(*geo => geo.children));
        assert(decreases_to!(geo.children => geo.children@));
    }
    let info = match index.get(geo.id.as_str()) {
        Some(info) => info,
        None => {
            return append_children_ops(&geo.children, index, theme, ops);
        },
    };
    let ghost iv = index@[geo.id@];
    let rect = Rect { x: geo.x, y: geo.y, width: geo.width, height: geo.height };
    let variant = opt_as_str(&info.variant);
    let named = resolve_box_decoration(info.role.as_str(), variant, theme);
    let ghost ops0 = ops_view(ops@);
    match append_decoration_ops(geo.id.as_str(), rect, named, theme, ops) {
        Ok(()) => {},
        Err(e) => {
            return Err(e);
        },
    }
    let ghost ops1 = ops_view(ops@);
    match append_children_ops(&geo.children, index, theme, ops) {
        Ok(()) => {},
        Err(e) => {
            return Err(e);
        },
    }
    let ghost ops2 = ops_view(ops@);
    match &info.content {
        NodeContentInfo::Container => {
            assert(ops_view(ops@) =~= ops2 + content_ops(*geo, iv, *theme));
        },
        NodeContentInfo::Text | NodeContentInfo::Math => {
            emit_math_rules(geo, info, theme, ops);
            push_op(ops, PaintOp::DrawText { node_id: geo.id.clone(), rect, runs: copy_runs(&geo.text_runs) });
            assert(ops_view(ops@) =~= ops2 + content_ops(*geo, iv, *theme));
        },
        NodeContentInfo::Image { src } => {
            let image = match padding_for_role_variant(info.role.as_str(), variant, theme) {
                Ok(padding) => {
                    proof {
                        crate::resolved_style::lemma_padding_fits_i64(iv.role, iv.variant, *theme);
                    }
                    inset_rect(rect, padding)
                },
                Err(_) => rect,
            };
            push_op(ops, PaintOp::DrawImage { node_id: geo.id.clone(), rect: image, src: src.clone() });
            assert(ops_view(ops@) =~= ops2 + content_ops(*geo, iv, *theme));
        },
        NodeContentInfo::TableReference { source, view_mode } => {
            push_op(
                ops,
                PaintOp::DrawTableReference {
                    node_id: geo.id.clone(),
                    rect,
                    source: source.clone(),
                    view_mode: view_mode.clone(),
                },
            );
            assert(ops_view(ops@) =~= ops2 + content_ops(*geo, iv, *theme));
        },
    }
    proof {
        let deco = ops1.skip(ops0.len() as int);
        let kids = ops2.skip(ops1.len() as int);
        assert(ops_view(ops@) =~= ops0 + (deco + kids + content_ops(*geo, iv, *theme)));
    }
    Ok(())
}

/// Id of the page-background box of page `index`.
pub open spec fn background_id(root_id: Seq<char>, index: usize) -> Seq<char> {
    root_id + "::page_"@ + crate::text::decimal_text(index as int) + "::background"@
}

/// The whole page as a box.
pub open spec fn page_rect(page: Page) -> Rect {
    Rect { x: Pt(0), y: Pt(0), width: page.width, height: page.height }
}

/// The page background: the document root's decoration painted over the whole page.
pub open spec fn page_background_ops(manifest: Manifest, page: Page, theme: Theme) -> Result<Seq<PaintOpView>, Seq<char>> {
    decoration_ops(
        background_id(manifest.root.id@, page.index),
        page_rect(page),
        box_decoration_spec(manifest.root.role@, opt_text_view(manifest.root.variant), theme),
        theme,
    )
}

/// The operations of one page: its background, then the subtrees of its root's children.
pub open spec fn page_ops_spec(manifest: Manifest, page: Page, index: Map<Seq<char>, SemanticInfoView>, theme: Theme) -> Result<
    Seq<PaintOpView>,
    Seq<char>,
> {
    match page_background_ops(manifest, page, theme) {
        Err(e) => Err(e),
        Ok(b) => match children_ops(page.root.children@, page.root.children@.len() as int, index, theme) {
            Err(e) => Err(e),
            Ok(c) => Ok(b + c),
        },
    }
}

/// `(id, info)` of the running blocks' subtrees, block by block.
pub open spec fn blocks_infos(blocks: Seq<RunningBlock>, k: int) -> Seq<(Seq<char>, SemanticInfoView)>
    decreases k,
{
    if k <= 0 || k > blocks.len() {
        seq![]
    } else {
        blocks_infos(blocks, k - 1) + subtree_infos(blocks[k - 1].node)
    }
}

/// The paint info of every node of the document tree and of the running blocks.
pub open spec fn manifest_index(manifest: Manifest) -> Map<Seq<char>, SemanticInfoView> {
    with_infos(
        Map::empty(),
        subtree_infos(manifest.root) + blocks_infos(manifest.running_blocks@, manifest.running_blocks@.len() as int),
    )
}

/// The plans of the first `k` pages, or the first error.
pub open spec fn pages_plan(manifest: Manifest, pages: Seq<Page>, k: int, theme: Theme) -> Result<
    Seq<(usize, Seq<PaintOpView>)>,
    Seq<char>,
>
    decreases k,
{
    if k <= 0 || k > pages.len() {
        Ok(seq![])
    } else {
        match pages_plan(manifest, pages, k - 1, theme) {
            Err(e) => Err(e),
            Ok(a) => match page_ops_spec(manifest, pages[k - 1], manifest_index(manifest), theme) {
                Err(e) => Err(e),
                Ok(ops) => Ok(a.push((pages[k - 1].index, ops))),
            },
        }
    }
}

/// The render plan of a layout: for each page, in order, its index and its operations.
pub open spec fn render_plan_spec(manifest: Manifest, layout: LayoutResult, theme: Theme) -> Result<
    Seq<(usize, Seq<PaintOpView>)>,
    Seq<char>,
> {
    pages_plan(manifest, layout.pages@, layout.pages@.len() as int, theme)
}

proof fn lemma_pages_err_persists(manifest: Manifest, pages: Seq<Page>, k: int, n: int, theme: Theme)
    requires
        0 <= k <= n <= pages.len(),
        pages_plan(manifest, pages, k, theme) is Err,
    ensures
        pages_plan(manifest, pages, n, theme) == pages_plan(manifest, pages, k, theme),
    decreases n - k,
{
    if n > k {
        lemma_pages_err_persists(manifest, pages, k, n - 1, theme);
    }
}

/// Every page's boxes have bounded coordinates.
pub open spec fn layout_bounded(layout: LayoutResult) -> bool {
    forall|i: int|
        0 <= i < layout.pages@.len() ==> children_bounded(
            #[trigger] layout.pages@[i].root.children@,
            layout.pages@[i].root.children@.len() as int,
        )
}

fn append_page_background_op(manifest: &Manifest, page: &Page, theme: &Theme, ops: &mut Vec<PaintOp>) -> (r: Result<
    (),
    String,
>)
    ensures
        match page_background_ops(*manifest, *page, *theme) {
            Ok(s) => r is Ok && ops_view(final(ops)@) == ops_view(old(ops)@) + s,
            Err(e) => r matches Err(m) && m@ == e,
        },
{
    let named = resolve_box_decoration(manifest.root.role.as_str(), opt_as_str(&manifest.root.variant), theme);
    let id = join(join(join(owned(manifest.root.id.as_str()), "::page_"), decimal(page.index as i128).as_str()), "::background");
    proof {
        reveal_strlit("::page_");
        reveal_strlit("::background");
        assert(id@ =~= background_id(manifest.root.id@, page.index));
    }
    append_decoration_ops(id.as_str(), Rect { x: Pt(0), y: Pt(0), width: page.width, height: page.height }, named, theme, ops)
}

fn index_blocks(blocks: &Vec<RunningBlock>, out: &mut SemanticIndex)
    ensures
        final(out)@ == with_infos(old(out)@, blocks_infos(blocks@, blocks@.len() as int)),
{
    let ghost m0 = out@;
    let mut i: usize = 0;
    while i < blocks.len()
        invariant
            i <= blocks@.len(),
            m0 == old(out)@,
            out@ == with_infos(m0, blocks_infos(blocks@, i as int)),
        decreases blocks.len() - i,
    {
        index_semantic_tree(&blocks[i].node, out);
        proof {
            lemma_with_infos_concat(m0, blocks_infos(blocks@, i as int), subtree_infos(blocks@[i as int].node));
        }
        i = i + 1;
    }
}

/// Build the paint operations of every page: the page background from the document root's
/// decoration, then each top-level box's subtree. Nodes of the document and of its running
/// blocks are known by id; a decoration that names a missing primitive is an error.
pub fn build_render_plan(manifest: &Manifest, layout: &LayoutResult, theme: &Theme) -> (r: Result<RenderPlan, String>)
    requires
        layout_bounded(*layout),
    ensures
        match render_plan_spec(*manifest, *layout, *theme) {
            Ok(pages) => r matches Ok(plan) && plan_view(plan) == pages,
            Err(e) => r matches Err(m) && m@ == e,
        },
        r matches Ok(plan) ==> plan.pages@.len() == layout.pages@.len() && forall|i: int|
            0 <= i < layout.pages@.len() ==> (#[trigger] plan.pages@[i]).index == layout.pages@[i].index,
{
    let mut index = SemanticIndex::new();
    index_semantic_tree(&manifest.root, &mut index);
    index_blocks(&manifest.running_blocks, &mut index);
    proof {
        lemma_with_infos_concat(
            Map::empty(),
            subtree_infos(manifest.root),
            blocks_infos(manifest.running_blocks@, manifest.running_blocks@.len() as int),
        );
    }
    assert(index@ == manifest_index(*manifest));
    let mut pages: Vec<PageRenderPlan> = Vec::new();
    let mut i: usize = 0;
    while i < layout.pages.len()
        invariant
            i <= layout.pages@.len(),
            index@ == manifest_index(*manifest),
            layout_bounded(*layout),
            pages_plan(*manifest, layout.pages@, i as int, *theme) matches Ok(s) && plan_view(
                RenderPlan { pages },
            ) == s,
            pages@.len() == i,
            forall|j: int| 0 <= j < i ==> (#[trigger] pages@[j]).index == layout.pages@[j].index,
        decreases layout.pages.len() - i,
    {
        let page = &layout.pages[i];
        let mut ops: Vec<PaintOp> = Vec::new();
        assert(ops_view(ops@) =~= seq![]);
        match append_page_background_op(manifest, page, theme, &mut ops) {
            Ok(()) => {},
            Err(e) => {
                proof {
                    lemma_pages_err_persists(*manifest, layout.pages@, i + 1, layout.pages@.len() as int, *theme);
                }
                return Err(e);
            },
        }
        let ghost ops1 = ops_view(ops@);
        proof {
            assert(layout_bounded(*layout));
            assert(children_bounded(layout.pages@[i as int].root.children@, layout.pages@[i as int].root.children@.len() as int));
        }
        match append_children_ops(&page.root.children, &index, theme, &mut ops) {
            Ok(()) => {},
            Err(e) => {
                proof {
                    lemma_pages_err_persists(*manifest, layout.pages@, i + 1, layout.pages@.len() as int, *theme);
                }
                return Err(e);
            },
        }
        let ghost before = plan_view(RenderPlan { pages });
        pages.push(PageRenderPlan { index: page.index, ops });
        proof {
            assert(plan_view(RenderPlan { pages }) =~= before.push((page.index, ops_view(ops@))));
        }
        i = i + 1;
    }
    Ok(RenderPlan { pages })
}

} // verus!
