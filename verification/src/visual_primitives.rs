use vstd::prelude::*;

verus! {

/// A gradient stop position in 0..=1000, where 0 is start and 1000 is end.
#[derive(Debug, Clone, PartialEq, Eq)]
pub struct GradientStop {
    pub pos: i64,
    pub color: String,
}

/// A linear gradient definition.
#[derive(Debug, Clone, PartialEq, Eq)]
pub enum LinearGradient {
    Linear { angle_degrees: i64, stops: Vec<GradientStop> },
}

/// A fill that can be applied to backgrounds/surfaces.
#[derive(Debug, Clone, PartialEq, Eq)]
pub enum Fill {
    Solid { color: String },
    LinearGradient { value: LinearGradient },
}

/// Either an inline fill definition or a reference to a named primitive.
#[derive(Debug, Clone, PartialEq, Eq)]
pub enum FillRef {
    Ref(String),
    Inline(Fill),
}

/// Which edges of a box receive a border stroke.
#[derive(Debug, Clone, Copy, PartialEq, Eq, Structural)]
pub enum BorderEdge {
    Top,
    Right,
    Bottom,
    Left,
}

/// Stroke pattern for a named border primitive.
#[derive(Debug, Clone, Copy, PartialEq, Eq, Structural, Default)]
pub enum BorderStyle {
    #[default]
    Solid,
    Dashed,
    Dotted,
}

/// The four edges in the order a full stroke lists them.
pub fn default_border_edges() -> (r: Vec<BorderEdge>)
    ensures
        r@ == seq![BorderEdge::Top, BorderEdge::Right, BorderEdge::Bottom, BorderEdge::Left],
{
    let mut v: Vec<BorderEdge> = Vec::new();
    v.push(BorderEdge::Top);
    v.push(BorderEdge::Right);
    v.push(BorderEdge::Bottom);
    v.push(BorderEdge::Left);
    v
}

/// True when `edges` lists exactly the four edges.
pub open spec fn all_border_edges_spec(edges: Seq<BorderEdge>) -> bool {
    &&& edges.len() == 4
    &&& edges.contains(BorderEdge::Top)
    &&& edges.contains(BorderEdge::Right)
    &&& edges.contains(BorderEdge::Bottom)
    &&& edges.contains(BorderEdge::Left)
}

fn edges_contain(edges: &[BorderEdge], edge: BorderEdge) -> (r: bool)
    ensures
        r == edges@.contains(edge),
{
    let mut i: usize = 0;
    while i < edges.len()
        invariant
            i <= edges.len(),
            forall|j: int| 0 <= j < i ==> edges@[j] != edge,
        decreases edges.len() - i,
    {
        if edges[i] == edge {
            proof {
                assert(edges@[i as int] == edge);
            }
            return true;
        }
        i = i + 1;
    }
    false
}

/// True when `edges` has four entries naming each edge.
pub fn is_all_border_edges(edges: &[BorderEdge]) -> (r: bool)
    ensures
        r == all_border_edges_spec(edges@),
{
    edges.len() == 4 && edges_contain(edges, BorderEdge::Top) && edges_contain(edges, BorderEdge::Right)
        && edges_contain(edges, BorderEdge::Bottom) && edges_contain(edges, BorderEdge::Left)
}

pub fn is_solid_border_style(style: &BorderStyle) -> (r: bool)
    ensures
        r == (*style == BorderStyle::Solid),
{
    match style {
        BorderStyle::Solid => true,
        _ => false,
    }
}

#[derive(Debug, Clone, PartialEq, Eq)]
pub struct Border {
    pub width_pt: i64,
    pub color: String,
    /// Edges that receive the stroke. Omitted / default = all four sides.
    pub edges: Vec<BorderEdge>,
    /// Stroke pattern. Omitted / default = solid.
    pub style: BorderStyle,
}

impl Border {
    pub fn draws_edge(&self, edge: BorderEdge) -> (r: bool)
        ensures
            r == self.edges@.contains(edge),
    {
        edges_contain(self.edges.as_slice(), edge)
    }

    pub fn is_full_rect_stroke(&self) -> (r: bool)
        ensures
            r == (all_border_edges_spec(self.edges@) && self.style == BorderStyle::Solid),
    {
        is_all_border_edges(self.edges.as_slice()) && is_solid_border_style(&self.style)
    }
}

/// Padding / insets in fixed-point Pt (1/1000 pt units).
#[derive(Debug, Clone, Copy, PartialEq, Eq, Structural)]
pub enum EdgeInsetsPt {
    Uniform(i64),
    PerEdge { top: i64, right: i64, bottom: i64, left: i64 },
}

#[derive(Debug, Clone, PartialEq, Eq)]
pub struct ShadowLayer {
    pub offset_x_pt: i64,
    pub offset_y_pt: i64,
    pub blur_radius_pt: i64,
    pub spread_radius_pt: i64,
    pub color: String,
}

#[derive(Debug, Clone, PartialEq, Eq)]
pub struct Shadow {
    pub layers: Vec<ShadowLayer>,
}

#[derive(Debug, Clone, PartialEq, Eq)]
pub enum ShadowRef {
    Ref(String),
    Inline(Shadow),
}

#[derive(Debug, Clone, Copy, PartialEq, Eq, Structural)]
pub struct Blur {
    pub radius_pt: i64,
}

#[derive(Debug, Clone, PartialEq, Eq)]
pub enum BlurRef {
    Ref(String),
    Inline(Blur),
}

/// A minimal decoration model for painting a box.
///
/// This is intentionally representation-only. Consumers decide how to interpret references
/// and how to render shadows/blur deterministically.
#[derive(Debug, Clone, Default, PartialEq, Eq)]
pub struct BoxDecoration {
    pub background: Option<FillRef>,
    pub border: Option<Border>,
    pub corner_radius_pt: Option<i64>,
    pub padding_pt: Option<EdgeInsetsPt>,
    pub shadow: Option<ShadowRef>,
    /// Backdrop blur applied to pixels behind this box (glass-style).
    pub blur: Option<BlurRef>,
}

// ---------------------------------------------------------------------------------------------
// Views: the decoration values with strings and lists as sequences.
// ---------------------------------------------------------------------------------------------

pub enum FillRefView {
    Ref(Seq<char>),
    Solid(Seq<char>),
    Linear(i64, Seq<(i64, Seq<char>)>),
}

pub struct BorderView {
    pub width_pt: i64,
    pub color: Seq<char>,
    pub edges: Seq<BorderEdge>,
    pub style: BorderStyle,
}

pub enum ShadowRefView {
    Ref(Seq<char>),
    Inline(Seq<(i64, i64, i64, i64, Seq<char>)>),
}

pub enum BlurRefView {
    Ref(Seq<char>),
    Inline(Blur),
}

pub struct BoxDecorationView {
    pub background: Option<FillRefView>,
    pub border: Option<BorderView>,
    pub corner_radius_pt: Option<i64>,
    pub padding_pt: Option<EdgeInsetsPt>,
    pub shadow: Option<ShadowRefView>,
    pub blur: Option<BlurRefView>,
}

pub open spec fn fill_ref_view(f: FillRef) -> FillRefView {
    match f {
        FillRef::Ref(s) => FillRefView::Ref(s@),
        FillRef::Inline(Fill::Solid { color }) => FillRefView::Solid(color@),
        FillRef::Inline(Fill::LinearGradient { value: LinearGradient::Linear { angle_degrees, stops } }) => {
            FillRefView::Linear(angle_degrees, stops@.map_values(|s: GradientStop| (s.pos, s.color@)))
        },
    }
}

pub open spec fn border_view(b: Border) -> BorderView {
    BorderView { width_pt: b.width_pt, color: b.color@, edges: b.edges@, style: b.style }
}

pub open spec fn shadow_ref_view(s: ShadowRef) -> ShadowRefView {
    match s {
        ShadowRef::Ref(n) => ShadowRefView::Ref(n@),
        ShadowRef::Inline(sh) => ShadowRefView::Inline(
            sh.layers@.map_values(
                |l: ShadowLayer| (l.offset_x_pt, l.offset_y_pt, l.blur_radius_pt, l.spread_radius_pt, l.color@),
            ),
        ),
    }
}

pub open spec fn blur_ref_view(b: BlurRef) -> BlurRefView {
    match b {
        BlurRef::Ref(n) => BlurRefView::Ref(n@),
        BlurRef::Inline(x) => BlurRefView::Inline(x),
    }
}

impl View for BoxDecoration {
    type V = BoxDecorationView;

    open spec fn view(&self) -> BoxDecorationView {
        BoxDecorationView {
            background: match self.background {
                Some(f) => Some(fill_ref_view(f)),
                None => None,
            },
            border: match self.border {
                Some(b) => Some(border_view(b)),
                None => None,
            },
            corner_radius_pt: self.corner_radius_pt,
            padding_pt: self.padding_pt,
            shadow: match self.shadow {
                Some(x) => Some(shadow_ref_view(x)),
                None => None,
            },
            blur: match self.blur {
                Some(b) => Some(blur_ref_view(b)),
                None => None,
            },
        }
    }
}

fn copy_stops(v: &Vec<GradientStop>) -> (r: Vec<GradientStop>)
    ensures
        r@.map_values(|s: GradientStop| (s.pos, s.color@)) == v@.map_values(|s: GradientStop| (s.pos, s.color@)),
{
    let mut out: Vec<GradientStop> = Vec::new();
    let mut i: usize = 0;
    while i < v.len()
        invariant
            i <= v.len(),
            out@.len() == i,
            forall|j: int| 0 <= j < i ==> (#[trigger] out@[j]).pos == v@[j].pos && out@[j].color@ == v@[j].color@,
        decreases v.len() - i,
    {
        out.push(GradientStop { pos: v[i].pos, color: v[i].color.clone() });
        i = i + 1;
    }
    assert(out@.map_values(|s: GradientStop| (s.pos, s.color@)) =~= v@.map_values(|s: GradientStop| (s.pos, s.color@)));
    out
}

/// A fill with the same view.
pub(crate) fn copy_fill(f: &Fill) -> (r: Fill)
    ensures
        fill_ref_view(FillRef::Inline(r)) == fill_ref_view(FillRef::Inline(*f)),
{
    match f {
        Fill::Solid { color } => Fill::Solid { color: color.clone() },
        Fill::LinearGradient { value: LinearGradient::Linear { angle_degrees, stops } } => {
            Fill::LinearGradient {
                value: LinearGradient::Linear { angle_degrees: *angle_degrees, stops: copy_stops(stops) },
            }
        },
    }
}

pub(crate) fn copy_fill_ref(f: &FillRef) -> (r: FillRef)
    ensures
        fill_ref_view(r) == fill_ref_view(*f),
{
    match f {
        FillRef::Ref(s) => FillRef::Ref(s.clone()),
        FillRef::Inline(fill) => FillRef::Inline(copy_fill(fill)),
    }
}

pub(crate) fn copy_border(b: &Border) -> (r: Border)
    ensures
        border_view(r) == border_view(*b),
{
    let edges = b.edges.clone();
    assert(edges@ =~= b.edges@);
    Border { width_pt: b.width_pt, color: b.color.clone(), edges, style: b.style }
}

/// A shadow with the same view.
pub(crate) fn copy_shadow(sh: &Shadow) -> (r: Shadow)
    ensures
        shadow_ref_view(ShadowRef::Inline(r)) == shadow_ref_view(ShadowRef::Inline(*sh)),
{
    let mut out: Vec<ShadowLayer> = Vec::new();
    let mut i: usize = 0;
    while i < sh.layers.len()
        invariant
            i <= sh.layers.len(),
            out@.len() == i,
            forall|j: int|
                0 <= j < i ==> {
                    let a = #[trigger] out@[j];
                    let b = sh.layers@[j];
                    a.offset_x_pt == b.offset_x_pt && a.offset_y_pt == b.offset_y_pt && a.blur_radius_pt
                        == b.blur_radius_pt && a.spread_radius_pt == b.spread_radius_pt && a.color@ == b.color@
                },
        decreases sh.layers.len() - i,
    {
        let l = &sh.layers[i];
        out.push(
            ShadowLayer {
                offset_x_pt: l.offset_x_pt,
                offset_y_pt: l.offset_y_pt,
                blur_radius_pt: l.blur_radius_pt,
                spread_radius_pt: l.spread_radius_pt,
                color: l.color.clone(),
            },
        );
        i = i + 1;
    }
    assert(out@.map_values(
        |l: ShadowLayer| (l.offset_x_pt, l.offset_y_pt, l.blur_radius_pt, l.spread_radius_pt, l.color@),
    ) =~= sh.layers@.map_values(
        |l: ShadowLayer| (l.offset_x_pt, l.offset_y_pt, l.blur_radius_pt, l.spread_radius_pt, l.color@),
    ));
    Shadow { layers: out }
}

pub(crate) fn copy_shadow_ref(s: &ShadowRef) -> (r: ShadowRef)
    ensures
        shadow_ref_view(r) == shadow_ref_view(*s),
{
    match s {
        ShadowRef::Ref(n) => ShadowRef::Ref(n.clone()),
        ShadowRef::Inline(sh) => ShadowRef::Inline(copy_shadow(sh)),
    }
}

pub(crate) fn copy_blur_ref(b: &BlurRef) -> (r: BlurRef)
    ensures
        blur_ref_view(r) == blur_ref_view(*b),
{
    match b {
        BlurRef::Ref(n) => BlurRef::Ref(n.clone()),
        BlurRef::Inline(x) => BlurRef::Inline(*x),
    }
}

impl BoxDecoration {
    /// A decoration with the same view.
    pub fn duplicate(&self) -> (r: BoxDecoration)
        ensures
            r@ == self@,
    {
        let background = match &self.background {
            Some(f) => Some(copy_fill_ref(f)),
            None => None,
        };
        let border = match &self.border {
            Some(b) => Some(copy_border(b)),
            None => None,
        };
        let shadow = match &self.shadow {
            Some(s) => Some(copy_shadow_ref(s)),
            None => None,
        };
        let blur = match &self.blur {
            Some(b) => Some(copy_blur_ref(b)),
            None => None,
        };
        BoxDecoration {
            background,
            border,
            corner_radius_pt: self.corner_radius_pt,
            padding_pt: self.padding_pt,
            shadow,
            blur,
        }
    }

    /// Field-wise overlay: every field `overlay` declares replaces this decoration's value.
    pub fn merge_from(&mut self, overlay: &BoxDecoration)
        ensures
            final(self)@ == merged_decoration(old(self)@, overlay@),
    {
        match &overlay.background {
            Some(f) => {
                self.background = Some(copy_fill_ref(f));
            },
            None => {},
        }
        match &overlay.border {
            Some(b) => {
                self.border = Some(copy_border(b));
            },
            None => {},
        }
        if overlay.corner_radius_pt.is_some() {
            self.corner_radius_pt = overlay.corner_radius_pt;
        }
        if overlay.padding_pt.is_some() {
            self.padding_pt = overlay.padding_pt;
        }
        match &overlay.shadow {
            Some(s) => {
                self.shadow = Some(copy_shadow_ref(s));
            },
            None => {},
        }
        match &overlay.blur {
            Some(b) => {
                self.blur = Some(copy_blur_ref(b));
            },
            None => {},
        }
    }
}

/// `overlay`'s declared fields over `base`.
pub open spec fn merged_decoration(base: BoxDecorationView, overlay: BoxDecorationView) -> BoxDecorationView {
    BoxDecorationView {
        background: if overlay.background is Some { overlay.background } else { base.background },
        border: if overlay.border is Some { overlay.border } else { base.border },
        corner_radius_pt: if overlay.corner_radius_pt is Some { overlay.corner_radius_pt } else { base.corner_radius_pt },
        padding_pt: if overlay.padding_pt is Some { overlay.padding_pt } else { base.padding_pt },
        shadow: if overlay.shadow is Some { overlay.shadow } else { base.shadow },
        blur: if overlay.blur is Some { overlay.blur } else { base.blur },
    }
}

/// True when painting the decoration draws something.
pub fn has_paint_decoration(decoration: &BoxDecoration) -> (r: bool)
    ensures
        r == (decoration.background is Some || decoration.border is Some || decoration.corner_radius_pt is Some
            || decoration.shadow is Some || decoration.blur is Some),
{
    decoration.background.is_some() || decoration.border.is_some() || decoration.corner_radius_pt.is_some()
        || decoration.shadow.is_some() || decoration.blur.is_some()
}

/// The backdrop blur when it is given inline (not by reference).
pub fn inline_blur(decoration: &BoxDecoration) -> (r: Option<Blur>)
    ensures
        r == match decoration.blur {
            Some(BlurRef::Inline(b)) => Some(b),
            _ => None,
        },
{
    match &decoration.blur {
        Some(BlurRef::Inline(b)) => Some(*b),
        _ => None,
    }
}

} // verus!
