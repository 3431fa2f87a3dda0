use vstd::prelude::*;

use crate::pt::Pt;

verus! {

/// Cross-axis alignment of a child inside its slot.
#[derive(Debug, Clone, Copy, PartialEq, Eq, Structural)]
pub enum Align {
    Start,
    Center,
    End,
    Stretch,
}

/// Main-axis distribution of a stack's children.
#[derive(Debug, Clone, Copy, PartialEq, Eq, Structural)]
pub enum JustifyContent {
    Start,
    Center,
    End,
}

/// Direction of a stack container.
#[derive(Debug, Clone, Copy, PartialEq, Eq, Structural)]
pub enum StackDirection {
    Vertical,
    Horizontal,
}

/// Page model of a document: fixed-size pages, or one page that grows downward.
#[derive(Debug, Clone, Copy, PartialEq, Eq, Structural)]
pub enum CanvasMode {
    Paged,
    Infinite,
}

/// Whether a block may be split across pages.
#[derive(Debug, Clone, Copy, PartialEq, Eq, Structural, Default)]
pub enum BreakInside {
    #[default]
    Auto,
    Avoid,
}

/// Kind of list marker a list item carries.
#[derive(Debug, Clone, Copy, PartialEq, Eq, Structural)]
pub enum ListMarkerType {
    Bullet,
    Number,
}

/// Kind of reserved form field.
#[derive(Debug, Clone, Copy, PartialEq, Eq, Structural)]
pub enum FormFieldKind {
    Text,
    Multiline,
    Checkbox,
}

/// One grid track: fixed points, a fraction of the leftover, or content-sized.
#[derive(Debug, Clone, Copy, PartialEq, Eq, Structural)]
pub enum GridTrack {
    Pt { pt: i64 },
    Fr { fr: u32 },
    Auto { auto: bool },
}

impl GridTrack {
    pub open spec fn is_auto_spec(&self) -> bool {
        self is Auto
    }

    /// True for content-sized tracks.
    #[verifier::when_used_as_spec(is_auto_spec)]
    pub fn is_auto(&self) -> (r: bool)
        ensures
            r == (*self is Auto),
    {
        match self {
            GridTrack::Auto { .. } => true,
            _ => false,
        }
    }
}

/// Optional fixed outer size of a container.
#[derive(Debug, Clone, Copy, PartialEq, Eq, Default)]
pub struct FixedSizeHint {
    pub width: Option<Pt>,
    pub height: Option<Pt>,
}

/// How a grid child sits in its cell on each axis.
#[derive(Debug, Clone, Copy, PartialEq, Eq, Structural)]
pub struct CellAlign {
    pub x: Align,
    pub y: Align,
}

impl Default for CellAlign {
    /// Children fill their cell on both axes.
    fn default() -> (r: CellAlign)
        ensures
            r == (CellAlign { x: Align::Stretch, y: Align::Stretch }),
    {
        CellAlign { x: Align::Stretch, y: Align::Stretch }
    }
}

/// Layout hint of a container node.
#[derive(Debug, Clone, PartialEq, Eq)]
pub enum LayoutHint {
    Stack {
        direction: StackDirection,
        gap: i64,
        align_items: Align,
        justify_content: JustifyContent,
        size: FixedSizeHint,
    },
    Overlay { size: FixedSizeHint },
    Grid {
        columns: Vec<GridTrack>,
        rows: Vec<GridTrack>,
        gap: i64,
        row_gap: Option<i64>,
        column_gap: Option<i64>,
        cell_align: Option<CellAlign>,
        size: FixedSizeHint,
    },
    Columns { count: u32, gap: i64 },
}

/// A styling range over the UTF-8 bytes of a text node.
#[derive(Debug, Clone, PartialEq, Eq)]
pub struct Modifier {
    pub range: [usize; 2],
    pub mod_type: String,
    pub intent: String,
}

/// Declared geometry of a reserved form field.
#[derive(Debug, Clone, PartialEq, Eq)]
pub struct FormFieldSpec {
    pub kind: FormFieldKind,
    pub value: String,
    pub width: Option<Pt>,
    pub height: Option<Pt>,
    pub lines: Option<u32>,
}

/// Where the rows of a native table come from.
#[derive(Debug, PartialEq, Eq)]
pub enum TableDataSource {
    Inline { rows: Vec<Vec<SemanticNode>> },
    Asset { source: String },
}

/// A native table: column tracks, repeated header rows, data and gaps.
#[derive(Debug, PartialEq, Eq)]
pub struct TableSpec {
    pub column_widths: Vec<GridTrack>,
    /// Leading rows repeated at the top of every continuation fragment.
    pub header_rows: usize,
    pub data: TableDataSource,
    pub gap: i64,
    pub row_gap: Option<i64>,
    pub column_gap: Option<i64>,
}

/// Content of a semantic node.
#[derive(Debug, PartialEq, Eq)]
pub enum NodeContent {
    Text(String),
    CodeBlock(String),
    Math(String),
    Image { src: String, width: Pt, height: Pt },
    TableReference { source: String, view_mode: String, width: Pt, height: Pt },
    Container { children: Vec<SemanticNode> },
    Table(TableSpec),
    FormField(FormFieldSpec),
}

impl Default for NodeContent {
    /// Empty text.
    fn default() -> (r: NodeContent)
        ensures
            r matches NodeContent::Text(t) && t@.len() == 0,
    {
        NodeContent::Text(String::new())
    }
}

/// A node of the authored semantic tree, holding the fields that layout reads.
#[derive(Debug, PartialEq, Eq, Default)]
pub struct SemanticNode {
    pub id: String,
    pub role: String,
    pub variant: Option<String>,
    pub colspan: u32,
    pub list_id: Option<String>,
    pub depth: Option<u32>,
    pub marker_type: Option<ListMarkerType>,
    pub keep_with_next: bool,
    pub break_inside: BreakInside,
    /// True when the node spans all columns of a columns container.
    pub column_span_all: bool,
    pub layout: Option<LayoutHint>,
    pub modifiers: Vec<Modifier>,
    pub content: NodeContent,
}

/// Page size and margins `[top, right, bottom, left]`.
#[derive(Debug, Clone, Copy, PartialEq, Eq)]
pub struct PageConfig {
    pub width: Pt,
    pub height: Pt,
    pub margin: [Pt; 4],
}

/// One shaped glyph, positioned relative to its run origin.
#[derive(Debug, Clone, Copy, PartialEq, Eq)]
pub struct GlyphPosition {
    pub glyph_id: u32,
    pub cluster: u32,
    pub x_offset: Pt,
    pub y_offset: Pt,
    pub x_advance: Pt,
    pub y_advance: Pt,
}

/// A half-open range of glyph indices sharing one paint style.
#[derive(Debug, Clone, PartialEq, Eq)]
pub struct TextGlyphRun {
    pub glyph_range: [usize; 2],
    pub style: String,
}

/// A solid rectangle painted inside a box (fraction rules and the like).
#[derive(Debug, Clone, Copy, PartialEq, Eq)]
pub struct FillRect {
    pub x: Pt,
    pub y: Pt,
    pub width: Pt,
    pub height: Pt,
}

/// A positioned box of the layout result.
#[derive(Debug, PartialEq, Eq)]
pub struct GeometryNode {
    pub id: String,
    pub x: Pt,
    pub y: Pt,
    pub width: Pt,
    pub height: Pt,
    pub glyphs: Vec<GlyphPosition>,
    pub text_runs: Vec<TextGlyphRun>,
    pub fill_rects: Vec<FillRect>,
    pub children: Vec<GeometryNode>,
}

/// One page of the layout result.
#[derive(Debug, PartialEq, Eq)]
pub struct Page {
    pub index: usize,
    pub width: Pt,
    pub height: Pt,
    pub root: GeometryNode,
}

/// Where a running block repeats on every page.
#[derive(Debug, Clone, Copy, PartialEq, Eq, Structural)]
pub enum RunningBlockPosition {
    Header,
    Footer,
}

/// A block repeated on every page (header or footer).
#[derive(Debug, PartialEq, Eq)]
pub struct RunningBlock {
    pub position: RunningBlockPosition,
    pub node: SemanticNode,
}

/// A document: its page setup, its tree, and its running blocks.
#[derive(Debug, PartialEq, Eq)]
pub struct Manifest {
    pub title: String,
    pub canvas_mode: CanvasMode,
    pub page_config: PageConfig,
    pub root: SemanticNode,
    pub running_blocks: Vec<RunningBlock>,
}

/// The pages a layout produced.
#[derive(Debug, PartialEq, Eq)]
pub struct LayoutResult {
    pub pages: Vec<Page>,
}

} // verus!
