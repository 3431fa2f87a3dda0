use k2f_layout::container_measure::{container_frame, measure_container_size};
use k2f_layout::layout_context::{LayoutContext, Size, SizeConstraint};
use k2f_layout::model::{Align, FixedSizeHint, GridTrack, JustifyContent, LayoutHint, SemanticNode, StackDirection};
use k2f_layout::pt::Pt;
use k2f_layout::style::TextAlign;
use k2f_layout::theme::{RoleStyle, Theme, ThemeDecoration};
use k2f_layout::visual_primitives::EdgeInsetsPt;

fn padded_theme() -> Theme {
    let card = RoleStyle {
        font_family: "default".to_string(),
        font_size: Pt(12_000),
        line_height_mult: 1_200,
        color: "black".to_string(),
        text_align: TextAlign::Start,
        self_align: None,
        box_decoration: Some(ThemeDecoration {
            padding_pt: Some(EdgeInsetsPt::Uniform(4)),
            ..ThemeDecoration::default()
        }),
        list_style: None,
        bold: false,
        italic: false,
        letter_spacing_pt: Pt(0),
        first_line_indent_pt: Pt(0),
        variants: vec![],
    };
    Theme { roles: vec![("card".to_string(), card)], ..Theme::default() }
}

fn no_fixed() -> FixedSizeHint {
    FixedSizeHint { width: None, height: None }
}

fn node(layout: Option<LayoutHint>) -> SemanticNode {
    SemanticNode { id: "box".into(), role: "card".into(), layout, ..Default::default() }
}

fn stack(direction: StackDirection, gap: i64, size: FixedSizeHint) -> Option<LayoutHint> {
    Some(LayoutHint::Stack { direction, gap, align_items: Align::Start, justify_content: JustifyContent::Start, size })
}

fn sz(w: i128, h: i128) -> Size {
    Size::new(Pt(w), Pt(h))
}

fn up_to(w: i128, h: i128) -> SizeConstraint {
    SizeConstraint::new(sz(0, 0), sz(w, h))
}

fn measure(n: &SemanticNode, children: &[Size], c: SizeConstraint) -> Size {
    let theme = padded_theme();
    let ctx = LayoutContext::new(&theme);
    let frame = container_frame(n, c, &ctx).unwrap();
    measure_container_size(n, &frame, children, c)
}

#[test]
fn vertical_stack_measures_widest_child_by_summed_heights() {
    let n = node(stack(StackDirection::Vertical, 5, no_fixed()));
    let theme = padded_theme();
    let ctx = LayoutContext::new(&theme);
    let c = up_to(200, i128::MAX);
    let frame = container_frame(&n, c, &ctx).unwrap();
    // Children get the inner width and an unbounded height.
    assert_eq!(frame.child_constraint, up_to(192, i128::MAX));
    let size = measure_container_size(&n, &frame, &[sz(30, 10), sz(50, 20)], c);
    assert_eq!(size, sz(58, 43));
}

#[test]
fn horizontal_stack_measures_summed_widths_by_tallest_child() {
    let n = node(stack(StackDirection::Horizontal, 2, no_fixed()));
    assert_eq!(measure(&n, &[sz(30, 10), sz(50, 20), sz(5, 5)], up_to(500, 500)), sz(97, 28));
}

#[test]
fn overlay_measures_largest_child_on_each_axis() {
    let n = node(Some(LayoutHint::Overlay { size: no_fixed() }));
    assert_eq!(measure(&n, &[sz(30, 40), sz(50, 20)], up_to(500, 500)), sz(58, 48));
    assert_eq!(measure(&n, &[], up_to(500, 500)), sz(8, 8));
}

#[test]
fn plain_container_stacks_vertically_without_gap() {
    let n = node(None);
    assert_eq!(measure(&n, &[sz(30, 10), sz(20, 20)], up_to(500, 500)), sz(38, 38));
}

#[test]
fn fixed_size_raises_the_measure_and_stays_within_the_constraint() {
    let fixed = FixedSizeHint { width: Some(Pt(100)), height: Some(Pt(300)) };
    let n = node(stack(StackDirection::Vertical, 0, fixed));
    let theme = padded_theme();
    let ctx = LayoutContext::new(&theme);
    let c = up_to(500, 200);
    let frame = container_frame(&n, c, &ctx).unwrap();
    // A fixed height bounds the children's height too.
    assert_eq!(frame.child_constraint, up_to(92, 192));
    assert_eq!(measure_container_size(&n, &frame, &[sz(30, 10)], c), sz(100, 200));
}

#[test]
fn grid_measures_resolved_tracks_and_gaps() {
    let layout = Some(LayoutHint::Grid {
        columns: vec![GridTrack::Pt { pt: 20 }, GridTrack::Fr { fr: 1 }],
        rows: vec![GridTrack::Pt { pt: 10 }, GridTrack::Pt { pt: 15 }],
        gap: 3,
        row_gap: None,
        column_gap: Some(6),
        cell_align: None,
        size: no_fixed(),
    });
    let n = node(layout);
    let theme = padded_theme();
    let ctx = LayoutContext::new(&theme);
    let c = up_to(108, 500);
    let frame = container_frame(&n, c, &ctx).unwrap();
    let (cols, rows) = frame.grid.clone().unwrap();
    assert_eq!(cols, vec![Pt(20), Pt(74)]);
    assert_eq!(rows, vec![Pt(10), Pt(15)]);
    // Children do not change a grid's size.
    assert_eq!(measure_container_size(&n, &frame, &[sz(1000, 1000)], c), sz(108, 36));
}

#[test]
fn grid_with_auto_tracks_is_refused() {
    let layout = Some(LayoutHint::Grid {
        columns: vec![GridTrack::Auto { auto: true }],
        rows: vec![],
        gap: 0,
        row_gap: None,
        column_gap: None,
        cell_align: None,
        size: no_fixed(),
    });
    let theme = padded_theme();
    let ctx = LayoutContext::new(&theme);
    assert!(container_frame(&node(layout), up_to(100, 100), &ctx).is_err());
}

#[test]
fn column_flow_shares_content_height_over_its_columns() {
    let n = node(Some(LayoutHint::Columns { count: 2, gap: 10 }));
    let theme = padded_theme();
    let ctx = LayoutContext::new(&theme);
    let c = up_to(108, i128::MAX);
    let frame = container_frame(&n, c, &ctx).unwrap();
    // Two columns of 45 across the inner 100 with a gap of 10.
    assert_eq!(frame.child_constraint, up_to(45, i128::MAX));
    // 30 + 11 = 41 shared over two columns is 21 (rounded up).
    assert_eq!(measure_container_size(&n, &frame, &[sz(40, 30), sz(40, 11)], c), sz(108, 29));
}
