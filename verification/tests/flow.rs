use k2f_layout::columns::{ceil_div_pt, split_segments, Segment};
use k2f_layout::layout_context::LayoutContext;
use k2f_layout::model::{
    Align, BreakInside, CanvasMode, FixedSizeHint, JustifyContent, LayoutHint, NodeContent, PageConfig, SemanticNode,
    StackDirection,
};
use k2f_layout::pagination::Paginator;
use k2f_layout::place::{apply_gap, can_split_stack, can_split_text, keep_group_end, region_break};
use k2f_layout::pt::Pt;
use k2f_layout::table::{inline_rows, table_axis_gaps};
use k2f_layout::model::{TableDataSource, TableSpec};
use k2f_layout::theme::Theme;

fn node(span: bool, keep: bool) -> SemanticNode {
    SemanticNode { column_span_all: span, keep_with_next: keep, content: NodeContent::Text("x".into()), ..Default::default() }
}

#[test]
fn segments_group_flow_runs_between_spanning_children() {
    let kids = vec![node(false, false), node(false, false), node(true, false), node(false, false), node(true, false)];
    assert_eq!(
        split_segments(&kids),
        vec![Segment::Flow(0, 2), Segment::Span(2), Segment::Flow(3, 4), Segment::Span(4)]
    );
    assert!(split_segments(&[]).is_empty());
}

#[test]
fn ceil_div_rounds_up() {
    assert_eq!(ceil_div_pt(Pt(10), 3), Pt(4));
    assert_eq!(ceil_div_pt(Pt(9), 3), Pt(3));
    assert_eq!(ceil_div_pt(Pt(-5), 3), Pt(0));
    assert_eq!(ceil_div_pt(Pt(7), 0), Pt(7));
}

#[test]
fn keep_groups_extend_through_keep_with_next() {
    let items = vec![node(false, true), node(false, true), node(false, false), node(false, true)];
    assert_eq!(keep_group_end(&items, 0), 2);
    assert_eq!(keep_group_end(&items, 2), 2);
    assert_eq!(keep_group_end(&items, 3), 3);
    assert_eq!(keep_group_end(&items, 9), 9);
}

#[test]
fn split_rules_for_text_and_stacks() {
    let theme = Theme::default();
    let ctx = LayoutContext::new(&theme);
    let text = node(false, false);
    assert!(can_split_text(&text));
    let avoid = SemanticNode { break_inside: BreakInside::Avoid, ..node(false, false) };
    assert!(!can_split_text(&avoid));
    let item = SemanticNode { role: "list_item".into(), ..node(false, false) };
    assert!(!can_split_text(&item));

    let stack = SemanticNode { content: NodeContent::Container { children: vec![] }, ..Default::default() };
    assert_eq!(can_split_stack(&stack, &ctx), Ok(true));
    let horizontal = SemanticNode {
        content: NodeContent::Container { children: vec![] },
        layout: Some(LayoutHint::Stack {
            direction: StackDirection::Horizontal,
            gap: 0,
            align_items: Align::Start,
            justify_content: JustifyContent::Start,
            size: FixedSizeHint::default(),
        }),
        ..Default::default()
    };
    assert_eq!(can_split_stack(&horizontal, &ctx), Ok(false));
    assert_eq!(can_split_stack(&text, &ctx), Ok(false));
}

fn page() -> PageConfig {
    PageConfig { width: Pt(200_000), height: Pt(100_000), margin: [Pt(10_000); 4] }
}

#[test]
fn gaps_never_push_past_the_page_bottom() {
    let mut p = Paginator::new(page(), CanvasMode::Paged);
    apply_gap(&mut p, Pt(5_000), CanvasMode::Paged);
    assert_eq!(p.current_y, Pt(15_000));
    apply_gap(&mut p, Pt(80_000), CanvasMode::Paged);
    assert_eq!(p.current_y, Pt(15_000));
    let mut q = Paginator::new(page(), CanvasMode::Infinite);
    apply_gap(&mut q, Pt(500_000), CanvasMode::Infinite);
    assert_eq!(q.current_y, Pt(510_000));
}

#[test]
fn region_break_moves_to_next_column_then_next_page() {
    let mut p = Paginator::new(page(), CanvasMode::Paged);
    p.enter_column_band(Pt(10_000), vec![Pt(85_000), Pt(85_000)], Pt(10_000), Pt(20_000), Pt(90_000)).unwrap();
    region_break(&mut p).unwrap();
    assert_eq!(p.column_band.as_ref().unwrap().col, 1);
    assert_eq!(p.current_y, Pt(20_000));
    region_break(&mut p).unwrap();
    assert_eq!(p.current_page_index, 1);
    p.exit_column_band();
    region_break(&mut p).unwrap();
    assert_eq!(p.current_page_index, 2);
    assert_eq!(p.current_y, Pt(10_000));
}

#[test]
fn table_gaps_and_rows() {
    let spec = TableSpec { column_widths: vec![], header_rows: 0, data: TableDataSource::Inline { rows: vec![vec![node(false, false)]] }, gap: 4, row_gap: Some(7), column_gap: None };
    assert_eq!(table_axis_gaps(&spec), (Pt(7), Pt(4)));
    assert_eq!(inline_rows(&spec).unwrap().len(), 1);
    let asset = TableSpec { column_widths: vec![], header_rows: 0, data: TableDataSource::Asset { source: "t.csv".into() }, gap: 0, row_gap: None, column_gap: None };
    let err = inline_rows(&asset).unwrap_err();
    assert!(err.contains("asset-backed data source 't.csv'"), "{err}");
}
