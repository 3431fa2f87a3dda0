use k2f_layout::layout_context::LayoutContext;
use k2f_layout::model::{
    Align, BreakInside, CanvasMode, FixedSizeHint, GridTrack, JustifyContent, LayoutHint, NodeContent, SemanticNode,
    StackDirection, TableDataSource, TableSpec,
};
use k2f_layout::place::{item_align, place_kind, stack_flow_params, PlaceKind};
use k2f_layout::pt::Pt;
use k2f_layout::theme::Theme;

fn node(content: NodeContent, layout: Option<LayoutHint>) -> SemanticNode {
    SemanticNode { id: "n".into(), role: "body".into(), content, layout, ..Default::default() }
}

fn container() -> NodeContent {
    NodeContent::Container { children: vec![] }
}

fn stack(direction: StackDirection) -> Option<LayoutHint> {
    Some(LayoutHint::Stack {
        direction,
        gap: 7,
        align_items: Align::Center,
        justify_content: JustifyContent::Start,
        size: FixedSizeHint::default(),
    })
}

#[test]
fn paged_items_are_placed_by_kind() {
    let theme = Theme::default();
    let ctx = LayoutContext::new(&theme);
    let paged = CanvasMode::Paged;
    let columns = node(container(), Some(LayoutHint::Columns { count: 2, gap: 0 }));
    assert_eq!(place_kind(&columns, paged, &ctx), Ok(PlaceKind::Columns));
    let table = node(
        NodeContent::Table(TableSpec {
            column_widths: vec![GridTrack::Fr { fr: 1 }],
            header_rows: 0,
            data: TableDataSource::Inline { rows: vec![] },
            gap: 0,
            row_gap: None,
            column_gap: None,
        }),
        None,
    );
    assert_eq!(place_kind(&table, paged, &ctx), Ok(PlaceKind::Table));
    let text = node(NodeContent::Text("a".into()), None);
    assert_eq!(place_kind(&text, paged, &ctx), Ok(PlaceKind::SplittableText));
    let mut kept = node(NodeContent::Text("a".into()), None);
    kept.break_inside = BreakInside::Avoid;
    assert_eq!(place_kind(&kept, paged, &ctx), Ok(PlaceKind::Unsplittable));
    let vertical = node(container(), stack(StackDirection::Vertical));
    assert_eq!(place_kind(&vertical, paged, &ctx), Ok(PlaceKind::SplittableStack));
    let horizontal = node(container(), stack(StackDirection::Horizontal));
    assert_eq!(place_kind(&horizontal, paged, &ctx), Ok(PlaceKind::Unsplittable));
}

#[test]
fn an_endless_canvas_places_everything_whole() {
    let theme = Theme::default();
    let ctx = LayoutContext::new(&theme);
    let columns = node(container(), Some(LayoutHint::Columns { count: 2, gap: 0 }));
    assert_eq!(place_kind(&columns, CanvasMode::Infinite, &ctx), Ok(PlaceKind::Unsplittable));
    let text = node(NodeContent::Text("a".into()), None);
    assert_eq!(place_kind(&text, CanvasMode::Infinite, &ctx), Ok(PlaceKind::Unsplittable));
}

#[test]
fn items_take_their_container_alignment_without_their_own() {
    let theme = Theme::default();
    let ctx = LayoutContext::new(&theme);
    let text = node(NodeContent::Text("a".into()), None);
    assert_eq!(item_align(&text, Align::End, &ctx), Align::End);
}

#[test]
fn split_stacks_flow_with_their_gap_and_alignment() {
    assert_eq!(stack_flow_params(&node(container(), stack(StackDirection::Vertical))), (Pt(7), Align::Center));
    assert_eq!(stack_flow_params(&node(container(), None)), (Pt(0), Align::Stretch));
}
