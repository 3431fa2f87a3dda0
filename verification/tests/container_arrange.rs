use k2f_layout::container_arrange::{arrange_container_slots, column_width_for_next};
use k2f_layout::container_measure::{container_frame, measure_container_size, ContainerFrame};
use k2f_layout::layout_context::{LayoutContext, Point, Size, SizeConstraint};
use k2f_layout::model::{
    Align, CellAlign, FixedSizeHint, GridTrack, JustifyContent, LayoutHint, SemanticNode, StackDirection,
};
use k2f_layout::pt::Pt;
use k2f_layout::theme::Theme;

fn sz(w: i128, h: i128) -> Size {
    Size::new(Pt(w), Pt(h))
}

fn pt(x: i128, y: i128) -> Point {
    Point::new(Pt(x), Pt(y))
}

fn up_to(s: Size) -> SizeConstraint {
    SizeConstraint::new(sz(0, 0), s)
}

fn unbounded() -> SizeConstraint {
    up_to(sz(i128::MAX, i128::MAX))
}

fn container(layout: LayoutHint, n: usize) -> (SemanticNode, Vec<SemanticNode>) {
    let children: Vec<SemanticNode> =
        (0..n).map(|i| SemanticNode { id: format!("c{i}"), role: "body".into(), ..Default::default() }).collect();
    (SemanticNode { id: "box".into(), role: "section".into(), layout: Some(layout), ..Default::default() }, children)
}

/// Measure a container under `c`, then build the frame its children are arranged in.
fn measure_then_frame(node: &SemanticNode, c: SizeConstraint, sizes: &[Size], ctx: &LayoutContext) -> (Size, ContainerFrame) {
    let frame = container_frame(node, c, ctx).unwrap();
    let measured = measure_container_size(node, &frame, sizes, c);
    let arrange_frame = container_frame(node, up_to(measured), ctx).unwrap();
    (measured, arrange_frame)
}

fn grid(columns: Vec<GridTrack>, rows: Vec<GridTrack>, gap: i64, cell_align: Option<CellAlign>) -> LayoutHint {
    LayoutHint::Grid {
        columns,
        rows,
        gap,
        row_gap: None,
        column_gap: None,
        cell_align,
        size: FixedSizeHint::default(),
    }
}

#[test]
fn grid_children_fill_their_cells_row_by_row() {
    let theme = Theme::default();
    let ctx = LayoutContext::new(&theme);
    let layout = grid(
        vec![GridTrack::Pt { pt: 10_000 }, GridTrack::Pt { pt: 20_000 }],
        vec![GridTrack::Pt { pt: 30_000 }, GridTrack::Pt { pt: 40_000 }],
        1_000,
        Some(CellAlign::default()),
    );
    let (node, children) = container(layout, 4);
    let sizes = vec![sz(10_000, 30_000), sz(20_000, 30_000), sz(10_000, 40_000), sz(20_000, 40_000)];
    let (measured, frame) = measure_then_frame(&node, unbounded(), &sizes, &ctx);
    assert_eq!(measured, sz(31_000, 71_000));
    let start = pt(50_000, 60_000);
    let slots = arrange_container_slots(&node, &frame, start, &children, &sizes, &ctx);
    assert_eq!(
        slots,
        vec![
            (pt(50_000, 60_000), sz(10_000, 30_000)),
            (pt(61_000, 60_000), sz(20_000, 30_000)),
            (pt(50_000, 91_000), sz(10_000, 40_000)),
            (pt(61_000, 91_000), sz(20_000, 40_000)),
        ]
    );
}

#[test]
fn grid_fraction_tracks_share_the_room_left_by_gaps() {
    let theme = Theme::default();
    let ctx = LayoutContext::new(&theme);
    let layout = grid(vec![GridTrack::Fr { fr: 1 }, GridTrack::Fr { fr: 2 }], vec![GridTrack::Fr { fr: 1 }], 1, None);
    let (node, children) = container(layout, 2);
    let sizes = vec![sz(3, 5), sz(6, 5)];
    let (measured, frame) = measure_then_frame(&node, up_to(sz(10, 5)), &sizes, &ctx);
    assert_eq!(measured, sz(10, 5));
    let slots = arrange_container_slots(&node, &frame, pt(0, 0), &children, &sizes, &ctx);
    assert_eq!(slots, vec![(pt(0, 0), sz(3, 5)), (pt(4, 0), sz(6, 5))]);
}

#[test]
fn grid_cell_alignment_offsets_a_smaller_child() {
    let theme = Theme::default();
    let ctx = LayoutContext::new(&theme);
    let layout = grid(
        vec![GridTrack::Pt { pt: 100_000 }],
        vec![GridTrack::Pt { pt: 60_000 }],
        0,
        Some(CellAlign { x: Align::Center, y: Align::End }),
    );
    let (node, children) = container(layout, 1);
    let sizes = vec![sz(20_000, 10_000)];
    let (measured, frame) = measure_then_frame(&node, unbounded(), &sizes, &ctx);
    assert_eq!(measured, sz(100_000, 60_000));
    let slots = arrange_container_slots(&node, &frame, pt(0, 0), &children, &sizes, &ctx);
    assert_eq!(slots, vec![(pt(40_000, 50_000), sz(20_000, 10_000))]);
}

#[test]
fn stack_justify_and_align_offset_children_in_spare_room() {
    let theme = Theme::default();
    let ctx = LayoutContext::new(&theme);
    let layout = LayoutHint::Stack {
        direction: StackDirection::Vertical,
        gap: 10_000,
        align_items: Align::End,
        justify_content: JustifyContent::Center,
        size: FixedSizeHint { width: Some(Pt(100_000)), height: Some(Pt(100_000)) },
    };
    let (node, children) = container(layout, 2);
    let sizes = vec![sz(30_000, 20_000), sz(30_000, 20_000)];
    let (measured, frame) = measure_then_frame(&node, unbounded(), &sizes, &ctx);
    assert_eq!(measured, sz(100_000, 100_000));
    let slots = arrange_container_slots(&node, &frame, pt(0, 0), &children, &sizes, &ctx);
    assert_eq!(slots, vec![(pt(70_000, 25_000), sz(30_000, 20_000)), (pt(70_000, 55_000), sz(30_000, 20_000))]);
}

#[test]
fn overlay_children_share_the_inner_origin() {
    let theme = Theme::default();
    let ctx = LayoutContext::new(&theme);
    let (node, children) = container(LayoutHint::Overlay { size: FixedSizeHint::default() }, 2);
    let sizes = vec![sz(30, 40), sz(50, 20)];
    let (measured, frame) = measure_then_frame(&node, unbounded(), &sizes, &ctx);
    assert_eq!(measured, sz(50, 40));
    let slots = arrange_container_slots(&node, &frame, pt(7, 9), &children, &sizes, &ctx);
    assert_eq!(slots, vec![(pt(7, 9), sz(30, 40)), (pt(7, 9), sz(50, 20))]);
}

#[test]
fn column_flow_moves_on_when_a_child_does_not_fit() {
    let theme = Theme::default();
    let ctx = LayoutContext::new(&theme);
    let (node, children) = container(LayoutHint::Columns { count: 2, gap: 10 }, 3);
    // A 110 x 50 box: two columns of 50 with a gap of 10, each 50 tall.
    let frame = container_frame(&node, up_to(sz(110, 50)), &ctx).unwrap();
    assert_eq!(frame.column_widths.clone().unwrap(), vec![Pt(50), Pt(50)]);
    let sizes = vec![sz(50, 30), sz(50, 30), sz(50, 10)];
    let slots = arrange_container_slots(&node, &frame, pt(0, 0), &children, &sizes, &ctx);
    assert_eq!(slots, vec![(pt(0, 0), sz(50, 30)), (pt(60, 0), sz(50, 30)), (pt(60, 30), sz(50, 10))]);
}

#[test]
fn next_column_width_follows_the_flow() {
    let widths = vec![Pt(40), Pt(41), Pt(42)];
    assert_eq!(column_width_for_next(&widths, Pt(50), &[]), Pt(40));
    // 30 + 30 overflows the first column: the flow is in the second column.
    assert_eq!(column_width_for_next(&widths, Pt(50), &[Pt(30), Pt(30)]), Pt(41));
    // Past the last column the flow stays in it.
    assert_eq!(column_width_for_next(&widths, Pt(50), &[Pt(30), Pt(30), Pt(30), Pt(30)]), Pt(42));
}
