use k2f_layout::columns::{columns_setup, enter_flow_segment_band, enter_padded_columns_band, leave_padded_columns_band};
use k2f_layout::layout_context::{LayoutContext, Size};
use k2f_layout::model::{Align, CanvasMode, LayoutHint, NodeContent, PageConfig, SemanticNode};
use k2f_layout::pagination::Paginator;
use k2f_layout::place::{ensure_group_starts_together, place_unsplittable};
use k2f_layout::pt::Pt;
use k2f_layout::resolved_style::EdgeInsets;
use k2f_layout::theme::Theme;

fn page() -> PageConfig {
    // Content area 100 x 100 starting at (10, 10).
    PageConfig { width: Pt(120), height: Pt(120), margin: [Pt(10), Pt(10), Pt(10), Pt(10)] }
}

fn insets(top: i128, bottom: i128) -> EdgeInsets {
    EdgeInsets { top: Pt(top), right: Pt(0), bottom: Pt(bottom), left: Pt(0) }
}

#[test]
fn flow_band_holds_whole_minimum_blocks_per_column() {
    let mut p = Paginator::new(page(), CanvasMode::Paged);
    // Share 45, but 5 blocks of 20 need 3 per column: 60.
    enter_flow_segment_band(&mut p, &vec![Pt(45), Pt(45)], Pt(10), Pt(90), Pt(20)).unwrap();
    let band = p.column_band.clone().unwrap();
    assert_eq!(band.band_top, Pt(10));
    assert_eq!(band.band_bottom, Pt(70));
    assert_eq!(band.col, 0);
    assert_eq!(band.content_x, Pt(10));
    assert_eq!(p.current_y, Pt(10));
}

#[test]
fn flow_band_is_capped_by_the_page_room() {
    let mut p = Paginator::new(page(), CanvasMode::Paged);
    let _ = p.allocate_space(Pt(60));
    enter_flow_segment_band(&mut p, &vec![Pt(45), Pt(45)], Pt(10), Pt(200), Pt(10)).unwrap();
    let band = p.column_band.clone().unwrap();
    assert_eq!(band.band_top, Pt(70));
    assert_eq!(band.band_bottom, Pt(110));
    assert_eq!(p.current_page_index, 0);
}

#[test]
fn flow_band_moves_to_next_page_when_a_block_cannot_start() {
    let mut p = Paginator::new(page(), CanvasMode::Paged);
    let _ = p.allocate_space(Pt(95));
    enter_flow_segment_band(&mut p, &vec![Pt(45), Pt(45)], Pt(10), Pt(40), Pt(20)).unwrap();
    let band = p.column_band.clone().unwrap();
    assert_eq!(p.current_page_index, 1);
    assert_eq!(band.band_top, Pt(10));
    assert_eq!(band.band_bottom, Pt(30));
}

#[test]
fn flow_band_without_room_retries_on_a_fresh_page() {
    let mut p = Paginator::new(page(), CanvasMode::Paged);
    let _ = p.allocate_space(Pt(100));
    enter_flow_segment_band(&mut p, &vec![Pt(45), Pt(45)], Pt(10), Pt(50), Pt(0)).unwrap();
    let band = p.column_band.clone().unwrap();
    assert_eq!(p.current_page_index, 1);
    assert_eq!(band.band_top, Pt(10));
    assert_eq!(band.band_bottom, Pt(35));
}

#[test]
fn padded_columns_band_sits_inside_the_padding() {
    let mut p = Paginator::new(page(), CanvasMode::Paged);
    let (top, packed) =
        enter_padded_columns_band("cols", &mut p, &vec![Pt(30), Pt(30), Pt(30)], Pt(5), Pt(90), insets(5, 5)).unwrap();
    assert_eq!(top, Pt(10));
    assert_eq!(packed, Pt(40));
    let band = p.column_band.clone().unwrap();
    assert_eq!(band.band_top, Pt(15));
    assert_eq!(band.band_bottom, Pt(45));
    leave_padded_columns_band(&mut p, top, packed);
    assert!(p.column_band.is_none());
    assert_eq!(p.current_y, Pt(50));
}

#[test]
fn padded_columns_taller_than_a_page_are_rejected() {
    let mut p = Paginator::new(page(), CanvasMode::Paged);
    let err = enter_padded_columns_band("cols", &mut p, &vec![Pt(45), Pt(45)], Pt(10), Pt(300), insets(2, 3)).unwrap_err();
    assert_eq!(err, "UNSPLITTABLE_OVERFLOW: padded columns 'cols' height 155 exceeds page content height 100");
}

fn columns_node(count: u32, content: NodeContent) -> SemanticNode {
    SemanticNode {
        id: "c".into(),
        role: "section".into(),
        layout: Some(LayoutHint::Columns { count, gap: 10_000 }),
        content,
        ..Default::default()
    }
}

#[test]
fn columns_setup_resolves_equal_columns() {
    let theme = Theme::default();
    let ctx = LayoutContext::new(&theme);
    let node = columns_node(2, NodeContent::Container { children: vec![] });
    let setup = columns_setup(&node, Pt(100_000), &ctx).unwrap();
    assert_eq!(setup.widths, vec![Pt(45_000), Pt(45_000)]);
    assert_eq!(setup.measure_w, Pt(45_000));
    assert_eq!(setup.gap, Pt(10_000));
    let three = columns_node(3, NodeContent::Container { children: vec![] });
    let s3 = columns_setup(&three, Pt(100_001), &ctx).unwrap();
    assert_eq!(s3.widths.iter().map(|w| w.0).sum::<i128>(), 80_001);
    assert_eq!(s3.measure_w, Pt(26_667));
}

#[test]
fn columns_setup_rejects_bad_counts_and_leaf_content() {
    let theme = Theme::default();
    let ctx = LayoutContext::new(&theme);
    let five = columns_node(5, NodeContent::Container { children: vec![] });
    assert_eq!(columns_setup(&five, Pt(100_000), &ctx).unwrap_err(), "columns count must be 2..=4 on 'c' (got 5)");
    let leaf = columns_node(2, NodeContent::Text("x".into()));
    assert_eq!(
        columns_setup(&leaf, Pt(100_000), &ctx).unwrap_err(),
        "columns layout requires container content on 'c'"
    );
    let plain = SemanticNode { id: "c".into(), ..Default::default() };
    assert!(columns_setup(&plain, Pt(100_000), &ctx).is_err());
}

#[test]
fn unsplittable_block_moves_to_next_page_and_is_aligned() {
    let mut p = Paginator::new(page(), CanvasMode::Paged);
    let _ = p.allocate_space(Pt(70));
    let placed = place_unsplittable(
        "img",
        Size { width: Pt(40), height: Pt(50) },
        Pt(100),
        Align::End,
        CanvasMode::Paged,
        &mut p,
    )
    .unwrap();
    assert_eq!(placed.page, 1);
    assert_eq!(placed.pos.y, Pt(10));
    assert_eq!(placed.pos.x, Pt(70));
    assert_eq!(placed.width, Pt(40));
    assert_eq!(p.current_y, Pt(60));
}

#[test]
fn unsplittable_block_taller_than_a_page_is_rejected() {
    let mut p = Paginator::new(page(), CanvasMode::Paged);
    let err = place_unsplittable(
        "big",
        Size { width: Pt(40), height: Pt(150) },
        Pt(100),
        Align::Start,
        CanvasMode::Paged,
        &mut p,
    )
    .unwrap_err();
    assert_eq!(err, "UNSPLITTABLE_OVERFLOW: node 'big' height 150 exceeds page content height 100");
}

#[test]
fn unsplittable_block_on_infinite_canvas_goes_at_the_cursor() {
    let mut p = Paginator::new(page(), CanvasMode::Infinite);
    let _ = p.allocate_space(Pt(500));
    let placed = place_unsplittable(
        "big",
        Size { width: Pt(40), height: Pt(150) },
        Pt(100),
        Align::Stretch,
        CanvasMode::Infinite,
        &mut p,
    )
    .unwrap();
    assert_eq!(placed.pos.y, Pt(510));
    assert_eq!(placed.width, Pt(100));
    assert_eq!(p.current_y, Pt(660));
}

#[test]
fn keep_with_next_group_moves_together() {
    let mut p = Paginator::new(page(), CanvasMode::Paged);
    let _ = p.allocate_space(Pt(60));
    // 20 + 5 + 20 = 45 > 40 left.
    ensure_group_starts_together(&[Pt(20), Pt(20)], Pt(5), &mut p).unwrap();
    assert_eq!(p.current_page_index, 1);
    assert_eq!(p.current_y, Pt(10));
    // At the top nothing moves, however tall the group.
    ensure_group_starts_together(&[Pt(500)], Pt(5), &mut p).unwrap();
    assert_eq!(p.current_page_index, 1);

    let mut q = Paginator::new(page(), CanvasMode::Paged);
    let _ = q.allocate_space(Pt(60));
    ensure_group_starts_together(&[Pt(20), Pt(15)], Pt(5), &mut q).unwrap();
    assert_eq!(q.current_page_index, 0);
    assert_eq!(q.current_y, Pt(70));
}
