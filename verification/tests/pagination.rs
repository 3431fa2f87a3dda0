use k2f_layout::model::{CanvasMode, GeometryNode, PageConfig};
use k2f_layout::pagination::{content_height, content_width, validate_page_config, Paginator};
use k2f_layout::pt::Pt;

fn page() -> PageConfig {
    PageConfig {
        width: Pt(200_000),
        height: Pt(100_000),
        margin: [Pt(10_000), Pt(10_000), Pt(10_000), Pt(10_000)],
    }
}

fn item(id: &str) -> GeometryNode {
    GeometryNode {
        id: id.to_string(),
        x: Pt(0),
        y: Pt(0),
        width: Pt(1),
        height: Pt(1),
        glyphs: vec![],
        text_runs: vec![],
        fill_rects: vec![],
        children: vec![],
    }
}

#[test]
fn allocate_uses_column_x() {
    let mut p = Paginator::new(page(), CanvasMode::Paged);
    p.enter_column_band(Pt(10_000), vec![Pt(85_000), Pt(85_000)], Pt(10_000), Pt(10_000), Pt(90_000))
        .unwrap();
    let a = p.allocate_space(Pt(5_000));
    assert_eq!(a.x, Pt(10_000));
    assert_eq!(a.y, Pt(10_000));
    p.column_break().unwrap();
    let b = p.allocate_space(Pt(5_000));
    assert_eq!(b.x, Pt(105_000));
    assert_eq!(b.y, Pt(10_000));
}

#[test]
fn exit_band_uses_max_y() {
    let mut p = Paginator::new(page(), CanvasMode::Paged);
    p.enter_column_band(Pt(10_000), vec![Pt(85_000), Pt(85_000)], Pt(10_000), Pt(10_000), Pt(90_000))
        .unwrap();
    p.allocate_space(Pt(20_000));
    p.column_break().unwrap();
    p.allocate_space(Pt(5_000));
    p.exit_column_band();
    assert_eq!(p.current_y, Pt(30_000));
    assert!(!p.in_column_band());
}

#[test]
fn last_column_break_starts_new_page() {
    let mut p = Paginator::new(page(), CanvasMode::Paged);
    p.enter_column_band(Pt(10_000), vec![Pt(85_000), Pt(85_000)], Pt(10_000), Pt(10_000), Pt(90_000))
        .unwrap();
    p.column_break().unwrap();
    let paged = p.column_break().unwrap();
    assert!(paged);
    assert_eq!(p.pages.len(), 2);
    assert!(p.in_column_band());
    assert_eq!(p.column_band.as_ref().unwrap().col, 0);
}

#[test]
fn content_box_excludes_margins() {
    assert_eq!(content_width(&page()), Pt(180_000));
    assert_eq!(content_height(&page()), Pt(80_000));
}

#[test]
fn page_config_validation_reports_each_problem() {
    assert!(validate_page_config(&page()).is_ok());
    let mut bad = page();
    bad.width = Pt(0);
    assert!(validate_page_config(&bad).unwrap_err().contains("width"));
    let mut bad = page();
    bad.margin[2] = Pt(-1);
    assert!(validate_page_config(&bad).unwrap_err().contains("margin.bottom"));
    let mut bad = page();
    bad.margin[1] = Pt(195_000);
    assert!(validate_page_config(&bad).unwrap_err().contains("content_width"));
    let mut bad = page();
    bad.margin[0] = Pt(95_000);
    assert!(validate_page_config(&bad).unwrap_err().contains("content_height"));
}

#[test]
fn paged_allocation_breaks_to_a_new_page_when_full() {
    let mut p = Paginator::new(page(), CanvasMode::Paged);
    let a = p.allocate_space(Pt(60_000));
    assert_eq!((a.x, a.y), (Pt(10_000), Pt(10_000)));
    p.add_item(item("a"));
    let b = p.allocate_space(Pt(30_000));
    assert_eq!((b.x, b.y), (Pt(10_000), Pt(10_000)));
    assert_eq!(p.pages.len(), 2);
    assert_eq!(p.current_page_index, 1);
    assert_eq!(p.current_y, Pt(40_000));
    assert_eq!(p.pages[1].root.id, "root_page_1");
    assert_eq!(p.pages[0].root.children.len(), 1);
}

#[test]
fn infinite_canvas_grows_the_single_page() {
    let mut p = Paginator::new(page(), CanvasMode::Infinite);
    p.allocate_space(Pt(500_000));
    assert_eq!(p.pages.len(), 1);
    assert_eq!(p.pages[0].height, Pt(520_000));
    assert_eq!(p.pages[0].root.height, Pt(520_000));
    assert_eq!(p.remaining_height(), Pt(i128::MAX));
}

#[test]
fn remaining_height_and_top_tracking() {
    let mut p = Paginator::new(page(), CanvasMode::Paged);
    assert!(p.at_content_top());
    assert_eq!(p.remaining_height(), Pt(80_000));
    assert_eq!(p.page_content_height(), Pt(80_000));
    p.allocate_space(Pt(30_000));
    assert!(!p.at_content_top());
    assert_eq!(p.remaining_height(), Pt(50_000));
    assert_eq!(p.remaining_page_height(), Pt(50_000));
    assert_eq!(p.content_left(), Pt(10_000));
    assert_eq!(p.page_bottom_limit(), Pt(90_000));
}

#[test]
fn band_rejects_inverted_bounds_and_empty_columns() {
    let mut p = Paginator::new(page(), CanvasMode::Paged);
    assert!(p.enter_column_band(Pt(0), vec![], Pt(0), Pt(10_000), Pt(20_000)).is_err());
    assert!(p.enter_column_band(Pt(0), vec![Pt(1)], Pt(0), Pt(20_000), Pt(10_000)).is_err());
    assert!(!p.in_column_band());
    assert!(p.column_break().is_err());
}

#[test]
fn page_break_is_a_no_op_on_infinite_canvas() {
    let mut p = Paginator::new(page(), CanvasMode::Infinite);
    p.page_break();
    assert_eq!(p.pages.len(), 1);
}
