use k2f_layout::model::{Align, CanvasMode, PageConfig};
use k2f_layout::pagination::Paginator;
use k2f_layout::place::{place_splittable_text, TextPlacement};
use k2f_layout::pt::Pt;
use k2f_layout::text_frag::TextPages;
use k2f_layout::text_types::{TextLayout, TextLine};

fn text_block(heights: &[i128], outer_w: i128) -> TextPages {
    TextPages {
        layout: TextLayout {
            lines: heights.iter().map(|h| TextLine { runs: vec![], width: Pt(0), height: Pt(*h) }).collect(),
            width: Pt(0),
            height: Pt(0),
        },
        padding_top: Pt(0),
        padding_bottom: Pt(0),
        padding_left: Pt(0),
        inner_w: Pt(outer_w),
        outer_w: Pt(outer_w),
        first_line_indent: Pt(0),
    }
}

fn page() -> PageConfig {
    // Content area 100 x 100 starting at (10, 10).
    PageConfig { width: Pt(120), height: Pt(120), margin: [Pt(10), Pt(10), Pt(10), Pt(10)] }
}

fn fragments(p: TextPlacement) -> Vec<(usize, usize, i128, i128, usize)> {
    match p {
        TextPlacement::Fragments(fs) => fs.iter().map(|f| (f.start, f.end, f.pos.x.0, f.pos.y.0, f.page)).collect(),
        TextPlacement::Unsplittable => panic!("expected fragments"),
    }
}

#[test]
fn text_that_fits_goes_whole_below_the_cursor() {
    let mut p = Paginator::new(page(), CanvasMode::Paged);
    let _ = p.allocate_space(Pt(30));
    let placed = place_splittable_text("t", &text_block(&[20, 20], 100), Pt(100), Align::Start, &mut p).unwrap();
    assert_eq!(fragments(placed), vec![(0, 2, 10, 40, 0)]);
    assert_eq!(p.current_y, Pt(80));
}

#[test]
fn text_that_fits_an_empty_page_moves_whole() {
    let mut p = Paginator::new(page(), CanvasMode::Paged);
    let _ = p.allocate_space(Pt(70));
    let placed = place_splittable_text("t", &text_block(&[20, 20], 100), Pt(100), Align::Start, &mut p).unwrap();
    assert_eq!(fragments(placed), vec![(0, 2, 10, 10, 1)]);
    assert_eq!(p.pages.len(), 2);
}

#[test]
fn long_text_splits_between_lines_using_remaining_space() {
    let mut p = Paginator::new(page(), CanvasMode::Paged);
    let _ = p.allocate_space(Pt(50));
    // 6 lines of 20: 2 fit below the cursor, then 5 per page... 4 more on the next page.
    let placed = place_splittable_text("t", &text_block(&[20; 6], 100), Pt(100), Align::Start, &mut p).unwrap();
    assert_eq!(fragments(placed), vec![(0, 2, 10, 60, 0), (2, 6, 10, 10, 1)]);
    assert_eq!(p.current_y, Pt(90));
}

#[test]
fn narrow_text_is_aligned_and_keeps_its_width() {
    let mut p = Paginator::new(page(), CanvasMode::Paged);
    let placed = place_splittable_text("t", &text_block(&[20], 40), Pt(100), Align::Center, &mut p).unwrap();
    match placed {
        TextPlacement::Fragments(fs) => {
            assert_eq!(fs[0].pos.x, Pt(40));
            assert_eq!(fs[0].width, Pt(40));
        }
        TextPlacement::Unsplittable => panic!("expected fragments"),
    }
}

#[test]
fn zero_width_text_takes_the_content_width() {
    let mut p = Paginator::new(page(), CanvasMode::Paged);
    let placed = place_splittable_text("t", &text_block(&[20], 0), Pt(100), Align::Start, &mut p).unwrap();
    match placed {
        TextPlacement::Fragments(fs) => assert_eq!(fs[0].width, Pt(100)),
        TextPlacement::Unsplittable => panic!("expected fragments"),
    }
}

#[test]
fn line_taller_than_a_page_is_rejected() {
    let mut p = Paginator::new(page(), CanvasMode::Paged);
    let err = place_splittable_text("para", &text_block(&[50, 150], 100), Pt(100), Align::Start, &mut p).unwrap_err();
    assert_eq!(err, "UNSPLITTABLE_OVERFLOW: text 'para' line 1 taller than a page");
}

#[test]
fn text_in_a_band_splits_across_columns() {
    let mut p = Paginator::new(page(), CanvasMode::Paged);
    p.enter_column_band(Pt(10), vec![Pt(45), Pt(45)], Pt(10), Pt(10), Pt(50)).unwrap();
    // Band height 40: two lines per column.
    let placed = place_splittable_text("t", &text_block(&[20; 3], 45), Pt(45), Align::Start, &mut p).unwrap();
    assert_eq!(fragments(placed), vec![(0, 2, 10, 10, 0), (2, 3, 65, 10, 0)]);
}

#[test]
fn empty_text_that_does_not_fit_is_left_unsplittable() {
    let mut block = text_block(&[], 100);
    block.padding_top = Pt(200);
    let mut p = Paginator::new(page(), CanvasMode::Paged);
    let placed = place_splittable_text("t", &block, Pt(100), Align::Start, &mut p).unwrap();
    assert_eq!(placed, TextPlacement::Unsplittable);
    assert_eq!(p.current_y, Pt(10));
}
