use k2f_layout::layout_context::LayoutContext;
use k2f_layout::model::{
    Align, CanvasMode, GridTrack, NodeContent, PageConfig, SemanticNode, TableDataSource, TableSpec,
};
use k2f_layout::pagination::Paginator;
use k2f_layout::pt::Pt;
use k2f_layout::table_pagination::{paginate_table_root_flow_paged, table_fragment_width};
use k2f_layout::theme::Theme;

fn two_row_page() -> PageConfig {
    PageConfig { width: Pt(100_000), height: Pt(60_000), margin: [Pt(0), Pt(0), Pt(0), Pt(0)] }
}

fn rows_of(frag_rows: &[usize]) -> Vec<usize> {
    frag_rows.to_vec()
}

#[test]
fn test_strict_table_paged_splits_on_row_boundaries() {
    // 1 column, 5 rows, each row 30pt tall; the page content fits exactly 2 rows.
    let heights = vec![Pt(30_000); 5];
    let mut p = Paginator::new(two_row_page(), CanvasMode::Paged);
    let frags = paginate_table_root_flow_paged("tbl", &heights, 0, Pt(0), Pt(0), &mut p).unwrap();
    assert_eq!(p.pages.len(), 3);
    assert_eq!(frags.len(), 3);
    assert_eq!(frags[0].page, 0);
    assert_eq!(frags[1].page, 1);
    assert_eq!(frags[2].page, 2);

    // Row distribution: 2, 2, 1, in row-major order.
    assert_eq!(rows_of(&frags[0].rows), vec![0, 1]);
    assert_eq!(rows_of(&frags[1].rows), vec![2, 3]);
    assert_eq!(rows_of(&frags[2].rows), vec![4]);

    // Each fragment starts at the top of its page.
    for f in &frags {
        assert_eq!(f.pos.y, Pt(0));
        assert_eq!(f.pos.x, Pt(0));
    }
    assert_eq!(frags[0].height, Pt(60_000));
    assert_eq!(frags[2].height, Pt(30_000));
    assert_eq!(frags[0].heights, vec![Pt(30_000), Pt(30_000)]);
}

#[test]
fn test_strict_table_paged_repeats_header_rows() {
    // 1 header row + 4 body rows, each 30pt tall: each continuation page holds the header
    // and one body row.
    let heights = vec![Pt(30_000); 5];
    let mut p = Paginator::new(two_row_page(), CanvasMode::Paged);
    let frags = paginate_table_root_flow_paged("tbl", &heights, 1, Pt(0), Pt(0), &mut p).unwrap();
    assert_eq!(p.pages.len(), 4);
    assert_eq!(frags.len(), 4);
    for (page_idx, f) in frags.iter().enumerate() {
        assert_eq!(f.page, page_idx);
        assert_eq!(f.rows.len(), 2, "page {} should contain 2 rows (header + 1 body)", page_idx);
        // First row is always the header row (repeated after the first page too).
        assert_eq!(f.rows[0], 0);
    }
    assert_eq!(frags[0].rows[1], 1);
    assert_eq!(frags[1].rows[1], 2);
    assert_eq!(frags[2].rows[1], 3);
    assert_eq!(frags[3].rows[1], 4);
}

#[test]
fn table_gap_and_padding_count_toward_fragment_height() {
    // Content height 100pt; rows of 30pt with a 5pt gap and 10pt of padding:
    // 10 + 30 + 5 + 30 = 75 fits, adding a third row needs 110.
    let page = PageConfig { width: Pt(100_000), height: Pt(120_000), margin: [Pt(10_000), Pt(0), Pt(10_000), Pt(0)] };
    let mut p = Paginator::new(page, CanvasMode::Paged);
    let heights = vec![Pt(30_000), Pt(30_000), Pt(30_000)];
    let frags = paginate_table_root_flow_paged("t", &heights, 0, Pt(5_000), Pt(10_000), &mut p).unwrap();
    assert_eq!(frags.len(), 2);
    assert_eq!(frags[0].rows, vec![0, 1]);
    assert_eq!(frags[0].height, Pt(75_000));
    assert_eq!(frags[0].pos.y, Pt(10_000));
    assert_eq!(frags[1].rows, vec![2]);
    assert_eq!(frags[1].height, Pt(40_000));
    assert_eq!(frags[1].page, 1);
    assert_eq!(p.current_y, Pt(50_000));
}

#[test]
fn table_moves_to_next_page_when_first_row_does_not_fit_mid_page() {
    let mut p = Paginator::new(two_row_page(), CanvasMode::Paged);
    let _ = p.allocate_space(Pt(40_000));
    let heights = vec![Pt(30_000)];
    let frags = paginate_table_root_flow_paged("t", &heights, 0, Pt(0), Pt(0), &mut p).unwrap();
    assert_eq!(frags.len(), 1);
    assert_eq!(frags[0].page, 1);
    assert_eq!(frags[0].pos.y, Pt(0));
    assert_eq!(p.pages.len(), 2);
}

#[test]
fn table_row_taller_than_page_is_rejected() {
    let mut p = Paginator::new(two_row_page(), CanvasMode::Paged);
    let heights = vec![Pt(10_000), Pt(70_000)];
    let err = paginate_table_root_flow_paged("big", &heights, 0, Pt(0), Pt(0), &mut p).unwrap_err();
    assert_eq!(err, "Table 'big' row 1 does not fit on a page (cannot paginate on row boundaries)");
}

#[test]
fn row_that_cannot_follow_repeated_headers_is_rejected() {
    // Header 40pt plus the 50pt row only fits a page without repetition.
    let mut p = Paginator::new(two_row_page(), CanvasMode::Paged);
    let heights = vec![Pt(40_000), Pt(20_000), Pt(50_000)];
    let err = paginate_table_root_flow_paged("hdr", &heights, 1, Pt(0), Pt(0), &mut p).unwrap_err();
    assert_eq!(err, "Table 'hdr' row 2 does not fit on a page (cannot paginate on row boundaries)");

    let mut q = Paginator::new(two_row_page(), CanvasMode::Paged);
    let tall_header = vec![Pt(50_000), Pt(5_000), Pt(5_000), Pt(10_000)];
    let frags = paginate_table_root_flow_paged("hdr", &tall_header, 1, Pt(0), Pt(0), &mut q).unwrap();
    assert_eq!(frags.len(), 2);
    assert_eq!(frags[0].rows, vec![0, 1, 2]);
    assert_eq!(frags[1].rows, vec![0, 3]);
    assert_eq!(frags[1].heights, vec![Pt(50_000), Pt(10_000)]);
    assert_eq!(frags[1].height, Pt(60_000));
}

#[test]
fn table_outside_paged_mode_is_rejected() {
    let mut p = Paginator::new(two_row_page(), CanvasMode::Infinite);
    let heights = vec![Pt(10_000)];
    assert!(paginate_table_root_flow_paged("t", &heights, 0, Pt(0), Pt(0), &mut p).is_err());
    assert_eq!(p.pages.len(), 1);
}

#[test]
fn empty_table_is_one_padded_box() {
    let mut p = Paginator::new(two_row_page(), CanvasMode::Paged);
    let frags = paginate_table_root_flow_paged("t", &[], 0, Pt(0), Pt(8_000), &mut p).unwrap();
    assert_eq!(frags.len(), 1);
    assert!(frags[0].rows.is_empty());
    assert_eq!(frags[0].height, Pt(8_000));
    assert_eq!(p.current_y, Pt(8_000));
}

fn table_node(tracks: Vec<GridTrack>, data: TableDataSource) -> SemanticNode {
    SemanticNode {
        id: "tbl".into(),
        role: "table".into(),
        content: NodeContent::Table(TableSpec {
            column_widths: tracks,
            header_rows: 0,
            data,
            gap: 2_000,
            row_gap: None,
            column_gap: None,
        }),
        ..Default::default()
    }
}

#[test]
fn table_width_centers_natural_columns() {
    let theme = Theme::default();
    let ctx = LayoutContext::new(&theme);
    let node = table_node(
        vec![GridTrack::Pt { pt: 30_000 }, GridTrack::Pt { pt: 20_000 }],
        TableDataSource::Inline { rows: vec![] },
    );
    let g = table_fragment_width(&node, CanvasMode::Paged, Pt(100_000), Align::Center, &ctx).unwrap();
    // Natural width 30 + 2 + 20 = 52; centred in 100.
    assert_eq!(g.width, Pt(52_000));
    assert_eq!(g.dx, Pt(24_000));
    assert_eq!(g.col_sizes, vec![Pt(30_000), Pt(20_000)]);

    let s = table_fragment_width(&node, CanvasMode::Paged, Pt(100_000), Align::Stretch, &ctx).unwrap();
    assert_eq!(s.width, Pt(100_000));
    assert_eq!(s.dx, Pt(0));
}

#[test]
fn table_width_fr_columns_fill_fragment() {
    let theme = Theme::default();
    let ctx = LayoutContext::new(&theme);
    let node = table_node(
        vec![GridTrack::Pt { pt: 20_000 }, GridTrack::Fr { fr: 1 }],
        TableDataSource::Inline { rows: vec![] },
    );
    let g = table_fragment_width(&node, CanvasMode::Paged, Pt(100_000), Align::Start, &ctx).unwrap();
    assert_eq!(g.width, Pt(100_000));
    assert_eq!(g.col_sizes, vec![Pt(20_000), Pt(78_000)]);
}

#[test]
fn table_width_rejects_asset_rows_and_other_modes() {
    let theme = Theme::default();
    let ctx = LayoutContext::new(&theme);
    let asset = table_node(vec![GridTrack::Pt { pt: 10_000 }], TableDataSource::Asset { source: "t.csv".into() });
    let err = table_fragment_width(&asset, CanvasMode::Paged, Pt(100_000), Align::Start, &ctx).unwrap_err();
    assert_eq!(err, "Table 'tbl' uses asset-backed data source 't.csv'. Compile must expand assets before pagination/layout.");
    let inline = table_node(vec![GridTrack::Pt { pt: 10_000 }], TableDataSource::Inline { rows: vec![] });
    assert!(table_fragment_width(&inline, CanvasMode::Infinite, Pt(100_000), Align::Start, &ctx).is_err());
    let text = SemanticNode { content: NodeContent::Text("x".into()), ..Default::default() };
    assert!(table_fragment_width(&text, CanvasMode::Paged, Pt(100_000), Align::Start, &ctx).is_err());
    let auto = table_node(vec![GridTrack::Auto { auto: true }], TableDataSource::Inline { rows: vec![] });
    assert!(table_fragment_width(&auto, CanvasMode::Paged, Pt(100_000), Align::Start, &ctx).is_err());
}
