use k2f_layout::layout_context::{LayoutContext, Point, Size};
use k2f_layout::model::{
    CanvasMode, GridTrack, Manifest, NodeContent, PageConfig, RunningBlock, RunningBlockPosition, SemanticNode,
    TableDataSource, TableSpec,
};
use k2f_layout::pt::Pt;
use k2f_layout::running_blocks::{
    check_running_block_fits, place_running_block, replace_text, running_band, running_block_room,
    running_blocks_wanted, substitute_page_numbers, substitute_placeholders_in_node,
};
use k2f_layout::theme::Theme;

fn text(id: &str, t: &str) -> SemanticNode {
    SemanticNode { id: id.into(), role: "body".into(), content: NodeContent::Text(t.into()), ..Default::default() }
}

fn page() -> PageConfig {
    PageConfig { width: Pt(200_000), height: Pt(100_000), margin: [Pt(10_000), Pt(7_000), Pt(15_000), Pt(11_000)] }
}

#[test]
fn replace_text_replaces_every_occurrence_left_to_right() {
    assert_eq!(replace_text("a-b-c", "-", "+="), "a+=b+=c");
    assert_eq!(replace_text("aaa", "aa", "b"), "ba");
    assert_eq!(replace_text("none here", "{{x}}", "1"), "none here");
    assert_eq!(replace_text("", "x", "y"), "");
}

#[test]
fn page_numbers_are_substituted() {
    assert_eq!(substitute_page_numbers("Page {{page_current}} of {{page_total}}", 3, 12), "Page 3 of 12");
    assert_eq!(substitute_page_numbers("{{page_total}}/{{page_total}}", 1, 2), "2/2");
    assert_eq!(substitute_page_numbers("{{page_current", 1, 2), "{{page_current");
}

#[test]
fn placeholders_are_substituted_through_containers_and_table_cells() {
    let table = SemanticNode {
        id: "t".into(),
        content: NodeContent::Table(TableSpec {
            column_widths: vec![GridTrack::Fr { fr: 1 }],
            header_rows: 0,
            data: TableDataSource::Inline { rows: vec![vec![text("cell", "p{{page_current}}")]] },
            gap: 0,
            row_gap: None,
            column_gap: None,
        }),
        ..Default::default()
    };
    let mut block = SemanticNode {
        id: "footer".into(),
        role: "footer".into(),
        content: NodeContent::Container { children: vec![text("a", "{{page_current}} / {{page_total}}"), table] },
        ..Default::default()
    };
    substitute_placeholders_in_node(&mut block, 2, 5);
    assert_eq!(block.id, "footer");
    let children = match &block.content {
        NodeContent::Container { children } => children,
        _ => panic!("container expected"),
    };
    assert_eq!(children[0].content, NodeContent::Text("2 / 5".into()));
    assert_eq!(children[0].id, "a");
    match &children[1].content {
        NodeContent::Table(spec) => match &spec.data {
            TableDataSource::Inline { rows } => assert_eq!(rows[0][0].content, NodeContent::Text("p2".into())),
            _ => panic!("inline rows expected"),
        },
        _ => panic!("table expected"),
    }
}

#[test]
fn running_blocks_need_fixed_pages() {
    let mut manifest = Manifest {
        title: "t".into(),
        canvas_mode: CanvasMode::Infinite,
        page_config: page(),
        root: SemanticNode::default(),
        running_blocks: vec![],
    };
    assert_eq!(running_blocks_wanted(&manifest), Ok(false));
    manifest.running_blocks.push(RunningBlock { position: RunningBlockPosition::Footer, node: text("f", "x") });
    assert_eq!(
        running_blocks_wanted(&manifest).unwrap_err(),
        "running blocks are only supported when canvas_mode is 'paged'"
    );
    manifest.canvas_mode = CanvasMode::Paged;
    assert_eq!(running_blocks_wanted(&manifest), Ok(true));
}

#[test]
fn bands_run_through_the_top_and_bottom_margins() {
    assert_eq!(running_band(RunningBlockPosition::Header, &page()), (Pt(0), Pt(10_000)));
    assert_eq!(running_band(RunningBlockPosition::Footer, &page()), (Pt(85_000), Pt(100_000)));
}

#[test]
fn a_footer_is_placed_at_the_band_start_and_advances_the_cursor() {
    let theme = Theme::default();
    let ctx = LayoutContext::new(&theme);
    let (start, end) = running_band(RunningBlockPosition::Footer, &page());
    assert_eq!(running_block_room(RunningBlockPosition::Footer, start, end, 1), Ok(Pt(15_000)));
    let node = text("rb_footer", "Page 1");
    let (pos, size, next) = place_running_block(&node, start, Pt(11_000), Pt(182_000), Size::new(Pt(40_000), Pt(9_000)), &ctx);
    assert_eq!(pos, Point::new(Pt(11_000), Pt(85_000)));
    assert_eq!(size, Size::new(Pt(40_000), Pt(9_000)));
    assert_eq!(next, Pt(94_000));
    assert_eq!(check_running_block_fits(RunningBlockPosition::Footer, next, end, 1), Ok(()));
}

#[test]
fn overflowing_bands_are_refused() {
    assert_eq!(
        check_running_block_fits(RunningBlockPosition::Header, Pt(12_000), Pt(10_000), 3).unwrap_err(),
        "running block overflow: position Header exceeds band height on page 3"
    );
    assert_eq!(
        running_block_room(RunningBlockPosition::Footer, Pt(101_000), Pt(100_000), 2).unwrap_err(),
        "running block overflow: position Footer has no remaining band height on page 2"
    );
}
