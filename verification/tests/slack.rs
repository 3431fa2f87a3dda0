use k2f_layout::model::{CanvasMode, GeometryNode, LayoutResult, Manifest, NodeContent, Page, PageConfig, RunningBlock, RunningBlockPosition, SemanticNode};
use k2f_layout::pt::Pt;
use k2f_layout::render_plan::{index_semantic_tree, inset_rect, NodeContentInfo, Rect, SemanticIndex};
use k2f_layout::resolved_style::EdgeInsets;
use k2f_layout::slack::{
    consider, consider_pages, find_geo, paints_own_box, running_ids, slack_for_box, LayoutDiag, LayoutDiagKind,
    GROWER_HINT, PAGE_HINT_ONE,
};
use k2f_layout::theme::Theme;

fn geo(id: &str, y: i128, h: i128, children: Vec<GeometryNode>) -> GeometryNode {
    GeometryNode {
        id: id.to_string(),
        x: Pt(0),
        y: Pt(y),
        width: Pt(100),
        height: Pt(h),
        glyphs: vec![],
        text_runs: vec![],
        fill_rects: vec![],
        children,
    }
}

fn zero() -> EdgeInsets {
    EdgeInsets::zero()
}

#[test]
fn slack_reports_unused_space_below_children() {
    let g = geo("box", 0, 1000, vec![geo("a", 0, 100, vec![]), geo("b", 100, 100, vec![])]);
    let d = slack_for_box("box", &g, zero(), false).unwrap();
    assert_eq!(d.kind, LayoutDiagKind::Slack);
    assert_eq!((d.unused_below.0, d.unused_above.0, d.inner_height.0), (800, 0, 1000));
    assert_eq!(d.after_id.as_deref(), Some("b"));
    assert_eq!(d.hint, GROWER_HINT);
    assert_eq!(d.unused_pct(), 80);
    assert!(d.to_text().starts_with("LAYOUT_SLACK id=box unused_below=800 (80%) unused_above=0 after=b"));
}

#[test]
fn slack_is_quiet_for_full_boxes_centered_content_and_leaves() {
    let full = geo("box", 0, 1000, vec![geo("a", 0, 950, vec![])]);
    assert!(slack_for_box("box", &full, zero(), false).is_none());
    let centered = geo("box", 0, 1000, vec![geo("a", 300, 400, vec![])]);
    assert!(slack_for_box("box", &centered, zero(), false).is_none());
    let leaf = geo("img", 0, 1000, vec![]);
    assert!(slack_for_box("img", &leaf, zero(), true).is_none());
    let empty = slack_for_box("shell", &leaf, zero(), false).unwrap();
    assert_eq!(empty.unused_below.0, 1000);
    assert!(paints_own_box(&NodeContent::Text("x".into())));
    assert!(!paints_own_box(&NodeContent::Container { children: vec![] }));
}

fn page(i: usize, children: Vec<GeometryNode>) -> Page {
    Page { index: i, width: Pt(100_000), height: Pt(100_000), root: geo(&format!("root_page_{i}"), 0, 100_000, children) }
}

fn manifest(running: Vec<RunningBlock>) -> Manifest {
    Manifest {
        title: "t".into(),
        canvas_mode: CanvasMode::Paged,
        page_config: PageConfig { width: Pt(100_000), height: Pt(100_000), margin: [Pt(0); 4] },
        root: SemanticNode { id: "root".into(), content: NodeContent::Container { children: vec![] }, ..Default::default() },
        running_blocks: running,
    }
}

#[test]
fn one_short_page_reports_underfill_and_running_blocks_are_ignored() {
    let footer = SemanticNode { id: "footer".into(), content: NodeContent::Text("p".into()), ..Default::default() };
    let m = manifest(vec![RunningBlock { position: RunningBlockPosition::Footer, node: footer }]);
    assert_eq!(running_ids(&m), vec!["footer".to_string()]);
    let layout = LayoutResult { pages: vec![page(0, vec![geo("body", 0, 20_000, vec![]), geo("footer", 95_000, 5_000, vec![])])] };
    let mut diags: Vec<LayoutDiag> = Vec::new();
    consider_pages(&m, &layout, &Theme::default(), &mut diags);
    assert_eq!(diags.len(), 1);
    assert_eq!(diags[0].kind, LayoutDiagKind::PageUnderfill);
    assert_eq!(diags[0].unused_below.0, 80_000);
    assert_eq!(diags[0].after_id.as_deref(), Some("body"));
    assert_eq!(diags[0].hint, PAGE_HINT_ONE);
    assert_eq!(diags[0].page, Some(0));
}

#[test]
fn last_page_of_a_flow_is_not_underfilled() {
    let m = manifest(vec![]);
    let layout = LayoutResult {
        pages: vec![page(0, vec![geo("a", 0, 99_000, vec![])]), page(1, vec![geo("b", 0, 10_000, vec![])])],
    };
    let mut diags = Vec::new();
    consider_pages(&m, &layout, &Theme::default(), &mut diags);
    assert!(diags.is_empty());
}

#[test]
fn consider_reports_once_per_node() {
    let layout = LayoutResult { pages: vec![page(0, vec![geo("shell", 0, 50_000, vec![geo("x", 0, 1_000, vec![])])])] };
    assert_eq!(find_geo(&layout, "x").map(|g| g.height), Some(Pt(1_000)));
    assert!(find_geo(&layout, "nope").is_none());
    let node = SemanticNode { id: "shell".into(), content: NodeContent::Container { children: vec![] }, ..Default::default() };
    let mut diags = Vec::new();
    let mut seen = Vec::new();
    consider(&node, &layout, &Theme::default(), &mut diags, &mut seen);
    consider(&node, &layout, &Theme::default(), &mut diags, &mut seen);
    assert_eq!(diags.len(), 1);
    assert_eq!(seen, vec!["shell".to_string()]);
}

#[test]
fn index_records_every_node_and_inset_shrinks_rects() {
    let tree = SemanticNode {
        id: "root".into(),
        role: "doc".into(),
        content: NodeContent::Container {
            children: vec![
                SemanticNode { id: "t".into(), role: "body".into(), content: NodeContent::Text("x".into()), ..Default::default() },
                SemanticNode {
                    id: "img".into(),
                    role: "figure".into(),
                    content: NodeContent::Image { src: "a.png".into(), width: Pt(1), height: Pt(1) },
                    ..Default::default()
                },
            ],
        },
        ..Default::default()
    };
    let mut idx = SemanticIndex::new();
    index_semantic_tree(&tree, &mut idx);
    assert_eq!(idx.get("root").unwrap().content, NodeContentInfo::Container);
    assert_eq!(idx.get("t").unwrap().role, "body");
    assert_eq!(idx.get("img").unwrap().content, NodeContentInfo::Image { src: "a.png".into() });
    assert!(idx.get("zzz").is_none());

    let r = inset_rect(
        Rect { x: Pt(10), y: Pt(20), width: Pt(100), height: Pt(5) },
        EdgeInsets { top: Pt(1), right: Pt(2), bottom: Pt(3), left: Pt(4) },
    );
    assert_eq!(r, Rect { x: Pt(14), y: Pt(21), width: Pt(94), height: Pt(1) });
}
