use k2f_layout::model::{
    CanvasMode, FillRect, GeometryNode, LayoutResult, Manifest, NodeContent, Page, PageConfig, RunningBlock,
    RunningBlockPosition, SemanticNode, TextGlyphRun,
};
use k2f_layout::pt::Pt;
use k2f_layout::render_plan::{build_render_plan, PaintOp, Rect};
use k2f_layout::style::TextAlign;
use k2f_layout::theme::{
    resolve_palette_color, resolve_theme_decoration, ModifierTheme, RoleStyle, RoleVariant, Theme, ThemeDecoration,
    ThemePrimitives,
};
use k2f_layout::visual_primitives::{
    Blur, BlurRef, BoxDecoration, EdgeInsetsPt, Fill, FillRef, Shadow, ShadowLayer, ShadowRef,
};

fn role(variants: Vec<(String, RoleVariant)>, decoration: Option<ThemeDecoration>) -> RoleStyle {
    RoleStyle {
        font_family: "default".to_string(),
        font_size: Pt(12_000),
        line_height_mult: 1_200,
        color: "black".to_string(),
        text_align: TextAlign::Start,
        self_align: None,
        box_decoration: decoration,
        list_style: None,
        bold: false,
        italic: false,
        letter_spacing_pt: Pt(0),
        first_line_indent_pt: Pt(0),
        variants,
    }
}

fn variant_with_background(name: &str, surface: &str) -> (String, RoleVariant) {
    (
        name.to_string(),
        RoleVariant {
            box_decoration: Some(BoxDecoration {
                background: Some(FillRef::Ref(surface.to_string())),
                ..BoxDecoration::default()
            }),
            ..RoleVariant::default()
        },
    )
}

fn theme(roles: Vec<(String, RoleStyle)>, surfaces: Vec<(String, Fill)>) -> Theme {
    Theme {
        palette: vec![("black".to_string(), "#000000".to_string())],
        roles,
        modifiers: ModifierTheme::default(),
        font_aliases: vec![],
        primitives: ThemePrimitives { surfaces, shadows: vec![], blurs: vec![] },
    }
}

fn node(id: &str, role: &str, variant: Option<&str>, content: NodeContent) -> SemanticNode {
    SemanticNode {
        id: id.to_string(),
        role: role.to_string(),
        variant: variant.map(|v| v.to_string()),
        content,
        ..SemanticNode::default()
    }
}

fn geo(id: &str, x: i128, y: i128, w: i128, h: i128, children: Vec<GeometryNode>) -> GeometryNode {
    GeometryNode {
        id: id.to_string(),
        x: Pt(x),
        y: Pt(y),
        width: Pt(w),
        height: Pt(h),
        glyphs: vec![],
        text_runs: vec![],
        fill_rects: vec![],
        children,
    }
}

fn manifest(title: &str, root: SemanticNode, running_blocks: Vec<RunningBlock>) -> Manifest {
    Manifest {
        title: title.to_string(),
        canvas_mode: CanvasMode::Paged,
        page_config: PageConfig { width: Pt(100_000), height: Pt(200_000), margin: [Pt(0); 4] },
        root,
        running_blocks,
    }
}

fn one_page(children: Vec<GeometryNode>) -> LayoutResult {
    LayoutResult {
        pages: vec![Page {
            index: 0,
            width: Pt(100_000),
            height: Pt(200_000),
            root: geo("root_page_0", 0, 0, 100_000, 200_000, children),
        }],
    }
}

fn node_id(op: &PaintOp) -> &str {
    match op {
        PaintOp::DrawBox { node_id, .. } => node_id,
        PaintOp::BackdropBlur { node_id, .. } => node_id,
        PaintOp::DrawText { node_id, .. } => node_id,
        PaintOp::DrawImage { node_id, .. } => node_id,
        PaintOp::DrawTableReference { node_id, .. } => node_id,
    }
}

#[test]
fn page_background_op_is_emitted_first_when_root_has_decoration() {
    let m = manifest(
        "Background",
        node(
            "root",
            "document",
            Some("with_background"),
            NodeContent::Container {
                children: vec![node("child", "body", None, NodeContent::Text("hi".to_string()))],
            },
        ),
        vec![],
    );
    let t = theme(
        vec![
            ("default".to_string(), role(vec![], None)),
            ("body".to_string(), role(vec![], None)),
            (
                "document".to_string(),
                role(vec![variant_with_background("with_background", "global_background")], None),
            ),
        ],
        vec![("global_background".to_string(), Fill::Solid { color: "#FFFFFF".to_string() })],
    );
    let layout = one_page(vec![geo("child", 10_000, 10_000, 50_000, 20_000, vec![])]);

    let plan = build_render_plan(&m, &layout, &t).unwrap();
    let ops = &plan.pages[0].ops;

    assert!(!ops.is_empty());
    match &ops[0] {
        PaintOp::DrawBox { node_id, rect, decoration } => {
            assert_eq!(node_id, "root::page_0::background");
            assert_eq!(rect.width, Pt(100_000));
            assert_eq!(rect.height, Pt(200_000));
            assert!(decoration.background.is_some());
        },
        other => panic!("expected first op to be DrawBox, got {other:?}"),
    }
}

#[test]
fn overlay_stacking_preserves_source_order_in_ops() {
    let m = manifest(
        "Overlay",
        node(
            "root",
            "document",
            None,
            NodeContent::Container {
                children: vec![node(
                    "scene",
                    "document",
                    None,
                    NodeContent::Container {
                        children: vec![
                            node(
                                "img",
                                "body",
                                None,
                                NodeContent::Image {
                                    src: "asset://img".to_string(),
                                    width: Pt(50_000),
                                    height: Pt(50_000),
                                },
                            ),
                            node(
                                "card",
                                "card",
                                Some("glass"),
                                NodeContent::Container {
                                    children: vec![node("card_text", "body", None, NodeContent::Text("hi".to_string()))],
                                },
                            ),
                        ],
                    },
                )],
            },
        ),
        vec![],
    );
    let t = theme(
        vec![
            ("default".to_string(), role(vec![], None)),
            ("body".to_string(), role(vec![], None)),
            ("document".to_string(), role(vec![], None)),
            ("card".to_string(), role(vec![variant_with_background("glass", "glass_surface")], None)),
        ],
        vec![("glass_surface".to_string(), Fill::Solid { color: "#FFFFFFCC".to_string() })],
    );
    let layout = one_page(vec![geo(
        "scene",
        0,
        0,
        60_000,
        60_000,
        vec![
            geo("img", 0, 0, 50_000, 50_000, vec![]),
            geo("card", 0, 0, 40_000, 30_000, vec![geo("card_text", 0, 0, 10_000, 10_000, vec![])]),
        ],
    )]);

    let plan = build_render_plan(&m, &layout, &t).unwrap();
    let ops = &plan.pages[0].ops;

    let img_op_idx =
        ops.iter().position(|op| matches!(op, PaintOp::DrawImage { node_id, .. } if node_id == "img")).unwrap();
    let card_box_idx =
        ops.iter().position(|op| matches!(op, PaintOp::DrawBox { node_id, .. } if node_id == "card")).unwrap();
    assert!(img_op_idx < card_box_idx, "expected image to paint before glass card box");
}

#[test]
fn running_block_semantics_are_indexed_for_painting() {
    let m = manifest(
        "RB",
        node("root", "document", None, NodeContent::Container { children: vec![] }),
        vec![RunningBlock {
            position: RunningBlockPosition::Footer,
            node: node("rb", "body", None, NodeContent::Text("hello".to_string())),
        }],
    );
    let t = theme(
        vec![
            ("default".to_string(), role(vec![], None)),
            ("body".to_string(), role(vec![], None)),
            ("document".to_string(), role(vec![], None)),
        ],
        vec![],
    );
    let layout = one_page(vec![geo("rb", 10_000, 10_000, 50_000, 20_000, vec![])]);

    let plan = build_render_plan(&m, &layout, &t).unwrap();
    let ops = &plan.pages[0].ops;
    assert!(
        ops.iter().any(|op| matches!(op, PaintOp::DrawText { node_id, .. } if node_id == "rb")),
        "expected running block geometry id 'rb' to produce a DrawText op"
    );
}

#[test]
fn unknown_surface_is_an_error() {
    let m = manifest("Missing", node("root", "document", Some("bg"), NodeContent::Container { children: vec![] }), vec![]);
    let t = theme(vec![("document".to_string(), role(vec![variant_with_background("bg", "nowhere")], None))], vec![]);
    let err = build_render_plan(&m, &one_page(vec![]), &t).unwrap_err();
    assert_eq!(err, "Unknown surface 'nowhere'");
}

#[test]
fn glass_blur_paints_backdrop_then_box() {
    let deco = BoxDecoration {
        background: Some(FillRef::Inline(Fill::Solid { color: "#FFFFFF80".to_string() })),
        corner_radius_pt: Some(4_000),
        blur: Some(BlurRef::Ref("frost".to_string())),
        padding_pt: Some(EdgeInsetsPt::Uniform(1_000)),
        ..BoxDecoration::default()
    };
    let m = manifest(
        "Glass",
        node(
            "root",
            "document",
            None,
            NodeContent::Container { children: vec![node("pane", "pane", None, NodeContent::Container { children: vec![] })] },
        ),
        vec![],
    );
    let mut t = theme(
        vec![("document".to_string(), role(vec![], None)), ("pane".to_string(), role(vec![], Some(deco)))],
        vec![],
    );
    t.primitives.blurs = vec![("frost".to_string(), Blur { radius_pt: 8_000 })];
    let plan = build_render_plan(&m, &one_page(vec![geo("pane", 1, 2, 30, 40, vec![])]), &t).unwrap();
    let ops = &plan.pages[0].ops;
    assert_eq!(ops.len(), 2);
    assert_eq!(
        ops[0],
        PaintOp::BackdropBlur {
            node_id: "pane".to_string(),
            rect: Rect { x: Pt(1), y: Pt(2), width: Pt(30), height: Pt(40) },
            radius_pt: 8_000,
            corner_radius_pt: Some(4_000),
        }
    );
    match &ops[1] {
        PaintOp::DrawBox { node_id, decoration, .. } => {
            assert_eq!(node_id, "pane");
            assert_eq!(decoration.blur, None);
            assert_eq!(decoration.padding_pt, None);
            assert_eq!(decoration.corner_radius_pt, Some(4_000));
        },
        other => panic!("expected DrawBox, got {other:?}"),
    }
}

#[test]
fn image_paints_inside_padding_and_text_after_rules() {
    let padded = BoxDecoration { padding_pt: Some(EdgeInsetsPt::Uniform(1_000)), ..BoxDecoration::default() };
    let m = manifest(
        "Content",
        node(
            "root",
            "document",
            None,
            NodeContent::Container {
                children: vec![
                    node(
                        "pic",
                        "figure",
                        None,
                        NodeContent::Image { src: "asset://pic".to_string(), width: Pt(1), height: Pt(1) },
                    ),
                    node("eq", "body", None, NodeContent::Math("x".to_string())),
                ],
            },
        ),
        vec![],
    );
    let t = theme(
        vec![
            ("default".to_string(), role(vec![], None)),
            ("document".to_string(), role(vec![], None)),
            ("figure".to_string(), role(vec![], Some(padded))),
        ],
        vec![],
    );
    let mut eq = geo("eq", 0, 50_000, 20_000, 10_000, vec![]);
    eq.fill_rects = vec![FillRect { x: Pt(1), y: Pt(2), width: Pt(3), height: Pt(4) }];
    eq.text_runs = vec![TextGlyphRun { glyph_range: [0, 1], style: "s".to_string() }];
    let layout = LayoutResult {
        pages: vec![Page {
            index: 7,
            width: Pt(100_000),
            height: Pt(200_000),
            root: geo("root_page_7", 0, 0, 100_000, 200_000, vec![geo("pic", 10_000, 10_000, 5_000, 1_500, vec![]), eq]),
        }],
    };
    let plan = build_render_plan(&m, &layout, &t).unwrap();
    assert_eq!(plan.pages.len(), 1);
    assert_eq!(plan.pages[0].index, 7);
    let ops = &plan.pages[0].ops;
    let ids: Vec<&str> = ops.iter().map(node_id).collect();
    assert_eq!(ids, vec!["pic", "eq::rule_0", "eq"]);
    assert_eq!(
        ops[0],
        PaintOp::DrawImage {
            node_id: "pic".to_string(),
            rect: Rect { x: Pt(11_000), y: Pt(11_000), width: Pt(3_000), height: Pt(0) },
            src: "asset://pic".to_string(),
        }
    );
    match &ops[1] {
        PaintOp::DrawBox { rect, decoration, .. } => {
            assert_eq!(*rect, Rect { x: Pt(1), y: Pt(2), width: Pt(3), height: Pt(4) });
            assert_eq!(decoration.background, Some(FillRef::Inline(Fill::Solid { color: "#000000".to_string() })));
        },
        other => panic!("expected DrawBox, got {other:?}"),
    }
    match &ops[2] {
        PaintOp::DrawText { runs, .. } => assert_eq!(runs.len(), 1),
        other => panic!("expected DrawText, got {other:?}"),
    }
}

#[test]
fn palette_and_primitive_resolution() {
    let mut t = theme(vec![], vec![("paper".to_string(), Fill::Solid { color: "#EEE".to_string() })]);
    t.primitives.shadows = vec![(
        "lift".to_string(),
        Shadow {
            layers: vec![ShadowLayer {
                offset_x_pt: 0,
                offset_y_pt: 1,
                blur_radius_pt: 2,
                spread_radius_pt: 0,
                color: "black".to_string(),
            }],
        },
    )];
    assert_eq!(resolve_palette_color("black", &t), "#000000");
    assert_eq!(resolve_palette_color("#123456", &t), "#123456");
    let named = BoxDecoration {
        background: Some(FillRef::Ref("paper".to_string())),
        shadow: Some(ShadowRef::Ref("lift".to_string())),
        ..BoxDecoration::default()
    };
    let d = resolve_theme_decoration(&named, &t).unwrap();
    assert_eq!(d.background, Some(FillRef::Inline(Fill::Solid { color: "#EEE".to_string() })));
    assert!(matches!(d.shadow, Some(ShadowRef::Inline(_))));
    let missing = BoxDecoration { shadow: Some(ShadowRef::Ref("sink".to_string())), ..BoxDecoration::default() };
    assert_eq!(resolve_theme_decoration(&missing, &t).unwrap_err(), "Unknown shadow 'sink'");
    let no_blur = BoxDecoration { blur: Some(BlurRef::Ref("fog".to_string())), ..BoxDecoration::default() };
    assert_eq!(resolve_theme_decoration(&no_blur, &t).unwrap_err(), "Unknown blur 'fog'");
}
