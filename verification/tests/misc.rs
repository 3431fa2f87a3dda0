use k2f_layout::fonts::{eq_ignore_ascii_case, is_generic_family};
use k2f_layout::layout_context::LayoutContext;
use k2f_layout::list_item_measure::{list_item_measure_spec, ListItemMeasureSpec};
use k2f_layout::list_style::ListStyle;
use k2f_layout::model::{NodeContent, SemanticNode};
use k2f_layout::pt::Pt;
use k2f_layout::style::TextAlign;
use k2f_layout::text_align::count_justify_spaces;
use k2f_layout::text_frag::{first_line_height, fragment_height, TextPages};
use k2f_layout::text_types::{TextLayout, TextLine};
use k2f_layout::theme::{ModifierTheme, RoleStyle, Theme};

#[test]
fn rejects_sans_serif() {
    assert!(is_generic_family("sans-serif"));
    assert!(is_generic_family("Sans-Serif"));
    assert!(!is_generic_family("Roboto"));
}

#[test]
fn generic_family_match_is_ascii_case_insensitive_only() {
    assert!(is_generic_family("MONOSPACE"));
    assert!(is_generic_family("ui-rounded"));
    assert!(!is_generic_family("serif "));
    assert!(eq_ignore_ascii_case("Ab\u{e9}", "aB\u{e9}"));
    assert!(!eq_ignore_ascii_case("\u{c9}", "\u{e9}"));
}

#[test]
fn justify_spaces_count_only_u0020() {
    let parts = vec!["a b".to_string(), " c\u{a0}d ".to_string(), String::new()];
    assert_eq!(count_justify_spaces(&parts), 3);
    assert_eq!(count_justify_spaces(&[]), 0);
}

fn line(h: i128) -> TextLine {
    TextLine { runs: vec![], width: Pt(0), height: Pt(h) }
}

fn pages(heights: &[i128]) -> TextPages {
    TextPages {
        layout: TextLayout { lines: heights.iter().map(|h| line(*h)).collect(), width: Pt(0), height: Pt(0) },
        padding_top: Pt(3),
        padding_bottom: Pt(5),
        padding_left: Pt(0),
        inner_w: Pt(100),
        outer_w: Pt(100),
        first_line_indent: Pt(0),
    }
}

#[test]
fn fragment_heights_add_padding_at_the_ends() {
    let p = pages(&[10, 20, 30]);
    assert_eq!(fragment_height(&p, 0, 1), Pt(13));
    assert_eq!(fragment_height(&p, 1, 2), Pt(20));
    assert_eq!(fragment_height(&p, 1, 3), Pt(55));
    assert_eq!(fragment_height(&p, 0, 3), Pt(68));
    // Splitting anywhere keeps the total.
    assert_eq!(fragment_height(&p, 0, 2).0 + fragment_height(&p, 2, 3).0, 68);
    assert_eq!(first_line_height(&p), Pt(13));
    assert_eq!(first_line_height(&pages(&[])), Pt(8));
}

fn list_theme(ls: Option<ListStyle>) -> Theme {
    let rs = RoleStyle {
        font_family: "default".to_string(),
        font_size: Pt(12_000),
        line_height_mult: 1_200,
        color: "black".to_string(),
        text_align: TextAlign::Start,
        self_align: None,
        box_decoration: None,
        list_style: ls,
        bold: false,
        italic: false,
        letter_spacing_pt: Pt(0),
        first_line_indent_pt: Pt(0),
        variants: vec![],
    };
    Theme { palette: vec![], roles: vec![("list_item".to_string(), rs)], modifiers: ModifierTheme::default(), font_aliases: vec![], primitives: Default::default() }
}

#[test]
fn list_item_measure_uses_depth_indent() {
    let theme = list_theme(None);
    let ctx = LayoutContext::new(&theme);
    let node = SemanticNode {
        id: "li".into(),
        role: "list_item".into(),
        depth: Some(2),
        content: NodeContent::Text("x".into()),
        ..Default::default()
    };
    // Without a declared style, list items get the starter defaults.
    let spec = list_item_measure_spec(&node, &ctx).unwrap();
    assert_eq!(spec, ListItemMeasureSpec { indent: Pt(36_000), marker_box_width: Pt(18_000), marker_gap: Pt(4_000) });
    assert_eq!(spec.leading_width(), Pt(58_000));

    let partial = list_theme(Some(ListStyle { marker_box_width_pt: Some(Pt(1)), ..ListStyle::default() }));
    let ctx = LayoutContext::new(&partial);
    let err = list_item_measure_spec(&node, &ctx).unwrap_err();
    assert!(err.contains("marker_gap_pt is required"), "{err}");
}
