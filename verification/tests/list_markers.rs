use k2f_layout::list_markers::{derive_list_marker_map, ListMarkerMap};
use k2f_layout::list_style::ListStyle;
use k2f_layout::model::{ListMarkerType, NodeContent, SemanticNode};
use k2f_layout::pt::Pt;
use k2f_layout::style::TextAlign;
use k2f_layout::theme::{ModifierTheme, RoleStyle, Theme};

fn theme_with_list_style() -> Theme {
    let roles = vec![(
        "list_item".to_string(),
        RoleStyle {
            font_family: "default".to_string(),
            font_size: Pt(12_000),
            line_height_mult: 1_200,
            color: "black".to_string(),
            text_align: TextAlign::Start,
            self_align: None,
            box_decoration: None,
            list_style: Some(ListStyle {
                marker_box_width_pt: Some(Pt(18_000)),
                marker_gap_pt: Some(Pt(4_000)),
                depth_indent_pt: Some(Pt(14_000)),
                bullet_glyph: Some("*".to_string()),
                number_suffix: Some(".".to_string()),
                ..ListStyle::default()
            }),
            bold: false,
            italic: false,
            letter_spacing_pt: Pt(0),
            first_line_indent_pt: Pt(0),
            variants: vec![],
        },
    )];
    Theme { palette: vec![], roles, modifiers: ModifierTheme::default(), font_aliases: vec![], primitives: Default::default() }
}

fn item(id: &str, list: Option<&str>, depth: Option<u32>, marker: Option<ListMarkerType>, text: &str) -> SemanticNode {
    SemanticNode {
        id: id.to_string(),
        role: "list_item".to_string(),
        list_id: list.map(|s| s.to_string()),
        depth,
        marker_type: marker,
        content: NodeContent::Text(text.to_string()),
        ..Default::default()
    }
}

fn section(id: &str, children: Vec<SemanticNode>) -> SemanticNode {
    SemanticNode {
        id: id.to_string(),
        role: "section".to_string(),
        content: NodeContent::Container { children },
        ..Default::default()
    }
}

#[test]
fn derives_numbered_markers_with_depth_stack_per_stream() {
    let theme = theme_with_list_style();
    let root = section(
        "root",
        vec![
            item("a", Some("L"), Some(0), Some(ListMarkerType::Number), "One"),
            item("b", Some("L"), Some(1), Some(ListMarkerType::Number), "Two"),
            item("c", Some("L"), Some(0), Some(ListMarkerType::Number), "Three"),
        ],
    );

    let markers = derive_list_marker_map(&root, &theme).unwrap();
    assert_eq!(markers.get("a").map(String::as_str), Some("1."));
    assert_eq!(markers.get("b").map(String::as_str), Some("1."));
    assert_eq!(markers.get("c").map(String::as_str), Some("2."));
}

#[test]
fn bullets_use_the_style_glyph_and_streams_restart_numbering() {
    let theme = theme_with_list_style();
    let root = section(
        "root",
        vec![
            item("x", Some("L"), None, None, "bullet"),
            section("inner", vec![item("n1", Some("L"), None, Some(ListMarkerType::Number), "a")]),
            item("y", Some("L"), None, Some(ListMarkerType::Number), "b"),
            item("z", Some("L"), None, Some(ListMarkerType::Number), "c"),
        ],
    );
    let markers = derive_list_marker_map(&root, &theme).unwrap();
    assert_eq!(markers.get("x").map(String::as_str), Some("*"));
    // The nested container is its own stream: numbering starts again.
    assert_eq!(markers.get("n1").map(String::as_str), Some("1."));
    assert_eq!(markers.get("y").map(String::as_str), Some("1."));
    assert_eq!(markers.get("z").map(String::as_str), Some("2."));
    assert!(markers.get("root").is_none());
}

#[test]
fn separate_list_ids_count_separately() {
    let theme = theme_with_list_style();
    let root = section(
        "root",
        vec![
            item("a1", Some("A"), None, Some(ListMarkerType::Number), "a"),
            item("b1", Some("B"), None, Some(ListMarkerType::Number), "b"),
            item("a2", Some("A"), None, Some(ListMarkerType::Number), "c"),
        ],
    );
    let markers = derive_list_marker_map(&root, &theme).unwrap();
    assert_eq!(markers.get("a2").map(String::as_str), Some("2."));
    assert_eq!(markers.get("b1").map(String::as_str), Some("1."));
}

#[test]
fn list_item_without_list_id_is_an_error() {
    let theme = theme_with_list_style();
    let root = section("root", vec![item("a", None, None, None, "x")]);
    let err = derive_list_marker_map(&root, &theme).err().unwrap();
    assert!(err.contains("list_item 'a' is missing list_id"), "{err}");
}

#[test]
fn missing_list_style_is_an_error() {
    // No roles at all: the role resolves to nothing.
    let theme = Theme::default();
    let root = section("root", vec![item("a", Some("L"), None, None, "x")]);
    let err = derive_list_marker_map(&root, &theme).err().unwrap();
    assert!(err.contains("Missing list_style for role 'list_item'"), "{err}");
}

#[test]
fn marker_map_later_insert_wins() {
    let mut m = ListMarkerMap::new();
    m.insert("k".to_string(), "1.".to_string());
    m.insert("k".to_string(), "2.".to_string());
    assert_eq!(m.get("k").map(String::as_str), Some("2."));
    assert!(m.get("j").is_none());
}
