use k2f_layout::list_style::ListStyle;
use k2f_layout::pt::Pt;
use k2f_layout::resolved_style::{
    padding_for_role_variant, padding_from_decoration, resolve_box_decoration, resolve_list_style,
    resolve_self_align, resolve_text_style, EdgeInsets,
};
use k2f_layout::model::Align;
use k2f_layout::style::{StylePatch, TextAlign};
use k2f_layout::theme::{RoleStyle, RoleVariant, Theme, ThemeDecoration};
use k2f_layout::visual_primitives::EdgeInsetsPt;

fn role(variants: Vec<(String, RoleVariant)>) -> RoleStyle {
    RoleStyle {
        font_family: "default".to_string(),
        font_size: Pt(12_000),
        line_height_mult: 1_200,
        color: "black".to_string(),
        text_align: TextAlign::Start,
        self_align: None,
        box_decoration: None,
        list_style: None,
        bold: false,
        italic: false,
        letter_spacing_pt: Pt(0),
        first_line_indent_pt: Pt(0),
        variants,
    }
}

#[test]
fn resolves_and_merges_box_decoration_from_role_and_variant() {
    let mut card = role(vec![(
        "spacious".to_string(),
        RoleVariant {
            box_decoration: Some(ThemeDecoration {
                padding_pt: Some(EdgeInsetsPt::Uniform(10_000)),
                ..ThemeDecoration::default()
            }),
            self_align: None,
            text_overrides: None,
            list_style: None,
        },
    )]);
    card.box_decoration = Some(ThemeDecoration {
        padding_pt: Some(EdgeInsetsPt::Uniform(4_000)),
        ..ThemeDecoration::default()
    });
    let theme = Theme {
        roles: vec![("card".to_string(), card)],
        ..Theme::default()
    };

    let decoration = resolve_box_decoration("card", Some("spacious"), &theme).unwrap();
    assert_eq!(
        padding_from_decoration(&decoration).unwrap(),
        EdgeInsets {
            top: Pt(10_000),
            right: Pt(10_000),
            bottom: Pt(10_000),
            left: Pt(10_000),
        }
    );
}

#[test]
fn resolves_and_merges_list_style_from_role_and_variant() {
    let mut li = role(vec![(
        "compact".to_string(),
        RoleVariant {
            box_decoration: None,
            self_align: None,
            text_overrides: None,
            list_style: Some(ListStyle {
                marker_gap_pt: Some(Pt(2_000)),
                bullet_glyph: Some("*".to_string()),
                ..ListStyle::default()
            }),
        },
    )]);
    li.list_style = Some(ListStyle {
        marker_box_width_pt: Some(Pt(18_000)),
        marker_gap_pt: Some(Pt(4_000)),
        ..ListStyle::default()
    });
    let theme = Theme {
        roles: vec![("list_item".to_string(), li)],
        ..Theme::default()
    };

    let resolved = resolve_list_style("list_item", Some("compact"), &theme).unwrap();
    assert_eq!(resolved.marker_box_width_pt, Some(Pt(18_000)));
    assert_eq!(resolved.marker_gap_pt, Some(Pt(2_000)));
    assert_eq!(resolved.bullet_glyph.as_deref(), Some("*"));
}

#[test]
fn list_item_without_list_style_gets_defaults() {
    let theme = Theme {
        roles: vec![("list_item".to_string(), role(vec![]))],
        ..Theme::default()
    };
    let s = resolve_list_style("list_item", None, &theme).unwrap();
    assert_eq!(s, ListStyle::list_item_defaults());
    assert_eq!(resolve_list_style("body", None, &Theme::default()), None);
}

#[test]
fn variant_text_overrides_and_self_align() {
    let mut body = role(vec![(
        "muted".to_string(),
        RoleVariant {
            box_decoration: None,
            self_align: Some(Align::Center),
            text_overrides: Some(StylePatch {
                color: Some("grey".into()),
                ..StylePatch::default()
            }),
            list_style: None,
        },
    )]);
    body.self_align = Some(Align::End);
    let theme = Theme {
        roles: vec![("body".to_string(), body)],
        ..Theme::default()
    };
    assert_eq!(resolve_text_style("body", Some("muted"), &theme).color, "grey");
    assert_eq!(resolve_text_style("body", None, &theme).color, "black");
    assert_eq!(resolve_self_align("body", Some("muted"), &theme), Some(Align::Center));
    assert_eq!(resolve_self_align("body", Some("nope"), &theme), Some(Align::End));
    assert_eq!(resolve_self_align("body", None, &Theme::default()), None);
}

#[test]
fn negative_padding_is_rejected_and_missing_padding_is_zero() {
    let mut card = role(vec![]);
    card.box_decoration = Some(ThemeDecoration {
        padding_pt: Some(EdgeInsetsPt::PerEdge { top: 1, right: -1, bottom: 0, left: 0 }),
        ..ThemeDecoration::default()
    });
    let theme = Theme {
        roles: vec![("card".to_string(), card)],
        ..Theme::default()
    };
    assert!(padding_for_role_variant("card", None, &theme).is_err());
    assert_eq!(
        padding_for_role_variant("other", None, &Theme::default()).unwrap(),
        EdgeInsets { top: Pt(0), right: Pt(0), bottom: Pt(0), left: Pt(0) }
    );
}
