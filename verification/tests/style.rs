use k2f_layout::model::Modifier;
use k2f_layout::pt::Pt;
use k2f_layout::style::{
    apply_patch, apply_script_geometry, default_modifier_precedence, modifier_precedence, patch_for_modifier,
    resolve_base_style, resolve_font_family_key, validate_role_text_fields, Style, StylePatch, TextAlign,
};
use k2f_layout::theme::{ModifierTheme, RoleStyle, Theme};

fn role(font_size: i128, lhm: i128) -> RoleStyle {
    RoleStyle {
        font_family: "default".to_string(),
        font_size: Pt(font_size),
        line_height_mult: lhm,
        color: "black".to_string(),
        text_align: TextAlign::Start,
        self_align: None,
        box_decoration: None,
        list_style: None,
        bold: false,
        italic: false,
        letter_spacing_pt: Pt(0),
        first_line_indent_pt: Pt(0),
        variants: vec![],
    }
}

fn sample_theme() -> Theme {
    let roles = vec![("body".to_string(), role(12000, 1400)), ("header".to_string(), role(24000, 1100))];
    Theme {
        palette: vec![],
        roles,
        modifiers: ModifierTheme::default(),
        font_aliases: vec![],
        primitives: Default::default(),
    }
}

#[test]
fn test_resolve_basic_role() {
    let theme = sample_theme();
    let style = resolve_base_style("body", &theme);
    assert_eq!(style.font_size, Pt(12000));
}

#[test]
fn font_size_modifier_is_rejected() {
    let theme = sample_theme();
    let err = patch_for_modifier(
        &Modifier {
            range: [0, 4],
            mod_type: "font-size".into(),
            intent: "12pt".into(),
        },
        &theme,
    )
    .unwrap_err();
    assert!(err.contains("Unknown modifier type"), "{err}");
}

#[test]
fn test_modifier_override() {
    let theme = sample_theme();
    let modifiers = vec![Modifier {
        range: [0, 10],
        mod_type: "emphasis".to_string(),
        intent: "strong".to_string(),
    }];

    let base = resolve_base_style("body", &theme);
    let patch = patch_for_modifier(&modifiers[0], &theme).unwrap();
    let style = apply_patch(base, &patch);
    assert!(style.bold);
    assert_eq!(style.font_size, Pt(12000));
}

#[test]
fn link_url_intent_uses_theme_default() {
    let mut theme = sample_theme();
    let link = vec![(
        "default".to_string(),
        StylePatch {
            underline: Some(true),
            color: Some("accent".into()),
            ..StylePatch::default()
        },
    )];
    theme.modifiers.styles.push(("link".into(), link));
    let patch = patch_for_modifier(
        &Modifier {
            range: [0, 4],
            mod_type: "link".into(),
            intent: "https://example.com".into(),
        },
        &theme,
    )
    .unwrap();
    assert_eq!(patch.underline, Some(true));
    assert_eq!(patch.color.as_deref(), Some("accent"));
}

#[test]
fn test_boolean_modifiers() {
    let theme = sample_theme();
    let modifiers = vec![Modifier {
        range: [0, 5],
        mod_type: "emphasis".to_string(),
        intent: "bold".to_string(),
    }];

    let base = resolve_base_style("body", &theme);
    let patch = patch_for_modifier(&modifiers[0], &theme).unwrap();
    let style = apply_patch(base, &patch);
    assert!(style.bold);
}

#[test]
fn test_unknown_role_fallback() {
    let theme = sample_theme();
    let style = resolve_base_style("unknown_role", &theme);
    // Defaults
    assert_eq!(style.font_size, Pt(12000));
}

#[test]
fn omitted_text_fields_inherit_from_default_role() {
    let mut rule = role(0, 0);
    rule.font_family = String::new();
    rule.color = String::new();
    let mut h1 = rule.clone();
    h1.font_size = Pt(24000);
    h1.bold = true;
    let theme = Theme {
        roles: vec![
            ("default".to_string(), role(12000, 1400)),
            ("rule".to_string(), rule),
            ("h1".to_string(), h1),
        ],
        ..Theme::default()
    };
    validate_role_text_fields(&theme).unwrap();
    let r = resolve_base_style("rule", &theme);
    assert_eq!(r.font_family, "default");
    assert_eq!(r.font_size, Pt(12000));
    assert_eq!(r.line_height_mult, 1400);
    assert_eq!(r.color, "black");
    let h = resolve_base_style("h1", &theme);
    assert_eq!(h.font_size, Pt(24000));
    assert_eq!(h.line_height_mult, 1400);
    assert!(h.bold);
}

#[test]
fn incomplete_roles_fail_validation() {
    let mut incomplete = role(0, 0);
    incomplete.color = String::new();
    let theme = Theme {
        roles: vec![("rule".to_string(), incomplete.clone())],
        ..Theme::default()
    };
    let err = validate_role_text_fields(&theme).unwrap_err();
    assert!(err.contains("rule") && err.contains("default"), "{err}");
    let theme = Theme {
        roles: vec![("default".to_string(), incomplete)],
        ..Theme::default()
    };
    let err = validate_role_text_fields(&theme).unwrap_err();
    assert!(err.contains("default"), "{err}");
}

#[test]
fn empty_theme_gives_engine_default_style() {
    let s = resolve_base_style("body", &Theme::default());
    assert_eq!(s, Style::default());
    assert_eq!(s.font_family, "default");
    assert_eq!(s.line_height_mult, 1200);
    assert_eq!(s.color, "black");
}

#[test]
fn font_alias_resolves_family() {
    let theme = Theme {
        font_aliases: vec![("default".to_string(), "Roboto-Regular".to_string())],
        primitives: Default::default(),
        ..sample_theme()
    };
    assert_eq!(resolve_font_family_key("default", &theme), "Roboto-Regular");
    assert_eq!(resolve_font_family_key("Other", &theme), "Other");
    assert_eq!(resolve_base_style("body", &theme).font_family, "Roboto-Regular");
}

#[test]
fn script_geometry_shrinks_and_shifts() {
    let mut s = Style::default();
    apply_script_geometry(&mut s, "superscript");
    assert_eq!(s.font_size, Pt(8400));
    assert_eq!(s.baseline_shift, Pt(5400));
    let mut s = Style::default();
    apply_script_geometry(&mut s, "subscript");
    assert_eq!(s.font_size, Pt(8400));
    assert_eq!(s.baseline_shift, Pt(-3000));
    let mut s = Style::default();
    apply_script_geometry(&mut s, "other");
    assert_eq!(s.baseline_shift, Pt(0));
}

#[test]
fn builtin_modifier_patches() {
    let theme = sample_theme();
    let m = |t: &str, i: &str| Modifier { range: [0, 1], mod_type: t.into(), intent: i.into() };
    assert_eq!(patch_for_modifier(&m("emphasis", "italic"), &theme).unwrap().italic, Some(true));
    assert_eq!(patch_for_modifier(&m("emphasis", "other"), &theme).unwrap(), StylePatch::default());
    let link = patch_for_modifier(&m("link", "x"), &theme).unwrap();
    assert_eq!((link.underline, link.color.as_deref()), (Some(true), Some("accent")));
    assert_eq!(patch_for_modifier(&m("strikethrough", "x"), &theme).unwrap().strikethrough, Some(true));
    assert_eq!(patch_for_modifier(&m("math", "x"), &theme).unwrap(), StylePatch::default());
}

#[test]
fn patch_applies_declared_fields_only_and_twice_is_once() {
    let patch = StylePatch {
        color: Some("red".into()),
        letter_spacing_pt: Some(Pt(250)),
        ..StylePatch::default()
    };
    let once = apply_patch(Style::default(), &patch);
    assert_eq!(once.color, "red");
    assert_eq!(once.letter_spacing, Pt(250));
    assert_eq!(once.font_size, Pt(12000));
    assert_eq!(apply_patch(once.clone(), &patch), once);
}

#[test]
fn precedence_defaults_and_overrides() {
    let d = default_modifier_precedence();
    assert_eq!(d.first().map(String::as_str), Some("syntax_highlight"));
    assert_eq!(d.last().map(String::as_str), Some("superscript"));
    assert_eq!(modifier_precedence(&sample_theme()), d);
    let mut theme = sample_theme();
    theme.modifiers.precedence = vec!["a".into(), "b".into()];
    assert_eq!(modifier_precedence(&theme), vec!["a".to_string(), "b".to_string()]);
}
