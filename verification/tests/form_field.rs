use k2f_layout::form_field::{
    cap_axis, checkbox_mark_origin, clip_to_box, default_lines, field_value_lines, field_wrap_width, lock_stretch,
    measure_form_field, unbounded,
};
use k2f_layout::layout_context::{LayoutContext, Point, Size, SizeConstraint};
use k2f_layout::model::{Align, FormFieldKind, FormFieldSpec, GlyphPosition, NodeContent, SemanticNode, TextGlyphRun};
use k2f_layout::pt::Pt;
use k2f_layout::style::TextAlign;
use k2f_layout::theme::{ModifierTheme, RoleStyle, Theme};

fn theme() -> Theme {
    let body = RoleStyle {
        font_family: "default".to_string(),
        font_size: Pt(10_000),
        line_height_mult: 1_200,
        color: "black".to_string(),
        text_align: TextAlign::Start,
        self_align: None,
        box_decoration: None,
        list_style: None,
        bold: false,
        italic: false,
        letter_spacing_pt: Pt(0),
        first_line_indent_pt: Pt(0),
        variants: vec![],
    };
    Theme {
        palette: vec![],
        roles: vec![("default".to_string(), body.clone()), ("field".to_string(), body)],
        modifiers: ModifierTheme::default(),
        font_aliases: vec![],
        primitives: Default::default(),
    }
}

fn field(kind: FormFieldKind, width: Option<i128>, height: Option<i128>, lines: Option<u32>) -> (FormFieldSpec, SemanticNode) {
    let spec = FormFieldSpec { kind, value: String::new(), width: width.map(Pt), height: height.map(Pt), lines };
    let node = SemanticNode {
        id: "f".to_string(),
        role: "field".to_string(),
        content: NodeContent::FormField(spec.clone()),
        ..Default::default()
    };
    (spec, node)
}

fn bounded(w: i128, h: i128) -> SizeConstraint {
    SizeConstraint::new(Size::new(Pt(0), Pt(0)), Size::new(Pt(w), Pt(h)))
}

#[test]
fn unbounded_width_without_width_fails() {
    let theme = theme();
    let ctx = LayoutContext::new(&theme);
    let (spec, node) = field(FormFieldKind::Text, None, None, None);
    let err = measure_form_field(&spec, &node, SizeConstraint::infinite(), &ctx).unwrap_err();
    assert!(err.contains("FORM_FIELD_UNBOUNDED_WIDTH"), "{err}");
    assert!(err.contains("node 'f'"), "{err}");
}

#[test]
fn multiline_height_is_lines_times_line_height() {
    let theme = theme();
    let ctx = LayoutContext::new(&theme);
    let (spec, node) = field(FormFieldKind::Multiline, Some(50_000), None, None);
    let size = measure_form_field(&spec, &node, bounded(200_000, 200_000), &ctx).unwrap();
    // 10pt at x1.2 is a 12pt line; three default lines, no padding.
    assert_eq!(size, Size::new(Pt(50_000), Pt(36_000)));
    let (spec, node) = field(FormFieldKind::Multiline, None, None, Some(2));
    let size = measure_form_field(&spec, &node, bounded(80_000, 200_000), &ctx).unwrap();
    assert_eq!(size, Size::new(Pt(80_000), Pt(24_000)));
}

#[test]
fn checkbox_defaults_to_font_size_and_caps_to_the_limit() {
    let theme = theme();
    let ctx = LayoutContext::new(&theme);
    let (spec, node) = field(FormFieldKind::Checkbox, None, None, None);
    let size = measure_form_field(&spec, &node, bounded(200_000, 200_000), &ctx).unwrap();
    assert_eq!(size, Size::new(Pt(10_000), Pt(10_000)));
    let (spec, node) = field(FormFieldKind::Checkbox, Some(30_000), Some(30_000), None);
    let size = measure_form_field(&spec, &node, bounded(20_000, 25_000), &ctx).unwrap();
    assert_eq!(size, Size::new(Pt(20_000), Pt(25_000)));
}

#[test]
fn helpers_cap_and_default() {
    assert_eq!(default_lines(FormFieldKind::Text), 1);
    assert_eq!(default_lines(FormFieldKind::Multiline), 3);
    assert_eq!(default_lines(FormFieldKind::Checkbox), 1);
    assert!(unbounded(Pt(i128::MAX)));
    assert!(!unbounded(Pt(5)));
    assert_eq!(cap_axis(Pt(10), Pt(4)), Pt(4));
    assert_eq!(cap_axis(Pt(10), Pt(i128::MAX)), Pt(10));
    assert_eq!(cap_axis(Pt(3), Pt(4)), Pt(3));
    let (_, node) = field(FormFieldKind::Text, None, None, None);
    assert_eq!(lock_stretch(&node, Align::Stretch), Align::Start);
    assert_eq!(lock_stretch(&node, Align::Center), Align::Center);
    let text = SemanticNode { content: NodeContent::Text("x".to_string()), ..Default::default() };
    assert_eq!(lock_stretch(&text, Align::Stretch), Align::Stretch);
}

fn g(x: i128, adv: i128) -> GlyphPosition {
    GlyphPosition { glyph_id: 1, cluster: 0, x_offset: Pt(x), y_offset: Pt(0), x_advance: Pt(adv), y_advance: Pt(0) }
}

#[test]
fn clip_drops_overflowing_glyphs_and_repoints_runs() {
    let glyphs = vec![g(0, 10), g(10, 10), g(20, 10), g(30, 10)];
    let runs = vec![
        TextGlyphRun { glyph_range: [0, 2], style: "a".to_string() },
        TextGlyphRun { glyph_range: [2, 4], style: "b".to_string() },
        TextGlyphRun { glyph_range: [3, 4], style: "c".to_string() },
    ];
    let (kept, new_runs) = clip_to_box(glyphs, runs, Size::new(Pt(25), Pt(10)));
    assert_eq!(kept, vec![g(0, 10), g(10, 10)]);
    assert_eq!(new_runs, vec![TextGlyphRun { glyph_range: [0, 2], style: "a".to_string() }]);
}

#[test]
fn clip_keeps_everything_when_all_glyphs_fit() {
    let glyphs = vec![g(0, 10), g(10, 10)];
    let runs = vec![TextGlyphRun { glyph_range: [0, 9], style: "a".to_string() }];
    let (kept, new_runs) = clip_to_box(glyphs.clone(), runs.clone(), Size::new(Pt(100), Pt(10)));
    assert_eq!(kept, glyphs);
    assert_eq!(new_runs, runs);
}

#[test]
fn clip_compacts_runs_around_dropped_glyphs() {
    // The middle glyph is below the box: the run keeps its outer glyphs.
    let mut low = g(10, 10);
    low.y_offset = Pt(50);
    let glyphs = vec![g(0, 10), low, g(20, 10)];
    let runs = vec![TextGlyphRun { glyph_range: [0, 3], style: "a".to_string() }];
    let (kept, new_runs) = clip_to_box(glyphs, runs, Size::new(Pt(100), Pt(10)));
    assert_eq!(kept.len(), 2);
    assert_eq!(new_runs[0].glyph_range, [0, 2]);
}

fn value_field(kind: FormFieldKind, lines: Option<u32>) -> FormFieldSpec {
    FormFieldSpec { kind, value: "v".into(), width: None, height: None, lines }
}

#[test]
fn checkbox_mark_is_centered_in_its_box() {
    let size = Size::new(Pt(20_000), Pt(16_000));
    assert_eq!(checkbox_mark_origin(size, Pt(7_000), Pt(10_000)), Point::new(Pt(6_500), Pt(3_000)));
    // A mark wider than its box starts at the corner.
    assert_eq!(checkbox_mark_origin(size, Pt(30_000), Pt(20_000)), Point::new(Pt(0), Pt(0)));
}

#[test]
fn only_multiline_fields_wrap() {
    assert_eq!(field_wrap_width(FormFieldKind::Multiline, Pt(500)), Pt(500));
    assert_eq!(field_wrap_width(FormFieldKind::Text, Pt(500)), Pt(i128::MAX));
}

#[test]
fn field_values_draw_the_lines_that_fit() {
    let heights = vec![Pt(12), Pt(12), Pt(12), Pt(12)];
    // Default three lines for a multiline field, all fit in 50 below a padding of 2.
    assert_eq!(field_value_lines(&value_field(FormFieldKind::Multiline, None), Pt(2), Pt(50), &heights), vec![Pt(2), Pt(14), Pt(26)]);
    // A box of 30 holds two.
    assert_eq!(field_value_lines(&value_field(FormFieldKind::Multiline, None), Pt(2), Pt(30), &heights), vec![Pt(2), Pt(14)]);
    // A single-line field draws one; a declared count overrides the default.
    assert_eq!(field_value_lines(&value_field(FormFieldKind::Text, None), Pt(2), Pt(50), &heights), vec![Pt(2)]);
    assert_eq!(field_value_lines(&value_field(FormFieldKind::Text, Some(4)), Pt(0), Pt(100), &heights).len(), 4);
}
