use vstd::prelude::*;

use crate::model::Modifier;
use crate::pt::{trunc_div, Pt};
use crate::text::{join, owned, same_text};
use crate::theme::{find_key, lookup, RoleStyle, Theme};

verus! {

/// Horizontal alignment of lines inside a text box.
#[derive(Debug, Clone, Copy, PartialEq, Eq, Structural)]
pub enum TextAlign {
    Start,
    Center,
    End,
    Justify,
}

/// Resolved text style of a run.
#[derive(Debug, Clone, PartialEq)]
pub struct Style {
    pub font_family: String,
    pub font_size: Pt,
    pub line_height_mult: i128,
    pub color: String,
    pub text_align: TextAlign,
    pub bold: bool,
    pub italic: bool,
    pub strikethrough: bool,
    pub underline: bool,
    pub letter_spacing: Pt,
    pub first_line_indent: Pt,
    /// Raise amount in millipt (positive = up). Applied as `y_offset -= baseline_shift`
    /// when shaping. Engine-only; not part of theme JSON or lock paint style.
    pub baseline_shift: Pt,
}

/// Partial style: every declared field overrides the style it is applied to.
#[derive(Debug, Clone, Default, PartialEq)]
pub struct StylePatch {
    pub font_family: Option<String>,
    pub font_size: Option<Pt>,
    pub line_height_mult: Option<i128>,
    pub color: Option<String>,
    pub text_align: Option<TextAlign>,
    pub bold: Option<bool>,
    pub italic: Option<bool>,
    pub strikethrough: Option<bool>,
    pub underline: Option<bool>,
    pub letter_spacing_pt: Option<Pt>,
    pub first_line_indent_pt: Option<Pt>,
}

/// A style with its strings as character sequences.
pub struct StyleView {
    pub font_family: Seq<char>,
    pub font_size: Pt,
    pub line_height_mult: i128,
    pub color: Seq<char>,
    pub text_align: TextAlign,
    pub bold: bool,
    pub italic: bool,
    pub strikethrough: bool,
    pub underline: bool,
    pub letter_spacing: Pt,
    pub first_line_indent: Pt,
    pub baseline_shift: Pt,
}

impl View for Style {
    type V = StyleView;

    open spec fn view(&self) -> StyleView {
        StyleView {
            font_family: self.font_family@,
            font_size: self.font_size,
            line_height_mult: self.line_height_mult,
            color: self.color@,
            text_align: self.text_align,
            bold: self.bold,
            italic: self.italic,
            strikethrough: self.strikethrough,
            underline: self.underline,
            letter_spacing: self.letter_spacing,
            first_line_indent: self.first_line_indent,
            baseline_shift: self.baseline_shift,
        }
    }
}

/// The engine's default style: family "default", 12pt, line height x1.2, black, start-aligned.
pub open spec fn default_style_view() -> StyleView {
    StyleView {
        font_family: "default"@,
        font_size: Pt(12000),
        line_height_mult: 1200,
        color: "black"@,
        text_align: TextAlign::Start,
        bold: false,
        italic: false,
        strikethrough: false,
        underline: false,
        letter_spacing: Pt(0),
        first_line_indent: Pt(0),
        baseline_shift: Pt(0),
    }
}

impl Style {
    /// The engine's default style.
    pub fn default_style() -> (r: Style)
        ensures
            r@ == default_style_view(),
    {
        Style {
            font_family: owned("default"),
            font_size: Pt(12000),
            line_height_mult: 1200,
            color: owned("black"),
            text_align: TextAlign::Start,
            bold: false,
            italic: false,
            strikethrough: false,
            underline: false,
            letter_spacing: Pt(0),
            first_line_indent: Pt(0),
            baseline_shift: Pt(0),
        }
    }

    /// An exact copy.
    pub fn duplicate(&self) -> (r: Style)
        ensures
            r == *self,
    {
        Style {
            font_family: self.font_family.clone(),
            font_size: self.font_size,
            line_height_mult: self.line_height_mult,
            color: self.color.clone(),
            text_align: self.text_align,
            bold: self.bold,
            italic: self.italic,
            strikethrough: self.strikethrough,
            underline: self.underline,
            letter_spacing: self.letter_spacing,
            first_line_indent: self.first_line_indent,
            baseline_shift: self.baseline_shift,
        }
    }
}

impl Default for Style {
    fn default() -> (r: Style)
        ensures
            r@ == default_style_view(),
    {
        Style::default_style()
    }
}

/// A patch that declares nothing.
pub open spec fn is_empty_patch(p: StylePatch) -> bool {
    &&& p.font_family is None
    &&& p.font_size is None
    &&& p.line_height_mult is None
    &&& p.color is None
    &&& p.text_align is None
    &&& p.bold is None
    &&& p.italic is None
    &&& p.strikethrough is None
    &&& p.underline is None
    &&& p.letter_spacing_pt is None
    &&& p.first_line_indent_pt is None
}

fn copy_opt_string(s: &Option<String>) -> (r: Option<String>)
    ensures
        r == *s,
{
    match s {
        Some(v) => Some(v.clone()),
        None => None,
    }
}

impl StylePatch {
    /// A patch that declares nothing.
    pub fn empty() -> (r: StylePatch)
        ensures
            is_empty_patch(r),
    {
        StylePatch {
            font_family: None,
            font_size: None,
            line_height_mult: None,
            color: None,
            text_align: None,
            bold: None,
            italic: None,
            strikethrough: None,
            underline: None,
            letter_spacing_pt: None,
            first_line_indent_pt: None,
        }
    }

    /// An exact copy.
    pub fn duplicate(&self) -> (r: StylePatch)
        ensures
            r == *self,
    {
        StylePatch {
            font_family: copy_opt_string(&self.font_family),
            font_size: self.font_size,
            line_height_mult: self.line_height_mult,
            color: copy_opt_string(&self.color),
            text_align: self.text_align,
            bold: self.bold,
            italic: self.italic,
            strikethrough: self.strikethrough,
            underline: self.underline,
            letter_spacing_pt: self.letter_spacing_pt,
            first_line_indent_pt: self.first_line_indent_pt,
        }
    }
}

/// Script sizes: 7/10 of the parent size; superscript rises 0.45 em, subscript drops 0.25 em.
pub open spec fn script_style(s: StyleView, kind: Seq<char>) -> StyleView {
    let parent = s.font_size.0 as int;
    StyleView {
        font_size: Pt(trunc_div(parent * 7, 10) as i128),
        baseline_shift: Pt(
            (if kind == "superscript"@ {
                trunc_div(parent * 450, 1000)
            } else if kind == "subscript"@ {
                -trunc_div(parent * 250, 1000)
            } else {
                0
            }) as i128,
        ),
        ..s
    }
}

/// Script geometry for `superscript` / `subscript` (matches math script ratios).
/// Uses the style's current (parent) font size, then shrinks to 7/10 and sets shift.
pub fn apply_script_geometry(style: &mut Style, kind: &str)
    requires
        -0x1_0000_0000_0000_0000_0000_0000_0000 <= old(style).font_size.0 <= 0x1_0000_0000_0000_0000_0000_0000_0000,
    ensures
        final(style)@ == script_style(old(style)@, kind@),
{
    let parent = style.font_size.0;
    style.font_size = Pt(crate::pt::i128_div(parent * 7, 10));
    let shift = if same_text(&owned("superscript"), kind) {
        crate::pt::i128_div(parent * 450, 1000)
    } else if same_text(&owned("subscript"), kind) {
        let d = crate::pt::i128_div(parent * 250, 1000);
        -d
    } else {
        0
    };
    style.baseline_shift = Pt(shift);
}

/// The loaded font key a theme family resolves to: its alias, else the family itself.
pub open spec fn font_key_spec(font_family: Seq<char>, theme: Theme) -> Seq<char> {
    match find_key(theme.font_aliases@, font_family) {
        Some(k) => k@,
        None => font_family,
    }
}

/// Resolve a theme-provided font family to a loaded font key.
///
/// This is **not** a fallback mechanism. If the resolved key is not loaded, shaping/measurement must error.
pub fn resolve_font_family_key(font_family: &str, theme: &Theme) -> (r: String)
    ensures
        r@ == font_key_spec(font_family@, *theme),
{
    match lookup(&theme.font_aliases, font_family) {
        Some(k) => k.clone(),
        None => owned(font_family),
    }
}

/// A role declares all four text fields.
pub open spec fn role_text_complete_spec(rs: RoleStyle) -> bool {
    rs.font_family@.len() != 0 && rs.font_size.0 != 0 && rs.line_height_mult != 0 && rs.color@.len() != 0
}

fn role_text_complete(rs: &RoleStyle) -> (r: bool)
    ensures
        r == role_text_complete_spec(*rs),
{
    !rs.font_family.as_str().is_empty() && rs.font_size.0 != 0 && rs.line_height_mult != 0
        && !rs.color.as_str().is_empty()
}

pub open spec fn coalesced_family_spec(rs: RoleStyle, default: Option<RoleStyle>) -> Seq<char> {
    if rs.font_family@.len() != 0 {
        rs.font_family@
    } else {
        match default {
            Some(d) => d.font_family@,
            None => Seq::empty(),
        }
    }
}

pub open spec fn coalesced_size_spec(rs: RoleStyle, default: Option<RoleStyle>) -> Pt {
    if rs.font_size.0 != 0 {
        rs.font_size
    } else {
        match default {
            Some(d) => d.font_size,
            None => Pt(0),
        }
    }
}

pub open spec fn coalesced_lhm_spec(rs: RoleStyle, default: Option<RoleStyle>) -> i128 {
    if rs.line_height_mult != 0 {
        rs.line_height_mult
    } else {
        match default {
            Some(d) => d.line_height_mult,
            None => 0,
        }
    }
}

pub open spec fn coalesced_color_spec(rs: RoleStyle, default: Option<RoleStyle>) -> Seq<char> {
    if rs.color@.len() != 0 {
        rs.color@
    } else {
        match default {
            Some(d) => d.color@,
            None => Seq::empty(),
        }
    }
}

fn coalesced_font_family<'a>(rs: &'a RoleStyle, default: Option<&'a RoleStyle>) -> (r: &'a str)
    ensures
        r@ == coalesced_family_spec(
            *rs,
            match default {
                Some(d) => Some(*d),
                None => None,
            },
        ),
{
    if !rs.font_family.as_str().is_empty() {
        rs.font_family.as_str()
    } else {
        match default {
            Some(d) => d.font_family.as_str(),
            None => {
                let e = "";
                proof {
                    reveal_strlit("");
                }
                e
            },
        }
    }
}

fn coalesced_font_size(rs: &RoleStyle, default: Option<&RoleStyle>) -> (r: Pt)
    ensures
        r == coalesced_size_spec(
            *rs,
            match default {
                Some(d) => Some(*d),
                None => None,
            },
        ),
{
    if rs.font_size.0 != 0 {
        rs.font_size
    } else {
        match default {
            Some(d) => d.font_size,
            None => Pt(0),
        }
    }
}

fn coalesced_line_height_mult(rs: &RoleStyle, default: Option<&RoleStyle>) -> (r: i128)
    ensures
        r == coalesced_lhm_spec(
            *rs,
            match default {
                Some(d) => Some(*d),
                None => None,
            },
        ),
{
    if rs.line_height_mult != 0 {
        rs.line_height_mult
    } else {
        match default {
            Some(d) => d.line_height_mult,
            None => 0,
        }
    }
}

fn coalesced_color<'a>(rs: &'a RoleStyle, default: Option<&'a RoleStyle>) -> (r: &'a str)
    ensures
        r@ == coalesced_color_spec(
            *rs,
            match default {
                Some(d) => Some(*d),
                None => None,
            },
        ),
{
    if !rs.color.as_str().is_empty() {
        rs.color.as_str()
    } else {
        match default {
            Some(d) => d.color.as_str(),
            None => {
                let e = "";
                proof {
                    reveal_strlit("");
                }
                e
            },
        }
    }
}

/// A theme whose roles declare or inherit all four text fields.
pub open spec fn role_text_fields_valid(theme: Theme) -> bool {
    match find_key(theme.roles@, "default"@) {
        Some(d) => role_text_complete_spec(d),
        None => forall|i: int| 0 <= i < theme.roles@.len() ==> role_text_complete_spec(#[trigger] theme.roles@[i].1),
    }
}

/// `default` must declare the four text fields. Other roles may omit any of them
/// and inherit the missing ones from `default` (not a second role type).
pub fn validate_role_text_fields(theme: &Theme) -> (r: Result<(), String>)
    ensures
        r is Ok <==> role_text_fields_valid(*theme),
{
    let default = lookup(&theme.roles, "default");
    match default {
        Some(d) => {
            if !role_text_complete(d) {
                return Err(
                    owned("role 'default' must set font_family, font_size, line_height_mult, and color"),
                );
            }
        },
        None => {},
    }
    let mut i: usize = 0;
    while i < theme.roles.len()
        invariant
            i <= theme.roles.len(),
            default is Some <==> find_key(theme.roles@, "default"@) is Some,
            default is None ==> forall|j: int| 0 <= j < i ==> role_text_complete_spec(#[trigger] theme.roles@[j].1),
        decreases theme.roles.len() - i,
    {
        let name = &theme.roles[i].0;
        let rs = &theme.roles[i].1;
        if !same_text(name, "default") {
            if !role_text_complete(rs) && default.is_none() {
                let m = join(
                    join(owned("role '"), name.as_str()),
                    "' omitted text fields; set them or define role 'default' with font_family, font_size, line_height_mult, and color",
                );
                return Err(m);
            }
        } else {
            proof {
                if default is None {
                    lemma_find_key_present(theme.roles@, i as int, "default"@);
                }
            }
        }
        i = i + 1;
    }
    Ok(())
}

/// A key present in the list is found (by its first entry).
pub proof fn lemma_find_key_present<V>(entries: Seq<(String, V)>, i: int, key: Seq<char>)
    requires
        0 <= i < entries.len(),
        entries[i].0@ == key,
    ensures
        find_key(entries, key) is Some,
    decreases i,
{
    if i > 0 && entries[0].0@ != key {
        lemma_find_key_present(entries.drop_first(), i - 1, key);
    }
}

/// Base style from role (no modifiers): the role's fields, missing text fields inherited
/// from role `default`; an unknown role uses role `default`, and no role at all the engine default.
pub open spec fn base_style_spec(role: Seq<char>, theme: Theme) -> StyleView {
    let default_rs = find_key(theme.roles@, "default"@);
    let base = match find_key(theme.roles@, role) {
        Some(rs) => Some(rs),
        None => default_rs,
    };
    match base {
        None => default_style_view(),
        Some(rs) => {
            let inherit = if find_key(theme.roles@, role) is Some && role != "default"@ {
                default_rs
            } else {
                None
            };
            StyleView {
                font_family: font_key_spec(coalesced_family_spec(rs, inherit), theme),
                font_size: coalesced_size_spec(rs, inherit),
                line_height_mult: coalesced_lhm_spec(rs, inherit),
                color: coalesced_color_spec(rs, inherit),
                text_align: rs.text_align,
                bold: rs.bold,
                italic: rs.italic,
                letter_spacing: rs.letter_spacing_pt,
                first_line_indent: rs.first_line_indent_pt,
                ..default_style_view()
            }
        },
    }
}

/// Base style from role. No modifiers applied here.
pub fn resolve_base_style(role: &str, theme: &Theme) -> (r: Style)
    ensures
        r@ == base_style_spec(role@, *theme),
{
    let default_rs = lookup(&theme.roles, "default");
    let own = lookup(&theme.roles, role);
    let base = match own {
        Some(rs) => Some(rs),
        None => default_rs,
    };
    match base {
        Some(rs) => {
            let inherit_from = if own.is_some() && !same_text(&owned(role), "default") {
                default_rs
            } else {
                None
            };
            let fam = coalesced_font_family(rs, inherit_from);
            let color = coalesced_color(rs, inherit_from);
            Style {
                font_family: resolve_font_family_key(fam, theme),
                font_size: coalesced_font_size(rs, inherit_from),
                line_height_mult: coalesced_line_height_mult(rs, inherit_from),
                color: owned(color),
                text_align: rs.text_align,
                bold: rs.bold,
                italic: rs.italic,
                strikethrough: false,
                underline: false,
                letter_spacing: rs.letter_spacing_pt,
                first_line_indent: rs.first_line_indent_pt,
                baseline_shift: Pt(0),
            }
        },
        None => Style::default_style(),
    }
}

/// `patch`'s declared fields over `s`.
pub open spec fn patched(s: StyleView, patch: StylePatch) -> StyleView {
    StyleView {
        font_family: match patch.font_family {
            Some(v) => v@,
            None => s.font_family,
        },
        font_size: match patch.font_size {
            Some(v) => v,
            None => s.font_size,
        },
        line_height_mult: match patch.line_height_mult {
            Some(v) => v,
            None => s.line_height_mult,
        },
        color: match patch.color {
            Some(v) => v@,
            None => s.color,
        },
        text_align: match patch.text_align {
            Some(v) => v,
            None => s.text_align,
        },
        bold: match patch.bold {
            Some(v) => v,
            None => s.bold,
        },
        italic: match patch.italic {
            Some(v) => v,
            None => s.italic,
        },
        strikethrough: match patch.strikethrough {
            Some(v) => v,
            None => s.strikethrough,
        },
        underline: match patch.underline {
            Some(v) => v,
            None => s.underline,
        },
        letter_spacing: match patch.letter_spacing_pt {
            Some(v) => v,
            None => s.letter_spacing,
        },
        first_line_indent: match patch.first_line_indent_pt {
            Some(v) => v,
            None => s.first_line_indent,
        },
        baseline_shift: s.baseline_shift,
    }
}

/// Apply every declared field of `patch` to `style`.
pub fn apply_patch(style: Style, patch: &StylePatch) -> (r: Style)
    ensures
        r@ == patched(style@, *patch),
{
    Style {
        font_family: match &patch.font_family {
            Some(v) => v.clone(),
            None => style.font_family,
        },
        font_size: match patch.font_size {
            Some(v) => v,
            None => style.font_size,
        },
        line_height_mult: match patch.line_height_mult {
            Some(v) => v,
            None => style.line_height_mult,
        },
        color: match &patch.color {
            Some(v) => v.clone(),
            None => style.color,
        },
        text_align: match patch.text_align {
            Some(v) => v,
            None => style.text_align,
        },
        bold: match patch.bold {
            Some(v) => v,
            None => style.bold,
        },
        italic: match patch.italic {
            Some(v) => v,
            None => style.italic,
        },
        strikethrough: match patch.strikethrough {
            Some(v) => v,
            None => style.strikethrough,
        },
        underline: match patch.underline {
            Some(v) => v,
            None => style.underline,
        },
        letter_spacing: match patch.letter_spacing_pt {
            Some(v) => v,
            None => style.letter_spacing,
        },
        first_line_indent: match patch.first_line_indent_pt {
            Some(v) => v,
            None => style.first_line_indent,
        },
        baseline_shift: style.baseline_shift,
    }
}

/// Law: applying a patch twice is the same as applying it once, and an empty patch changes nothing.
pub proof fn law_patch_idempotent(s: StyleView, patch: StylePatch)
    ensures
        patched(patched(s, patch), patch) == patched(s, patch),
        is_empty_patch(patch) ==> patched(s, patch) == s,
{
}

/// The built-in precedence order, lowest first.
pub open spec fn default_precedence_spec() -> Seq<Seq<char>> {
    seq![
        "syntax_highlight"@,
        "emphasis"@,
        "underline"@,
        "strikethrough"@,
        "link"@,
        "math"@,
        "subscript"@,
        "superscript"@,
    ]
}

/// Deterministic default precedence list (lowest -> highest).
/// Higher precedence types apply later and therefore override lower precedence when overlapping.
pub fn default_modifier_precedence() -> (r: Vec<String>)
    ensures
        r@.map_values(|s: String| s@) == default_precedence_spec(),
{
    let mut v: Vec<String> = Vec::new();
    v.push(owned("syntax_highlight"));
    v.push(owned("emphasis"));
    v.push(owned("underline"));
    v.push(owned("strikethrough"));
    v.push(owned("link"));
    v.push(owned("math"));
    v.push(owned("subscript"));
    v.push(owned("superscript"));
    assert(v@.map_values(|s: String| s@) =~= default_precedence_spec());
    v
}

/// The precedence order a theme uses: its own list, else the built-in one.
pub open spec fn precedence_spec(theme: Theme) -> Seq<Seq<char>> {
    if theme.modifiers.precedence@.len() == 0 {
        default_precedence_spec()
    } else {
        theme.modifiers.precedence@.map_values(|s: String| s@)
    }
}

pub fn modifier_precedence(theme: &Theme) -> (r: Vec<String>)
    ensures
        r@.map_values(|s: String| s@) == precedence_spec(*theme),
{
    if theme.modifiers.precedence.len() == 0 {
        default_modifier_precedence()
    } else {
        let mut v: Vec<String> = Vec::new();
        let mut i: usize = 0;
        while i < theme.modifiers.precedence.len()
            invariant
                i <= theme.modifiers.precedence.len(),
                v@.len() == i,
                forall|j: int| 0 <= j < i ==> (#[trigger] v@[j])@ == theme.modifiers.precedence@[j]@,
            decreases theme.modifiers.precedence.len() - i,
        {
            v.push(theme.modifiers.precedence[i].clone());
            i = i + 1;
        }
        assert(v@.map_values(|s: String| s@) =~= theme.modifiers.precedence@.map_values(|s: String| s@));
        v
    }
}

/// The patch a theme declares for a modifier: exact intent, else the type's `default` intent.
pub open spec fn theme_patch_spec(modifier: Modifier, theme: Theme) -> Option<StylePatch> {
    match find_key(theme.modifiers.styles@, modifier.mod_type@) {
        None => None,
        Some(by_intent) => match find_key(by_intent@, modifier.intent@) {
            Some(p) => Some(p),
            None => if modifier.intent@ != "default"@ {
                find_key(by_intent@, "default"@)
            } else {
                None
            },
        },
    }
}

/// The built-in patch of a modifier type (`None` for an unknown type).
pub open spec fn builtin_patch_ok(modifier: Modifier, p: StylePatch) -> bool {
    let t = modifier.mod_type@;
    let i = modifier.intent@;
    if t == "emphasis"@ {
        if i == "critical"@ || i == "strong"@ || i == "bold"@ {
            p == StylePatch { bold: Some(true), ..p } && is_empty_patch(StylePatch { bold: None, ..p })
        } else if i == "italic"@ || i == "emphasis"@ {
            p == StylePatch { italic: Some(true), ..p } && is_empty_patch(StylePatch { italic: None, ..p })
        } else {
            is_empty_patch(p)
        }
    } else if t == "link"@ {
        &&& p.underline == Some(true)
        &&& p.color matches Some(c) && c@ == "accent"@
        &&& is_empty_patch(StylePatch { underline: None, color: None, ..p })
    } else if t == "underline"@ {
        p.underline == Some(true) && is_empty_patch(StylePatch { underline: None, ..p })
    } else if t == "strikethrough"@ {
        p.strikethrough == Some(true) && is_empty_patch(StylePatch { strikethrough: None, ..p })
    } else {
        is_empty_patch(p)
    }
}

/// Modifier types the engine knows without theme help.
pub open spec fn builtin_modifier_type(t: Seq<char>) -> bool {
    t == "emphasis"@ || t == "link"@ || t == "underline"@ || t == "strikethrough"@ || t == "superscript"@ || t
        == "subscript"@ || t == "math"@ || t == "syntax_highlight"@
}

/// Resolve a modifier into a style patch.
/// Exact theme intent, then theme `default` for that type, then built-ins.
pub fn patch_for_modifier(modifier: &Modifier, theme: &Theme) -> (r: Result<StylePatch, String>)
    ensures
        theme_patch_spec(*modifier, *theme) matches Some(p) ==> r == Ok::<StylePatch, String>(p),
        theme_patch_spec(*modifier, *theme) is None ==> {
            &&& r is Ok <==> builtin_modifier_type(modifier.mod_type@)
            &&& r matches Ok(p) ==> builtin_patch_ok(*modifier, p)
            &&& r matches Err(e) ==> e@ == "Unknown modifier type '"@ + modifier.mod_type@ + "'"@
        },
{
    proof {
        reveal_strlit("Unknown modifier type '");
        reveal_strlit("'");
    }
    match lookup(&theme.modifiers.styles, modifier.mod_type.as_str()) {
        Some(by_intent) => {
            match lookup(by_intent, modifier.intent.as_str()) {
                Some(patch) => {
                    return Ok(patch.duplicate());
                },
                None => {},
            }
            if !same_text(&modifier.intent, "default") {
                match lookup(by_intent, "default") {
                    Some(patch) => {
                        return Ok(patch.duplicate());
                    },
                    None => {},
                }
            }
        },
        None => {},
    }
    let t = &modifier.mod_type;
    if same_text(t, "emphasis") {
        let intent = &modifier.intent;
        let mut patch = StylePatch::empty();
        if same_text(intent, "critical") || same_text(intent, "strong") || same_text(intent, "bold") {
            patch.bold = Some(true);
        } else if same_text(intent, "italic") || same_text(intent, "emphasis") {
            patch.italic = Some(true);
        }
        Ok(patch)
    } else if same_text(t, "link") {
        let mut patch = StylePatch::empty();
        patch.underline = Some(true);
        patch.color = Some(owned("accent"));
        Ok(patch)
    } else if same_text(t, "underline") {
        let mut patch = StylePatch::empty();
        patch.underline = Some(true);
        Ok(patch)
    } else if same_text(t, "strikethrough") {
        let mut patch = StylePatch::empty();
        patch.strikethrough = Some(true);
        Ok(patch)
    } else if same_text(t, "superscript") || same_text(t, "subscript") || same_text(t, "math") || same_text(
        t,
        "syntax_highlight",
    ) {
        Ok(StylePatch::empty())
    } else {
        let m = join(join(owned("Unknown modifier type '"), t.as_str()), "'");
        Err(m)
    }
}


/// Law: a role's own text fields win over the `default` role's. For a role the theme declares,
/// each of color, font size, line-height multiplier and font family that the role sets (a
/// non-empty string, a non-zero number) is the one its base style uses; a field the role leaves
/// unset comes from role `default` when there is one. Weight, slant, alignment, tracking and
/// indent are always the role's own.
pub proof fn law_role_fields_override_default(role: Seq<char>, theme: Theme)
    requires
        find_key(theme.roles@, role) is Some,
    ensures
        ({
            let rs = find_key(theme.roles@, role)->Some_0;
            let st = base_style_spec(role, theme);
            let d = find_key(theme.roles@, "default"@)->Some_0;
            &&& rs.color@.len() != 0 ==> st.color == rs.color@
            &&& st.bold == rs.bold && st.italic == rs.italic && st.text_align == rs.text_align
            &&& st.letter_spacing == rs.letter_spacing_pt && st.first_line_indent == rs.first_line_indent_pt
            &&& rs.font_size.0 != 0 ==> st.font_size == rs.font_size
            &&& rs.line_height_mult != 0 ==> st.line_height_mult == rs.line_height_mult
            &&& rs.font_family@.len() != 0 ==> st.font_family == font_key_spec(rs.font_family@, theme)
            &&& (role != "default"@ && find_key(theme.roles@, "default"@) is Some) ==> {
                &&& rs.color@.len() == 0 ==> st.color == d.color@
                &&& rs.font_size.0 == 0 ==> st.font_size == d.font_size
                &&& rs.line_height_mult == 0 ==> st.line_height_mult == d.line_height_mult
            }
        }),
{
}

} // verus!
