use vstd::prelude::*;

use crate::list_style::ListStyle;
use crate::model::Align;
use crate::pt::Pt;
use crate::style::{StylePatch, TextAlign};
use crate::text::same_text;
use crate::text::{join, owned};
use crate::visual_primitives::{
    blur_ref_view, copy_blur_ref, copy_border, copy_fill, copy_fill_ref, copy_shadow, copy_shadow_ref, fill_ref_view,
    shadow_ref_view, Blur, BlurRef, BlurRefView, BoxDecoration, BoxDecorationView, Fill, FillRef, FillRefView, Shadow,
    ShadowRef, ShadowRefView,
};

verus! {

/// Box decoration tokens as a theme declares them (primitive references preserved).
pub type ThemeDecoration = BoxDecoration;

/// Overrides a role variant applies on top of its role.
#[derive(Debug, Clone, PartialEq, Default)]
pub struct RoleVariant {
    pub box_decoration: Option<ThemeDecoration>,
    pub self_align: Option<Align>,
    pub text_overrides: Option<StylePatch>,
    pub list_style: Option<ListStyle>,
}

/// Typography and decoration of one role.
///
/// Empty strings and zero sizes mean "not declared" (inherited from role `default`).
#[derive(Debug, Clone, PartialEq)]
pub struct RoleStyle {
    pub font_family: String,
    pub font_size: Pt,
    pub line_height_mult: i128,
    pub color: String,
    pub text_align: TextAlign,
    pub self_align: Option<Align>,
    pub box_decoration: Option<ThemeDecoration>,
    pub list_style: Option<ListStyle>,
    pub bold: bool,
    pub italic: bool,
    pub letter_spacing_pt: Pt,
    pub first_line_indent_pt: Pt,
    /// Variant name -> variant overrides (the first entry with a name is the one used).
    pub variants: Vec<(String, RoleVariant)>,
}

/// Modifier styling: precedence order and per-type, per-intent patches.
#[derive(Debug, Clone, PartialEq, Default)]
pub struct ModifierTheme {
    /// Modifier types from lowest to highest precedence (empty = built-in order).
    pub precedence: Vec<String>,
    /// Modifier type -> (intent -> patch).
    pub styles: Vec<(String, Vec<(String, StylePatch)>)>,
}

/// Named paint primitives that decorations refer to by name.
#[derive(Debug, Clone, PartialEq, Default)]
pub struct ThemePrimitives {
    /// Surface name -> fill.
    pub surfaces: Vec<(String, Fill)>,
    /// Shadow name -> shadow.
    pub shadows: Vec<(String, Shadow)>,
    /// Blur name -> blur.
    pub blurs: Vec<(String, Blur)>,
}

/// The parts of a theme that layout consults.
///
/// Maps are association lists: a key's first entry is the one used.
#[derive(Debug, Clone, PartialEq, Default)]
pub struct Theme {
    /// Color token -> color value.
    pub palette: Vec<(String, String)>,
    /// Role name -> role style.
    pub roles: Vec<(String, RoleStyle)>,
    pub modifiers: ModifierTheme,
    /// Named paint primitives.
    pub primitives: ThemePrimitives,
    /// Theme font family -> loaded font key.
    pub font_aliases: Vec<(String, String)>,
}

/// The value of the first entry of `entries` whose key is `key`.
pub open spec fn find_key<V>(entries: Seq<(String, V)>, key: Seq<char>) -> Option<V>
    decreases entries.len(),
{
    if entries.len() == 0 {
        None
    } else if entries[0].0@ == key {
        Some(entries[0].1)
    } else {
        find_key(entries.drop_first(), key)
    }
}

/// Looks up the first entry whose key is `key`.
pub fn lookup<'a, V>(entries: &'a Vec<(String, V)>, key: &str) -> (r: Option<&'a V>)
    ensures
        r is Some <==> find_key(entries@, key@) is Some,
        r matches Some(v) ==> *v == find_key(entries@, key@)->Some_0,
{
    let mut i: usize = 0;
    assert(entries@.skip(0) =~= entries@);
    while i < entries.len()
        invariant
            i <= entries.len(),
            find_key(entries@, key@) == find_key(entries@.skip(i as int), key@),
        decreases entries.len() - i,
    {
        proof {
            assert(entries@.skip(i as int).drop_first() =~= entries@.skip(i + 1));
        }
        if same_text(&entries[i].0, key) {
            return Some(&entries[i].1);
        }
        i = i + 1;
    }
    None
}

/// Role style a theme uses for `role`: the role itself, else role `default`.
pub open spec fn role_or_default(theme: Theme, role: Seq<char>) -> Option<RoleStyle> {
    match find_key(theme.roles@, role) {
        Some(rs) => Some(rs),
        None => find_key(theme.roles@, "default"@),
    }
}

/// Role style for `role`, else the `default` role.
pub fn role_or_default_style<'a>(theme: &'a Theme, role: &str) -> (r: Option<&'a RoleStyle>)
    ensures
        r is Some <==> role_or_default(*theme, role@) is Some,
        r matches Some(v) ==> *v == role_or_default(*theme, role@)->Some_0,
{
    match lookup(&theme.roles, role) {
        Some(rs) => Some(rs),
        None => lookup(&theme.roles, "default"),
    }
}

/// A color token through the palette; a color the palette does not name stays as written.
pub open spec fn palette_color_spec(color: Seq<char>, theme: Theme) -> Seq<char> {
    match find_key(theme.palette@, color) {
        Some(v) => v@,
        None => color,
    }
}

/// Resolve a color token through the theme palette.
pub fn resolve_palette_color(color: &str, theme: &Theme) -> (r: String)
    ensures
        r@ == palette_color_spec(color@, *theme),
{
    match lookup(&theme.palette, color) {
        Some(v) => v.clone(),
        None => owned(color),
    }
}

/// Error text for a decoration that names a primitive the theme lacks.
pub open spec fn unknown_primitive_message(kind: Seq<char>, name: Seq<char>) -> Seq<char> {
    "Unknown "@ + kind + " '"@ + name + "'"@
}

fn unknown_primitive(kind: &str, name: &String) -> (r: String)
    ensures
        r@ == unknown_primitive_message(kind@, name@),
{
    proof {
        reveal_strlit("Unknown ");
        reveal_strlit(" '");
        reveal_strlit("'");
    }
    let m = join(owned("Unknown "), kind);
    let m = join(m, " '");
    let m = join(m, name.as_str());
    join(m, "'")
}

/// A decoration with every named primitive replaced by its value, or the first missing name
/// (background, then shadow, then blur).
pub open spec fn resolved_decoration(d: BoxDecorationView, theme: Theme) -> Result<BoxDecorationView, Seq<char>> {
    let background = match d.background {
        Some(FillRefView::Ref(n)) => match find_key(theme.primitives.surfaces@, n) {
            Some(f) => Ok(Some(fill_ref_view(FillRef::Inline(f)))),
            None => Err(unknown_primitive_message("surface"@, n)),
        },
        other => Ok(other),
    };
    let shadow = match d.shadow {
        Some(ShadowRefView::Ref(n)) => match find_key(theme.primitives.shadows@, n) {
            Some(s) => Ok(Some(shadow_ref_view(ShadowRef::Inline(s)))),
            None => Err(unknown_primitive_message("shadow"@, n)),
        },
        other => Ok(other),
    };
    let blur = match d.blur {
        Some(BlurRefView::Ref(n)) => match find_key(theme.primitives.blurs@, n) {
            Some(b) => Ok(Some(BlurRefView::Inline(b))),
            None => Err(unknown_primitive_message("blur"@, n)),
        },
        other => Ok(other),
    };
    match background {
        Err(e) => Err(e),
        Ok(bg) => match shadow {
            Err(e) => Err(e),
            Ok(sh) => match blur {
                Err(e) => Err(e),
                Ok(bl) => Ok(
                    BoxDecorationView {
                        background: bg,
                        border: d.border,
                        corner_radius_pt: d.corner_radius_pt,
                        padding_pt: d.padding_pt,
                        shadow: sh,
                        blur: bl,
                    },
                ),
            },
        },
    }
}

/// Resolve the named primitives of a theme decoration into inline values.
pub fn resolve_theme_decoration(named: &ThemeDecoration, theme: &Theme) -> (r: Result<BoxDecoration, String>)
    ensures
        match resolved_decoration(named@, *theme) {
            Ok(d) => r matches Ok(x) && x@ == d,
            Err(e) => r matches Err(m) && m@ == e,
        },
{
    let background = match &named.background {
        Some(FillRef::Ref(n)) => match lookup(&theme.primitives.surfaces, n.as_str()) {
            Some(f) => Some(FillRef::Inline(copy_fill(f))),
            None => {
                return Err(unknown_primitive("surface", n));
            },
        },
        Some(f) => Some(copy_fill_ref(f)),
        None => None,
    };
    let shadow = match &named.shadow {
        Some(ShadowRef::Ref(n)) => match lookup(&theme.primitives.shadows, n.as_str()) {
            Some(s) => Some(ShadowRef::Inline(copy_shadow(s))),
            None => {
                return Err(unknown_primitive("shadow", n));
            },
        },
        Some(s) => Some(copy_shadow_ref(s)),
        None => None,
    };
    let blur = match &named.blur {
        Some(BlurRef::Ref(n)) => match lookup(&theme.primitives.blurs, n.as_str()) {
            Some(b) => Some(BlurRef::Inline(*b)),
            None => {
                return Err(unknown_primitive("blur", n));
            },
        },
        Some(b) => Some(copy_blur_ref(b)),
        None => None,
    };
    let border = match &named.border {
        Some(b) => Some(copy_border(b)),
        None => None,
    };
    Ok(
        BoxDecoration {
            background,
            border,
            corner_radius_pt: named.corner_radius_pt,
            padding_pt: named.padding_pt,
            shadow,
            blur,
        },
    )
}

} // verus!
