use vstd::prelude::*;

use crate::list_style::{is_list_item_defaults, merged_spec, ListStyle};
use crate::model::Align;
use crate::pt::Pt;
use crate::style::{apply_patch, base_style_spec, patched, resolve_base_style, Style, StyleView};
use crate::text::same_text;
use crate::theme::{find_key, lookup, role_or_default, role_or_default_style, RoleStyle, RoleVariant, Theme, ThemeDecoration};
use crate::visual_primitives::{merged_decoration, BoxDecorationView, EdgeInsetsPt};

verus! {

/// Insets in fixed-point pt units (1/1000 pt).
#[derive(Debug, Clone, Copy, PartialEq, Eq, Structural)]
pub struct EdgeInsets {
    pub top: Pt,
    pub right: Pt,
    pub bottom: Pt,
    pub left: Pt,
}

impl EdgeInsets {
    /// No insets.
    pub fn zero() -> (r: EdgeInsets)
        ensures
            r.top.0 == 0 && r.right.0 == 0 && r.bottom.0 == 0 && r.left.0 == 0,
    {
        EdgeInsets { top: Pt(0), right: Pt(0), bottom: Pt(0), left: Pt(0) }
    }

    pub open spec fn horizontal_spec(self) -> int {
        self.left.0 + self.right.0
    }

    pub open spec fn vertical_spec(self) -> int {
        self.top.0 + self.bottom.0
    }

    pub fn horizontal(self) -> (r: Pt)
        requires
            i128::MIN <= self.left.0 + self.right.0 <= i128::MAX,
        ensures
            r.0 == self.horizontal_spec(),
    {
        Pt(self.left.0 + self.right.0)
    }

    pub fn vertical(self) -> (r: Pt)
        requires
            i128::MIN <= self.top.0 + self.bottom.0 <= i128::MAX,
        ensures
            r.0 == self.vertical_spec(),
    {
        Pt(self.top.0 + self.bottom.0)
    }
}

/// The variant named `variant` of the role style a theme uses for `role`.
pub open spec fn variant_def(theme: Theme, role: Seq<char>, variant: Option<Seq<char>>) -> Option<RoleVariant> {
    match variant {
        None => None,
        Some(v) => match role_or_default(theme, role) {
            None => None,
            Some(rs) => find_key(rs.variants@, v),
        },
    }
}

pub open spec fn opt_str_view(s: Option<&str>) -> Option<Seq<char>> {
    match s {
        Some(v) => Some(v@),
        None => None,
    }
}

/// Text style of a role/variant: the base style, then the variant's text overrides.
pub open spec fn text_style_spec(role: Seq<char>, variant: Option<Seq<char>>, theme: Theme) -> StyleView {
    let base = base_style_spec(role, theme);
    match variant_def(theme, role, variant) {
        Some(vd) => match vd.text_overrides {
            Some(p) => patched(base, p),
            None => base,
        },
        None => base,
    }
}

/// Resolve the base text style for a role, then apply any role-variant text overrides.
///
/// Modifiers are applied later by the text run splitting logic.
pub fn resolve_text_style(role: &str, variant: Option<&str>, theme: &Theme) -> (r: Style)
    ensures
        r@ == text_style_spec(role@, opt_str_view(variant), *theme),
{
    let style = resolve_base_style(role, theme);
    let variant_name = match variant {
        Some(v) => v,
        None => {
            return style;
        },
    };
    let role_style = match role_or_default_style(theme, role) {
        Some(rs) => rs,
        None => {
            return style;
        },
    };
    let vdef = match lookup(&role_style.variants, variant_name) {
        Some(v) => v,
        None => {
            return style;
        },
    };
    match &vdef.text_overrides {
        Some(patch) => apply_patch(style, patch),
        None => style,
    }
}

/// Self-alignment override of a role/variant: the variant's, else the role's.
pub open spec fn self_align_spec(role: Seq<char>, variant: Option<Seq<char>>, theme: Theme) -> Option<Align> {
    match role_or_default(theme, role) {
        None => None,
        Some(rs) => match variant_def(theme, role, variant) {
            Some(vd) if vd.self_align is Some => vd.self_align,
            _ => rs.self_align,
        },
    }
}

/// Resolve the self-alignment override for a role/variant.
///
/// Returns Some(Align) if the theme explicitly sets it, otherwise None.
pub fn resolve_self_align(role: &str, variant: Option<&str>, theme: &Theme) -> (r: Option<Align>)
    ensures
        r == self_align_spec(role@, opt_str_view(variant), *theme),
{
    let role_style = match role_or_default_style(theme, role) {
        Some(rs) => rs,
        None => {
            return None;
        },
    };
    match variant {
        Some(variant_name) => {
            match lookup(&role_style.variants, variant_name) {
                Some(vd) => {
                    if vd.self_align.is_some() {
                        return vd.self_align;
                    }
                },
                None => {},
            }
        },
        None => {},
    }
    role_style.self_align
}

pub open spec fn opt_deco_view(d: Option<ThemeDecoration>) -> Option<BoxDecorationView> {
    match d {
        Some(x) => Some(x@),
        None => None,
    }
}

/// Box decoration of a role/variant: the role's, with the variant's declared fields over it.
pub open spec fn box_decoration_spec(role: Seq<char>, variant: Option<Seq<char>>, theme: Theme) -> Option<
    BoxDecorationView,
> {
    match role_or_default(theme, role) {
        None => None,
        Some(rs) => {
            let base = opt_deco_view(rs.box_decoration);
            match variant_def(theme, role, variant) {
                Some(vd) => match vd.box_decoration {
                    Some(vdec) => match base {
                        Some(b) => Some(merged_decoration(b, vdec@)),
                        None => Some(vdec@),
                    },
                    None => base,
                },
                None => base,
            }
        },
    }
}

/// Resolve the box decoration for a role, then apply any role-variant overrides.
///
/// The output is representation-level (it preserves primitive references). Consumers decide
/// when/where to resolve named primitives into concrete paint operations.
pub fn resolve_box_decoration(role: &str, variant: Option<&str>, theme: &Theme) -> (r: Option<ThemeDecoration>)
    ensures
        opt_deco_view(r) == box_decoration_spec(role@, opt_str_view(variant), *theme),
{
    let role_style = match role_or_default_style(theme, role) {
        Some(rs) => rs,
        None => {
            return None;
        },
    };
    let mut decoration = match &role_style.box_decoration {
        Some(d) => Some(d.duplicate()),
        None => None,
    };
    let variant_name = match variant {
        Some(v) => v,
        None => {
            return decoration;
        },
    };
    let vdef = match lookup(&role_style.variants, variant_name) {
        Some(v) => v,
        None => {
            return decoration;
        },
    };
    let variant_decoration = match &vdef.box_decoration {
        Some(d) => d,
        None => {
            return decoration;
        },
    };
    match decoration {
        Some(mut base) => {
            base.merge_from(variant_decoration);
            Some(base)
        },
        None => Some(variant_decoration.duplicate()),
    }
}

/// List style of a role/variant; `list_item` falls back to the starter defaults.
pub open spec fn list_style_ok(role: Seq<char>, variant: Option<Seq<char>>, theme: Theme, r: Option<ListStyle>) -> bool {
    match role_or_default(theme, role) {
        None => r is None,
        Some(rs) => {
            let base = rs.list_style;
            let default_for_role = role == "list_item"@ && base is None;
            match variant_def(theme, role, variant) {
                None => if default_for_role {
                    r matches Some(s) && is_list_item_defaults(s)
                } else {
                    r == base
                },
                Some(vd) => {
                    let m = merged_spec(base, vd.list_style);
                    if m is None && role == "list_item"@ {
                        r matches Some(s) && is_list_item_defaults(s)
                    } else {
                        r == m
                    }
                },
            }
        },
    }
}

/// Resolve list layout tokens for a role, then deterministically apply any role-variant overrides.
pub fn resolve_list_style(role: &str, variant: Option<&str>, theme: &Theme) -> (r: Option<ListStyle>)
    ensures
        list_style_ok(role@, opt_str_view(variant), *theme, r),
{
    let role_style = match role_or_default_style(theme, role) {
        Some(rs) => rs,
        None => {
            return None;
        },
    };
    let base = role_style.list_style.as_ref();
    let default_for_role = same_text(&crate::text::owned(role), "list_item") && base.is_none();
    let vdef = match variant {
        Some(variant_name) => lookup(&role_style.variants, variant_name),
        None => None,
    };
    match vdef {
        None => {
            if default_for_role {
                return Some(ListStyle::list_item_defaults());
            }
            match base {
                Some(b) => Some(b.duplicate()),
                None => None,
            }
        },
        Some(vd) => {
            let merged = ListStyle::merged(base, vd.list_style.as_ref());
            if merged.is_none() && same_text(&crate::text::owned(role), "list_item") {
                return Some(ListStyle::list_item_defaults());
            }
            merged
        },
    }
}

/// Insets from a declared padding, rejecting negative sides.
pub open spec fn insets_spec(p: EdgeInsetsPt) -> Option<EdgeInsets> {
    let (top, right, bottom, left) = match p {
        EdgeInsetsPt::Uniform(v) => (v, v, v, v),
        EdgeInsetsPt::PerEdge { top, right, bottom, left } => (top, right, bottom, left),
    };
    if top < 0 || right < 0 || bottom < 0 || left < 0 {
        None
    } else {
        Some(
            EdgeInsets {
                top: Pt(top as i128),
                right: Pt(right as i128),
                bottom: Pt(bottom as i128),
                left: Pt(left as i128),
            },
        )
    }
}

fn edge_insets_from_pt(insets: &EdgeInsetsPt) -> (r: Result<EdgeInsets, String>)
    ensures
        match insets_spec(*insets) {
            Some(e) => r == Ok::<EdgeInsets, String>(e),
            None => r is Err,
        },
{
    let (top, right, bottom, left) = match insets {
        EdgeInsetsPt::Uniform(v) => (*v, *v, *v, *v),
        EdgeInsetsPt::PerEdge { top, right, bottom, left } => (*top, *right, *bottom, *left),
    };
    if top < 0 || right < 0 || bottom < 0 || left < 0 {
        return Err(crate::text::owned("Padding insets must be non-negative"));
    }
    Ok(EdgeInsets { top: Pt(top as i128), right: Pt(right as i128), bottom: Pt(bottom as i128), left: Pt(left as i128) })
}

/// Padding of a decoration view: none is zero, negative sides are rejected.
pub open spec fn padding_of(d: Option<BoxDecorationView>) -> Option<EdgeInsets> {
    match d {
        None => Some(EdgeInsets { top: Pt(0), right: Pt(0), bottom: Pt(0), left: Pt(0) }),
        Some(v) => match v.padding_pt {
            None => Some(EdgeInsets { top: Pt(0), right: Pt(0), bottom: Pt(0), left: Pt(0) }),
            Some(p) => insets_spec(p),
        },
    }
}

pub fn padding_from_decoration(decoration: &ThemeDecoration) -> (r: Result<EdgeInsets, String>)
    ensures
        match padding_of(Some(decoration@)) {
            Some(e) => r == Ok::<EdgeInsets, String>(e),
            None => r is Err,
        },
{
    match &decoration.padding_pt {
        Some(padding) => edge_insets_from_pt(padding),
        None => Ok(EdgeInsets::zero()),
    }
}

/// Padding of a role/variant's resolved decoration.
pub open spec fn role_padding(role: Seq<char>, variant: Option<Seq<char>>, theme: Theme) -> Option<EdgeInsets> {
    padding_of(box_decoration_spec(role, variant, theme))
}

/// Extract padding insets for a node-like (role, variant) pair.
pub fn padding_for_role_variant(role: &str, variant: Option<&str>, theme: &Theme) -> (r: Result<EdgeInsets, String>)
    ensures
        match role_padding(role@, opt_str_view(variant), *theme) {
            Some(e) => r == Ok::<EdgeInsets, String>(e),
            None => r is Err,
        },
{
    match resolve_box_decoration(role, variant, theme) {
        Some(decoration) => padding_from_decoration(&decoration),
        None => Ok(EdgeInsets::zero()),
    }
}

/// Resolved padding sides fit in `i64` (they are declared as `i64`).
pub proof fn lemma_padding_fits_i64(role: Seq<char>, variant: Option<Seq<char>>, theme: Theme)
    ensures
        role_padding(role, variant, theme) matches Some(e) ==> e.top.0 <= i64::MAX && e.right.0 <= i64::MAX
            && e.bottom.0 <= i64::MAX && e.left.0 <= i64::MAX,
{
}

/// Law: resolved padding is never negative.
pub proof fn law_padding_non_negative(role: Seq<char>, variant: Option<Seq<char>>, theme: Theme)
    ensures
        role_padding(role, variant, theme) matches Some(e) ==> e.top.0 >= 0 && e.right.0 >= 0 && e.bottom.0 >= 0
            && e.left.0 >= 0,
{
}

} // verus!
