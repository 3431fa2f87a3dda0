use vstd::prelude::*;

use crate::layout_context::LayoutContext;
use crate::list_style::{merged_spec, ListStyle};
use crate::model::SemanticNode;
use crate::pt::Pt;
use crate::resolved_style::{list_style_ok, opt_str_view, resolve_list_style, variant_def};
use crate::text::{join, owned};
use crate::text_types::opt_text_view;
use crate::theme::{role_or_default, Theme};

verus! {

/// Geometry inputs needed to measure a list item deterministically.
///
/// Measurement must not depend on the marker label text (e.g. "9." vs "10.").
/// Instead, the theme provides a fixed marker box width, plus a deterministic gap and per-depth indent.
#[derive(Debug, Clone, Copy, PartialEq, Eq, Structural)]
pub struct ListItemMeasureSpec {
    pub indent: Pt,
    pub marker_box_width: Pt,
    pub marker_gap: Pt,
}

impl ListItemMeasureSpec {
    /// Width before the body text: indent, marker box and gap.
    pub fn leading_width(self) -> (r: Pt)
        requires
            i128::MIN <= self.indent.0 + self.marker_box_width.0 + self.marker_gap.0 <= i128::MAX,
            i128::MIN <= self.indent.0 + self.marker_box_width.0 <= i128::MAX,
        ensures
            r.0 == self.indent.0 + self.marker_box_width.0 + self.marker_gap.0,
    {
        Pt(self.indent.0 + self.marker_box_width.0 + self.marker_gap.0)
    }
}

/// Marker box width, marker gap and depth indent of a list style.
pub open spec fn style_geometry(s: ListStyle) -> (Option<Pt>, Option<Pt>, Option<Pt>) {
    (s.marker_box_width_pt, s.marker_gap_pt, s.depth_indent_pt)
}

/// Geometry of the list style a role/variant resolves to; `None` when it has no list style.
pub open spec fn list_geometry(role: Seq<char>, variant: Option<Seq<char>>, theme: Theme) -> Option<
    (Option<Pt>, Option<Pt>, Option<Pt>),
> {
    match role_or_default(theme, role) {
        None => None,
        Some(rs) => {
            let base = rs.list_style;
            let defaults = Some((Some(Pt(18_000)), Some(Pt(4_000)), Some(Pt(18_000))));
            match variant_def(theme, role, variant) {
                None => if role == "list_item"@ && base is None {
                    defaults
                } else {
                    match base {
                        Some(b) => Some(style_geometry(b)),
                        None => None,
                    }
                },
                Some(vd) => {
                    let m = merged_spec(base, vd.list_style);
                    if m is None && role == "list_item"@ {
                        defaults
                    } else {
                        match m {
                            Some(x) => Some(style_geometry(x)),
                            None => None,
                        }
                    }
                },
            }
        },
    }
}

/// What `list_item_measure_spec` gives: every geometry field declared, the indent being the
/// depth indent times the depth; `None` when a field or the style is missing.
pub open spec fn measure_spec_of(n: SemanticNode, theme: Theme) -> Option<ListItemMeasureSpec> {
    match list_geometry(n.role@, opt_text_view(n.variant), theme) {
        Some((Some(mb), Some(mg), Some(di))) => Some(
            ListItemMeasureSpec {
                indent: Pt(
                    (di.0 * match n.depth {
                        Some(d) => d as int,
                        None => 0,
                    }) as i128,
                ),
                marker_box_width: mb,
                marker_gap: mg,
            },
        ),
        _ => None,
    }
}

/// Depth indents small enough to multiply by any depth inside `i128`.
pub open spec fn indent_ok(n: SemanticNode, theme: Theme) -> bool {
    list_geometry(n.role@, opt_text_view(n.variant), theme) matches Some((_, _, Some(di))) ==> -0x400_0000_0000_0000_0000_0000
        <= di.0 <= 0x400_0000_0000_0000_0000_0000
}

/// Measurement geometry of a list item from its theme list style.
pub fn list_item_measure_spec(node: &SemanticNode, ctx: &LayoutContext) -> (r: Result<ListItemMeasureSpec, String>)
    requires
        indent_ok(*node, *ctx.theme),
    ensures
        match measure_spec_of(*node, *ctx.theme) {
            None => r is Err,
            Some(s) => r == Ok::<ListItemMeasureSpec, String>(s),
        },
{
    let variant = match &node.variant {
        Some(v) => Some(v.as_str()),
        None => None,
    };
    let style = resolve_list_style(node.role.as_str(), variant, ctx.theme);
    proof {
        assert(list_style_ok(node.role@, opt_str_view(variant), *ctx.theme, style));
    }
    let style = match style {
        Some(s) => s,
        None => {
            let m = join(owned("Missing list_style for role '"), node.role.as_str());
            return Err(join(m, "' (required to measure list items deterministically)"));
        },
    };
    let marker_box_width = match style.marker_box_width_pt {
        Some(v) => v,
        None => {
            return Err(owned("list_style.marker_box_width_pt is required for list item measurement"));
        },
    };
    let marker_gap = match style.marker_gap_pt {
        Some(v) => v,
        None => {
            return Err(owned("list_style.marker_gap_pt is required for list item measurement"));
        },
    };
    let depth_indent = match style.depth_indent_pt {
        Some(v) => v,
        None => {
            return Err(owned("list_style.depth_indent_pt is required for list item measurement"));
        },
    };
    let depth: i128 = match node.depth {
        Some(d) => d as i128,
        None => 0,
    };
    let di = depth_indent.0;
    proof {
        assert(-0x400_0000_0000_0000_0000_0000_0000_0000int <= di * depth
            <= 0x400_0000_0000_0000_0000_0000_0000_0000int) by (nonlinear_arith)
            requires
                -0x400_0000_0000_0000_0000_0000int <= di <= 0x400_0000_0000_0000_0000_0000int,
                0 <= depth <= 0xffff_ffff,
        ;
    }
    let indent = Pt(di * depth);
    Ok(ListItemMeasureSpec { indent, marker_box_width, marker_gap })
}

/// Law: list item measurement does not depend on the marker: two items with the same role,
/// variant and depth measure alike, whatever their list id or marker type.
pub proof fn law_measure_ignores_marker(a: SemanticNode, b: SemanticNode, theme: Theme)
    requires
        a.role@ == b.role@,
        opt_text_view(a.variant) == opt_text_view(b.variant),
        a.depth == b.depth,
    ensures
        measure_spec_of(a, theme) == measure_spec_of(b, theme),
{
}

} // verus!
