use vstd::prelude::*;

use crate::pt::Pt;
use crate::style::TextAlign;
use crate::text::owned;

verus! {

/// Theme tokens controlling list marker geometry and indentation.
///
/// All fields are optional so themes can partially override base role values via variants.
#[derive(Debug, Clone, Default, PartialEq)]
pub struct ListStyle {
    /// Fixed-width marker box to keep wrap width independent of the marker label.
    pub marker_box_width_pt: Option<Pt>,
    /// Gap between marker box and the start of body text.
    pub marker_gap_pt: Option<Pt>,
    /// Additional indent per nesting depth level.
    pub depth_indent_pt: Option<Pt>,
    /// Alignment of the marker label within the fixed marker box.
    pub marker_align: Option<TextAlign>,
    /// Glyph used for bullet markers.
    pub bullet_glyph: Option<String>,
    /// Suffix appended to numbers (e.g. "." yields "1.").
    pub number_suffix: Option<String>,
}

/// `overlay`'s declared fields over `base`.
pub open spec fn overlay_list_style(base: ListStyle, overlay: ListStyle) -> ListStyle {
    ListStyle {
        marker_box_width_pt: if overlay.marker_box_width_pt is Some {
            overlay.marker_box_width_pt
        } else {
            base.marker_box_width_pt
        },
        marker_gap_pt: if overlay.marker_gap_pt is Some { overlay.marker_gap_pt } else { base.marker_gap_pt },
        depth_indent_pt: if overlay.depth_indent_pt is Some { overlay.depth_indent_pt } else { base.depth_indent_pt },
        marker_align: if overlay.marker_align is Some { overlay.marker_align } else { base.marker_align },
        bullet_glyph: if overlay.bullet_glyph is Some { overlay.bullet_glyph } else { base.bullet_glyph },
        number_suffix: if overlay.number_suffix is Some { overlay.number_suffix } else { base.number_suffix },
    }
}

/// A list style that declares nothing.
pub open spec fn empty_list_style() -> ListStyle {
    ListStyle {
        marker_box_width_pt: None,
        marker_gap_pt: None,
        depth_indent_pt: None,
        marker_align: None,
        bullet_glyph: None,
        number_suffix: None,
    }
}

/// The merge `merged` computes, over values.
pub open spec fn merged_spec(base: Option<ListStyle>, overlay: Option<ListStyle>) -> Option<ListStyle> {
    if base is None && overlay is None {
        None
    } else {
        let b = match base {
            Some(b) => b,
            None => empty_list_style(),
        };
        match overlay {
            Some(o) => Some(overlay_list_style(b, o)),
            None => Some(b),
        }
    }
}

/// The starter defaults for a list item (18pt marker box, 4pt gap, 18pt per depth, "-" and ".").
pub open spec fn is_list_item_defaults(s: ListStyle) -> bool {
    &&& s.marker_box_width_pt == Some(Pt(18_000))
    &&& s.marker_gap_pt == Some(Pt(4_000))
    &&& s.depth_indent_pt == Some(Pt(18_000))
    &&& s.marker_align is None
    &&& s.bullet_glyph matches Some(g) && g@ == "-"@
    &&& s.number_suffix matches Some(g) && g@ == "."@
}

fn copy_opt_string(s: &Option<String>) -> (r: Option<String>)
    ensures
        r == *s,
{
    match s {
        Some(v) => Some(v.clone()),
        None => None,
    }
}

impl ListStyle {
    /// Starter-theme defaults when `list_item` omits `list_style`.
    pub fn list_item_defaults() -> (r: Self)
        ensures
            is_list_item_defaults(r),
    {
        Self {
            marker_box_width_pt: Some(Pt(18_000)),
            marker_gap_pt: Some(Pt(4_000)),
            depth_indent_pt: Some(Pt(18_000)),
            marker_align: None,
            bullet_glyph: Some(owned("-")),
            number_suffix: Some(owned(".")),
        }
    }

    /// An exact copy.
    pub fn duplicate(&self) -> (r: Self)
        ensures
            r == *self,
    {
        ListStyle {
            marker_box_width_pt: self.marker_box_width_pt,
            marker_gap_pt: self.marker_gap_pt,
            depth_indent_pt: self.depth_indent_pt,
            marker_align: self.marker_align,
            bullet_glyph: copy_opt_string(&self.bullet_glyph),
            number_suffix: copy_opt_string(&self.number_suffix),
        }
    }

    /// Deterministically merge a base definition with an overlay definition.
    ///
    /// For each field, `overlay` wins when it is present; otherwise the value from `base` is kept.
    pub fn merged(base: Option<&ListStyle>, overlay: Option<&ListStyle>) -> (r: Option<ListStyle>)
        ensures
            r == merged_spec(
                match base {
                    Some(b) => Some(*b),
                    None => None,
                },
                match overlay {
                    Some(o) => Some(*o),
                    None => None,
                },
            ),
    {
        if base.is_none() && overlay.is_none() {
            return None;
        }
        let mut out = match base {
            Some(b) => b.duplicate(),
            None => ListStyle {
                marker_box_width_pt: None,
                marker_gap_pt: None,
                depth_indent_pt: None,
                marker_align: None,
                bullet_glyph: None,
                number_suffix: None,
            },
        };
        match overlay {
            Some(ov) => out.apply_overrides(ov),
            None => {},
        }
        Some(out)
    }

    /// Every field `overlay` declares replaces this style's value.
    pub fn apply_overrides(&mut self, overlay: &ListStyle)
        ensures
            *final(self) == overlay_list_style(*old(self), *overlay),
    {
        if overlay.marker_box_width_pt.is_some() {
            self.marker_box_width_pt = overlay.marker_box_width_pt;
        }
        if overlay.marker_gap_pt.is_some() {
            self.marker_gap_pt = overlay.marker_gap_pt;
        }
        if overlay.depth_indent_pt.is_some() {
            self.depth_indent_pt = overlay.depth_indent_pt;
        }
        if overlay.marker_align.is_some() {
            self.marker_align = overlay.marker_align;
        }
        if overlay.bullet_glyph.is_some() {
            self.bullet_glyph = copy_opt_string(&overlay.bullet_glyph);
        }
        if overlay.number_suffix.is_some() {
            self.number_suffix = copy_opt_string(&overlay.number_suffix);
        }
    }
}

/// Law: merging is an overlay: with no overlay the base comes back, and overlaying twice
/// with the same overlay changes nothing more.
pub proof fn law_list_style_overlay_idempotent(base: ListStyle, overlay: ListStyle)
    ensures
        overlay_list_style(overlay_list_style(base, overlay), overlay) == overlay_list_style(base, overlay),
        merged_spec(Some(base), None) == Some(base),
        overlay_list_style(base, empty_list_style()) == base,
{
}

} // verus!
