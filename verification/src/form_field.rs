use vstd::prelude::*;

use crate::layout_context::{LayoutContext, Point, Size, SizeConstraint};
use crate::model::{Align, FormFieldKind, FormFieldSpec, GlyphPosition, NodeContent, SemanticNode, TextGlyphRun};
use crate::pt::Pt;
use crate::resolved_style::{opt_str_view, padding_for_role_variant, resolve_text_style, role_padding, text_style_spec};
use crate::text::{join, owned};
use crate::text_types::{line_height_for_style, line_height_spec, style_metrics_ok};

verus! {

/// Lines a field reserves when it declares none: one, three for a multiline field.
pub open spec fn default_lines_spec(kind: FormFieldKind) -> u32 {
    match kind {
        FormFieldKind::Text => 1,
        FormFieldKind::Multiline => 3,
        FormFieldKind::Checkbox => 1,
    }
}

pub fn default_lines(kind: FormFieldKind) -> (r: u32)
    ensures
        r == default_lines_spec(kind),
{
    match kind {
        FormFieldKind::Text => 1,
        FormFieldKind::Multiline => 3,
        FormFieldKind::Checkbox => 1,
    }
}

/// An axis limit of `i128::MAX` means "unbounded".
pub fn unbounded(v: Pt) -> (r: bool)
    ensures
        r == (v.0 == i128::MAX),
{
    v.0 == i128::MAX
}

/// `value` capped to `max`, unless `max` is unbounded.
pub open spec fn cap_axis_spec(value: int, max: int) -> int {
    if max == i128::MAX {
        value
    } else if value <= max {
        value
    } else {
        max
    }
}

pub fn cap_axis(value: Pt, max: Pt) -> (r: Pt)
    ensures
        r.0 == cap_axis_spec(value.0 as int, max.0 as int),
{
    if unbounded(max) {
        value
    } else if value.0 <= max.0 {
        value
    } else {
        max
    }
}

/// Stretch would resize a reserved slot; form fields keep Start instead.
pub fn lock_stretch(node: &SemanticNode, align: Align) -> (r: Align)
    ensures
        r == if node.content is FormField && align == Align::Stretch {
            Align::Start
        } else {
            align
        },
{
    let is_field = match &node.content {
        NodeContent::FormField(_) => true,
        _ => false,
    };
    if is_field && align == Align::Stretch {
        Align::Start
    } else {
        align
    }
}

// ---------------------------------------------------------------------------------------------
// Measuring.

/// Width a field reserves: a checkbox its declared width or the font size, other fields their
/// declared width, else the whole bounded width; `None` for an undeclared width under an
/// unbounded limit.
pub open spec fn form_width_spec(spec: FormFieldSpec, max_w: int, font_size: int) -> Option<int> {
    match spec.kind {
        FormFieldKind::Checkbox => Some(
            cap_axis_spec(
                match spec.width {
                    Some(w) => w.0 as int,
                    None => font_size,
                },
                max_w,
            ),
        ),
        _ => match spec.width {
            Some(w) => Some(cap_axis_spec(w.0 as int, max_w)),
            None => if max_w == i128::MAX {
                None
            } else {
                Some(max_w)
            },
        },
    }
}

/// Height a field reserves: a checkbox its declared height or the font size, other fields their
/// declared height, else their lines times the line height plus vertical padding; capped.
pub open spec fn form_height_spec(spec: FormFieldSpec, max_h: int, font_size: int, line_h: int, vpad: int) -> int {
    match spec.kind {
        FormFieldKind::Checkbox => cap_axis_spec(
            match spec.height {
                Some(h) => h.0 as int,
                None => font_size,
            },
            max_h,
        ),
        _ => cap_axis_spec(
            match spec.height {
                Some(h) => h.0 as int,
                None => line_h * (match spec.lines {
                    Some(l) => l,
                    None => default_lines_spec(spec.kind),
                }) + vpad,
            },
            max_h,
        ),
    }
}

/// Text styles whose line height times any line count stays inside `i128`.
pub open spec fn field_metrics_ok(role: Seq<char>, variant: Option<Seq<char>>, ctx_theme: crate::theme::Theme) -> bool {
    let st = text_style_spec(role, variant, ctx_theme);
    &&& style_metrics_ok(st)
    &&& -0x4_0000_0000_0000_0000_0000 <= line_height_spec(st) <= 0x4_0000_0000_0000_0000_0000
}

fn node_variant(node: &SemanticNode) -> (r: Option<&str>)
    ensures
        opt_str_view(r) == crate::text_types::opt_text_view(node.variant),
{
    match &node.variant {
        Some(v) => Some(v.as_str()),
        None => None,
    }
}

/// Error text for a form field without a width in an unbounded parent.
pub open spec fn unbounded_width_text(id: Seq<char>) -> Seq<char> {
    "FORM_FIELD_UNBOUNDED_WIDTH: node '"@ + id + "': form field needs an explicit width when the parent width is unbounded"@
}

/// "FORM_FIELD_UNBOUNDED_WIDTH: node '<id>': ..." message.
fn unbounded_width_message(id: &str) -> (r: String)
    ensures
        r@ == unbounded_width_text(id@),
{
    proof {
        reveal_strlit("FORM_FIELD_UNBOUNDED_WIDTH: node '");
        reveal_strlit("': form field needs an explicit width when the parent width is unbounded");
    }
    let m = join(owned("FORM_FIELD_UNBOUNDED_WIDTH: node '"), id);
    join(m, "': form field needs an explicit width when the parent width is unbounded")
}

/// Measure a reserved form field from its declared metrics.
pub fn measure_form_field(spec: &FormFieldSpec, node: &SemanticNode, constraint: SizeConstraint, ctx: &LayoutContext) -> (r:
    Result<Size, String>)
    requires
        field_metrics_ok(node.role@, crate::text_types::opt_text_view(node.variant), *ctx.theme),
    ensures
        ({
            let st = text_style_spec(node.role@, crate::text_types::opt_text_view(node.variant), *ctx.theme);
            match role_padding(node.role@, crate::text_types::opt_text_view(node.variant), *ctx.theme) {
                None => r is Err,
                Some(p) => match form_width_spec(*spec, constraint.max.width.0 as int, st.font_size.0 as int) {
                    None => r is Err,
                    Some(w) => r == Ok::<Size, String>(
                        constraint.constrain_spec(
                            Size {
                                width: Pt(w as i128),
                                height: Pt(
                                    form_height_spec(
                                        *spec,
                                        constraint.max.height.0 as int,
                                        st.font_size.0 as int,
                                        line_height_spec(st),
                                        p.vertical_spec(),
                                    ) as i128,
                                ),
                            },
                        ),
                    ),
                },
            }
        }),
{
    let variant = node_variant(node);
    let padding = padding_for_role_variant(node.role.as_str(), variant, ctx.theme)?;
    let style = resolve_text_style(node.role.as_str(), variant, ctx.theme);
    proof {
        crate::resolved_style::law_padding_non_negative(node.role@, opt_str_view(variant), *ctx.theme);
    }
    let line_h = line_height_for_style(&style);
    let font_size = style.font_size;
    let max_w = constraint.max.width;
    let max_h = constraint.max.height;

    let width = match spec.kind {
        FormFieldKind::Checkbox => cap_axis(
            match spec.width {
                Some(w) => w,
                None => font_size,
            },
            max_w,
        ),
        _ => match spec.width {
            Some(w) => cap_axis(w, max_w),
            None => {
                if unbounded(max_w) {
                    return Err(unbounded_width_message(node.id.as_str()));
                }
                max_w
            },
        },
    };

    let height = match spec.kind {
        FormFieldKind::Checkbox => cap_axis(
            match spec.height {
                Some(h) => h,
                None => font_size,
            },
            max_h,
        ),
        _ => {
            let computed = match spec.height {
                Some(h) => h,
                None => {
                    let lines: u32 = match spec.lines {
                        Some(l) => l,
                        None => default_lines(spec.kind),
                    };
                    let lh = line_h.0;
                    proof {
                        assert(-0x4_0000_0000_0000_0000_0000_0000_0000int <= lh * lines
                            <= 0x4_0000_0000_0000_0000_0000_0000_0000int) by (nonlinear_arith)
                            requires
                                -0x4_0000_0000_0000_0000_0000int <= lh <= 0x4_0000_0000_0000_0000_0000int,
                                0 <= lines <= 0xffff_ffff,
                        ;
                    }
                    let v = padding.vertical();
                    Pt(lh * (lines as i128) + v.0)
                },
            };
            cap_axis(computed, max_h)
        },
    };

    Ok(constraint.constrain(Size::new(width, height)))
}

// ---------------------------------------------------------------------------------------------
// Clipping.

/// The glyph lies inside the box: its advance within the width, its origin within the height.
pub open spec fn glyph_kept(g: GlyphPosition, size: Size) -> bool {
    &&& g.x_offset.0 >= 0
    &&& g.x_offset.0 + g.x_advance.0 <= size.width.0
    &&& g.y_offset.0 >= 0
    &&& g.y_offset.0 < size.height.0
}

/// Number of kept glyphs among the first `k`.
pub open spec fn kept_before(glyphs: Seq<GlyphPosition>, size: Size, k: int) -> int
    decreases k,
{
    if k <= 0 {
        0
    } else {
        kept_before(glyphs, size, k - 1) + if glyph_kept(glyphs[k - 1], size) {
            1int
        } else {
            0int
        }
    }
}

/// The kept glyphs, in order.
pub open spec fn kept_glyphs(glyphs: Seq<GlyphPosition>, size: Size) -> Seq<GlyphPosition>
    decreases glyphs.len(),
{
    if glyphs.len() == 0 {
        seq![]
    } else {
        let rest = kept_glyphs(glyphs.drop_last(), size);
        if glyph_kept(glyphs.last(), size) {
            rest.push(glyphs.last())
        } else {
            rest
        }
    }
}

/// A run re-pointed at the kept glyphs it covered; `None` when it kept none.
pub open spec fn clipped_run(run: TextGlyphRun, glyphs: Seq<GlyphPosition>, size: Size) -> Option<TextGlyphRun> {
    let a = run.glyph_range@[0] as int;
    let hi = if run.glyph_range@[1] as int <= glyphs.len() {
        run.glyph_range@[1] as int
    } else {
        glyphs.len() as int
    };
    if a < hi && kept_before(glyphs, size, a) < kept_before(glyphs, size, hi) {
        Some(
            TextGlyphRun {
                glyph_range: [kept_before(glyphs, size, a) as usize, kept_before(glyphs, size, hi) as usize],
                style: run.style,
            },
        )
    } else {
        None
    }
}

/// The runs that keep glyphs, re-pointed, in order.
pub open spec fn clipped_runs(runs: Seq<TextGlyphRun>, glyphs: Seq<GlyphPosition>, size: Size) -> Seq<TextGlyphRun>
    decreases runs.len(),
{
    if runs.len() == 0 {
        seq![]
    } else {
        let rest = clipped_runs(runs.drop_last(), glyphs, size);
        match clipped_run(runs.last(), glyphs, size) {
            Some(r) => rest.push(r),
            None => rest,
        }
    }
}

proof fn lemma_kept_before_mono(glyphs: Seq<GlyphPosition>, size: Size, i: int, j: int)
    requires
        0 <= i <= j,
    ensures
        kept_before(glyphs, size, i) <= kept_before(glyphs, size, j),
        kept_before(glyphs, size, j) - kept_before(glyphs, size, i) <= j - i,
        0 <= kept_before(glyphs, size, i),
    decreases j - i,
{
    if i < j {
        lemma_kept_before_mono(glyphs, size, i, j - 1);
    } else {
        lemma_kept_before_nonneg(glyphs, size, i);
    }
}

proof fn lemma_kept_before_nonneg(glyphs: Seq<GlyphPosition>, size: Size, i: int)
    ensures
        0 <= kept_before(glyphs, size, i) <= if i < 0 {
            0
        } else {
            i
        },
    decreases i,
{
    if i > 0 {
        lemma_kept_before_nonneg(glyphs, size, i - 1);
    }
}

/// `glyph_kept`, computed without overflow.
fn is_kept(g: &GlyphPosition, size: Size) -> (r: bool)
    ensures
        r == glyph_kept(*g, size),
{
    if g.x_offset.0 < 0 {
        return false;
    }
    let fits = match g.x_offset.0.checked_add(g.x_advance.0) {
        Some(right) => right <= size.width.0,
        None => false,
    };
    fits && g.y_offset.0 >= 0 && g.y_offset.0 < size.height.0
}

/// Drop the glyphs that fall outside the box and re-point the runs at what is left; runs that
/// keep no glyph are dropped. When every glyph is kept, both lists come back unchanged.
pub fn clip_to_box(glyphs: Vec<GlyphPosition>, runs: Vec<TextGlyphRun>, size: Size) -> (r: (
    Vec<GlyphPosition>,
    Vec<TextGlyphRun>,
))
    ensures
        (forall|i: int| 0 <= i < glyphs@.len() ==> glyph_kept(#[trigger] glyphs@[i], size)) ==> r.0@ == glyphs@
            && r.1@ == runs@,
        !(forall|i: int| 0 <= i < glyphs@.len() ==> glyph_kept(#[trigger] glyphs@[i], size)) ==> r.0@
            == kept_glyphs(glyphs@, size) && r.1@ == clipped_runs(runs@, glyphs@, size),
{
    let n = glyphs.len();
    let mut all = true;
    let mut i: usize = 0;
    while i < n
        invariant
            n == glyphs@.len(),
            i <= n,
            all == (forall|j: int| 0 <= j < i ==> glyph_kept(#[trigger] glyphs@[j], size)),
        decreases n - i,
    {
        if !is_kept(&glyphs[i], size) {
            all = false;
        }
        i = i + 1;
    }
    if all {
        return (glyphs, runs);
    }
    let mut new_glyphs: Vec<GlyphPosition> = Vec::new();
    let mut old_to_new: Vec<Option<usize>> = Vec::new();
    let mut i: usize = 0;
    assert(glyphs@.take(0) =~= seq![]);
    while i < n
        invariant
            n == glyphs@.len(),
            i <= n,
            new_glyphs@ == kept_glyphs(glyphs@.take(i as int), size),
            new_glyphs@.len() == kept_before(glyphs@, size, i as int),
            old_to_new@.len() == i,
            forall|j: int|
                0 <= j < i ==> #[trigger] old_to_new@[j] == if glyph_kept(glyphs@[j], size) {
                    Some(kept_before(glyphs@, size, j) as usize)
                } else {
                    None
                },
        decreases n - i,
    {
        proof {
            assert(glyphs@.take(i + 1).drop_last() =~= glyphs@.take(i as int));
            assert(glyphs@.take(i + 1).last() == glyphs@[i as int]);
            lemma_kept_before_nonneg(glyphs@, size, i as int);
        }
        if is_kept(&glyphs[i], size) {
            old_to_new.push(Some(new_glyphs.len()));
            new_glyphs.push(glyphs[i]);
        } else {
            old_to_new.push(None);
        }
        i = i + 1;
    }
    proof {
        assert(glyphs@.take(n as int) =~= glyphs@);
    }
    let mut new_runs: Vec<TextGlyphRun> = Vec::new();
    let mut k: usize = 0;
    assert(runs@.take(0) =~= seq![]);
    while k < runs.len()
        invariant
            n == glyphs@.len(),
            k <= runs@.len(),
            old_to_new@.len() == n,
            forall|j: int|
                0 <= j < n ==> #[trigger] old_to_new@[j] == if glyph_kept(glyphs@[j], size) {
                    Some(kept_before(glyphs@, size, j) as usize)
                } else {
                    None
                },
            new_runs@ == clipped_runs(runs@.take(k as int), glyphs@, size),
        decreases runs.len() - k,
    {
        let run = &runs[k];
        let a = run.glyph_range[0];
        let b = run.glyph_range[1];
        let hi = if b <= n {
            b
        } else {
            n
        };
        let mut start: Option<usize> = None;
        let mut end: Option<usize> = None;
        if a < hi {
            let mut j = a;
            while j < hi
                invariant
                    a <= j <= hi <= n,
                    n == glyphs@.len(),
                    old_to_new@.len() == n,
                    forall|q: int|
                        0 <= q < n ==> #[trigger] old_to_new@[q] == if glyph_kept(glyphs@[q], size) {
                            Some(kept_before(glyphs@, size, q) as usize)
                        } else {
                            None
                        },
                    kept_before(glyphs@, size, j as int) > kept_before(glyphs@, size, a as int) ==> start == Some(
                        kept_before(glyphs@, size, a as int) as usize,
                    ) && end == Some(kept_before(glyphs@, size, j as int) as usize),
                    kept_before(glyphs@, size, j as int) <= kept_before(glyphs@, size, a as int) ==> start is None
                        && end is None,
                decreases hi - j,
            {
                proof {
                    lemma_kept_before_mono(glyphs@, size, a as int, j as int);
                    lemma_kept_before_nonneg(glyphs@, size, j + 1);
                }
                match old_to_new[j] {
                    Some(ni) => {
                        if start.is_none() {
                            start = Some(ni);
                        }
                        end = Some(ni + 1);
                    },
                    None => {},
                }
                j = j + 1;
            }
            proof {
                lemma_kept_before_mono(glyphs@, size, a as int, hi as int);
            }
        }
        proof {
            assert(runs@.take(k + 1).drop_last() =~= runs@.take(k as int));
            assert(runs@.take(k + 1).last() == *run);
        }
        match (start, end) {
            (Some(s), Some(e)) => {
                new_runs.push(TextGlyphRun { glyph_range: [s, e], style: run.style.clone() });
                proof {
                    assert(new_runs@.last().glyph_range@ =~= [s, e]@);
                }
            },
            _ => {},
        }
        k = k + 1;
    }
    proof {
        assert(runs@.take(runs@.len() as int) =~= runs@);
    }
    (new_glyphs, new_runs)
}

proof fn lemma_kept_glyphs_inside(glyphs: Seq<GlyphPosition>, size: Size)
    ensures
        forall|i: int| 0 <= i < kept_glyphs(glyphs, size).len() ==> glyph_kept(#[trigger] kept_glyphs(glyphs, size)[i], size),
    decreases glyphs.len(),
{
    if glyphs.len() > 0 {
        lemma_kept_glyphs_inside(glyphs.drop_last(), size);
        let rest = kept_glyphs(glyphs.drop_last(), size);
        if glyph_kept(glyphs.last(), size) {
            assert forall|i: int| 0 <= i < rest.push(glyphs.last()).len() implies glyph_kept(
                #[trigger] rest.push(glyphs.last())[i],
                size,
            ) by {
                if i < rest.len() {
                    assert(rest.push(glyphs.last())[i] == rest[i]);
                }
            }
        }
    }
}

/// Law: after clipping, every glyph lies inside the box.
pub proof fn law_clipped_glyphs_inside(glyphs: Seq<GlyphPosition>, size: Size)
    ensures
        forall|i: int| 0 <= i < kept_glyphs(glyphs, size).len() ==> glyph_kept(#[trigger] kept_glyphs(glyphs, size)[i], size),
        (forall|i: int| 0 <= i < glyphs.len() ==> glyph_kept(#[trigger] glyphs[i], size)) ==> kept_glyphs(glyphs, size)
            == glyphs,
{
    lemma_kept_glyphs_inside(glyphs, size);
    lemma_all_kept(glyphs, size);
}

proof fn lemma_all_kept(glyphs: Seq<GlyphPosition>, size: Size)
    ensures
        (forall|i: int| 0 <= i < glyphs.len() ==> glyph_kept(#[trigger] glyphs[i], size)) ==> kept_glyphs(glyphs, size)
            == glyphs,
    decreases glyphs.len(),
{
    if glyphs.len() > 0 {
        lemma_all_kept(glyphs.drop_last(), size);
        if forall|i: int| 0 <= i < glyphs.len() ==> glyph_kept(#[trigger] glyphs[i], size) {
            assert forall|i: int| 0 <= i < glyphs.drop_last().len() implies glyph_kept(#[trigger] glyphs.drop_last()[i], size) by {
                assert(glyphs.drop_last()[i] == glyphs[i]);
            }
            assert(glyph_kept(glyphs[glyphs.len() - 1], size));
            assert(glyphs.drop_last().push(glyphs.last()) =~= glyphs);
        }
    }
}

/// Where a checkbox's mark of width `mark_w` goes: centered across the box, and its font size
/// centered down it (never before the box's corner).
pub open spec fn checkbox_mark_spec(size: Size, mark_w: int, font_size: int) -> (int, int) {
    (
        (if size.width.0 - mark_w > 0 {
            size.width.0 - mark_w
        } else {
            0
        }) / 2,
        (if size.height.0 - font_size > 0 {
            size.height.0 - font_size
        } else {
            0
        }) / 2,
    )
}

/// Origin of a checkbox's mark (see [`checkbox_mark_spec`]).
pub fn checkbox_mark_origin(size: Size, mark_w: Pt, font_size: Pt) -> (r: Point)
    requires
        -0x10_0000_0000_0000_0000_0000_0000 <= size.width.0 <= 0x10_0000_0000_0000_0000_0000_0000,
        -0x10_0000_0000_0000_0000_0000_0000 <= size.height.0 <= 0x10_0000_0000_0000_0000_0000_0000,
        -0x10_0000_0000_0000_0000_0000_0000 <= mark_w.0 <= 0x10_0000_0000_0000_0000_0000_0000,
        -0x10_0000_0000_0000_0000_0000_0000 <= font_size.0 <= 0x10_0000_0000_0000_0000_0000_0000,
    ensures
        (r.x.0 as int, r.y.0 as int) == checkbox_mark_spec(size, mark_w.0 as int, font_size.0 as int),
{
    let fx = size.width.0 - mark_w.0;
    let fy = size.height.0 - font_size.0;
    Point::new(Pt(if fx > 0 {
        fx
    } else {
        0
    } / 2), Pt(if fy > 0 {
        fy
    } else {
        0
    } / 2))
}

/// Width a field's value is laid out within: the inner width for a multiline field, unbounded
/// for a single line.
pub fn field_wrap_width(kind: FormFieldKind, inner_w: Pt) -> (r: Pt)
    ensures
        r == if kind == FormFieldKind::Multiline {
            inner_w
        } else {
            Pt(i128::MAX)
        },
{
    match kind {
        FormFieldKind::Multiline => inner_w,
        _ => Pt(i128::MAX),
    }
}

/// How many of a field value's lines are drawn, and from where: at most the field's lines
/// (its declared count, else its kind's default), stacked from the top padding while each line
/// still ends inside the box.
pub open spec fn field_lines_drawn(heights: Seq<Pt>, max_lines: int, pad_top: int, box_h: int, k: int) -> bool {
    k <= heights.len() && k <= max_lines && forall|j: int|
        0 <= j < k ==> pad_top + crate::grid::seq_sum(heights, j) + (#[trigger] heights[j]).0 <= box_h
}

/// Tops of the lines of a field's value that are drawn (see [`field_lines_drawn`]): the longest
/// run of first lines that fit.
pub fn field_value_lines(spec: &FormFieldSpec, pad_top: Pt, box_h: Pt, heights: &[Pt]) -> (r: Vec<Pt>)
    requires
        heights@.len() <= 0x10_0000,
        forall|i: int| 0 <= i < heights@.len() ==> 0 <= #[trigger] heights@[i].0 <= 0x10_0000_0000_0000_0000_0000_0000,
        -0x10_0000_0000_0000_0000_0000_0000 <= pad_top.0 <= 0x10_0000_0000_0000_0000_0000_0000,
    ensures
        ({
            let max_lines = match spec.lines {
                Some(l) => l as int,
                None => default_lines_spec(spec.kind) as int,
            };
            &&& field_lines_drawn(heights@, max_lines, pad_top.0 as int, box_h.0 as int, r@.len() as int)
            &&& (r@.len() < heights@.len() && r@.len() < max_lines) ==> pad_top.0 + crate::grid::seq_sum(
                heights@,
                r@.len() + 1int,
            ) > box_h.0
            &&& forall|j: int| 0 <= j < r@.len() ==> #[trigger] r@[j].0 == pad_top.0 + crate::grid::seq_sum(heights@, j)
        }),
{
    let max_lines: usize = match spec.lines {
        Some(l) => l as usize,
        None => default_lines(spec.kind) as usize,
    };
    let mut out: Vec<Pt> = Vec::new();
    let mut y: i128 = pad_top.0;
    let mut k: usize = 0;
    while k < heights.len() && k < max_lines
        invariant
            k <= heights@.len(),
            k <= max_lines,
            max_lines == match spec.lines {
                Some(l) => l as int,
                None => default_lines_spec(spec.kind) as int,
            },
            heights@.len() <= 0x10_0000,
            forall|i: int| 0 <= i < heights@.len() ==> 0 <= #[trigger] heights@[i].0 <= 0x10_0000_0000_0000_0000_0000_0000,
            -0x10_0000_0000_0000_0000_0000_0000 <= pad_top.0 <= 0x10_0000_0000_0000_0000_0000_0000,
            y == pad_top.0 + crate::grid::seq_sum(heights@, k as int),
            0 <= crate::grid::seq_sum(heights@, k as int) <= k * 0x10_0000_0000_0000_0000_0000_0000,
            out@.len() == k,
            field_lines_drawn(heights@, max_lines as int, pad_top.0 as int, box_h.0 as int, k as int),
            forall|j: int| 0 <= j < k ==> #[trigger] out@[j].0 == pad_top.0 + crate::grid::seq_sum(heights@, j),
        decreases heights.len() - k,
    {
        if y + heights[k].0 > box_h.0 {
            return out;
        }
        out.push(Pt(y));
        y = y + heights[k].0;
        k = k + 1;
    }
    out
}

} // verus!
