use vstd::prelude::*;

use std::cmp::Ordering;

use crate::model::Modifier;
use crate::pt::Pt;
use crate::resolved_style::{opt_str_view, resolve_text_style, text_style_spec};
use crate::run_order::{modifier_order, modifier_order_of, prec_view};
use crate::style::{
    apply_patch, apply_script_geometry, builtin_modifier_type, builtin_patch_ok, is_empty_patch, modifier_precedence,
    patch_for_modifier, patched, precedence_spec, script_style, theme_patch_spec, Style, StylePatch, StyleView,
};
use crate::text::{chars_of, collect_chars, decimal, join, owned, same_text};
use crate::text_types::{
    lemma_merge_push_tiles, merge_push, opt_text_view, push_or_merge_run, run_texts, run_views, runs_tile, TextRun,
    TextRunView,
};
use crate::theme::{find_key, Theme};
use crate::wrap_tokenize::{byte_len, lemma_byte_len_prefix, lemma_chars_le_bytes, utf8_len};

verus! {

/// An order value as a std `Ordering`.
pub open spec fn ordering_of(x: int) -> Ordering {
    if x < 0 {
        Ordering::Less
    } else if x == 0 {
        Ordering::Equal
    } else {
        Ordering::Greater
    }
}

/// Order in which two modifiers apply (see `modifier_order`).
pub fn modifier_cmp(a: &Modifier, b: &Modifier, precedence: &[String]) -> (r: Ordering)
    requires
        a.range@[0] <= a.range@[1],
        b.range@[0] <= b.range@[1],
    ensures
        r == ordering_of(modifier_order(*a, *b, prec_view(precedence@))),
{
    let o = modifier_order_of(a, b, precedence);
    if o < 0 {
        Ordering::Less
    } else if o == 0 {
        Ordering::Equal
    } else {
        Ordering::Greater
    }
}

// ---------------------------------------------------------------------------------------------
// The model.

/// Byte offset of character index `k` of `text`.
pub open spec fn char_offset(text: Seq<char>, k: int) -> int {
    byte_len(text.take(k)) as int
}

/// `b` is the byte offset of a character boundary of `text`.
pub open spec fn is_boundary(text: Seq<char>, b: int) -> bool {
    exists|k: int| 0 <= k <= text.len() && #[trigger] char_offset(text, k) == b
}

/// A modifier's range is non-empty, inside the text, and on character boundaries.
pub open spec fn modifier_valid(text: Seq<char>, m: Modifier) -> bool {
    &&& m.range@[0] < m.range@[1] <= byte_len(text)
    &&& is_boundary(text, m.range@[0] as int)
    &&& is_boundary(text, m.range@[1] as int)
}

pub open spec fn mods_valid(text: Seq<char>, mods: Seq<Modifier>) -> bool {
    forall|i: int| 0 <= i < mods.len() ==> #[trigger] modifier_valid(text, mods[i])
}

/// The modifier covers the byte range `[start, end)`.
pub open spec fn covers(m: Modifier, start: int, end: int) -> bool {
    m.range@[0] <= start && m.range@[1] >= end
}

/// The modifiers covering `[start, end)`, in input order.
pub open spec fn covering(mods: Seq<Modifier>, start: int, end: int) -> Seq<Modifier>
    decreases mods.len(),
{
    if mods.len() == 0 {
        seq![]
    } else {
        let rest = covering(mods.drop_last(), start, end);
        if covers(mods.last(), start, end) {
            rest.push(mods.last())
        } else {
            rest
        }
    }
}

/// `m` inserted into `sorted` before the first element that orders after it.
pub open spec fn insert_mod(sorted: Seq<Modifier>, m: Modifier, prec: Seq<Seq<char>>) -> Seq<Modifier>
    decreases sorted.len(),
{
    if sorted.len() == 0 {
        seq![m]
    } else if modifier_order(sorted[0], m, prec) > 0 {
        seq![m] + sorted
    } else {
        seq![sorted[0]] + insert_mod(sorted.drop_first(), m, prec)
    }
}

/// Stable sort of modifiers by `modifier_order`.
pub open spec fn sort_mods(s: Seq<Modifier>, prec: Seq<Seq<char>>) -> Seq<Modifier>
    decreases s.len(),
{
    if s.len() == 0 {
        seq![]
    } else {
        insert_mod(sort_mods(s.drop_last(), prec), s.last(), prec)
    }
}

pub open spec fn is_script_type(t: Seq<char>) -> bool {
    t == "superscript"@ || t == "subscript"@
}

/// What a built-in modifier does to a style.
pub open spec fn builtin_applied(s: StyleView, m: Modifier) -> StyleView {
    let t = m.mod_type@;
    let i = m.intent@;
    if t == "emphasis"@ {
        if i == "critical"@ || i == "strong"@ || i == "bold"@ {
            StyleView { bold: true, ..s }
        } else if i == "italic"@ || i == "emphasis"@ {
            StyleView { italic: true, ..s }
        } else {
            s
        }
    } else if t == "link"@ {
        StyleView { underline: true, color: "accent"@, ..s }
    } else if t == "underline"@ {
        StyleView { underline: true, ..s }
    } else if t == "strikethrough"@ {
        StyleView { strikethrough: true, ..s }
    } else {
        s
    }
}

/// A theme patch with its font size dropped for script types (the engine sizes scripts).
pub open spec fn script_cleared(m: Modifier, p: StylePatch) -> StylePatch {
    if is_script_type(m.mod_type@) {
        StylePatch { font_size: None, ..p }
    } else {
        p
    }
}

/// `s` after modifier `m`; `None` for a modifier type neither the theme nor the engine knows.
pub open spec fn modifier_applied(s: StyleView, m: Modifier, theme: Theme) -> Option<StyleView> {
    match theme_patch_spec(m, theme) {
        Some(p) => Some(patched(s, script_cleared(m, p))),
        None => if builtin_modifier_type(m.mod_type@) {
            Some(builtin_applied(s, m))
        } else {
            None
        },
    }
}

/// `base` after each modifier of `ms` in turn.
pub open spec fn style_over(base: StyleView, ms: Seq<Modifier>, theme: Theme) -> Option<StyleView>
    decreases ms.len(),
{
    if ms.len() == 0 {
        Some(base)
    } else {
        match style_over(base, ms.drop_last(), theme) {
            None => None,
            Some(t) => modifier_applied(t, ms.last(), theme),
        }
    }
}

/// Type of the last script modifier of `ms`.
pub open spec fn last_script(ms: Seq<Modifier>) -> Option<Seq<char>>
    decreases ms.len(),
{
    if ms.len() == 0 {
        None
    } else if is_script_type(ms.last().mod_type@) {
        Some(ms.last().mod_type@)
    } else {
        last_script(ms.drop_last())
    }
}

/// Intent (TeX source) of the first math modifier of `ms`.
pub open spec fn first_math(ms: Seq<Modifier>) -> Option<Seq<char>>
    decreases ms.len(),
{
    if ms.len() == 0 {
        None
    } else if ms[0].mod_type@ == "math"@ {
        Some(ms[0].intent@)
    } else {
        first_math(ms.drop_first())
    }
}

/// The run for characters `[a, b)`: the base style under every covering modifier in
/// application order, script geometry for the last script type, and the first math source.
pub open spec fn segment_view(
    text: Seq<char>,
    mods: Seq<Modifier>,
    prec: Seq<Seq<char>>,
    base: StyleView,
    theme: Theme,
    a: int,
    b: int,
) -> Option<TextRunView> {
    let start = char_offset(text, a);
    let end = char_offset(text, b);
    let sorted = sort_mods(covering(mods, start, end), prec);
    match style_over(base, sorted, theme) {
        None => None,
        Some(st) => Some(
            TextRunView {
                start,
                end,
                style: match last_script(sorted) {
                    Some(k) => script_style(st, k),
                    None => st,
                },
                text: text.subrange(a, b),
                math_tex: first_math(sorted),
            },
        ),
    }
}

/// Character index `k` starts or ends a run: the text's ends and every modifier boundary.
pub open spec fn is_point(text: Seq<char>, mods: Seq<Modifier>, k: int) -> bool {
    ||| k == 0
    ||| k == text.len()
    ||| exists|i: int|
        0 <= i < mods.len() && (mods[i].range@[0] == char_offset(text, k) || mods[i].range@[1] == char_offset(
            text,
            k,
        ))
}

/// The breakpoints among character indices `[0, k)`, increasing.
pub open spec fn point_list(text: Seq<char>, mods: Seq<Modifier>, k: int) -> Seq<int>
    decreases k,
{
    if k <= 0 {
        seq![]
    } else {
        let rest = point_list(text, mods, k - 1);
        if is_point(text, mods, k - 1) {
            rest.push(k - 1)
        } else {
            rest
        }
    }
}

/// Runs of the first `j - 1` segments between breakpoints, merged as they are pushed.
pub open spec fn runs_upto(
    text: Seq<char>,
    mods: Seq<Modifier>,
    prec: Seq<Seq<char>>,
    base: StyleView,
    theme: Theme,
    pts: Seq<int>,
    j: int,
) -> Option<Seq<TextRunView>>
    decreases j,
{
    if j <= 1 {
        Some(seq![])
    } else {
        match runs_upto(text, mods, prec, base, theme, pts, j - 1) {
            None => None,
            Some(acc) => match segment_view(text, mods, prec, base, theme, pts[j - 2], pts[j - 1]) {
                None => None,
                Some(r) => Some(merge_push(acc, r)),
            },
        }
    }
}

/// The runs of `text` under `mods`, or `None` when some covering modifier type is unknown.
pub open spec fn split_spec(text: Seq<char>, mods: Seq<Modifier>, theme: Theme, base: StyleView) -> Option<
    Seq<TextRunView>,
> {
    let pts = point_list(text, mods, text.len() + 1int);
    runs_upto(text, mods, precedence_spec(theme), base, theme, pts, pts.len() as int)
}

/// The single run of a text without modifiers.
pub open spec fn whole_run(text: Seq<char>, base: StyleView) -> TextRunView {
    TextRunView { start: 0, end: byte_len(text) as int, style: base, text, math_tex: None }
}

/// Font sizes script geometry can scale inside `i128`.
pub open spec fn script_size_ok(p: Pt) -> bool {
    -0x1_0000_0000_0000_0000_0000_0000_0000 <= p.0 <= 0x1_0000_0000_0000_0000_0000_0000_0000
}

/// Every font size a theme's modifier patches declare is one script geometry can scale.
pub open spec fn modifier_sizes_ok(theme: Theme) -> bool {
    forall|i: int, j: int|
        0 <= i < theme.modifiers.styles@.len() && 0 <= j < theme.modifiers.styles@[i].1@.len() ==> ((
        #[trigger] theme.modifiers.styles@[i].1@[j]).1.font_size matches Some(f) ==> script_size_ok(f))
}

// ---------------------------------------------------------------------------------------------
// Lemmas.

/// A found value is the value of some entry.
pub proof fn lemma_find_key_member<V>(entries: Seq<(String, V)>, key: Seq<char>) -> (i: int)
    requires
        find_key(entries, key) is Some,
    ensures
        0 <= i < entries.len(),
        entries[i].1 == find_key(entries, key)->Some_0,
    decreases entries.len(),
{
    if entries[0].0@ == key {
        0
    } else {
        let j = lemma_find_key_member(entries.drop_first(), key);
        j + 1
    }
}

proof fn lemma_theme_patch_size(m: Modifier, theme: Theme)
    requires
        modifier_sizes_ok(theme),
        theme_patch_spec(m, theme) is Some,
    ensures
        theme_patch_spec(m, theme)->Some_0.font_size matches Some(f) ==> script_size_ok(f),
{
    let styles = theme.modifiers.styles@;
    let i = lemma_find_key_member(styles, m.mod_type@);
    let by_intent = styles[i].1;
    if find_key(by_intent@, m.intent@) is Some {
        let j = lemma_find_key_member(by_intent@, m.intent@);
        assert(styles[i].1@[j] == by_intent@[j]);
    } else {
        let j = lemma_find_key_member(by_intent@, "default"@);
        assert(styles[i].1@[j] == by_intent@[j]);
    }
}

proof fn lemma_style_over_size(base: StyleView, ms: Seq<Modifier>, theme: Theme)
    requires
        script_size_ok(base.font_size),
        modifier_sizes_ok(theme),
    ensures
        style_over(base, ms, theme) matches Some(s) ==> script_size_ok(s.font_size),
    decreases ms.len(),
{
    if ms.len() > 0 {
        lemma_style_over_size(base, ms.drop_last(), theme);
        if theme_patch_spec(ms.last(), theme) is Some {
            lemma_theme_patch_size(ms.last(), theme);
        }
    }
}

proof fn lemma_style_over_none(base: StyleView, ms: Seq<Modifier>, k: int, theme: Theme)
    requires
        0 <= k <= ms.len(),
        style_over(base, ms.take(k), theme) is None,
    ensures
        style_over(base, ms, theme) is None,
    decreases ms.len() - k,
{
    if k < ms.len() {
        assert(ms.take(k + 1).drop_last() =~= ms.take(k));
        lemma_style_over_none(base, ms, k + 1, theme);
    } else {
        assert(ms.take(k) =~= ms);
    }
}

proof fn lemma_runs_upto_none(
    text: Seq<char>,
    mods: Seq<Modifier>,
    prec: Seq<Seq<char>>,
    base: StyleView,
    theme: Theme,
    pts: Seq<int>,
    j: int,
    k: int,
)
    requires
        j <= k,
        runs_upto(text, mods, prec, base, theme, pts, j) is None,
    ensures
        runs_upto(text, mods, prec, base, theme, pts, k) is None,
    decreases k - j,
{
    if j < k {
        lemma_runs_upto_none(text, mods, prec, base, theme, pts, j, k - 1);
    }
}

proof fn lemma_insert_mod_at(sorted: Seq<Modifier>, m: Modifier, prec: Seq<Seq<char>>, p: int)
    requires
        0 <= p <= sorted.len(),
        forall|j: int| 0 <= j < p ==> modifier_order(#[trigger] sorted[j], m, prec) <= 0,
        p < sorted.len() ==> modifier_order(sorted[p], m, prec) > 0,
    ensures
        insert_mod(sorted, m, prec) == sorted.insert(p, m),
    decreases sorted.len(),
{
    if sorted.len() == 0 {
        assert(sorted.insert(p, m) =~= seq![m]);
    } else if p == 0 {
        assert(sorted.insert(p, m) =~= seq![m] + sorted);
    } else {
        let rest = sorted.drop_first();
        assert forall|j: int| 0 <= j < p - 1 implies modifier_order(#[trigger] rest[j], m, prec) <= 0 by {
            assert(rest[j] == sorted[j + 1]);
        }
        lemma_insert_mod_at(rest, m, prec, p - 1);
        assert(seq![sorted[0]] + rest.insert(p - 1, m) =~= sorted.insert(p, m));
    }
}

/// The built-in patch of a known type does what `builtin_applied` says.
proof fn lemma_builtin_patch(s: StyleView, m: Modifier, p: StylePatch)
    requires
        builtin_patch_ok(m, p),
    ensures
        patched(s, script_cleared(m, p)) == builtin_applied(s, m),
{
}

// ---------------------------------------------------------------------------------------------
// Execution.

/// Modifiers picked out by indices.
pub open spec fn idx_mods(mods: Seq<Modifier>, idxs: Seq<usize>) -> Seq<Modifier> {
    idxs.map_values(|i: usize| mods[i as int])
}

pub open spec fn ranges_ordered(mods: Seq<Modifier>) -> bool {
    forall|i: int| 0 <= i < mods.len() ==> (#[trigger] mods[i]).range@[0] <= mods[i].range@[1]
}

/// Insert index `i` into `order` before the first modifier that applies after it.
fn insert_in_order(order: &mut Vec<usize>, i: usize, modifiers: &[Modifier], precedence: &[String])
    requires
        i < modifiers@.len(),
        forall|k: int| 0 <= k < old(order)@.len() ==> #[trigger] old(order)@[k] < modifiers@.len(),
        ranges_ordered(modifiers@),
    ensures
        forall|k: int| 0 <= k < final(order)@.len() ==> #[trigger] final(order)@[k] < modifiers@.len(),
        idx_mods(modifiers@, final(order)@) == insert_mod(
            idx_mods(modifiers@, old(order)@),
            modifiers@[i as int],
            prec_view(precedence@),
        ),
{
    let ghost before = idx_mods(modifiers@, order@);
    let ghost m = modifiers@[i as int];
    let mut p: usize = 0;
    while p < order.len()
        invariant
            order@ == old(order)@,
            p <= order@.len(),
            i < modifiers@.len(),
            forall|k: int| 0 <= k < order@.len() ==> #[trigger] order@[k] < modifiers@.len(),
            ranges_ordered(modifiers@),
            before == idx_mods(modifiers@, order@),
            m == modifiers@[i as int],
            forall|j: int| 0 <= j < p ==> modifier_order(#[trigger] before[j], m, prec_view(precedence@)) <= 0,
        ensures
            p <= order@.len(),
            forall|j: int| 0 <= j < p ==> modifier_order(#[trigger] before[j], m, prec_view(precedence@)) <= 0,
            p < order@.len() ==> modifier_order(before[p as int], m, prec_view(precedence@)) > 0,
        decreases order.len() - p,
    {
        let o = modifier_order_of(&modifiers[order[p]], &modifiers[i], precedence);
        if o > 0 {
            break;
        }
        p = p + 1;
    }
    proof {
        lemma_insert_mod_at(before, m, prec_view(precedence@), p as int);
    }
    order.insert(p, i);
    proof {
        assert(idx_mods(modifiers@, order@) =~= before.insert(p as int, m));
    }
}

/// Indices of the modifiers covering `[start, end)`, in application order.
fn sorted_covering(modifiers: &[Modifier], start: usize, end: usize, precedence: &[String]) -> (r: Vec<usize>)
    requires
        ranges_ordered(modifiers@),
    ensures
        forall|k: int| 0 <= k < r@.len() ==> #[trigger] r@[k] < modifiers@.len(),
        idx_mods(modifiers@, r@) == sort_mods(covering(modifiers@, start as int, end as int), prec_view(precedence@)),
{
    let mut order: Vec<usize> = Vec::new();
    let mut i: usize = 0;
    assert(modifiers@.take(0) =~= seq![]);
    while i < modifiers.len()
        invariant
            i <= modifiers@.len(),
            ranges_ordered(modifiers@),
            forall|k: int| 0 <= k < order@.len() ==> #[trigger] order@[k] < modifiers@.len(),
            idx_mods(modifiers@, order@) == sort_mods(
                covering(modifiers@.take(i as int), start as int, end as int),
                prec_view(precedence@),
            ),
        decreases modifiers.len() - i,
    {
        let ghost prev = covering(modifiers@.take(i as int), start as int, end as int);
        proof {
            assert(modifiers@.take(i + 1).drop_last() =~= modifiers@.take(i as int));
            assert(modifiers@.take(i + 1).last() == modifiers@[i as int]);
        }
        if modifiers[i].range[0] <= start && modifiers[i].range[1] >= end {
            insert_in_order(&mut order, i, modifiers, precedence);
            proof {
                assert(prev.push(modifiers@[i as int]).drop_last() =~= prev);
            }
        }
        i = i + 1;
    }
    proof {
        assert(modifiers@.take(i as int) =~= modifiers@);
    }
    order
}

/// Style of a segment: `base` under the modifiers `order` picks, in turn, then script geometry
/// for the last script type among them.
fn segment_style(modifiers: &[Modifier], order: &Vec<usize>, base: &Style, theme: &Theme) -> (r: Result<Style, String>)
    requires
        forall|q: int| 0 <= q < order@.len() ==> #[trigger] order@[q] < modifiers@.len(),
        script_size_ok(base@.font_size),
        modifier_sizes_ok(*theme),
    ensures
        r is Err <==> style_over(base@, idx_mods(modifiers@, order@), *theme) is None,
        r matches Ok(st) ==> st@ == match last_script(idx_mods(modifiers@, order@)) {
            Some(k) => script_style(style_over(base@, idx_mods(modifiers@, order@), *theme)->Some_0, k),
            None => style_over(base@, idx_mods(modifiers@, order@), *theme)->Some_0,
        },
{
    let ghost mods = modifiers@;
    let ghost sorted = idx_mods(mods, order@);
    let ghost base_v = base@;
    let mut style = base.duplicate();
    let mut script: Option<usize> = None;
    let mut t: usize = 0;
    assert(sorted.take(0) =~= seq![]);
    while t < order.len()
        invariant
            t <= order@.len(),
            mods == modifiers@,
            base_v == base@,
            sorted == idx_mods(mods, order@),
            forall|q: int| 0 <= q < order@.len() ==> #[trigger] order@[q] < mods.len(),
            style_over(base_v, sorted.take(t as int), *theme) == Some(style@),
            match last_script(sorted.take(t as int)) {
                None => script is None,
                Some(kind) => script matches Some(ix) && ix < mods.len() && mods[ix as int].mod_type@ == kind,
            },
        decreases order.len() - t,
    {
        let m = &modifiers[order[t]];
        proof {
            assert(sorted.take(t + 1).drop_last() =~= sorted.take(t as int));
            assert(sorted.take(t + 1).last() == *m);
        }
        let patched_r = patch_for_modifier(m, theme);
        match patched_r {
            Err(msg) => {
                proof {
                    lemma_style_over_none(base_v, sorted, t + 1, *theme);
                }
                return Err(msg);
            },
            Ok(p) => {
                let mut patch = p;
                if same_text(&m.mod_type, "superscript") || same_text(&m.mod_type, "subscript") {
                    patch.font_size = None;
                    script = Some(order[t]);
                }
                proof {
                    if theme_patch_spec(*m, *theme) is None {
                        lemma_builtin_patch(style@, *m, p);
                    }
                }
                style = apply_patch(style, &patch);
            },
        }
        t = t + 1;
    }
    proof {
        assert(sorted.take(t as int) =~= sorted);
        lemma_style_over_size(base_v, sorted, *theme);
    }
    match script {
        Some(ix) => {
            apply_script_geometry(&mut style, modifiers[ix].mod_type.as_str());
        },
        None => {},
    }
    Ok(style)
}

/// Intent of the first math modifier among `order`.
fn first_math_intent(modifiers: &[Modifier], order: &Vec<usize>) -> (r: Option<String>)
    requires
        forall|q: int| 0 <= q < order@.len() ==> #[trigger] order@[q] < modifiers@.len(),
    ensures
        opt_text_view(r) == first_math(idx_mods(modifiers@, order@)),
{
    let ghost sorted = idx_mods(modifiers@, order@);
    let mut q: usize = 0;
    assert(sorted.skip(0) =~= sorted);
    while q < order.len()
        invariant
            q <= order@.len(),
            sorted == idx_mods(modifiers@, order@),
            forall|qq: int| 0 <= qq < order@.len() ==> #[trigger] order@[qq] < modifiers@.len(),
            first_math(sorted) == first_math(sorted.skip(q as int)),
        decreases order.len() - q,
    {
        proof {
            assert(sorted.skip(q as int).drop_first() =~= sorted.skip(q + 1));
        }
        if same_text(&modifiers[order[q]].mod_type, "math") {
            return Some(modifiers[order[q]].intent.clone());
        }
        q = q + 1;
    }
    assert(sorted.skip(q as int).len() == 0);
    None
}

/// Byte offset of every character index of `chars` (one more entry than characters).
pub(crate) fn char_offsets(chars: &Vec<char>) -> (r: Vec<usize>)
    requires
        byte_len(chars@) <= usize::MAX,
    ensures
        r@.len() == chars@.len() + 1,
        forall|k: int| 0 <= k <= chars@.len() ==> #[trigger] r@[k] == char_offset(chars@, k),
{
    let mut out: Vec<usize> = Vec::new();
    out.push(0);
    let mut b: usize = 0;
    let mut i: usize = 0;
    proof {
        assert(chars@.take(0) =~= seq![]);
        assert(chars@.take(chars@.len() as int) =~= chars@);
    }
    while i < chars.len()
        invariant
            i <= chars@.len(),
            byte_len(chars@) <= usize::MAX,
            chars@.take(chars@.len() as int) == chars@,
            out@.len() == i + 1,
            b == char_offset(chars@, i as int),
            forall|k: int| 0 <= k <= i ==> #[trigger] out@[k] == char_offset(chars@, k),
        decreases chars.len() - i,
    {
        proof {
            lemma_byte_len_prefix(chars@, i + 1, chars@.len() as int);
            assert(chars@.take(i + 1).drop_last() =~= chars@.take(i as int));
        }
        b = b + utf8_len(chars[i]);
        out.push(b);
        i = i + 1;
    }
    out
}

/// Character index whose byte offset is `x`, if any.
pub(crate) fn find_offset(offsets: &Vec<usize>, x: usize) -> (r: Option<usize>)
    ensures
        r matches Some(k) ==> k < offsets@.len() && offsets@[k as int] == x,
        r is None ==> forall|k: int| 0 <= k < offsets@.len() ==> offsets@[k] != x,
{
    let mut k: usize = 0;
    while k < offsets.len()
        invariant
            k <= offsets@.len(),
            forall|j: int| 0 <= j < k ==> offsets@[j] != x,
        decreases offsets.len() - k,
    {
        if offsets[k] == x {
            return Some(k);
        }
        k = k + 1;
    }
    None
}

/// `[s, e]` in brackets, as a message writes a range.
pub open spec fn range_text_spec(s: int, e: int) -> Seq<char> {
    "["@ + crate::text::decimal_text(s) + ", "@ + crate::text::decimal_text(e) + "]"@
}

/// `[s, e]` in brackets, as in a message.
fn range_text(s: usize, e: usize) -> (r: String)
    ensures
        r@ == range_text_spec(s as int, e as int),
{
    proof {
        reveal_strlit("[");
        reveal_strlit(", ");
        reveal_strlit("]");
    }
    let t = join(owned("["), decimal(s as i128).as_str());
    let t = join(t, ", ");
    let t = join(t, decimal(e as i128).as_str());
    join(t, "]")
}

/// Modifier `i` is the first whose range is invalid.
pub open spec fn first_invalid_at(text: Seq<char>, mods: Seq<Modifier>, i: int) -> bool {
    &&& 0 <= i < mods.len()
    &&& !modifier_valid(text, mods[i])
    &&& forall|j: int| 0 <= j < i ==> #[trigger] modifier_valid(text, mods[j])
}

/// Error text for an invalid modifier range: empty, reversed or past the text's end, else not
/// on a character boundary.
pub open spec fn range_error_text(text: Seq<char>, m: Modifier) -> Seq<char> {
    let a = m.range@[0] as int;
    let e = m.range@[1] as int;
    if a >= e || e > byte_len(text) {
        "Invalid modifier range "@ + range_text_spec(a, e) + " for text length "@ + crate::text::decimal_text(
            byte_len(text) as int,
        )
    } else {
        "Modifier range "@ + range_text_spec(a, e) + " is not on UTF-8 char boundary"@
    }
}

/// Split `text` into deterministic styled runs, based on range modifiers.
///
/// - Ranges are **byte offsets** into UTF-8 text and must fall on char boundaries.
/// - Style is computed as: base(role) + all patches whose range covers the run.
/// - Overlaps are resolved deterministically by:
///   1) modifier type precedence (`Theme.modifiers.precedence` or default),
///   2) modifier type name (lexicographic) for unknown types not in precedence list,
///   3) larger ranges apply before smaller ranges (more specific ranges win),
///   4) range start/end, then intent (lexicographic).
pub fn split_runs(text: &str, role: &str, variant: Option<&str>, modifiers: &[Modifier], theme: &Theme) -> (r: Result<
    Vec<TextRun>,
    String,
>)
    requires
        byte_len(text@) < usize::MAX,
        script_size_ok(text_style_spec(role@, opt_str_view(variant), *theme).font_size),
        modifier_sizes_ok(*theme),
    ensures
        modifiers@.len() == 0 ==> (r matches Ok(v) && run_views(v@) == seq![
            whole_run(text@, text_style_spec(role@, opt_str_view(variant), *theme)),
        ]),
        modifiers@.len() > 0 ==> (r is Ok <==> mods_valid(text@, modifiers@) && split_spec(
            text@,
            modifiers@,
            *theme,
            text_style_spec(role@, opt_str_view(variant), *theme),
        ) is Some),
        !mods_valid(text@, modifiers@) ==> r is Err && exists|i: int|
            #[trigger] first_invalid_at(text@, modifiers@, i) && r->Err_0@ == range_error_text(text@, modifiers@[i]),
        modifiers@.len() > 0 ==> (r matches Ok(v) ==> run_views(v@) == split_spec(
            text@,
            modifiers@,
            *theme,
            text_style_spec(role@, opt_str_view(variant), *theme),
        )->Some_0),
{
    let ghost s = text@;
    let ghost mods = modifiers@;
    let chars = chars_of(text);
    let offsets = char_offsets(&chars);
    let n = chars.len();
    let len = offsets[n];
    let base = resolve_text_style(role, variant, theme);
    let ghost base_v = base@;
    proof {
        assert(s.take(n as int) =~= s);
    }
    if modifiers.len() == 0 {
        let run = TextRun { start: 0, end: len, style: base, text: owned(text), math_tex: None };
        let out = vec![run];
        proof {
            assert(run_views(out@) =~= seq![whole_run(s, base_v)]);
        }
        return Ok(out);
    }
    // Validate every range.

    let mut i: usize = 0;
    while i < modifiers.len()
        invariant
            i <= mods.len(),
            mods == modifiers@,
            s == text@,
            chars@ == s,
            offsets@.len() == n + 1,
            n == s.len(),
            len == byte_len(s),
            forall|k: int| 0 <= k <= n ==> #[trigger] offsets@[k] == char_offset(s, k),
            forall|j: int| 0 <= j < i ==> #[trigger] modifier_valid(s, mods[j]),
        decreases modifiers.len() - i,
    {
        let a = modifiers[i].range[0];
        let e = modifiers[i].range[1];
        if a >= e || e > len {
            proof {
                assert(!modifier_valid(s, mods[i as int]));
                assert(first_invalid_at(s, mods, i as int));
                reveal_strlit("Invalid modifier range ");
                reveal_strlit(" for text length ");
            }
            let msg = join(join(owned("Invalid modifier range "), range_text(a, e).as_str()), " for text length ");
            return Err(join(msg, decimal(len as i128).as_str()));
        }
        let fa = find_offset(&offsets, a);
        let fe = find_offset(&offsets, e);
        if fa.is_none() || fe.is_none() {
            proof {
                if is_boundary(s, a as int) && fa is None {
                    let k = choose|k: int| 0 <= k <= s.len() && #[trigger] char_offset(s, k) == a;
                    assert(offsets@[k] == a);
                }
                if is_boundary(s, e as int) && fe is None {
                    let k = choose|k: int| 0 <= k <= s.len() && #[trigger] char_offset(s, k) == e;
                    assert(offsets@[k] == e);
                }
                assert(!modifier_valid(s, mods[i as int]));
                assert(first_invalid_at(s, mods, i as int));
                reveal_strlit("Modifier range ");
                reveal_strlit(" is not on UTF-8 char boundary");
            }
            let msg = join(join(owned("Modifier range "), range_text(a, e).as_str()), " is not on UTF-8 char boundary");
            return Err(msg);
        }
        proof {
            let ka = fa->Some_0 as int;
            let ke = fe->Some_0 as int;
            assert(char_offset(s, ka) == a);
            assert(char_offset(s, ke) == e);
        }
        i = i + 1;
    }
    assert(mods_valid(s, mods));
    assert forall|q: int| 0 <= q < mods.len() implies (#[trigger] mods[q]).range@[0] <= mods[q].range@[1] by {
        assert(modifier_valid(s, mods[q]));
    }
    proof {
        lemma_chars_le_bytes(s);
    }
    // Breakpoints: character indices at the text's ends or at a modifier boundary.

    let mut pts: Vec<usize> = Vec::new();
    let mut k: usize = 0;
    while k <= n
        invariant
            k <= n + 1,
            mods == modifiers@,
            s == text@,
            chars@ == s,
            offsets@.len() == n + 1,
            n == s.len(),
            forall|j: int| 0 <= j <= n ==> #[trigger] offsets@[j] == char_offset(s, j),
            pts@.map_values(|x: usize| x as int) == point_list(s, mods, k as int),
            forall|j: int| 0 <= j < pts@.len() ==> #[trigger] pts@[j] < k,
            forall|j1: int, j2: int| 0 <= j1 < j2 < pts@.len() ==> pts@[j1] < pts@[j2],
            k > 0 ==> pts@.len() > 0,
            n < usize::MAX,
        decreases n + 1 - k,
    {
        let mut hit = k == 0 || k == n;
        let mut j: usize = 0;
        while j < modifiers.len() && !hit
            invariant
                j <= mods.len(),
                mods == modifiers@,
                k <= n,
                offsets@.len() == n + 1,
                forall|jj: int| 0 <= jj <= n ==> #[trigger] offsets@[jj] == char_offset(s, jj),
                hit ==> is_point(s, mods, k as int),
                !hit ==> k != 0 && k != n,
                !hit ==> forall|q: int|
                    0 <= q < j ==> mods[q].range@[0] != char_offset(s, k as int) && mods[q].range@[1]
                        != char_offset(s, k as int),
            decreases mods.len() - j,
        {
            if modifiers[j].range[0] == offsets[k] || modifiers[j].range[1] == offsets[k] {
                hit = true;
            }
            j = j + 1;
        }
        let ghost before = pts@;
        if hit {
            pts.push(k);
            proof {
                assert(pts@.map_values(|x: usize| x as int) =~= before.map_values(|x: usize| x as int).push(
                    k as int,
                ));
            }
        }
        proof {
            assert(hit == is_point(s, mods, k as int));
        }
        k = k + 1;
    }
    let precedence = modifier_precedence(theme);
    let ghost prec = prec_view(precedence@);
    proof {
        assert(prec == precedence_spec(*theme));
        assert(text_style_spec(role@, opt_str_view(variant), *theme) == base_v);
    }
    let ghost ptsv = pts@.map_values(|x: usize| x as int);
    assert(ptsv.len() == pts@.len());
    let mut out: Vec<TextRun> = Vec::new();
    let mut j: usize = 1;
    while j < pts.len()
        invariant
            1 <= j,
            j <= pts@.len() || pts@.len() == 0,
            mods == modifiers@,
            s == text@,
            chars@ == s,
            offsets@.len() == n + 1,
            n == s.len(),
            forall|jj: int| 0 <= jj <= n ==> #[trigger] offsets@[jj] == char_offset(s, jj),
            ptsv == pts@.map_values(|x: usize| x as int),
            forall|q: int| 0 <= q < pts@.len() ==> #[trigger] pts@[q] <= n,
            forall|j1: int, j2: int| 0 <= j1 < j2 < pts@.len() ==> pts@[j1] < pts@[j2],
            pts@.len() > 0,
            ptsv == point_list(s, mods, s.len() + 1int),
            ranges_ordered(mods),
            prec == prec_view(precedence@),
            prec == precedence_spec(*theme),
            base_v == base@,
            base_v == text_style_spec(role@, opt_str_view(variant), *theme),
            script_size_ok(base_v.font_size),
            modifier_sizes_ok(*theme),
            runs_upto(s, mods, prec, base_v, *theme, ptsv, j as int) == Some(run_views(out@)),
            mods_valid(s, mods),
        decreases pts.len() - j,
    {
        let a = pts[j - 1];
        let b = pts[j];
        let start = offsets[a];
        let end = offsets[b];
        let order = sorted_covering(modifiers, start, end, precedence.as_slice());
        proof {
            assert(ptsv[j - 1] == a);
            assert(ptsv[j as int] == b);
            assert(ptsv.len() == pts@.len());
        }
        let styled = segment_style(modifiers, &order, &base, theme);
        let style = match styled {
            Err(msg) => {
                proof {
                    assert(start == char_offset(s, a as int));
                    assert(end == char_offset(s, b as int));
                    assert(segment_view(s, mods, prec, base_v, *theme, ptsv[j - 1], ptsv[j as int]) is None);
                    assert(runs_upto(s, mods, prec, base_v, *theme, ptsv, j + 1) is None);
                    lemma_runs_upto_none(s, mods, prec, base_v, *theme, ptsv, j + 1, ptsv.len() as int);
                }
                return Err(msg);
            },
            Ok(st) => st,
        };
        let math_tex = first_math_intent(modifiers, &order);
        let run = TextRun { start, end, style, text: collect_chars(&chars, a, b), math_tex };
        push_or_merge_run(&mut out, run);
        j = j + 1;
    }
    proof {
        assert(ptsv =~= point_list(s, mods, s.len() + 1int));
    }
    Ok(out)
}

// ---------------------------------------------------------------------------------------------
// Laws.

proof fn lemma_point_list(s: Seq<char>, mods: Seq<Modifier>, k: int)
    requires
        0 <= k <= s.len() + 1,
    ensures
        forall|i: int| 0 <= i < point_list(s, mods, k).len() ==> 0 <= #[trigger] point_list(s, mods, k)[i] < k,
        forall|i: int, j: int|
            0 <= i < j < point_list(s, mods, k).len() ==> point_list(s, mods, k)[i] < point_list(s, mods, k)[j],
        k >= 1 ==> point_list(s, mods, k).len() >= 1 && point_list(s, mods, k)[0] == 0,
        k == s.len() + 1 ==> point_list(s, mods, k).len() >= 1 && point_list(s, mods, k).last() == s.len(),
    decreases k,
{
    if k > 0 {
        lemma_point_list(s, mods, k - 1);
        let rest = point_list(s, mods, k - 1);
        let p = point_list(s, mods, k);
        if is_point(s, mods, k - 1) {
            assert(p == rest.push(k - 1));
            assert forall|i: int| 0 <= i < p.len() implies 0 <= #[trigger] p[i] < k by {
                if i < rest.len() {
                    assert(p[i] == rest[i]);
                }
            }
            assert forall|i: int, j: int| 0 <= i < j < p.len() implies p[i] < p[j] by {
                assert(p[i] == rest[i]);
                if j < rest.len() {
                    assert(p[j] == rest[j]);
                }
            }
            if k > 1 {
                assert(p[0] == rest[0]);
            }
        } else {
            assert(p == rest);
            assert(k - 1 != 0);
        }
    }
}

proof fn lemma_char_offset_increasing(s: Seq<char>, a: int, b: int)
    requires
        0 <= a < b <= s.len(),
    ensures
        char_offset(s, a) < char_offset(s, b),
    decreases b - a,
{
    assert(s.take(a + 1).drop_last() =~= s.take(a));
    if a + 1 < b {
        lemma_char_offset_increasing(s, a + 1, b);
    }
}

proof fn lemma_segment_fields(
    text: Seq<char>,
    mods: Seq<Modifier>,
    prec: Seq<Seq<char>>,
    base: StyleView,
    theme: Theme,
    a: int,
    b: int,
)
    ensures
        segment_view(text, mods, prec, base, theme, a, b) matches Some(r) ==> r.start == char_offset(text, a)
            && r.end == char_offset(text, b) && r.text == text.subrange(a, b),
{
}

#[verifier::rlimit(50)]
proof fn lemma_runs_upto_tile(
    text: Seq<char>,
    mods: Seq<Modifier>,
    prec: Seq<Seq<char>>,
    base: StyleView,
    theme: Theme,
    j: int,
)
    requires
        1 <= j <= point_list(text, mods, text.len() + 1int).len(),
        runs_upto(text, mods, prec, base, theme, point_list(text, mods, text.len() + 1int), j) is Some,
    ensures
        ({
            let pts = point_list(text, mods, text.len() + 1int);
            let acc = runs_upto(text, mods, prec, base, theme, pts, j)->Some_0;
            &&& runs_tile(acc, 0, char_offset(text, pts[j - 1]))
            &&& run_texts(acc) == text.take(pts[j - 1])
        }),
    decreases j,
{
    let pts = point_list(text, mods, text.len() + 1int);
    lemma_point_list(text, mods, text.len() + 1int);
    if j == 1 {
        assert(text.take(0) =~= Seq::<char>::empty());
        assert(char_offset(text, 0) == 0) by {
            assert(text.take(0) =~= Seq::<char>::empty());
        }
    } else {
        lemma_runs_upto_tile(text, mods, prec, base, theme, j - 1);
        let a = pts[j - 2];
        let b = pts[j - 1];
        lemma_char_offset_increasing(text, a, b);
        let acc = runs_upto(text, mods, prec, base, theme, pts, j - 1)->Some_0;
        let r = segment_view(text, mods, prec, base, theme, a, b)->Some_0;
        lemma_segment_fields(text, mods, prec, base, theme, a, b);
        lemma_merge_push_tiles(acc, r, 0);
        assert(text.take(a) + text.subrange(a, b) =~= text.take(b));
    }
}

/// Law: the runs `split_runs` produces tile the text: they cover every byte of it in order
/// without gaps or overlaps, none is empty, and their texts concatenate to the text.
pub proof fn law_runs_tile_text(text: Seq<char>, mods: Seq<Modifier>, theme: Theme, base: StyleView)
    requires
        split_spec(text, mods, theme, base) is Some,
    ensures
        runs_tile(split_spec(text, mods, theme, base)->Some_0, 0, byte_len(text) as int),
        run_texts(split_spec(text, mods, theme, base)->Some_0) == text,
{
    let pts = point_list(text, mods, text.len() + 1int);
    lemma_point_list(text, mods, text.len() + 1int);
    lemma_runs_upto_tile(text, mods, precedence_spec(theme), base, theme, pts.len() as int);
    assert(text.take(text.len() as int) =~= text);
}

} // verus!
