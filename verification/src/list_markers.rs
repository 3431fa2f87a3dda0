use vstd::prelude::*;

use crate::list_style::{is_list_item_defaults, merged_spec, ListStyle};
use crate::model::{ListMarkerType, NodeContent, SemanticNode, TableDataSource};
use crate::resolved_style::{list_style_ok, opt_str_view, resolve_list_style, variant_def};
use crate::text::{decimal, decimal_text, join, owned, same_text};
use crate::text_types::opt_text_view;
use crate::theme::{role_or_default, Theme};

verus! {

// ---------------------------------------------------------------------------------------------
// Association lists read as maps: a later entry for a key replaces an earlier one.

/// The map an association list stands for: every key bound to its last entry's value.
pub open spec fn last_map<V, W>(entries: Seq<(String, V)>, f: spec_fn(V) -> W) -> Map<Seq<char>, W>
    decreases entries.len(),
{
    if entries.len() == 0 {
        Map::empty()
    } else {
        last_map(entries.drop_last(), f).insert(entries.last().0@, f(entries.last().1))
    }
}

/// Entries at `i` and after do not bind `key`, so the prefix before `i` decides it.
pub proof fn lemma_last_map_prefix<V, W>(entries: Seq<(String, V)>, f: spec_fn(V) -> W, i: int, key: Seq<char>)
    requires
        0 <= i <= entries.len(),
        forall|j: int| i <= j < entries.len() ==> (#[trigger] entries[j]).0@ != key,
    ensures
        last_map(entries, f).contains_key(key) == last_map(entries.take(i), f).contains_key(key),
        last_map(entries, f).contains_key(key) ==> last_map(entries, f)[key] == last_map(entries.take(i), f)[key],
    decreases entries.len() - i,
{
    if i < entries.len() {
        let shorter = entries.drop_last();
        assert forall|j: int| i <= j < shorter.len() implies (#[trigger] shorter[j]).0@ != key by {
            assert(shorter[j] == entries[j]);
        }
        lemma_last_map_prefix(shorter, f, i, key);
        assert(shorter.take(i) =~= entries.take(i));
        assert(entries.last().0@ != key);
    } else {
        assert(entries.take(i) =~= entries);
    }
}

/// Replacing the value of the last entry for `key` rebinds `key` and nothing else.
proof fn lemma_last_map_update<V, W>(entries: Seq<(String, V)>, f: spec_fn(V) -> W, i: int, v: V)
    requires
        0 <= i < entries.len(),
        forall|j: int| i < j < entries.len() ==> (#[trigger] entries[j]).0@ != entries[i].0@,
    ensures
        last_map(entries.update(i, (entries[i].0, v)), f) == last_map(entries, f).insert(entries[i].0@, f(v)),
    decreases entries.len() - i,
{
    let key = entries[i].0@;
    let upd = entries.update(i, (entries[i].0, v));
    if i == entries.len() - 1 {
        assert(upd.drop_last() =~= entries.drop_last());
        assert(last_map(upd, f) =~= last_map(entries, f).insert(key, f(v)));
    } else {
        let shorter = entries.drop_last();
        assert forall|j: int| i < j < shorter.len() implies (#[trigger] shorter[j]).0@ != shorter[i].0@ by {
            assert(shorter[j] == entries[j]);
        }
        lemma_last_map_update(shorter, f, i, v);
        assert(upd.drop_last() =~= shorter.update(i, (shorter[i].0, v)));
        assert(entries.last().0@ != key);
        assert(last_map(upd, f) =~= last_map(entries, f).insert(key, f(v)));
    }
}

/// Derived marker labels for semantic list items, keyed by node id.
///
/// Marker labels are derived from each node-stream (e.g. a container's children slice),
/// and are intended to be used at arrangement time without mutating the semantic tree.
pub struct ListMarkerMap {
    entries: Vec<(String, String)>,
}

/// A string's characters, as a function.
pub open spec fn text_fn() -> spec_fn(String) -> Seq<char> {
    |s: String| s@
}

impl View for ListMarkerMap {
    type V = Map<Seq<char>, Seq<char>>;

    closed spec fn view(&self) -> Map<Seq<char>, Seq<char>> {
        last_map(self.entries@, text_fn())
    }
}

impl ListMarkerMap {
    /// An empty map.
    pub fn new() -> (r: Self)
        ensures
            r@ == Map::<Seq<char>, Seq<char>>::empty(),
    {
        ListMarkerMap { entries: Vec::new() }
    }

    /// Bind `key` to `value`, replacing any earlier label.
    pub fn insert(&mut self, key: String, value: String)
        ensures
            final(self)@ == old(self)@.insert(key@, value@),
    {
        let ghost before = self.entries@;
        self.entries.push((key, value));
        proof {
            assert(self.entries@.drop_last() =~= before);
        }
    }

    /// The label bound to `key`.
    pub fn get(&self, key: &str) -> (r: Option<&String>)
        ensures
            r is Some <==> self@.contains_key(key@),
            r matches Some(v) ==> v@ == self@[key@],
    {
        let ghost f = text_fn();
        let mut i: usize = self.entries.len();
        while i > 0
            invariant
                i <= self.entries@.len(),
                f == text_fn(),
                forall|j: int| i <= j < self.entries@.len() ==> (#[trigger] self.entries@[j]).0@ != key@,
            decreases i,
        {
            if same_text(&self.entries[i - 1].0, key) {
                proof {
                    let e = self.entries@;
                    lemma_last_map_prefix(e, f, i as int, key@);
                    let p = e.take(i as int);
                    assert(p.drop_last() =~= e.take(i - 1));
                    assert(p.last() == e[i - 1]);
                    assert(last_map(p, f) == last_map(p.drop_last(), f).insert(p.last().0@, f(p.last().1)));
                    assert(f(p.last().1) == p.last().1@);
                    assert(last_map(p, f).contains_key(key@));
                }
                return Some(&self.entries[i - 1].1);
            }
            i = i - 1;
        }
        proof {
            lemma_last_map_prefix(self.entries@, f, 0, key@);
            assert(self.entries@.take(0) =~= Seq::<(String, String)>::empty());
        }
        None
    }
}

// ---------------------------------------------------------------------------------------------
// The numbering model.

/// Bullet glyph and number suffix declared by a list style.
pub open spec fn style_texts(s: ListStyle) -> (Option<Seq<char>>, Option<Seq<char>>) {
    (opt_text_view(s.bullet_glyph), opt_text_view(s.number_suffix))
}

/// Bullet glyph and number suffix of the list style a role/variant resolves to; `None` when
/// it has no list style.
pub open spec fn list_texts(role: Seq<char>, variant: Option<Seq<char>>, theme: Theme) -> Option<
    (Option<Seq<char>>, Option<Seq<char>>),
> {
    match role_or_default(theme, role) {
        None => None,
        Some(rs) => {
            let base = rs.list_style;
            let defaults = Some((Some("-"@), Some("."@)));
            match variant_def(theme, role, variant) {
                None => if role == "list_item"@ && base is None {
                    defaults
                } else {
                    match base {
                        Some(b) => Some(style_texts(b)),
                        None => None,
                    }
                },
                Some(vd) => {
                    let m = merged_spec(base, vd.list_style);
                    if m is None && role == "list_item"@ {
                        defaults
                    } else {
                        match m {
                            Some(x) => Some(style_texts(x)),
                            None => None,
                        }
                    }
                },
            }
        },
    }
}

proof fn lemma_list_texts(role: Seq<char>, variant: Option<Seq<char>>, theme: Theme, r: Option<ListStyle>)
    requires
        list_style_ok(role, variant, theme, r),
    ensures
        r is None <==> list_texts(role, variant, theme) is None,
        r matches Some(s) ==> style_texts(s) == list_texts(role, variant, theme)->Some_0,
{
}

/// Bullet label of a list item: the style's glyph, else "•".
pub open spec fn bullet_label(n: SemanticNode, theme: Theme) -> Option<Seq<char>> {
    match list_texts(n.role@, opt_text_view(n.variant), theme) {
        None => None,
        Some((g, _)) => Some(
            match g {
                Some(g) => g,
                None => "•"@,
            },
        ),
    }
}

/// Number suffix of a list item: the style's suffix, else ".".
pub open spec fn number_suffix(n: SemanticNode, theme: Theme) -> Option<Seq<char>> {
    match list_texts(n.role@, opt_text_view(n.variant), theme) {
        None => None,
        Some((_, s)) => Some(
            match s {
                Some(s) => s,
                None => "."@,
            },
        ),
    }
}

/// Counter stack when entering `depth`: grown with zeros, or cut, to `depth + 1` levels.
pub open spec fn stack_at_depth(c: Seq<u32>, depth: nat) -> Seq<u32> {
    if c.len() <= depth {
        c + Seq::new((depth + 1 - c.len()) as nat, |i: int| 0u32)
    } else {
        c.take(depth + 1int)
    }
}

/// The stack after counting one more item at `depth`, and that item's number; `None` when the
/// counter would pass `u32::MAX`.
pub open spec fn advance_spec(c: Seq<u32>, depth: nat) -> Option<(Seq<u32>, u32)> {
    let s = stack_at_depth(c, depth);
    if s[depth as int] == u32::MAX {
        None
    } else {
        Some((s.update(depth as int, (s[depth as int] + 1) as u32), (s[depth as int] + 1) as u32))
    }
}

/// Counters of one list id in a stream (empty before its first item).
pub open spec fn counters_for(state: Map<Seq<char>, Seq<u32>>, list_id: Seq<char>) -> Seq<u32> {
    if state.contains_key(list_id) {
        state[list_id]
    } else {
        seq![]
    }
}

pub open spec fn depth_of(n: SemanticNode) -> nat {
    match n.depth {
        Some(d) => d as nat,
        None => 0,
    }
}

/// One node of a stream: the counters after it and the label it gets (list items only), or
/// `None` when it cannot be labelled.
pub open spec fn item_step(state: Map<Seq<char>, Seq<u32>>, n: SemanticNode, theme: Theme) -> Option<
    (Map<Seq<char>, Seq<u32>>, Option<(Seq<char>, Seq<char>)>),
> {
    if n.role@ != "list_item"@ {
        Some((state, None))
    } else {
        match n.list_id {
            None => None,
            Some(lid) => match n.marker_type {
                Some(ListMarkerType::Number) => match number_suffix(n, theme) {
                    None => None,
                    Some(suffix) => if depth_of(n) >= usize::MAX {
                        None
                    } else {
                        match advance_spec(counters_for(state, lid@), depth_of(n)) {
                            None => None,
                            Some((c, num)) => Some(
                                (state.insert(lid@, c), Some((n.id@, decimal_text(num as int) + suffix))),
                            ),
                        }
                    },
                },
                _ => match bullet_label(n, theme) {
                    None => None,
                    Some(label) => Some((state, Some((n.id@, label)))),
                },
            },
        }
    }
}

/// Scan of the first `k` nodes of a stream: counters and the labels in order.
pub open spec fn stream_scan(nodes: Seq<SemanticNode>, theme: Theme, k: int) -> Option<
    (Map<Seq<char>, Seq<u32>>, Seq<(Seq<char>, Seq<char>)>),
>
    decreases k,
{
    if k <= 0 {
        Some((Map::empty(), seq![]))
    } else {
        match stream_scan(nodes, theme, k - 1) {
            None => None,
            Some((st, labels)) => match item_step(st, nodes[k - 1], theme) {
                None => None,
                Some((st2, o)) => Some(
                    (
                        st2,
                        match o {
                            Some(p) => labels.push(p),
                            None => labels,
                        },
                    ),
                ),
            },
        }
    }
}

/// Labels of one stream, numbering each list id independently.
pub open spec fn stream_labels(nodes: Seq<SemanticNode>, theme: Theme) -> Option<Seq<(Seq<char>, Seq<char>)>> {
    match stream_scan(nodes, theme, nodes.len() as int) {
        None => None,
        Some((_, labels)) => Some(labels),
    }
}

/// Labels of a subtree: each container's children form a stream, then each child is walked;
/// each inline table row is a stream, then each cell is walked.
pub open spec fn tree_labels(node: SemanticNode, theme: Theme) -> Option<Seq<(Seq<char>, Seq<char>)>>
    decreases node, 0int,
{
    match node.content {
        NodeContent::Container { children } => {
            proof {
                assert(decreases_to!(node => node.content));
                assert(decreases_to!(node.content => children));
                assert(decreases_to!(children => children@));
            }
            match stream_labels(children@, theme) {
                None => None,
                Some(a) => match children_labels(children@, theme, children@.len() as int) {
                    None => None,
                    Some(b) => Some(a + b),
                },
            }
        },
        NodeContent::Table(spec) => match spec.data {
            TableDataSource::Inline { rows } => {
                proof {
                    assert(decreases_to!(node => node.content));
                    assert(decreases_to!(node.content => spec));
                    assert(decreases_to!(spec => spec.data));
                    assert(decreases_to!(spec.data => rows));
                    assert(decreases_to!(rows => rows@));
                }
                rows_labels(rows@, theme, rows@.len() as int)
            },
            TableDataSource::Asset { .. } => Some(seq![]),
        },
        _ => Some(seq![]),
    }
}

/// Labels of the subtrees of the first `k` nodes, in order.
pub open spec fn children_labels(children: Seq<SemanticNode>, theme: Theme, k: int) -> Option<
    Seq<(Seq<char>, Seq<char>)>,
>
    decreases children, k,
{
    if k <= 0 || k > children.len() {
        Some(seq![])
    } else {
        match children_labels(children, theme, k - 1) {
            None => None,
            Some(a) => {
                proof {
                    assert(decreases_to!(children => children[k - 1]));
                }
                match tree_labels(children[k - 1], theme) {
                    None => None,
                    Some(b) => Some(a + b),
                }
            },
        }
    }
}

/// Labels of the first `k` table rows: each row as a stream, then its cells' subtrees.
pub open spec fn rows_labels(rows: Seq<Vec<SemanticNode>>, theme: Theme, k: int) -> Option<
    Seq<(Seq<char>, Seq<char>)>,
>
    decreases rows, k,
{
    if k <= 0 || k > rows.len() {
        Some(seq![])
    } else {
        match rows_labels(rows, theme, k - 1) {
            None => None,
            Some(a) => {
                let row = rows[k - 1];
                proof {
                    assert(decreases_to!(rows => rows[k - 1]));
                    assert(decreases_to!(rows[k - 1] => rows[k - 1]@));
                }
                match stream_labels(row@, theme) {
                    None => None,
                    Some(b) => match children_labels(row@, theme, row@.len() as int) {
                        None => None,
                        Some(c) => Some(a + b + c),
                    },
                }
            },
        }
    }
}

/// `m` after binding each label in turn.
pub open spec fn with_labels(m: Map<Seq<char>, Seq<char>>, labels: Seq<(Seq<char>, Seq<char>)>) -> Map<
    Seq<char>,
    Seq<char>,
>
    decreases labels.len(),
{
    if labels.len() == 0 {
        m
    } else {
        with_labels(m, labels.drop_last()).insert(labels.last().0, labels.last().1)
    }
}

proof fn lemma_with_labels_concat(m: Map<Seq<char>, Seq<char>>, a: Seq<(Seq<char>, Seq<char>)>, b: Seq<(Seq<char>, Seq<char>)>)
    ensures
        with_labels(with_labels(m, a), b) == with_labels(m, a + b),
    decreases b.len(),
{
    if b.len() > 0 {
        lemma_with_labels_concat(m, a, b.drop_last());
        assert((a + b).drop_last() =~= a + b.drop_last());
    } else {
        assert(a + b =~= a);
    }
}

// ---------------------------------------------------------------------------------------------
// Execution.

/// Per list id numbering state of one stream: list id -> counter stack (last entry wins).
struct StreamListState {
    by_list_id: Vec<(String, Vec<u32>)>,
}

/// A counter stack's values, as a function.
pub open spec fn stack_fn() -> spec_fn(Vec<u32>) -> Seq<u32> {
    |v: Vec<u32>| v@
}

impl StreamListState {
    spec fn view_map(&self) -> Map<Seq<char>, Seq<u32>> {
        last_map(self.by_list_id@, stack_fn())
    }
}

/// Count one more item at `depth`: resize the stack to `depth + 1` levels, then bump its top.
fn advance_number(counters_by_depth: &mut Vec<u32>, depth: usize) -> (r: Result<u32, String>)
    requires
        depth < usize::MAX,
    ensures
        match advance_spec(old(counters_by_depth)@, depth as nat) {
            None => r is Err,
            Some((c, n)) => r == Ok::<u32, String>(n) && final(counters_by_depth)@ == c,
        },
{
    let ghost c0 = counters_by_depth@;
    if counters_by_depth.len() <= depth {
        counters_by_depth.resize(depth + 1, 0);
        proof {
            assert forall|i: int| c0.len() <= i < depth + 1 implies counters_by_depth@[i] == 0u32 by {
                assert(vstd::pervasive::cloned::<u32>(0u32, counters_by_depth@[i]));
            }
            assert(counters_by_depth@ =~= stack_at_depth(c0, depth as nat));
        }
    } else {
        counters_by_depth.truncate(depth + 1);
        proof {
            assert(counters_by_depth@ =~= stack_at_depth(c0, depth as nat));
        }
    }
    let slot = counters_by_depth[depth];
    if slot == u32::MAX {
        return Err(owned("list numbering overflowed u32"));
    }
    counters_by_depth.set(depth, slot + 1);
    Ok(slot + 1)
}

/// Error text for a list item whose role has no list style.
pub open spec fn missing_style_text(role: Seq<char>) -> Seq<char> {
    "Missing list_style for role '"@ + role + "' (required to derive list marker labels)"@
}

/// "Missing list_style for role '<role>' (required to derive list marker labels)".
fn missing_style_message(role: &str) -> (r: String)
    ensures
        r@ == missing_style_text(role@),
{
    proof {
        reveal_strlit("Missing list_style for role '");
        reveal_strlit("' (required to derive list marker labels)");
    }
    let m = join(owned("Missing list_style for role '"), role);
    join(m, "' (required to derive list marker labels)")
}

fn resolve_bullet_label(node: &SemanticNode, theme: &Theme) -> (r: Result<String, String>)
    ensures
        match bullet_label(*node, *theme) {
            None => r is Err,
            Some(l) => r matches Ok(s) && s@ == l,
        },
{
    let variant = match &node.variant {
        Some(v) => Some(v.as_str()),
        None => None,
    };
    let style = resolve_list_style(node.role.as_str(), variant, theme);
    proof {
        lemma_list_texts(node.role@, opt_str_view(variant), *theme, style);
    }
    match style {
        None => Err(missing_style_message(node.role.as_str())),
        Some(s) => match s.bullet_glyph {
            Some(g) => Ok(g),
            None => Ok(owned("•")),
        },
    }
}

fn resolve_number_label(node: &SemanticNode, list_id: &str, theme: &Theme, state: &mut StreamListState) -> (r: Result<
    String,
    String,
>)
    requires
        node.role@ == "list_item"@,
        node.list_id matches Some(l) && l@ == list_id@,
        node.marker_type == Some(ListMarkerType::Number),
    ensures
        match item_step(old(state).view_map(), *node, *theme) {
            None => r is Err,
            Some((st, o)) => r matches Ok(s) && final(state).view_map() == st && o is Some && o->Some_0.1 == s@,
        },
{
    let variant = match &node.variant {
        Some(v) => Some(v.as_str()),
        None => None,
    };
    let style = resolve_list_style(node.role.as_str(), variant, theme);
    proof {
        lemma_list_texts(node.role@, opt_str_view(variant), *theme, style);
    }
    let suffix = match style {
        None => {
            return Err(missing_style_message(node.role.as_str()));
        },
        Some(s) => match s.number_suffix {
            Some(x) => x,
            None => owned("."),
        },
    };
    let depth: usize = match node.depth {
        Some(d) => d as usize,
        None => 0,
    };
    if depth == usize::MAX {
        return Err(owned("list depth is too large"));
    }
    let ghost f = stack_fn();
    // Find the last entry for this list id.
    let mut i: usize = state.by_list_id.len();
    while i > 0
        invariant
            i <= state.by_list_id@.len(),
            forall|j: int| i <= j < state.by_list_id@.len() ==> (#[trigger] state.by_list_id@[j]).0@ != list_id@,
        ensures
            i <= state.by_list_id@.len(),
            forall|j: int| i <= j < state.by_list_id@.len() ==> (#[trigger] state.by_list_id@[j]).0@ != list_id@,
            i > 0 ==> state.by_list_id@[i - 1].0@ == list_id@,
        decreases i,
    {
        if same_text(&state.by_list_id[i - 1].0, list_id) {
            break;
        }
        i = i - 1;
    }
    let ghost entries = state.by_list_id@;
    if i == 0 {
        proof {
            lemma_last_map_prefix(entries, f, 0, list_id@);
            assert(entries.take(0) =~= Seq::<(String, Vec<u32>)>::empty());
        }
        let mut counters: Vec<u32> = Vec::new();
        let n = advance_number(&mut counters, depth)?;
        state.by_list_id.push((owned(list_id), counters));
        proof {
            assert(state.by_list_id@.drop_last() =~= entries);
        }
        let label = join(decimal(n as i128), suffix.as_str());
        Ok(label)
    } else {
        let k = i - 1;
        proof {
            lemma_last_map_prefix(entries, f, i as int, list_id@);
            let p = entries.take(i as int);
            assert(p.drop_last() =~= entries.take(k as int));
            assert(p.last() == entries[k as int]);
        }
        let (key, mut counters) = state.by_list_id.remove(k);
        let n = match advance_number(&mut counters, depth) {
            Ok(n) => n,
            Err(e) => {
                return Err(e);
            },
        };
        state.by_list_id.insert(k, (key, counters));
        proof {
            assert(state.by_list_id@ =~= entries.update(k as int, (entries[k as int].0, counters)));
            lemma_last_map_update(entries, f, k as int, counters);
        }
        let label = join(decimal(n as i128), suffix.as_str());
        Ok(label)
    }
}

/// Error text for a list item without a list id.
pub open spec fn missing_list_id_text(id: Seq<char>) -> Seq<char> {
    "list_item '"@ + id + "' is missing list_id"@
}

/// "list_item '<id>' is missing list_id".
fn missing_list_id_message(id: &str) -> (r: String)
    ensures
        r@ == missing_list_id_text(id@),
{
    proof {
        reveal_strlit("list_item '");
        reveal_strlit("' is missing list_id");
    }
    join(join(owned("list_item '"), id), "' is missing list_id")
}

fn scan_stream(nodes: &[SemanticNode], theme: &Theme, out: &mut ListMarkerMap) -> (r: Result<(), String>)
    ensures
        match stream_labels(nodes@, *theme) {
            None => r is Err,
            Some(labels) => r is Ok && final(out)@ == with_labels(old(out)@, labels),
        },
{
    let mut state = StreamListState { by_list_id: Vec::new() };
    let ghost m0 = out@;
    let mut i: usize = 0;
    proof {
        assert(state.view_map() =~= Map::<Seq<char>, Seq<u32>>::empty());
    }
    while i < nodes.len()
        invariant
            i <= nodes@.len(),
            m0 == old(out)@,
            stream_scan(nodes@, *theme, i as int) matches Some((st, labels)) && st == state.view_map() && out@
                == with_labels(m0, labels),
        decreases nodes.len() - i,
    {
        let node = &nodes[i];
        let ghost prev = stream_scan(nodes@, *theme, i as int)->Some_0;
        if same_text(&node.role, "list_item") {
            let list_id = match &node.list_id {
                Some(l) => l.as_str(),
                None => {
                    proof {
                        assert(stream_scan(nodes@, *theme, i + 1) is None);
                        lemma_stream_scan_none(nodes@, *theme, i + 1, nodes@.len() as int);
                    }
                    return Err(missing_list_id_message(node.id.as_str()));
                },
            };
            let is_number = match node.marker_type {
                Some(ListMarkerType::Number) => true,
                _ => false,
            };
            let label_r = if is_number {
                resolve_number_label(node, list_id, theme, &mut state)
            } else {
                resolve_bullet_label(node, theme)
            };
            match label_r {
                Err(e) => {
                    proof {
                        assert(stream_scan(nodes@, *theme, i + 1) is None);
                        lemma_stream_scan_none(nodes@, *theme, i + 1, nodes@.len() as int);
                    }
                    return Err(e);
                },
                Ok(label) => {
                    let ghost lv = label@;
                    out.insert(node.id.clone(), label);
                    proof {
                        let labels = prev.1;
                        assert(labels.push((node.id@, lv)).drop_last() =~= labels);
                    }
                },
            }
        }
        i = i + 1;
    }
    Ok(())
}

proof fn lemma_stream_scan_none(nodes: Seq<SemanticNode>, theme: Theme, j: int, k: int)
    requires
        j <= k,
        stream_scan(nodes, theme, j) is None,
    ensures
        stream_scan(nodes, theme, k) is None,
    decreases k - j,
{
    if j < k {
        lemma_stream_scan_none(nodes, theme, j, k - 1);
    }
}

proof fn lemma_children_labels_none(children: Seq<SemanticNode>, theme: Theme, j: int, k: int)
    requires
        0 < j <= k <= children.len(),
        children_labels(children, theme, j) is None,
    ensures
        children_labels(children, theme, k) is None,
    decreases k - j,
{
    if j < k {
        lemma_children_labels_none(children, theme, j, k - 1);
    }
}

proof fn lemma_rows_labels_none(rows: Seq<Vec<SemanticNode>>, theme: Theme, j: int, k: int)
    requires
        0 < j <= k <= rows.len(),
        rows_labels(rows, theme, j) is None,
    ensures
        rows_labels(rows, theme, k) is None,
    decreases k - j,
{
    if j < k {
        lemma_rows_labels_none(rows, theme, j, k - 1);
    }
}

/// Walk the subtrees of `children` in order.
fn walk_children(children: &Vec<SemanticNode>, theme: &Theme, out: &mut ListMarkerMap) -> (r: Result<(), String>)
    ensures
        match children_labels(children@, *theme, children@.len() as int) {
            None => r is Err,
            Some(labels) => r is Ok && final(out)@ == with_labels(old(out)@, labels),
        },
    decreases children@, 1int,
{
    let ghost m0 = out@;
    let mut i: usize = 0;
    while i < children.len()
        invariant
            i <= children@.len(),
            m0 == old(out)@,
            children_labels(children@, *theme, i as int) matches Some(labels) && out@ == with_labels(m0, labels),
        decreases children.len() - i,
    {
        let ghost before = out@;
        let ghost acc = children_labels(children@, *theme, i as int)->Some_0;
        proof {
            assert(decreases_to!(children@ => children@[i as int]));
        }
        match walk_node(&children[i], theme, out) {
            Err(e) => {
                proof {
                    lemma_children_labels_none(children@, *theme, i + 1, children@.len() as int);
                }
                return Err(e);
            },
            Ok(()) => {
                proof {
                    let b = tree_labels(children@[i as int], *theme)->Some_0;
                    lemma_with_labels_concat(m0, acc, b);
                }
            },
        }
        i = i + 1;
    }
    Ok(())
}

fn walk_node(node: &SemanticNode, theme: &Theme, out: &mut ListMarkerMap) -> (r: Result<(), String>)
    ensures
        match tree_labels(*node, *theme) {
            None => r is Err,
            Some(labels) => r is Ok && final(out)@ == with_labels(old(out)@, labels),
        },
    decreases *node, 2int,
{
    let ghost m0 = out@;
    match &node.content {
        NodeContent::Container { children } => {
            proof {
                assert(decreases_to!(*node => node.content));
                assert(decreases_to!(node.content => *children));
                assert(decreases_to!(*children => children@));
            }
            scan_stream(children.as_slice(), theme, out)?;
            let ghost mid = out@;
            walk_children(children, theme, out)?;
            proof {
                let a = stream_labels(children@, *theme)->Some_0;
                let b = children_labels(children@, *theme, children@.len() as int)->Some_0;
                lemma_with_labels_concat(m0, a, b);
            }
            Ok(())
        },
        NodeContent::Table(spec) => {
            match &spec.data {
                TableDataSource::Inline { rows } => {
                    proof {
                        assert(decreases_to!(*node => node.content));
                        assert(decreases_to!(node.content => *spec));
                        assert(decreases_to!(*spec => spec.data));
                        assert(decreases_to!(spec.data => *rows));
                        assert(decreases_to!(*rows => rows@));
                    }
                    let mut k: usize = 0;
                    while k < rows.len()
                        invariant
                            k <= rows@.len(),
                            m0 == old(out)@,
                            rows_labels(rows@, *theme, k as int) matches Some(labels) && out@ == with_labels(
                                m0,
                                labels,
                            ),
                            decreases_to!(*node => rows@),
                            tree_labels(*node, *theme) == rows_labels(rows@, *theme, rows@.len() as int),
                        decreases rows.len() - k,
                    {
                        let row = &rows[k];
                        let ghost acc = rows_labels(rows@, *theme, k as int)->Some_0;
                        proof {
                            assert(decreases_to!(rows@ => rows@[k as int]));
                            assert(decreases_to!(rows@[k as int] => rows@[k as int]@));
                        }
                        match scan_stream(row.as_slice(), theme, out) {
                            Err(e) => {
                                proof {
                                    assert(rows@[k as int]@ == row@);
                                    assert(rows_labels(rows@, *theme, k + 1) is None);
                                    lemma_rows_labels_none(rows@, *theme, k + 1, rows@.len() as int);
                                }
                                return Err(e);
                            },
                            Ok(()) => {},
                        }
                        match walk_children(row, theme, out) {
                            Err(e) => {
                                proof {
                                    lemma_rows_labels_none(rows@, *theme, k + 1, rows@.len() as int);
                                }
                                return Err(e);
                            },
                            Ok(()) => {},
                        }
                        proof {
                            let b = stream_labels(row@, *theme)->Some_0;
                            let c = children_labels(row@, *theme, row@.len() as int)->Some_0;
                            lemma_with_labels_concat(m0, acc, b);
                            lemma_with_labels_concat(m0, acc + b, c);
                        }
                        k = k + 1;
                    }
                    Ok(())
                },
                TableDataSource::Asset { .. } => Ok(()),
            }
        },
        _ => Ok(()),
    }
}

/// Derive the marker label of every list item of the tree, keyed by node id.
pub fn derive_list_marker_map(root: &SemanticNode, theme: &Theme) -> (r: Result<ListMarkerMap, String>)
    ensures
        match tree_labels(*root, *theme) {
            None => r is Err,
            Some(labels) => r matches Ok(m) && m@ == with_labels(Map::empty(), labels),
        },
{
    let mut out = ListMarkerMap::new();
    walk_node(root, theme, &mut out)?;
    Ok(out)
}

/// Law: the first item of a list at any depth is numbered 1, and counting at a depth keeps the
/// counters of the shallower depths (a nested item does not disturb its parents' numbering).
pub proof fn law_numbering_depth_stack(c: Seq<u32>, depth: nat)
    ensures
        advance_spec(seq![], depth) matches Some((_, n)) && n == 1,
        advance_spec(c, depth) matches Some((c2, _)) ==> c2.len() == depth + 1 && forall|i: int|
            0 <= i < depth && i < c.len() ==> #[trigger] c2[i] == c[i],
        advance_spec(c, depth) matches Some((c2, n)) ==> c2[depth as int] == n && (n == 1 || (depth < c.len()
            && n == c[depth as int] + 1)),
{
}


/// Law: numbering counts per depth. Counting an item at a depth the counter stack already
/// reaches gives that depth's previous number plus one; at a depth it does not reach yet, the
/// number is 1. Either way the counters above that depth are kept and deeper ones are dropped,
/// and the new stack records the number given.
pub proof fn law_numbering_counts_per_depth(c: Seq<u32>, depth: nat)
    requires
        depth < c.len() ==> c[depth as int] < u32::MAX,
    ensures
        advance_spec(c, depth) matches Some((c2, n)) && {
            &&& c2.len() == depth + 1
            &&& c2[depth as int] == n
            &&& (depth < c.len() ==> n == c[depth as int] + 1)
            &&& (depth >= c.len() ==> n == 1)
            &&& forall|i: int| 0 <= i < depth && i < c.len() ==> #[trigger] c2[i] == c[i]
        },
{
}


/// Law: each list id keeps its own numbering. A list item only ever changes the counters of its
/// own list id; bullet items and nodes that are not list items change no counters at all.
pub proof fn law_lists_number_independently(
    state: Map<Seq<char>, Seq<u32>>,
    n: SemanticNode,
    theme: Theme,
    other: Seq<char>,
)
    ensures
        item_step(state, n, theme) matches Some((st2, _)) ==> {
            &&& (n.list_id matches Some(lid) && lid@ != other) ==> counters_for(st2, other) == counters_for(state, other)
            &&& (n.role@ != "list_item"@ || n.marker_type != Some(ListMarkerType::Number)) ==> st2 == state
        },
{
}

} // verus!
