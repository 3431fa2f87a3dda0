use vstd::prelude::*;

use crate::text::chars_of;

verus! {

/// `c` with ASCII upper-case letters lowered.
pub open spec fn ascii_lower(c: char) -> char {
    if 'A' <= c <= 'Z' {
        ((c as u32) + 32) as char
    } else {
        c
    }
}

/// ASCII case-insensitive equality (`str::eq_ignore_ascii_case`).
pub open spec fn eq_ignore_ascii_case_spec(a: Seq<char>, b: Seq<char>) -> bool {
    a.len() == b.len() && forall|i: int| 0 <= i < a.len() ==> #[trigger] ascii_lower(a[i]) == ascii_lower(b[i])
}

fn lower(c: char) -> (r: u32)
    ensures
        r == ascii_lower(c) as u32,
{
    let u = c as u32;
    if 65 <= u && u <= 90 {
        u + 32
    } else {
        u
    }
}

/// Checks that two strings are an ASCII case-insensitive match.
pub fn eq_ignore_ascii_case(a: &str, b: &str) -> (r: bool)
    ensures
        r == eq_ignore_ascii_case_spec(a@, b@),
{
    let ca = chars_of(a);
    let cb = chars_of(b);
    if ca.len() != cb.len() {
        return false;
    }
    let mut i: usize = 0;
    while i < ca.len()
        invariant
            ca@ == a@,
            cb@ == b@,
            ca@.len() == cb@.len(),
            i <= ca@.len(),
            forall|j: int| 0 <= j < i ==> #[trigger] ascii_lower(a@[j]) == ascii_lower(b@[j]),
        decreases ca.len() - i,
    {
        if lower(ca[i]) != lower(cb[i]) {
            return false;
        }
        i = i + 1;
    }
    true
}

/// CSS generic family keywords: a theme must name an embedded font instead.
pub open spec fn generic_families() -> Seq<Seq<char>> {
    seq![
        "serif"@,
        "sans-serif"@,
        "monospace"@,
        "cursive"@,
        "fantasy"@,
        "system-ui"@,
        "ui-serif"@,
        "ui-sans-serif"@,
        "ui-monospace"@,
        "ui-rounded"@,
        "emoji"@,
        "math"@,
        "fangsong"@,
    ]
}

/// True when `name` is a CSS generic family keyword, ignoring ASCII case.
pub fn is_generic_family(name: &str) -> (r: bool)
    ensures
        r == exists|i: int|
            0 <= i < generic_families().len() && eq_ignore_ascii_case_spec(#[trigger] generic_families()[i], name@),
{
    let families = [
        "serif",
        "sans-serif",
        "monospace",
        "cursive",
        "fantasy",
        "system-ui",
        "ui-serif",
        "ui-sans-serif",
        "ui-monospace",
        "ui-rounded",
        "emoji",
        "math",
        "fangsong",
    ];
    assert(families@.map_values(|s: &str| s@) =~= generic_families());
    let mut i: usize = 0;
    while i < 13
        invariant
            i <= 13,
            families@.map_values(|s: &str| s@) == generic_families(),
            forall|j: int| 0 <= j < i ==> !eq_ignore_ascii_case_spec(#[trigger] generic_families()[j], name@),
        decreases 13 - i,
    {
        assert(families@.map_values(|s: &str| s@)[i as int] == families@[i as int]@);
        if eq_ignore_ascii_case(families[i], name) {
            return true;
        }
        i = i + 1;
    }
    false
}

} // verus!
