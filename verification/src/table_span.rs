use vstd::prelude::*;

use crate::model::SemanticNode;
use crate::text::same_text;

verus! {

/// Occupancy of a cell: its `colspan`, at least 1.
pub open spec fn colspan_spec(cell: SemanticNode) -> int {
    if cell.colspan >= 1 {
        cell.colspan as int
    } else {
        1
    }
}

/// Occupancy of an authored table cell (`colspan`, default 1).
pub fn table_cell_colspan(cell: &SemanticNode) -> (r: usize)
    ensures
        r == colspan_spec(*cell),
{
    if cell.colspan >= 1 {
        cell.colspan as usize
    } else {
        1
    }
}

/// Visual start column and occupancy of one authored cell.
#[derive(Debug, Clone, Copy, PartialEq, Eq, Structural)]
pub struct TableCellSlot {
    pub start_col: usize,
    pub span: usize,
}

/// Total occupancy of the first `k` cells of a row.
pub open spec fn cover_spec(row: Seq<SemanticNode>, k: int) -> int
    decreases k,
{
    if k <= 0 {
        0
    } else {
        cover_spec(row, k - 1) + colspan_spec(row[k - 1])
    }
}

proof fn lemma_cover_mono(row: Seq<SemanticNode>, k: int, m: int)
    requires
        0 <= k <= m <= row.len(),
    ensures
        cover_spec(row, k) <= cover_spec(row, m),
    decreases m - k,
{
    if k < m {
        lemma_cover_mono(row, k, m - 1);
    }
}

/// Row-major slots: each cell starts where the previous occupancy ended.
pub fn table_row_slots(row: &[SemanticNode]) -> (r: Vec<TableCellSlot>)
    requires
        cover_spec(row@, row.len() as int) <= usize::MAX,
    ensures
        r@.len() == row.len(),
        forall|i: int|
            0 <= i < row.len() ==> (#[trigger] r@[i]).start_col == cover_spec(row@, i) && r@[i].span
                == colspan_spec(row@[i]),
{
    let mut start: usize = 0;
    let mut out: Vec<TableCellSlot> = Vec::new();
    let mut i: usize = 0;
    while i < row.len()
        invariant
            i <= row.len(),
            cover_spec(row@, row.len() as int) <= usize::MAX,
            start == cover_spec(row@, i as int),
            out@.len() == i,
            forall|q: int|
                0 <= q < i ==> (#[trigger] out@[q]).start_col == cover_spec(row@, q) && out@[q].span
                    == colspan_spec(row@[q]),
        decreases row.len() - i,
    {
        let span = table_cell_colspan(&row[i]);
        proof {
            lemma_cover_mono(row@, i + 1, row.len() as int);
        }
        out.push(TableCellSlot { start_col: start, span });
        start = start + span;
        i = i + 1;
    }
    out
}

/// Sum of cell occupancy on a row (default 1 per cell).
pub fn table_row_cover(row: &[SemanticNode]) -> (r: usize)
    requires
        cover_spec(row@, row.len() as int) <= usize::MAX,
    ensures
        r == cover_spec(row@, row.len() as int),
{
    let mut sum: usize = 0;
    let mut i: usize = 0;
    while i < row.len()
        invariant
            i <= row.len(),
            cover_spec(row@, row.len() as int) <= usize::MAX,
            sum == cover_spec(row@, i as int),
        decreases row.len() - i,
    {
        proof {
            lemma_cover_mono(row@, i + 1, row.len() as int);
        }
        sum = sum + table_cell_colspan(&row[i]);
        i = i + 1;
    }
    sum
}

/// Law: the slots tile the row: each slot starts where the previous one ends, and the last ends
/// at the row's cover.
pub proof fn law_slots_tile_row(row: Seq<SemanticNode>, i: int)
    requires
        0 <= i < row.len(),
    ensures
        cover_spec(row, i + 1) == cover_spec(row, i) + colspan_spec(row[i]),
        colspan_spec(row[i]) >= 1,
        i + 1 == row.len() ==> cover_spec(row, i) + colspan_spec(row[i]) == cover_spec(row, row.len() as int),
{
}

/// True when `ids` holds `id`.
pub open spec fn holds_id(ids: Seq<String>, id: Seq<char>) -> bool {
    exists|j: int| 0 <= j < ids.len() && (#[trigger] ids[j])@ == id
}

/// A row is on the page when it has cells and every cell's id is present.
pub open spec fn row_on_page(row: Seq<SemanticNode>, ids: Seq<String>) -> bool {
    row.len() > 0 && forall|c: int| 0 <= c < row.len() ==> holds_id(ids, (#[trigger] row[c]).id@)
}

/// The rows among the first `k` that are on the page, in order.
pub open spec fn rows_on_page_spec(rows: Seq<Vec<SemanticNode>>, ids: Seq<String>, k: int) -> Seq<Seq<SemanticNode>>
    decreases k,
{
    if k <= 0 {
        Seq::empty()
    } else {
        rows_on_page_spec(rows, ids, k - 1) + if row_on_page(rows[k - 1]@, ids) {
            seq![rows[k - 1]@]
        } else {
            Seq::empty()
        }
    }
}

fn contains_id(ids: &[String], id: &String) -> (r: bool)
    ensures
        r == holds_id(ids@, id@),
{
    let mut j: usize = 0;
    while j < ids.len()
        invariant
            j <= ids.len(),
            forall|q: int| 0 <= q < j ==> (#[trigger] ids@[q])@ != id@,
        decreases ids.len() - j,
    {
        if same_text(&ids[j], id.as_str()) {
            return true;
        }
        j = j + 1;
    }
    false
}

fn row_present(row: &Vec<SemanticNode>, ids: &[String]) -> (r: bool)
    ensures
        r == row_on_page(row@, ids@),
{
    if row.len() == 0 {
        return false;
    }
    let mut c: usize = 0;
    while c < row.len()
        invariant
            c <= row.len(),
            forall|q: int| 0 <= q < c ==> holds_id(ids@, (#[trigger] row@[q]).id@),
        decreases row.len() - c,
    {
        if !contains_id(ids, &row[c].id) {
            return false;
        }
        c = c + 1;
    }
    true
}

/// Semantic rows whose every authored cell id is present on this page fragment.
pub fn table_rows_on_page<'a>(rows: &'a [Vec<SemanticNode>], present_ids: &[String]) -> (r: Vec<&'a [SemanticNode]>)
    ensures
        r@.len() == rows_on_page_spec(rows@, present_ids@, rows.len() as int).len(),
        forall|k: int| 0 <= k < r@.len() ==> (#[trigger] r@[k])@ == rows_on_page_spec(rows@, present_ids@, rows.len() as int)[k],
{
    let mut out: Vec<&'a [SemanticNode]> = Vec::new();
    let mut i: usize = 0;
    while i < rows.len()
        invariant
            i <= rows.len(),
            out@.len() == rows_on_page_spec(rows@, present_ids@, i as int).len(),
            forall|k: int| 0 <= k < out@.len() ==> (#[trigger] out@[k])@ == rows_on_page_spec(rows@, present_ids@, i as int)[k],
        decreases rows.len() - i,
    {
        if row_present(&rows[i], present_ids) {
            out.push(rows[i].as_slice());
        }
        i = i + 1;
    }
    out
}

} // verus!
