use k2f_layout::model::{NodeContent, SemanticNode};
use k2f_layout::table_span::{table_row_cover, table_row_slots, table_rows_on_page, TableCellSlot};

fn cell(id: &str, span: u32) -> SemanticNode {
    SemanticNode {
        id: id.into(),
        role: "body".into(),
        content: NodeContent::Text("x".into()),
        colspan: span,
        ..Default::default()
    }
}

#[test]
fn slots_walk_start_columns() {
    let row = vec![cell("a", 2), cell("b", 1)];
    assert_eq!(table_row_cover(&row), 3);
    assert_eq!(
        table_row_slots(&row),
        vec![
            TableCellSlot {
                start_col: 0,
                span: 2
            },
            TableCellSlot {
                start_col: 2,
                span: 1
            },
        ]
    );
}

#[test]
fn omitted_colspan_covers_one() {
    let row = vec![cell("a", 1), cell("b", 1)];
    assert_eq!(table_row_cover(&row), 2);
}

#[test]
fn rows_on_page_require_every_cell() {
    let rows = vec![
        vec![cell("h0", 1), cell("h1", 1)],
        vec![cell("a", 2), cell("b", 1)],
        vec![cell("c0", 1), cell("c1", 1), cell("c2", 1)],
    ];
    let present: Vec<String> = ["h0", "h1", "a", "b"].into_iter().map(String::from).collect();
    let on_page = table_rows_on_page(&rows, &present);
    assert_eq!(on_page.len(), 2);
    assert_eq!(on_page[0][0].id, "h0");
    assert_eq!(on_page[1][0].id, "a");
}

#[test]
fn zero_colspan_counts_as_one_and_slots_tile() {
    let row = vec![cell("a", 0), cell("b", 3), cell("c", 1)];
    assert_eq!(table_row_cover(&row), 5);
    let slots = table_row_slots(&row);
    assert_eq!(slots[0], TableCellSlot { start_col: 0, span: 1 });
    assert_eq!(slots[1], TableCellSlot { start_col: 1, span: 3 });
    assert_eq!(slots[2], TableCellSlot { start_col: 4, span: 1 });
}

#[test]
fn empty_row_is_never_on_page() {
    let rows = vec![vec![], vec![cell("a", 1)]];
    let present: Vec<String> = vec!["a".to_string()];
    let on_page = table_rows_on_page(&rows, &present);
    assert_eq!(on_page.len(), 1);
    assert_eq!(on_page[0][0].id, "a");
}
