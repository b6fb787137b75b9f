use ki2::model::table::{Table, TableCell};

#[test]
fn tables_place_cells_on_grid_from_spans() {
    let mut table = Table::new();
    table.column_count = Some(3);

    let mut first = TableCell::new();
    first.col_span = 2;
    table.add_cell(first);

    let second = TableCell::new();
    table.add_cell(second);

    let third = TableCell::new();
    table.add_cell(third);

    assert_eq!(table.cells[0].row, 0);
    assert_eq!(table.cells[0].column, 0);
    assert_eq!(table.cells[1].row, 0);
    assert_eq!(table.cells[1].column, 2);
    assert_eq!(table.cells[2].row, 1);
    assert_eq!(table.cells[2].column, 0);
    assert!(std::ptr::eq(table.get_cell(0, 1).expect("spanned cell"), &table.cells[0]));
    assert!(std::ptr::eq(table.get_cell(0, 2).expect("third column cell"), &table.cells[1]));
    assert_eq!(table.row_count(), 2);
}

#[test]
fn tables_place_cells_around_row_spans() {
    let mut table = Table::new();
    table.column_count = Some(2);

    let mut first = TableCell::new();
    first.row_span = 2;
    table.add_cell(first);

    let second = TableCell::new();
    table.add_cell(second);

    let third = TableCell::new();
    table.add_cell(third);

    let fourth = TableCell::new();
    table.add_cell(fourth);

    assert_eq!(table.cells[0].row, 0);
    assert_eq!(table.cells[0].column, 0);
    assert_eq!(table.cells[1].row, 0);
    assert_eq!(table.cells[1].column, 1);
    assert_eq!(table.cells[2].row, 1);
    assert_eq!(table.cells[2].column, 1);
    assert_eq!(table.cells[3].row, 2);
    assert_eq!(table.cells[3].column, 0);
    assert!(std::ptr::eq(table.get_cell(1, 0).expect("row-spanned cell"), &table.cells[0]));
    assert_eq!(table.row_count(), 3);
}

#[test]
fn new_cells_span_one_position() {
    let cell = TableCell::new();
    assert_eq!(cell.row_span, 1);
    assert_eq!(cell.col_span, 1);
    assert_eq!(cell.row, 0);
    assert_eq!(cell.column, 0);
    assert!(cell.text.is_empty());
}

#[test]
fn unset_column_count_stacks_cells_in_one_column() {
    let mut table = Table::new();
    table.add_cell(TableCell::new());
    table.add_cell(TableCell::new());
    assert_eq!((table.cells[1].row, table.cells[1].column), (1, 0));
    assert!(table.get_cell(0, 1).is_none());
    assert_eq!(table.row_count(), 2);
    assert_eq!(Table::new().row_count(), 0);
}

#[test]
fn non_positive_spans_count_as_one() {
    let mut table = Table::new();
    table.column_count = Some(0);
    let mut odd = TableCell::new();
    odd.row_span = -3;
    odd.col_span = 0;
    table.add_cell(odd);
    table.add_cell(TableCell::new());
    assert_eq!((table.cells[1].row, table.cells[1].column), (1, 0));
    assert_eq!(table.row_count(), 2);
}
