//! Table layout: where cells land on a table's grid as they are added, which cell covers
//! a grid position, and how many rows the cells span.
//!
//! A cell's geometry (its corners, angle, stroke and fill) plays no part in the layout;
//! what stands here is the cell's text, grid position and spans.

use vstd::prelude::*;

verus! {

/// A table cell as the layout sees it.
#[derive(Debug, Clone, PartialEq)]
pub struct TableCell {
    pub text: String,
    pub row: usize,
    pub column: usize,
    pub col_span: i32,
    pub row_span: i32,
}

/// A table: how many columns its grid has (one where unset or below one) and its cells,
/// in the order they were added.
#[derive(Debug, Clone, PartialEq)]
pub struct Table {
    pub column_count: Option<i32>,
    pub cells: Vec<TableCell>,
}

/// How many grid rows or columns a span covers: at least one.
pub open spec fn span_of(s: i32) -> int {
    if s < 1 {
        1
    } else {
        s as int
    }
}

/// The cell covers the grid position.
pub open spec fn covers(c: TableCell, row: int, column: int) -> bool {
    &&& c.row <= row < c.row + span_of(c.row_span)
    &&& c.column <= column < c.column + span_of(c.col_span)
}

/// The position of the first cell from `i` on that covers the grid position, or the
/// number of cells where none does.
pub open spec fn first_cover_from(cells: Seq<TableCell>, row: int, column: int, i: int) -> int
    decreases cells.len() - i,
{
    if i < 0 || i >= cells.len() {
        cells.len() as int
    } else if covers(cells[i], row, column) {
        i
    } else {
        first_cover_from(cells, row, column, i + 1)
    }
}

/// The position of the first cell that covers the grid position, or the number of cells.
pub open spec fn first_cover(cells: Seq<TableCell>, row: int, column: int) -> int {
    first_cover_from(cells, row, column, 0)
}

/// No cell covers the grid position.
pub open spec fn is_free(cells: Seq<TableCell>, row: int, column: int) -> bool {
    forall|i: int| 0 <= i < cells.len() ==> !#[trigger] covers(cells[i], row, column)
}

/// The rows the cells reach down to: the largest end row, 0 without cells.
pub open spec fn rows_of(cells: Seq<TableCell>) -> int
    decreases cells.len(),
{
    if cells.len() == 0 {
        0
    } else {
        let last = cells.last().row + span_of(cells.last().row_span);
        let rest = rows_of(cells.drop_last());
        if last > rest {
            last
        } else {
            rest
        }
    }
}

/// The number of grid columns: the column count where it is at least one, else one.
pub open spec fn columns_of(column_count: Option<i32>) -> int {
    match column_count {
        Some(c) => span_of(c),
        None => 1,
    }
}

/// Every cell's end row and end column fit in a machine word.
pub open spec fn spans_fit(cells: Seq<TableCell>) -> bool {
    forall|i: int|
        0 <= i < cells.len() ==> #[trigger] cells[i].row + span_of(cells[i].row_span) <= usize::MAX
            && cells[i].column + span_of(cells[i].col_span) <= usize::MAX
}

/// `(row, column)` is the first free grid position in row-major order among the grid's
/// columns.
pub open spec fn is_first_free_slot(cells: Seq<TableCell>, columns: int, row: int, column: int) -> bool {
    &&& 0 <= row
    &&& 0 <= column < columns
    &&& is_free(cells, row, column)
    &&& forall|r: int, c: int| 0 <= r < row && 0 <= c < columns ==> !#[trigger] is_free(cells, r, c)
    &&& forall|c: int| 0 <= c < column ==> !#[trigger] is_free(cells, row, c)
}

/// The cell, placed at a grid position.
pub open spec fn placed_at(cell: TableCell, row: int, column: int) -> TableCell {
    TableCell { row: row as usize, column: column as usize, ..cell }
}

proof fn lemma_first_cover_from(cells: Seq<TableCell>, row: int, column: int, i: int)
    requires
        0 <= i <= cells.len(),
    ensures
        i <= first_cover_from(cells, row, column, i) <= cells.len(),
        first_cover_from(cells, row, column, i) < cells.len() ==> covers(
            cells[first_cover_from(cells, row, column, i)],
            row,
            column,
        ),
        forall|j: int| i <= j < first_cover_from(cells, row, column, i) ==> !#[trigger] covers(cells[j], row, column),
    decreases cells.len() - i,
{
    if i < cells.len() && !covers(cells[i], row, column) {
        lemma_first_cover_from(cells, row, column, i + 1);
    }
}

/// Every cell ends at or above the rows the cells reach down to.
proof fn lemma_rows_bound(cells: Seq<TableCell>)
    ensures
        rows_of(cells) >= 0,
        forall|i: int| 0 <= i < cells.len() ==> #[trigger] cells[i].row + span_of(cells[i].row_span) <= rows_of(cells),
        cells.len() > 0 ==> exists|i: int| 0 <= i < cells.len() && #[trigger] cells[i].row + span_of(cells[i].row_span) == rows_of(cells),
    decreases cells.len(),
{
    if cells.len() > 0 {
        let rest = cells.drop_last();
        lemma_rows_bound(rest);
        assert forall|i: int| 0 <= i < cells.len() implies #[trigger] cells[i].row + span_of(cells[i].row_span) <= rows_of(cells) by {
            if i < cells.len() - 1 {
                assert(cells[i] == rest[i]);
            }
        }
        let last = cells.last().row + span_of(cells.last().row_span);
        if last <= rows_of(rest) && rest.len() > 0 {
            let k = choose|k: int| 0 <= k < rest.len() && #[trigger] rest[k].row + span_of(rest[k].row_span) == rows_of(rest);
            assert(cells[k] == rest[k]);
        } else {
            assert(cells[cells.len() - 1] == cells.last());
        }
    }
}

/// Below the rows the cells reach, every grid position is free.
proof fn lemma_free_below(cells: Seq<TableCell>, row: int, column: int)
    requires
        row >= rows_of(cells),
    ensures
        is_free(cells, row, column),
{
    lemma_rows_bound(cells);
    assert forall|i: int| 0 <= i < cells.len() implies !#[trigger] covers(cells[i], row, column) by {
        assert(cells[i].row + span_of(cells[i].row_span) <= rows_of(cells));
    }
}

/// The rows reached after adding a cell: the larger of those before and the cell's end row.
proof fn lemma_rows_push(cells: Seq<TableCell>, cell: TableCell)
    ensures
        rows_of(cells.push(cell)) == if cell.row + span_of(cell.row_span) > rows_of(cells) {
            cell.row + span_of(cell.row_span)
        } else {
            rows_of(cells)
        },
{
    assert(cells.push(cell).drop_last() =~= cells);
}

fn span_len(s: i32) -> (r: usize)
    ensures
        r == span_of(s),
{
    if s < 1 {
        1
    } else {
        s as usize
    }
}

impl TableCell {
    /// An empty cell at the grid's origin, spanning one row and one column.
    pub fn new() -> (r: Self)
        ensures
            r.text@ == Seq::<char>::empty(),
            r.row == 0,
            r.column == 0,
            r.col_span == 1,
            r.row_span == 1,
    {
        TableCell { text: String::new(), row: 0, column: 0, col_span: 1, row_span: 1 }
    }
}

impl Table {
    /// An empty table with the column count unset.
    pub fn new() -> (r: Self)
        ensures
            r.column_count is None,
            r.cells@.len() == 0,
    {
        Table { column_count: None, cells: Vec::new() }
    }

    /// The first cell that covers the grid position, in the order the cells were added.
    pub fn get_cell(&self, row: usize, column: usize) -> (r: Option<&TableCell>)
        requires
            spans_fit(self.cells@),
        ensures
            r == (if first_cover(self.cells@, row as int, column as int) < self.cells@.len() {
                Some(&self.cells@[first_cover(self.cells@, row as int, column as int)])
            } else {
                None
            }),
    {
        let ghost cells = self.cells@;
        let mut i: usize = 0;
        while i < self.cells.len()
            invariant
                0 <= i <= self.cells.len(),
                cells == self.cells@,
                spans_fit(cells),
                first_cover_from(cells, row as int, column as int, i as int) == first_cover(cells, row as int, column as int),
            decreases self.cells.len() - i,
        {
            let cell = &self.cells[i];
            assert(cell.row + span_of(cell.row_span) <= usize::MAX && cell.column + span_of(cell.col_span) <= usize::MAX) by {
                assert(cells[i as int] == *cell);
            }
            let row_span = span_len(cell.row_span);
            let col_span = span_len(cell.col_span);
            if row >= cell.row && row < cell.row + row_span && column >= cell.column && column < cell.column + col_span {
                return Some(cell);
            }
            i = i + 1;
        }
        None
    }

    /// The number of rows the cells reach down to: the largest end row, 0 without cells.
    pub fn row_count(&self) -> (r: usize)
        requires
            spans_fit(self.cells@),
        ensures
            r == rows_of(self.cells@),
    {
        let ghost cells = self.cells@;
        let mut best: usize = 0;
        let mut i: usize = 0;
        while i < self.cells.len()
            invariant
                0 <= i <= self.cells.len(),
                cells == self.cells@,
                spans_fit(cells),
                best == rows_of(cells.take(i as int)),
            decreases self.cells.len() - i,
        {
            let cell = &self.cells[i];
            assert(cells.take(i + 1).drop_last() =~= cells.take(i as int));
            assert(cells.take(i + 1).last() == *cell);
            assert(cell.row + span_of(cell.row_span) <= usize::MAX) by {
                assert(cells[i as int] == *cell);
            }
            let end = cell.row + span_len(cell.row_span);
            if end > best {
                best = end;
            }
            i = i + 1;
        }
        assert(cells.take(cells.len() as int) =~= cells);
        best
    }

    /// The first free grid position in row-major order among the grid's columns.
    fn next_available_cell_slot(&self) -> (r: (usize, usize))
        requires
            spans_fit(self.cells@),
            rows_of(self.cells@) <= usize::MAX,
        ensures
            is_first_free_slot(self.cells@, columns_of(self.column_count), r.0 as int, r.1 as int),
            r.0 <= rows_of(self.cells@),
    {
        let ghost cells = self.cells@;
        let ghost columns = columns_of(self.column_count);
        let column_count: usize = match self.column_count {
            Some(c) => span_len(c),
            None => 1,
        };
        let mut row: usize = 0;
        proof {
            lemma_rows_bound(cells);
        }
        loop
            invariant
                cells == self.cells@,
                columns == column_count,
                columns == columns_of(self.column_count),
                1 <= column_count <= i32::MAX,
                spans_fit(cells),
                rows_of(cells) <= usize::MAX,
                0 <= row <= rows_of(cells),
                forall|r: int, c: int| 0 <= r < row && 0 <= c < columns ==> !#[trigger] is_free(cells, r, c),
            decreases rows_of(cells) - row,
        {
            let mut column: usize = 0;
            while column < column_count
                invariant
                    cells == self.cells@,
                    columns == column_count,
                    columns == columns_of(self.column_count),
                    spans_fit(cells),
                    0 <= column <= column_count,
                    forall|r: int, c: int| 0 <= r < row && 0 <= c < columns ==> !#[trigger] is_free(cells, r, c),
                    0 <= row <= rows_of(cells),
                    forall|c: int| 0 <= c < column ==> !#[trigger] is_free(cells, row as int, c),
                decreases column_count - column,
            {
                let found = self.get_cell(row, column);
                proof {
                    lemma_first_cover_from(cells, row as int, column as int, 0);
                }
                if found.is_none() {
                    assert(is_free(cells, row as int, column as int));
                    return (row, column);
                }
                column = column + 1;
            }
            proof {
                if row as int == rows_of(cells) {
                    lemma_free_below(cells, row as int, 0);
                    assert(!is_free(cells, row as int, 0));
                }
            }
            row = row + 1;
        }
    }

    /// Places the cell at the first free grid position, in row-major order, and adds it.
    pub fn add_cell(&mut self, cell: TableCell)
        requires
            spans_fit(old(self).cells@),
        ensures
            final(self).column_count == old(self).column_count,
            exists|row: int, column: int|
                #[trigger] is_first_free_slot(old(self).cells@, columns_of(old(self).column_count), row, column) && row
                    <= rows_of(old(self).cells@) && final(self).cells@ == old(self).cells@.push(placed_at(cell, row, column)),
    {
        proof {
            lemma_rows_bound(self.cells@);
            if self.cells@.len() > 0 {
                let k = choose|k: int| 0 <= k < self.cells@.len() && #[trigger] self.cells@[k].row + span_of(self.cells@[k].row_span) == rows_of(self.cells@);
                assert(self.cells@[k].row + span_of(self.cells@[k].row_span) <= usize::MAX);
            }
        }
        let ghost given = cell;
        let (row, column) = self.next_available_cell_slot();
        let mut placed = cell;
        placed.row = row;
        placed.column = column;
        assert(placed == placed_at(given, row as int, column as int));
        self.cells.push(placed);
    }
}

/// A cell added to a table is the one found at its grid position, and it covers only
/// positions that were free before it was added.
pub proof fn law_added_cell_is_found(cells: Seq<TableCell>, columns: int, row: int, column: int, cell: TableCell)
    requires
        is_first_free_slot(cells, columns, row, column),
        row <= usize::MAX,
        column <= usize::MAX,
    ensures
        first_cover(cells.push(placed_at(cell, row, column)), row, column) == cells.len(),
{
    let next = cells.push(placed_at(cell, row, column));
    lemma_first_cover_from(next, row, column, 0);
    let f = first_cover(next, row, column);
    if f < cells.len() {
        assert(next[f] == cells[f]);
        assert(covers(cells[f], row, column));
    }
    assert(covers(next[cells.len() as int], row, column));
}

/// Adding a cell never lowers the rows a table reaches, and the rows reached cover the
/// new cell.
pub proof fn law_rows_grow_with_cells(cells: Seq<TableCell>, cell: TableCell)
    ensures
        rows_of(cells.push(cell)) >= rows_of(cells),
        rows_of(cells.push(cell)) >= cell.row + span_of(cell.row_span),
{
    lemma_rows_push(cells, cell);
}

} // verus!
