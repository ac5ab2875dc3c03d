use vstd::prelude::*;
use crate::arith::{
    lemma_index_in_table, lemma_index_of_line, lemma_line_in_table, lemma_line_of_index,
};
use crate::grid::{rectangular, CharGrid};

verus! {

/// The cell that the next character goes to. `row` may equal the number of rows: then the
/// grid is full and nothing more is placed.
#[derive(Clone, Copy, Debug, PartialEq, Eq, Structural)]
pub struct Cursor {
    pub row: usize,
    pub col: usize,
}

/// A layout in progress: the cursor and the cells as they stand.
pub struct Layout {
    pub row: nat,
    pub col: nat,
    pub cells: Seq<Seq<char>>,
}

/// The layout before any character: the cursor at the top left, the cells as given.
pub open spec fn start(cells: Seq<Seq<char>>) -> Layout {
    Layout { row: 0, col: 0, cells }
}

/// The layout after one more character `c`, in a grid of `cols` columns.
///
/// A newline moves the cursor to the start of the next row and writes nothing. Any other
/// character first wraps to the start of the next row if the cursor stands behind the last
/// column, then is written at the cursor, which moves one column on. Text that overflows
/// the grid is cut off: once the cursor has left the last row, or a character finds no
/// cell, the cursor is parked at `(rows, 0)` and the rest of the input changes nothing.
pub open spec fn step(s: Layout, c: char, cols: nat) -> Layout {
    let rows = s.cells.len();
    if s.row >= rows {
        s
    } else if c == '\n' {
        Layout { row: s.row + 1, col: 0, cells: s.cells }
    } else {
        let row = if s.col >= cols { s.row + 1 } else { s.row };
        let col = if s.col >= cols { 0 } else { s.col };
        if row < rows && col < cols {
            Layout {
                row,
                col: col + 1,
                cells: s.cells.update(row as int, s.cells[row as int].update(col as int, c)),
            }
        } else {
            Layout { row: rows, col: 0, cells: s.cells }
        }
    }
}

/// The layout after all of `text`, character by character from [`start`].
pub open spec fn laid_out(text: Seq<char>, cells: Seq<Seq<char>>, cols: nat) -> Layout
    decreases text.len(),
{
    if text.len() == 0 {
        start(cells)
    } else {
        step(laid_out(text.drop_last(), cells, cols), text.last(), cols)
    }
}

/// Laying out a text keeps the number of rows.
pub proof fn lemma_rows_kept(text: Seq<char>, cells: Seq<Seq<char>>, cols: nat)
    ensures
        laid_out(text, cells, cols).cells.len() == cells.len(),
    decreases text.len(),
{
    if text.len() > 0 {
        lemma_rows_kept(text.drop_last(), cells, cols);
    }
}

/// Whether the cursor of `s` is one that [`laid_out`] can reach in `cols` columns.
pub open spec fn in_bounds(s: Layout, cols: nat) -> bool {
    &&& s.row <= s.cells.len()
    &&& s.col <= cols
    &&& rectangular(s.cells, cols)
}

/// A step keeps the cursor in bounds and the shape of the cells.
pub proof fn lemma_step_in_bounds(s: Layout, c: char, cols: nat)
    requires
        in_bounds(s, cols),
    ensures
        in_bounds(step(s, c, cols), cols),
        step(s, c, cols).cells.len() == s.cells.len(),
{
}

/// Laying out a whole text keeps the cursor in bounds and the shape of the cells.
pub proof fn lemma_laid_out_in_bounds(text: Seq<char>, cells: Seq<Seq<char>>, cols: nat)
    requires
        rectangular(cells, cols),
    ensures
        in_bounds(laid_out(text, cells, cols), cols),
        laid_out(text, cells, cols).cells.len() == cells.len(),
    decreases text.len(),
{
    if text.len() > 0 {
        lemma_laid_out_in_bounds(text.drop_last(), cells, cols);
        lemma_step_in_bounds(laid_out(text.drop_last(), cells, cols), text.last(), cols);
    }
}

/// Once the cursor has left the last row, no further input changes the layout.
pub proof fn lemma_parked(text: Seq<char>, n: int, cells: Seq<Seq<char>>, cols: nat)
    requires
        0 <= n <= text.len(),
        laid_out(text.take(n), cells, cols).row >= cells.len(),
    ensures
        laid_out(text, cells, cols) == laid_out(text.take(n), cells, cols),
    decreases text.len() - n,
{
    if n == text.len() {
        assert(text.take(n) =~= text);
    } else {
        assert(text.take(n + 1).drop_last() =~= text.take(n));
        lemma_rows_kept(text.take(n), cells, cols);
        lemma_parked(text, n + 1, cells, cols);
    }
}

/// Lays `text` out in `grid` from the top left and returns where the cursor ends.
///
/// Cells that no character reaches keep what they held. Text that does not fit is cut
/// off; see [`step`].
pub fn layout(text: &str, grid: &mut CharGrid) -> (end: Cursor)
    ensures
        final(grid).spec_rows() == old(grid).spec_rows(),
        final(grid).spec_cols() == old(grid).spec_cols(),
        final(grid)@ == laid_out(text@, old(grid)@, old(grid).spec_cols()).cells,
        end.row == laid_out(text@, old(grid)@, old(grid).spec_cols()).row,
        end.col == laid_out(text@, old(grid)@, old(grid).spec_cols()).col,
{
    proof {
        use_type_invariant(&*grid);
        grid.lemma_inv();
    }
    let rows = grid.rows();
    let cols = grid.cols();
    let mut row: usize = 0;
    let mut col: usize = 0;
    for c in it: text.chars()
        invariant
            it.seq() == text@,
            rows == old(grid)@.len(),
            cols == old(grid).spec_cols(),
            grid.spec_cols() == cols,
            rectangular(old(grid)@, cols as nat),
            laid_out(text@.take(it.index()), old(grid)@, cols as nat) == (Layout {
                row: row as nat,
                col: col as nat,
                cells: grid@,
            }),
    {
        proof {
            let i = it.index();
            assert(text@.take(i + 1).drop_last() =~= text@.take(i));
            lemma_laid_out_in_bounds(text@.take(i), old(grid)@, cols as nat);
        }
        if row >= rows {
            proof {
                lemma_parked(text@, it.index(), old(grid)@, cols as nat);
            }
            return Cursor { row, col };
        }
        if c == '\n' {
            row = row + 1;
            col = 0;
        } else {
            if col >= cols {
                row = row + 1;
                col = 0;
            }
            if row < rows && col < cols {
                grid.put(row, col, c);
                col = col + 1;
            } else {
                row = rows;
                col = 0;
            }
        }
    }
    proof {
        assert(text@.take(text@.len() as int) =~= text@);
        lemma_laid_out_in_bounds(text@, old(grid)@, cols as nat);
    }
    Cursor { row, col }
}

/// Whether `text` holds no newline.
pub open spec fn plain(text: Seq<char>) -> bool {
    forall|i: int| 0 <= i < text.len() ==> text[i] != '\n'
}

/// The cells with the first characters of `text` written over them row by row, `cols` to
/// a row: cell `(r, c)` holds character `r * cols + c` of the text where there is one.
pub open spec fn filled(text: Seq<char>, cells: Seq<Seq<char>>, cols: nat) -> Seq<Seq<char>> {
    Seq::new(
        cells.len(),
        |r: int|
            Seq::new(
                cols,
                |c: int|
                    if r * cols + c < text.len() {
                        text[r * cols + c]
                    } else {
                        cells[r][c]
                    },
            ),
    )
}

/// Where the cursor stands after `n` characters without a newline, in a grid of `rows` by
/// `cols`: behind the last character written, or parked once the grid has overflowed.
pub open spec fn plain_cursor(n: nat, rows: nat, cols: nat) -> (nat, nat) {
    if n == 0 {
        (0, 0)
    } else if n <= rows * cols {
        (((n - 1) / (cols as int)) as nat, ((n - 1) % (cols as int) + 1) as nat)
    } else {
        (rows, 0)
    }
}

/// The layout of a text without newlines, in closed form.
pub proof fn lemma_plain_text(text: Seq<char>, cells: Seq<Seq<char>>, cols: nat)
    requires
        rectangular(cells, cols),
        plain(text),
    ensures
        laid_out(text, cells, cols).cells == filled(text, cells, cols),
        laid_out(text, cells, cols).row == plain_cursor(text.len(), cells.len(), cols).0,
        laid_out(text, cells, cols).col == plain_cursor(text.len(), cells.len(), cols).1,
    decreases text.len(),
{
    let rows = cells.len();
    let n = text.len();
    let d = cols as int;
    if n == 0 {
        assert(filled(text, cells, cols) =~~= cells);
    } else {
        let t = text.drop_last();
        let m = t.len();
        let ch = text.last();
        lemma_plain_text(t, cells, cols);
        let prev = laid_out(t, cells, cols);
        let next = step(prev, ch, cols);
        assert(prev.cells.len() == rows);
        assert(ch == text[n - 1] && ch != '\n');
        if m < rows * cols {
            assert(cols > 0 && rows > 0) by (nonlinear_arith)
                requires
                    0 <= m < rows * cols,
            ;
            lemma_index_of_line(m as int, d);
            lemma_line_in_table(m as int, rows as int, d);
            let q = m as int / d;
            let r = m as int % d;
            if m > 0 {
                lemma_index_of_line(m - 1, d);
                let q0 = (m - 1) / d;
                let r0 = (m - 1) % d;
                if r0 + 1 < d {
                    lemma_line_of_index(q0, r0 + 1, d);
                } else {
                    assert((q0 + 1) * d + 0 == q0 * d + r0 + 1) by (nonlinear_arith)
                        requires
                            r0 + 1 == d,
                    ;
                    lemma_line_of_index(q0 + 1, 0, d);
                }
            }
            assert(next.row == q && next.col == r + 1);
            assert(next.cells == prev.cells.update(q, prev.cells[q].update(r, ch)));
            assert forall|i: int, j: int| 0 <= i < rows && 0 <= j < cols implies #[trigger] filled(
                text,
                cells,
                cols,
            )[i][j] == next.cells[i][j] by {
                lemma_line_of_index(i, j, d);
            }
            assert(next.cells =~~= filled(text, cells, cols));
        } else {
            assert(next.row == rows && next.col == 0 && next.cells == prev.cells) by {
                if m == 0 {
                    assert(rows == 0 || cols == 0) by (nonlinear_arith)
                        requires
                            rows * cols <= 0,
                            rows >= 0,
                            cols >= 0,
                    ;
                } else if m == rows * cols {
                    assert(cols > 0 && rows > 0) by (nonlinear_arith)
                        requires
                            0 < m,
                            m == rows * cols,
                    ;
                    assert(m - 1 == (rows - 1) * d + (d - 1)) by (nonlinear_arith)
                        requires
                            m == rows * d,
                    ;
                    lemma_line_of_index(rows - 1, d - 1, d);
                }
            }
            assert forall|i: int, j: int| 0 <= i < rows && 0 <= j < cols implies #[trigger] filled(
                text,
                cells,
                cols,
            )[i][j] == filled(t, cells, cols)[i][j] by {
                lemma_index_in_table(i, j, rows as int, d);
            }
            assert(filled(t, cells, cols) =~~= filled(text, cells, cols));
        }
    }
}

/// A line without newlines that is no longer than a row is placed in row 0, from column 0
/// on and in order; every other cell keeps what it held, and the cursor stays in row 0.
pub proof fn law_short_line_fills_first_row(text: Seq<char>, cells: Seq<Seq<char>>, cols: nat)
    requires
        rectangular(cells, cols),
        cells.len() >= 1,
        plain(text),
        text.len() <= cols,
    ensures
        laid_out(text, cells, cols).cells == cells.update(
            0,
            text + cells[0].subrange(text.len() as int, cols as int),
        ),
        laid_out(text, cells, cols).row == 0,
        laid_out(text, cells, cols).col == text.len(),
{
    lemma_plain_text(text, cells, cols);
    let n = text.len();
    let d = cols as int;
    if n > 0 {
        lemma_line_of_index(0, n - 1, d);
        assert(n <= cells.len() * cols) by (nonlinear_arith)
            requires
                n <= cols,
                cells.len() >= 1,
        ;
    }
    let expected = cells.update(0, text + cells[0].subrange(n as int, d));
    assert forall|i: int, j: int| 0 <= i < cells.len() && 0 <= j < cols implies #[trigger] filled(
        text,
        cells,
        cols,
    )[i][j] == expected[i][j] by {
        if i > 0 {
            assert(i * d + j >= n) by (nonlinear_arith)
                requires
                    i >= 1,
                    j >= 0,
                    n <= d,
            ;
        }
    }
    assert(filled(text, cells, cols) =~~= expected);
}

/// A newline that arrives while the cursor is in the grid moves the cursor down by exactly
/// one row and back to column 0, and writes no cell.
pub proof fn law_newline_advances_row(text: Seq<char>, i: int, cells: Seq<Seq<char>>, cols: nat)
    requires
        0 <= i < text.len(),
        text[i] == '\n',
        laid_out(text.take(i), cells, cols).row < cells.len(),
    ensures
        laid_out(text.take(i + 1), cells, cols).row == laid_out(text.take(i), cells, cols).row + 1,
        laid_out(text.take(i + 1), cells, cols).col == 0,
        laid_out(text.take(i + 1), cells, cols).cells == laid_out(text.take(i), cells, cols).cells,
{
    assert(text.take(i + 1).drop_last() =~= text.take(i));
    lemma_rows_kept(text.take(i), cells, cols);
}

/// Text without newlines fills the grid row by row and wraps behind the last column:
/// character `i` lands in row `i / cols`, column `i % cols`, as long as the grid has such
/// a cell, and every cell that no character reaches keeps what it held.
pub proof fn law_plain_text_wraps(text: Seq<char>, cells: Seq<Seq<char>>, cols: nat)
    requires
        rectangular(cells, cols),
        plain(text),
    ensures
        laid_out(text, cells, cols).cells == filled(text, cells, cols),
        forall|i: int|
            0 <= i < text.len() && i < cells.len() * cols ==> (#[trigger] laid_out(
                text,
                cells,
                cols,
            ).cells[i / (cols as int)])[i % (cols as int)] == text[i],
        forall|r: int, c: int|
            0 <= r < cells.len() && 0 <= c < cols && r * cols + c >= text.len() ==> #[trigger] laid_out(
                text,
                cells,
                cols,
            ).cells[r][c] == cells[r][c],
{
    lemma_plain_text(text, cells, cols);
    let d = cols as int;
    assert forall|i: int| 0 <= i < text.len() && i < cells.len() * cols implies (#[trigger] filled(
        text,
        cells,
        cols,
    )[i / d])[i % d] == text[i] by {
        assert(cols > 0) by (nonlinear_arith)
            requires
                0 <= i < cells.len() * cols,
        ;
        lemma_index_of_line(i, d);
        lemma_line_in_table(i, cells.len() as int, d);
    }
}

} // verus!
