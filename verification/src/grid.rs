use vstd::prelude::*;
use crate::error::ConfigError;

verus! {

/// The storage of a grid: a two-dimensional `ndarray` array of characters, owned and in
/// row-major order. Verus does not look inside; what it holds goes by the names
/// [`array_cells`] and [`array_width`].
#[verifier::external_body]
pub struct CellArray {
    inner: ndarray::Array2<char>,
}

/// The characters that an array holds, row by row.
pub uninterp spec fn array_cells(a: CellArray) -> Seq<Seq<char>>;

/// The length of the second axis of an array: the number of columns it was made with.
pub uninterp spec fn array_width(a: CellArray) -> nat;

/// Whether `ndarray` can make an array of `rows` by `cols` characters: the product of the
/// axis lengths that are not zero, and the bytes of the elements, each fit in `isize`.
pub open spec fn grid_fits(rows: int, cols: int) -> bool {
    &&& 0 <= rows
    &&& 0 <= cols
    &&& (if rows == 0 { 1 } else { rows }) * (if cols == 0 { 1 } else { cols }) <= isize::MAX
    &&& rows * cols * 4 <= isize::MAX
}

/// `ndarray::Array2::from_elem` with the shape `(rows, cols)`: an array of `rows` rows of
/// `cols` copies of `fill`. It panics where the shape does not fit, so that is required.
#[verifier::external_body]
fn array_filled(rows: usize, cols: usize, fill: char) -> (a: CellArray)
    requires
        grid_fits(rows as int, cols as int),
    ensures
        array_cells(a) == Seq::new(rows as nat, |r: int| Seq::new(cols as nat, |c: int| fill)),
        array_width(a) == cols,
{
    CellArray { inner: ndarray::Array2::from_elem((rows, cols), fill) }
}

/// `ndarray::ArrayBase::dim` of a two-dimensional array: the lengths of its two axes.
#[verifier::external_body]
fn array_shape(a: &CellArray) -> (shape: (usize, usize))
    ensures
        shape.0 == array_cells(*a).len(),
        shape.1 == array_width(*a),
{
    a.inner.dim()
}

/// Indexing an array with `[[row, col]]`: the element at that place. `ndarray` panics on
/// an index outside the shape, so the index is required to lie inside.
#[verifier::external_body]
fn array_get(a: &CellArray, row: usize, col: usize) -> (c: char)
    requires
        row < array_cells(*a).len(),
        col < array_width(*a),
    ensures
        c == array_cells(*a)[row as int][col as int],
{
    a.inner[[row, col]]
}

/// Assigning through `[[row, col]]`: that element is replaced, the others and the shape
/// stay. The index is required to lie inside the shape, as for reading.
#[verifier::external_body]
fn array_set(a: &mut CellArray, row: usize, col: usize, c: char)
    requires
        row < array_cells(*old(a)).len(),
        col < array_width(*old(a)),
    ensures
        array_cells(*final(a)) == array_cells(*old(a)).update(
            row as int,
            array_cells(*old(a))[row as int].update(col as int, c),
        ),
        array_width(*final(a)) == array_width(*old(a)),
    no_unwind
{
    a.inner[[row, col]] = c;
}

/// Whether `cells` is a table of `cols` columns: every row has that length.
pub open spec fn rectangular(cells: Seq<Seq<char>>, cols: nat) -> bool {
    forall|r: int| 0 <= r < cells.len() ==> (#[trigger] cells[r]).len() == cols
}

/// A fixed grid of characters, `rows` by `cols`. Its view is the sequence of its rows.
/// Every cell holds one character; the grid never changes its size.
pub struct CharGrid {
    cells: CellArray,
}

impl View for CharGrid {
    type V = Seq<Seq<char>>;

    closed spec fn view(&self) -> Seq<Seq<char>> {
        array_cells(self.cells)
    }
}

impl CharGrid {
    /// What holds of every grid: each of its rows has as many cells as the grid has
    /// columns.
    #[verifier::type_invariant]
    pub closed spec fn inv(self) -> bool {
        rectangular(array_cells(self.cells), array_width(self.cells))
    }

    /// The view of a grid is a table.
    pub proof fn lemma_inv(self)
        requires
            self.inv(),
        ensures
            rectangular(self@, self.spec_cols()),
    {
    }

    /// The number of rows.
    pub open spec fn spec_rows(&self) -> nat {
        self@.len()
    }

    /// The number of columns.
    pub closed spec fn spec_cols(&self) -> nat {
        array_width(self.cells)
    }

    /// A grid of `rows` by `cols` blank cells, or `GridTooLarge` where this machine cannot
    /// hold one.
    pub fn new(rows: usize, cols: usize) -> (res: Result<CharGrid, ConfigError>)
        ensures
            res is Ok <==> grid_fits(rows as int, cols as int),
            res matches Ok(grid) ==> {
                &&& grid.spec_rows() == rows
                &&& grid.spec_cols() == cols
                &&& grid@ == Seq::new(rows as nat, |r: int| Seq::new(cols as nat, |c: int| ' '))
            },
            res matches Err(e) ==> e == ConfigError::GridTooLarge,
    {
        let limit: usize = isize::MAX as usize;
        let r: usize = if rows == 0 { 1 } else { rows };
        let c: usize = if cols == 0 { 1 } else { cols };
        let fits = match r.checked_mul(c) {
            Some(n) => n <= limit / 4 || (n <= limit && (rows == 0 || cols == 0)),
            None => false,
        };
        if fits {
            Ok(CharGrid { cells: array_filled(rows, cols, ' ') })
        } else {
            Err(ConfigError::GridTooLarge)
        }
    }

    /// The number of rows.
    pub fn rows(&self) -> (n: usize)
        ensures
            n == self.spec_rows(),
    {
        array_shape(&self.cells).0
    }

    /// The number of columns.
    pub fn cols(&self) -> (n: usize)
        ensures
            n == self.spec_cols(),
    {
        array_shape(&self.cells).1
    }

    /// The character at `(row, col)`, or `None` where the grid has no such cell.
    pub fn get(&self, row: usize, col: usize) -> (res: Option<char>)
        ensures
            res == if row < self.spec_rows() && col < self.spec_cols() {
                Some(self@[row as int][col as int])
            } else {
                None
            },
    {
        let (rows, cols) = array_shape(&self.cells);
        if row < rows && col < cols {
            Some(array_get(&self.cells, row, col))
        } else {
            None
        }
    }

    /// The characters of row `row` from left to right, or `None` where the grid has no
    /// such row.
    pub fn row(&self, row: usize) -> (res: Option<Vec<char>>)
        ensures
            res is Some <==> row < self.spec_rows(),
            res matches Some(line) ==> line@ == self@[row as int],
    {
        proof {
            use_type_invariant(self);
        }
        let (rows, cols) = array_shape(&self.cells);
        if row >= rows {
            return None;
        }
        let mut line: Vec<char> = Vec::new();
        let mut col: usize = 0;
        while col < cols
            invariant
                col <= cols,
                row < array_cells(self.cells).len(),
                cols == array_width(self.cells),
                array_cells(self.cells)[row as int].len() == cols,
                line@ == array_cells(self.cells)[row as int].take(col as int),
            decreases cols - col,
        {
            line.push(array_get(&self.cells, row, col));
            col = col + 1;
            assert(line@ =~= array_cells(self.cells)[row as int].take(col as int));
        }
        assert(line@ =~= self@[row as int]);
        Some(line)
    }

    /// Writes `c` at `(row, col)` and returns `true`; where the grid has no such cell,
    /// changes nothing and returns `false`.
    pub fn put(&mut self, row: usize, col: usize, c: char) -> (written: bool)
        ensures
            written == (row < old(self).spec_rows() && col < old(self).spec_cols()),
            final(self).spec_cols() == old(self).spec_cols(),
            final(self)@ == if written {
                old(self)@.update(row as int, old(self)@[row as int].update(col as int, c))
            } else {
                old(self)@
            },
    {
        proof {
            use_type_invariant(&*self);
        }
        let (rows, cols) = array_shape(&self.cells);
        if row < rows && col < cols {
            array_set(&mut self.cells, row, col, c);
            true
        } else {
            false
        }
    }
}

} // verus!
