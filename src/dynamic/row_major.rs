//! A growable matrix stored in row-major order in a single buffer

use vstd::prelude::*;

use crate::errors::indexing_error::IndexingError;
use crate::errors::shape_error::ShapeError;

verus! {

/// A dynamic matrix in row-major order.
/// Adding a new row is cheap while adding a new column is expensive.
///
/// The element at row `r` and column `c` lives at offset `r * cols + c` of
/// the buffer. The number of rows is derived from the buffer's length.
#[derive(Debug)]
pub struct DynamicMatrix<T> {
    data: Vec<T>,
    cols: usize,
}

impl<T> DynamicMatrix<T> {
    /// The elements of the matrix, in row-major order
    pub closed spec fn elems(&self) -> Seq<T> {
        self.data@
    }

    /// The number of columns of the matrix
    pub closed spec fn ncols(&self) -> nat {
        self.cols as nat
    }

    /// The number of rows of the matrix: the buffer's length divided by the
    /// number of columns (none when there are no columns)
    pub open spec fn nrows(&self) -> nat {
        if self.ncols() == 0 {
            0
        } else {
            self.elems().len() / self.ncols()
        }
    }

    /// The shape invariant: the buffer holds exactly `nrows * ncols`
    /// elements, so it splits into whole rows
    pub open spec fn wf(&self) -> bool {
        self.elems().len() == self.nrows() * self.ncols()
    }

    /// The element at row `r` and column `c`
    pub open spec fn at(&self, r: int, c: int) -> T {
        self.elems()[r * self.ncols() + c]
    }

    /// Whether a buffer of `len` elements splits into whole rows of `cols`
    /// elements (an empty buffer being the only one for no columns)
    pub open spec fn whole_rows(len: nat, cols: nat) -> bool {
        if cols == 0 {
            len == 0
        } else {
            len % cols == 0
        }
    }

    /// Constructs a new DynamicMatrix from a nested array, one inner array per row
    pub fn new<const COLS: usize, const ROWS: usize>(data: [[T; COLS]; ROWS]) -> (m: Self)
        requires
            ROWS * COLS <= usize::MAX,
        ensures
            m.wf(),
            m.ncols() == COLS,
            COLS > 0 ==> m.nrows() == ROWS,
            m.elems().len() == ROWS * COLS,
            forall|r: int, c: int|
                0 <= r < ROWS && 0 <= c < COLS ==> #[trigger] m.at(r, c) == data@[r]@[c],
    {
        let ghost nested = data@;
        let boxed: Box<[[T; COLS]]> = Box::new(data);
        let rows: Vec<[T; COLS]> = boxed.into_vec();
        assert(rows@ == nested);
        let mut flat: Vec<T> = Vec::new();
        for row in it: rows.into_iter()
            invariant
                it.seq() == nested,
                nested.len() == ROWS,
                flat@.len() == it.index() * COLS,
                forall|r: int, c: int|
                    0 <= r < it.index() && 0 <= c < COLS ==> #[trigger] flat@[r * COLS + c]
                        == nested[r]@[c],
        {
            let ghost k = it.index();
            let boxed_row: Box<[T]> = Box::new(row);
            let mut cells: Vec<T> = boxed_row.into_vec();
            flat.append(&mut cells);
            proof {
                assert((k + 1) * COLS == k * COLS + COLS) by (nonlinear_arith);
                assert forall|r: int, c: int|
                    0 <= r < k + 1 && 0 <= c < COLS implies #[trigger] flat@[r * COLS + c]
                        == nested[r]@[c] by {
                    lemma_cell_offset(r, c, k + 1, COLS as int);
                    if r < k {
                        lemma_cell_offset(r, c, k, COLS as int);
                    } else {
                        assert(flat@[r * COLS + c] == row@[c]);
                    }
                }
            }
        }
        proof {
            if COLS > 0 {
                lemma_whole_rows(ROWS as int, COLS as int);
            } else {
                assert(ROWS * COLS == 0);
            }
        }
        Self { data: flat, cols: COLS }
    }

    /// Constructs a new empty DynamicMatrix with a set number of columns
    pub fn new_with_cols(cols: usize) -> (m: Self)
        ensures
            m.wf(),
            m.elems() == Seq::<T>::empty(),
            m.ncols() == cols,
            m.nrows() == 0,
    {
        proof {
            lemma_empty_rows(cols as int);
        }
        Self { data: Vec::new(), cols }
    }

    /// Constructs a new DynamicMatrix with no rows and the number of columns of
    /// `shape`, and allocates enough space to accommodate a matrix of the
    /// provided shape without reallocation
    pub fn with_capacity(shape: (usize, usize)) -> (m: Self)
        requires
            shape.0 * shape.1 <= usize::MAX,
        ensures
            m.wf(),
            m.elems() == Seq::<T>::empty(),
            m.ncols() == shape.1,
            m.nrows() == 0,
    {
        proof {
            lemma_empty_rows(shape.1 as int);
        }
        Self { data: Vec::with_capacity(shape.0 * shape.1), cols: shape.1 }
    }

    /// Constructs a DynamicMatrix from a buffer of whole rows, in row-major
    /// order, and its number of columns
    pub fn from_vec(data: Vec<T>, cols: usize) -> (m: Self)
        requires
            Self::whole_rows(data@.len(), cols as nat),
        ensures
            m.wf(),
            m.elems() == data@,
            m.ncols() == cols,
    {
        proof {
            lemma_whole_rows_fit(data@.len() as int, cols as int);
        }
        Self { data, cols }
    }

    /// Creates a DynamicMatrix from a boxed slice of whole rows, in row-major
    /// order, and its number of columns
    pub fn from_boxed_slice(boxed_slice: Box<[T]>, cols: usize) -> (m: Self)
        requires
            Self::whole_rows(boxed_slice@.len(), cols as nat),
        ensures
            m.wf(),
            m.elems() == boxed_slice@,
            m.ncols() == cols,
    {
        Self::from_vec(boxed_slice.into_vec(), cols)
    }

    /// Decomposes the DynamicMatrix into its buffer, in row-major order, and
    /// its number of columns
    pub fn into_vec(self) -> (parts: (Vec<T>, usize))
        ensures
            parts.0@ == self.elems(),
            parts.1 == self.ncols(),
    {
        (self.data, self.cols)
    }

    /// Decomposes the DynamicMatrix into the boxed slice of its buffer, in
    /// row-major order, and its number of columns
    pub fn into_boxed_slice(self) -> (parts: (Box<[T]>, usize))
        ensures
            parts.0@ == self.elems(),
            parts.1 == self.ncols(),
    {
        let cols = self.cols();
        (vec_into_boxed_slice(self.data), cols)
    }

    /// Detaching a well-formed matrix into its boxed form and attaching that
    /// form again reproduces the matrix: the detached buffer splits into whole
    /// rows of the detached column count, so the attach is permitted, and any
    /// matrix with the same elements and column count has the same shape and
    /// meets the shape invariant.
    pub proof fn lemma_boxed_round_trip(m: Self)
        requires
            m.wf(),
        ensures
            Self::whole_rows(m.elems().len(), m.ncols()),
            forall|n: Self|
                n.elems() == m.elems() && n.ncols() == m.ncols() ==> #[trigger] n.nrows()
                    == m.nrows() && n.wf(),
    {
        if m.ncols() > 0 {
            vstd::arithmetic::div_mod::lemma_mod_multiples_basic(m.nrows() as int, m.ncols() as int);
            assert(m.elems().len() as int == m.nrows() as int * m.ncols() as int);
        } else {
            assert(m.nrows() * m.ncols() == 0) by (nonlinear_arith)
                requires
                    m.ncols() == 0,
            ;
        }
    }

    /// Returns the number of rows in the DynamicMatrix
    pub fn rows(&self) -> (r: usize)
        requires
            self.ncols() > 0,
        ensures
            r == self.nrows(),
    {
        self.data.len() / self.cols
    }

    /// Returns the number of columns in the DynamicMatrix
    pub fn cols(&self) -> (c: usize)
        ensures
            c == self.ncols(),
    {
        self.cols
    }

    /// Appends a new row to the DynamicMatrix.
    ///
    /// The row must hold exactly `cols()` elements; otherwise a `ShapeError`
    /// reports the supplied length against the expected one and the matrix
    /// is left as it was.
    pub fn push_row(&mut self, row: Vec<T>) -> (res: Result<(), ShapeError>)
        requires
            old(self).wf(),
        ensures
            final(self).wf(),
            res is Ok <==> row@.len() == old(self).ncols(),
            res is Ok ==> final(self).elems() == old(self).elems() + row@
                && final(self).ncols() == old(self).ncols()
                && (old(self).ncols() > 0 ==> final(self).nrows() == old(self).nrows() + 1),
            res is Err ==> *final(self) == *old(self)
                && res == Err::<(), ShapeError>(
                    ShapeError { rows: 0, cols: row@.len() as usize, expected_rows: 0, expected_cols: old(self).ncols() as usize },
                ),
    {
        let mut row = row;
        if row.len() != self.cols() {
            Err(ShapeError::new_cols_error(row.len(), self.cols()))
        } else {
            proof {
                if self.cols > 0 {
                    lemma_add_row(self.data@.len() as int, self.cols as int);
                }
            }
            self.data.append(&mut row);
            proof {
                assert(self.cols == 0 ==> self.data@ =~= old(self).data@);
            }
            Ok(())
        }
    }

    /// Appends a new column to the DynamicMatrix.
    ///
    /// The column must hold exactly `rows()` elements, one for each row;
    /// otherwise a `ShapeError` reports the supplied length against the
    /// expected one and the matrix is left as it was. On success the `i`-th
    /// element of the column becomes the last element of the `i`-th row.
    pub fn push_col(&mut self, col: Vec<T>) -> (res: Result<(), ShapeError>)
        requires
            old(self).wf(),
            old(self).ncols() > 0,
            old(self).ncols() < usize::MAX,
        ensures
            final(self).wf(),
            res is Ok <==> col@.len() == old(self).nrows(),
            res is Ok ==> final(self).ncols() == old(self).ncols() + 1
                && final(self).nrows() == old(self).nrows()
                && forall|r: int, c: int|
                    0 <= r < old(self).nrows() && 0 <= c <= old(self).ncols()
                        ==> #[trigger] final(self).at(r, c) == if c < old(self).ncols() {
                            old(self).at(r, c)
                        } else {
                            col@[r]
                        },
            res is Err ==> *final(self) == *old(self)
                && res == Err::<(), ShapeError>(
                    ShapeError { rows: col@.len() as usize, cols: 0, expected_rows: old(self).nrows() as usize, expected_cols: 0 },
                ),
    {
        let rows = self.rows();
        if col.len() != rows {
            return Err(ShapeError::new_rows_error(col.len(), rows));
        }
        let cols = self.cols;
        let ghost old_data = self.data@;
        let ghost column = col@;
        proof {
            vstd::arithmetic::div_mod::lemma_fundamental_div_mod(old_data.len() as int, cols as int);
        }
        let mut i: usize = 0;
        for e in it: col.into_iter()
            invariant
                it.seq() == column,
                i == it.index(),
                column.len() == rows,
                rows == old_data.len() / (cols as nat),
                old_data.len() == rows * cols,
                0 < cols < usize::MAX,
                self.cols == cols,
                self.data@.len() == rows * cols + i,
                forall|r: int, c: int|
                    0 <= r < i && 0 <= c <= cols ==> #[trigger] self.data@[r * (cols + 1) + c] == if c
                        < cols {
                        old_data[r * cols + c]
                    } else {
                        column[r]
                    },
                forall|r: int, c: int|
                    i <= r < rows && 0 <= c < cols ==> #[trigger] self.data@[i * (cols + 1) + (r - i)
                        * cols + c] == old_data[r * cols + c],
        {
            let len = self.data.len();
            proof {
                lemma_col_offset(i as int, rows as int, cols as int);
                assert(cols + cols * i + i <= len);
            }
            let pos = cols + cols * i + i;
            let ghost prev = self.data@;
            self.data.insert(pos, e);
            proof {
                assert forall|r: int, c: int|
                    0 <= r < i + 1 && 0 <= c <= cols implies #[trigger] self.data@[r * (cols + 1) + c]
                        == if c < cols {
                        old_data[r * cols + c]
                    } else {
                        column[r]
                    } by {
                    lemma_row_before_insert(r, c, i as int, cols as int);
                    if r == i && c < cols {
                        assert(prev[i * (cols + 1) + (r - i) * cols + c] == old_data[r * cols + c]);
                    }
                }
                assert forall|r: int, c: int|
                    i + 1 <= r < rows && 0 <= c < cols implies #[trigger] self.data@[(i + 1) * (cols
                        + 1) + (r - (i + 1)) * cols + c] == old_data[r * cols + c] by {
                    lemma_row_after_insert(r, c, i as int, rows as int, cols as int);
                    assert(prev[i * (cols + 1) + (r - i) * cols + c] == old_data[r * cols + c]);
                }
            }
            i = i + 1;
        }
        proof {
            lemma_widened_rows(rows as int, cols as int);
        }
        self.cols = cols + 1;
        Ok(())
    }

    /// Returns the number of elements in the DynamicMatrix
    pub fn len(&self) -> (n: usize)
        ensures
            n == self.elems().len(),
    {
        self.data.len()
    }

    /// Returns the number of elements the DynamicMatrix can hold without
    /// reallocating
    pub fn capacity(&self) -> (n: usize)
        ensures
            n >= self.elems().len(),
    {
        vec_capacity(&self.data)
    }

    /// Extracts a slice of the elements, in row-major order
    pub fn as_slice(&self) -> (s: &[T])
        ensures
            s@ == self.elems(),
    {
        self.data.as_slice()
    }

    /// Extracts a mutable slice of the elements, in row-major order
    pub fn as_mut_slice(&mut self) -> (s: &mut [T])
        ensures
            s@ == old(self).elems(),
            final(self).elems() == final(s)@,
            final(self).ncols() == old(self).ncols(),
    {
        self.data.as_mut_slice()
    }

    /// Returns a tuple containing the number of rows as the first element and number of columns as the second element
    pub fn shape(&self) -> (s: (usize, usize))
        requires
            self.ncols() > 0,
        ensures
            s.0 == self.nrows(),
            s.1 == self.ncols(),
    {
        (self.rows(), self.cols())
    }

    /// Returns a `Result` containing a shared reference to the value at the given index.
    ///
    /// Indexing outside bounds returns an `IndexingError` that records the
    /// index and the shape of the matrix.
    pub fn get(&self, index: (usize, usize)) -> (res: Result<&T, IndexingError>)
        requires
            self.wf(),
            self.ncols() > 0,
        ensures
            res is Ok <==> index.0 < self.nrows() && index.1 < self.ncols(),
            res matches Ok(v) ==> *v == self.at(index.0 as int, index.1 as int),
            res is Err ==> res == Err::<&T, IndexingError>(
                IndexingError { row: index.0, col: index.1, nrows: self.nrows() as usize, ncols: self.ncols() as usize },
            ),
    {
        let (row, col) = index;
        let len = self.data.len();
        if row < self.rows() && col < self.cols() {
            proof {
                assert(len == self.nrows() * self.ncols());
                lemma_cell_offset(row as int, col as int, self.nrows() as int, self.cols as int);
            }
            Ok(&self.data[row * self.cols + col])
        } else {
            Err(IndexingError::new(index, self.shape()))
        }
    }

    /// Returns a `Result` containing an exclusive reference to the value at the given index.
    ///
    /// Indexing outside bounds returns an `IndexingError` that records the
    /// index and the shape of the matrix.
    pub fn get_mut(&mut self, index: (usize, usize)) -> (res: Result<&mut T, IndexingError>)
        requires
            old(self).wf(),
            old(self).ncols() > 0,
        ensures
            res is Ok <==> index.0 < old(self).nrows() && index.1 < old(self).ncols(),
            res matches Ok(v) ==> *v == old(self).at(index.0 as int, index.1 as int)
                && final(self).ncols() == old(self).ncols()
                && final(self).elems() == old(self).elems().update(
                    index.0 * old(self).ncols() + index.1,
                    *final(v),
                ),
            res is Err ==> *final(self) == *old(self) && res == Err::<&mut T, IndexingError>(
                IndexingError { row: index.0, col: index.1, nrows: old(self).nrows() as usize, ncols: old(self).ncols() as usize },
            ),
    {
        let (row, col) = index;
        let cols = self.cols();
        let len = self.data.len();
        if row < self.rows() && col < cols {
            proof {
                assert(len == self.nrows() * self.ncols());
                lemma_cell_offset(row as int, col as int, self.nrows() as int, cols as int);
            }
            Ok(&mut self.data[row * cols + col])
        } else {
            Err(IndexingError::new(index, self.shape()))
        }
    }
}

impl<T> core::ops::Index<(usize, usize)> for DynamicMatrix<T> {
    type Output = T;

    /// Returns a shared reference to the value at the given index, which must
    /// lie inside the matrix
    fn index(&self, index: (usize, usize)) -> (v: &T)
        ensures
            *v == self.at(index.0 as int, index.1 as int),
    {
        self.get(index).unwrap()
    }
}

impl<T> vstd::std_specs::core::IndexSpecImpl<(usize, usize)> for DynamicMatrix<T> {
    open spec fn index_req(&self, index: &(usize, usize)) -> bool {
        &&& self.wf()
        &&& self.ncols() > 0
        &&& index.0 < self.nrows()
        &&& index.1 < self.ncols()
    }
}

/// Relies on `Vec::capacity`: the number of elements the vector can hold
/// without reallocating, so never fewer than it holds.
#[verifier::external_body]
fn vec_capacity<T>(v: &Vec<T>) -> (n: usize)
    ensures
        n >= v@.len(),
{
    v.capacity()
}

/// Relies on `Vec::into_boxed_slice`: the boxed slice holds the vector's
/// elements, in order.
#[verifier::external_body]
fn vec_into_boxed_slice<T>(v: Vec<T>) -> (b: Box<[T]>)
    ensures
        b@ == v@,
{
    v.into_boxed_slice()
}

/// A buffer that splits into whole rows meets the shape invariant.
proof fn lemma_whole_rows_fit(len: int, cols: int)
    requires
        0 <= len,
        0 <= cols,
        cols == 0 ==> len == 0,
        cols > 0 ==> len % cols == 0,
    ensures
        cols > 0 ==> len == (len / cols) * cols,
{
    if cols > 0 {
        vstd::arithmetic::div_mod::lemma_fundamental_div_mod(len, cols);
    }
}

/// A buffer of `rows` whole rows of `cols` elements holds `rows` rows.
proof fn lemma_whole_rows(rows: int, cols: int)
    requires
        0 <= rows,
        0 < cols,
    ensures
        (rows * cols) / cols == rows,
{
    vstd::arithmetic::div_mod::lemma_fundamental_div_mod_converse(rows * cols, cols, rows, 0);
}

/// The cell at row `r` and column `c` of a `rows` by `cols` matrix lies
/// inside its buffer.
proof fn lemma_cell_offset(r: int, c: int, rows: int, cols: int)
    requires
        0 <= r < rows,
        0 <= c < cols,
    ensures
        0 <= r * cols <= r * cols + c < rows * cols,
{
    assert(0 <= r * cols) by (nonlinear_arith)
        requires
            0 <= r,
            0 <= c < cols,
    ;
    assert(r * cols + cols <= rows * cols) by (nonlinear_arith)
        requires
            r + 1 <= rows,
            0 <= c < cols,
    ;
}

/// The offset at which the `i`-th element of a new column goes, while the
/// first `i` rows already have `cols + 1` elements, lies inside the buffer.
proof fn lemma_col_offset(i: int, rows: int, cols: int)
    requires
        0 <= i < rows,
        0 < cols,
    ensures
        0 <= cols * i <= cols + cols * i + i,
        cols + cols * i + i == i * (cols + 1) + cols,
        cols + cols * i + i <= rows * cols + i,
{
    assert(0 <= cols * i) by (nonlinear_arith)
        requires
            0 <= i,
            0 < cols,
    ;
    assert(cols + cols * i + i == i * (cols + 1) + cols) by (nonlinear_arith);
    assert(cols + cols * i <= rows * cols) by (nonlinear_arith)
        requires
            i + 1 <= rows,
            0 < cols,
    ;
}

/// Element `c` of a row `r <= i` lies before the insertion point of row `i`
/// (or is that point, for the new last column of row `i`).
proof fn lemma_row_before_insert(r: int, c: int, i: int, cols: int)
    requires
        0 <= r <= i,
        0 <= c <= cols,
        0 < cols,
    ensures
        0 <= r * (cols + 1) + c,
        r < i ==> r * (cols + 1) + c < i * (cols + 1) + cols,
        r == i ==> r * (cols + 1) + c == i * (cols + 1) + (r - i) * cols + c,
{
    assert(0 <= r * (cols + 1)) by (nonlinear_arith)
        requires
            0 <= r,
            0 < cols,
    ;
    if r < i {
        assert(r * (cols + 1) + cols + 1 <= i * (cols + 1)) by (nonlinear_arith)
            requires
                r + 1 <= i,
                0 < cols,
        ;
    }
}

/// Element `c` of a row `r > i` that has not yet grown lies one past where
/// it lay before the insertion into row `i`.
proof fn lemma_row_after_insert(r: int, c: int, i: int, rows: int, cols: int)
    requires
        0 <= i < r < rows,
        0 <= c < cols,
    ensures
        (i + 1) * (cols + 1) + (r - (i + 1)) * cols + c == i * (cols + 1) + (r - i) * cols + c + 1,
        i * (cols + 1) + cols < (i + 1) * (cols + 1) + (r - (i + 1)) * cols + c,
        0 <= i * (cols + 1) + (r - i) * cols + c < rows * cols + i,
{
    assert((i + 1) * (cols + 1) == i * (cols + 1) + cols + 1) by (nonlinear_arith);
    assert(0 <= (r - (i + 1)) * cols) by (nonlinear_arith)
        requires
            i + 1 <= r,
            0 <= c < cols,
    ;
    assert(i * (cols + 1) + (r - i) * cols + cols <= rows * cols + i) by (nonlinear_arith)
        requires
            r + 1 <= rows,
            0 <= c < cols,
    ;
    assert((i + 1) * (cols + 1) + (r - (i + 1)) * cols + c == i * (cols + 1) + (r - i) * cols + c
        + 1) by (nonlinear_arith);
    assert(0 <= (r - i) * cols) by (nonlinear_arith)
        requires
            i < r,
            0 <= c < cols,
    ;
    assert(0 <= i * (cols + 1)) by (nonlinear_arith)
        requires
            0 <= i,
            0 <= c < cols,
    ;
}

/// After every row has received one more element, the buffer holds as many
/// rows as before, each `cols + 1` long.
proof fn lemma_widened_rows(rows: int, cols: int)
    requires
        0 <= rows,
        0 < cols,
    ensures
        (rows * cols + rows) / (cols + 1) == rows,
        rows * cols + rows == rows * (cols + 1),
{
    assert(rows * cols + rows == rows * (cols + 1)) by (nonlinear_arith);
    vstd::arithmetic::div_mod::lemma_fundamental_div_mod_converse(
        rows * cols + rows,
        cols + 1,
        rows,
        0,
    );
}

/// A buffer with no elements holds no rows.
proof fn lemma_empty_rows(cols: int)
    requires
        cols >= 0,
    ensures
        cols > 0 ==> 0int / cols == 0,
{
    if cols > 0 {
        vstd::arithmetic::div_mod::lemma_basic_div(0, cols);
    }
}

/// Adding one whole row of `cols` elements to a buffer of whole rows adds
/// exactly one row.
proof fn lemma_add_row(len: int, cols: int)
    requires
        cols > 0,
        len >= 0,
        len == (len / cols) * cols,
    ensures
        (len + cols) / cols == len / cols + 1,
        len + cols == ((len + cols) / cols) * cols,
{
    vstd::arithmetic::div_mod::lemma_div_plus_one(len, cols);
    let q = len / cols;
    assert((q + 1) * cols == q * cols + cols) by (nonlinear_arith);
}

} // verus!
