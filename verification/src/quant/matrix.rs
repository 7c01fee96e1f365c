//! Matrices given as nested lists, flattened row-major for the linear
//! algebra routines, with the shape checks those routines make.
use crate::quant::grid::row_views;
use crate::text::{decimal, push_decimal};
use vstd::prelude::*;
use vstd::string::*;

verus! {

/// Why a matrix argument has the wrong shape.
#[derive(Debug, Clone, Copy, PartialEq, Eq)]
pub enum MatrixShapeError {
    /// Row `row` has `len` entries where the first row has `expected`.
    Ragged { row: usize, len: usize, expected: usize },
    /// A square matrix was needed, a `rows × cols` one was given.
    NotSquare { rows: usize, cols: usize },
    /// A right-hand side of length `len` was given for an `n × n` factor.
    RhsLength { len: usize, n: usize },
}

/// The number of columns of a nested-list matrix: the length of its first
/// row, 0 when it has no rows.
pub open spec fn first_row_len<T>(rows: Seq<Vec<T>>) -> int {
    if rows.len() == 0 {
        0
    } else {
        rows[0].len() as int
    }
}

/// Every row of the matrix has `cols` entries.
pub open spec fn rows_have_len<T>(rows: Seq<Vec<T>>, cols: int) -> bool {
    forall|k: int| 0 <= k < rows.len() ==> (#[trigger] rows[k]).len() == cols
}

/// The rows of a matrix all have `cols` entries exactly when no row, the
/// last included, has another count.
pub proof fn lemma_rows_have_len<T>(rows: Seq<Vec<T>>, cols: int)
    ensures
        rows_have_len(rows, cols) <==> forall|k: int|
            0 <= k < rows.len() ==> (#[trigger] rows[k]).len() == cols,
        rows.len() > 0 && rows_have_len(rows, cols) ==> rows[rows.len() - 1].len() == cols,
{
}

/// Flattening `rows` of `c` entries each puts entry `j` of row `i` at
/// position `i * c + j`, and gives `rows.len() * c` entries in all.
pub proof fn lemma_flatten_uniform<T>(rows: Seq<Seq<T>>, c: int)
    requires
        c >= 0,
        forall|k: int| 0 <= k < rows.len() ==> (#[trigger] rows[k]).len() == c,
    ensures
        rows.flatten().len() == rows.len() * c,
        forall|i: int, j: int|
            0 <= i < rows.len() && 0 <= j < c ==> rows.flatten()[i * c + j] == #[trigger] rows[i][j],
    decreases rows.len(),
{
    if rows.len() == 0 {
        assert(rows.len() * c == 0) by (nonlinear_arith)
            requires
                rows.len() == 0,
        ;
    } else {
        let init = rows.drop_last();
        let last = rows.last();
        assert forall|k: int| 0 <= k < init.len() implies (#[trigger] init[k]).len() == c by {
            assert(init[k] == rows[k]);
        }
        lemma_flatten_uniform(init, c);
        assert(init.push(last) =~= rows);
        init.lemma_flatten_push(last);
        let n = init.len();
        assert(n * c + c == rows.len() * c) by (nonlinear_arith)
            requires
                rows.len() == n + 1,
        ;
        assert forall|i: int, j: int| 0 <= i < rows.len() && 0 <= j < c implies rows.flatten()[i
            * c + j] == #[trigger] rows[i][j] by {
            if i < n {
                assert(i * c + j < n * c) by (nonlinear_arith)
                    requires
                        0 <= i < n,
                        0 <= j < c,
                ;
                assert(init[i] == rows[i]);
                assert(init.flatten()[i * c + j] == init[i][j]);
            } else {
                assert(i * c == n * c);
                assert(rows[i] == last);
            }
        }
    }
}

/// Flatten a nested-list matrix row-major, with its row and column counts.
///
/// The column count is the first row's length (0 for no rows); the first
/// row of another length makes the matrix ragged.
pub fn extract_matrix<T: Copy>(rows: &Vec<Vec<T>>) -> (r: Result<
    (Vec<T>, usize, usize),
    MatrixShapeError,
>)
    ensures
        match r {
            Ok((flat, nrows, ncols)) => {
                &&& rows_have_len(rows@, first_row_len(rows@))
                &&& nrows == rows.len()
                &&& ncols == first_row_len(rows@)
                &&& flat@ == row_views(rows@).flatten()
            },
            Err(MatrixShapeError::Ragged { row, len, expected }) => {
                &&& expected == first_row_len(rows@)
                &&& row < rows.len()
                &&& len == rows@[row as int].len()
                &&& len != expected
                &&& rows_have_len(rows@.take(row as int), expected as int)
            },
            Err(_) => false,
        },
        r matches Ok((flat, nrows, ncols)) ==> {
            &&& forall|k: int| 0 <= k < rows.len() ==> (#[trigger] rows@[k]).len() == ncols
            &&& flat.len() == nrows * ncols
            &&& forall|i: int, j: int|
                0 <= i < nrows && 0 <= j < ncols ==> flat@[i * ncols + j] == #[trigger] rows@[i]@[j]
        },
        r matches Err(MatrixShapeError::Ragged { row, len, expected }) ==> forall|k: int|
            0 <= k < row ==> (#[trigger] rows@[k]).len() == expected,
{
    let nrows = rows.len();
    let ncols: usize = if nrows == 0 {
        0
    } else {
        rows[0].len()
    };
    let mut i: usize = 0;
    while i < nrows
        invariant
            i <= nrows == rows.len(),
            ncols == first_row_len(rows@),
            rows_have_len(rows@.take(i as int), ncols as int),
            forall|k: int| 0 <= k < i ==> (#[trigger] rows@[k]).len() == ncols,
        decreases nrows - i,
    {
        let len = rows[i].len();
        if len != ncols {
            return Err(MatrixShapeError::Ragged { row: i, len, expected: ncols });
        }
        assert(rows_have_len(rows@.take(i as int + 1), ncols as int)) by {
            assert forall|k: int| 0 <= k < i + 1 implies (#[trigger] rows@.take(i as int + 1)[k]).len()
                == ncols by {
                if k < i {
                    assert(rows@.take(i as int + 1)[k] == rows@.take(i as int)[k]);
                }
            }
        }
        i = i + 1;
    }
    assert(rows@.take(nrows as int) =~= rows@);
    let mut flat: Vec<T> = Vec::new();
    let mut r: usize = 0;
    assert(row_views(rows@.take(0)) =~= Seq::<Seq<T>>::empty());
    while r < nrows
        invariant
            r <= nrows == rows.len(),
            flat@ == row_views(rows@.take(r as int)).flatten(),
        decreases nrows - r,
    {
        let row = &rows[r];
        let ghost base = flat@;
        let mut c: usize = 0;
        while c < row.len()
            invariant
                c <= row.len(),
                flat@ =~= base + row@.take(c as int),
            decreases row.len() - c,
        {
            flat.push(row[c]);
            c = c + 1;
        }
        proof {
            assert(row@.take(row.len() as int) =~= row@);
            assert(row_views(rows@.take(r as int + 1)) =~= row_views(rows@.take(r as int)).push(
                row@,
            ));
            row_views(rows@.take(r as int)).lemma_flatten_push(row@);
        }
        r = r + 1;
    }
    assert(row_views(rows@.take(nrows as int)) =~= row_views(rows@));
    proof {
        let views = row_views(rows@);
        assert forall|k: int| 0 <= k < views.len() implies (#[trigger] views[k]).len() == ncols by {
            assert(rows@.take(nrows as int)[k] == rows@[k]);
        }
        lemma_flatten_uniform(views, ncols as int);
        assert forall|i: int, j: int| 0 <= i < nrows && 0 <= j < ncols implies flat@[i * ncols
            + j] == #[trigger] rows@[i]@[j] by {
            assert(views[i][j] == rows@[i]@[j]);
        }
        assert forall|k: int| 0 <= k < rows.len() implies (#[trigger] rows@[k]).len() == ncols by {
            assert(rows@.take(nrows as int)[k] == rows@[k]);
        }
    }
    Ok((flat, nrows, ncols))
}

/// Require a square shape: the order `n` of an `n × n` matrix, or
/// `NotSquare` with the shape.
pub fn require_square(rows: usize, cols: usize) -> (r: Result<usize, MatrixShapeError>)
    ensures
        r == (if rows == cols {
            Ok::<usize, MatrixShapeError>(rows)
        } else {
            Err::<usize, MatrixShapeError>(MatrixShapeError::NotSquare { rows, cols })
        }),
{
    if rows != cols {
        Err(MatrixShapeError::NotSquare { rows, cols })
    } else {
        Ok(rows)
    }
}

/// Flatten a nested-list matrix that must be square, with its order.
pub fn extract_square_matrix<T: Copy>(rows: &Vec<Vec<T>>) -> (r: Result<
    (Vec<T>, usize),
    MatrixShapeError,
>)
    ensures
        match r {
            Ok((flat, n)) => {
                &&& rows_have_len(rows@, first_row_len(rows@))
                &&& n == rows.len()
                &&& n == first_row_len(rows@)
                &&& flat@ == row_views(rows@).flatten()
            },
            Err(MatrixShapeError::Ragged { row, len, expected }) => {
                &&& expected == first_row_len(rows@)
                &&& row < rows.len()
                &&& len == rows@[row as int].len()
                &&& len != expected
                &&& rows_have_len(rows@.take(row as int), expected as int)
            },
            Err(MatrixShapeError::NotSquare { rows: nr, cols: nc }) => {
                &&& rows_have_len(rows@, first_row_len(rows@))
                &&& nr == rows.len()
                &&& nc == first_row_len(rows@)
                &&& nr != nc
            },
            Err(MatrixShapeError::RhsLength { .. }) => false,
        },
        r matches Ok((flat, n)) ==> {
            &&& rows.len() == n
            &&& forall|k: int| 0 <= k < rows.len() ==> (#[trigger] rows@[k]).len() == n
            &&& flat.len() == n * n
            &&& forall|i: int, j: int|
                0 <= i < n && 0 <= j < n ==> flat@[i * n + j] == #[trigger] rows@[i]@[j]
        },
        r matches Err(MatrixShapeError::Ragged { row, len, expected }) ==> forall|k: int|
            0 <= k < row ==> (#[trigger] rows@[k]).len() == expected,
{
    let (flat, nrows, ncols) = extract_matrix(rows)?;
    let n = require_square(nrows, ncols)?;
    Ok((flat, n))
}

/// Check that a right-hand side of length `len` fits an `n × n` factor.
pub fn check_rhs_length(len: usize, n: usize) -> (r: Result<(), MatrixShapeError>)
    ensures
        r == (if len == n {
            Ok::<(), MatrixShapeError>(())
        } else {
            Err::<(), MatrixShapeError>(MatrixShapeError::RhsLength { len, n })
        }),
{
    if len != n {
        Err(MatrixShapeError::RhsLength { len, n })
    } else {
        Ok(())
    }
}

impl MatrixShapeError {
    /// The message the error is reported with.
    pub fn message(&self) -> (r: String)
        ensures
            r@ == match *self {
                MatrixShapeError::Ragged { row, len, expected } => "Row "@ + decimal(row as nat)
                    + " has length "@ + decimal(len as nat) + " but expected "@ + decimal(
                    expected as nat,
                ) + " (ragged matrix)"@,
                MatrixShapeError::NotSquare { rows, cols } => "Matrix must be square, got "@
                    + decimal(rows as nat) + "x"@ + decimal(cols as nat)
                    + "; expected a square nested list or 2-D array"@,
                MatrixShapeError::RhsLength { len, n } => "Right-hand side has length "@ + decimal(
                    len as nat,
                ) + " but Cholesky factor is "@ + decimal(n as nat) + "x"@ + decimal(n as nat),
            },
    {
        match *self {
            MatrixShapeError::Ragged { row, len, expected } => {
                let mut out = String::from_str("Row ");
                push_decimal(&mut out, row);
                out.append(" has length ");
                push_decimal(&mut out, len);
                out.append(" but expected ");
                push_decimal(&mut out, expected);
                out.append(" (ragged matrix)");
                out
            },
            MatrixShapeError::NotSquare { rows, cols } => {
                let mut out = String::from_str("Matrix must be square, got ");
                push_decimal(&mut out, rows);
                out.append("x");
                push_decimal(&mut out, cols);
                out.append("; expected a square nested list or 2-D array");
                out
            },
            MatrixShapeError::RhsLength { len, n } => {
                let mut out = String::from_str("Right-hand side has length ");
                push_decimal(&mut out, len);
                out.append(" but Cholesky factor is ");
                push_decimal(&mut out, n);
                out.append("x");
                push_decimal(&mut out, n);
                out
            },
        }
    }
}

} // verus!
