//! Row-major grids: the long-form columns of a two-axis grid, the rows of a
//! flat grid, index checks and paired optional inputs.
//!
//! A grid over an outer axis of `n` points and an inner axis of `m` points
//! stores node `(i, j)` at position `i * m + j`: outer points outer, inner
//! points inner.
use crate::text::{decimal, push_decimal};
use vstd::arithmetic::div_mod::*;
use vstd::prelude::*;
use vstd::string::*;

verus! {

// ---------------------------------------------------------------------------
// Long-form columns
// ---------------------------------------------------------------------------

/// The long-form axis columns of an `outer × inner` grid: one entry per
/// node, outer points outer and inner points inner, so that node `k` lies at
/// outer point `k / m` and inner point `k % m` (with `m` inner points).
pub fn grid_axis_columns<A: Copy, B: Copy>(outer: &Vec<A>, inner: &Vec<B>) -> (r: (Vec<A>, Vec<B>))
    requires
        outer.len() * inner.len() <= usize::MAX,
    ensures
        r.0.len() == outer.len() * inner.len(),
        r.1.len() == outer.len() * inner.len(),
        forall|k: int|
            0 <= k < r.0.len() ==> #[trigger] r.0@[k] == outer@[k / inner.len() as int],
        forall|k: int|
            0 <= k < r.1.len() ==> #[trigger] r.1@[k] == inner@[k % inner.len() as int],
{
    let n = outer.len();
    let m = inner.len();
    let mut col_a: Vec<A> = Vec::new();
    let mut col_b: Vec<B> = Vec::new();
    let mut i: usize = 0;
    while i < n
        invariant
            i <= n == outer.len(),
            m == inner.len(),
            col_a.len() == i * m,
            col_b.len() == i * m,
            forall|k: int| 0 <= k < col_a.len() ==> #[trigger] col_a@[k] == outer@[k / m as int],
            forall|k: int| 0 <= k < col_b.len() ==> #[trigger] col_b@[k] == inner@[k % m as int],
        decreases n - i,
    {
        let a = outer[i];
        let mut j: usize = 0;
        while j < m
            invariant
                i < n == outer.len(),
                m == inner.len(),
                j <= m,
                a == outer@[i as int],
                col_a.len() == i * m + j,
                col_b.len() == i * m + j,
                forall|k: int|
                    0 <= k < col_a.len() ==> #[trigger] col_a@[k] == outer@[k / m as int],
                forall|k: int|
                    0 <= k < col_b.len() ==> #[trigger] col_b@[k] == inner@[k % m as int],
            decreases m - j,
        {
            proof {
                lemma_fundamental_div_mod_converse(i * m + j, m as int, i as int, j as int);
            }
            col_a.push(a);
            col_b.push(inner[j]);
            j = j + 1;
        }
        proof {
            assert(i * m + m == (i + 1) * m) by (nonlinear_arith);
        }
        i = i + 1;
    }
    (col_a, col_b)
}

// ---------------------------------------------------------------------------
// Rows of a flat grid
// ---------------------------------------------------------------------------

/// The row width actually used: `width`, or 1 when it is 0.
pub open spec fn row_width(width: usize) -> int {
    if width == 0 {
        1
    } else {
        width as int
    }
}

/// The number of rows of `len` values cut `w` at a time (the last row may
/// be shorter).
pub open spec fn row_count(len: int, w: int) -> int {
    (len + w - 1) / w
}

/// Row `r` of `flat` cut `w` values at a time.
pub open spec fn grid_row<T>(flat: Seq<T>, w: int, r: int) -> Seq<T> {
    let end = if (r + 1) * w <= flat.len() {
        (r + 1) * w
    } else {
        flat.len() as int
    };
    flat.subrange(r * w, end)
}

/// The sequences that a vector of vectors holds.
pub open spec fn row_views<T>(rows: Seq<Vec<T>>) -> Seq<Seq<T>> {
    rows.map_values(|v: Vec<T>| v@)
}

/// A copy of `flat[start..end]`.
fn copy_range<T: Copy>(flat: &Vec<T>, start: usize, end: usize) -> (r: Vec<T>)
    requires
        start <= end <= flat.len(),
    ensures
        r@ == flat@.subrange(start as int, end as int),
{
    let mut out: Vec<T> = Vec::new();
    let mut k: usize = start;
    while k < end
        invariant
            start <= k <= end <= flat.len(),
            out@ =~= flat@.subrange(start as int, k as int),
        decreases end - k,
    {
        out.push(flat[k]);
        k = k + 1;
    }
    out
}

/// The rows of a flat row-major grid with `width` values per row (a width
/// of 0 counts as 1), as `slice::chunks` cuts them: every row full but the
/// last, which holds what is left.
pub fn grid_rows<T: Copy>(flat: &Vec<T>, width: usize) -> (r: Vec<Vec<T>>)
    ensures
        r.len() == row_count(flat.len() as int, row_width(width)),
        forall|k: int|
            0 <= k < r.len() ==> (#[trigger] r@[k])@ == grid_row(flat@, row_width(width), k),
        row_views(r@).flatten() == flat@,
        forall|k: int|
            0 <= k < r.len() - 1 ==> (#[trigger] r@[k]).len() == (if width == 0 {
                1
            } else {
                width as int
            }),
        r.len() > 0 ==> 0 < r@[r.len() - 1].len() <= (if width == 0 {
            1
        } else {
            width as int
        }),
        flat.len() == 0 <==> r.len() == 0,
{
    let w: usize = if width == 0 {
        1
    } else {
        width
    };
    let len = flat.len();
    let mut rows: Vec<Vec<T>> = Vec::new();
    let mut start: usize = 0;
    assert(row_views(rows@) =~= Seq::<Seq<T>>::empty());
    assert(flat@.subrange(0, 0) =~= Seq::<T>::empty());
    assert(rows.len() * w == 0) by (nonlinear_arith)
        requires
            rows.len() == 0,
    ;
    while start < len
        invariant
            w == row_width(width),
            len == flat.len(),
            start <= len,
            start == rows.len() * w,
            forall|k: int|
                0 <= k < rows.len() ==> (#[trigger] rows@[k])@ == grid_row(flat@, w as int, k),
            row_views(rows@).flatten() == flat@.subrange(0, start as int),
            forall|k: int| 0 <= k < rows.len() ==> (#[trigger] rows@[k]).len() == w,
        decreases len - start,
    {
        let end: usize = if len - start > w {
            start + w
        } else {
            len
        };
        let row = copy_range(flat, start, end);
        let ghost before = row_views(rows@);
        let ghost k = rows.len() as int;
        proof {
            assert((k + 1) * w == k * w + w) by (nonlinear_arith);
            assert(row@ == grid_row(flat@, w as int, k));
        }
        rows.push(row);
        proof {
            assert(row_views(rows@) =~= before.push(row@));
            before.lemma_flatten_push(row@);
            assert(flat@.subrange(0, start as int) + flat@.subrange(start as int, end as int)
                =~= flat@.subrange(0, end as int));
        }
        if end == len {
            proof {
                assert(rows.len() * w >= len) by (nonlinear_arith)
                    requires
                        rows.len() == k + 1,
                        len <= k * w + w,
                        (k + 1) * w == k * w + w,
                ;
                assert(flat@.subrange(0, len as int) =~= flat@);
                assert((rows.len() - 1) * w == k * w);
                assert(rows.len() == row_count(len as int, w as int)) by {
                    lemma_row_count(len as int, w as int, rows.len() as int);
                }
            }
            return rows;
        }
        start = end;
    }
    proof {
        assert(flat@.subrange(0, len as int) =~= flat@);
        assert((rows.len() - 1) * w == rows.len() * w - w) by (nonlinear_arith);
        assert(rows.len() == row_count(len as int, w as int)) by {
            lemma_row_count(len as int, w as int, rows.len() as int);
        }
    }
    rows
}

/// `c` rows of width `w` cover `len` values exactly when the last row
/// starts before `len` (or there are no values and no rows).
proof fn lemma_row_count(len: int, w: int, c: int)
    requires
        w >= 1,
        c >= 0,
        len >= 0,
        c * w >= len,
        c == 0 || (c - 1) * w < len,
    ensures
        c == row_count(len, w),
{
    if c == 0 {
        assert(len == 0);
        lemma_fundamental_div_mod_converse(w - 1, w, 0, w - 1);
    } else {
        let r = len + w - 1 - (c * w);
        assert((c - 1) * w == c * w - w) by (nonlinear_arith);
        assert(0 <= r < w);
        lemma_fundamental_div_mod_converse(len + w - 1, w, c, r);
    }
}

// ---------------------------------------------------------------------------
// Index checks
// ---------------------------------------------------------------------------

/// A grid index outside the grid's shape.
#[derive(Debug, Clone, Copy, PartialEq, Eq)]
pub struct GridIndexOutOfRange {
    /// The outer (expiry) index asked for.
    pub outer: usize,
    /// The inner (tenor) index asked for.
    pub inner: usize,
    /// Number of outer points of the grid.
    pub n_outer: usize,
    /// Number of inner points of the grid.
    pub n_inner: usize,
}

/// Check a node index `(outer, inner)` against a grid of shape
/// `(n_outer, n_inner)`; the error carries the index and the shape.
pub fn check_grid_index(outer: usize, inner: usize, n_outer: usize, n_inner: usize) -> (r: Result<
    (),
    GridIndexOutOfRange,
>)
    ensures
        r is Ok <==> outer < n_outer && inner < n_inner,
        r matches Err(e) ==> e == (GridIndexOutOfRange { outer, inner, n_outer, n_inner }),
{
    if outer >= n_outer || inner >= n_inner {
        Err(GridIndexOutOfRange { outer, inner, n_outer, n_inner })
    } else {
        Ok(())
    }
}

// ---------------------------------------------------------------------------
// Paired optional inputs
// ---------------------------------------------------------------------------

/// Only one of two inputs that go together was given.
#[derive(Debug, Clone, Copy, PartialEq, Eq)]
pub struct UnpairedInputs;

/// Pair two optional inputs that must be given together (such as the
/// 10-delta risk reversals and butterflies of an FX delta surface): both
/// given is a pair, both omitted is none, one alone is an error.
pub fn pair_optional<A, B>(first: Option<A>, second: Option<B>) -> (r: Result<
    Option<(A, B)>,
    UnpairedInputs,
>)
    ensures
        match (first, second) {
            (Some(a), Some(b)) => r == Ok::<Option<(A, B)>, UnpairedInputs>(Some((a, b))),
            (None, None) => r == Ok::<Option<(A, B)>, UnpairedInputs>(None),
            _ => r is Err,
        },
{
    match (first, second) {
        (Some(a), Some(b)) => Ok(Some((a, b))),
        (None, None) => Ok(None),
        _ => Err(UnpairedInputs),
    }
}

impl GridIndexOutOfRange {
    /// The message the error is reported with.
    pub fn message(&self) -> (r: String)
        ensures
            r@ == "grid index ("@ + decimal(self.outer as nat) + ", "@ + decimal(
                self.inner as nat,
            ) + ") outside shape ("@ + decimal(self.n_outer as nat) + ", "@ + decimal(
                self.n_inner as nat,
            ) + ")"@,
    {
        let mut out = String::from_str("grid index (");
        push_decimal(&mut out, self.outer);
        out.append(", ");
        push_decimal(&mut out, self.inner);
        out.append(") outside shape (");
        push_decimal(&mut out, self.n_outer);
        out.append(", ");
        push_decimal(&mut out, self.n_inner);
        out.append(")");
        out
    }
}

impl UnpairedInputs {
    /// The message the error is reported with.
    pub fn message(&self) -> (r: String)
        ensures
            r@ == "rr_10d and bf_10d must both be provided or both omitted"@,
    {
        String::from_str("rr_10d and bf_10d must both be provided or both omitted")
    }
}

} // verus!
