use vstd::prelude::*;

use crate::errors::{ConstructError, QueryError};
use crate::laws::{lemma_split_horizontal, lemma_split_vertical};
use crate::model::{
    in_i64, lemma_mismatch_found, lemma_rect_single_row, lemma_row_prefixes_fit, matrix_view,
    mismatch_index, num_cols, query_result, rect_sum, rects_fit, row_prefix, row_seg,
    rows_rectangular,
};

verus! {

/// Range-sum structure that keeps a summed-area table: one cumulative value
/// per cell, the sum of every original cell up and to the left of it,
/// inclusive. A query combines four table lookups by inclusion-exclusion, so
/// it costs constant time whatever the rectangle's size.
#[derive(Debug)]
pub struct Matrix {
    ncols: usize,
    elems: Vec<Vec<i64>>,
    allsum: Vec<Vec<i64>>,
}

impl View for Matrix {
    type V = Seq<Seq<i64>>;

    closed spec fn view(&self) -> Seq<Seq<i64>> {
        matrix_view(self.elems@)
    }
}

/// One table row matches the matrix: position `c` of table row `j` holds the
/// sum of the rectangle from the matrix's top-left corner down to `(c, j)`.
spec fn cum_row_ok(rows: Seq<Seq<i64>>, j: int, table_row: Seq<i64>) -> bool {
    &&& table_row.len() == rows[j].len()
    &&& forall|c: int|
        0 <= c < table_row.len() ==> (#[trigger] table_row[c]) as int == rect_sum(rows, 0, 0, c, j)
}

/// The cumulative entry directly above the row being built: the last row of
/// the table built so far, or zero when no row has been built yet.
pub open spec fn prev_entry(table: Seq<Vec<i64>>, c: int) -> int {
    if table.len() == 0 {
        0
    } else {
        table[table.len() - 1]@[c] as int
    }
}

impl Matrix {
    /// The structure is well formed: the stored column count and the
    /// summed-area table agree with the original rows, and every rectangle
    /// sum fits in an `i64`.
    pub closed spec fn wf(&self) -> bool {
        &&& self.ncols as int == num_cols(self@)
        &&& rows_rectangular(self@)
        &&& rects_fit(self@)
        &&& self.allsum@.len() == self.elems@.len()
        &&& forall|j: int|
            0 <= j < self.elems@.len() ==> cum_row_ok(self@, j, (#[trigger] self.allsum@[j])@)
    }

    /// Builds the structure from the given rows. Every row must have the
    /// length established by the first row; the first offending row is
    /// reported in a `ShapeMismatch` error and no matrix is produced. An
    /// empty input builds a matrix with no columns, on which every query
    /// fails validation.
    pub fn new(rows: Vec<Vec<i64>>) -> (r: Result<Matrix, ConstructError>)
        requires
            rows_rectangular(matrix_view(rows@)) ==> rects_fit(matrix_view(rows@)),
        ensures
            rows_rectangular(matrix_view(rows@)) ==> (r matches Ok(m) && m@ == matrix_view(rows@)
                && m.wf()),
            !rows_rectangular(matrix_view(rows@)) ==> r == Err::<Matrix, ConstructError>(
                (ConstructError::ShapeMismatch {
                    expected: num_cols(matrix_view(rows@)) as usize,
                    actual: matrix_view(rows@)[mismatch_index(matrix_view(rows@))].len() as usize,
                }),
            ),
    {
        let ghost v = matrix_view(rows@);
        let nrows: usize = rows.len();
        let mut ncols: usize = 0;
        if nrows > 0 {
            ncols = rows[0].len();
        }
        let mut j: usize = 0;
        while j < nrows
            invariant
                j <= nrows,
                nrows == rows@.len(),
                v == matrix_view(rows@),
                ncols as int == num_cols(v),
                forall|i: int| 0 <= i < j ==> (#[trigger] v[i]).len() == ncols,
            decreases nrows - j,
        {
            if rows[j].len() != ncols {
                proof {
                    lemma_mismatch_found(v, j as int);
                }
                return Err(ConstructError::ShapeMismatch { expected: ncols, actual: rows[j].len() });
            }
            j += 1;
        }
        assert(rows_rectangular(v));
        let mut allsum: Vec<Vec<i64>> = Vec::new();
        let mut j: usize = 0;
        while j < nrows
            invariant
                j <= nrows,
                nrows == rows@.len(),
                v == matrix_view(rows@),
                ncols as int == num_cols(v),
                rows_rectangular(v),
                rects_fit(v),
                allsum@.len() == j,
                forall|jj: int| 0 <= jj < j ==> cum_row_ok(v, jj, (#[trigger] allsum@[jj])@),
            decreases nrows - j,
        {
            let ghost jj = j as int;
            proof {
                lemma_row_prefixes_fit(v, jj);
                assert(v[jj] == rows@[jj]@);
                assert(v[jj].len() == num_cols(v));
                if j > 0 {
                    assert(cum_row_ok(v, jj - 1, allsum@[jj - 1]@));
                    assert(v[jj - 1].len() == num_cols(v));
                }
                assert forall|c: int| 0 <= c < v[jj].len() implies row_prefix(v[jj], c + 1)
                    + (#[trigger] prev_entry(allsum@, c)) == rect_sum(v, 0, 0, c, jj) && in_i64(
                    rect_sum(v, 0, 0, c, jj),
                ) by {
                    lemma_rect_single_row(v, 0, c, jj);
                    assert(row_prefix(v[jj], 0) == 0);
                    if jj == 0 {
                        assert(rect_sum(v, 0, 0, c, -1) == 0);
                    } else {
                        assert(prev_entry(allsum@, c) == rect_sum(v, 0, 0, c, jj - 1));
                    }
                    assert(rect_sum(v, 0, 0, c, jj) == rect_sum(v, 0, 0, c, jj - 1) + row_seg(
                        v[jj],
                        0,
                        c,
                    ));
                    assert(in_i64(rect_sum(v, 0, 0, c, jj)));
                }
            }
            let a = precomp_allsum(&rows[j], &allsum);
            allsum.push(a);
            j += 1;
        }
        Ok(Matrix { ncols, elems: rows, allsum })
    }

    /// Sum of the cells in the inclusive rectangle from `(startx, starty)` to
    /// `(endx, endy)`, computed from four summed-area-table lookups. The
    /// caller is responsible for ordering the bounds; `endx` is validated
    /// against the column count and `endy` against the row count, each
    /// failure reported as an `OutOfRange` error.
    pub fn sum(&self, startx: usize, starty: usize, endx: usize, endy: usize) -> (r: Result<
        i64,
        QueryError,
    >)
        requires
            self.wf(),
            startx <= endx,
            starty <= endy,
        ensures
            r == query_result(self@, startx, starty, endx, endy),
    {
        if endx >= self.ncols {
            return Err(QueryError::OutOfRange { bound: endx, limit: self.ncols });
        }
        let nrows: usize = self.elems.len();
        if endy >= nrows {
            return Err(QueryError::OutOfRange { bound: endy, limit: nrows });
        }
        let ghost m = self@;
        proof {
            assert(m[endy as int].len() == num_cols(m));
            assert(cum_row_ok(m, endy as int, self.allsum@[endy as int]@));
            if starty > 0 {
                assert(m[starty as int - 1].len() == num_cols(m));
                assert(cum_row_ok(m, starty as int - 1, self.allsum@[starty as int - 1]@));
            }
        }
        let mut total: i64 = self.allsum[endy][endx];
        if startx > 0 {
            let left: i64 = self.allsum[endy][startx - 1];
            proof {
                lemma_split_vertical(m, 0, startx as int - 1, endx as int, 0, endy as int);
                assert(in_i64(rect_sum(m, startx as int, 0, endx as int, endy as int)));
            }
            total = total - left;
        }
        assert(total as int == rect_sum(m, startx as int, 0, endx as int, endy as int));
        if starty > 0 {
            let mut upper: i64 = self.allsum[starty - 1][endx];
            if startx > 0 {
                let upper_left: i64 = self.allsum[starty - 1][startx - 1];
                proof {
                    lemma_split_vertical(m, 0, startx as int - 1, endx as int, 0, starty as int - 1);
                    assert(in_i64(rect_sum(m, startx as int, 0, endx as int, starty as int - 1)));
                }
                upper = upper - upper_left;
            }
            assert(upper as int == rect_sum(m, startx as int, 0, endx as int, starty as int - 1));
            proof {
                lemma_split_horizontal(m, startx as int, endx as int, 0, starty as int - 1, endy as int);
                assert(in_i64(rect_sum(m, startx as int, starty as int, endx as int, endy as int)));
            }
            total = total - upper;
        }
        assert(total as int == rect_sum(m, startx as int, starty as int, endx as int, endy as int));
        Ok(total)
    }
}

/// Computes one row of the summed-area table from one original row and the
/// table rows built so far: position `c` of the result holds the row's own
/// running sum up to `c` plus the cumulative entry directly above, so that it
/// equals the sum of the whole rectangle up and to the left of `(c, j)`.
pub fn precomp_allsum(row: &Vec<i64>, allsum: &Vec<Vec<i64>>) -> (out: Vec<i64>)
    requires
        allsum@.len() > 0 ==> allsum@[allsum@.len() - 1]@.len() >= row@.len(),
        forall|n: int| 0 <= n <= row@.len() ==> in_i64(#[trigger] row_prefix(row@, n)),
        forall|c: int|
            0 <= c < row@.len() ==> in_i64(row_prefix(row@, c + 1) + #[trigger] prev_entry(allsum@, c)),
    ensures
        out@.len() == row@.len(),
        forall|c: int|
            0 <= c < row@.len() ==> (#[trigger] out@[c]) as int == row_prefix(row@, c + 1)
                + prev_entry(allsum@, c),
{
    let ncols: usize = row.len();
    let n_prev: usize = allsum.len();
    let mut out: Vec<i64> = Vec::new();
    let mut s: i64 = 0;
    let mut ci: usize = 0;
    while ci < ncols
        invariant
            ci <= ncols,
            ncols == row@.len(),
            n_prev == allsum@.len(),
            allsum@.len() > 0 ==> allsum@[allsum@.len() - 1]@.len() >= row@.len(),
            out@.len() == ci,
            s as int == row_prefix(row@, ci as int),
            forall|n: int| 0 <= n <= row@.len() ==> in_i64(#[trigger] row_prefix(row@, n)),
            forall|c: int|
                0 <= c < row@.len() ==> in_i64(
                    row_prefix(row@, c + 1) + #[trigger] prev_entry(allsum@, c),
                ),
            forall|c: int|
                0 <= c < ci ==> (#[trigger] out@[c]) as int == row_prefix(row@, c + 1)
                    + prev_entry(allsum@, c),
        decreases ncols - ci,
    {
        assert(row_prefix(row@, ci as int + 1) == row_prefix(row@, ci as int)
            + row@[ci as int] as int);
        s = s + row[ci];
        let mut base: i64 = 0;
        if n_prev > 0 {
            base = allsum[n_prev - 1][ci];
        }
        assert(base as int == prev_entry(allsum@, ci as int));
        out.push(s + base);
        ci += 1;
    }
    out
}

} // verus!
