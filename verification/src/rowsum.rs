use vstd::prelude::*;

use crate::errors::{ConstructError, QueryError};
use crate::model::{
    in_i64, lemma_mismatch_found, lemma_rect_single_row, lemma_row_prefixes_fit, matrix_view,
    mismatch_index, num_cols, query_result, rect_sum, rects_fit, row_prefix, row_seg,
    rows_rectangular,
};

verus! {

/// Range-sum structure that keeps one running prefix-sum array per row.
/// A query walks the rows of the rectangle and adds one prefix difference per
/// row, so it costs time linear in the rectangle's height.
#[derive(Debug)]
pub struct Matrix {
    ncols: usize,
    elems: Vec<Vec<i64>>,
    presum: Vec<Vec<i64>>,
}

impl View for Matrix {
    type V = Seq<Seq<i64>>;

    closed spec fn view(&self) -> Seq<Seq<i64>> {
        matrix_view(self.elems@)
    }
}

/// One prefix-sum row matches one original row: position `c` holds the sum of
/// the original cells at positions `0 ..= c`.
spec fn prefix_row_ok(orig: Seq<i64>, ps: Seq<i64>) -> bool {
    &&& ps.len() == orig.len()
    &&& forall|c: int| 0 <= c < orig.len() ==> (#[trigger] ps[c]) as int == row_prefix(orig, c + 1)
}

impl Matrix {
    /// The structure is well formed: the stored column count and the
    /// prefix-sum rows agree with the original rows, and every rectangle sum
    /// fits in an `i64`.
    pub closed spec fn wf(&self) -> bool {
        &&& self.ncols as int == num_cols(self@)
        &&& rows_rectangular(self@)
        &&& rects_fit(self@)
        &&& self.presum@.len() == self.elems@.len()
        &&& forall|j: int|
            0 <= j < self.elems@.len() ==> prefix_row_ok(self@[j], (#[trigger] self.presum@[j])@)
    }

    /// Builds the structure from the given rows. Every row must have the
    /// length established by the first row; the first offending row is
    /// reported in a `ShapeMismatch` error and no matrix is produced. An
    /// empty input builds a matrix with no columns, on which every query
    /// fails validation.
    pub fn new(rows: Vec<Vec<i64>>) -> (r: Result<Matrix, ConstructError>)
        requires
            rows_rectangular(matrix_view(rows@)) ==> rects_fit(matrix_view(rows@)),
        ensures
            rows_rectangular(matrix_view(rows@)) ==> (r matches Ok(m) && m@ == matrix_view(rows@)
                && m.wf()),
            !rows_rectangular(matrix_view(rows@)) ==> r == Err::<Matrix, ConstructError>(
                (ConstructError::ShapeMismatch {
                    expected: num_cols(matrix_view(rows@)) as usize,
                    actual: matrix_view(rows@)[mismatch_index(matrix_view(rows@))].len() as usize,
                }),
            ),
    {
        let ghost v = matrix_view(rows@);
        let nrows: usize = rows.len();
        let mut ncols: usize = 0;
        if nrows > 0 {
            ncols = rows[0].len();
        }
        let mut j: usize = 0;
        while j < nrows
            invariant
                j <= nrows,
                nrows == rows@.len(),
                v == matrix_view(rows@),
                ncols as int == num_cols(v),
                forall|i: int| 0 <= i < j ==> (#[trigger] v[i]).len() == ncols,
            decreases nrows - j,
        {
            if rows[j].len() != ncols {
                proof {
                    lemma_mismatch_found(v, j as int);
                }
                return Err(ConstructError::ShapeMismatch { expected: ncols, actual: rows[j].len() });
            }
            j += 1;
        }
        assert(rows_rectangular(v));
        let mut presum: Vec<Vec<i64>> = Vec::new();
        let mut j: usize = 0;
        while j < nrows
            invariant
                j <= nrows,
                nrows == rows@.len(),
                v == matrix_view(rows@),
                ncols as int == num_cols(v),
                rows_rectangular(v),
                rects_fit(v),
                presum@.len() == j,
                forall|jj: int| 0 <= jj < j ==> prefix_row_ok(v[jj], (#[trigger] presum@[jj])@),
            decreases nrows - j,
        {
            proof {
                lemma_row_prefixes_fit(v, j as int);
                assert(v[j as int] == rows@[j as int]@);
            }
            let p = precomp_rowsum(&rows[j]);
            presum.push(p);
            j += 1;
        }
        Ok(Matrix { ncols, elems: rows, presum })
    }

    /// Sum of the cells in the inclusive rectangle from `(startx, starty)` to
    /// `(endx, endy)`. The caller is responsible for ordering the bounds;
    /// `endx` is validated against the column count and `endy` against the
    /// row count, each failure reported as an `OutOfRange` error.
    pub fn sum(&self, startx: usize, starty: usize, endx: usize, endy: usize) -> (r: Result<
        i64,
        QueryError,
    >)
        requires
            self.wf(),
            startx <= endx,
            starty <= endy,
        ensures
            r == query_result(self@, startx, starty, endx, endy),
    {
        if endx >= self.ncols {
            return Err(QueryError::OutOfRange { bound: endx, limit: self.ncols });
        }
        let nrows: usize = self.elems.len();
        if endy >= nrows {
            return Err(QueryError::OutOfRange { bound: endy, limit: nrows });
        }
        let mut total: i64 = 0;
        let mut j: usize = starty;
        while j <= endy
            invariant
                self.wf(),
                starty <= j <= endy + 1,
                startx <= endx,
                nrows == self.elems@.len(),
                endx < self.ncols,
                endy < nrows,
                total as int == rect_sum(
                    self@,
                    startx as int,
                    starty as int,
                    endx as int,
                    j as int - 1,
                ),
            decreases endy + 1 - j,
        {
            let ghost m = self@;
            let ghost jj = j as int;
            proof {
                assert(m[jj].len() == num_cols(m));
                assert(prefix_row_ok(m[jj], self.presum@[jj]@));
            }
            let pj: &Vec<i64> = &self.presum[j];
            let hi: i64 = pj[endx];
            let mut lo: i64 = 0;
            if startx > 0 {
                lo = pj[startx - 1];
            }
            proof {
                assert(hi as int == row_prefix(m[jj], endx as int + 1));
                if startx > 0 {
                    assert(lo as int == row_prefix(m[jj], startx as int));
                } else {
                    assert(row_prefix(m[jj], 0) == 0);
                }
                assert(hi as int - lo as int == row_seg(m[jj], startx as int, endx as int));
                lemma_rect_single_row(m, startx as int, endx as int, jj);
                assert(in_i64(rect_sum(m, startx as int, jj, endx as int, jj)));
                assert(rect_sum(m, startx as int, starty as int, endx as int, jj) == rect_sum(
                    m,
                    startx as int,
                    starty as int,
                    endx as int,
                    jj - 1,
                ) + row_seg(m[jj], startx as int, endx as int));
                assert(in_i64(rect_sum(m, startx as int, starty as int, endx as int, jj)));
            }
            let d: i64 = hi - lo;
            total = total + d;
            j += 1;
        }
        assert(total as int == rect_sum(
            self@,
            startx as int,
            starty as int,
            endx as int,
            endy as int,
        ));
        Ok(total)
    }
}

/// Computes the running prefix sums of one row: position `c` of the result
/// holds `row[0] + row[1] + ... + row[c]`.
pub fn precomp_rowsum(row: &Vec<i64>) -> (out: Vec<i64>)
    requires
        forall|n: int| 0 <= n <= row@.len() ==> in_i64(#[trigger] row_prefix(row@, n)),
    ensures
        out@.len() == row@.len(),
        forall|c: int| 0 <= c < row@.len() ==> (#[trigger] out@[c]) as int == row_prefix(row@, c + 1),
{
    let ncols: usize = row.len();
    let mut out: Vec<i64> = Vec::new();
    let mut s: i64 = 0;
    let mut ci: usize = 0;
    while ci < ncols
        invariant
            ci <= ncols,
            ncols == row@.len(),
            out@.len() == ci,
            s as int == row_prefix(row@, ci as int),
            forall|n: int| 0 <= n <= row@.len() ==> in_i64(#[trigger] row_prefix(row@, n)),
            forall|c: int| 0 <= c < ci ==> (#[trigger] out@[c]) as int == row_prefix(row@, c + 1),
        decreases ncols - ci,
    {
        assert(row_prefix(row@, ci as int + 1) == row_prefix(row@, ci as int) + row@[ci as int] as int);
        s = s + row[ci];
        out.push(s);
        ci += 1;
    }
    out
}

} // verus!
