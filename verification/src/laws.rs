use vstd::prelude::*;

use crate::allsum;
use crate::errors::QueryError;
use crate::model::{
    in_i64, lemma_rect_single_row, matrix_total, num_cols, query_result, rect_sum, rects_fit,
    row_prefix, rows_rectangular, rows_total,
};
use crate::rowsum;

verus! {

/// The two structures agree: well-formed matrices built from the same rows
/// answer every query identically, both on in-range rectangles and in the
/// errors they report. Each `sum` method returns exactly `query_result` of
/// its view, so equal views force equal answers.
pub proof fn lemma_methods_agree(
    m1: rowsum::Matrix,
    m2: allsum::Matrix,
    startx: usize,
    starty: usize,
    endx: usize,
    endy: usize,
)
    requires
        m1.wf(),
        m2.wf(),
        m1@ == m2@,
    ensures
        query_result(m1@, startx, starty, endx, endy) == query_result(
            m2@,
            startx,
            starty,
            endx,
            endy,
        ),
{
}

/// Splitting a rectangle vertically at column `k` splits its sum: the whole
/// rectangle sums to the part up to column `k` plus the part from column
/// `k + 1` on. This holds for every matrix and every pair of row bounds.
pub proof fn lemma_split_vertical(
    rows: Seq<Seq<i64>>,
    x0: int,
    k: int,
    x1: int,
    y0: int,
    y1: int,
)
    requires
        x0 <= k < x1,
    ensures
        rect_sum(rows, x0, y0, x1, y1) == rect_sum(rows, x0, y0, k, y1) + rect_sum(
            rows,
            k + 1,
            y0,
            x1,
            y1,
        ),
    decreases y1 + 1 - y0,
{
    if y0 <= y1 {
        lemma_split_vertical(rows, x0, k, x1, y0, y1 - 1);
    }
}

/// Splitting a rectangle horizontally at row `k` splits its sum: the whole
/// rectangle sums to the part down to row `k` plus the part from row `k + 1`
/// on.
pub proof fn lemma_split_horizontal(
    rows: Seq<Seq<i64>>,
    x0: int,
    x1: int,
    y0: int,
    k: int,
    y1: int,
)
    requires
        y0 <= k < y1,
    ensures
        rect_sum(rows, x0, y0, x1, y1) == rect_sum(rows, x0, y0, x1, k) + rect_sum(
            rows,
            x0,
            k + 1,
            x1,
            y1,
        ),
    decreases y1 - k,
{
    if y1 == k + 1 {
        assert(rect_sum(rows, x0, k + 1, x1, k) == 0);
    } else {
        lemma_split_horizontal(rows, x0, x1, y0, k, y1 - 1);
    }
}

/// A one-cell rectangle sums to that cell: querying the single cell `(x, y)`
/// returns the original matrix entry at row `y`, column `x`.
pub proof fn lemma_single_cell(rows: Seq<Seq<i64>>, x: usize, y: usize)
    requires
        rows_rectangular(rows),
        (x as int) < num_cols(rows),
        (y as int) < rows.len(),
    ensures
        query_result(rows, x, y, x, y) == Ok::<i64, QueryError>(rows[y as int][x as int]),
{
    lemma_rect_single_row(rows, x as int, x as int, y as int);
    assert(row_prefix(rows[y as int], x as int + 1) == row_prefix(rows[y as int], x as int)
        + rows[y as int][x as int] as int);
}

/// Helper for `lemma_full_matrix_total`: the full-width rectangle over the
/// first `n` rows sums to the total of those rows.
proof fn lemma_full_rows(rows: Seq<Seq<i64>>, n: int)
    requires
        rows_rectangular(rows),
        0 <= n <= rows.len(),
    ensures
        rect_sum(rows, 0, 0, num_cols(rows) - 1, n - 1) == rows_total(rows, n),
    decreases n,
{
    if n > 0 {
        lemma_full_rows(rows, n - 1);
        assert(rows[n - 1].len() == num_cols(rows));
        assert(row_prefix(rows[n - 1], 0) == 0);
    }
}

/// Querying the whole matrix returns the brute-force total of all its cells.
pub proof fn lemma_full_matrix_total(rows: Seq<Seq<i64>>, endx: usize, endy: usize)
    requires
        rows_rectangular(rows),
        rects_fit(rows),
        endx as int == num_cols(rows) - 1,
        endy as int == rows.len() - 1,
    ensures
        query_result(rows, 0, 0, endx, endy) == Ok::<i64, QueryError>(matrix_total(rows) as i64),
{
    lemma_full_rows(rows, rows.len() as int);
    assert(in_i64(rect_sum(rows, 0, 0, endx as int, endy as int)));
}

} // verus!
