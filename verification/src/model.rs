use vstd::prelude::*;

use crate::errors::QueryError;

verus! {

/// The mathematical value of a matrix: the sequence of its rows, each row the
/// sequence of its cells.
pub open spec fn matrix_view(rows: Seq<Vec<i64>>) -> Seq<Seq<i64>> {
    Seq::new(rows.len(), |j: int| rows[j]@)
}

/// Column count of a matrix: the length of its first row, zero when there are
/// no rows.
pub open spec fn num_cols(rows: Seq<Seq<i64>>) -> int {
    if rows.len() == 0 {
        0
    } else {
        rows[0].len() as int
    }
}

/// Every row has the column count established by the first row.
pub open spec fn rows_rectangular(rows: Seq<Seq<i64>>) -> bool {
    forall|j: int| 0 <= j < rows.len() ==> (#[trigger] rows[j]).len() == num_cols(rows)
}

/// Index of the first row at or after position `j` whose length disagrees
/// with the first row's length; the row count when no such row exists.
pub open spec fn mismatch_from(rows: Seq<Seq<i64>>, j: int) -> int
    decreases rows.len() - j,
{
    if j < 0 || j >= rows.len() {
        rows.len() as int
    } else if rows[j].len() != num_cols(rows) {
        j
    } else {
        mismatch_from(rows, j + 1)
    }
}

/// Index of the first row whose length disagrees with the first row's length;
/// the row count when the matrix is rectangular.
pub open spec fn mismatch_index(rows: Seq<Seq<i64>>) -> int {
    mismatch_from(rows, 0)
}

/// Sum of the first `n` cells of `row`.
pub open spec fn row_prefix(row: Seq<i64>, n: int) -> int
    decreases n,
{
    if n <= 0 {
        0
    } else {
        row_prefix(row, n - 1) + row[n - 1] as int
    }
}

/// Sum of the cells of `row` in columns `x0 ..= x1`.
pub open spec fn row_seg(row: Seq<i64>, x0: int, x1: int) -> int {
    row_prefix(row, x1 + 1) - row_prefix(row, x0)
}

/// Sum of the cells of `rows` in the inclusive rectangle from column `x0` to
/// `x1` and from row `y0` to `y1`; zero when the rectangle is empty.
pub open spec fn rect_sum(rows: Seq<Seq<i64>>, x0: int, y0: int, x1: int, y1: int) -> int
    decreases y1 + 1 - y0,
{
    if y1 < y0 {
        0
    } else {
        rect_sum(rows, x0, y0, x1, y1 - 1) + row_seg(rows[y1], x0, x1)
    }
}

pub open spec fn in_i64(v: int) -> bool {
    i64::MIN <= v <= i64::MAX
}

/// Every in-range rectangle sum fits in an `i64`: the machine-level side
/// condition under which both structures are built and queried without
/// overflow.
pub open spec fn rects_fit(rows: Seq<Seq<i64>>) -> bool {
    forall|x0: int, y0: int, x1: int, y1: int|
        0 <= x0 <= x1 < num_cols(rows) && 0 <= y0 <= y1 < rows.len() ==> in_i64(
            #[trigger] rect_sum(rows, x0, y0, x1, y1),
        )
}

/// What a query returns: the contract shared by both matrix variants.
/// The end column is validated against the column count first, then the end
/// row against the row count; an in-range rectangle yields its cell sum.
pub open spec fn query_result(
    rows: Seq<Seq<i64>>,
    startx: usize,
    starty: usize,
    endx: usize,
    endy: usize,
) -> Result<i64, QueryError> {
    if endx as int >= num_cols(rows) {
        Err((QueryError::OutOfRange { bound: endx, limit: num_cols(rows) as usize }))
    } else if endy as int >= rows.len() as int {
        Err((QueryError::OutOfRange { bound: endy, limit: rows.len() as usize }))
    } else {
        Ok((rect_sum(rows, startx as int, starty as int, endx as int, endy as int) as i64))
    }
}

/// Total of the first `n` rows, each row summed in full.
pub open spec fn rows_total(rows: Seq<Seq<i64>>, n: int) -> int
    decreases n,
{
    if n <= 0 {
        0
    } else {
        rows_total(rows, n - 1) + row_prefix(rows[n - 1], rows[n - 1].len() as int)
    }
}

/// Total of all cells of the matrix: each row summed in full, rows added top
/// to bottom.
pub open spec fn matrix_total(rows: Seq<Seq<i64>>) -> int {
    rows_total(rows, rows.len() as int)
}

/// A one-row rectangle sums to a segment of that row.
pub proof fn lemma_rect_single_row(rows: Seq<Seq<i64>>, x0: int, x1: int, y: int)
    ensures
        rect_sum(rows, x0, y, x1, y) == row_seg(rows[y], x0, x1),
{
    assert(rect_sum(rows, x0, y, x1, y - 1) == 0);
}

/// In a rectangular matrix whose rectangle sums all fit in an `i64`, every
/// prefix sum of every row fits in an `i64` as well.
pub proof fn lemma_row_prefixes_fit(rows: Seq<Seq<i64>>, j: int)
    requires
        rows_rectangular(rows),
        rects_fit(rows),
        0 <= j < rows.len(),
    ensures
        forall|n: int| 0 <= n <= rows[j].len() ==> in_i64(#[trigger] row_prefix(rows[j], n)),
{
    assert forall|n: int| 0 <= n <= rows[j].len() implies in_i64(
        #[trigger] row_prefix(rows[j], n),
    ) by {
        if n == 0 {
            assert(row_prefix(rows[j], 0) == 0);
        } else {
            lemma_rect_single_row(rows, 0, n - 1, j);
            assert(row_prefix(rows[j], 0) == 0);
            assert(rows[j].len() == num_cols(rows));
            assert(in_i64(rect_sum(rows, 0, j, n - 1, j)));
        }
    }
}

/// Helper for `lemma_bounded_cells_fit`: a row segment over cells bounded by
/// `b` in magnitude is bounded by its width times `b`.
proof fn lemma_seg_bound(row: Seq<i64>, x0: int, x1: int, b: int)
    requires
        0 <= x0,
        x0 - 1 <= x1 < row.len(),
        forall|c: int| 0 <= c < row.len() ==> -b <= (#[trigger] row[c]) as int <= b,
    ensures
        -((x1 + 1 - x0) * b) <= row_seg(row, x0, x1) <= (x1 + 1 - x0) * b,
    decreases x1 + 1 - x0,
{
    if x1 < x0 {
        assert(row_seg(row, x0, x1) == 0);
    } else {
        lemma_seg_bound(row, x0, x1 - 1, b);
        assert(row_prefix(row, x1 + 1) == row_prefix(row, x1) + row[x1] as int);
        assert(-b <= row[x1] as int <= b);
        assert((x1 + 1 - x0) * b == (x1 - x0) * b + b) by (nonlinear_arith);
    }
}

/// Helper for `lemma_bounded_cells_fit`: a rectangle over cells bounded by
/// `b` in magnitude is bounded by its area times `b`.
proof fn lemma_rect_bound(rows: Seq<Seq<i64>>, x0: int, y0: int, x1: int, y1: int, b: int)
    requires
        rows_rectangular(rows),
        0 <= x0,
        x0 - 1 <= x1 < num_cols(rows),
        0 <= y0,
        y0 - 1 <= y1 < rows.len(),
        forall|j: int, c: int|
            0 <= j < rows.len() && 0 <= c < num_cols(rows) ==> -b <= (#[trigger] rows[j][c]) as int
                <= b,
    ensures
        -((y1 + 1 - y0) * ((x1 + 1 - x0) * b)) <= rect_sum(rows, x0, y0, x1, y1) <= (y1 + 1 - y0)
            * ((x1 + 1 - x0) * b),
    decreases y1 + 1 - y0,
{
    if y1 < y0 {
        assert(rect_sum(rows, x0, y0, x1, y1) == 0);
        assert((y1 + 1 - y0) * ((x1 + 1 - x0) * b) == 0) by (nonlinear_arith)
            requires
                y1 + 1 - y0 == 0,
        ;
    } else {
        lemma_rect_bound(rows, x0, y0, x1, y1 - 1, b);
        assert(rect_sum(rows, x0, y0, x1, y1) == rect_sum(rows, x0, y0, x1, y1 - 1) + row_seg(
            rows[y1],
            x0,
            x1,
        ));
        assert(rows[y1].len() == num_cols(rows));
        assert forall|c: int| 0 <= c < rows[y1].len() implies -b <= (#[trigger] rows[y1][c]) as int
            <= b by {
            assert(0 <= y1 < rows.len() && 0 <= c < num_cols(rows));
        }
        lemma_seg_bound(rows[y1], x0, x1, b);
        assert((y1 + 1 - y0) * ((x1 + 1 - x0) * b) == (y1 - y0) * ((x1 + 1 - x0) * b) + (x1 + 1
            - x0) * b) by (nonlinear_arith);
    }
}

/// Cells bounded by `b` in magnitude make every rectangle sum fit in an
/// `i64`, as long as the whole matrix's worst-case total `rows * cols * b`
/// does. This is the convenient way for a caller to discharge the overflow
/// side condition `rects_fit` before building a matrix.
pub proof fn lemma_bounded_cells_fit(rows: Seq<Seq<i64>>, b: int)
    requires
        rows_rectangular(rows),
        forall|j: int, c: int|
            0 <= j < rows.len() && 0 <= c < num_cols(rows) ==> -b <= (#[trigger] rows[j][c]) as int
                <= b,
        (rows.len() as int) * num_cols(rows) * b <= i64::MAX,
    ensures
        rects_fit(rows),
{
    assert forall|x0: int, y0: int, x1: int, y1: int|
        0 <= x0 <= x1 < num_cols(rows) && 0 <= y0 <= y1 < rows.len() implies in_i64(
        #[trigger] rect_sum(rows, x0, y0, x1, y1),
    ) by {
        lemma_rect_bound(rows, x0, y0, x1, y1, b);
        assert(-b <= rows[y1][x1] as int <= b);
        assert(b >= 0);
        assert((y1 + 1 - y0) * ((x1 + 1 - x0) * b) <= (rows.len() as int) * num_cols(rows) * b)
            by (nonlinear_arith)
            requires
                1 <= y1 + 1 - y0 <= rows.len() as int,
                1 <= x1 + 1 - x0 <= num_cols(rows),
                b >= 0,
        ;
    }
}

/// Helper for `lemma_mismatch_found`: the scan starting at `i` stops exactly
/// at the first mismatching row `j`.
proof fn lemma_mismatch_from_finds(rows: Seq<Seq<i64>>, i: int, j: int)
    requires
        0 <= i <= j < rows.len(),
        rows[j].len() != num_cols(rows),
        forall|k: int| i <= k < j ==> (#[trigger] rows[k]).len() == num_cols(rows),
    ensures
        mismatch_from(rows, i) == j,
    decreases j - i,
{
    if i < j {
        lemma_mismatch_from_finds(rows, i + 1, j);
    }
}

/// A row of the wrong length, all earlier rows being of the right length, is
/// the first mismatch, and the matrix is not rectangular.
pub proof fn lemma_mismatch_found(rows: Seq<Seq<i64>>, j: int)
    requires
        0 <= j < rows.len(),
        rows[j].len() != num_cols(rows),
        forall|k: int| 0 <= k < j ==> (#[trigger] rows[k]).len() == num_cols(rows),
    ensures
        mismatch_index(rows) == j,
        !rows_rectangular(rows),
{
    lemma_mismatch_from_finds(rows, 0, j);
}

} // verus!
