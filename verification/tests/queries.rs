use rangesum::allsum;
use rangesum::errors::QueryError;
use rangesum::rowsum;

fn sample_rows() -> Vec<Vec<i64>> {
    vec![
        vec![1, 2, 5, 11],
        vec![5, 9, 11, 15],
        vec![2, 17, 8, -10],
    ]
}

fn brute_force(rows: &[Vec<i64>], startx: usize, starty: usize, endx: usize, endy: usize) -> i64 {
    let mut total = 0;
    for row in rows.iter().take(endy + 1).skip(starty) {
        for cell in row.iter().take(endx + 1).skip(startx) {
            total += cell;
        }
    }
    total
}

#[test]
fn worked_example_rowsum() {
    let m = rowsum::Matrix::new(sample_rows()).unwrap();
    assert_eq!(m.sum(1, 1, 3, 2), Ok(9 + 11 + 15 + 17 + 8 - 10));
    assert_eq!(m.sum(1, 1, 3, 2), Ok(50));
}

#[test]
fn worked_example_allsum() {
    let m = allsum::Matrix::new(sample_rows()).unwrap();
    assert_eq!(m.sum(1, 1, 3, 2), Ok(9 + 11 + 15 + 17 + 8 - 10));
    assert_eq!(m.sum(1, 1, 3, 2), Ok(50));
}

#[test]
fn methods_agree_on_every_rectangle() {
    let rows = sample_rows();
    let m1 = rowsum::Matrix::new(rows.clone()).unwrap();
    let m2 = allsum::Matrix::new(rows.clone()).unwrap();
    for startx in 0..4 {
        for endx in startx..4 {
            for starty in 0..3 {
                for endy in starty..3 {
                    let r1 = m1.sum(startx, starty, endx, endy);
                    let r2 = m2.sum(startx, starty, endx, endy);
                    assert_eq!(r1, r2);
                    assert_eq!(r1, Ok(brute_force(&rows, startx, starty, endx, endy)));
                }
            }
        }
    }
}

#[test]
fn single_cell_queries_return_the_cell() {
    let rows = sample_rows();
    let m1 = rowsum::Matrix::new(rows.clone()).unwrap();
    let m2 = allsum::Matrix::new(rows.clone()).unwrap();
    for (y, row) in rows.iter().enumerate() {
        for (x, &cell) in row.iter().enumerate() {
            assert_eq!(m1.sum(x, y, x, y), Ok(cell));
            assert_eq!(m2.sum(x, y, x, y), Ok(cell));
        }
    }
}

#[test]
fn full_matrix_sum_is_total_of_all_cells() {
    let rows = sample_rows();
    let total: i64 = rows.iter().flatten().sum();
    assert_eq!(total, 76);
    let m1 = rowsum::Matrix::new(rows.clone()).unwrap();
    let m2 = allsum::Matrix::new(rows).unwrap();
    assert_eq!(m1.sum(0, 0, 3, 2), Ok(total));
    assert_eq!(m2.sum(0, 0, 3, 2), Ok(total));
}

#[test]
fn vertical_split_decomposes_the_sum() {
    let rows = sample_rows();
    let m1 = rowsum::Matrix::new(rows.clone()).unwrap();
    let m2 = allsum::Matrix::new(rows).unwrap();
    for k in 0..3 {
        let split = m1.sum(0, 0, k, 2).unwrap() + m1.sum(k + 1, 0, 3, 2).unwrap();
        assert_eq!(m1.sum(0, 0, 3, 2), Ok(split));
        let split = m2.sum(0, 0, k, 2).unwrap() + m2.sum(k + 1, 0, 3, 2).unwrap();
        assert_eq!(m2.sum(0, 0, 3, 2), Ok(split));
    }
}

#[test]
fn horizontal_split_decomposes_the_sum() {
    let rows = sample_rows();
    let m1 = rowsum::Matrix::new(rows.clone()).unwrap();
    let m2 = allsum::Matrix::new(rows).unwrap();
    for k in 0..2 {
        let split = m1.sum(1, 0, 3, k).unwrap() + m1.sum(1, k + 1, 3, 2).unwrap();
        assert_eq!(m1.sum(1, 0, 3, 2), Ok(split));
        let split = m2.sum(1, 0, 3, k).unwrap() + m2.sum(1, k + 1, 3, 2).unwrap();
        assert_eq!(m2.sum(1, 0, 3, 2), Ok(split));
    }
}

#[test]
fn end_column_out_of_range_is_rejected() {
    let rows = vec![vec![1, 2, 3], vec![4, 5, 6], vec![7, 8, 9]];
    let m1 = rowsum::Matrix::new(rows.clone()).unwrap();
    let m2 = allsum::Matrix::new(rows).unwrap();
    assert_eq!(
        m1.sum(0, 0, 3, 0),
        Err(QueryError::OutOfRange { bound: 3, limit: 3 })
    );
    assert_eq!(
        m2.sum(0, 0, 3, 0),
        Err(QueryError::OutOfRange { bound: 3, limit: 3 })
    );
}

#[test]
fn end_row_out_of_range_is_rejected() {
    let rows = vec![vec![1, 2, 3], vec![4, 5, 6], vec![7, 8, 9]];
    let m1 = rowsum::Matrix::new(rows.clone()).unwrap();
    let m2 = allsum::Matrix::new(rows).unwrap();
    assert_eq!(
        m1.sum(0, 0, 0, 3),
        Err(QueryError::OutOfRange { bound: 3, limit: 3 })
    );
    assert_eq!(
        m2.sum(0, 0, 0, 3),
        Err(QueryError::OutOfRange { bound: 3, limit: 3 })
    );
}

#[test]
fn column_check_comes_before_row_check() {
    let rows = vec![vec![1, 2], vec![3, 4]];
    let m1 = rowsum::Matrix::new(rows.clone()).unwrap();
    let m2 = allsum::Matrix::new(rows).unwrap();
    assert_eq!(
        m1.sum(0, 0, 5, 7),
        Err(QueryError::OutOfRange { bound: 5, limit: 2 })
    );
    assert_eq!(
        m2.sum(0, 0, 5, 7),
        Err(QueryError::OutOfRange { bound: 5, limit: 2 })
    );
}

#[test]
fn single_row_matrix() {
    let m1 = rowsum::Matrix::new(vec![vec![3, -7, 11]]).unwrap();
    let m2 = allsum::Matrix::new(vec![vec![3, -7, 11]]).unwrap();
    assert_eq!(m1.sum(0, 0, 2, 0), Ok(7));
    assert_eq!(m2.sum(0, 0, 2, 0), Ok(7));
    assert_eq!(m1.sum(1, 0, 1, 0), Ok(-7));
    assert_eq!(m2.sum(1, 0, 1, 0), Ok(-7));
}

#[test]
fn single_column_matrix() {
    let rows = vec![vec![3], vec![-7], vec![11]];
    let m1 = rowsum::Matrix::new(rows.clone()).unwrap();
    let m2 = allsum::Matrix::new(rows).unwrap();
    assert_eq!(m1.sum(0, 0, 0, 2), Ok(7));
    assert_eq!(m2.sum(0, 0, 0, 2), Ok(7));
    assert_eq!(m1.sum(0, 1, 0, 2), Ok(4));
    assert_eq!(m2.sum(0, 1, 0, 2), Ok(4));
}

#[test]
fn all_negative_cells() {
    let rows = vec![vec![-1, -2], vec![-3, -4]];
    let m1 = rowsum::Matrix::new(rows.clone()).unwrap();
    let m2 = allsum::Matrix::new(rows).unwrap();
    assert_eq!(m1.sum(0, 0, 1, 1), Ok(-10));
    assert_eq!(m2.sum(0, 0, 1, 1), Ok(-10));
}
