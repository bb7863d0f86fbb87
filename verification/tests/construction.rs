use rangesum::allsum;
use rangesum::allsum::precomp_allsum;
use rangesum::errors::{ConstructError, QueryError};
use rangesum::rowsum;
use rangesum::rowsum::precomp_rowsum;

#[test]
fn shape_mismatch_reports_both_lengths_rowsum() {
    match rowsum::Matrix::new(vec![vec![1, 2, 3], vec![4, 5]]) {
        Err(e) => assert_eq!(e, ConstructError::ShapeMismatch { expected: 3, actual: 2 }),
        Ok(_) => panic!("construction accepted ragged rows"),
    }
}

#[test]
fn shape_mismatch_reports_both_lengths_allsum() {
    match allsum::Matrix::new(vec![vec![1, 2, 3], vec![4, 5]]) {
        Err(e) => assert_eq!(e, ConstructError::ShapeMismatch { expected: 3, actual: 2 }),
        Ok(_) => panic!("construction accepted ragged rows"),
    }
}

#[test]
fn first_mismatching_row_is_the_one_reported() {
    match rowsum::Matrix::new(vec![vec![1, 2], vec![3, 4], vec![5], vec![6, 7, 8]]) {
        Err(e) => assert_eq!(e, ConstructError::ShapeMismatch { expected: 2, actual: 1 }),
        Ok(_) => panic!("construction accepted ragged rows"),
    }
}

#[test]
fn empty_first_row_establishes_zero_columns() {
    match allsum::Matrix::new(vec![vec![], vec![1, 2]]) {
        Err(e) => assert_eq!(e, ConstructError::ShapeMismatch { expected: 0, actual: 2 }),
        Ok(_) => panic!("construction accepted ragged rows"),
    }
}

#[test]
fn empty_input_builds_but_every_query_fails() {
    let m1 = rowsum::Matrix::new(vec![]).unwrap();
    let m2 = allsum::Matrix::new(vec![]).unwrap();
    assert_eq!(
        m1.sum(0, 0, 0, 0),
        Err(QueryError::OutOfRange { bound: 0, limit: 0 })
    );
    assert_eq!(
        m2.sum(0, 0, 0, 0),
        Err(QueryError::OutOfRange { bound: 0, limit: 0 })
    );
}

#[test]
fn rowsum_precomputation_is_the_running_prefix() {
    assert_eq!(precomp_rowsum(&vec![1, 2, 5, 11]), vec![1, 3, 8, 19]);
    assert_eq!(precomp_rowsum(&vec![5, 9, 11, 15]), vec![5, 14, 25, 40]);
    assert_eq!(precomp_rowsum(&vec![2, 17, 8, -10]), vec![2, 19, 27, 17]);
    assert_eq!(precomp_rowsum(&Vec::new()), Vec::<i64>::new());
}

#[test]
fn allsum_precomputation_adds_the_row_above() {
    let first = precomp_allsum(&vec![1, 2, 5, 11], &Vec::new());
    assert_eq!(first, vec![1, 3, 8, 19]);
    let table = vec![first];
    let second = precomp_allsum(&vec![5, 9, 11, 15], &table);
    assert_eq!(second, vec![6, 17, 33, 59]);
    let table = vec![table.into_iter().next().unwrap(), second];
    let third = precomp_allsum(&vec![2, 17, 8, -10], &table);
    assert_eq!(third, vec![8, 36, 60, 76]);
}
