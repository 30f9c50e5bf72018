use matrix::partition::partition_rows;
use matrix::Matrix;

fn blocked_product<const X: usize, const Y: usize, const Z: usize>(
    a: &Matrix<X, Y>,
    b: &Matrix<Y, Z>,
    workers: usize,
) -> Matrix<X, Z> {
    let plan = partition_rows(X, workers);
    let blocks: Vec<Vec<[i64; Z]>> = plan
        .iter()
        .map(|&(start, end)| a.dot_product_rows(b, start, end))
        .collect();
    Matrix::from_row_blocks(blocks).unwrap()
}

#[test]
fn lib_test_dot_product_2x2() {
    let a = Matrix::from([[1, 2], [3, 4]]);
    let b = Matrix::from([[2, 0], [1, 2]]);
    let result = a.dot_product(&b);
    let expected = Matrix::from([[4, 4], [10, 8]]);
    assert_eq!(result, expected);
}

#[test]
fn lib_test_dot_product_2x3_and_3x2() {
    let a = Matrix::from([[1, 2, 3], [4, 5, 6]]);
    let b = Matrix::from([[7, 8], [9, 10], [11, 12]]);
    let result = a.dot_product(&b);
    let expected = Matrix::from([[58, 64], [139, 154]]);
    assert_eq!(result, expected);
}

#[test]
fn test_dot_product_identity_matrix() {
    let a = Matrix::from([[1, 0], [0, 1]]);
    let b = Matrix::from([[5, 6], [7, 8]]);
    let result = a.dot_product(&b);
    assert_eq!(result, b);
}

#[test]
fn test_dot_product_with_zero_matrix() {
    let a = Matrix::from([[0, 0], [0, 0]]);
    let b = Matrix::from([[1, 2], [3, 4]]);
    let result = a.dot_product(&b);
    let expected = Matrix::from([[0, 0], [0, 0]]);
    assert_eq!(result, expected);
}

#[test]
fn identity_on_the_right_keeps_matrix() {
    let a = Matrix::from([[1, 2, 3], [4, 5, 6]]);
    let id = Matrix::from([[1, 0, 0], [0, 1, 0], [0, 0, 1]]);
    assert_eq!(a.dot_product(&id), a);
}

#[test]
fn zero_on_the_right_gives_zero() {
    let a = Matrix::from([[1, 2, 3], [4, 5, 6]]);
    let zero: Matrix<3, 4> = Matrix::default();
    let expected: Matrix<2, 4> = Matrix::default();
    assert_eq!(a.dot_product(&zero), expected);
}

#[test]
fn blocked_product_matches_sequential_for_any_worker_count() {
    let a = Matrix::from([[1, 2, 3], [4, 5, 6], [7, 8, 9], [-1, 0, 2], [3, 3, 3]]);
    let b = Matrix::from([[7, 8], [9, 10], [11, 12]]);
    let sequential = a.dot_product(&b);
    for workers in 0..9 {
        assert_eq!(blocked_product(&a, &b, workers), sequential);
    }
}

#[test]
fn blocked_product_on_scenarios() {
    let a = Matrix::from([[1, 2], [3, 4]]);
    let b = Matrix::from([[2, 0], [1, 2]]);
    assert_eq!(blocked_product(&a, &b, 4), Matrix::from([[4, 4], [10, 8]]));
    let id = Matrix::from([[1, 0], [0, 1]]);
    let c = Matrix::from([[5, 6], [7, 8]]);
    assert_eq!(blocked_product(&id, &c, 2), c);
}

#[test]
fn inner_dimension_zero_gives_zeros() {
    let a: Matrix<2, 0> = Matrix::default();
    let b: Matrix<0, 3> = Matrix::default();
    let expected: Matrix<2, 3> = Matrix::default();
    assert_eq!(a.dot_product(&b), expected);
}

#[test]
fn dot_product_rows_gives_one_share() {
    let a = Matrix::from([[1, 2, 3], [4, 5, 6]]);
    let b = Matrix::from([[7, 8], [9, 10], [11, 12]]);
    assert_eq!(a.dot_product_rows(&b, 1, 2), vec![[139, 154]]);
    assert_eq!(a.dot_product_rows(&b, 1, 1), Vec::<[i64; 2]>::new());
}

#[test]
fn from_row_blocks_rejects_wrong_row_count() {
    let short: Option<Matrix<2, 2>> = Matrix::from_row_blocks(vec![vec![[1, 2]]]);
    assert!(short.is_none());
    let long: Option<Matrix<2, 2>> = Matrix::from_row_blocks(vec![vec![[1, 2]], vec![[3, 4], [5, 6]]]);
    assert!(long.is_none());
    let exact: Option<Matrix<2, 2>> = Matrix::from_row_blocks(vec![vec![[1, 2]], vec![], vec![[3, 4]]]);
    assert_eq!(exact, Some(Matrix::from([[1, 2], [3, 4]])));
}

#[test]
fn fits_product_detects_overflow() {
    let a = Matrix::from([[i64::MAX, 1]]);
    let b = Matrix::from([[1], [1]]);
    assert!(!a.fits_product(&b));
    let c = Matrix::from([[i64::MAX, 0]]);
    assert!(c.fits_product(&b));
    assert_eq!(c.dot_product(&b), Matrix::from([[i64::MAX]]));
    let d = Matrix::from([[i64::MAX / 2 + 1]]);
    let e = Matrix::from([[2]]);
    assert!(!d.fits_product(&e));
}

#[test]
fn get_and_set_touch_one_element() {
    let mut m: Matrix<2, 3> = Matrix::default();
    m.set(1, 2, 7);
    assert_eq!(m.get(1, 2), 7);
    assert_eq!(m, Matrix::from([[0, 0, 0], [0, 0, 7]]));
}

#[test]
fn row_gives_one_row() {
    let m = Matrix::from([[1, 2, 3], [4, 5, 6]]);
    assert_eq!(m.row(1), &[4, 5, 6]);
}
