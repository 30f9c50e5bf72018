use matrix::dynamic::DynMatrics;
use matrix::partition::partition_rows;
use matrix::Matrix;

fn blocked_product<const X: usize, const Y: usize, const Z: usize>(
    a: &DynMatrics<X, Y>,
    b: &DynMatrics<Y, Z>,
    workers: usize,
) -> DynMatrics<X, Z> {
    let plan = partition_rows(X, workers);
    let blocks: Vec<Vec<i64>> = plan
        .iter()
        .map(|&(start, end)| a.dot_product_rows(b, start, end))
        .collect();
    DynMatrics::from_row_blocks(blocks).unwrap()
}

#[test]
fn dynamic_test_dot_product_2x2() {
    let a = DynMatrics::<2, 2>::try_from(vec![1, 2, 3, 4]).unwrap();
    let b = DynMatrics::<2, 2>::try_from(vec![2, 0, 1, 2]).unwrap();
    let result = a.dot_product(&b);
    let expected = DynMatrics::<2, 2>::try_from(vec![4, 4, 10, 8]).unwrap();
    assert_eq!(result, expected);
}

#[test]
fn dynamic_test_dot_product_2x3_and_3x2() {
    let a = DynMatrics::<2, 3>::try_from(vec![1, 2, 3, 4, 5, 6]).unwrap();
    let b = DynMatrics::<3, 2>::try_from(vec![7, 8, 9, 10, 11, 12]).unwrap();
    let result = a.dot_product(&b);
    let expected = DynMatrics::<2, 2>::try_from(vec![58, 64, 139, 154]).unwrap();
    assert_eq!(result, expected);
}

#[test]
fn try_from_rejects_wrong_length() {
    assert!(DynMatrics::<2, 2>::try_from(vec![1, 2, 3]).is_err());
    assert!(DynMatrics::<2, 2>::try_from(vec![1, 2, 3, 4, 5]).is_err());
    assert!(DynMatrics::<2, 2>::try_from(vec![]).is_err());
    assert!(DynMatrics::<0, 5>::try_from(vec![]).is_ok());
}

#[test]
fn try_from_keeps_row_major_order() {
    let m = DynMatrics::<2, 3>::try_from(vec![1, 2, 3, 4, 5, 6]).unwrap();
    assert_eq!(m.get(0, 2), 3);
    assert_eq!(m.get(1, 0), 4);
    assert_eq!(m.get(1, 2), 6);
}

#[test]
fn flat_and_fixed_layouts_agree() {
    let flat = DynMatrics::<2, 2>::try_from(vec![1, 2, 3, 4]).unwrap();
    let fixed = Matrix::from([[1, 2], [3, 4]]);
    let flat_b = DynMatrics::<2, 2>::try_from(vec![2, 0, 1, 2]).unwrap();
    let fixed_b = Matrix::from([[2, 0], [1, 2]]);
    let flat_r = flat.dot_product(&flat_b);
    let fixed_r = fixed.dot_product(&fixed_b);
    for i in 0..2 {
        for j in 0..2 {
            assert_eq!(flat_r.get(i, j), fixed_r.get(i, j));
        }
    }
}

#[test]
fn flat_zero_matrix_absorbs() {
    let a: DynMatrics<2, 2> = DynMatrics::default();
    let b = DynMatrics::<2, 2>::try_from(vec![1, 2, 3, 4]).unwrap();
    let expected = DynMatrics::<2, 2>::try_from(vec![0, 0, 0, 0]).unwrap();
    assert_eq!(a.dot_product(&b), expected);
    assert_eq!(b.dot_product(&a), expected);
}

#[test]
fn flat_identity_keeps_matrix() {
    let id = DynMatrics::<2, 2>::try_from(vec![1, 0, 0, 1]).unwrap();
    let b = DynMatrics::<2, 2>::try_from(vec![5, 6, 7, 8]).unwrap();
    assert_eq!(id.dot_product(&b), b);
    assert_eq!(b.dot_product(&id), b);
}

#[test]
fn flat_blocked_product_matches_sequential() {
    let a = DynMatrics::<5, 3>::try_from(vec![1, 2, 3, 4, 5, 6, 7, 8, 9, -1, 0, 2, 3, 3, 3]).unwrap();
    let b = DynMatrics::<3, 2>::try_from(vec![7, 8, 9, 10, 11, 12]).unwrap();
    let sequential = a.dot_product(&b);
    for workers in 0..9 {
        assert_eq!(blocked_product(&a, &b, workers), sequential);
    }
    let c = DynMatrics::<2, 3>::try_from(vec![1, 2, 3, 4, 5, 6]).unwrap();
    let expected = DynMatrics::<2, 2>::try_from(vec![58, 64, 139, 154]).unwrap();
    assert_eq!(blocked_product(&c, &b, 8), expected);
}

#[test]
fn flat_dot_product_rows_gives_one_share() {
    let a = DynMatrics::<2, 3>::try_from(vec![1, 2, 3, 4, 5, 6]).unwrap();
    let b = DynMatrics::<3, 2>::try_from(vec![7, 8, 9, 10, 11, 12]).unwrap();
    assert_eq!(a.dot_product_rows(&b, 0, 1), vec![58, 64]);
    assert_eq!(a.dot_product_rows(&b, 0, 2), vec![58, 64, 139, 154]);
}

#[test]
fn flat_from_row_blocks_checks_length() {
    assert!(DynMatrics::<2, 2>::from_row_blocks(vec![vec![1, 2, 3]]).is_none());
    let m = DynMatrics::<2, 2>::from_row_blocks(vec![vec![1, 2], vec![3, 4]]).unwrap();
    assert_eq!(m, DynMatrics::<2, 2>::try_from(vec![1, 2, 3, 4]).unwrap());
}

#[test]
fn flat_fits_product_detects_overflow() {
    let a = DynMatrics::<1, 2>::try_from(vec![i64::MAX, 1]).unwrap();
    let b = DynMatrics::<2, 1>::try_from(vec![1, 1]).unwrap();
    assert!(!a.fits_product(&b));
    let c = DynMatrics::<1, 2>::try_from(vec![i64::MIN, 0]).unwrap();
    assert!(c.fits_product(&b));
}

#[test]
fn flat_set_changes_one_element() {
    let mut m: DynMatrics<2, 2> = DynMatrics::default();
    m.set(1, 0, -3);
    assert_eq!(m, DynMatrics::<2, 2>::try_from(vec![0, 0, -3, 0]).unwrap());
}

#[test]
fn flat_row_gives_one_row() {
    let m = DynMatrics::<2, 3>::try_from(vec![1, 2, 3, 4, 5, 6]).unwrap();
    assert_eq!(m.row(0), &[1, 2, 3]);
    assert_eq!(m.row(1), &[4, 5, 6]);
}
