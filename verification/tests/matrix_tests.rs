use fdn::matrix::{copy, elementwise_add, hadamard, trunc_matrix, zero};

#[test]
fn test_hadamard_2() {
    let res = vec![vec![1, 1], vec![1, -1]];
    let act = hadamard(2);

    assert_eq!(res, act);
}

#[test]
fn test_hadamard_4() {
    let res = vec![
        vec![1, 1, 1, 1],
        vec![1, -1, 1, -1],
        vec![1, 1, -1, -1],
        vec![1, -1, -1, 1],
    ];
    let act = hadamard(3);

    assert_eq!(res, act);
}

#[test]
fn test_trun_mat_has_correct_size() {
    let mat = vec![vec![1.0; 10]; 10];
    let res = trunc_matrix(mat, 4, 5);

    assert_eq!(4, res.len());
    assert_eq!(5, res[0].len());
}

#[test]
fn trunc_matrix_keeps_contents() {
    let mat = vec![vec![1i64, 2, 3], vec![4, 5, 6]];
    let res = trunc_matrix(mat, 1, 2);
    assert_eq!(res, vec![vec![1i64, 2]]);
}

#[test]
fn zero_clears_buffer() {
    let mut v = vec![3i64, -5, 7];
    zero(&mut v);
    assert_eq!(v, vec![0i64, 0, 0]);
}

#[test]
fn elementwise_add_adds_and_saturates() {
    let mut a = vec![1i64, i64::MAX, -3];
    let b = vec![10i64, 1];
    elementwise_add(&mut a, &b);
    assert_eq!(a, vec![11i64, i64::MAX, -3]);
}

#[test]
fn copy_overwrites_prefix() {
    let mut a = vec![0i64; 4];
    let b = vec![7i64, 8];
    copy(&mut a, &b);
    assert_eq!(a, vec![7i64, 8, 0, 0]);
}
