use cpge::linear::gauss::MatrixRowOperation;
use cpge::linear::heap_matrix::HeapMatrix;
use cpge::linear::product::{product, scalar_product};
use cpge::linear::view::MatrixView;

#[test]
fn product_of_two_matrices() {
    let a = [1, 2, 3, 4, 5, 6];
    let b = [7, 8, 9, 10, 11, 12];
    let lhs = MatrixView::from_slice(&a, 2, 3);
    let rhs = MatrixView::from_slice(&b, 3, 2);
    let p = product(&lhs, &rhs, 0);
    assert_eq!((p.rows, p.cols), (2, 2));
    assert_eq!(p.data, vec![58, 64, 139, 154]);
}

#[test]
fn product_with_identity_gives_the_matrix_back() {
    let a = [2, 3, 4, 1, 0, 3, 8, 1, 9];
    let m = MatrixView::from_slice(&a, 3, 3);
    let id = HeapMatrix::identity(3, 0, 1);
    let left = product(&m, &id.as_view(), 0);
    let right = product(&id.as_view(), &m, 0);
    assert_eq!(left.data, a.to_vec());
    assert_eq!(right.data, a.to_vec());
}

#[test]
fn product_sums_start_from_zero() {
    // with a zero of 100 every cell is shifted by 100
    let a = [1, 2, 3, 4];
    let m = MatrixView::from_slice(&a, 2, 2);
    let p = product(&m, &m, 100);
    assert_eq!(p.data, vec![107, 110, 115, 122]);
}

#[test]
fn product_of_empty_views() {
    let e = MatrixView::<i32>::empty();
    let p = product(&e, &e, 0);
    assert_eq!((p.rows, p.cols), (0, 0));
    assert!(p.data.is_empty());
}

#[test]
fn scalar_product_multiplies_each_cell() {
    let a = [1, 2, 3, 4, 5, 6];
    let m = MatrixView::from_slice(&a, 2, 3);
    let p = scalar_product(&m, 3);
    assert_eq!((p.rows, p.cols), (2, 3));
    assert_eq!(p.data, vec![3, 6, 9, 12, 15, 18]);
}

#[test]
fn zero_and_identity_matrices() {
    let z = HeapMatrix::zero(2, 3, 0);
    assert_eq!((z.rows, z.cols), (2, 3));
    assert_eq!(z.data, vec![0; 6]);
    let id = HeapMatrix::identity(3, 0, 1);
    assert_eq!(id.data, vec![1, 0, 0, 0, 1, 0, 0, 0, 1]);
    assert!(id.as_view().is_identity(&0, &1));
    assert_eq!(HeapMatrix::<i32>::identity(0, 0, 1).data, Vec::<i32>::new());
}

#[test]
fn from_rows_lays_rows_one_after_another() {
    let m = HeapMatrix::from_rows(&vec![vec![1, 2, 3], vec![4, 5, 6]]);
    assert_eq!((m.rows, m.cols), (2, 3));
    assert_eq!(m.data, vec![1, 2, 3, 4, 5, 6]);
    let e = HeapMatrix::<i32>::from_rows(&Vec::new());
    assert_eq!((e.rows, e.cols), (0, 0));
}

#[test]
fn is_identity_checks_shape_and_cells() {
    let a = [1, 0, 0, 1];
    assert!(MatrixView::from_slice(&a, 2, 2).is_identity(&0, &1));
    let b = [1, 0, 1, 1];
    assert!(!MatrixView::from_slice(&b, 2, 2).is_identity(&0, &1));
    let c = [1, 0, 0, 0, 1, 0];
    assert!(!MatrixView::from_slice(&c, 2, 3).is_identity(&0, &1));
    assert!(MatrixView::<i32>::empty().is_identity(&0, &1));
}

#[test]
fn rank_counts_non_zero_rows() {
    let a = [1, 2, 3, 0, 1, 4, 0, 0, 0];
    assert_eq!(MatrixView::from_slice(&a, 3, 3).rank(&0), 2);
    let z = [0, 0, 0, 0];
    assert_eq!(MatrixView::from_slice(&z, 2, 2).rank(&0), 0);
}

#[test]
fn row_operations_on_heap_matrix() {
    // the examples of swap_lines, add_to_line and mul_line
    let mut m = HeapMatrix::new(vec![1, 2, 3, 4], 2, 2);
    m.swap_lines(0, 1);
    assert_eq!(m.data, vec![3, 4, 1, 2]);

    let mut m = HeapMatrix::new(vec![1, 2, 3, 4], 2, 2);
    m.add_to_line(1, 2, 0);
    assert_eq!(m.data, vec![1, 2, 5, 8]);

    let mut m = HeapMatrix::new(vec![1, 2, 3, 4], 2, 2);
    m.mul_line(0, 2);
    assert_eq!(m.data, vec![2, 4, 3, 4]);
}

#[test]
fn replaying_a_swap_twice_restores_the_matrix() {
    let start = vec![1, 2, 3, 4];
    let steps = [MatrixRowOperation::Swap(0, 1)];
    let mut m = HeapMatrix::new(start.clone(), 2, 2);
    m.replay_steps_mut(&steps);
    assert_eq!(m.data, vec![3, 4, 1, 2]);
    m.replay_steps_mut(&steps);
    assert_eq!(m.data, start);
}

#[test]
fn replay_applies_steps_in_order() {
    let steps = [
        MatrixRowOperation::Mul(0, 2),
        MatrixRowOperation::Add(1, -1, 0),
        MatrixRowOperation::Swap(0, 1),
    ];
    let mut m = HeapMatrix::new(vec![1, 2, 3, 4], 2, 2);
    m.replay_steps_mut(&steps);
    // [[2, 4], [3, 4]] -> [[2, 4], [1, 0]] -> [[1, 0], [2, 4]]
    assert_eq!(m.data, vec![1, 0, 2, 4]);
}

#[test]
fn default_row_operation_does_nothing() {
    let mut m = HeapMatrix::new(vec![1, 2, 3, 4], 2, 2);
    m.replay_steps_mut(&[MatrixRowOperation::default()]);
    assert_eq!(m.data, vec![1, 2, 3, 4]);
}

#[test]
fn heap_matrix_transpose_and_swap() {
    let m = HeapMatrix::new(vec![1, 2, 3, 4], 2, 2);
    assert_eq!(m.transpose().data, vec![1, 3, 2, 4]);
    let mut m = HeapMatrix::new(vec![1, 2, 3, 4, 5, 6, 7, 8, 9], 3, 3);
    m.swap_lines(2, 2);
    assert_eq!(m.data, vec![1, 2, 3, 4, 5, 6, 7, 8, 9]);
}
