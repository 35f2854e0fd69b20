use cpge::linear::goggles::Goggles;
use cpge::linear::heap_matrix::HeapMatrix;
use cpge::linear::matrix::{column_widths, Matrix};
use cpge::linear::vector::Vector;
use cpge::linear::view::MatrixView;

#[test]
fn transpose_example() {
    let start: Matrix<i32, 2, 3> = Matrix::from_array([[1, 2, 3], [4, 5, 6]]);
    let transposed: Matrix<i32, 3, 2> = start.transpose(0);
    assert_eq!(transposed, Matrix::from_array([[1, 4], [2, 5], [3, 6]]));
    assert_eq!(transposed.transpose(0), start);

    // the columns of a matrix are the rows of its transpose
    let from_cols: Vec<Vector<i32, 2>> = start.as_view().to_vectors(0);
    let from_rows: Vec<Vector<i32, 2>> = transposed.as_view().to_row_vectors(0);
    assert_eq!(from_cols.len(), 3);
    assert_eq!(from_cols, from_rows);
}

#[test]
fn heap_matrix_transpose_of_a_wide_matrix() {
    let m = HeapMatrix::new(vec![1, 2, 3, 4, 5, 6], 2, 3);
    let t = m.transpose();
    assert_eq!((t.rows, t.cols), (3, 2));
    assert_eq!(t.data, vec![1, 4, 2, 5, 3, 6]);
    let back = t.transpose();
    assert_eq!((back.rows, back.cols), (2, 3));
    assert_eq!(back.data, m.data);
    let view = MatrixView::from_slice(&m.data, 2, 3);
    assert_eq!(view.transpose().data, vec![1, 4, 2, 5, 3, 6]);
    let rows: Vec<Vector<i32, 3>> = view.to_row_vectors(0);
    assert_eq!(rows[1].scalars, [4, 5, 6]);
}

#[test]
fn identity_and_product() {
    let m: Matrix<i32, 3, 3> = Matrix::identity(0, 1);
    for i in 0..3 {
        for j in 0..3 {
            assert_eq!(*m.index((i, j)), (i == j) as i32);
        }
    }
    // AI = IA = A
    let a = Matrix::from_array([[2, 3, 4], [1, 0, 3], [8, 1, 9]]);
    assert_eq!(a.product(&m, 0), m.product(&a, 0));
    assert_eq!(a.product(&m, 0), a);
}

#[test]
fn product_of_rectangular_matrices() {
    let a: Matrix<i32, 2, 3> = Matrix::from_array([[1, 2, 3], [4, 5, 6]]);
    let b: Matrix<i32, 3, 2> = Matrix::from_array([[7, 8], [9, 10], [11, 12]]);
    assert_eq!(a.product(&b, 0), Matrix::from_array([[58, 64], [139, 154]]));
}

#[test]
fn sum_and_zero() {
    let a = Matrix::from_array([[1, 2], [3, 4]]);
    let z: Matrix<i32, 2, 2> = Matrix::zero(0);
    assert_eq!(a.sum(&z), a);
    assert_eq!(a.sum(&a), Matrix::from_array([[2, 4], [6, 8]]));
}

#[test]
fn matrix_times_vector() {
    let a = Matrix::from_array([[1, 2], [3, 4]]);
    let v = Vector::new([5, 6]);
    assert_eq!(a.mul_vector(&v, 0).scalars, [17, 39]);
}

#[test]
fn set_and_set_row() {
    let mut a = Matrix::from_array([[1, 2], [3, 4]]);
    a.set((0, 1), 9);
    assert_eq!(a.data, [[1, 9], [3, 4]]);
    assert!(a.set_row(1, &[7, 8]));
    assert_eq!(a.data, [[1, 9], [7, 8]]);
    assert!(!a.set_row(2, &[0, 0]));
    assert_eq!(a.data, [[1, 9], [7, 8]]);
}

#[test]
fn into_heap_and_back() {
    let a = Matrix::from_array([[1, 2, 3], [4, 5, 6]]);
    let h = a.into_heap();
    assert_eq!((h.rows, h.cols), (2, 3));
    assert_eq!(h.data, vec![1, 2, 3, 4, 5, 6]);
    let back: Result<Matrix<i32, 2, 3>, HeapMatrix<i32>> = Matrix::try_from_heap(h, 0);
    assert_eq!(back.ok(), Some(a));

    // wrong size gives the matrix back
    let h = HeapMatrix::new(vec![1, 2, 3, 4], 2, 2);
    let back: Result<Matrix<i32, 2, 3>, HeapMatrix<i32>> = Matrix::try_from_heap(h, 0);
    match back {
        Err(h) => assert_eq!(h.data, vec![1, 2, 3, 4]),
        Ok(_) => panic!("expected the matrix back"),
    }
}

#[test]
fn from_rows_takes_the_first_values() {
    let m: Matrix<i32, 2, 2> = Matrix::from_rows(&vec![vec![1, 2, 99], vec![3, 4]], 0);
    assert_eq!(m.data, [[1, 2], [3, 4]]);
}

#[test]
fn views_of_a_matrix() {
    let a = Matrix::from_array([[1, 2, 3], [4, 5, 6], [7, 8, 9]]);
    let v = a.as_view();
    assert_eq!(v.dim(), (3, 3));
    assert_eq!(v.get((2, 1)), Some(&8));
    let sub = a.view(Goggles::exact(1, 3, 1, 3));
    assert_eq!(sub.get().get((0, 0)), Some(&5));
    assert_eq!(sub.get().dim(), (2, 2));
}

#[test]
fn vectors_and_matrices_agree() {
    // from_row_vectors(&v) = from_vectors(&v).transpose()
    let vectors = [Vector::new([1, 2]), Vector::new([3, 4])];
    let cols = HeapMatrix::from_vectors(&vectors);
    let rows = HeapMatrix::from_row_vectors(&vectors);
    assert_eq!(cols.transpose().data, rows.data);
}

#[test]
fn view_to_matrix_and_vectors() {
    let data = [1, 2, 3, 4, 5, 6];
    let v = MatrixView::from_slice(&data, 2, 3);
    let m: Option<Matrix<i32, 2, 3>> = v.to_matrix(0);
    assert_eq!(m, Some(Matrix::from_array([[1, 2, 3], [4, 5, 6]])));
    let wrong: Option<Matrix<i32, 3, 2>> = v.to_matrix(0);
    assert_eq!(wrong, None);

    let cols: Vec<Vector<i32, 2>> = v.to_vectors(0);
    assert_eq!(cols.len(), 3);
    assert_eq!(cols[0].scalars, [1, 4]);
    assert_eq!(cols[2].scalars, [3, 6]);

    let square = [1, 2, 3, 4];
    let s = MatrixView::from_slice(&square, 2, 2);
    let rows: Vec<Vector<i32, 2>> = s.to_row_vectors(0);
    assert_eq!(rows[0].scalars, [1, 2]);
    assert_eq!(rows[1].scalars, [3, 4]);
}

#[test]
fn matrix_round_trip_through_the_heap() {
    let m = Matrix::from_array([[1, 2, 3], [4, 5, 6]]);
    let h = m.into_heap();
    let back: Matrix<i32, 2, 3> = Matrix::from_matrix(&h.as_view(), 0);
    assert_eq!(back, m);
}

#[test]
fn vector_round_trip_through_a_matrix() {
    let v = Vector::new([7, 8, 9]);
    let h = v.into_matrix();
    assert_eq!((h.rows, h.cols), (3, 1));
    assert_eq!(h.data, vec![7, 8, 9]);
    let w: Vector<i32, 3> = Vector::from_matrix(&h.as_view(), 0);
    assert_eq!(w, v);
    // a column of a larger matrix
    let big = HeapMatrix::new(vec![1, 2, 3, 4, 5, 6], 3, 2);
    let column = big.view(Goggles::exact(0, 3, 1, 2));
    let u: Vector<i32, 3> = Vector::from_matrix(column.get(), 0);
    assert_eq!(u.scalars, [2, 4, 6]);
}

#[test]
fn widths_of_printed_columns() {
    let lengths = vec![vec![1, 4, 2], vec![3, 1, 2], vec![2, 2, 5]];
    assert_eq!(column_widths(&lengths, 3), vec![3, 4, 5]);
    assert_eq!(column_widths(&vec![], 2), vec![0, 0]);
}

#[test]
fn heap_matrices_compare_by_cells() {
    let a = HeapMatrix::new(vec![1, 2, 3, 4], 2, 2);
    let b = a.clone();
    assert!(a == b);
    assert!(a != HeapMatrix::new(vec![1, 2, 3, 5], 2, 2));
    assert!(a != HeapMatrix::new(vec![1, 2, 3, 4], 1, 4));
    // matrices without cells are equal whatever their sizes
    assert!(HeapMatrix::<i32>::new(vec![], 0, 3) == HeapMatrix::new(vec![], 5, 0));
    // a matrix whose data is too short is equal to none
    assert!(HeapMatrix::new(vec![1, 2], 2, 2) != HeapMatrix::new(vec![1, 2], 2, 2));
}
