use cpge::gl::event::KeyEvent;
use cpge::linear::heap_matrix::HeapMatrix;
use cpge::linear::vector::Vector;

#[test]
fn vector_arithmetic() {
    let u = Vector::new([1, 2, 3]);
    let v = Vector::new([3, 2, 1]);
    assert_eq!(u.sum(&v).scalars, [4, 4, 4]);
    assert_eq!(u.difference(&v).scalars, [-2, 0, 2]);
    assert_eq!(u.scale(2).scalars, [2, 4, 6]);
    assert_eq!(*u.index(1), 2);
}

#[test]
fn dot_product_example() {
    let u = Vector::new([1, 2, 3]);
    let v = Vector::new([3, 2, 1]);
    assert_eq!(u.dot(&v, 0), 10);
    assert_eq!(u.norm_squared(0), 14);
}

#[test]
fn cross_product() {
    let x = Vector::new([1, 0, 0]);
    let y = Vector::new([0, 1, 0]);
    assert_eq!(x.cross(&y).scalars, [0, 0, 1]);
    assert_eq!(y.cross(&x).scalars, [0, 0, -1]);
    let a = Vector::new([1, 2, 3]);
    let b = Vector::new([4, 5, 6]);
    assert_eq!(a.cross(&b).scalars, [-3, 6, -3]);
}

#[test]
fn zero_vector() {
    assert!(Vector::new([0, 0]).is_zero(&0));
    assert!(!Vector::new([0, 1]).is_zero(&0));
}

#[test]
fn matrices_from_vectors() {
    let vectors = [Vector::new([1, 2, 3]), Vector::new([4, 5, 6])];
    let rows = HeapMatrix::from_row_vectors(&vectors);
    assert_eq!((rows.rows, rows.cols), (2, 3));
    assert_eq!(rows.data, vec![1, 2, 3, 4, 5, 6]);

    let square = [Vector::new([1, 2]), Vector::new([3, 4])];
    let cols = HeapMatrix::from_vectors(&square);
    assert_eq!((cols.rows, cols.cols), (2, 2));
    assert_eq!(cols.data, vec![1, 3, 2, 4]);

    let none: [Vector<i32, 2>; 0] = [];
    let empty = HeapMatrix::from_vectors(&none);
    assert_eq!((empty.rows, empty.cols), (2, 0));
    assert!(empty.data.is_empty());
}

#[test]
fn get_mut_writes_the_cell() {
    let mut m = HeapMatrix::new(vec![1, 2, 3, 4, 5, 6], 2, 3);
    *m.get_mut((1, 2)).unwrap() = 60;
    assert_eq!(m.data, vec![1, 2, 3, 4, 5, 60]);
    assert!(m.get_mut((2, 0)).is_none());
    assert!(m.get_mut((0, 3)).is_none());
}

#[test]
fn transpose_of_matrix_without_rows() {
    let m: HeapMatrix<i32> = HeapMatrix::new(Vec::new(), 0, 3);
    let t = m.transpose();
    assert_eq!((t.rows, t.cols), (3, 0));
    assert!(t.data.is_empty());
}

#[test]
fn key_event_fields() {
    let k = KeyEvent {
        key: String::from("a"),
        caps: false,
        shift: true,
        control: false,
        alt: false,
        meta: false,
        function: false,
    };
    let c = k.clone();
    assert_eq!(c.key, "a");
    assert!(c.shift);
}

#[test]
fn dot_product_is_symmetric() {
    let u = Vector::new([3i64, -1, 4]);
    let v = Vector::new([2i64, 7, -5]);
    assert_eq!(u.dot(&v, 0), v.dot(&u, 0));
    assert_eq!(u.dot(&v, 0), -21);
}
