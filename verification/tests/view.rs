use cpge::linear::goggles::Goggles;
use cpge::linear::heap_matrix::HeapMatrix;
use cpge::linear::iter::Positions;
use cpge::linear::view::{InvertError, MatrixView};

fn cells(v: &MatrixView<'_, i32>) -> Vec<i32> {
    let mut out = Vec::new();
    let mut values = v.values();
    while let Some(x) = values.next() {
        out.push(*x);
    }
    out
}

#[test]
fn whole_view_shape() {
    let data = [1, 2, 3, 4, 5, 6];
    let v = MatrixView::from_slice(&data, 2, 3);
    assert_eq!(v.dim(), (2, 3));
    assert_eq!(v.count_rows(), 2);
    assert_eq!(v.count_cols(), 3);
    assert!(!v.is_empty());
    assert_eq!(v.is_square(), None);
    assert_eq!(v.exact_goggles(), Goggles::exact(0, 2, 0, 3));
    assert_eq!(v.get((1, 2)), Some(&6));
    assert_eq!(v.get((2, 0)), None);
    assert!(v.is_pos_in((1, 0)));
    assert!(!v.is_pos_in((0, 3)));
}

#[test]
fn empty_view() {
    let v = MatrixView::<i32>::empty();
    assert_eq!(v.dim(), (0, 0));
    assert!(v.is_empty());
    assert_eq!(v.get((0, 0)), None);
    // a view with no column has no row either
    let data = [1, 2];
    assert_eq!(MatrixView::from_slice(&data, 2, 0).dim(), (0, 0));
}

#[test]
fn sub_view_sees_the_region() {
    let data = [1, 2, 3, 4, 5, 6, 7, 8, 9];
    let v = MatrixView::from_slice(&data, 3, 3);
    let sub = v.view(Goggles::exact(1, 3, 0, 2));
    assert_eq!(sub.get().dim(), (2, 2));
    assert_eq!(cells(sub.get()), vec![4, 5, 7, 8]);
    let row = v.view(1usize);
    assert_eq!(cells(row.get()), vec![4, 5, 6]);
    let col = v.view((.., 2usize));
    assert_eq!(cells(col.get()), vec![3, 6, 9]);
    // a region that does not fit gives an empty view
    let none = v.view(Goggles::exact(1, 4, 0, 2));
    assert!(none.get().is_empty());
}

#[test]
fn quadrants_of_view() {
    let data = [1, 2, 3, 4, 5, 6, 7, 8, 9];
    let v = MatrixView::from_slice(&data, 3, 3);
    let q = v.quadrants((1, 2)).unwrap();
    assert_eq!(cells(q[0].get()), vec![1, 2]);
    assert_eq!(cells(q[1].get()), vec![4, 5, 7, 8]);
    assert_eq!(cells(q[2].get()), vec![3]);
    assert_eq!(cells(q[3].get()), vec![6, 9]);
    // a pivot on the edge leaves an empty quadrant
    assert!(v.quadrants((0, 1)).is_none());
    assert!(v.quadrants((1, 4)).is_none());
    assert!(v.quadrants((3, 1)).is_none());

    // the four single cells of a 2 x 2 matrix around its middle
    let small = [1, 2, 3, 4];
    let w = MatrixView::from_slice(&small, 2, 2);
    let q = w.quadrants((1, 1)).unwrap();
    assert_eq!(cells(q[0].get()), vec![1]);
    assert_eq!(cells(q[1].get()), vec![3]);
    assert_eq!(cells(q[2].get()), vec![2]);
    assert_eq!(cells(q[3].get()), vec![4]);
}

#[test]
fn row_and_col_iterators() {
    let data = [1, 2, 3, 4];
    let m = MatrixView::from_slice(&data, 2, 2);
    let mut iter = m.row(1);
    assert_eq!(iter.next(), Some(&3));
    assert_eq!(iter.next(), Some(&4));
    assert_eq!(iter.next(), None);
    assert_eq!(m.row(2).size_hint(), (0, Some(0)));

    let mut iter = m.col(0);
    assert_eq!(iter.next(), Some(&1));
    assert_eq!(iter.next(), Some(&3));
    assert_eq!(iter.next(), None);
    assert_eq!(m.col(2).size_hint().0, 0);

    let mut back = m.row(0);
    assert_eq!(back.next_back(), Some(&2));
    assert_eq!(back.size_hint(), (1, Some(1)));
    assert_eq!(back.next(), Some(&1));
    assert_eq!(back.next_back(), None);
}

#[test]
fn rows_and_cols_iterators() {
    let data = [1, 0, 0, 0, 1, 0, 0, 0, 1];
    let m = MatrixView::from_slice(&data, 3, 3);
    let mut rows = m.rows();
    assert_eq!(rows.next(), Some(vec![&1, &0, &0]));
    assert_eq!(rows.next(), Some(vec![&0, &1, &0]));
    assert_eq!(rows.next_back(), Some(vec![&0, &0, &1]));
    assert_eq!(rows.next(), None);

    let data = [1, 2, 3, 4, 5, 6];
    let m = MatrixView::from_slice(&data, 2, 3);
    let mut cols = m.cols();
    assert_eq!(cols.size_hint(), (3, Some(3)));
    assert_eq!(cols.next(), Some(vec![&1, &4]));
    assert_eq!(cols.next_back(), Some(vec![&3, &6]));
    assert_eq!(cols.next(), Some(vec![&2, &5]));
    assert_eq!(cols.next(), None);
}

#[test]
fn row_and_col_arrays() {
    let data = [1, 2, 3, 4, 5, 6];
    let m = MatrixView::from_slice(&data, 2, 3);
    assert_eq!(m.get_row_array(1), Some(vec![&4, &5, &6]));
    assert_eq!(m.get_row_array(2), None);
    assert_eq!(m.get_col_array(2), Some(vec![&3, &6]));
    assert_eq!(m.get_col_array(3), None);
}

#[test]
fn values_in_row_major_order() {
    let data = [1, 2, 3, 4, 5, 6];
    let m = MatrixView::from_slice(&data, 2, 3);
    assert_eq!(m.values().size_hint(), (6, Some(6)));
    assert_eq!(cells(&m), vec![1, 2, 3, 4, 5, 6]);
}

#[test]
fn to_heap_and_transpose() {
    let data = [1, 2, 3, 4, 5, 6, 7, 8, 9];
    let m = MatrixView::from_slice(&data, 3, 3);
    let h = m.view(Goggles::exact(0, 2, 1, 3)).get().to_heap();
    assert_eq!((h.rows, h.cols), (2, 2));
    assert_eq!(h.data, vec![2, 3, 5, 6]);
    let t = m.transpose();
    assert_eq!(t.data, vec![1, 4, 7, 2, 5, 8, 3, 6, 9]);
    assert_eq!(MatrixView::<i32>::empty().to_heap().data, Vec::<i32>::new());
}

#[test]
fn heap_matrix_view_and_index() {
    let m = HeapMatrix::new(vec![1, 2, 3, 4, 5, 6], 2, 3);
    assert_eq!(*m.index((1, 1)), 5);
    let v = m.view((1usize, ..));
    assert_eq!(cells(v.get()), vec![4, 5, 6]);
    let e = HeapMatrix::<i32>::empty();
    assert_eq!((e.rows, e.cols), (0, 0));
}

#[test]
fn invert_error_variants() {
    assert_ne!(InvertError::NotSquare, InvertError::NotInvertible);
    assert!(InvertError::NotSquare < InvertError::NotInvertible);
}

#[test]
fn views_compare_by_size_and_cells() {
    let a = [1, 2, 3, 4, 5, 6];
    let b = [9, 1, 2, 3, 4, 5, 6];
    let m = MatrixView::from_slice(&a, 2, 3);
    let n = MatrixView::from_slice(&b[1..], 2, 3);
    assert!(m == n);
    let t = MatrixView::from_slice(&a, 3, 2);
    assert!(m != t);
    let sub = m.view(Goggles::exact(0, 1, 0, 3));
    let row = MatrixView::from_slice(&a[..3], 1, 3);
    assert!(*sub.get() == row);
    let c = [1, 2, 3, 4, 5, 7];
    assert!(m != MatrixView::from_slice(&c, 2, 3));
}

#[test]
fn views_through_ranges() {
    let data = [1, 2, 3, 4, 5, 6, 7, 8, 9];
    let v = MatrixView::from_slice(&data, 3, 3);
    assert_eq!(cells(v.view(1usize..).get()), vec![4, 5, 6, 7, 8, 9]);
    assert_eq!(cells(v.view(..1usize).get()), vec![1, 2, 3]);
    assert_eq!(cells(v.view(..=1usize).get()), vec![1, 2, 3, 4, 5, 6]);
    assert_eq!(cells(v.view(1usize..=1).get()), vec![4, 5, 6]);
    assert_eq!(cells(v.view((..2usize, 1usize..=2)).get()), vec![2, 3, 5, 6]);
    assert_eq!(cells(v.view((2usize.., ..)).get()), vec![7, 8, 9]);
}

#[test]
fn positions_walk_the_region_in_row_major_order() {
    let mut p = Positions::new(vec![10, 20, 30, 40, 50].into_iter(), Goggles::exact(0, 2, 0, 2));
    let mut got = Vec::new();
    while let Some(x) = p.next() {
        got.push(x);
    }
    assert_eq!(got, vec![((0, 0), 10), ((0, 1), 20), ((1, 0), 30), ((1, 1), 40)]);

    // from a later position, and stopping when the items run out
    let mut q = Positions::new_at(vec![7, 8].into_iter(), Goggles::exact(0, 3, 0, 2), (1, 1));
    assert_eq!(q.next(), Some(((1, 1), 7)));
    assert_eq!(q.next(), Some(((2, 0), 8)));
    assert_eq!(q.next(), None);
}
