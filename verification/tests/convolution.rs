use cpge::linear::view::MatrixView;

#[test]
fn convolution_by_diagonal_kernel() {
    let input = [1, 2, 3, 4, 5, 6, 7, 8, 9];
    let kernel = [1, 0, 0, 1];
    let m = MatrixView::from_slice(&input, 3, 3);
    let k = MatrixView::from_slice(&kernel, 2, 2);
    let mut rows = m.convolution(&k, 0);
    assert_eq!(rows.size_hint(), (2, Some(2)));
    let mut out = Vec::new();
    while let Some(mut row) = rows.next() {
        assert_eq!(row.size_hint(), (2, Some(2)));
        let mut values = Vec::new();
        while let Some(v) = row.next() {
            values.push(v);
        }
        assert_eq!(row.size_hint(), (0, Some(0)));
        out.push(values);
    }
    assert_eq!(out, vec![vec![6, 8], vec![12, 14]]);
    assert_eq!(rows.size_hint(), (0, Some(0)));
}

#[test]
fn convolution_by_whole_matrix_gives_one_value() {
    let input = [1, 2, 3, 4];
    let m = MatrixView::from_slice(&input, 2, 2);
    let mut rows = m.convolution(&m, 0);
    let mut row = rows.next().unwrap();
    assert_eq!(row.next(), Some(1 + 4 + 9 + 16));
    assert_eq!(row.next(), None);
    assert!(rows.next().is_none());
}

#[test]
fn convolution_by_row_kernel() {
    let input = [1, 2, 3, 4, 5, 6];
    let kernel = [1, 1];
    let m = MatrixView::from_slice(&input, 2, 3);
    let k = MatrixView::from_slice(&kernel, 1, 2);
    let mut rows = m.convolution(&k, 0);
    let mut first = rows.next().unwrap();
    assert_eq!(first.next(), Some(3));
    assert_eq!(first.next(), Some(5));
    assert_eq!(first.next(), None);
    let mut second = rows.next().unwrap();
    assert_eq!(second.next(), Some(9));
    assert_eq!(second.next(), Some(11));
    assert_eq!(second.next(), None);
    assert!(rows.next().is_none());
}
