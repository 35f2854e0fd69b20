use cpge::linear::goggles::{Goggles, IntoGoggles};

#[test]
fn exact_and_equality() {
    assert_eq!(Goggles::exact(1, 3, 0, 2), Goggles::exact(1, 3, 0, 2));
    assert_ne!(Goggles::exact(1, 3, 0, 2), Goggles::exact(1, 3, 0, 3));
}

#[test]
fn quadrants_around_pivot() {
    let q = Goggles::quadrants((2, 3));
    assert_eq!(q[0], Goggles::exact(0, 2, 0, 3));
    // the bottom-left quadrant is unbounded below: clipping it gives its rows back
    assert_eq!(q[1].make_contained(Goggles::exact(0, 10, 0, 10)), Goggles::exact(2, 10, 0, 3));
    assert_eq!(q[2].make_contained(Goggles::exact(0, 10, 0, 10)), Goggles::exact(0, 2, 3, 10));
    assert_eq!(q[3].make_contained(Goggles::exact(0, 10, 0, 10)), Goggles::exact(2, 10, 3, 10));
}

#[test]
fn shift_moves_both_axes() {
    assert_eq!(Goggles::exact(1, 3, 0, 2).shift_by((2, 5)), Goggles::exact(3, 5, 5, 7));
    let unbounded = Goggles::quadrants((1, 1))[3];
    assert_eq!(unbounded.shift_by((1, 2)), Goggles::quadrants((2, 3))[3]);
}

#[test]
fn shift_twice_is_shift_by_sum() {
    let g = Goggles::exact(1, 4, 2, 6);
    assert_eq!(g.shift_by((1, 2)).shift_by((3, 4)), g.shift_by((4, 6)));
}

#[test]
fn next_walks_rows() {
    let g = Goggles::exact(0, 2, 0, 3);
    assert_eq!(g.next((0, 0)), Some((0, 1)));
    assert_eq!(g.next((0, 2)), Some((1, 0)));
    assert_eq!(g.next((1, 2)), None);
    // unbounded columns: the walk stays on the row
    let wide = Goggles::quadrants((5, 0))[2];
    assert_eq!(wide.next((0, 7)), Some((0, 8)));
}

#[test]
fn next_visits_every_cell_in_row_major_order() {
    let g = Goggles::exact(3, 5, 1, 4);
    let mut pos = Some((0, 0));
    let mut seen = Vec::new();
    while let Some(p) = pos {
        seen.push(p);
        pos = g.next(p);
    }
    assert_eq!(seen, vec![(0, 0), (0, 1), (0, 2), (1, 0), (1, 1), (1, 2)]);
    assert_eq!(g.size(), Some(seen.len()));
}

#[test]
fn nth_steps() {
    let g = Goggles::exact(0, 3, 0, 4);
    assert_eq!(g.nth((0, 0), 0), Some((0, 0)));
    assert_eq!(g.nth((0, 1), 2), Some((0, 3)));
    assert_eq!(g.nth((0, 1), 3), Some((1, 0)));
    assert_eq!(g.nth((0, 1), 9), Some((2, 2)));
    // past the last cell
    assert_eq!(g.nth((0, 1), 12), None);
    // a start outside the columns
    assert_eq!(g.nth((0, 4), 1), None);
    // unbounded columns
    assert_eq!(Goggles::quadrants((5, 0))[2].nth((1, 2), 10), Some((1, 12)));
}

#[test]
fn nth_enumerates_row_major() {
    let g = Goggles::exact(2, 5, 1, 3);
    for k in 0..6 {
        assert_eq!(g.nth((0, 0), k), Some((k / 2, k % 2)));
        assert!(g.is_relative_in((k / 2, k % 2)));
    }
}

#[test]
fn nth_one_agrees_with_next_inside() {
    let g = Goggles::exact(0, 3, 0, 3);
    for r in 0..3 {
        for c in 0..3 {
            if (r, c) != (2, 2) {
                assert_eq!(g.nth((r, c), 1), g.next((r, c)));
            }
        }
    }
    // from the last cell, next stops but nth goes to the next row start
    assert_eq!(g.next((2, 2)), None);
    assert_eq!(g.nth((2, 2), 1), Some((3, 0)));
}

#[test]
fn compose_reads_relatively() {
    let outer = Goggles::exact(2, 6, 1, 5);
    assert!(outer.can_compose_with(Goggles::exact(1, 3, 0, 2)));
    assert_eq!(outer.compose(Goggles::exact(1, 3, 0, 2)), Some(Goggles::exact(3, 5, 1, 3)));
    // a target that leaves the outer region
    assert!(!outer.can_compose_with(Goggles::exact(1, 5, 0, 2)));
    assert_eq!(outer.compose(Goggles::exact(1, 5, 0, 2)), None);
    // an unbounded target takes the outer bound
    let from_1 = Goggles::quadrants((1, 1))[3];
    assert_eq!(outer.compose(from_1), Some(Goggles::exact(3, 6, 2, 5)));
}

#[test]
fn compose_is_associative() {
    let o = Goggles::exact(1, 20, 2, 20);
    let t = Goggles::exact(2, 10, 1, 10);
    let s = Goggles::exact(1, 4, 3, 5);
    let left = o.compose(t).unwrap().compose(s).unwrap();
    let right = o.compose(t.compose(s).unwrap()).unwrap();
    assert_eq!(left, right);
}

#[test]
fn compose_from_zero_is_clipping() {
    let whole = Goggles::exact(0, 4, 0, 5);
    let t = Goggles::exact(1, 3, 2, 5);
    assert_eq!(whole.compose(t), Some(whole.make_contained(t)));
}

#[test]
fn make_contained_intersects() {
    let a = Goggles::exact(0, 5, 2, 8);
    let b = Goggles::exact(3, 9, 0, 4);
    assert_eq!(a.make_contained(b), Goggles::exact(3, 5, 2, 4));
    assert_eq!(a.make_contained(b), b.make_contained(a));
    assert_eq!(a.make_contained(a), a);
    let c = Goggles::exact(4, 6, 3, 7);
    assert_eq!(a.make_contained(b).make_contained(c), a.make_contained(b.make_contained(c)));
}

#[test]
fn into_region_clips_to_matrix() {
    assert_eq!(Goggles::exact(1, 9, 2, 3).into_region((4, 5)), ((1, 4), (2, 3)));
    assert_eq!(Goggles::quadrants((2, 1))[3].into_region((4, 5)), ((2, 4), (1, 5)));
}

#[test]
fn size_counts_cells() {
    assert_eq!(Goggles::exact(1, 4, 2, 7).size(), Some(15));
    assert_eq!(Goggles::exact(3, 3, 0, 7).size(), Some(0));
    assert_eq!(Goggles::quadrants((0, 0))[3].size(), None);
    // an empty axis makes the region empty even when the other is unbounded
    assert_eq!(Goggles::quadrants((0, 0))[1].size(), Some(0));
}

#[test]
fn is_relative_in_checks_both_axes() {
    let g = Goggles::exact(1, 4, 2, 7);
    assert!(g.is_relative_in((2, 4)));
    assert!(!g.is_relative_in((3, 0)));
    assert!(!g.is_relative_in((0, 5)));
    assert!(!Goggles::exact(2, 2, 0, 3).is_relative_in((0, 0)));
    assert!(Goggles::quadrants((0, 0))[3].is_relative_in((100, 100)));
}

#[test]
fn into_goggles_conversions() {
    assert_eq!(Goggles::exact(1, 2, 3, 4).into_goggles(), Goggles::exact(1, 2, 3, 4));
    // a row index selects that row and every column
    assert_eq!(2usize.into_goggles().make_contained(Goggles::exact(0, 9, 0, 9)), Goggles::exact(2, 3, 0, 9));
    assert_eq!((..).into_goggles(), Goggles::quadrants((0, 0))[3]);
    // a pair gives the rows then the columns
    assert_eq!((1usize, 3usize).into_goggles(), Goggles::exact(1, 2, 3, 4));
    assert_eq!((.., 2usize).into_goggles().make_contained(Goggles::exact(0, 5, 0, 5)), Goggles::exact(0, 5, 2, 3));
}
