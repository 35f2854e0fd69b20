use cpge::polynomials::poly::HeapPolynomial;

#[test]
fn apply_evaluates_by_horner() {
    // 1 + 2x at x = 2
    let f = HeapPolynomial::new(vec![1, 2]);
    assert_eq!(f.apply(2, 0), 5);
    // 3 - x + x^3 at x = 2
    let g = HeapPolynomial::new(vec![3, -1, 0, 1]);
    assert_eq!(g.apply(2, 0), 9);
    assert_eq!(HeapPolynomial::<i32>::zero().apply(7, 0), 0);
}

#[test]
fn degree_is_last_non_zero_coefficient() {
    assert_eq!(HeapPolynomial::new(vec![0, 2, 1]).degree(&0), Some(2));
    assert_eq!(HeapPolynomial::new(vec![4, 0, 0]).degree(&0), Some(0));
    assert_eq!(HeapPolynomial::new(vec![0, 0]).degree(&0), None);
    assert_eq!(HeapPolynomial::<i32>::zero().degree(&0), None);
    assert!(HeapPolynomial::new(vec![0, 0]).is_zero(&0));
    assert!(!HeapPolynomial::one(1).is_zero(&0));
}

#[test]
fn derivative_examples() {
    // 2x + x^2 gives 2 + 2x
    let mut f = HeapPolynomial::new(vec![0, 2, 1]);
    f.derivative_mut(&[1, 2], &0);
    assert_eq!(f.coefficients, vec![2, 2]);

    // second derivative of 2x + x^2 + x^3 is 2 + 6x
    let mut g = HeapPolynomial::new(vec![0, 2, 1, 1]);
    g.derivative_mut(&[1, 2, 3], &0);
    g.derivative_mut(&[1, 2], &0);
    assert_eq!(g.coefficients, vec![2, 6]);
}

#[test]
fn derivative_of_constant_is_zero() {
    let mut c = HeapPolynomial::new(vec![5, 0]);
    c.derivative_mut(&[1], &0);
    assert_eq!(c.coefficients, vec![0, 0]);
    let mut e = HeapPolynomial::<i32>::zero();
    e.derivative_mut(&[], &0);
    assert!(e.coefficients.is_empty());
}

#[test]
fn compact_keeps_degree_coefficients() {
    let mut f = HeapPolynomial::new(vec![1, 2, 0, 0]);
    f.compact(&0);
    assert_eq!(f.coefficients, vec![1]);
    let mut z = HeapPolynomial::new(vec![0, 0]);
    z.compact(&0);
    assert!(z.coefficients.is_empty());
}

#[test]
fn set_zero_keeps_length() {
    let mut f = HeapPolynomial::new(vec![1, 2, 3]);
    f.set_zero(0);
    assert_eq!(f.coefficients, vec![0, 0, 0]);
}

#[test]
fn sum_and_scale() {
    let f = HeapPolynomial::new(vec![1, 2]);
    let g = HeapPolynomial::new(vec![3, 4, 5]);
    assert_eq!(f.sum(&g).coefficients, vec![4, 6, 5]);
    assert_eq!(g.sum(&f).coefficients, vec![4, 6, 5]);
    assert_eq!(g.scale(2).coefficients, vec![6, 8, 10]);
}

#[test]
fn product_with_zero_polynomial() {
    let f = HeapPolynomial::new(vec![1, 2]);
    let z = HeapPolynomial::new(vec![0, 0]);
    assert!(f.product(&z, &0).coefficients.is_empty());
    assert!(z.product(&f, &0).coefficients.is_empty());
}

#[test]
fn zero_and_one() {
    assert!(HeapPolynomial::<i32>::zero().coefficients.is_empty());
    assert_eq!(HeapPolynomial::one(1).coefficients, vec![1]);
}

#[test]
fn nth_derivative_examples() {
    // second derivative of 2x + x^2 + x^3 is 2 + 6x
    let g = HeapPolynomial::new(vec![0, 2, 1, 1]);
    assert_eq!(g.nth_derivative(2, &[1, 2, 3], &0).coefficients, vec![2, 6]);
    // the first derivative by itself
    assert_eq!(g.derivative(&[1, 2, 3], &0).coefficients, vec![2, 2, 3]);
    // no derivative at all: the same coefficients
    assert_eq!(g.nth_derivative(0, &[], &0).coefficients, vec![0, 2, 1, 1]);
    // past the degree every coefficient is zero
    assert_eq!(g.nth_derivative(4, &[1, 2, 3], &0).coefficients, vec![0]);
}

#[test]
fn nth_derivative_mut_zero_clears() {
    let mut g = HeapPolynomial::new(vec![4, 2, 1]);
    g.nth_derivative_mut(0, &[], &0);
    assert_eq!(g.coefficients, vec![0, 0, 0]);
    let mut h = HeapPolynomial::new(vec![4, 2, 1]);
    h.nth_derivative_mut(1, &[1, 2], &0);
    assert_eq!(h.coefficients, vec![2, 2]);
}

#[test]
fn taylor_coefficients_are_derivative_values() {
    // f = 1 + 2x + 3x^2: f(0) = 1, f'(0) = 2, f''(0) = 6
    let f = HeapPolynomial::new(vec![1, 2, 3]);
    let t = f.taylor(0, &[1, 2], &0);
    assert_eq!(t.point, 0);
    assert_eq!(t.coefficients, vec![1, 2, 6]);
    // at 1: f(1) = 6, f'(1) = 8, f''(1) = 6
    let t1 = f.taylor(1, &[1, 2], &0);
    assert_eq!(t1.point, 1);
    assert_eq!(t1.coefficients, vec![6, 8, 6]);
    // the zero polynomial has none
    let z = HeapPolynomial::new(vec![0, 0]);
    assert!(z.taylor(3, &[1], &0).coefficients.is_empty());
}

#[test]
fn taylor_at_0_multiplies_by_factorials() {
    let f = HeapPolynomial::new(vec![1, 2, 3, 4]);
    let t = f.taylor_at_0(&[1, 1, 2, 6], 0);
    assert_eq!(t.point, 0);
    assert_eq!(t.coefficients, vec![1, 2, 6, 24]);
    // it agrees with the values of the derivatives at zero
    let by_values = f.taylor(0, &[1, 2, 3], &0);
    assert_eq!(by_values.coefficients, t.coefficients);
}
