use cpge::complex::construct_from_usize;
use cpge::complex::BasicComplex::{self, Complex, Imaginary, Real, Zero};

#[test]
fn test_construct_from_usize() {
    let s: &[(f64, usize)] = &[
        (3.0, 3),
        (52.0, 52),
    ];

    for &(f, n) in s {
        let g: f64 = construct_from_usize(n, 1.0);

        assert_eq!(f, g);
    }
}

#[test]
fn construct_one_and_integers() {
    assert_eq!(construct_from_usize(1, 1i64), 1);
    assert_eq!(construct_from_usize(7, 1i64), 7);
}

#[test]
fn conjugate_flips_imaginary_part() {
    let z = Complex(1.0, 2.0);
    assert_eq!(z.conjugate(0.0), Complex(1.0, -2.0));
    assert_eq!(Imaginary(3).conjugate(0), Imaginary(-3));
    assert_eq!(Real(4).conjugate(0), Real(4));
    assert_eq!(BasicComplex::<i32>::Zero.conjugate(0), Zero);
}

#[test]
fn compact_examples() {
    assert_eq!(Real(0).compact(&0), Zero);
    assert_eq!(Complex(1, 0).compact(&0), Real(1));
    assert_eq!(Complex(0, 1).compact(&0), Imaginary(1));
    assert_eq!(Complex(0, 0).compact(&0), Zero);
    // identity if it cannot be compacted
    assert_eq!(Imaginary(1).compact(&0), Imaginary(1));
    assert_eq!(Complex(1, 1).compact(&0), Complex(1, 1));
}

#[test]
fn parts_of_a_complex() {
    assert_eq!(Complex(1, 2).into_pair(0), [1, 2]);
    assert_eq!(Imaginary(3).into_pair(0), [0, 3]);
    assert_eq!(BasicComplex::<i32>::Zero.into_pair(0), [0, 0]);
    assert_eq!(Real(5).re(0), 5);
    assert_eq!(Real(5).im(0), 0);
    assert_eq!(Complex(5, 6).im(0), 6);
    assert_eq!(Imaginary(2).re(0), 0);
    assert_eq!(BasicComplex::i(1), Imaginary(1));
    assert_eq!(BasicComplex::<i32>::default(), Zero);
}

#[test]
fn sums_and_differences() {
    assert_eq!(Complex(1, 2).sum(Complex(3, 4), 0), Complex(4, 6));
    assert_eq!(Real(1).sum(Imaginary(2), 0), Complex(1, 2));
    assert_eq!(Zero.add_real(3, &0), Real(3));
    assert_eq!(Imaginary(2).add_real(3, &0), Complex(3, 2));
    assert_eq!(Imaginary(2).add_real(0, &0), Imaginary(2));
    assert_eq!(Complex(1, 2).sub_real(1, &0), Complex(0, 2));
    assert_eq!(Complex(5, 5).difference(Complex(1, 2), 0), Complex(4, 3));
    assert_eq!(Complex(1, -2).negate(0), Complex(-1, 2));
    assert_eq!(BasicComplex::<i32>::Zero.negate(0), Zero);
}

#[test]
fn products() {
    assert_eq!(Complex(1, 2).product(Complex(3, 4), &0), Complex(-5, 10));
    assert_eq!(Imaginary(1).product(Imaginary(1), &0), Real(-1));
    assert_eq!(Imaginary(2).product(Complex(3, 4), &0), Complex(-8, 6));
    assert_eq!(Complex(3, 4).product(Imaginary(2), &0), Complex(-8, 6));
    assert_eq!(Real(2).product(Complex(3, 4), &0), Complex(6, 8));
    assert_eq!(Complex(3, 4).product(Real(0), &0), Zero);
    assert_eq!(BasicComplex::<i32>::Zero.product(Complex(3, 4), &0), Zero);
    assert_eq!(Complex(3, 4).mul_real(2, &0), Complex(6, 8));
    assert_eq!(Complex(3, 4).mul_real(0, &0), Zero);
}

#[test]
fn quotients_and_remainders() {
    // (1 + 2i) / (1 + i) = (1 + 2i)(1 - i) / 2 = (3 + i) / 2
    assert_eq!(Complex(1.0, 2.0).quotient(Complex(1.0, 1.0), &0.0), Complex(1.5, 0.5));
    assert_eq!(Complex(4, 6).div_real(2), Complex(2, 3));
    assert_eq!(Complex(7, 8).rem_real(3), Complex(1, 2));
    assert_eq!(Complex(7, 8).rem_pair(Complex(4, 5), 0), Complex(3, 3));
}
