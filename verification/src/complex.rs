//! Complex numbers over a numeric type `T`, stored in the smallest form that holds them.
//!
//! The values `0` and `1` of `T` are given to the operations that need them, as `zero` and `one`.

use core::ops::{Add, Div, Mul, Rem, Sub};
use vstd::prelude::*;
use vstd::std_specs::cmp::PartialEqSpec;
use vstd::std_specs::ops::{AddSpec, DivSpec, MulSpec, RemSpec, SubSpec};

verus! {

/// A complex number: zero, a real, an imaginary, or `Complex(a, b)` for `a + ib`.
#[derive(Copy, Clone, Debug, PartialEq, PartialOrd)]
pub enum BasicComplex<T> {
    Zero,
    Real(T),
    Imaginary(T),
    Complex(T, T),
}

/// The default complex number is `Zero`.
impl<T> Default for BasicComplex<T> {
    fn default() -> (r: Self)
        ensures
            r == BasicComplex::<T>::Zero,
    {
        BasicComplex::Zero
    }
}

/// The real and imaginary parts of `z`, the missing ones being `zero`.
pub open spec fn pair_of<T>(z: BasicComplex<T>, zero: T) -> (T, T) {
    match z {
        BasicComplex::Zero => (zero, zero),
        BasicComplex::Real(a) => (a, zero),
        BasicComplex::Imaginary(b) => (zero, b),
        BasicComplex::Complex(a, b) => (a, b),
    }
}

/// `z` in the smallest form that holds it, a part being dropped when it equals `zero`.
pub open spec fn compact_of<T: PartialEq>(z: BasicComplex<T>, zero: T) -> BasicComplex<T> {
    match z {
        BasicComplex::Zero => BasicComplex::Zero,
        BasicComplex::Real(a) => if a.eq_spec(&zero) {
            BasicComplex::Zero
        } else {
            z
        },
        BasicComplex::Imaginary(b) => if b.eq_spec(&zero) {
            BasicComplex::Zero
        } else {
            z
        },
        BasicComplex::Complex(a, b) => if a.eq_spec(&zero) && b.eq_spec(&zero) {
            BasicComplex::Zero
        } else if a.eq_spec(&zero) {
            BasicComplex::Imaginary(b)
        } else if b.eq_spec(&zero) {
            BasicComplex::Real(a)
        } else {
            z
        },
    }
}

/// Compacting keeps the number: its real and imaginary parts are unchanged, when `T`'s
/// equality is equality of values.
pub proof fn lemma_compact_keeps_parts<T: PartialEq>(z: BasicComplex<T>, zero: T)
    requires
        forall|a: T, b: T| #[trigger] a.eq_spec(&b) <==> a == b,
    ensures
        pair_of(compact_of(z, zero), zero) == pair_of(z, zero),
{
    match z {
        BasicComplex::Real(a) => {
            assert(a.eq_spec(&zero) <==> a == zero);
        },
        BasicComplex::Imaginary(b) => {
            assert(b.eq_spec(&zero) <==> b == zero);
        },
        BasicComplex::Complex(a, b) => {
            assert(a.eq_spec(&zero) <==> a == zero);
            assert(b.eq_spec(&zero) <==> b == zero);
        },
        BasicComplex::Zero => {},
    }
}

impl<T: Copy> BasicComplex<T> {
    /// The real and imaginary parts, the missing ones being `zero`.
    pub fn into_pair(self, zero: T) -> (r: [T; 2])
        ensures
            r@ == seq![pair_of(self, zero).0, pair_of(self, zero).1],
    {
        match self {
            BasicComplex::Zero => [zero, zero],
            BasicComplex::Real(a) => [a, zero],
            BasicComplex::Imaginary(b) => [zero, b],
            BasicComplex::Complex(a, b) => [a, b],
        }
    }

    /// The real part, `zero` when there is none.
    pub fn re(&self, zero: T) -> (r: T)
        ensures
            r == pair_of(*self, zero).0,
    {
        match *self {
            BasicComplex::Real(x) => x,
            BasicComplex::Complex(x, _) => x,
            _ => zero,
        }
    }

    /// The imaginary part, `zero` when there is none.
    pub fn im(&self, zero: T) -> (r: T)
        ensures
            r == pair_of(*self, zero).1,
    {
        match *self {
            BasicComplex::Imaginary(x) => x,
            BasicComplex::Complex(_, x) => x,
            _ => zero,
        }
    }

    /// The imaginary unit, `i`.
    pub fn i(one: T) -> (r: Self)
        ensures
            r == BasicComplex::Imaginary(one),
    {
        BasicComplex::Imaginary(one)
    }
}

impl<T: Copy + PartialEq> BasicComplex<T> {
    /// The same number in the smallest form that holds it: a part equal to `zero` is dropped.
    pub fn compact(self, zero: &T) -> (r: Self)
        requires
            T::obeys_eq_spec(),
        ensures
            r == compact_of(self, *zero),
    {
        match self {
            BasicComplex::Zero => BasicComplex::Zero,
            BasicComplex::Real(a) => if a.eq(zero) {
                BasicComplex::Zero
            } else {
                self
            },
            BasicComplex::Imaginary(b) => if b.eq(zero) {
                BasicComplex::Zero
            } else {
                self
            },
            BasicComplex::Complex(a, b) => {
                let za = a.eq(zero);
                let zb = b.eq(zero);
                if za && zb {
                    BasicComplex::Zero
                } else if za {
                    BasicComplex::Imaginary(b)
                } else if zb {
                    BasicComplex::Real(a)
                } else {
                    self
                }
            },
        }
    }
}

impl<T: Copy + Sub<Output = T>> BasicComplex<T> {
    /// The conjugate: `a + ib` becomes `a - ib`, the negation computed as `zero - b`.
    pub fn conjugate(self, zero: T) -> (r: Self)
        requires
            T::obeys_sub_spec(),
            self matches BasicComplex::Imaginary(b) ==> zero.sub_req(b),
            self matches BasicComplex::Complex(_, b) ==> zero.sub_req(b),
        ensures
            r == conjugate_of(self, zero),
    {
        match self {
            BasicComplex::Imaginary(b) => BasicComplex::Imaginary(zero - b),
            BasicComplex::Complex(a, b) => BasicComplex::Complex(a, zero - b),
            _ => self,
        }
    }
}

/// `z + x` for a real `x`: `z` itself when `x` equals `zero`.
pub open spec fn add_real_of<T: PartialEq + Add<Output = T>>(z: BasicComplex<T>, x: T, zero: T) -> BasicComplex<T> {
    if x.eq_spec(&zero) {
        z
    } else {
        match z {
            BasicComplex::Zero => BasicComplex::Real(x),
            BasicComplex::Real(a) => BasicComplex::Real(a.add_spec(x)),
            BasicComplex::Imaginary(b) => BasicComplex::Complex(x, b),
            BasicComplex::Complex(a, b) => BasicComplex::Complex(a.add_spec(x), b),
        }
    }
}

/// Adding a real `x` to `z` adds `x` to its real part and keeps its imaginary part, when adding
/// `zero` keeps a value and a value equal to `zero` is `zero`.
pub proof fn lemma_add_real_parts<T: PartialEq + Add<Output = T>>(z: BasicComplex<T>, x: T, zero: T)
    requires
        forall|a: T| #[trigger] a.add_spec(zero) == a,
        forall|a: T| #[trigger] zero.add_spec(a) == a,
        x.eq_spec(&zero) ==> x == zero,
    ensures
        pair_of(add_real_of(z, x, zero), zero) == (pair_of(z, zero).0.add_spec(x), pair_of(z, zero).1),
{
    assert(pair_of(z, zero).0.add_spec(zero) == pair_of(z, zero).0);
    assert(zero.add_spec(x) == x);
}

/// The sum of `z + x` for a real `x` can be computed.
pub open spec fn add_real_ok<T: PartialEq + Add<Output = T>>(z: BasicComplex<T>, x: T, zero: T) -> bool {
    !x.eq_spec(&zero) ==> match z {
        BasicComplex::Real(a) => a.add_req(x),
        BasicComplex::Complex(a, _) => a.add_req(x),
        _ => true,
    }
}

/// `z + w`, part by part, always in the `Complex` form.
pub open spec fn sum_of<T: Add<Output = T>>(z: BasicComplex<T>, w: BasicComplex<T>, zero: T) -> BasicComplex<T> {
    BasicComplex::Complex(
        pair_of(z, zero).0.add_spec(pair_of(w, zero).0),
        pair_of(z, zero).1.add_spec(pair_of(w, zero).1),
    )
}

/// The sums of `z + w` can be computed.
pub open spec fn sum_ok<T: Add<Output = T>>(z: BasicComplex<T>, w: BasicComplex<T>, zero: T) -> bool {
    &&& pair_of(z, zero).0.add_req(pair_of(w, zero).0)
    &&& pair_of(z, zero).1.add_req(pair_of(w, zero).1)
}

/// `-z`, each part `p` becoming `zero - p`.
pub open spec fn neg_of<T: Sub<Output = T>>(z: BasicComplex<T>, zero: T) -> BasicComplex<T> {
    match z {
        BasicComplex::Zero => BasicComplex::Zero,
        BasicComplex::Real(a) => BasicComplex::Real(zero.sub_spec(a)),
        BasicComplex::Imaginary(b) => BasicComplex::Imaginary(zero.sub_spec(b)),
        BasicComplex::Complex(a, b) => BasicComplex::Complex(zero.sub_spec(a), zero.sub_spec(b)),
    }
}

/// The differences of `-z` can be computed.
pub open spec fn neg_ok<T: Sub<Output = T>>(z: BasicComplex<T>, zero: T) -> bool {
    match z {
        BasicComplex::Zero => true,
        BasicComplex::Real(a) => zero.sub_req(a),
        BasicComplex::Imaginary(b) => zero.sub_req(b),
        BasicComplex::Complex(a, b) => zero.sub_req(a) && zero.sub_req(b),
    }
}

/// `z * x` for a real `x`: `Zero` when `x` equals `zero`.
pub open spec fn mul_real_of<T: PartialEq + Mul<Output = T>>(z: BasicComplex<T>, x: T, zero: T) -> BasicComplex<T> {
    if x.eq_spec(&zero) {
        BasicComplex::Zero
    } else {
        match z {
            BasicComplex::Zero => BasicComplex::Zero,
            BasicComplex::Real(a) => BasicComplex::Real(a.mul_spec(x)),
            BasicComplex::Imaginary(b) => BasicComplex::Imaginary(b.mul_spec(x)),
            BasicComplex::Complex(a, b) => BasicComplex::Complex(a.mul_spec(x), b.mul_spec(x)),
        }
    }
}

/// The products of `z * x` for a real `x` can be computed.
pub open spec fn mul_real_ok<T: PartialEq + Mul<Output = T>>(z: BasicComplex<T>, x: T, zero: T) -> bool {
    !x.eq_spec(&zero) ==> match z {
        BasicComplex::Zero => true,
        BasicComplex::Real(a) => a.mul_req(x),
        BasicComplex::Imaginary(b) => b.mul_req(x),
        BasicComplex::Complex(a, b) => a.mul_req(x) && b.mul_req(x),
    }
}

/// `z * w`. A real factor scales the other one; `i * i = -1`;
/// `ix * (a + ib) = -xb + ixa`; `(a + ib)(c + id) = (ac - bd) + i(ad + bc)`.
pub open spec fn product_of<T: PartialEq + Add<Output = T> + Sub<Output = T> + Mul<Output = T>>(
    z: BasicComplex<T>,
    w: BasicComplex<T>,
    zero: T,
) -> BasicComplex<T> {
    match (z, w) {
        (BasicComplex::Zero, _) => BasicComplex::Zero,
        (_, BasicComplex::Zero) => BasicComplex::Zero,
        (_, BasicComplex::Real(x)) => mul_real_of(z, x, zero),
        (BasicComplex::Real(x), _) => mul_real_of(w, x, zero),
        (BasicComplex::Imaginary(a), BasicComplex::Imaginary(b)) => BasicComplex::Real(
            zero.sub_spec(a.mul_spec(b)),
        ),
        (BasicComplex::Imaginary(x), BasicComplex::Complex(a, b)) => BasicComplex::Complex(
            zero.sub_spec(x.mul_spec(b)),
            x.mul_spec(a),
        ),
        (BasicComplex::Complex(a, b), BasicComplex::Imaginary(x)) => BasicComplex::Complex(
            zero.sub_spec(x.mul_spec(b)),
            x.mul_spec(a),
        ),
        (BasicComplex::Complex(a, b), BasicComplex::Complex(c, d)) => BasicComplex::Complex(
            a.mul_spec(c).sub_spec(b.mul_spec(d)),
            a.mul_spec(d).add_spec(b.mul_spec(c)),
        ),
    }
}

/// The operations of `z * w` can be computed.
pub open spec fn product_ok<T: PartialEq + Add<Output = T> + Sub<Output = T> + Mul<Output = T>>(
    z: BasicComplex<T>,
    w: BasicComplex<T>,
    zero: T,
) -> bool {
    match (z, w) {
        (BasicComplex::Zero, _) => true,
        (_, BasicComplex::Zero) => true,
        (_, BasicComplex::Real(x)) => mul_real_ok(z, x, zero),
        (BasicComplex::Real(x), _) => mul_real_ok(w, x, zero),
        (BasicComplex::Imaginary(a), BasicComplex::Imaginary(b)) => a.mul_req(b) && zero.sub_req(a.mul_spec(b)),
        (BasicComplex::Imaginary(x), BasicComplex::Complex(a, b)) => {
            &&& x.mul_req(b)
            &&& zero.sub_req(x.mul_spec(b))
            &&& x.mul_req(a)
        },
        (BasicComplex::Complex(a, b), BasicComplex::Imaginary(x)) => {
            &&& x.mul_req(b)
            &&& zero.sub_req(x.mul_spec(b))
            &&& x.mul_req(a)
        },
        (BasicComplex::Complex(a, b), BasicComplex::Complex(c, d)) => {
            &&& a.mul_req(c)
            &&& b.mul_req(d)
            &&& a.mul_spec(c).sub_req(b.mul_spec(d))
            &&& a.mul_req(d)
            &&& b.mul_req(c)
            &&& a.mul_spec(d).add_req(b.mul_spec(c))
        },
    }
}

/// Over `i64`, when no operation overflows, the product of `z = a + ib` and `w = c + id` is
/// `(ac - bd) + i(ad + bc)`, whatever the forms in which `z` and `w` are held.
pub proof fn lemma_product_parts_i64(z: BasicComplex<i64>, w: BasicComplex<i64>)
    requires
        product_ok(z, w, 0i64),
    ensures
        ({
            let (a, b) = pair_of(z, 0i64);
            let (c, d) = pair_of(w, 0i64);
            &&& pair_of(product_of(z, w, 0i64), 0i64).0 as int == (a as int) * (c as int) - (b as int) * (d as int)
            &&& pair_of(product_of(z, w, 0i64), 0i64).1 as int == (a as int) * (d as int) + (b as int) * (c as int)
        }),
{
    let (a, b) = pair_of(z, 0i64);
    let (c, d) = pair_of(w, 0i64);
    let (ai, bi, ci, di) = (a as int, b as int, c as int, d as int);
    assert(ai * di == di * ai) by (nonlinear_arith);
    assert(bi * ci == ci * bi) by (nonlinear_arith);
    assert(bi * di == di * bi) by (nonlinear_arith);
    assert(ai * ci == ci * ai) by (nonlinear_arith);
    assert(ai * 0 == 0 && bi * 0 == 0 && ci * 0 == 0 && di * 0 == 0 && 0 * ai == 0 && 0 * bi == 0 && 0 * ci == 0 && 0
        * di == 0);
    match (z, w) {
        (BasicComplex::Zero, _) => {},
        (_, BasicComplex::Zero) => {},
        (_, BasicComplex::Real(x)) => {
            if x == 0 {
            }
        },
        (BasicComplex::Real(x), _) => {
            if x == 0 {
            }
        },
        _ => {},
    }
}

/// Over `i64`, when no product overflows, `z * x` for a real `x` multiplies both parts of `z` by
/// `x`.
pub proof fn lemma_mul_real_parts_i64(z: BasicComplex<i64>, x: i64)
    requires
        mul_real_ok(z, x, 0i64),
    ensures
        pair_of(mul_real_of(z, x, 0i64), 0i64).0 as int == (pair_of(z, 0i64).0 as int) * (x as int),
        pair_of(mul_real_of(z, x, 0i64), 0i64).1 as int == (pair_of(z, 0i64).1 as int) * (x as int),
{
    let (a, b) = pair_of(z, 0i64);
    assert((a as int) * 0 == 0 && (b as int) * 0 == 0 && 0 * (x as int) == 0);
}

/// Over `i64`, when no sum overflows, the parts of `z + w` are the sums of the parts.
pub proof fn lemma_sum_parts_i64(z: BasicComplex<i64>, w: BasicComplex<i64>)
    requires
        sum_ok(z, w, 0i64),
    ensures
        pair_of(sum_of(z, w, 0i64), 0i64).0 as int == pair_of(z, 0i64).0 as int + pair_of(w, 0i64).0 as int,
        pair_of(sum_of(z, w, 0i64), 0i64).1 as int == pair_of(z, 0i64).1 as int + pair_of(w, 0i64).1 as int,
{
}

/// Over `i64`, the conjugate keeps the real part and negates the imaginary part, and conjugating
/// twice gives the number back, when no part is `i64::MIN`.
pub proof fn lemma_conjugate_parts_i64(z: BasicComplex<i64>)
    requires
        pair_of(z, 0i64).1 != i64::MIN,
    ensures
        pair_of(conjugate_of(z, 0i64), 0i64).0 == pair_of(z, 0i64).0,
        pair_of(conjugate_of(z, 0i64), 0i64).1 as int == -(pair_of(z, 0i64).1 as int),
        conjugate_of(conjugate_of(z, 0i64), 0i64) == z,
{
}

/// Over `i64`, `-z` negates both parts, when no part is `i64::MIN`.
pub proof fn lemma_neg_parts_i64(z: BasicComplex<i64>)
    requires
        pair_of(z, 0i64).0 != i64::MIN,
        pair_of(z, 0i64).1 != i64::MIN,
    ensures
        pair_of(neg_of(z, 0i64), 0i64).0 as int == -(pair_of(z, 0i64).0 as int),
        pair_of(neg_of(z, 0i64), 0i64).1 as int == -(pair_of(z, 0i64).1 as int),
{
}

/// `z / x` for a real `x`, part by part.
pub open spec fn div_real_of<T: Div<Output = T>>(z: BasicComplex<T>, x: T) -> BasicComplex<T> {
    match z {
        BasicComplex::Zero => BasicComplex::Zero,
        BasicComplex::Real(a) => BasicComplex::Real(a.div_spec(x)),
        BasicComplex::Imaginary(b) => BasicComplex::Imaginary(b.div_spec(x)),
        BasicComplex::Complex(a, b) => BasicComplex::Complex(a.div_spec(x), b.div_spec(x)),
    }
}

/// The quotients of `z / x` for a real `x` can be computed.
pub open spec fn div_real_ok<T: Div<Output = T>>(z: BasicComplex<T>, x: T) -> bool {
    match z {
        BasicComplex::Zero => true,
        BasicComplex::Real(a) => a.div_req(x),
        BasicComplex::Imaginary(b) => b.div_req(x),
        BasicComplex::Complex(a, b) => a.div_req(x) && b.div_req(x),
    }
}

/// `zero + re(z)^2 + im(z)^2`.
pub open spec fn norm_squared_of<T: Add<Output = T> + Mul<Output = T>>(z: BasicComplex<T>, zero: T) -> T {
    let (x, y) = pair_of(z, zero);
    zero.add_spec(x.mul_spec(x)).add_spec(y.mul_spec(y))
}

/// The operations of `zero + re(z)^2 + im(z)^2` can be computed.
pub open spec fn norm_squared_ok<T: Add<Output = T> + Mul<Output = T>>(z: BasicComplex<T>, zero: T) -> bool {
    let (x, y) = pair_of(z, zero);
    &&& x.mul_req(x)
    &&& zero.add_req(x.mul_spec(x))
    &&& y.mul_req(y)
    &&& zero.add_spec(x.mul_spec(x)).add_req(y.mul_spec(y))
}

/// `z % x` for a real `x`, part by part.
pub open spec fn rem_real_of<T: Rem<Output = T>>(z: BasicComplex<T>, x: T) -> BasicComplex<T> {
    match z {
        BasicComplex::Zero => BasicComplex::Zero,
        BasicComplex::Real(a) => BasicComplex::Real(a.rem_spec(x)),
        BasicComplex::Imaginary(b) => BasicComplex::Imaginary(b.rem_spec(x)),
        BasicComplex::Complex(a, b) => BasicComplex::Complex(a.rem_spec(x), b.rem_spec(x)),
    }
}

/// The remainders of `z % x` for a real `x` can be computed.
pub open spec fn rem_real_ok<T: Rem<Output = T>>(z: BasicComplex<T>, x: T) -> bool {
    match z {
        BasicComplex::Zero => true,
        BasicComplex::Real(a) => a.rem_req(x),
        BasicComplex::Imaginary(b) => b.rem_req(x),
        BasicComplex::Complex(a, b) => a.rem_req(x) && b.rem_req(x),
    }
}

impl<T: Copy + PartialEq + Add<Output = T>> BasicComplex<T> {
    /// `self + rhs` for a real `rhs`; `self` unchanged when `rhs` equals `zero`.
    pub fn add_real(self, rhs: T, zero: &T) -> (r: Self)
        requires
            T::obeys_eq_spec(),
            T::obeys_add_spec(),
            add_real_ok(self, rhs, *zero),
        ensures
            r == add_real_of(self, rhs, *zero),
    {
        if rhs.eq(zero) {
            self
        } else {
            match self {
                BasicComplex::Zero => BasicComplex::Real(rhs),
                BasicComplex::Real(a) => BasicComplex::Real(a + rhs),
                BasicComplex::Imaginary(b) => BasicComplex::Complex(rhs, b),
                BasicComplex::Complex(a, b) => BasicComplex::Complex(a + rhs, b),
            }
        }
    }

    /// `self + rhs`, part by part: the result is in the `Complex` form.
    pub fn sum(self, rhs: Self, zero: T) -> (r: Self)
        requires
            T::obeys_add_spec(),
            sum_ok(self, rhs, zero),
        ensures
            r == sum_of(self, rhs, zero),
    {
        let p = self.into_pair(zero);
        let q = rhs.into_pair(zero);
        BasicComplex::Complex(p[0] + q[0], p[1] + q[1])
    }
}

impl<T: Copy + Sub<Output = T>> BasicComplex<T> {
    /// `-self`, each part `p` becoming `zero - p`.
    pub fn negate(self, zero: T) -> (r: Self)
        requires
            T::obeys_sub_spec(),
            neg_ok(self, zero),
        ensures
            r == neg_of(self, zero),
    {
        match self {
            BasicComplex::Zero => BasicComplex::Zero,
            BasicComplex::Real(a) => BasicComplex::Real(zero - a),
            BasicComplex::Imaginary(b) => BasicComplex::Imaginary(zero - b),
            BasicComplex::Complex(a, b) => BasicComplex::Complex(zero - a, zero - b),
        }
    }
}

impl<T: Copy + PartialEq + Add<Output = T> + Sub<Output = T>> BasicComplex<T> {
    /// `self - rhs` for a real `rhs`: `self + (zero - rhs)`.
    pub fn sub_real(self, rhs: T, zero: &T) -> (r: Self)
        requires
            T::obeys_eq_spec(),
            T::obeys_add_spec(),
            T::obeys_sub_spec(),
            zero.sub_req(rhs),
            add_real_ok(self, zero.sub_spec(rhs), *zero),
        ensures
            r == add_real_of(self, zero.sub_spec(rhs), *zero),
    {
        let neg = *zero - rhs;
        self.add_real(neg, zero)
    }

    /// `self - rhs`: `self + (-rhs)`.
    pub fn difference(self, rhs: Self, zero: T) -> (r: Self)
        requires
            T::obeys_add_spec(),
            T::obeys_sub_spec(),
            neg_ok(rhs, zero),
            sum_ok(self, neg_of(rhs, zero), zero),
        ensures
            r == sum_of(self, neg_of(rhs, zero), zero),
    {
        let neg = rhs.negate(zero);
        self.sum(neg, zero)
    }
}

impl<T: Copy + PartialEq + Mul<Output = T>> BasicComplex<T> {
    /// `self * rhs` for a real `rhs`: `Zero` when `rhs` equals `zero`.
    pub fn mul_real(self, rhs: T, zero: &T) -> (r: Self)
        requires
            T::obeys_eq_spec(),
            T::obeys_mul_spec(),
            mul_real_ok(self, rhs, *zero),
        ensures
            r == mul_real_of(self, rhs, *zero),
    {
        if rhs.eq(zero) {
            BasicComplex::Zero
        } else {
            match self {
                BasicComplex::Zero => BasicComplex::Zero,
                BasicComplex::Real(a) => BasicComplex::Real(a * rhs),
                BasicComplex::Imaginary(b) => BasicComplex::Imaginary(b * rhs),
                BasicComplex::Complex(a, b) => BasicComplex::Complex(a * rhs, b * rhs),
            }
        }
    }
}

impl<T: Copy + PartialEq + Add<Output = T> + Sub<Output = T> + Mul<Output = T>> BasicComplex<T> {
    /// `self * rhs`.
    pub fn product(self, rhs: Self, zero: &T) -> (r: Self)
        requires
            T::obeys_eq_spec(),
            T::obeys_add_spec(),
            T::obeys_sub_spec(),
            T::obeys_mul_spec(),
            product_ok(self, rhs, *zero),
        ensures
            r == product_of(self, rhs, *zero),
    {
        match (self, rhs) {
            (BasicComplex::Zero, _) => BasicComplex::Zero,
            (_, BasicComplex::Zero) => BasicComplex::Zero,
            (_, BasicComplex::Real(x)) => self.mul_real(x, zero),
            (BasicComplex::Real(x), _) => rhs.mul_real(x, zero),
            (BasicComplex::Imaginary(a), BasicComplex::Imaginary(b)) => BasicComplex::Real(*zero - a * b),
            (BasicComplex::Imaginary(x), BasicComplex::Complex(a, b)) => BasicComplex::Complex(
                *zero - x * b,
                x * a,
            ),
            (BasicComplex::Complex(a, b), BasicComplex::Imaginary(x)) => BasicComplex::Complex(
                *zero - x * b,
                x * a,
            ),
            (BasicComplex::Complex(a, b), BasicComplex::Complex(c, d)) => BasicComplex::Complex(
                a * c - b * d,
                a * d + b * c,
            ),
        }
    }
}

impl<T: Copy + Div<Output = T>> BasicComplex<T> {
    /// `self / rhs` for a real `rhs`, part by part.
    pub fn div_real(self, rhs: T) -> (r: Self)
        requires
            T::obeys_div_spec(),
            div_real_ok(self, rhs),
        ensures
            r == div_real_of(self, rhs),
    {
        match self {
            BasicComplex::Zero => BasicComplex::Zero,
            BasicComplex::Real(a) => BasicComplex::Real(a / rhs),
            BasicComplex::Imaginary(b) => BasicComplex::Imaginary(b / rhs),
            BasicComplex::Complex(a, b) => BasicComplex::Complex(a / rhs, b / rhs),
        }
    }
}

impl<T: Copy + PartialEq + Add<Output = T> + Sub<Output = T> + Mul<Output = T> + Div<Output = T>> BasicComplex<T> {
    /// `self / rhs`: `self` times the conjugate of `rhs`, divided by `zero + re(rhs)^2 + im(rhs)^2`.
    pub fn quotient(self, rhs: Self, zero: &T) -> (r: Self)
        requires
            T::obeys_eq_spec(),
            T::obeys_add_spec(),
            T::obeys_sub_spec(),
            T::obeys_mul_spec(),
            T::obeys_div_spec(),
            rhs matches BasicComplex::Imaginary(b) ==> zero.sub_req(b),
            rhs matches BasicComplex::Complex(_, b) ==> zero.sub_req(b),
            norm_squared_ok(rhs, *zero),
            product_ok(self, conjugate_of(rhs, *zero), *zero),
            div_real_ok(product_of(self, conjugate_of(rhs, *zero), *zero), norm_squared_of(rhs, *zero)),
        ensures
            r == div_real_of(product_of(self, conjugate_of(rhs, *zero), *zero), norm_squared_of(rhs, *zero)),
    {
        let c = rhs.conjugate(*zero);
        let p = rhs.into_pair(*zero);
        let x = p[0];
        let y = p[1];
        let sum = *zero + x * x + y * y;
        self.product(c, zero).div_real(sum)
    }
}

impl<T: Copy + Rem<Output = T>> BasicComplex<T> {
    /// `self % rhs` for a real `rhs`, part by part.
    pub fn rem_real(self, rhs: T) -> (r: Self)
        requires
            T::obeys_rem_spec(),
            rem_real_ok(self, rhs),
        ensures
            r == rem_real_of(self, rhs),
    {
        match self {
            BasicComplex::Zero => BasicComplex::Zero,
            BasicComplex::Real(a) => BasicComplex::Real(a % rhs),
            BasicComplex::Imaginary(b) => BasicComplex::Imaginary(b % rhs),
            BasicComplex::Complex(a, b) => BasicComplex::Complex(a % rhs, b % rhs),
        }
    }

    /// `self % rhs`, part by part (not the remainder of complex division): the result is in the
    /// `Complex` form.
    pub fn rem_pair(self, rhs: Self, zero: T) -> (r: Self)
        requires
            T::obeys_rem_spec(),
            pair_of(self, zero).0.rem_req(pair_of(rhs, zero).0),
            pair_of(self, zero).1.rem_req(pair_of(rhs, zero).1),
        ensures
            r == BasicComplex::Complex(
                pair_of(self, zero).0.rem_spec(pair_of(rhs, zero).0),
                pair_of(self, zero).1.rem_spec(pair_of(rhs, zero).1),
            ),
    {
        let p = self.into_pair(zero);
        let q = rhs.into_pair(zero);
        BasicComplex::Complex(p[0] % q[0], p[1] % q[1])
    }
}

/// The conjugate of `z`: `a + ib` becomes `a - ib`, the negation computed as `zero - b`.
pub open spec fn conjugate_of<T: Sub<Output = T>>(z: BasicComplex<T>, zero: T) -> BasicComplex<T> {
    match z {
        BasicComplex::Imaginary(b) => BasicComplex::Imaginary(zero.sub_spec(b)),
        BasicComplex::Complex(a, b) => BasicComplex::Complex(a, zero.sub_spec(b)),
        _ => z,
    }
}

/// `one` added to itself until there are `n` terms: `n` written in `T`.
pub open spec fn repeat_one<T: Add<Output = T>>(one: T, n: nat) -> T
    decreases n,
{
    if n <= 1 {
        one
    } else {
        repeat_one(one, (n - 1) as nat).add_spec(one)
    }
}

/// In `i64`, adding `1` to itself until there are `n` terms gives `n`, and no sum overflows.
pub proof fn lemma_repeat_one_i64(n: nat)
    requires
        1 <= n <= i64::MAX,
    ensures
        repeat_one(1i64, n) == n,
        forall|k: nat| 1 <= k < n ==> (#[trigger] repeat_one(1i64, k)).add_req(1i64),
    decreases n,
{
    if n > 1 {
        lemma_repeat_one_i64((n - 1) as nat);
    }
}

/// Builds the value `n` of `T` by adding `one` to itself; `n` is at least `1`.
pub fn construct_from_usize<T: Copy + Add<Output = T>>(n: usize, one: T) -> (r: T)
    requires
        n >= 1,
        T::obeys_add_spec(),
        forall|k: nat| 1 <= k < n ==> (#[trigger] repeat_one(one, k)).add_req(one),
    ensures
        r == repeat_one(one, n as nat),
{
    let mut acc = one;
    let mut k: usize = 1;
    while k != n
        invariant
            1 <= k <= n,
            T::obeys_add_spec(),
            forall|j: nat| 1 <= j < n ==> (#[trigger] repeat_one(one, j)).add_req(one),
            acc == repeat_one(one, k as nat),
        decreases n - k,
    {
        acc = acc + one;
        k = k + 1;
    }
    acc
}

} // verus!
