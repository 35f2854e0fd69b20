//! Polynomials whose coefficients are on the heap.

use core::ops::{Add, Mul};
use vstd::prelude::*;
use vstd::std_specs::cmp::PartialEqSpec;
use vstd::std_specs::ops::{AddSpec, MulSpec};

verus! {

/// A polynomial: `coefficients[i]` is the coefficient of `X^i`.
pub struct HeapPolynomial<T> {
    pub coefficients: Vec<T>,
}

/// `d` is the index of the last coefficient of `s` that differs from `zero`, or `None` when
/// every coefficient equals `zero`.
pub open spec fn is_degree<T: PartialEq>(s: Seq<T>, zero: T, d: Option<usize>) -> bool {
    match d {
        Some(d) => {
            &&& d < s.len()
            &&& !s[d as int].eq_spec(&zero)
            &&& forall|i: int| d < i < s.len() ==> (#[trigger] s[i]).eq_spec(&zero)
        },
        None => forall|i: int| 0 <= i < s.len() ==> (#[trigger] s[i]).eq_spec(&zero),
    }
}

/// A polynomial has one degree: two indices that both meet `is_degree` are the same.
pub proof fn lemma_degree_unique<T: PartialEq>(s: Seq<T>, zero: T, d1: Option<usize>, d2: Option<usize>)
    requires
        is_degree(s, zero, d1),
        is_degree(s, zero, d2),
    ensures
        d1 == d2,
{
    match (d1, d2) {
        (Some(a), Some(b)) => {
            if a < b {
                assert(s[b as int].eq_spec(&zero));
            } else if b < a {
                assert(s[a as int].eq_spec(&zero));
            }
        },
        (Some(a), None) => {
            assert(s[a as int].eq_spec(&zero));
        },
        (None, Some(b)) => {
            assert(s[b as int].eq_spec(&zero));
        },
        (None, None) => {},
    }
}

/// The value, at `x`, of the polynomial whose coefficients of `X^0 .. X^(n - k - 1)` are those
/// of `s` from index `k` on, computed by Horner's scheme from `zero`:
/// `(..((zero * x + s[n - 1]) * x + s[n - 2]) ..) * x + s[k]`.
pub open spec fn horner<T: Copy + Add<Output = T> + Mul<Output = T>>(s: Seq<T>, x: T, zero: T, k: int) -> T
    decreases s.len() - k,
{
    if k >= s.len() || k < 0 {
        zero
    } else {
        horner(s, x, zero, k + 1).mul_spec(x).add_spec(s[k])
    }
}

/// Every product and sum of Horner's scheme for `s` at `x` can be computed.
pub open spec fn horner_ok<T: Copy + Add<Output = T> + Mul<Output = T>>(s: Seq<T>, x: T, zero: T) -> bool {
    forall|k: int|
        0 <= k < s.len() ==> {
            &&& (#[trigger] horner(s, x, zero, k + 1)).mul_req(x)
            &&& horner(s, x, zero, k + 1).mul_spec(x).add_req(s[k])
        }
}

/// `s[0] + s[1] * x + ... + s[n - 1] * x^(n - 1)`, over the integers.
pub open spec fn power_sum(s: Seq<int>, x: int) -> int
    decreases s.len(),
{
    if s.len() == 0 {
        0
    } else {
        power_sum(s.drop_last(), x) + s.last() * vstd::arithmetic::power::pow(x, (s.len() - 1) as nat)
    }
}

/// `s[0] + x * (s[1] + x * (... + x * s[n - 1]))`, over the integers.
pub open spec fn nested_sum(s: Seq<int>, x: int) -> int
    decreases s.len(),
{
    if s.len() == 0 {
        0
    } else {
        s[0] + x * nested_sum(s.drop_first(), x)
    }
}

/// The power sum of `s` splits off its constant term: `s[0] + x * (power sum of the rest)`.
proof fn lemma_power_sum_first(s: Seq<int>, x: int)
    requires
        s.len() > 0,
    ensures
        power_sum(s, x) == s[0] + x * power_sum(s.drop_first(), x),
    decreases s.len(),
{
    reveal(vstd::arithmetic::power::pow);
    let n = s.len();
    if n == 1 {
        assert(s.drop_last().len() == 0);
        assert(s.drop_first().len() == 0);
        assert(vstd::arithmetic::power::pow(x, 0) == 1);
        assert(s.last() == s[0]);
        assert(power_sum(s.drop_last(), x) == 0);
        assert(power_sum(s.drop_first(), x) == 0);
        assert(power_sum(s, x) == s[0]);
        assert(x * 0 == 0);
    } else {
        let dl = s.drop_last();
        let df = s.drop_first();
        lemma_power_sum_first(dl, x);
        assert(dl.drop_first() =~= df.drop_last());
        assert(df.last() == s.last());
        assert(dl[0] == s[0]);
        let p = vstd::arithmetic::power::pow(x, (n - 2) as nat);
        assert(vstd::arithmetic::power::pow(x, (n - 1) as nat) == x * p);
        let a = power_sum(df.drop_last(), x);
        assert(power_sum(df, x) == a + s.last() * p);
        assert(power_sum(dl, x) == s[0] + x * a);
        assert(x * (a + s.last() * p) == x * a + s.last() * (x * p)) by (nonlinear_arith);
        assert(power_sum(s, x) == power_sum(dl, x) + s.last() * vstd::arithmetic::power::pow(x, (n - 1) as nat));
        assert(power_sum(s, x) == s[0] + x * a + s.last() * (x * p));
    }
}

/// The nested form and the power form of a polynomial value agree.
pub proof fn lemma_nested_is_power_sum(s: Seq<int>, x: int)
    ensures
        nested_sum(s, x) == power_sum(s, x),
    decreases s.len(),
{
    if s.len() > 0 {
        lemma_nested_is_power_sum(s.drop_first(), x);
        lemma_power_sum_first(s, x);
    }
}

/// Horner's scheme on `i64` coefficients, when no step overflows, computes the nested sum of the
/// coefficients from index `k` on.
proof fn lemma_horner_nested_i64(s: Seq<i64>, x: i64, k: int)
    requires
        horner_ok(s, x, 0i64),
        0 <= k <= s.len(),
    ensures
        horner(s, x, 0i64, k) as int == nested_sum(s.subrange(k, s.len() as int).map_values(|c: i64| c as int), x as int),
    decreases s.len() - k,
{
    let t = s.subrange(k, s.len() as int).map_values(|c: i64| c as int);
    if k == s.len() {
        assert(t.len() == 0);
    } else {
        lemma_horner_nested_i64(s, x, k + 1);
        let rest = s.subrange(k + 1, s.len() as int).map_values(|c: i64| c as int);
        assert(t.drop_first() =~= rest);
        assert(t[0] == s[k] as int);
        let h = horner(s, x, 0i64, k + 1);
        assert(h.mul_req(x));
        assert(h.mul_spec(x).add_req(s[k]));
        assert(horner(s, x, 0i64, k) == h.mul_spec(x).add_spec(s[k]));
        assert((h as int) * (x as int) == (x as int) * (h as int)) by (nonlinear_arith);
        assert(nested_sum(t, x as int) == t[0] + (x as int) * nested_sum(t.drop_first(), x as int));
    }
}

/// Evaluating a polynomial with `i64` coefficients by Horner's scheme from `0`, when no step
/// overflows, gives `c[0] + c[1] * x + ... + c[n - 1] * x^(n - 1)`.
pub proof fn lemma_horner_is_power_sum_i64(s: Seq<i64>, x: i64)
    requires
        horner_ok(s, x, 0i64),
    ensures
        horner(s, x, 0i64, 0) as int == power_sum(s.map_values(|c: i64| c as int), x as int),
{
    lemma_horner_nested_i64(s, x, 0);
    assert(s.subrange(0, s.len() as int) =~= s);
    lemma_nested_is_power_sum(s.map_values(|c: i64| c as int), x as int);
}

impl<T> HeapPolynomial<T> {
    /// The polynomial whose coefficients, constant term first, are `coefficients`.
    pub fn new(coefficients: Vec<T>) -> (r: Self)
        ensures
            r.coefficients == coefficients,
    {
        Self { coefficients }
    }

    /// The zero polynomial: no coefficient.
    pub fn zero() -> (r: Self)
        ensures
            r.coefficients@ == Seq::<T>::empty(),
    {
        Self { coefficients: Vec::new() }
    }

    /// The constant polynomial `one`.
    pub fn one(one: T) -> (r: Self)
        ensures
            r.coefficients@ == seq![one],
    {
        let mut coefficients = Vec::new();
        coefficients.push(one);
        Self { coefficients }
    }
}

impl<T: PartialEq> HeapPolynomial<T> {
    /// The degree: the index of the last coefficient that differs from `zero`; `None` for the
    /// zero polynomial.
    pub fn degree(&self, zero: &T) -> (r: Option<usize>)
        requires
            T::obeys_eq_spec(),
        ensures
            is_degree(self.coefficients@, *zero, r),
    {
        let n = self.coefficients.len();
        let mut k = n;
        while k > 0
            invariant
                k <= n,
                n == self.coefficients@.len(),
                T::obeys_eq_spec(),
                forall|i: int| k <= i < n ==> (#[trigger] self.coefficients@[i]).eq_spec(zero),
            decreases k,
        {
            if !self.coefficients[k - 1].eq(zero) {
                return Some(k - 1);
            }
            k = k - 1;
        }
        None
    }

    /// `true` when every coefficient equals `zero`.
    pub fn is_zero(&self, zero: &T) -> (r: bool)
        requires
            T::obeys_eq_spec(),
        ensures
            r == is_degree(self.coefficients@, *zero, None),
    {
        self.degree(zero).is_none()
    }
}

impl<T: Copy> HeapPolynomial<T> {
    /// Sets every coefficient to `zero`, keeping their number.
    pub fn set_zero(&mut self, zero: T)
        ensures
            final(self).coefficients@.len() == old(self).coefficients@.len(),
            forall|i: int|
                0 <= i < final(self).coefficients@.len() ==> #[trigger] final(self).coefficients@[i]
                    == zero,
    {
        let n = self.coefficients.len();
        for k in 0..n
            invariant
                n == self.coefficients@.len(),
                forall|i: int| 0 <= i < k ==> #[trigger] self.coefficients@[i] == zero,
        {
            self.coefficients.set(k, zero);
        }
    }
}

impl<T: Copy + PartialEq> HeapPolynomial<T> {
    /// Drops the coefficients from the degree on: `degree` of them are kept (none for the zero
    /// polynomial).
    pub fn compact(&mut self, zero: &T)
        requires
            T::obeys_eq_spec(),
        ensures
            exists|d: Option<usize>|
                #![trigger is_degree(old(self).coefficients@, *zero, d)]
                is_degree(old(self).coefficients@, *zero, d) && final(self).coefficients@
                    == old(self).coefficients@.take(
                    match d {
                        Some(d) => d as int,
                        None => 0,
                    },
                ),
    {
        let d = self.degree(zero);
        let new_length = match d {
            Some(d) => d,
            None => 0,
        };
        if self.coefficients.len() == new_length {
            assert(self.coefficients@.take(new_length as int) =~= self.coefficients@);
            return ;
        }
        self.coefficients.truncate(new_length);
    }
}

/// Some coefficient of `s` from index `1` on differs from `zero`: the degree is at least one.
pub open spec fn moves<T: PartialEq>(s: Seq<T>, zero: T) -> bool {
    exists|i: int| 1 <= i < s.len() && !(#[trigger] s[i]).eq_spec(&zero)
}

/// The coefficients of the derivative, `units[i]` being the value `i + 1`: when the degree is
/// at least one, each coefficient becomes the next one times its index and the last one is
/// dropped; otherwise every coefficient becomes `zero`.
pub open spec fn derivative_coeffs<T: PartialEq + Mul<Output = T>>(s: Seq<T>, units: Seq<T>, zero: T) -> Seq<T> {
    if moves(s, zero) {
        Seq::new((s.len() - 1) as nat, |i: int| s[i + 1].mul_spec(units[i]))
    } else {
        Seq::new(s.len(), |i: int| zero)
    }
}

/// The derivative can be computed: when the degree is at least one, `units` has a value for
/// each index and each product is allowed.
pub open spec fn derivative_ok<T: PartialEq + Mul<Output = T>>(s: Seq<T>, units: Seq<T>, zero: T) -> bool {
    moves(s, zero) ==> {
        &&& s.len() <= units.len() + 1
        &&& forall|i: int| 0 <= i < s.len() - 1 ==> #[trigger] s[i + 1].mul_req(units[i])
    }
}

/// The derivative follows the degree (see [`is_degree`]): when the degree is at least one,
/// coefficient `i` of the derivative is coefficient `i + 1` times `units[i]` (the value
/// `i + 1`), one coefficient fewer; when the polynomial is constant or zero, every coefficient
/// becomes `zero`.
pub proof fn lemma_derivative_follows_degree<T: PartialEq + Mul<Output = T>>(
    s: Seq<T>,
    units: Seq<T>,
    zero: T,
    d: Option<usize>,
)
    requires
        is_degree(s, zero, d),
    ensures
        (d matches Some(k) && k >= 1) ==> derivative_coeffs(s, units, zero) == Seq::new(
            (s.len() - 1) as nat,
            |i: int| s[i + 1].mul_spec(units[i]),
        ),
        !(d matches Some(k) && k >= 1) ==> derivative_coeffs(s, units, zero) == Seq::new(s.len(), |i: int| zero),
{
    match d {
        Some(k) => {
            if k >= 1 {
                assert(!s[k as int].eq_spec(&zero));
                assert(moves(s, zero));
            } else {
                assert(!moves(s, zero));
            }
        },
        None => {
            assert(!moves(s, zero));
        },
    }
}

/// Over `i64`, with `units[i]` the value `i + 1` and no product overflowing, the derivative of a
/// polynomial of degree `k >= 1` has degree `k - 1`.
pub proof fn lemma_derivative_degree_i64(s: Seq<i64>, units: Seq<i64>, k: usize)
    requires
        is_degree(s, 0i64, Some(k)),
        k >= 1,
        derivative_ok(s, units, 0i64),
        forall|i: int| 0 <= i < units.len() ==> #[trigger] units[i] == i + 1,
    ensures
        is_degree(derivative_coeffs(s, units, 0i64), 0i64, Some((k - 1) as usize)),
{
    lemma_derivative_follows_degree(s, units, 0i64, Some(k));
    let ds = derivative_coeffs(s, units, 0i64);
    assert(moves(s, 0i64)) by {
        assert(!s[k as int].eq_spec(&0i64));
    }
    let x = s[k as int] as int;
    assert(s[k as int].mul_req(units[k - 1]));
    assert(ds[k - 1] as int == x * (k as int)) by {
        assert(units[k - 1] == k);
    }
    assert(x != 0);
    assert(x * (k as int) != 0) by (nonlinear_arith)
        requires
            x != 0,
            k >= 1,
    ;
    assert forall|i: int| k - 1 < i < ds.len() implies (#[trigger] ds[i]).eq_spec(&0i64) by {
        assert(s[i + 1].eq_spec(&0i64));
        assert(s[i + 1].mul_req(units[i]));
    }
}

/// The coefficients of the `n`th derivative (see [`derivative_coeffs`]).
pub open spec fn nth_derivative_coeffs<T: PartialEq + Mul<Output = T>>(s: Seq<T>, n: nat, units: Seq<T>, zero: T) -> Seq<T>
    decreases n,
{
    if n == 0 {
        s
    } else {
        derivative_coeffs(nth_derivative_coeffs(s, (n - 1) as nat, units, zero), units, zero)
    }
}

/// Each of the first `n` derivatives can be computed (see [`derivative_ok`]).
pub open spec fn nth_derivative_ok<T: PartialEq + Mul<Output = T>>(s: Seq<T>, n: nat, units: Seq<T>, zero: T) -> bool
    decreases n,
{
    n == 0 || (nth_derivative_ok(s, (n - 1) as nat, units, zero) && derivative_ok(
        nth_derivative_coeffs(s, (n - 1) as nat, units, zero),
        units,
        zero,
    ))
}

impl<T: Copy + PartialEq + Mul<Output = T>> HeapPolynomial<T> {
    /// Replaces the polynomial by its derivative (see [`derivative_coeffs`]). `units[i]` is the
    /// value `i + 1` in `T`; it is read only when the degree is at least one.
    pub fn derivative_mut(&mut self, units: &[T], zero: &T)
        requires
            T::obeys_eq_spec(),
            T::obeys_mul_spec(),
            derivative_ok(old(self).coefficients@, units@, *zero),
        ensures
            final(self).coefficients@ == derivative_coeffs(old(self).coefficients@, units@, *zero),
    {
        let d = self.degree(zero);
        let ghost before = self.coefficients@;
        match d {
            Some(deg) => {
                if deg >= 1 {
                    assert(moves(before, *zero)) by {
                        assert(!before[deg as int].eq_spec(zero));
                    }
                    let n = self.coefficients.len();
                    for k in 0..n - 1
                        invariant
                            n == before.len(),
                            n >= 2,
                            self.coefficients@.len() == n,
                            T::obeys_mul_spec(),
                            n <= units@.len() + 1,
                            forall|i: int| 0 <= i < n - 1 ==> #[trigger] before[i + 1].mul_req(units@[i]),
                            forall|i: int|
                                0 <= i < k ==> #[trigger] self.coefficients@[i] == before[i + 1].mul_spec(
                                    units@[i],
                                ),
                            forall|i: int| k <= i < n ==> #[trigger] self.coefficients@[i] == before[i],
                    {
                        let next = self.coefficients[k + 1];
                        assert(next == before[k + 1]);
                        let v = next * units[k];
                        self.coefficients.set(k, v);
                    }
                    let _ = self.coefficients.pop();
                    assert(self.coefficients@ =~= derivative_coeffs(before, units@, *zero));
                    return ;
                }
            },
            None => {},
        }
        proof {
            if moves(before, *zero) {
                let i = choose|i: int| 1 <= i < before.len() && !(#[trigger] before[i]).eq_spec(zero);
                assert(!before[i].eq_spec(zero));
            }
        }
        self.set_zero(*zero);
        assert(self.coefficients@ =~= derivative_coeffs(before, units@, *zero));
    }

    /// Replaces the polynomial by its `n`th derivative (see [`nth_derivative_coeffs`]); when `n`
    /// is `0`, every coefficient becomes `zero` instead.
    pub fn nth_derivative_mut(&mut self, n: usize, units: &[T], zero: &T)
        requires
            T::obeys_eq_spec(),
            T::obeys_mul_spec(),
            nth_derivative_ok(old(self).coefficients@, n as nat, units@, *zero),
        ensures
            n == 0 ==> final(self).coefficients@ == Seq::new(old(self).coefficients@.len(), |i: int| *zero),
            n > 0 ==> final(self).coefficients@ == nth_derivative_coeffs(old(self).coefficients@, n as nat, units@, *zero),
    {
        if n == 0 {
            self.set_zero(*zero);
            assert(self.coefficients@ =~= Seq::new(old(self).coefficients@.len(), |i: int| *zero));
            return ;
        }
        let ghost start = self.coefficients@;
        for k in 0..n
            invariant
                T::obeys_eq_spec(),
                T::obeys_mul_spec(),
                k <= n,
                nth_derivative_ok(start, n as nat, units@, *zero),
                self.coefficients@ == nth_derivative_coeffs(start, k as nat, units@, *zero),
        {
            proof {
                lemma_nth_derivative_ok_prefix(start, n as nat, (k + 1) as nat, units@, *zero);
            }
            self.derivative_mut(units, zero);
        }
    }
}

/// The first derivatives that can be computed include the first `m` of them, `m <= n`.
proof fn lemma_nth_derivative_ok_prefix<T: PartialEq + Mul<Output = T>>(s: Seq<T>, n: nat, m: nat, units: Seq<T>, zero: T)
    requires
        nth_derivative_ok(s, n, units, zero),
        m <= n,
    ensures
        nth_derivative_ok(s, m, units, zero),
    decreases n,
{
    if m < n {
        lemma_nth_derivative_ok_prefix(s, (n - 1) as nat, m, units, zero);
    }
}

/// The index of the last of the first `k` coefficients of `s` that differs from `zero`, `-1`
/// when there is none.
pub open spec fn top<T: PartialEq>(s: Seq<T>, zero: T, k: int) -> int
    decreases k,
{
    if k <= 0 {
        -1
    } else if !s[k - 1].eq_spec(&zero) {
        k - 1
    } else {
        top(s, zero, k - 1)
    }
}

/// The number of Taylor coefficients of the polynomial of coefficients `s`: its degree plus
/// one, `0` for the zero polynomial.
pub open spec fn taylor_len<T: PartialEq>(s: Seq<T>, zero: T) -> int {
    top(s, zero, s.len() as int) + 1
}

/// The degree of `s` is the last coefficient that differs from `zero`, among the first `k`
/// from the degree on.
proof fn lemma_top_is_degree<T: PartialEq>(s: Seq<T>, zero: T, d: Option<usize>, k: int)
    requires
        is_degree(s, zero, d),
        0 <= k <= s.len(),
        d matches Some(d) ==> d < k,
    ensures
        top(s, zero, k) == match d {
            Some(d) => d as int,
            None => -1,
        },
    decreases k,
{
    if k > 0 {
        match d {
            Some(e) => {
                if k - 1 > e {
                    assert(s[k - 1].eq_spec(&zero));
                    lemma_top_is_degree(s, zero, d, k - 1);
                }
            },
            None => {
                assert(s[k - 1].eq_spec(&zero));
                lemma_top_is_degree(s, zero, d, k - 1);
            },
        }
    }
}

/// The Taylor coefficients of a polynomial can be computed at `point`: its first derivatives,
/// one per coefficient, and their values at `point`.
pub open spec fn taylor_ok<T: Copy + PartialEq + Add<Output = T> + Mul<Output = T>>(
    s: Seq<T>,
    point: T,
    units: Seq<T>,
    zero: T,
) -> bool {
    &&& nth_derivative_ok(s, taylor_len(s, zero) as nat, units, zero)
    &&& forall|i: nat| i < taylor_len(s, zero) ==> horner_ok(#[trigger] nth_derivative_coeffs(s, i, units, zero), point, zero)
}

/// The Taylor coefficients of a polynomial at `point`: `coefficients[i]` is the value at `point`
/// of its `i`th derivative.
#[derive(Clone, Debug)]
pub struct HeapTaylorPolynomial<T> {
    /// The point where the formula is constructed.
    pub point: T,
    /// The coefficients for the formula.
    pub coefficients: Vec<T>,
}

impl<T: Copy> HeapPolynomial<T> {
    /// A polynomial with the same coefficients.
    fn copied(&self) -> (r: Self)
        ensures
            r.coefficients@ == self.coefficients@,
    {
        let mut coefficients: Vec<T> = Vec::new();
        for i in 0..self.coefficients.len()
            invariant
                coefficients@ == self.coefficients@.subrange(0, i as int),
        {
            coefficients.push(self.coefficients[i]);
        }
        assert(coefficients@ =~= self.coefficients@);
        Self { coefficients }
    }
}

impl<T: Copy + PartialEq + Mul<Output = T>> HeapPolynomial<T> {
    /// The derivative (see [`derivative_coeffs`]).
    pub fn derivative(&self, units: &[T], zero: &T) -> (r: Self)
        requires
            T::obeys_eq_spec(),
            T::obeys_mul_spec(),
            derivative_ok(self.coefficients@, units@, *zero),
        ensures
            r.coefficients@ == derivative_coeffs(self.coefficients@, units@, *zero),
    {
        let mut x = self.copied();
        x.derivative_mut(units, zero);
        x
    }

    /// The `n`th derivative (see [`nth_derivative_coeffs`]): the same polynomial when `n` is
    /// `0`.
    pub fn nth_derivative(&self, n: usize, units: &[T], zero: &T) -> (r: Self)
        requires
            T::obeys_eq_spec(),
            T::obeys_mul_spec(),
            nth_derivative_ok(self.coefficients@, n as nat, units@, *zero),
        ensures
            r.coefficients@ == nth_derivative_coeffs(self.coefficients@, n as nat, units@, *zero),
    {
        let mut p = self.copied();
        if n > 0 {
            p.nth_derivative_mut(n, units, zero);
        }
        p
    }

    /// The Taylor coefficients at zero: `coefficients[i]` times `factorials[i]`, the value `i!`.
    pub fn taylor_at_0(&self, factorials: &[T], zero: T) -> (r: HeapTaylorPolynomial<T>)
        requires
            T::obeys_mul_spec(),
            self.coefficients@.len() <= factorials@.len(),
            forall|i: int| 0 <= i < self.coefficients@.len() ==> #[trigger] self.coefficients@[i].mul_req(factorials@[i]),
        ensures
            r.point == zero,
            r.coefficients@.len() == self.coefficients@.len(),
            forall|i: int| 0 <= i < r.coefficients@.len() ==> #[trigger] r.coefficients@[i] == self.coefficients@[i].mul_spec(
                factorials@[i],
            ),
    {
        let mut coefficients: Vec<T> = Vec::new();
        for i in 0..self.coefficients.len()
            invariant
                T::obeys_mul_spec(),
                self.coefficients@.len() <= factorials@.len(),
                forall|j: int| 0 <= j < self.coefficients@.len() ==> #[trigger] self.coefficients@[j].mul_req(factorials@[j]),
                coefficients@.len() == i,
                forall|j: int| 0 <= j < i ==> #[trigger] coefficients@[j] == self.coefficients@[j].mul_spec(factorials@[j]),
        {
            coefficients.push(self.coefficients[i] * factorials[i]);
        }
        HeapTaylorPolynomial { point: zero, coefficients }
    }
}

impl<T: Copy + PartialEq + Add<Output = T> + Mul<Output = T>> HeapPolynomial<T> {
    /// The Taylor coefficients at `point`: the values at `point` of the polynomial and of its
    /// derivatives, one per coefficient up to the degree; none for the zero polynomial.
    pub fn taylor(&self, point: T, units: &[T], zero: &T) -> (r: HeapTaylorPolynomial<T>)
        requires
            T::obeys_eq_spec(),
            T::obeys_add_spec(),
            T::obeys_mul_spec(),
            taylor_ok(self.coefficients@, point, units@, *zero),
        ensures
            r.point == point,
            r.coefficients@.len() == taylor_len(self.coefficients@, *zero),
            forall|i: int| 0 <= i < r.coefficients@.len() ==> #[trigger] r.coefficients@[i] == horner(
                nth_derivative_coeffs(self.coefficients@, i as nat, units@, *zero),
                point,
                *zero,
                0,
            ),
    {
        let ghost s = self.coefficients@;
        let n = self.coefficients.len();
        let d = self.degree(zero);
        proof {
            lemma_top_is_degree(s, *zero, d, s.len() as int);
        }
        let count = match d {
            None => {
                return HeapTaylorPolynomial { point, coefficients: Vec::new() };
            },
            Some(d) => {
                assert(d < n);
                d + 1
            },
        };
        let mut g = self.copied();
        let mut coefficients: Vec<T> = Vec::new();
        for i in 0..count
            invariant
                T::obeys_eq_spec(),
                T::obeys_add_spec(),
                T::obeys_mul_spec(),
                count == taylor_len(s, *zero),
                taylor_ok(s, point, units@, *zero),
                g.coefficients@ == nth_derivative_coeffs(s, i as nat, units@, *zero),
                coefficients@.len() == i,
                forall|j: int| 0 <= j < i ==> #[trigger] coefficients@[j] == horner(
                    nth_derivative_coeffs(s, j as nat, units@, *zero),
                    point,
                    *zero,
                    0,
                ),
        {
            assert(horner_ok(nth_derivative_coeffs(s, i as nat, units@, *zero), point, *zero));
            coefficients.push(g.apply(point, *zero));
            proof {
                lemma_nth_derivative_ok_prefix(s, count as nat, (i + 1) as nat, units@, *zero);
            }
            g.derivative_mut(units, zero);
        }
        HeapTaylorPolynomial { point, coefficients }
    }
}

impl<T: Copy + Add<Output = T> + Mul<Output = T>> HeapPolynomial<T> {
    /// The value of the polynomial at `x`, by Horner's scheme from `zero`.
    pub fn apply(&self, x: T, zero: T) -> (r: T)
        requires
            T::obeys_add_spec(),
            T::obeys_mul_spec(),
            horner_ok(self.coefficients@, x, zero),
        ensures
            r == horner(self.coefficients@, x, zero, 0),
    {
        let n = self.coefficients.len();
        let mut acc = zero;
        let mut k = n;
        while k > 0
            invariant
                k <= n,
                n == self.coefficients@.len(),
                T::obeys_add_spec(),
                T::obeys_mul_spec(),
                horner_ok(self.coefficients@, x, zero),
                acc == horner(self.coefficients@, x, zero, k as int),
            decreases k,
        {
            proof {
                assert(horner(self.coefficients@, x, zero, (k - 1) + 1).mul_req(x));
            }
            let p = acc * x;
            acc = p + self.coefficients[k - 1];
            k = k - 1;
        }
        acc
    }

    /// The sum of two polynomials: coefficients of the same degree are added, the others are
    /// kept.
    pub fn sum(&self, rhs: &Self) -> (r: Self)
        requires
            T::obeys_add_spec(),
            forall|i: int|
                0 <= i < self.coefficients@.len() && i < rhs.coefficients@.len() ==> (
                #[trigger] self.coefficients@[i]).add_req(rhs.coefficients@[i]),
        ensures
            r.coefficients@.len() == if self.coefficients@.len() >= rhs.coefficients@.len() {
                self.coefficients@.len()
            } else {
                rhs.coefficients@.len()
            },
            forall|i: int|
                0 <= i < r.coefficients@.len() ==> #[trigger] r.coefficients@[i] == if i
                    < self.coefficients@.len() && i < rhs.coefficients@.len() {
                    self.coefficients@[i].add_spec(rhs.coefficients@[i])
                } else if i < self.coefficients@.len() {
                    self.coefficients@[i]
                } else {
                    rhs.coefficients@[i]
                },
    {
        let a = self.coefficients.len();
        let b = rhs.coefficients.len();
        let n = if a >= b { a } else { b };
        let mut coefficients: Vec<T> = Vec::new();
        for i in 0..n
            invariant
                a == self.coefficients@.len(),
                b == rhs.coefficients@.len(),
                n == if a >= b { a } else { b },
                T::obeys_add_spec(),
                forall|k: int|
                    0 <= k < a && k < b ==> (#[trigger] self.coefficients@[k]).add_req(rhs.coefficients@[k]),
                coefficients@.len() == i,
                forall|k: int|
                    0 <= k < i ==> #[trigger] coefficients@[k] == if k < a && k < b {
                        self.coefficients@[k].add_spec(rhs.coefficients@[k])
                    } else if k < a {
                        self.coefficients@[k]
                    } else {
                        rhs.coefficients@[k]
                    },
        {
            let v = if i < a && i < b {
                self.coefficients[i] + rhs.coefficients[i]
            } else if i < a {
                self.coefficients[i]
            } else {
                rhs.coefficients[i]
            };
            coefficients.push(v);
        }
        Self { coefficients }
    }

    /// The polynomial times the scalar `rhs`: each coefficient is multiplied by `rhs`.
    pub fn scale(&self, rhs: T) -> (r: Self)
        requires
            T::obeys_mul_spec(),
            forall|i: int|
                0 <= i < self.coefficients@.len() ==> (#[trigger] self.coefficients@[i]).mul_req(rhs),
        ensures
            r.coefficients@.len() == self.coefficients@.len(),
            forall|i: int|
                0 <= i < r.coefficients@.len() ==> #[trigger] r.coefficients@[i]
                    == self.coefficients@[i].mul_spec(rhs),
    {
        let n = self.coefficients.len();
        let mut coefficients: Vec<T> = Vec::new();
        for i in 0..n
            invariant
                n == self.coefficients@.len(),
                T::obeys_mul_spec(),
                forall|k: int| 0 <= k < n ==> (#[trigger] self.coefficients@[k]).mul_req(rhs),
                coefficients@.len() == i,
                forall|k: int|
                    0 <= k < i ==> #[trigger] coefficients@[k] == self.coefficients@[k].mul_spec(rhs),
        {
            coefficients.push(self.coefficients[i] * rhs);
        }
        Self { coefficients }
    }
}

impl<T: Copy + PartialEq> HeapPolynomial<T> {
    /// The product of two polynomials, of which at least one must be the zero polynomial (every
    /// coefficient equal to `zero`): the product then is the zero polynomial, with no
    /// coefficient. The coefficients of the product of two non-zero polynomials are laid out in
    /// `deg(self) + deg(rhs)` cells, one fewer than the product has, so such a product has no
    /// result.
    pub fn product(&self, rhs: &Self, zero: &T) -> (r: Self)
        requires
            T::obeys_eq_spec(),
            is_degree(self.coefficients@, *zero, None) || is_degree(rhs.coefficients@, *zero, None),
        ensures
            r.coefficients@ == Seq::<T>::empty(),
    {
        let a = self.degree(zero);
        let b = rhs.degree(zero);
        if a.is_none() || b.is_none() {
            return Self::zero();
        }
        proof {
            assert(false);
        }
        Self::zero()
    }
}

} // verus!
