//! Planes and lines of the space of dimension 3, by a Cartesian equation or by a point and
//! direction vectors.
//!
//! The scalars are compared to zero with [`NearZero`], or exactly with `==` where the test is
//! exact.

use core::ops::{Add, Div, Mul, Neg, Sub};
use vstd::prelude::*;
use vstd::std_specs::cmp::PartialEqSpec;
use vstd::std_specs::ops::{AddSpec, DivSpec, MulSpec, NegSpec, SubSpec};
use crate::linear::elimination::{gaussian_steps, lemma_replay_ok_transfer, rank_of, rref_defined, total_arith, total_sub};
use crate::linear::family::{independent, is_independent};
use crate::linear::solver::rref_cells;
use crate::linear::gauss::replay_data;
use crate::linear::heap_matrix::HeapMatrix;
use crate::linear::vector::{dot_prefix, Vector};
use crate::traits::near_zero::NearZero;

verus! {

/// A line of the space.
#[derive(Clone, Copy, Debug)]
pub enum Line3<T> {
    /// The two Cartesian equations `[a, b, c, d]` of planes that meet on the line.
    Cartesian([[T; 4]; 2]),
    /// `(p, u)`: the points `p + t u`.
    Parametric(Vector<T, 3>, Vector<T, 3>),
}

/// What two planes have in common.
#[derive(Clone, Copy, Debug)]
pub enum Plane3Intersection<T> {
    /// The planes do not meet.
    NoIntersection,
    /// The planes are the same.
    Plane(Plane3<T>),
    /// The planes meet on a line.
    Line(Line3<T>),
}

/// A plane of the space.
#[derive(Clone, Copy, Debug)]
pub enum Plane3<T> {
    /// `[a, b, c, d]`: the points `(x, y, z)` with `a x + b y + c z + d = 0`.
    Cartesian([T; 4]),
    /// `(p, u, v)`: the points `p + t u + t' v`.
    Parametric(Vector<T, 3>, Vector<T, 3>, Vector<T, 3>),
}

/// `a x + b y + c z + d`, summed left to right, for `e = [a, b, c, d]` and `p = (x, y, z)`.
pub open spec fn cartesian_value<T: Add<Output = T> + Mul<Output = T>>(e: Seq<T>, p: Seq<T>) -> T {
    e[0].mul_spec(p[0]).add_spec(e[1].mul_spec(p[1])).add_spec(e[2].mul_spec(p[2])).add_spec(e[3])
}

/// The cross product `u x v`.
pub open spec fn cross3<T: Sub<Output = T> + Mul<Output = T>>(u: Seq<T>, v: Seq<T>) -> Seq<T> {
    seq![
        u[1].mul_spec(v[2]).sub_spec(u[2].mul_spec(v[1])),
        u[2].mul_spec(v[0]).sub_spec(u[0].mul_spec(v[2])),
        u[0].mul_spec(v[1]).sub_spec(u[1].mul_spec(v[0])),
    ]
}

/// The difference `a - b`, coordinate by coordinate.
pub open spec fn minus3<T: Sub<Output = T>>(a: Seq<T>, b: Seq<T>) -> Seq<T> {
    seq![a[0].sub_spec(b[0]), a[1].sub_spec(b[1]), a[2].sub_spec(b[2])]
}

/// The sum `a + b`, coordinate by coordinate.
pub open spec fn plus3<T: Add<Output = T>>(a: Seq<T>, b: Seq<T>) -> Seq<T> {
    seq![a[0].add_spec(b[0]), a[1].add_spec(b[1]), a[2].add_spec(b[2])]
}

/// The value whose zero test says if `point` is on `plane`: the left member of the Cartesian
/// equation, or the dot product of the normal `u x v` with `point - p` (from `zero`).
pub open spec fn plane_gap<T: Add<Output = T> + Sub<Output = T> + Mul<Output = T>>(
    plane: Plane3<T>,
    point: Seq<T>,
    zero: T,
) -> T {
    match plane {
        Plane3::Cartesian(e) => cartesian_value(e@, point),
        Plane3::Parametric(p, u, v) => dot_prefix(cross3(u.scalars@, v.scalars@), minus3(point, p.scalars@), 3, zero),
    }
}

/// The cells, row after row, of the `3 x 2` matrix whose columns are `u` and `v`.
pub open spec fn columns_cells<T>(u: Seq<T>, v: Seq<T>) -> Seq<T> {
    seq![u[0], v[0], u[1], v[1], u[2], v[2]]
}

/// The cells, row after row, of the `3 x 4` matrix: the identity followed by the column `-p`.
pub open spec fn augmented_cells<T: Neg<Output = T>>(p: Seq<T>, zero: T, one: T) -> Seq<T> {
    seq![
        one, zero, zero, p[0].neg_spec(),
        zero, one, zero, p[1].neg_spec(),
        zero, zero, one, p[2].neg_spec(),
    ]
}

impl<T: Copy + NearZero + PartialEq + Add<Output = T> + Sub<Output = T> + Mul<Output = T> + Div<Output = T> + Neg<Output = T>> Plane3<T> {
    /// The value whose zero test says if `point` is on the plane (see [`plane_gap`]).
    fn gap(&self, point: &Vector<T, 3>, zero: T) -> (r: T)
        requires
            T::obeys_add_spec(),
            T::obeys_sub_spec(),
            T::obeys_mul_spec(),
            total_arith::<T>(),
            total_sub::<T>(),
        ensures
            r == plane_gap(*self, point.scalars@, zero),
    {
        match self {
            Plane3::Cartesian(e) => {
                let x = point.scalars[0];
                let y = point.scalars[1];
                let z = point.scalars[2];
                e[0] * x + e[1] * y + e[2] * z + e[3]
            },
            Plane3::Parametric(p, u, v) => {
                let normal = u.cross(v);
                let vec = point.difference(p);
                assert(normal.scalars@ =~= cross3(u.scalars@, v.scalars@));
                assert(vec.scalars@ =~= minus3(point.scalars@, p.scalars@));
                normal.dot(&vec, zero)
            },
        }
    }

    /// Checks if `point` is on the plane, exactly: the left member of the Cartesian equation,
    /// or the dot product of the normal with `point - p`, equals `zero`.
    pub fn is_in(&self, point: &Vector<T, 3>, zero: T) -> (r: bool)
        requires
            T::obeys_add_spec(),
            T::obeys_sub_spec(),
            T::obeys_mul_spec(),
            T::obeys_eq_spec(),
            total_arith::<T>(),
            total_sub::<T>(),
        ensures
            r == plane_gap(*self, point.scalars@, zero).eq_spec(&zero),
    {
        self.gap(point, zero) == zero
    }

    /// Checks if `point` is on the plane, up to rounding: the left member of the Cartesian
    /// equation, or the dot product of the normal with `point - p`, is near zero.
    pub fn is_in_float(&self, point: &Vector<T, 3>, zero: T) -> (r: bool)
        requires
            T::obeys_add_spec(),
            T::obeys_sub_spec(),
            T::obeys_mul_spec(),
            total_arith::<T>(),
            total_sub::<T>(),
        ensures
            r == plane_gap(*self, point.scalars@, zero).near_zero_spec(),
    {
        self.gap(point, zero).is_near_zero()
    }

    /// The plane by a point and two direction vectors; unchanged when it already is. For
    /// `a x + b y + c z + d = 0`: `u = (-b, a, 0)` (`-1` being `zero - one`), `v = (a, b, c) x u`,
    /// and the point `(-d / a, 0, 0)` when `a` is not near zero, else `(0, -d / b, 0)` when `b`
    /// is not, else `(0, 0, -d / c)`. The normal `(a, b, c)` must not be exactly zero.
    pub fn to_parametric(&self, zero: T, one: T) -> (r: Self)
        requires
            T::obeys_add_spec(),
            T::obeys_sub_spec(),
            T::obeys_mul_spec(),
            T::obeys_div_spec(),
            T::obeys_neg_spec(),
            T::obeys_eq_spec(),
            total_arith::<T>(),
            total_sub::<T>(),
            self matches Plane3::Cartesian(e) ==> !(e@[0].eq_spec(&zero) && e@[1].eq_spec(&zero) && e@[2].eq_spec(
                &zero,
            )),
        ensures
            self is Parametric ==> r == *self,
            self matches Plane3::Cartesian(e) ==> ({
                let (a, b, c, d) = (e@[0], e@[1], e@[2], e@[3]);
                let minus_one = zero.sub_spec(one);
                let u = seq![b.mul_spec(minus_one), a, zero];
                &&& r matches Plane3::Parametric(p, ru, rv)
                &&& ru.scalars@ == u
                &&& rv.scalars@ == cross3(seq![a, b, c], u)
                &&& p.scalars@ == if !a.near_zero_spec() {
                    seq![d.neg_spec().div_spec(a), zero, zero]
                } else if !b.near_zero_spec() {
                    seq![zero, d.neg_spec().div_spec(b), zero]
                } else {
                    seq![zero, zero, d.neg_spec().div_spec(c)]
                }
            }),
    {
        match self {
            Plane3::Parametric(..) => *self,
            Plane3::Cartesian(e) => {
                let a = e[0];
                let b = e[1];
                let c = e[2];
                let d = e[3];
                let minus_one = zero - one;
                let normal = Vector::new([a, b, c]);
                let u = Vector::new([b * minus_one, a, zero]);
                let v = normal.cross(&u);
                let point = if !a.is_near_zero() {
                    Vector::new([d.neg() / a, zero, zero])
                } else if !b.is_near_zero() {
                    Vector::new([zero, d.neg() / b, zero])
                } else {
                    Vector::new([zero, zero, d.neg() / c])
                };
                let r = Plane3::Parametric(point, u, v);
                proof {
                    assert(u.scalars@ =~= seq![b.mul_spec(minus_one), a, zero]);
                    assert(v.scalars@ =~= cross3(seq![a, b, c], u.scalars@));
                    if !a.near_zero_spec() {
                        assert(point.scalars@ =~= seq![d.neg_spec().div_spec(a), zero, zero]);
                    } else if !b.near_zero_spec() {
                        assert(point.scalars@ =~= seq![zero, d.neg_spec().div_spec(b), zero]);
                    } else {
                        assert(point.scalars@ =~= seq![zero, zero, d.neg_spec().div_spec(c)]);
                    }
                }
                r
            },
        }
    }

    /// The plane by a Cartesian equation; unchanged when it already is. For the point `p` and
    /// the directions `u`, `v`: the Gaussian elimination of the `3 x 2` matrix of columns `u`
    /// and `v` is replayed on the identity followed by the column `-p`, whose last row is then
    /// `[a, b, c, d]`. `None` when the elimination leaves fewer than two rows: `u` and `v` do
    /// not span a plane.
    pub fn to_cartesian(&self, zero: T, one: T) -> (r: Option<Self>)
        requires
            T::obeys_add_spec(),
            T::obeys_mul_spec(),
            T::obeys_div_spec(),
            T::obeys_neg_spec(),
            total_arith::<T>(),
        ensures
            self is Cartesian ==> r == Some(*self),
            self matches Plane3::Parametric(p, u, v) ==> ({
                let cells = columns_cells(u.scalars@, v.scalars@);
                let steps = gaussian_steps(cells, 3, 2, one);
                let out = replay_data(augmented_cells(p.scalars@, zero, one), 3, 4, steps);
                &&& rank_of(replay_data(cells, 3, 2, steps), 2, 3) < 2 ==> r is None
                &&& rank_of(replay_data(cells, 3, 2, steps), 2, 3) >= 2 ==> (r matches Some(Plane3::Cartesian(e))
                    && e@ == out.subrange(8, 12))
            }),
    {
        match self {
            Plane3::Cartesian(..) => Some(*self),
            Plane3::Parametric(p, u, v) => {
                let mut cells: Vec<T> = Vec::new();
                for i in 0..3
                    invariant
                        cells@ =~= columns_cells(u.scalars@, v.scalars@).subrange(0, 2 * i as int),
                {
                    cells.push(u.scalars[i]);
                    cells.push(v.scalars[i]);
                }
                assert(columns_cells(u.scalars@, v.scalars@).subrange(0, 6) =~= columns_cells(u.scalars@, v.scalars@));
                let mut m = HeapMatrix::new(cells, 3, 2);
                let ghost start = m.data@;
                let steps = m.record_gaussian_elimination_mut(one);
                if m.rank_float() < 2 {
                    return None;
                }
                let mut aug: Vec<T> = Vec::new();
                for i in 0..3
                    invariant
                        aug@ =~= augmented_cells(p.scalars@, zero, one).subrange(0, 4 * i as int),
                        T::obeys_neg_spec(),
                        total_arith::<T>(),
                {
                    aug.push(if i == 0 { one } else { zero });
                    aug.push(if i == 1 { one } else { zero });
                    aug.push(if i == 2 { one } else { zero });
                    aug.push(p.scalars[i].neg());
                }
                assert(augmented_cells(p.scalars@, zero, one).subrange(0, 12) =~= augmented_cells(p.scalars@, zero, one));
                let mut a = HeapMatrix::new(aug, 3, 4);
                proof {
                    lemma_replay_ok_transfer(start, 2, a.data@, 4, 3, steps@);
                }
                a.replay_steps_mut(steps.as_slice());
                let e = [*a.index((2, 0)), *a.index((2, 1)), *a.index((2, 2)), *a.index((2, 3))];
                assert(e@ =~= a.data@.subrange(8, 12));
                Some(Plane3::Cartesian(e))
            },
        }
    }
}

/// The planes `a` and `b` are given by Cartesian equations, and the reduced row echelon form of
/// the `2 x 4` matrix of their coefficients can be computed and has two rows left: they meet in
/// a line.
pub open spec fn meets_in_line<T: Copy + NearZero + Add<Output = T> + Mul<Output = T> + Div<Output = T> + Neg<Output = T>>(
    a: Plane3<T>,
    b: Plane3<T>,
    one: T,
) -> bool {
    match (a, b) {
        (Plane3::Cartesian(x), Plane3::Cartesian(y)) => rref_defined(x@ + y@, 2, 4, one) && rank_of(
            rref_cells(x@ + y@, 2, 4, one),
            4,
            2,
        ) == 2,
        _ => false,
    }
}

/// The first of the coordinates `i`, ..., `2` of `b` that is not near zero.
pub open spec fn first_not_near_zero<T: NearZero>(b: Seq<T>, i: int) -> Option<int>
    decreases 3 - i,
{
    if i >= 3 || i < 0 {
        None
    } else if !b[i].near_zero_spec() {
        Some(i)
    } else {
        first_not_near_zero(b, i + 1)
    }
}

/// The plane `plane` holds, up to rounding, `p`, `p + u` and `p + v`, where `u` and `v` are
/// independent.
pub open spec fn holds_parametric<T: Copy + NearZero + Add<Output = T> + Sub<Output = T> + Mul<Output = T> + Div<Output = T> + Neg<Output = T>>(
    plane: Plane3<T>,
    p: Vector<T, 3>,
    u: Vector<T, 3>,
    v: Vector<T, 3>,
    zero: T,
    one: T,
) -> bool {
    &&& independent(seq![u, v], zero, one)
    &&& plane_gap(plane, p.scalars@, zero).near_zero_spec()
    &&& plane_gap(plane, plus3(p.scalars@, u.scalars@), zero).near_zero_spec()
    &&& plane_gap(plane, plus3(p.scalars@, v.scalars@), zero).near_zero_spec()
}

/// The left member of the Cartesian equation `e` at the point `(x, y, z)`, over the integers.
pub open spec fn equation_at(e: Seq<i64>, x: int, y: int, z: int) -> int {
    e[0] * x + e[1] * y + e[2] * z + e[3]
}

/// The `i64` value of the left member of `e` at `q` is computed without overflow.
pub open spec fn value_exact(e: Seq<i64>, q: Seq<i64>) -> bool {
    let m0 = e[0] * q[0];
    let m1 = e[1] * q[1];
    let m2 = e[2] * q[2];
    &&& i64::MIN <= m0 <= i64::MAX
    &&& i64::MIN <= m1 <= i64::MAX
    &&& i64::MIN <= m2 <= i64::MAX
    &&& i64::MIN <= m0 + m1 <= i64::MAX
    &&& i64::MIN <= m0 + m1 + m2 <= i64::MAX
    &&& i64::MIN <= m0 + m1 + m2 + e[3] <= i64::MAX
}

/// The `i64` sum of the points `a` and `b` is computed without overflow.
pub open spec fn sum_exact(a: Seq<i64>, b: Seq<i64>) -> bool {
    forall|i: int| 0 <= i < 3 ==> i64::MIN <= #[trigger] a[i] + b[i] <= i64::MAX
}

/// Over `i64`, a value computed without overflow is the integer value of the equation.
proof fn lemma_value_exact(e: Seq<i64>, q: Seq<i64>)
    requires
        value_exact(e, q),
    ensures
        cartesian_value(e, q) as int == equation_at(e, q[0] as int, q[1] as int, q[2] as int),
{
}

/// `a (x + u + s v)` splits into `a x + a u + s (a v)`.
proof fn lemma_term(a: int, x: int, u: int, s: int, v: int)
    ensures
        a * (x + u + s * v) == a * x + a * u + s * (a * v),
{
    vstd::arithmetic::mul::lemma_mul_is_distributive_add(a, x + u, s * v);
    vstd::arithmetic::mul::lemma_mul_is_distributive_add(a, x, u);
    vstd::arithmetic::mul::lemma_mul_is_associative(a, s, v);
    vstd::arithmetic::mul::lemma_mul_is_associative(s, a, v);
    vstd::arithmetic::mul::lemma_mul_is_commutative(a, s);
}

/// `a (x + u0 + s v0) + b (y + u1 + s v1) + c (z + u2 + s v2)` splits into its parts.
proof fn lemma_linear3(a: int, b: int, c: int, x: int, y: int, z: int, u0: int, u1: int, u2: int, v0: int, v1: int, v2: int, s: int)
    ensures
        a * (x + u0 + s * v0) + b * (y + u1 + s * v1) + c * (z + u2 + s * v2) == (a * x + b * y + c * z) + (a * u0 + b
            * u1 + c * u2) + s * (a * v0 + b * v1 + c * v2),
{
    lemma_term(a, x, u0, s, v0);
    lemma_term(b, y, u1, s, v1);
    lemma_term(c, z, u2, s, v2);
    vstd::arithmetic::mul::lemma_mul_is_distributive_add(s, a * v0 + b * v1, c * v2);
    vstd::arithmetic::mul::lemma_mul_is_distributive_add(s, a * v0, b * v1);
}

/// A Cartesian plane found equal to a parametric plane (see [`same_plane`]) holds every point
/// `p + t u + t' v` of the parametric plane, over `i64` when the values checked are computed
/// without overflow: its equation is zero there for all integers `t` and `t'`.
pub proof fn lemma_equal_planes_share_points(e: [i64; 4], p: Vector<i64, 3>, u: Vector<i64, 3>, v: Vector<i64, 3>, t: int, t2: int)
    requires
        same_plane(Plane3::Cartesian(e), Plane3::Parametric(p, u, v), 0i64, 1i64),
        sum_exact(p.scalars@, u.scalars@),
        sum_exact(p.scalars@, v.scalars@),
        value_exact(e@, p.scalars@),
        value_exact(e@, plus3(p.scalars@, u.scalars@)),
        value_exact(e@, plus3(p.scalars@, v.scalars@)),
    ensures
        equation_at(
            e@,
            p.scalars@[0] + t * u.scalars@[0] + t2 * v.scalars@[0],
            p.scalars@[1] + t * u.scalars@[1] + t2 * v.scalars@[1],
            p.scalars@[2] + t * u.scalars@[2] + t2 * v.scalars@[2],
        ) == 0,
{
    let (ps, us, vs) = (p.scalars@, u.scalars@, v.scalars@);
    let pu = plus3(ps, us);
    let pv = plus3(ps, vs);
    assert(ps[0] + us[0] == pu[0] && ps[1] + us[1] == pu[1] && ps[2] + us[2] == pu[2]) by {
        assert(i64::MIN <= ps[0] + us[0] <= i64::MAX);
        assert(i64::MIN <= ps[1] + us[1] <= i64::MAX);
        assert(i64::MIN <= ps[2] + us[2] <= i64::MAX);
    }
    assert(ps[0] + vs[0] == pv[0] && ps[1] + vs[1] == pv[1] && ps[2] + vs[2] == pv[2]) by {
        assert(i64::MIN <= ps[0] + vs[0] <= i64::MAX);
        assert(i64::MIN <= ps[1] + vs[1] <= i64::MAX);
        assert(i64::MIN <= ps[2] + vs[2] <= i64::MAX);
    }
    lemma_value_exact(e@, ps);
    lemma_value_exact(e@, pu);
    lemma_value_exact(e@, pv);
    let (a, b, c, d) = (e@[0] as int, e@[1] as int, e@[2] as int, e@[3] as int);
    let (x, y, z) = (ps[0] as int, ps[1] as int, ps[2] as int);
    let (u0, u1, u2) = (us[0] as int, us[1] as int, us[2] as int);
    let (v0, v1, v2) = (vs[0] as int, vs[1] as int, vs[2] as int);
    let lu = a * u0 + b * u1 + c * u2;
    let lv = a * v0 + b * v1 + c * v2;
    let lp = a * x + b * y + c * z;
    assert(lp + d == 0);
    assert(a * (x + u0) + b * (y + u1) + c * (z + u2) + d == 0);
    assert(a * (x + v0) + b * (y + v1) + c * (z + v2) + d == 0);
    lemma_linear3(a, b, c, x, y, z, u0, u1, u2, 0, 0, 0, 0);
    assert(lu == 0);
    lemma_linear3(a, b, c, x, y, z, 0, 0, 0, v0, v1, v2, 1);
    assert(lv == 0);
    lemma_linear3(a, b, c, 0, 0, 0, 0, 0, 0, u0, u1, u2, t);
    lemma_linear3(a, b, c, x, y, z, t * u0, t * u1, t * u2, v0, v1, v2, t2);
    assert(t * lu == 0);
    assert(t2 * lv == 0);
}

/// Over `i64`, dividing `-a` by `-b` gives the quotient of `a` by `b`.
proof fn lemma_div_negated(a: i64, b: i64)
    requires
        b != 0,
        a != i64::MIN,
        b != i64::MIN,
    ensures
        ((-a) as i64).div_spec((-b) as i64) == a.div_spec(b),
{
    let (x, y) = (a as int, b as int);
    if x >= 0 {
        if y > 0 {
            assert((-x) < 0 || x == 0);
            assert(-(x / y) == -((x) / y));
        }
        assert(x / (-y) == -(x / y)) by (nonlinear_arith)
            requires
                x >= 0,
                y != 0,
        ;
    } else {
        assert((-x) / (-y) == -((-x) / y)) by (nonlinear_arith)
            requires
                -x > 0,
                y != 0,
        ;
    }
}

/// Over `i64`, an equation whose normal `(x[0], x[1], x[2])` is not zero gives a plane equal to
/// itself and to the plane of the opposite equation `-x` (the same points): Cartesian equations
/// are compared up to a factor, whatever the sign of their first coefficient that is not zero.
pub proof fn lemma_cartesian_equal_up_to_sign(x: [i64; 4], y: [i64; 4])
    requires
        forall|i: int| 0 <= i < 4 ==> #[trigger] x@[i] != i64::MIN,
        forall|i: int| 0 <= i < 4 ==> #[trigger] y@[i] as int == -(x@[i] as int),
        x@[0] != 0 || x@[1] != 0 || x@[2] != 0,
    ensures
        same_plane(Plane3::Cartesian(x), Plane3::Cartesian(x), 0i64, 1i64),
        same_plane(Plane3::Cartesian(x), Plane3::Cartesian(y), 0i64, 1i64),
{
    reveal_with_fuel(first_not_near_zero, 4);
    assert(y@[0] as int == -(x@[0] as int) && y@[1] as int == -(x@[1] as int) && y@[2] as int == -(x@[2] as int)
        && y@[3] as int == -(x@[3] as int));
    let k: int = if x@[0] != 0 {
        0
    } else if x@[1] != 0 {
        1
    } else {
        2
    };
    assert(first_not_near_zero(x@, 0) == Some(k));
    assert(first_not_near_zero(y@, 0) == Some(k));
    assert forall|i: int| 0 <= i < 4 implies (#[trigger] x@[i].div_spec(x@[k])).eq_spec(&y@[i].div_spec(y@[k])) by {
        lemma_div_negated(x@[i], x@[k]);
        assert(y@[i] == (-x@[i]) as i64);
        assert(y@[k] == (-x@[k]) as i64);
    }
}

/// The planes `a` and `b` are found equal. Two Cartesian equations: with `k` the first of the
/// first three coefficients of `b` that is not near zero, the coefficient `a[k]` is not near
/// zero either and the coefficients of `a` divided by `a[k]` equal those of `b` divided by
/// `b[k]` (the equations are proportional); with no such `k`, every coefficient of `a` is near
/// zero. Two parametric
/// planes: each holds the point of the other, and neither direction of `b` is independent of
/// the directions of `a`. A Cartesian and a parametric plane: see [`holds_parametric`].
pub open spec fn same_plane<T: Copy + NearZero + PartialEq + Add<Output = T> + Sub<Output = T> + Mul<Output = T> + Div<Output = T> + Neg<Output = T>>(
    a: Plane3<T>,
    b: Plane3<T>,
    zero: T,
    one: T,
) -> bool {
    match (a, b) {
        (Plane3::Cartesian(x), Plane3::Cartesian(y)) => match first_not_near_zero(y@, 0) {
            None => forall|i: int| 0 <= i < 4 ==> (#[trigger] x@[i]).near_zero_spec(),
            Some(k) => !x@[k].near_zero_spec() && forall|i: int|
                0 <= i < 4 ==> (#[trigger] x@[i].div_spec(x@[k])).eq_spec(&y@[i].div_spec(y@[k])),
        },
        (Plane3::Parametric(p1, u1, v1), Plane3::Parametric(p2, u2, v2)) => {
            &&& plane_gap(a, p2.scalars@, zero).near_zero_spec()
            &&& plane_gap(b, p1.scalars@, zero).near_zero_spec()
            &&& !independent(seq![u1, v1, u2], zero, one)
            &&& !independent(seq![u1, v1, v2], zero, one)
        },
        (Plane3::Cartesian(_), Plane3::Parametric(p, u, v)) => holds_parametric(a, p, u, v, zero, one),
        (Plane3::Parametric(p, u, v), Plane3::Cartesian(_)) => holds_parametric(b, p, u, v, zero, one),
    }
}

/// `true` when the four coefficients are near zero.
fn all_near_zero<T: NearZero>(x: &[T; 4]) -> (r: bool)
    ensures
        r == forall|i: int| 0 <= i < 4 ==> (#[trigger] x@[i]).near_zero_spec(),
{
    for i in 0..4
        invariant
            forall|j: int| 0 <= j < i ==> (#[trigger] x@[j]).near_zero_spec(),
    {
        if !x[i].is_near_zero() {
            assert(!x@[i as int].near_zero_spec());
            return false;
        }
    }
    true
}

/// `true` when each coefficient of `x` divided by `px` equals that of `y` divided by `py`.
fn same_ratios<T: Copy + PartialEq + Div<Output = T>>(x: &[T; 4], px: T, y: &[T; 4], py: T) -> (r: bool)
    requires
        T::obeys_div_spec(),
        T::obeys_eq_spec(),
        forall|a: T, b: T| #[trigger] a.div_req(b),
    ensures
        r == forall|i: int| 0 <= i < 4 ==> (#[trigger] x@[i].div_spec(px)).eq_spec(&y@[i].div_spec(py)),
{
    for i in 0..4
        invariant
            T::obeys_div_spec(),
            T::obeys_eq_spec(),
            forall|a: T, b: T| #[trigger] a.div_req(b),
            forall|j: int| 0 <= j < i ==> (#[trigger] x@[j].div_spec(px)).eq_spec(&y@[j].div_spec(py)),
    {
        if !(x[i] / px == y[i] / py) {
            assert(!(x@[i as int].div_spec(px)).eq_spec(&y@[i as int].div_spec(py)));
            return false;
        }
    }
    true
}

/// The first of the coordinates `0`, `1`, `2` of `b` that is not near zero.
fn find_not_near_zero<T: NearZero>(b: &[T; 4]) -> (r: Option<usize>)
    ensures
        match first_not_near_zero(b@, 0) {
            None => r is None,
            Some(k) => r matches Some(j) && j == k,
        },
        r matches Some(j) ==> j < 3,
{
    proof {
        reveal_with_fuel(first_not_near_zero, 4);
    }
    if !b[0].is_near_zero() {
        Some(0)
    } else if !b[1].is_near_zero() {
        Some(1)
    } else if !b[2].is_near_zero() {
        Some(2)
    } else {
        None
    }
}

impl<T: Copy + NearZero + PartialEq + Add<Output = T> + Sub<Output = T> + Mul<Output = T> + Div<Output = T> + Neg<Output = T>> Plane3<T> {
    /// Checks if the planes are equal, up to rounding (see [`same_plane`]).
    pub fn eq(&self, other: &Self, zero: T, one: T) -> (r: bool)
        requires
            T::obeys_add_spec(),
            T::obeys_sub_spec(),
            T::obeys_mul_spec(),
            T::obeys_div_spec(),
            T::obeys_neg_spec(),
            T::obeys_eq_spec(),
            total_arith::<T>(),
            total_sub::<T>(),
        ensures
            r == same_plane(*self, *other, zero, one),
    {
        match (self, other) {
            (Plane3::Cartesian(x), Plane3::Cartesian(y)) => match find_not_near_zero(y) {
                None => all_near_zero(x),
                Some(k) => !x[k].is_near_zero() && same_ratios(x, x[k], y, y[k]),
            },
            (Plane3::Parametric(p1, u1, v1), Plane3::Parametric(p2, u2, v2)) => {
                if !self.is_in_float(p2, zero) || !other.is_in_float(p1, zero) {
                    return false;
                }
                let first = [*u1, *v1, *u2];
                let second = [*u1, *v1, *v2];
                assert(first@ =~= seq![*u1, *v1, *u2]);
                assert(second@ =~= seq![*u1, *v1, *v2]);
                !is_independent(&first, zero, one) && !is_independent(&second, zero, one)
            },
            (Plane3::Cartesian(_), Plane3::Parametric(p, u, v)) => self.holds(p, u, v, zero, one),
            (Plane3::Parametric(p, u, v), Plane3::Cartesian(_)) => other.holds(p, u, v, zero, one),
        }
    }

    /// Checks if the planes differ, up to rounding (see [`same_plane`]).
    pub fn ne(&self, other: &Self, zero: T, one: T) -> (r: bool)
        requires
            T::obeys_add_spec(),
            T::obeys_sub_spec(),
            T::obeys_mul_spec(),
            T::obeys_div_spec(),
            T::obeys_neg_spec(),
            T::obeys_eq_spec(),
            total_arith::<T>(),
            total_sub::<T>(),
        ensures
            r == !same_plane(*self, *other, zero, one),
    {
        !self.eq(other, zero, one)
    }

    /// Checks [`holds_parametric`]: the plane holds `p`, `p + u` and `p + v`, with `u` and `v`
    /// independent.
    fn holds(&self, p: &Vector<T, 3>, u: &Vector<T, 3>, v: &Vector<T, 3>, zero: T, one: T) -> (r: bool)
        requires
            T::obeys_add_spec(),
            T::obeys_sub_spec(),
            T::obeys_mul_spec(),
            T::obeys_div_spec(),
            T::obeys_neg_spec(),
            total_arith::<T>(),
            total_sub::<T>(),
        ensures
            r == holds_parametric(*self, *p, *u, *v, zero, one),
    {
        let pair = [*u, *v];
        assert(pair@ =~= seq![*u, *v]);
        if !is_independent(&pair, zero, one) {
            return false;
        }
        let pu = p.sum(u);
        let pv = p.sum(v);
        assert(pu.scalars@ =~= plus3(p.scalars@, u.scalars@));
        assert(pv.scalars@ =~= plus3(p.scalars@, v.scalars@));
        self.is_in_float(p, zero) && self.is_in_float(&pu, zero) && self.is_in_float(&pv, zero)
    }

    /// The matrix of the coefficients of two Cartesian equations, one row each.
    fn coefficient_matrix(x: &[T; 4], y: &[T; 4]) -> (m: HeapMatrix<T>)
        ensures
            m.rows == 2,
            m.cols == 4,
            m.data@ == x@ + y@,
    {
        let mut cells: Vec<T> = Vec::new();
        for i in 0..4
            invariant
                cells@ =~= x@.subrange(0, i as int),
        {
            cells.push(x[i]);
        }
        for i in 0..4
            invariant
                cells@ =~= x@ + y@.subrange(0, i as int),
        {
            cells.push(y[i]);
        }
        assert(cells@ =~= x@ + y@);
        HeapMatrix::new(cells, 2, 4)
    }

    /// Whether the planes meet in a line that [`Plane3::intersection`] gives (see
    /// [`meets_in_line`]).
    pub fn intersects_in_line(&self, rhs: &Self, one: T) -> (r: bool)
        requires
            T::obeys_add_spec(),
            T::obeys_mul_spec(),
            T::obeys_div_spec(),
            T::obeys_neg_spec(),
            total_arith::<T>(),
        ensures
            r == meets_in_line(*self, *rhs, one),
    {
        match (self, rhs) {
            (Plane3::Cartesian(x), Plane3::Cartesian(y)) => {
                let mut m = Self::coefficient_matrix(x, y);
                if m.record_rref_mut(one).is_none() {
                    return false;
                }
                m.rank_float() == 2
            },
            _ => false,
        }
    }

    /// What two planes given by Cartesian equations have in common, when the reduced row
    /// echelon form of the `2 x 4` matrix of their coefficients can be computed and has two rows
    /// left (see [`meets_in_line`]): the line of the two equations, given by the rows of that
    /// form.
    pub fn intersection(&self, rhs: &Self, one: T) -> (r: Plane3Intersection<T>)
        requires
            T::obeys_add_spec(),
            T::obeys_mul_spec(),
            T::obeys_div_spec(),
            T::obeys_neg_spec(),
            total_arith::<T>(),
            meets_in_line(*self, *rhs, one),
        ensures
            match (*self, *rhs) {
                (Plane3::Cartesian(x), Plane3::Cartesian(y)) => {
                    let e = rref_cells(x@ + y@, 2, 4, one);
                    &&& r matches Plane3Intersection::Line(Line3::Cartesian(d))
                    &&& forall|i: int, j: int| 0 <= i < 2 && 0 <= j < 4 ==> #[trigger] d@[i]@[j] == e[i * 4 + j]
                },
                _ => false,
            },
    {
        match (self, rhs) {
            (Plane3::Cartesian(x), Plane3::Cartesian(y)) => {
                let mut m = Self::coefficient_matrix(x, y);
                let _ = m.record_rref_mut(one);
                let d = [
                    [*m.index((0, 0)), *m.index((0, 1)), *m.index((0, 2)), *m.index((0, 3))],
                    [*m.index((1, 0)), *m.index((1, 1)), *m.index((1, 2)), *m.index((1, 3))],
                ];
                let r = Plane3Intersection::Line(Line3::Cartesian(d));
                proof {
                    assert forall|i: int, j: int| 0 <= i < 2 && 0 <= j < 4 implies #[trigger] d@[i]@[j] == m.data@[i * 4 + j] by {
                        if i == 0 {
                        } else {
                        }
                    }
                }
                r
            },
            _ => {
                proof {
                    assert(false);
                }
                Plane3Intersection::NoIntersection
            },
        }
    }
}

impl<T: Copy + NearZero + PartialEq + Add<Output = T> + Sub<Output = T> + Mul<Output = T> + Div<Output = T> + Neg<Output = T>> Line3<T> {
    /// Checks the line: for two Cartesian equations, that their planes differ (see
    /// [`same_plane`]); for a point and a direction, that the direction is near zero.
    pub fn is_line(&self, zero: T, one: T) -> (r: bool)
        requires
            T::obeys_add_spec(),
            T::obeys_sub_spec(),
            T::obeys_mul_spec(),
            T::obeys_div_spec(),
            T::obeys_neg_spec(),
            T::obeys_eq_spec(),
            total_arith::<T>(),
            total_sub::<T>(),
        ensures
            match *self {
                Line3::Cartesian(rows) => r == !same_plane(
                    Plane3::Cartesian(rows[0]),
                    Plane3::Cartesian(rows[1]),
                    zero,
                    one,
                ),
                Line3::Parametric(_, d) => r == forall|i: int| 0 <= i < 3 ==> (#[trigger] d.scalars@[i]).near_zero_spec(),
            },
    {
        match self {
            Line3::Cartesian(rows) => {
                let a = Plane3::Cartesian(rows[0]);
                let b = Plane3::Cartesian(rows[1]);
                a.ne(&b, zero, one)
            },
            Line3::Parametric(_, d) => d.is_near_zero(),
        }
    }
}

} // verus!
