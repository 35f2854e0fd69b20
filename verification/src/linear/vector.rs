//! Column vectors of a fixed dimension `N`.

use core::ops::{Add, Mul, Sub};
use vstd::prelude::*;
use vstd::std_specs::cmp::PartialEqSpec;
use vstd::std_specs::ops::{AddSpec, MulSpec, SubSpec};
use crate::linear::heap_matrix::{lemma_cell_index, HeapMatrix};
use crate::linear::matrix::{filled, Matrix};
use crate::linear::view::{cells_of, MatrixView};
use crate::traits::near_zero::NearZero;

verus! {

/// A column vector of dimension `N`.
#[derive(Clone, Copy, Debug, PartialEq)]
pub struct Vector<T, const N: usize> {
    pub scalars: [T; N],
}

/// `zero + lhs[0] * rhs[0] + ... + lhs[k - 1] * rhs[k - 1]`, summed left to right.
pub open spec fn dot_prefix<T: Add<Output = T> + Mul<Output = T>>(lhs: Seq<T>, rhs: Seq<T>, k: int, zero: T) -> T
    decreases k,
{
    if k <= 0 {
        zero
    } else {
        dot_prefix(lhs, rhs, k - 1, zero).add_spec(lhs[k - 1].mul_spec(rhs[k - 1]))
    }
}

/// Every product and partial sum of the dot product of `lhs` and `rhs` can be computed.
pub open spec fn dot_ok<T: Add<Output = T> + Mul<Output = T>>(lhs: Seq<T>, rhs: Seq<T>, zero: T) -> bool {
    forall|k: int|
        0 <= k < lhs.len() ==> {
            &&& lhs[k].mul_req(rhs[k])
            &&& (#[trigger] dot_prefix(lhs, rhs, k, zero)).add_req(lhs[k].mul_spec(rhs[k]))
        }
}

impl<T, const N: usize> Vector<T, N> {
    /// The vector whose coordinates are `scalars`.
    pub fn new(scalars: [T; N]) -> (r: Self)
        ensures
            r.scalars == scalars,
    {
        Self { scalars }
    }

    /// The coordinate `index`.
    pub fn index(&self, index: usize) -> (r: &T)
        requires
            index < N,
        ensures
            *r == self.scalars@[index as int],
    {
        &self.scalars[index]
    }
}

impl<T: NearZero, const N: usize> Vector<T, N> {
    /// `true` when every coordinate is near zero.
    pub fn is_near_zero(&self) -> (r: bool)
        ensures
            r == forall|i: int| 0 <= i < N ==> (#[trigger] self.scalars@[i]).near_zero_spec(),
    {
        for i in 0..N
            invariant
                forall|k: int| 0 <= k < i ==> (#[trigger] self.scalars@[k]).near_zero_spec(),
        {
            if !self.scalars[i].is_near_zero() {
                return false;
            }
        }
        true
    }
}

impl<T: Copy + PartialEq, const N: usize> Vector<T, N> {
    /// `true` when every coordinate equals `zero`.
    pub fn is_zero(&self, zero: &T) -> (r: bool)
        requires
            T::obeys_eq_spec(),
        ensures
            r == forall|i: int| 0 <= i < N ==> (#[trigger] self.scalars@[i]).eq_spec(zero),
    {
        for i in 0..N
            invariant
                T::obeys_eq_spec(),
                forall|k: int| 0 <= k < i ==> (#[trigger] self.scalars@[k]).eq_spec(zero),
        {
            if !self.scalars[i].eq(zero) {
                return false;
            }
        }
        true
    }
}

impl<T: Copy + Add<Output = T>, const N: usize> Vector<T, N> {
    /// The sum `self + rhs`, coordinate by coordinate.
    pub fn sum(&self, rhs: &Self) -> (r: Self)
        requires
            T::obeys_add_spec(),
            forall|i: int| 0 <= i < N ==> (#[trigger] self.scalars@[i]).add_req(rhs.scalars@[i]),
        ensures
            forall|i: int|
                0 <= i < N ==> #[trigger] r.scalars@[i] == self.scalars@[i].add_spec(rhs.scalars@[i]),
    {
        let mut result = self.scalars;
        for i in 0..N
            invariant
                T::obeys_add_spec(),
                forall|k: int| 0 <= k < N ==> (#[trigger] self.scalars@[k]).add_req(rhs.scalars@[k]),
                forall|k: int|
                    0 <= k < i ==> #[trigger] result@[k] == self.scalars@[k].add_spec(rhs.scalars@[k]),
                forall|k: int| i <= k < N ==> #[trigger] result@[k] == self.scalars@[k],
        {
            let v = self.scalars[i] + rhs.scalars[i];
            result[i] = v;
        }
        Self { scalars: result }
    }
}

impl<T: Copy + Sub<Output = T>, const N: usize> Vector<T, N> {
    /// The difference `self - rhs`, coordinate by coordinate.
    pub fn difference(&self, rhs: &Self) -> (r: Self)
        requires
            T::obeys_sub_spec(),
            forall|i: int| 0 <= i < N ==> (#[trigger] self.scalars@[i]).sub_req(rhs.scalars@[i]),
        ensures
            forall|i: int|
                0 <= i < N ==> #[trigger] r.scalars@[i] == self.scalars@[i].sub_spec(rhs.scalars@[i]),
    {
        let mut result = self.scalars;
        for i in 0..N
            invariant
                T::obeys_sub_spec(),
                forall|k: int| 0 <= k < N ==> (#[trigger] self.scalars@[k]).sub_req(rhs.scalars@[k]),
                forall|k: int|
                    0 <= k < i ==> #[trigger] result@[k] == self.scalars@[k].sub_spec(rhs.scalars@[k]),
                forall|k: int| i <= k < N ==> #[trigger] result@[k] == self.scalars@[k],
        {
            let v = self.scalars[i] - rhs.scalars[i];
            result[i] = v;
        }
        Self { scalars: result }
    }
}

impl<T: Copy + Mul<Output = T>, const N: usize> Vector<T, N> {
    /// The vector times the scalar `rhs`: each coordinate is multiplied by `rhs`.
    pub fn scale(&self, rhs: T) -> (r: Self)
        requires
            T::obeys_mul_spec(),
            forall|i: int| 0 <= i < N ==> (#[trigger] self.scalars@[i]).mul_req(rhs),
        ensures
            forall|i: int| 0 <= i < N ==> #[trigger] r.scalars@[i] == self.scalars@[i].mul_spec(rhs),
    {
        let mut result = self.scalars;
        for i in 0..N
            invariant
                T::obeys_mul_spec(),
                forall|k: int| 0 <= k < N ==> (#[trigger] self.scalars@[k]).mul_req(rhs),
                forall|k: int| 0 <= k < i ==> #[trigger] result@[k] == self.scalars@[k].mul_spec(rhs),
                forall|k: int| i <= k < N ==> #[trigger] result@[k] == self.scalars@[k],
        {
            let v = self.scalars[i] * rhs;
            result[i] = v;
        }
        Self { scalars: result }
    }
}

impl<T: Copy + Add<Output = T> + Mul<Output = T>, const N: usize> Vector<T, N> {
    /// The dot product `zero + self[0] * rhs[0] + ... + self[N - 1] * rhs[N - 1]`.
    pub fn dot(&self, rhs: &Self, zero: T) -> (r: T)
        requires
            T::obeys_add_spec(),
            T::obeys_mul_spec(),
            dot_ok(self.scalars@, rhs.scalars@, zero),
        ensures
            r == dot_prefix(self.scalars@, rhs.scalars@, N as int, zero),
    {
        let mut acc = zero;
        for i in 0..N
            invariant
                T::obeys_add_spec(),
                T::obeys_mul_spec(),
                dot_ok(self.scalars@, rhs.scalars@, zero),
                acc == dot_prefix(self.scalars@, rhs.scalars@, i as int, zero),
        {
            proof {
                assert(dot_prefix(self.scalars@, rhs.scalars@, i as int, zero).add_req(
                    self.scalars@[i as int].mul_spec(rhs.scalars@[i as int]),
                ));
            }
            let p = self.scalars[i] * rhs.scalars[i];
            acc = acc + p;
        }
        acc
    }

    /// The squared norm: the dot product of the vector with itself.
    pub fn norm_squared(&self, zero: T) -> (r: T)
        requires
            T::obeys_add_spec(),
            T::obeys_mul_spec(),
            dot_ok(self.scalars@, self.scalars@, zero),
        ensures
            r == dot_prefix(self.scalars@, self.scalars@, N as int, zero),
    {
        self.dot(self, zero)
    }
}

impl<T: Copy + Add<Output = T> + Sub<Output = T> + Mul<Output = T>> Vector<T, 3> {
    /// The cross product `self x rhs`: `(b f - c e, c d - a f, a e - b d)` for `(a, b, c)` and
    /// `(d, e, f)`.
    pub fn cross(&self, rhs: &Self) -> (r: Self)
        requires
            T::obeys_sub_spec(),
            T::obeys_mul_spec(),
            ({
                let (a, b, c) = (self.scalars@[0], self.scalars@[1], self.scalars@[2]);
                let (d, e, f) = (rhs.scalars@[0], rhs.scalars@[1], rhs.scalars@[2]);
                &&& b.mul_req(f) && c.mul_req(e) && b.mul_spec(f).sub_req(c.mul_spec(e))
                &&& c.mul_req(d) && a.mul_req(f) && c.mul_spec(d).sub_req(a.mul_spec(f))
                &&& a.mul_req(e) && b.mul_req(d) && a.mul_spec(e).sub_req(b.mul_spec(d))
            }),
        ensures
            ({
                let (a, b, c) = (self.scalars@[0], self.scalars@[1], self.scalars@[2]);
                let (d, e, f) = (rhs.scalars@[0], rhs.scalars@[1], rhs.scalars@[2]);
                &&& r.scalars@[0] == b.mul_spec(f).sub_spec(c.mul_spec(e))
                &&& r.scalars@[1] == c.mul_spec(d).sub_spec(a.mul_spec(f))
                &&& r.scalars@[2] == a.mul_spec(e).sub_spec(b.mul_spec(d))
            }),
    {
        let a = self.scalars[0];
        let b = self.scalars[1];
        let c = self.scalars[2];
        let d = rhs.scalars[0];
        let e = rhs.scalars[1];
        let f = rhs.scalars[2];
        Self { scalars: [b * f - c * e, c * d - a * f, a * e - b * d] }
    }
}

impl<T: Copy> HeapMatrix<T> {
    /// The matrix whose rows are the vectors `vectors`, in order.
    pub fn from_row_vectors<const C: usize>(vectors: &[Vector<T, C>]) -> (r: Self)
        requires
            vectors@.len() * C <= usize::MAX,
        ensures
            r.rows == vectors@.len(),
            r.cols == C,
            r.data@.len() == r.rows * r.cols,
            forall|i: int, j: int|
                0 <= i < r.rows && 0 <= j < C ==> #[trigger] r.cell(i, j) == vectors@[i].scalars@[j],
    {
        let n = vectors.len();
        let mut data: Vec<T> = Vec::new();
        proof {
            assert(0 * C == 0) by (nonlinear_arith);
        }
        for i in 0..n
            invariant
                n == vectors@.len(),
                data@.len() == i * C,
                forall|a: int, b: int|
                    0 <= a < i && 0 <= b < C ==> #[trigger] data@[a * C + b] == vectors@[a].scalars@[b],
        {
            for j in 0..C
                invariant
                    n == vectors@.len(),
                    i < n,
                    data@.len() == i * C + j,
                    forall|a: int, b: int|
                        0 <= a < i && 0 <= b < C ==> #[trigger] data@[a * C + b] == vectors@[a].scalars@[b],
                    forall|b: int| 0 <= b < j ==> #[trigger] data@[i * C + b] == vectors@[i as int].scalars@[b],
            {
                let ghost prev = data@;
                data.push(vectors[i].scalars[j]);
                proof {
                    assert forall|a: int, b: int| 0 <= a < i && 0 <= b < C implies #[trigger] data@[a * C + b] == vectors@[a].scalars@[b] by {
                        lemma_cell_index(a, b, i as int, C as int);
                        assert(data@[a * C + b] == prev[a * C + b]);
                    }
                }
            }
            proof {
                assert((i + 1) * C == i * C + C) by (nonlinear_arith);
                assert forall|a: int, b: int| 0 <= a < i + 1 && 0 <= b < C implies #[trigger] data@[a * C + b] == vectors@[a].scalars@[b] by {
                    if a == i {
                    }
                }
            }
        }
        HeapMatrix::new(data, n, C)
    }

    /// The matrix whose columns are the vectors `vectors`, in order: the transpose of
    /// [`from_row_vectors`](Self::from_row_vectors). The vectors have at least one coordinate,
    /// and there are as many vectors as coordinates, or none.
    pub fn from_vectors<const R: usize>(vectors: &[Vector<T, R>]) -> (r: Self)
        requires
            vectors@.len() == R || vectors@.len() == 0,
            R > 0,
            R * R <= usize::MAX,
        ensures
            r.rows == R,
            r.cols == vectors@.len(),
            r.data@.len() == r.rows * r.cols,
            forall|i: int, j: int|
                0 <= i < R && 0 <= j < r.cols ==> #[trigger] r.cell(i, j) == vectors@[j].scalars@[i],
    {
        let m = Self::from_row_vectors(vectors);
        let t = m.transpose();
        proof {
            assert forall|i: int, j: int| 0 <= i < R && 0 <= j < t.cols implies #[trigger] t.cell(i, j) == vectors@[j].scalars@[i] by {
                assert(t.cell(i, j) == m.cell(j, i));
            }
        }
        t
    }
}

impl<T: Copy, const N: usize> Vector<T, N> {
    /// The `N x 1` matrix whose column is the vector.
    pub fn into_matrix(self) -> (r: HeapMatrix<T>)
        ensures
            r.rows == N,
            r.cols == 1,
            r.data@ == self.scalars@,
    {
        let mut data: Vec<T> = Vec::new();
        for i in 0..N
            invariant
                data@ == self.scalars@.subrange(0, i as int),
        {
            data.push(self.scalars[i]);
        }
        assert(data@ =~= self.scalars@);
        HeapMatrix::new(data, N, 1)
    }

    /// The vector whose coordinates are the cells of the `N x 1` view `matrix`. `zero` fills the
    /// vector before its coordinates are written.
    pub fn from_matrix(matrix: &MatrixView<'_, T>, zero: T) -> (r: Self)
        requires
            matrix.spec_dim() == (N, 1usize),
        ensures
            forall|i: int| 0 <= i < N ==> #[trigger] r.scalars@[i] == matrix.cell((i as usize, 0usize)),
    {
        let mut scalars: [T; N] = filled(zero);
        match matrix.to_matrix::<N, 1>(zero) {
            Some(m) => {
                for i in 0..N
                    invariant
                        forall|a: int, b: int| 0 <= a < N && 0 <= b < 1 ==> #[trigger] m.cell(a, b) == matrix.cell(
                            (a as usize, b as usize),
                        ),
                        forall|k: int| 0 <= k < i ==> #[trigger] scalars@[k] == matrix.cell((k as usize, 0usize)),
                {
                    assert(m.cell(i as int, 0) == m.data@[i as int]@[0]);
                    scalars[i] = m.data[i][0];
                }
            },
            None => {
                proof {
                    assert(false);
                }
            },
        }
        Self { scalars }
    }
}

/// A vector turned into a matrix and back is the same vector: `h` is what
/// [`Vector::into_matrix`] gives of `v`, `view` the view of the whole of `h`, and `w` what
/// [`Vector::from_matrix`] gives of `view`.
pub proof fn lemma_vector_matrix_round_trip<'a, T, const N: usize>(
    v: Vector<T, N>,
    h: HeapMatrix<T>,
    view: MatrixView<'a, T>,
    w: Vector<T, N>,
)
    requires
        h.rows == N,
        h.cols == 1,
        h.data@ == v.scalars@,
        view.storage() == h.data@,
        view.row_range() == (0usize, h.rows),
        view.col_range() == (0usize, h.cols),
        view.stride() == h.cols,
        forall|i: int| 0 <= i < N ==> #[trigger] w.scalars@[i] == view.cell((i as usize, 0usize)),
    ensures
        w == v,
{
    assert forall|i: int| 0 <= i < N implies #[trigger] w.scalars@[i] == v.scalars@[i] by {
        assert(view.cell((i as usize, 0usize)) == h.data@[i * 1 + 0]);
    }
    assert(w.scalars =~= v.scalars);
}

/// The matrix of the vector read from an `N x 1` view holds the cells of that view: `w` is what
/// [`Vector::from_matrix`] gives of `view`, and `h` what [`Vector::into_matrix`] gives of `w`.
pub proof fn lemma_matrix_vector_round_trip<'a, T, const N: usize>(view: MatrixView<'a, T>, w: Vector<T, N>, h: HeapMatrix<T>)
    requires
        view.spec_dim() == (N, 1usize),
        forall|i: int| 0 <= i < N ==> #[trigger] w.scalars@[i] == view.cell((i as usize, 0usize)),
        h.rows == N,
        h.cols == 1,
        h.data@ == w.scalars@,
    ensures
        h.rows == view.spec_dim().0,
        h.cols == view.spec_dim().1,
        h.data@ == cells_of(view),
{
    assert forall|x: int| 0 <= x < N implies #[trigger] h.data@[x] == cells_of(view)[x] by {
        assert(x / 1 == x);
        assert(x % 1 == 0);
    }
    assert(h.data@ =~= cells_of(view));
}

/// The dot product is symmetric when the product of `T` is commutative:
/// `u.dot(v, zero) == v.dot(u, zero)`.
pub proof fn lemma_dot_symmetric<T: Add<Output = T> + Mul<Output = T>, const N: usize>(
    u: Vector<T, N>,
    v: Vector<T, N>,
    zero: T,
)
    requires
        forall|a: T, b: T| #[trigger] a.mul_spec(b) == b.mul_spec(a),
    ensures
        dot_prefix(u.scalars@, v.scalars@, N as int, zero) == dot_prefix(v.scalars@, u.scalars@, N as int, zero),
{
    lemma_dot_prefix_symmetric(u.scalars@, v.scalars@, N as int, zero);
}

/// Each partial sum of the dot product is symmetric when the product is commutative.
proof fn lemma_dot_prefix_symmetric<T: Add<Output = T> + Mul<Output = T>>(u: Seq<T>, v: Seq<T>, k: int, zero: T)
    requires
        forall|a: T, b: T| #[trigger] a.mul_spec(b) == b.mul_spec(a),
    ensures
        dot_prefix(u, v, k, zero) == dot_prefix(v, u, k, zero),
    decreases k,
{
    if k > 0 {
        lemma_dot_prefix_symmetric(u, v, k - 1, zero);
        assert(u[k - 1].mul_spec(v[k - 1]) == v[k - 1].mul_spec(u[k - 1]));
    }
}

/// The product of `i64` is commutative, so its dot product is symmetric.
pub proof fn lemma_i64_product_commutes()
    ensures
        forall|a: i64, b: i64| #[trigger] a.mul_spec(b) == b.mul_spec(a),
{
    assert forall|a: i64, b: i64| #[trigger] a.mul_spec(b) == b.mul_spec(a) by {
        assert(a * b == b * a) by (nonlinear_arith);
    }
}

} // verus!
