//! Families of vectors of dimension `N`: independence, generation of the whole space, bases.
//!
//! Each test brings the matrix whose columns are the vectors to row echelon form (see
//! [`record_gaussian_elimination_mut`](HeapMatrix::record_gaussian_elimination_mut)) and reads
//! its rank.

use core::ops::{Add, Div, Mul, Neg};
use vstd::prelude::*;
use vstd::std_specs::ops::{AddSpec, DivSpec, MulSpec, NegSpec};
use crate::linear::elimination::{gaussian_steps, rank_of, total_arith};
use crate::linear::gauss::{lemma_split_index, replay_data};
use crate::linear::heap_matrix::HeapMatrix;
use crate::linear::matrix::{filled, Matrix};
use crate::linear::vector::Vector;
use crate::traits::near_zero::NearZero;

verus! {

/// The `N x N` cells, row after row, of the matrix whose columns are `vectors`, followed by
/// columns of `zero` up to `N` columns.
pub open spec fn padded_columns<T, const N: usize>(vectors: Seq<Vector<T, N>>, zero: T) -> Seq<T> {
    Seq::new(
        (N * N) as nat,
        |x: int|
            if x % (N as int) < vectors.len() {
                vectors[x % (N as int)].scalars@[x / (N as int)]
            } else {
                zero
            },
    )
}

/// The rank of the row echelon form of the `N x N` matrix with cells `data`.
pub open spec fn echelon_rank<T: Copy + NearZero + Add<Output = T> + Mul<Output = T> + Div<Output = T> + Neg<Output = T>, const N: usize>(
    data: Seq<T>,
    one: T,
) -> nat {
    rank_of(replay_data(data, N as int, N as int, gaussian_steps(data, N as int, N as int, one)), N as int, N as int)
}

/// The vectors are independent: there are at most `N` of them, and the matrix whose columns are
/// the vectors (completed by zero columns) has as many pivots as there are vectors.
pub open spec fn independent<T: Copy + NearZero + Add<Output = T> + Mul<Output = T> + Div<Output = T> + Neg<Output = T>, const N: usize>(
    vectors: Seq<Vector<T, N>>,
    zero: T,
    one: T,
) -> bool {
    vectors.len() <= N && echelon_rank::<T, N>(padded_columns(vectors, zero), one) == vectors.len()
}

/// The vectors generate the whole space: there are `N` of them and the matrix whose columns are
/// the vectors has `N` pivots.
pub open spec fn generator<T: Copy + NearZero + Add<Output = T> + Mul<Output = T> + Div<Output = T> + Neg<Output = T>, const N: usize>(
    vectors: Seq<Vector<T, N>>,
    zero: T,
    one: T,
) -> bool {
    vectors.len() == N && echelon_rank::<T, N>(padded_columns(vectors, zero), one) == N
}

/// The family kept by [`minimal_independent`] once the vectors before index `i` are seen, `kept`
/// being kept so far: each vector is added when the family stays independent, until there are
/// `N` of them.
pub open spec fn kept_from<T: Copy + NearZero + Add<Output = T> + Mul<Output = T> + Div<Output = T> + Neg<Output = T>, const N: usize>(
    vectors: Seq<Vector<T, N>>,
    i: int,
    kept: Seq<Vector<T, N>>,
    zero: T,
    one: T,
) -> Seq<Vector<T, N>>
    decreases vectors.len() - i,
{
    if i >= vectors.len() || i < 0 || kept.len() >= N {
        kept
    } else if independent(kept.push(vectors[i]), zero, one) {
        kept_from(vectors, i + 1, kept.push(vectors[i]), zero, one)
    } else {
        kept_from(vectors, i + 1, kept, zero, one)
    }
}

/// The family that [`minimal_independent`] keeps: none of an empty family, else the first vector
/// and then the ones [`kept_from`] keeps.
pub open spec fn minimal_of<T: Copy + NearZero + Add<Output = T> + Mul<Output = T> + Div<Output = T> + Neg<Output = T>, const N: usize>(
    vectors: Seq<Vector<T, N>>,
    zero: T,
    one: T,
) -> Seq<Vector<T, N>> {
    if vectors.len() == 0 {
        Seq::empty()
    } else {
        kept_from(vectors, 1, seq![vectors[0]], zero, one)
    }
}

/// What [`kept_from`] keeps is independent when the family it starts from is: each vector is
/// added only when the family stays independent.
proof fn lemma_kept_independent<T: Copy + NearZero + Add<Output = T> + Mul<Output = T> + Div<Output = T> + Neg<Output = T>, const N: usize>(
    vectors: Seq<Vector<T, N>>,
    i: int,
    kept: Seq<Vector<T, N>>,
    zero: T,
    one: T,
)
    requires
        independent(kept, zero, one),
    ensures
        independent(kept_from(vectors, i, kept, zero, one), zero, one),
    decreases vectors.len() - i,
{
    if !(i >= vectors.len() || i < 0 || kept.len() >= N) {
        if independent(kept.push(vectors[i]), zero, one) {
            lemma_kept_independent(vectors, i + 1, kept.push(vectors[i]), zero, one);
        } else {
            lemma_kept_independent(vectors, i + 1, kept, zero, one);
        }
    }
}

/// The family that [`minimal_independent`] gives is independent whenever its first vector is
/// (a family of one vector is independent when that vector is not zero): every vector after the
/// first is kept only when the whole family kept so far stays independent.
pub proof fn lemma_minimal_independent_is_independent<T: Copy + NearZero + Add<Output = T> + Mul<Output = T> + Div<Output = T> + Neg<Output = T>, const N: usize>(
    vectors: Seq<Vector<T, N>>,
    zero: T,
    one: T,
)
    requires
        vectors.len() > 0,
        independent(seq![vectors[0]], zero, one),
    ensures
        independent(minimal_of(vectors, zero, one), zero, one),
{
    lemma_kept_independent(vectors, 1, seq![vectors[0]], zero, one);
}

/// What [`kept_from`] keeps are vectors of the family it started from and of `vectors`, in
/// their order, at most `N` of them once more than the start are kept.
proof fn lemma_kept_from_input<T: Copy + NearZero + Add<Output = T> + Mul<Output = T> + Div<Output = T> + Neg<Output = T>, const N: usize>(
    vectors: Seq<Vector<T, N>>,
    i: int,
    kept: Seq<Vector<T, N>>,
    zero: T,
    one: T,
)
    requires
        0 <= i,
        forall|k: int| 0 <= k < kept.len() ==> vectors.contains(#[trigger] kept[k]),
    ensures
        forall|k: int|
            0 <= k < kept_from(vectors, i, kept, zero, one).len() ==> vectors.contains(
                #[trigger] kept_from(vectors, i, kept, zero, one)[k],
            ),
        kept_from(vectors, i, kept, zero, one).len() >= kept.len(),
        kept_from(vectors, i, kept, zero, one).subrange(0, kept.len() as int) == kept,
    decreases vectors.len() - i,
{
    if !(i >= vectors.len() || i < 0 || kept.len() >= N) {
        let next = kept.push(vectors[i]);
        if independent(next, zero, one) {
            assert forall|k: int| 0 <= k < next.len() implies vectors.contains(#[trigger] next[k]) by {
                if k == kept.len() {
                    assert(next[k] == vectors[i]);
                }
            }
            lemma_kept_from_input(vectors, i + 1, next, zero, one);
            let r = kept_from(vectors, i + 1, next, zero, one);
            assert(r.subrange(0, kept.len() as int) =~= r.subrange(0, next.len() as int).subrange(0, kept.len() as int));
            assert(next.subrange(0, kept.len() as int) =~= kept);
        } else {
            lemma_kept_from_input(vectors, i + 1, kept, zero, one);
        }
    } else {
        assert(kept.subrange(0, kept.len() as int) =~= kept);
    }
}

/// The family that [`minimal_independent`] gives is made of vectors of the input, and starts with
/// its first vector.
pub proof fn lemma_minimal_independent_from_input<T: Copy + NearZero + Add<Output = T> + Mul<Output = T> + Div<Output = T> + Neg<Output = T>, const N: usize>(
    vectors: Seq<Vector<T, N>>,
    zero: T,
    one: T,
)
    ensures
        forall|k: int|
            0 <= k < minimal_of(vectors, zero, one).len() ==> vectors.contains(#[trigger] minimal_of(vectors, zero, one)[k]),
        vectors.len() > 0 ==> minimal_of(vectors, zero, one).len() > 0 && minimal_of(vectors, zero, one)[0] == vectors[0],
{
    if vectors.len() > 0 {
        let start = seq![vectors[0]];
        assert(vectors.contains(vectors[0]));
        assert forall|k: int| 0 <= k < start.len() implies vectors.contains(#[trigger] start[k]) by {
            assert(start[k] == vectors[0]);
        }
        lemma_kept_from_input(vectors, 1, start, zero, one);
        let r = kept_from(vectors, 1, start, zero, one);
        assert(r.subrange(0, 1)[0] == r[0]);
    }
}

/// `N` copies of the vector whose every coordinate is `zero`.
fn zero_vector<T: Copy, const N: usize>(zero: T) -> (r: Vector<T, N>)
    ensures
        forall|i: int| 0 <= i < N ==> #[trigger] r.scalars@[i] == zero,
{
    Vector::new(filled(zero))
}

/// The family with no vector.
pub fn empty<T, const N: usize>() -> (r: Vec<Vector<T, N>>)
    ensures
        r@ == Seq::<Vector<T, N>>::empty(),
{
    Vec::new()
}

/// The family holding only the zero vector.
pub fn only_zero<T: Copy, const N: usize>(zero: T) -> (r: Vec<Vector<T, N>>)
    ensures
        r@.len() == 1,
        forall|i: int| 0 <= i < N ==> #[trigger] r@[0].scalars@[i] == zero,
{
    let mut v = Vec::new();
    v.push(zero_vector(zero));
    v
}

/// The standard basis of the space: vector `i` has `one` at coordinate `i` and `zero` elsewhere.
pub fn standard_basis<T: Copy, const N: usize>(zero: T, one: T) -> (r: Vec<Vector<T, N>>)
    ensures
        r@.len() == N,
        forall|i: int, j: int| 0 <= i < N && 0 <= j < N ==> #[trigger] r@[i].scalars@[j] == if i == j {
            one
        } else {
            zero
        },
{
    let mut vectors: Vec<Vector<T, N>> = Vec::new();
    for i in 0..N
        invariant
            vectors@.len() == i,
            forall|a: int, b: int| 0 <= a < i && 0 <= b < N ==> #[trigger] vectors@[a].scalars@[b] == if a == b {
                one
            } else {
                zero
            },
    {
        let mut v: Vector<T, N> = zero_vector(zero);
        v.scalars[i] = one;
        vectors.push(v);
    }
    vectors
}

/// The rank of the row echelon form of the matrix whose columns are `vectors` (`N` of them).
fn columns_rank<T: Copy + NearZero + Add<Output = T> + Mul<Output = T> + Div<Output = T> + Neg<Output = T>, const N: usize>(
    vectors: &[Vector<T, N>],
    zero: T,
    one: T,
) -> (r: usize)
    requires
        vectors@.len() == N,
        N > 0,
        N * N <= usize::MAX,
        T::obeys_add_spec(),
        T::obeys_mul_spec(),
        T::obeys_div_spec(),
        T::obeys_neg_spec(),
        total_arith::<T>(),
    ensures
        r == echelon_rank::<T, N>(padded_columns(vectors@, zero), one),
{
    let mut m = HeapMatrix::from_vectors(vectors);
    proof {
        assert forall|x: int| 0 <= x < N * N implies #[trigger] m.data@[x] == padded_columns(vectors@, zero)[x] by {
            lemma_split_index(x, N as int, N as int);
            let a = x / (N as int);
            let b = x % (N as int);
            assert(m.cell(a, b) == m.data@[a * N + b]);
        }
        assert(m.data@ =~= padded_columns(vectors@, zero));
    }
    let _ = m.record_gaussian_elimination_mut(one);
    m.rank_float()
}

/// `true` when the vectors are independent: at most `N` of them, and the matrix whose columns are
/// the vectors (completed by zero columns) has as many pivots as vectors.
pub fn is_independent<T: Copy + NearZero + Add<Output = T> + Mul<Output = T> + Div<Output = T> + Neg<Output = T>, const N: usize>(
    vectors: &[Vector<T, N>],
    zero: T,
    one: T,
) -> (r: bool)
    requires
        N * N <= usize::MAX,
        T::obeys_add_spec(),
        T::obeys_mul_spec(),
        T::obeys_div_spec(),
        T::obeys_neg_spec(),
        total_arith::<T>(),
    ensures
        r == independent(vectors@, zero, one),
{
    let len = vectors.len();
    if len > N {
        return false;
    }
    if N == 0 {
        proof {
            assert(padded_columns(vectors@, zero) =~= Seq::<T>::empty());
        }
        return true;
    }
    let mut padded: Vec<Vector<T, N>> = Vec::new();
    for k in 0..N
        invariant
            len == vectors@.len(),
            len <= N,
            padded@.len() == k,
            forall|j: int| 0 <= j < k && j < len ==> #[trigger] padded@[j] == vectors@[j],
            forall|j: int, i: int| 0 <= i < N && len <= j < k ==> #[trigger] padded@[j].scalars@[i] == zero,
    {
        if k < len {
            padded.push(vectors[k]);
        } else {
            padded.push(zero_vector(zero));
        }
    }
    let rank = columns_rank(padded.as_slice(), zero, one);
    proof {
        assert forall|x: int| 0 <= x < N * N implies #[trigger] padded_columns(padded@, zero)[x]
            == padded_columns(vectors@, zero)[x] by {
            lemma_split_index(x, N as int, N as int);
        }
        assert(padded_columns(padded@, zero) =~= padded_columns(vectors@, zero));
    }
    rank == len
}

/// `true` when the vectors generate the whole space: `N` of them whose matrix has `N` pivots.
/// There must be at most `N` vectors.
pub fn is_generator<T: Copy + NearZero + Add<Output = T> + Mul<Output = T> + Div<Output = T> + Neg<Output = T>, const N: usize>(
    vectors: &[Vector<T, N>],
    zero: T,
    one: T,
) -> (r: bool)
    requires
        vectors@.len() <= N,
        N * N <= usize::MAX,
        T::obeys_add_spec(),
        T::obeys_mul_spec(),
        T::obeys_div_spec(),
        T::obeys_neg_spec(),
        total_arith::<T>(),
    ensures
        r == generator(vectors@, zero, one),
{
    if vectors.len() < N {
        return false;
    }
    if N == 0 {
        proof {
            assert(padded_columns(vectors@, zero) =~= Seq::<T>::empty());
        }
        return true;
    }
    columns_rank(vectors, zero, one) == N
}

/// The vectors that [`kept_from`] keeps: the first vector, then each following one that keeps
/// the family independent, until there are `N` of them.
pub fn minimal_independent<T: Copy + NearZero + Add<Output = T> + Mul<Output = T> + Div<Output = T> + Neg<Output = T>, const N: usize>(
    vectors: &[Vector<T, N>],
    zero: T,
    one: T,
) -> (r: Vec<Vector<T, N>>)
    requires
        N * N <= usize::MAX,
        T::obeys_add_spec(),
        T::obeys_mul_spec(),
        T::obeys_div_spec(),
        T::obeys_neg_spec(),
        total_arith::<T>(),
    ensures
        r@ == minimal_of(vectors@, zero, one),
{
    let len = vectors.len();
    let mut kept: Vec<Vector<T, N>> = Vec::new();
    if len == 0 {
        return kept;
    }
    kept.push(vectors[0]);
    let ghost goal = kept_from(vectors@, 1, seq![vectors@[0]], zero, one);
    assert(kept@ =~= seq![vectors@[0]]);
    let mut i: usize = 1;
    while i < len
        invariant
            len == vectors@.len(),
            len > 0,
            goal == kept_from(vectors@, 1, seq![vectors@[0]], zero, one),
            1 <= i <= len,
            N * N <= usize::MAX,
            T::obeys_add_spec(),
            T::obeys_mul_spec(),
            T::obeys_div_spec(),
            T::obeys_neg_spec(),
            total_arith::<T>(),
            kept_from(vectors@, i as int, kept@, zero, one) == goal,
        decreases len - i,
    {
        if kept.len() >= N {
            assert(kept_from(vectors@, i as int, kept@, zero, one) == kept@);
            return kept;
        }
        let ghost before = kept@;
        kept.push(vectors[i]);
        let keep = is_independent(kept.as_slice(), zero, one);
        if !keep {
            let _ = kept.pop();
            assert(kept@ =~= before);
        }
        assert(kept_from(vectors@, i as int, before, zero, one) == kept_from(vectors@, i as int + 1, kept@, zero, one));
        i = i + 1;
    }
    assert(kept_from(vectors@, i as int, kept@, zero, one) == kept@);
    kept
}

/// A basis of the space of dimension `N`: `N` independent vectors, given by their coordinates.
#[derive(Clone, Debug)]
pub struct VectorBasis<T, const N: usize> {
    vectors: [[T; N]; N],
}

impl<T, const N: usize> VectorBasis<T, N> {
    /// The coordinates of the vectors of the basis.
    pub closed spec fn spec_vectors(self) -> [[T; N]; N] {
        self.vectors
    }

    /// The coordinates of the vectors of the basis.
    pub fn vectors(&self) -> (r: &[[T; N]; N])
        ensures
            *r == self.spec_vectors(),
    {
        &self.vectors
    }
}

impl<T: Copy, const N: usize> VectorBasis<T, N> {
    /// The standard basis: vector `i` has `one` at coordinate `i` and `zero` elsewhere.
    pub fn standard_basis(zero: T, one: T) -> (r: Self)
        ensures
            forall|i: int, j: int| 0 <= i < N && 0 <= j < N ==> #[trigger] r.spec_vectors()@[i]@[j] == if i == j {
                one
            } else {
                zero
            },
    {
        let m: Matrix<T, N, N> = Matrix::identity(zero, one);
        let r = Self { vectors: m.data };
        proof {
            assert forall|i: int, j: int| 0 <= i < N && 0 <= j < N implies #[trigger] r.spec_vectors()@[i]@[j] == if i == j {
                one
            } else {
                zero
            } by {
                assert(m.cell(i, j) == m.data@[i]@[j]);
            }
        }
        r
    }

    /// The matrix whose columns are the vectors of the basis. `zero` fills the matrix before its
    /// cells are written.
    pub fn as_matrix(&self, zero: T) -> (r: Matrix<T, N, N>)
        ensures
            forall|i: int, j: int| 0 <= i < N && 0 <= j < N ==> #[trigger] r.cell(i, j) == self.spec_vectors()@[j]@[i],
    {
        Matrix::from_array(self.vectors).transpose(zero)
    }
}

/// The vectors as a basis, when there are `N` of them and they generate the whole space
/// (`None` otherwise).
pub fn as_basis<T: Copy + NearZero + Add<Output = T> + Mul<Output = T> + Div<Output = T> + Neg<Output = T>, const N: usize>(
    vectors: &[Vector<T, N>],
    zero: T,
    one: T,
) -> (r: Option<VectorBasis<T, N>>)
    requires
        N * N <= usize::MAX,
        T::obeys_add_spec(),
        T::obeys_mul_spec(),
        T::obeys_div_spec(),
        T::obeys_neg_spec(),
        total_arith::<T>(),
    ensures
        generator(vectors@, zero, one) ==> (r matches Some(b) && forall|i: int, j: int|
            0 <= i < N && 0 <= j < N ==> #[trigger] b.spec_vectors()@[i]@[j] == vectors@[i].scalars@[j]),
        !generator(vectors@, zero, one) ==> r is None,
{
    if vectors.len() != N {
        return None;
    }
    if !is_generator(vectors, zero, one) {
        return None;
    }
    let mut rows: [[T; N]; N] = filled(filled(zero));
    for k in 0..N
        invariant
            vectors@.len() == N,
            forall|i: int| 0 <= i < k ==> #[trigger] rows@[i] == vectors@[i].scalars,
    {
        rows[k] = vectors[k].scalars;
    }
    Some(VectorBasis { vectors: rows })
}

} // verus!
