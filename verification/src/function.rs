//! Lazily built expressions: trees of sums, differences, products and quotients over unknowns
//! and constants, and the functions made of them.

use core::ops::Add;
use vstd::prelude::*;
use vstd::std_specs::ops::{AddSpec, AddSpecImpl};
use crate::linear::matrix::array_from_fn;

verus! {

/// A node of an expression, boxed.
#[derive(Debug)]
pub struct Operation<T: Copy>(Box<FunctionOperation<T>>);

/// An expression: an unknown (by its index), a constant, or an operation on two expressions.
#[derive(Debug)]
pub enum FunctionOperation<T: Copy> {
    Unknown(usize),
    Singleton(T),
    Add(Operation<T>, Operation<T>),
    Sub(Operation<T>, Operation<T>),
    Mul(Operation<T>, Operation<T>),
    Div(Operation<T>, Operation<T>),
}

impl<T: Copy> Operation<T> {
    /// The expression held by this node.
    pub closed spec fn node(self) -> FunctionOperation<T> {
        *self.0
    }

    /// The constant `value`.
    pub fn new_singleton(value: T) -> (r: Self)
        ensures
            r.node() == FunctionOperation::Singleton(value),
    {
        Self(Box::new(FunctionOperation::Singleton(value)))
    }

    /// Boxes `operation`.
    fn from_raw_operation(operation: FunctionOperation<T>) -> (r: Self)
        ensures
            r.node() == operation,
    {
        Self(Box::new(operation))
    }

    /// Borrows the expression held by this node.
    pub fn get(&self) -> (r: &FunctionOperation<T>)
        ensures
            *r == self.node(),
    {
        &self.0
    }
}

impl<T: Copy> Clone for Operation<T> {
    fn clone(&self) -> (r: Self)
        ensures
            r == *self,
        decreases self,
    {
        Self(Box::new((*self.0).clone()))
    }
}

impl<T: Copy> Clone for FunctionOperation<T> {
    fn clone(&self) -> (r: Self)
        ensures
            r == *self,
        decreases self,
    {
        match self {
            FunctionOperation::Unknown(i) => FunctionOperation::Unknown(*i),
            FunctionOperation::Singleton(v) => FunctionOperation::Singleton(*v),
            FunctionOperation::Add(a, b) => FunctionOperation::Add(a.clone(), b.clone()),
            FunctionOperation::Sub(a, b) => FunctionOperation::Sub(a.clone(), b.clone()),
            FunctionOperation::Mul(a, b) => FunctionOperation::Mul(a.clone(), b.clone()),
            FunctionOperation::Div(a, b) => FunctionOperation::Div(a.clone(), b.clone()),
        }
    }
}

/// The constant held by `op`, if it is one.
pub open spec fn singleton_value<T: Copy>(op: FunctionOperation<T>) -> Option<T> {
    match op {
        FunctionOperation::Singleton(v) => Some(v),
        _ => None,
    }
}

/// The two operands of a binary node.
pub open spec fn operands<T: Copy>(op: FunctionOperation<T>) -> Option<(Operation<T>, Operation<T>)> {
    match op {
        FunctionOperation::Add(a, b) => Some((a, b)),
        FunctionOperation::Sub(a, b) => Some((a, b)),
        FunctionOperation::Mul(a, b) => Some((a, b)),
        FunctionOperation::Div(a, b) => Some((a, b)),
        _ => None,
    }
}

/// The result of folding the constants of an expression. A binary node whose two operands fold to
/// constants becomes the constant obtained by *adding* them, whatever the node's operation (each
/// operation is folded with the addition that `Operation::add` registers); otherwise the node is
/// kept as it was. Constants are kept.
pub open spec fn spec_evaluate<T: Copy + Add<Output = T>>(op: FunctionOperation<T>) -> FunctionOperation<T>
    decreases op,
{
    match op {
        FunctionOperation::Add(a, b) => fold_pair(op, spec_evaluate(a.node()), spec_evaluate(b.node())),
        FunctionOperation::Sub(a, b) => fold_pair(op, spec_evaluate(a.node()), spec_evaluate(b.node())),
        FunctionOperation::Mul(a, b) => fold_pair(op, spec_evaluate(a.node()), spec_evaluate(b.node())),
        FunctionOperation::Div(a, b) => fold_pair(op, spec_evaluate(a.node()), spec_evaluate(b.node())),
        _ => op,
    }
}

/// Folds a binary node `op` whose operands were folded to `ea` and `eb`.
pub open spec fn fold_pair<T: Copy + Add<Output = T>>(
    op: FunctionOperation<T>,
    ea: FunctionOperation<T>,
    eb: FunctionOperation<T>,
) -> FunctionOperation<T> {
    match (ea, eb) {
        (FunctionOperation::Singleton(x), FunctionOperation::Singleton(y)) => FunctionOperation::Singleton(
            x.add_spec(y),
        ),
        _ => op,
    }
}

/// The additions that folding performs are allowed.
pub open spec fn fold_pair_defined<T: Copy + Add<Output = T>>(
    ea: FunctionOperation<T>,
    eb: FunctionOperation<T>,
) -> bool {
    match (ea, eb) {
        (FunctionOperation::Singleton(x), FunctionOperation::Singleton(y)) => x.add_req(y),
        _ => true,
    }
}

/// The expression has no unknown (folding one panics), and every addition made while folding is
/// allowed.
pub open spec fn evaluate_defined<T: Copy + Add<Output = T>>(op: FunctionOperation<T>) -> bool
    decreases op,
{
    match op {
        FunctionOperation::Unknown(_) => false,
        FunctionOperation::Singleton(_) => true,
        FunctionOperation::Add(a, b) => evaluate_defined(a.node()) && evaluate_defined(b.node())
            && fold_pair_defined(spec_evaluate(a.node()), spec_evaluate(b.node())),
        FunctionOperation::Sub(a, b) => evaluate_defined(a.node()) && evaluate_defined(b.node())
            && fold_pair_defined(spec_evaluate(a.node()), spec_evaluate(b.node())),
        FunctionOperation::Mul(a, b) => evaluate_defined(a.node()) && evaluate_defined(b.node())
            && fold_pair_defined(spec_evaluate(a.node()), spec_evaluate(b.node())),
        FunctionOperation::Div(a, b) => evaluate_defined(a.node()) && evaluate_defined(b.node())
            && fold_pair_defined(spec_evaluate(a.node()), spec_evaluate(b.node())),
    }
}

impl<T: Copy> FunctionOperation<T> {
    /// The constant held by `self`, `None` for any other expression.
    pub fn unwrap_value(&self) -> (r: Option<T>)
        ensures
            r == singleton_value(*self),
    {
        match self {
            Self::Singleton(v) => Some(*v),
            _ => None,
        }
    }
}

impl<T: Copy + Add<Output = T>> FunctionOperation<T> {
    /// Folds the constants of `self` (see [`spec_evaluate`]). `map` gives the values of the
    /// unknowns; it is not read, since an unknown is not allowed here.
    pub fn evaluate(&self, map: &[Operation<T>]) -> (r: Operation<T>)
        requires
            T::obeys_add_spec(),
            evaluate_defined(*self),
        ensures
            r.node() == spec_evaluate(*self),
        decreases self,
    {
        match self {
            Self::Unknown(_) => {
                proof {
                    assert(false);
                }
                Operation::from_raw_operation(self.clone())
            },
            Self::Singleton(_) => Operation::from_raw_operation(self.clone()),
            Self::Add(a, b) => self.fold_operands(a, b, map),
            Self::Sub(a, b) => self.fold_operands(a, b, map),
            Self::Mul(a, b) => self.fold_operands(a, b, map),
            Self::Div(a, b) => self.fold_operands(a, b, map),
        }
    }

    /// Folds the binary node `self` whose operands are `a` and `b`.
    fn fold_operands(&self, a: &Operation<T>, b: &Operation<T>, map: &[Operation<T>]) -> (r: Operation<T>)
        requires
            T::obeys_add_spec(),
            operands(*self) == Some((*a, *b)),
            evaluate_defined(*self),
        ensures
            r.node() == spec_evaluate(*self),
        decreases self, 0nat,
    {
        let ea = a.0.evaluate(map);
        let eb = b.0.evaluate(map);
        match (ea.0.unwrap_value(), eb.0.unwrap_value()) {
            (Some(x), Some(y)) => Operation::from_raw_operation(FunctionOperation::Singleton(x + y)),
            _ => Operation::from_raw_operation(self.clone()),
        }
    }
}

/// The sum of two expressions, as an expression: the `Add` node over them.
impl<T: Copy + Add<Output = T>> Add<Operation<T>> for Operation<T> {
    type Output = Operation<T>;

    fn add(self, rhs: Operation<T>) -> (r: Operation<T>) {
        Operation::from_raw_operation(FunctionOperation::Add(self, rhs))
    }
}

impl<T: Copy + Add<Output = T>> AddSpecImpl<Operation<T>> for Operation<T> {
    open spec fn obeys_add_spec() -> bool {
        true
    }

    open spec fn add_req(self, rhs: Operation<T>) -> bool {
        true
    }

    closed spec fn add_spec(self, rhs: Operation<T>) -> Operation<T> {
        Operation(Box::new(FunctionOperation::Add(self, rhs)))
    }
}

/// The sum of two expressions is the `Add` node over them.
pub proof fn lemma_add_node<T: Copy + Add<Output = T>>(a: Operation<T>, b: Operation<T>)
    ensures
        AddSpec::add_spec(a, b).node() == FunctionOperation::Add(a, b),
{
}

/// Something that builds an expression of output type `Output` from `N` expressions over `T`.
pub trait LazyFunction<T: Copy, const N: usize> {
    type Output: Copy;

    /// `invoke` may be called on `values`.
    spec fn invoke_requires(&self, values: [Operation<T>; N]) -> bool;

    /// `out` is a possible result of `invoke` on `values`.
    spec fn invoke_ensures(&self, values: [Operation<T>; N], out: Operation<Self::Output>) -> bool;

    /// Builds the expression for the arguments `values`.
    fn invoke(&self, values: [Operation<T>; N]) -> (r: Operation<Self::Output>)
        requires
            self.invoke_requires(values),
        ensures
            self.invoke_ensures(values, r),
    ;
}

/// An expression with no argument gives itself.
impl<T: Copy> LazyFunction<T, 0> for FunctionOperation<T> {
    type Output = T;

    open spec fn invoke_requires(&self, values: [Operation<T>; 0]) -> bool {
        true
    }

    open spec fn invoke_ensures(&self, values: [Operation<T>; 0], out: Operation<T>) -> bool {
        out.node() == *self
    }

    fn invoke(&self, values: [Operation<T>; 0]) -> (r: Operation<T>) {
        Operation::from_raw_operation(self.clone())
    }
}

/// A boxed expression with no argument gives itself.
impl<T: Copy> LazyFunction<T, 0> for Operation<T> {
    type Output = T;

    open spec fn invoke_requires(&self, values: [Operation<T>; 0]) -> bool {
        true
    }

    open spec fn invoke_ensures(&self, values: [Operation<T>; 0], out: Operation<T>) -> bool {
        out == *self
    }

    fn invoke(&self, values: [Operation<T>; 0]) -> (r: Operation<T>) {
        self.clone()
    }
}

/// A closure of one expression builds the expression it returns.
impl<T: Copy, U: Copy, F: Fn(Operation<T>) -> Operation<U>> LazyFunction<T, 1> for F {
    type Output = U;

    open spec fn invoke_requires(&self, values: [Operation<T>; 1]) -> bool {
        call_requires(*self, (values[0],))
    }

    open spec fn invoke_ensures(&self, values: [Operation<T>; 1], out: Operation<U>) -> bool {
        call_ensures(*self, (values[0],), out)
    }

    fn invoke(&self, values: [Operation<T>; 1]) -> (r: Operation<U>) {
        self(values[0].clone())
    }
}

/// A closure of no expression builds the expression it returns.
impl<T: Copy, U: Copy, F: Fn() -> Operation<U>> LazyFunction<T, 0> for F {
    type Output = U;

    open spec fn invoke_requires(&self, values: [Operation<T>; 0]) -> bool {
        call_requires(*self, ())
    }

    open spec fn invoke_ensures(&self, values: [Operation<T>; 0], out: Operation<U>) -> bool {
        call_ensures(*self, (), out)
    }

    fn invoke(&self, values: [Operation<T>; 0]) -> (r: Operation<U>) {
        self()
    }
}

/// A closure of two expressions builds the expression it returns.
impl<T: Copy, U: Copy, F: Fn(Operation<T>, Operation<T>) -> Operation<U>> LazyFunction<T, 2> for F {
    type Output = U;

    open spec fn invoke_requires(&self, values: [Operation<T>; 2]) -> bool {
        call_requires(*self, (values[0], values[1]))
    }

    open spec fn invoke_ensures(&self, values: [Operation<T>; 2], out: Operation<U>) -> bool {
        call_ensures(*self, (values[0], values[1]), out)
    }

    fn invoke(&self, values: [Operation<T>; 2]) -> (r: Operation<U>) {
        self(values[0].clone(), values[1].clone())
    }
}

/// A closure of three expressions builds the expression it returns.
impl<T: Copy, U: Copy, F: Fn(Operation<T>, Operation<T>, Operation<T>) -> Operation<U>> LazyFunction<
    T,
    3,
> for F {
    type Output = U;

    open spec fn invoke_requires(&self, values: [Operation<T>; 3]) -> bool {
        call_requires(*self, (values[0], values[1], values[2]))
    }

    open spec fn invoke_ensures(&self, values: [Operation<T>; 3], out: Operation<U>) -> bool {
        call_ensures(*self, (values[0], values[1], values[2]), out)
    }

    fn invoke(&self, values: [Operation<T>; 3]) -> (r: Operation<U>) {
        self(values[0].clone(), values[1].clone(), values[2].clone())
    }
}

/// A function of `N` unknowns: an expression whose unknowns are numbered `0` to `N - 1`.
pub struct Function<T: Copy, const N: usize> {
    body: Operation<T>,
}

/// The `N` unknowns `0, 1, ..., N - 1`, as expressions.
pub open spec fn is_unknowns<T: Copy, const N: usize>(values: [Operation<T>; N]) -> bool {
    forall|i: int| 0 <= i < N ==> (#[trigger] values[i]).node() == FunctionOperation::<T>::Unknown(
        i as usize,
    )
}

/// The unknowns `0` to `N - 1`, as expressions.
fn unknowns<T: Copy, const N: usize>() -> (r: [Operation<T>; N])
    ensures
        is_unknowns(r),
{
    array_from_fn(|i: usize| -> (u: Operation<T>)
        ensures
            u.node() == FunctionOperation::<T>::Unknown(i),
        { Operation::from_raw_operation(FunctionOperation::Unknown(i)) })
}

impl<T: Copy, const N: usize> Function<T, N> {
    /// The expression of the function.
    pub closed spec fn body(self) -> Operation<T> {
        self.body
    }

    /// Builds the function from `f`, called on the unknowns `0` to `N - 1`.
    pub fn from_lazy<K: Copy, F: LazyFunction<K, N, Output = T>>(f: F) -> (r: Self)
        requires
            forall|values: [Operation<K>; N]| is_unknowns(values) ==> f.invoke_requires(values),
        ensures
            exists|values: [Operation<K>; N]| is_unknowns(values) && f.invoke_ensures(values, r.body()),
    {
        let values = unknowns::<K, N>();
        Self { body: f.invoke(values) }
    }
}

/// A function gives its expression with its constants folded (see [`spec_evaluate`]); the
/// arguments are not substituted, and an unknown is not allowed.
impl<T: Copy + Add<Output = T>, const N: usize> LazyFunction<T, N> for Function<T, N> {
    type Output = T;

    open spec fn invoke_requires(&self, values: [Operation<T>; N]) -> bool {
        T::obeys_add_spec() && evaluate_defined(self.body().node())
    }

    open spec fn invoke_ensures(&self, values: [Operation<T>; N], out: Operation<T>) -> bool {
        out.node() == spec_evaluate(self.body().node())
    }

    fn invoke(&self, values: [Operation<T>; N]) -> (r: Operation<T>) {
        self.body.0.evaluate(values.as_slice())
    }
}

} // verus!
