use vstd::prelude::*;

verus! {

/// `n!`, the product `1 * 2 * ... * n`, with `0! = 1`.
pub open spec fn fact(n: nat) -> nat
    decreases n,
{
    if n == 0 {
        1
    } else {
        n * fact((n - 1) as nat)
    }
}

/// Computes `n!`.
///
/// The product is computed in `usize`; `n!` must fit in it.
pub fn factorial(n: usize) -> (r: usize)
    requires
        fact(n as nat) <= usize::MAX,
    ensures
        r == fact(n as nat),
{
    let mut acc: usize = 1;
    let mut i: usize = 0;
    while i < n
        invariant
            i <= n,
            acc == fact(i as nat),
            fact(n as nat) <= usize::MAX,
        decreases n - i,
    {
        i = i + 1;
        proof {
            lemma_fact_monotone(i as nat, n as nat);
            assert(fact(i as nat) == i * fact((i - 1) as nat));
            assert(acc * i == i * acc) by (nonlinear_arith);
        }
        acc = acc * i;
    }
    acc
}

/// `i <= j` implies `i! <= j!`.
pub proof fn lemma_fact_monotone(i: nat, j: nat)
    requires
        i <= j,
    ensures
        fact(i) <= fact(j),
    decreases j,
{
    if i < j {
        lemma_fact_monotone(i, (j - 1) as nat);
        lemma_fact_positive((j - 1) as nat);
        assert(fact((j - 1) as nat) <= j * fact((j - 1) as nat)) by (nonlinear_arith)
            requires
                j >= 1,
        ;
    }
}

/// `n! >= 1`.
pub proof fn lemma_fact_positive(n: nat)
    ensures
        fact(n) >= 1,
    decreases n,
{
    if n > 0 {
        lemma_fact_positive((n - 1) as nat);
        assert(n * fact((n - 1) as nat) >= 1) by (nonlinear_arith)
            requires
                n >= 1,
                fact((n - 1) as nat) >= 1,
        ;
    }
}

/// The product `lo * (lo + 1) * ... * hi`, `1` when the range is empty.
pub open spec fn range_product(lo: nat, hi: nat) -> nat
    decreases hi,
{
    if hi < lo || hi == 0 {
        1
    } else {
        range_product(lo, (hi - 1) as nat) * hi
    }
}

/// A product of factors at least `1` grows with its upper end.
pub proof fn lemma_range_product_monotone(lo: nat, h1: nat, h2: nat)
    requires
        lo >= 1,
        h1 <= h2,
    ensures
        1 <= range_product(lo, h1) <= range_product(lo, h2),
    decreases h2,
{
    if h1 < h2 {
        lemma_range_product_monotone(lo, h1, (h2 - 1) as nat);
        if h2 >= lo {
            let p = range_product(lo, (h2 - 1) as nat);
            assert(p <= p * h2) by (nonlinear_arith)
                requires
                    h2 >= 1,
                    p >= 1,
            ;
        }
    } else if h1 >= lo && h1 > 0 {
        lemma_range_product_monotone(lo, (h1 - 1) as nat, (h1 - 1) as nat);
        let p = range_product(lo, (h1 - 1) as nat);
        assert(p * h1 >= 1) by (nonlinear_arith)
            requires
                h1 >= 1,
                p >= 1,
        ;
    }
}

/// `n!` is the product `1 * 2 * ... * n`.
pub proof fn lemma_fact_is_range_product(n: nat)
    ensures
        fact(n) == range_product(1, n),
    decreases n,
{
    if n > 0 {
        lemma_fact_is_range_product((n - 1) as nat);
        assert(n * fact((n - 1) as nat) == fact((n - 1) as nat) * n) by (nonlinear_arith);
    }
}

/// `n! = (n - k)! * ((n - k + 1) * ... * n)`: the numerator of a `k`-combination of `n` elements
/// is `n! / (n - k)!`.
pub proof fn lemma_fact_split(n: nat, k: nat)
    requires
        k <= n,
    ensures
        fact(n) == fact((n - k) as nat) * range_product((n - k + 1) as nat, n),
    decreases k,
{
    if k == 0 {
        lemma_fact_positive(n);
        assert(range_product((n + 1) as nat, n) == 1);
    } else {
        lemma_fact_split((n - 1) as nat, (k - 1) as nat);
        assert(((n - 1) as nat - (k - 1) as nat) as nat == (n - k) as nat);
        assert(((n - 1) as nat - (k - 1) as nat + 1) as nat == (n - k + 1) as nat);
        let a = fact((n - k) as nat);
        let b = range_product((n - k + 1) as nat, (n - 1) as nat);
        assert(fact(n) == n * fact((n - 1) as nat));
        assert(range_product((n - k + 1) as nat, n) == b * n);
        assert(n * (a * b) == a * (b * n)) by (nonlinear_arith);
    }
}

/// The two integers whose quotient is the number of `k`-combinations of `n` elements: the product
/// `(n - k + 1) * ... * n` and `k!`. Both are `1` for `k = 0`.
pub fn combination_factors(k: usize, n: usize) -> (r: (usize, usize))
    requires
        k <= n,
        range_product((n - k + 1) as nat, n as nat) <= usize::MAX,
        fact(k as nat) <= usize::MAX,
    ensures
        r.0 == range_product((n - k + 1) as nat, n as nat),
        r.1 == fact(k as nat),
{
    if k == 0 {
        return (1, 1);
    }
    let lo = n - k + 1;
    let mut upper: usize = 1;
    let mut i: usize = lo;
    assert(range_product(lo as nat, (lo - 1) as nat) == 1);
    while i < n
        invariant
            1 <= lo <= i <= n,
            upper == range_product(lo as nat, (i - 1) as nat),
            range_product(lo as nat, n as nat) <= usize::MAX,
        decreases n - i,
    {
        proof {
            lemma_range_product_monotone(lo as nat, i as nat, n as nat);
            assert(range_product(lo as nat, i as nat) == range_product(lo as nat, (i - 1) as nat) * i);
        }
        upper = upper * i;
        i = i + 1;
    }
    proof {
        assert(range_product(lo as nat, n as nat) == range_product(lo as nat, (n - 1) as nat) * n);
    }
    upper = upper * n;
    proof {
        lemma_fact_is_range_product(k as nat);
    }
    let lower = factorial(k);
    (upper, lower)
}

} // verus!
