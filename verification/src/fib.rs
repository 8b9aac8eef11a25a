//! Fibonacci numbers computed sequentially and in parallel over a range,
//! collected into a map from index to value.

use std::collections::HashMap;

use rayon::iter::IntoParallelIterator;
use rayon::iter::ParallelIterator;
use vstd::prelude::*;

verus! {

broadcast use vstd::std_specs::hash::group_hash_axioms;

/// The mathematical Fibonacci sequence.
pub open spec fn spec_fib(n: nat) -> nat
    decreases n,
{
    if n == 0 {
        0
    } else if n == 1 {
        1
    } else {
        spec_fib((n - 1) as nat) + spec_fib((n - 2) as nat)
    }
}

/// Fibonacci is monotone: a later index never gives a smaller value.
pub proof fn lemma_fib_mono(i: nat, j: nat)
    requires
        i <= j,
    ensures
        spec_fib(i) <= spec_fib(j),
    decreases j - i,
{
    if i < j {
        lemma_fib_mono(i, (j - 1) as nat);
        if j >= 2 {
            assert(spec_fib(j) == spec_fib((j - 1) as nat) + spec_fib((j - 2) as nat));
        }
    }
}

/// Iterative Fibonacci; the caller must ensure the result fits in a `u64`.
pub fn fibonacci(n: u64) -> (r: u64)
    requires
        spec_fib(n as nat) <= u64::MAX,
    ensures
        r == spec_fib(n as nat),
{
    if n == 0 {
        return 0;
    }
    let mut a: u64 = 0;
    let mut b: u64 = 1;
    let mut i: u64 = 1;
    while i < n
        invariant
            1 <= i <= n,
            a == spec_fib((i - 1) as nat),
            b == spec_fib(i as nat),
            spec_fib(n as nat) <= u64::MAX,
        decreases n - i,
    {
        proof {
            lemma_fib_mono((i + 1) as nat, n as nat);
        }
        let c: u64 = a + b;
        a = b;
        b = c;
        i = i + 1;
    }
    b
}

/// The map from each index in `[lo, hi)` to its Fibonacci number.
pub open spec fn fib_map(lo: u64, hi: u64) -> Map<u64, u64> {
    Map::new(|k: u64| lo <= k < hi, |k: u64| spec_fib(k as nat) as u64)
}

/// Fibonacci numbers over a range, computed one after another.
pub fn sequential(lo: u64, hi: u64) -> (r: HashMap<u64, u64>)
    requires
        forall|k: u64| lo <= k < hi ==> spec_fib(k as nat) <= u64::MAX,
    ensures
        r@ == fib_map(lo, hi),
{
    let mut m: HashMap<u64, u64> = HashMap::new();
    let mut k: u64 = lo;
    proof {
        assert(m@ =~= fib_map(lo, lo));
    }
    while k < hi
        invariant
            lo <= k <= hi || (lo >= hi && k == lo),
            forall|j: u64| lo <= j < hi ==> spec_fib(j as nat) <= u64::MAX,
            m@ == fib_map(lo, k),
        decreases hi - k,
    {
        let v = fibonacci(k);
        m.insert(k, v);
        proof {
            assert(m@ =~= fib_map(lo, (k + 1) as u64));
        }
        k = k + 1;
    }
    proof {
        if lo >= hi {
            assert(fib_map(lo, lo) =~= fib_map(lo, hi));
        }
    }
    m
}

/// Relies on rayon's `into_par_iter`, `map` and `collect`: the closure —
/// which only pairs each index with a call of the verified `fibonacci` —
/// is applied to every index of the range, and all pairs are collected
/// into the map.
#[verifier::external_body]
fn par_fib_map(lo: u64, hi: u64) -> (r: HashMap<u64, u64>)
    requires
        forall|k: u64| lo <= k < hi ==> spec_fib(k as nat) <= u64::MAX,
    ensures
        r@ == fib_map(lo, hi),
{
    (lo..hi).into_par_iter().map(|k| (k, fibonacci(k))).collect()
}

/// Fibonacci numbers over a range, computed on a thread pool; the result
/// is the same map `sequential` builds.
pub fn parallel(lo: u64, hi: u64) -> (r: HashMap<u64, u64>)
    requires
        forall|k: u64| lo <= k < hi ==> spec_fib(k as nat) <= u64::MAX,
    ensures
        r@ == fib_map(lo, hi),
{
    par_fib_map(lo, hi)
}

} // verus!
