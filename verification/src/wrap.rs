//! Non-negative remainders.

use vstd::arithmetic::div_mod::{lemma_fundamental_div_mod, lemma_fundamental_div_mod_converse};
use vstd::prelude::*;

verus! {

/// The representative of `n` modulo `m` that lies in `0..m`.
pub open spec fn wrap(n: int, m: int) -> int
    recommends
        m > 0,
{
    n % m
}

/// `wrap(n, m)` is the one value in `0..m` that differs from `n` by a multiple of `m`.
pub proof fn lemma_wrap_unique(n: int, m: int, q: int, r: int)
    requires
        m > 0,
        0 <= r < m,
        n == q * m + r,
    ensures
        wrap(n, m) == r,
{
    lemma_fundamental_div_mod_converse(n, m, q, r);
}

/// Reduces `n` modulo `m` to the range `0..m`, also for negative `n`.
pub fn modulo(n: i32, m: i32) -> (r: usize)
    requires
        m > 0,
    ensures
        r == wrap(n as int, m as int),
        r < m,
{
    let t: i32 = n % m;
    proof {
        if n < 0 {
            let a: int = -(n as int);
            let q: int = a / (m as int);
            lemma_fundamental_div_mod(a, m as int);
            assert(t == -(a % (m as int)));
            if t == 0 {
                assert(n == (-q) * m + 0) by (nonlinear_arith)
                    requires
                        a == m * q,
                        n == -a,
                ;
                lemma_wrap_unique(n as int, m as int, -q, 0);
            } else {
                assert(n == (-q - 1) * m + (t + m)) by (nonlinear_arith)
                    requires
                        a == m * q - t,
                        n == -a,
                ;
                lemma_wrap_unique(n as int, m as int, -q - 1, t + m);
            }
        }
    }
    if t < 0 {
        (t + m) as usize
    } else {
        t as usize
    }
}

} // verus!
