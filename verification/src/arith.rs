//! Shared integer arithmetic: rounding to a multiple, and powers of two.

use vstd::arithmetic::div_mod::lemma_fundamental_div_mod;
use vstd::arithmetic::div_mod::lemma_mod_bound;
use vstd::arithmetic::div_mod::lemma_mod_multiples_basic;
use vstd::arithmetic::mul::lemma_mul_is_commutative;
use vstd::prelude::*;

verus! {

/// `x` rounded up to the next multiple of `a`.
pub open spec fn round_up(x: int, a: int) -> int {
    ((x + a - 1) / a) * a
}

/// `x` rounded down to the previous multiple of `a`.
pub open spec fn round_down(x: int, a: int) -> int {
    (x / a) * a
}

/// Whether `n` is a power of two.
pub open spec fn is_pow2(n: int) -> bool
    decreases n,
{
    if n <= 0 {
        false
    } else if n == 1 {
        true
    } else {
        n % 2 == 0 && is_pow2(n / 2)
    }
}

pub proof fn lemma_pow2_pos(n: int)
    requires
        is_pow2(n),
    ensures
        n >= 1,
    decreases n,
{
    if n > 1 {
        lemma_pow2_pos(n / 2);
    }
}

pub proof fn lemma_pow2_32()
    ensures
        is_pow2(32),
{
    reveal_with_fuel(is_pow2, 7);
}

pub proof fn lemma_pow2_double(n: int)
    requires
        is_pow2(n),
    ensures
        is_pow2(2 * n),
{
    lemma_pow2_pos(n);
    assert((2 * n) % 2 == 0);
    assert((2 * n) / 2 == n);
}

pub proof fn lemma_round_up_props(x: int, a: int)
    requires
        x >= 0,
        a >= 1,
    ensures
        x <= round_up(x, a) < x + a,
        round_up(x, a) % a == 0,
{
    let q = (x + a - 1) / a;
    let r = (x + a - 1) % a;
    lemma_fundamental_div_mod(x + a - 1, a);
    lemma_mod_bound(x + a - 1, a);
    lemma_mod_multiples_basic(q, a);
    lemma_mul_is_commutative(a, q);
    assert(q * a == x + a - 1 - r);
}

pub proof fn lemma_round_down_props(x: int, a: int)
    requires
        x >= 0,
        a >= 1,
    ensures
        0 <= round_down(x, a) <= x,
        round_down(x, a) % a == 0,
{
    let q = x / a;
    let r = x % a;
    lemma_fundamental_div_mod(x, a);
    lemma_mod_bound(x, a);
    lemma_mod_multiples_basic(q, a);
    lemma_mul_is_commutative(a, q);
    assert(q * a == x - r);
}

/// Comparing against a quotient is comparing the product against the
/// dividend: for `p >= 1`, `n > x / p` exactly when `n * p > x`.
pub proof fn lemma_div_mul_compare(n: int, p: int, x: int)
    requires
        n >= 0,
        p >= 1,
        x >= 0,
    ensures
        (n > x / p) <==> (n * p > x),
{
    let q = x / p;
    let r = x % p;
    lemma_fundamental_div_mod(x, p);
    lemma_mod_bound(x, p);
    lemma_mul_is_commutative(p, q);
    assert(q * p == x - r);
    if n > q {
        assert(n * p >= (q + 1) * p) by (nonlinear_arith)
            requires
                n >= q + 1,
                p >= 1,
        ;
        assert((q + 1) * p == q * p + p) by (nonlinear_arith);
    } else {
        assert(n * p <= q * p) by (nonlinear_arith)
            requires
                n <= q,
                p >= 1,
        ;
    }
}

} // verus!
