//! Lemire's method is exact: every value in `[0, bound)` comes from the same
//! number of accepted draws, so uniform draws give uniform values.
use vstd::prelude::*;
use vstd::arithmetic::div_mod::{
    lemma_div_is_ordered, lemma_div_multiples_vanish_fancy, lemma_div_pos_is_pos,
    lemma_fundamental_div_mod, lemma_hoist_over_denominator, lemma_mod_bound,
};
use vstd::arithmetic::mul::{lemma_mul_inequality, lemma_mul_is_commutative, lemma_mul_is_distributive_add};

use crate::stream::{lemire_accepts, lemire_value};

verus! {

/// The number of draws `x` in `[0, n)` that Lemire's method accepts for the
/// interval `[0, bound)` and turns into `v`.
pub open spec fn lemire_preimage_count(v: int, bound: int, range: int, n: nat) -> nat
    decreases n,
{
    if n == 0 {
        0
    } else {
        let x = (n - 1) as int;
        lemire_preimage_count(v, bound, range, (n - 1) as nat) + if lemire_accepts(x, bound, range)
            && lemire_value(x, bound, range) == v {
            1nat
        } else {
            0nat
        }
    }
}

/// The number of `x` in `[0, n)` with `x * bound < y`.
spec fn multiples_below(bound: int, y: int, n: nat) -> nat
    decreases n,
{
    if n == 0 {
        0
    } else {
        multiples_below(bound, y, (n - 1) as nat) + if (n - 1) * bound < y {
            1nat
        } else {
            0nat
        }
    }
}

/// `y / bound` rounded up.
spec fn ceil_div(y: int, bound: int) -> int {
    (y + bound - 1) / bound
}

/// `x * bound < y` exactly when `x` is below `y / bound` rounded up.
proof fn lemma_ceil_div_threshold(x: int, y: int, bound: int)
    requires
        bound > 0,
        y >= 0,
        x >= 0,
    ensures
        (x * bound < y) <==> (x < ceil_div(y, bound)),
{
    let c = ceil_div(y, bound);
    lemma_fundamental_div_mod(y + bound - 1, bound);
    lemma_mod_bound(y + bound - 1, bound);
    lemma_mul_is_commutative(bound, c);
    if x < c {
        lemma_mul_inequality(x + 1, c, bound);
        lemma_mul_is_distributive_add(bound, x, 1);
        lemma_mul_is_commutative(bound, x);
        lemma_mul_is_commutative(bound, x + 1);
    } else {
        lemma_mul_inequality(c, x, bound);
    }
}

/// Counting the `x` in `[0, n)` with `x * bound < y`.
proof fn lemma_multiples_below(bound: int, y: int, n: nat)
    requires
        bound > 0,
        y >= 0,
    ensures
        multiples_below(bound, y, n) == if n < ceil_div(y, bound) {
            n as int
        } else {
            ceil_div(y, bound)
        },
    decreases n,
{
    lemma_div_pos_is_pos(y + bound - 1, bound);
    if n > 0 {
        lemma_multiples_below(bound, y, (n - 1) as nat);
        lemma_ceil_div_threshold(n - 1, y, bound);
    }
}

/// Lemire's method accepts the draw `x` and turns it into `v` exactly when
/// `x * bound` lies in `[v * range + range % bound, v * range + range)`.
proof fn lemma_preimage_window(x: int, v: int, bound: int, range: int)
    requires
        0 < bound <= range,
        x >= 0,
    ensures
        (lemire_accepts(x, bound, range) && lemire_value(x, bound, range) == v) <==> (v * range
            + range % bound <= x * bound < v * range + range),
{
    assert(x * bound >= 0) by (nonlinear_arith)
        requires
            x >= 0,
            bound > 0,
    ;
    let p = x * bound;
    lemma_fundamental_div_mod(p, range);
    lemma_mod_bound(p, range);
    lemma_mod_bound(range, bound);
    let q = p / range;
    let r = p % range;
    lemma_mul_is_commutative(range, q);
    if v * range + range % bound <= p < v * range + range {
        if q > v {
            lemma_mul_inequality(v + 1, q, range);
            lemma_mul_is_distributive_add(range, v, 1);
            lemma_mul_is_commutative(range, v);
            lemma_mul_is_commutative(range, v + 1);
        } else if q < v {
            lemma_mul_inequality(q + 1, v, range);
            lemma_mul_is_distributive_add(range, q, 1);
            lemma_mul_is_commutative(range, q + 1);
        }
    }
}

/// The accepted draws that Lemire's method turns into `v` are counted by
/// the multiples of `bound` in its window.
proof fn lemma_preimage_count_window(v: int, bound: int, range: int, n: nat)
    requires
        0 < bound <= range,
        0 <= v,
    ensures
        lemire_preimage_count(v, bound, range, n) == multiples_below(bound, v * range + range, n)
            - multiples_below(bound, v * range + range % bound, n),
    decreases n,
{
    if n > 0 {
        lemma_preimage_count_window(v, bound, range, (n - 1) as nat);
        lemma_preimage_window(n - 1, v, bound, range);
        lemma_mod_bound(range, bound);
    }
}

/// Lemire's method is unbiased: of the draws in `[0, range)`, exactly
/// `range / bound` are accepted and turned into each value `v` in
/// `[0, bound)`. So when every draw is equally likely, so is every value.
pub proof fn lemma_lemire_uniform(v: int, bound: int, range: int)
    requires
        0 < bound <= range,
        0 <= v < bound,
    ensures
        lemire_preimage_count(v, bound, range, range as nat) == range / bound,
{
    let t = range % bound;
    let q = range / bound;
    lemma_fundamental_div_mod(range, bound);
    lemma_mod_bound(range, bound);
    assert(v * range >= 0) by (nonlinear_arith)
        requires
            v >= 0,
            range > 0,
    ;
    let lo = v * range + t;
    let hi = v * range + range;
    lemma_preimage_count_window(v, bound, range, range as nat);
    lemma_multiples_below(bound, lo, range as nat);
    lemma_multiples_below(bound, hi, range as nat);
    // The window holds q multiples of the bound: hi == lo + q * bound.
    lemma_mul_is_commutative(bound, q);
    assert(hi == lo + q * bound);
    lemma_hoist_over_denominator(lo + bound - 1, q, bound as nat);
    assert(ceil_div(hi, bound) == ceil_div(lo, bound) + q);
    // Both ends lie within bound * range, so neither count is cut off at n = range.
    lemma_mul_inequality(v + 1, bound, range);
    lemma_mul_is_distributive_add(range, v, 1);
    lemma_mul_is_commutative(range, v);
    lemma_mul_is_commutative(range, v + 1);
    lemma_mul_is_commutative(range, bound);
    assert(hi <= bound * range);
    lemma_div_is_ordered(hi + bound - 1, bound * range + (bound - 1), bound);
    lemma_div_multiples_vanish_fancy(range, bound - 1, bound);
    assert(ceil_div(hi, bound) <= range);
    assert(q >= 0);
}

} // verus!
