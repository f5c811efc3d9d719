//! The model of a generator's output stream that the contracts speak of:
//! a generator is a state machine, and bounded generation is Lemire's
//! method of rejection sampling over its outputs.
use vstd::prelude::*;
use vstd::arithmetic::div_mod::{lemma_fundamental_div_mod, lemma_mod_bound, lemma_small_mod};
use vstd::arithmetic::mul::lemma_mul_inequality;
use vstd::arithmetic::power2::pow2;


verus! {

/// `2^64`, the number of distinct `u64` values.
pub open spec fn u64_range() -> int {
    0x1_0000_0000_0000_0000
}

/// `2^32`, the number of distinct `u32` values.
pub open spec fn u32_range() -> int {
    0x1_0000_0000
}

/// The state machine of a generator: `successor` is the generator after one
/// step, `step_output` what that step returns, and `seeded_with` the
/// generator that a seed gives. The contracts of [`CoreRNG`] speak of these.
pub trait RngState: Sized {
    /// The generator that `new(seed)` makes.
    spec fn seeded_with(seed: u64) -> Self;

    /// The generator after one step.
    spec fn successor(self) -> Self;

    /// The value that one step from this generator returns.
    spec fn step_output(self) -> u64;
}

/// The generator `r` after `n` steps.
pub open spec fn advance<R: RngState>(r: R, n: nat) -> R
    decreases n,
{
    if n == 0 {
        r
    } else {
        advance(r, (n - 1) as nat).successor()
    }
}

/// The value that the step numbered `n` (counting from zero) returns,
/// starting from `r`.
pub open spec fn nth_output<R: RngState>(r: R, n: nat) -> u64 {
    advance(r, n).step_output()
}

/// The threshold below which Lemire's method rejects a draw: draws whose
/// product with `bound` has a low part under `range % bound` are biased.
pub open spec fn lemire_cutoff(bound: int, range: int) -> int {
    if bound == 0 {
        0
    } else {
        range % bound
    }
}

/// Whether Lemire's method accepts the draw `x` of `[0, range)` for the
/// interval `[0, bound)`.
pub open spec fn lemire_accepts(x: int, bound: int, range: int) -> bool {
    (x * bound) % range >= lemire_cutoff(bound, range)
}

/// The value in `[0, bound)` that Lemire's method makes of the draw `x`:
/// the high part of `x * bound`.
pub open spec fn lemire_value(x: int, bound: int, range: int) -> int {
    (x * bound) / range
}

/// The draw of `[0, range)` that step `k` from `r` yields: the low bits of
/// its output.
pub open spec fn draw<R: RngState>(r: R, k: nat, range: int) -> int {
    (nth_output(r, k) as int) % range
}

/// Whether the draw of step `k` from `r` is accepted.
pub open spec fn accepted_at<R: RngState>(r: R, k: nat, bound: int, range: int) -> bool {
    lemire_accepts(draw(r, k, range), bound, range)
}

/// Step `k` from `r` gives the first accepted draw.
pub open spec fn first_accepted_at<R: RngState>(r: R, k: nat, bound: int, range: int) -> bool {
    &&& accepted_at(r, k, bound, range)
    &&& forall|j: nat| j < k ==> !#[trigger] accepted_at(r, j, bound, range)
}

/// Some step from `r` gives an accepted draw, so that rejection sampling
/// from `r` ends.
pub open spec fn eventually_accepts<R: RngState>(r: R, bound: int, range: int) -> bool {
    exists|k: nat| #[trigger] accepted_at(r, k, bound, range)
}

/// What bounded generation from `r` yields: `value` after `steps` steps,
/// the draw of the last step being the first accepted one.
pub open spec fn lemire_outcome<R: RngState>(r: R, bound: int, range: int, steps: nat, value: int) -> bool {
    &&& steps >= 1
    &&& first_accepted_at(r, (steps - 1) as nat, bound, range)
    &&& value == lemire_value(draw(r, (steps - 1) as nat, range), bound, range)
}

/// Byte `k` of `x` in little-endian order.
pub open spec fn le_byte(x: u64, k: nat) -> u8 {
    ((x as int / pow2(8 * k) as int) % 256) as u8
}

/// Byte `k` of a word is the word shifted right by `8 * k` bits and masked
/// to its low eight bits, and the eight bytes put back together in
/// little-endian order give the word, for every word.
pub proof fn lemma_le_bytes_of_word(x: u64)
    ensures
        forall|k: nat| k < 8 ==> #[trigger] le_byte(x, k) as u64 == (x >> (8 * k) as u64) & 0xffu64,
        x as int == le_byte(x, 0) as int + 0x100 * le_byte(x, 1) as int + 0x1_0000 * le_byte(x, 2) as int
            + 0x100_0000 * le_byte(x, 3) as int + 0x1_0000_0000 * le_byte(x, 4) as int
            + 0x100_0000_0000 * le_byte(x, 5) as int + 0x1_0000_0000_0000 * le_byte(x, 6) as int
            + 0x100_0000_0000_0000 * le_byte(x, 7) as int,
{
    assert forall|k: nat| k < 8 implies #[trigger] le_byte(x, k) as u64 == (x >> (8 * k) as u64) & 0xffu64 by {
        let shift = (8 * k) as u64;
        vstd::bits::lemma_u64_shr_is_div(x, shift);
        let y = x >> shift;
        assert(y & 0xffu64 == y % 256) by (bit_vector);
    }
    assert(x as int == (x & 0xff) as int + 0x100 * ((x >> 8u64) & 0xff) as int
        + 0x1_0000 * ((x >> 16u64) & 0xff) as int + 0x100_0000 * ((x >> 24u64) & 0xff) as int
        + 0x1_0000_0000 * ((x >> 32u64) & 0xff) as int + 0x100_0000_0000 * ((x >> 40u64) & 0xff) as int
        + 0x1_0000_0000_0000 * ((x >> 48u64) & 0xff) as int
        + 0x100_0000_0000_0000 * ((x >> 56u64) & 0xff) as int) by (bit_vector);
    assert(le_byte(x, 0) as u64 == (x >> 0u64) & 0xffu64);
    assert(x >> 0u64 == x) by (bit_vector);
    assert(le_byte(x, 1) as u64 == (x >> 8u64) & 0xffu64);
    assert(le_byte(x, 2) as u64 == (x >> 16u64) & 0xffu64);
    assert(le_byte(x, 3) as u64 == (x >> 24u64) & 0xffu64);
    assert(le_byte(x, 4) as u64 == (x >> 32u64) & 0xffu64);
    assert(le_byte(x, 5) as u64 == (x >> 40u64) & 0xffu64);
    assert(le_byte(x, 6) as u64 == (x >> 48u64) & 0xffu64);
    assert(le_byte(x, 7) as u64 == (x >> 56u64) & 0xffu64);
}

/// Taking one more step after `n` steps.
pub proof fn lemma_advance_succ<R: RngState>(r: R, n: nat)
    ensures
        advance(r, n + 1) == advance(r, n).successor(),
{
}

/// Stepping `a` times and then `b` times is stepping `a + b` times.
pub proof fn lemma_advance_add<R: RngState>(r: R, a: nat, b: nat)
    ensures
        advance(advance(r, a), b) == advance(r, a + b),
    decreases b,
{
    if b > 0 {
        lemma_advance_add(r, a, (b - 1) as nat);
    }
}

/// Lemire's method yields a value below its bound.
pub proof fn lemma_lemire_value_below_bound(x: int, bound: int, range: int)
    requires
        0 <= x < range,
        0 < bound,
    ensures
        0 <= lemire_value(x, bound, range) < bound,
{
    lemma_mul_inequality(x, range - 1, bound);
    assert(x * bound <= (range - 1) * bound);
    assert((range - 1) * bound == range * bound - bound) by (nonlinear_arith);
    assert(x * bound < range * bound);
    assert(0 <= x * bound) by (nonlinear_arith)
        requires 0 <= x, 0 < bound;
    lemma_fundamental_div_mod(x * bound, range);
    lemma_mod_bound(x * bound, range);
    let q = (x * bound) / range;
    assert(range * q <= x * bound);
    if q >= bound {
        assert(range * q >= range * bound) by (nonlinear_arith)
            requires q >= bound, range > 0;
        assert(range * bound == bound * range) by (nonlinear_arith);
    }
    if q < 0 {
        assert(range * q <= -range) by (nonlinear_arith)
            requires q < 0, range > 0;
    }
}

/// Bounded generation is deterministic: from one generator, one bound and
/// one range there is a single outcome, so the number of steps and the value
/// that the contracts describe are pinned down.
pub proof fn lemma_lemire_outcome_unique<R: RngState>(
    r: R,
    bound: int,
    range: int,
    steps1: nat,
    value1: int,
    steps2: nat,
    value2: int,
)
    requires
        lemire_outcome(r, bound, range, steps1, value1),
        lemire_outcome(r, bound, range, steps2, value2),
    ensures
        steps1 == steps2,
        value1 == value2,
{
    let k1 = (steps1 - 1) as nat;
    let k2 = (steps2 - 1) as nat;
    if k1 < k2 {
        assert(!accepted_at(r, k1, bound, range));
    } else if k2 < k1 {
        assert(!accepted_at(r, k2, bound, range));
    }
}

/// A bound below two is met by the first draw, with the value zero.
pub proof fn lemma_lemire_small_bound(x: int, bound: int, range: int)
    requires
        0 <= x < range,
        0 <= bound <= 1,
    ensures
        lemire_accepts(x, bound, range),
        lemire_value(x, bound, range) == 0,
{
    if bound == 1 {
        assert(x * bound == x);
        lemma_small_mod(x as nat, range as nat);
        vstd::arithmetic::div_mod::lemma_basic_div(x, range);
    } else {
        assert(x * bound == 0);
    }
}

} // verus!
