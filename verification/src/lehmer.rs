//! The Lehmer64 pseudorandom number generator.
use vstd::prelude::*;
use vstd::arithmetic::div_mod::{lemma_mul_mod_noop_left, lemma_small_mod};
use vstd::arithmetic::mul::lemma_mul_is_associative;
use vstd::arithmetic::power::{lemma_pow0, lemma_pow1, lemma_pow_adds, pow};

use crate::stream::{advance, lemma_advance_succ, nth_output, RngState};
use crate::traits::CoreRNG;

verus! {

/// Fast general purpose PRNG based on a linear congruential generator.
///
/// [`Lehmer64`] is a Lehmer RNG, a subtype of linear congruential generators
/// (LCG) with an increment of zero. The state is 128 bits wide, the modulus
/// is `2**128` and the multiplier `15750249268501108917`; each step returns
/// the upper 64 bits of the new state. Unlike `WyRand` this generator does
/// not allow freely seeking in the output stream. The seed `0` is weak and
/// results in only zeroes being generated, a consequence of the increment
/// being zero.
///
/// Lehmer64 is NOT cryptographically secure.
#[derive(Debug, Copy, Clone, PartialEq, Eq, Structural)]
pub struct Lehmer64 {
    /// The generator's internal state.
    /// The upper 64 bits of the state are the last output returned by `next`.
    state: u128,
}

/// `2^128`, the number of distinct `u128` values.
pub open spec fn u128_range() -> int {
    u128::MAX as int + 1
}

impl Lehmer64 {
    /// Multiplier used in the LCG.
    const MULTIPLIER: u128 = 0xDA94_2042_E4DD_58B5;
    /// Sets the number of values discarded after instantiating a generator.
    pub const WARMUP_ITERATIONS: usize = 4;
    /// Sets the seed used when instantiating a generator using default.
    /// This particular value was randomly chosen, it only needs to be nonzero.
    pub const DEFAULT_SEED: u64 = 0x2FB6_A490_3F74_5A36;

    /// The state after one step from `state`: the product with the
    /// multiplier, modulo `2^128`.
    closed spec fn multiply(state: u128) -> u128 {
        ((state as int * Self::MULTIPLIER as int) % u128_range()) as u128
    }

    /// The generator's 128-bit state.
    pub closed spec fn state_value(self) -> u128 {
        self.state
    }

    /// The generator whose state is the seed, before any value is discarded.
    pub closed spec fn unwarmed(seed: u64) -> Self {
        Lehmer64 { state: seed as u128 }
    }

    /// Behaves like [`CoreRNG::new`] but without discarding the first set of
    /// values.
    ///
    /// If the seed is small the first couple values produced by the
    /// generator are of low quality and normally discarded; this function
    /// disables this behaviour.
    #[must_use]
    pub fn new_without_warmup(seed: u64) -> (r: Self)
        ensures
            r == Self::unwarmed(seed),
    {
        Self { state: u128::from(seed) }
    }
}

impl RngState for Lehmer64 {
    closed spec fn seeded_with(seed: u64) -> Self {
        Lehmer64 {
            state: Self::multiply(Self::multiply(Self::multiply(Self::multiply(seed as u128)))),
        }
    }

    closed spec fn successor(self) -> Self {
        Lehmer64 { state: Self::multiply(self.state) }
    }

    closed spec fn step_output(self) -> u64 {
        (self.successor().state as int / 0x1_0000_0000_0000_0000) as u64
    }
}

impl CoreRNG for Lehmer64 {
    /// Initialize new generator with specified seed.
    ///
    /// Zero is a weak seed for [`Lehmer64`] and will only produce zeros as
    /// output. The first [`Self::WARMUP_ITERATIONS`] values are discarded.
    fn new(seed: u64) -> (r: Self) {
        let mut generator = Self::new_without_warmup(seed);
        // The first couple values are of low quality if a
        // small seed is used. So we discard the first set of outputs.
        for i in 0..Self::WARMUP_ITERATIONS
            invariant
                generator == advance(Self::unwarmed(seed), i as nat),
        {
            assert(Self::WARMUP_ITERATIONS == 4);
            proof {
                lemma_advance_succ(Self::unwarmed(seed), i as nat);
            }
            let _ = generator.next();
        }
        proof {
            lemma_lehmer_warmup(seed);
        }
        generator
    }

    fn next(&mut self) -> (r: u64) {
        self.state = self.state.wrapping_mul(Self::MULTIPLIER);
        let s = self.state;
        assert(((s >> 64u128) as u64) as int == (s as int) / 0x1_0000_0000_0000_0000) by (bit_vector);
        #[verifier::truncate]
        let r = (s >> 64u128) as u64;
        r
    }
}

impl Default for Lehmer64 {
    /// Initialize with the nonzero seed [`Self::DEFAULT_SEED`].
    ///
    /// This is done to prevent the generator from only generating
    /// zero as output with a zero seed.
    fn default() -> (r: Self)
        ensures
            r == Lehmer64::seeded_with(Lehmer64::DEFAULT_SEED),
    {
        Self::new(Self::DEFAULT_SEED)
    }
}

/// [`CoreRNG::new`] for [`Lehmer64`] is [`Lehmer64::new_without_warmup`]
/// followed by [`Lehmer64::WARMUP_ITERATIONS`] discarded steps.
pub proof fn lemma_lehmer_warmup(seed: u64)
    ensures
        Lehmer64::seeded_with(seed) == advance(
            Lehmer64::unwarmed(seed),
            Lehmer64::WARMUP_ITERATIONS as nat,
        ),
{
    let g = Lehmer64::unwarmed(seed);
    lemma_advance_succ(g, 0);
    lemma_advance_succ(g, 1);
    lemma_advance_succ(g, 2);
    lemma_advance_succ(g, 3);
}

/// After `n` steps from a state, the state is the product of that state and
/// the multiplier's `n`-th power, modulo `2^128`.
proof fn lemma_state_closed_form(g: Lehmer64, n: nat)
    ensures
        advance(g, n).state as int == (g.state as int * pow(Lehmer64::MULTIPLIER as int, n)) % u128_range(),
    decreases n,
{
    let m = Lehmer64::MULTIPLIER as int;
    let r = u128_range();
    if n == 0 {
        lemma_pow0(m);
        lemma_small_mod(g.state as nat, r as nat);
    } else {
        let k = (n - 1) as nat;
        lemma_state_closed_form(g, k);
        lemma_advance_succ(g, k);
        let x = g.state as int * pow(m, k);
        // advance(g, n).state == ((x % r) * m) % r == (x * m) % r
        lemma_mul_mod_noop_left(x, m, r);
        lemma_pow_adds(m, k, 1);
        lemma_pow1(m);
        lemma_mul_is_associative(g.state as int, pow(m, k), m);
    }
}

/// Step `n` (counting from zero) of a [`Lehmer64`] whose state starts at
/// `seed` returns the upper 64 bits of `seed * 15750249268501108917^(n + 1)`
/// modulo `2^128`.
pub proof fn lemma_lehmer_output(seed: u64, n: nat)
    ensures
        nth_output(Lehmer64::unwarmed(seed), n) as int == ((seed as int * pow(
            15750249268501108917,
            n + 1,
        )) % u128_range()) / 0x1_0000_0000_0000_0000,
{
    lemma_lehmer_state_output(Lehmer64::unwarmed(seed), n);
}

/// Step `n` (counting from zero) from any [`Lehmer64`] returns the upper 64
/// bits of its state times `15750249268501108917^(n + 1)`, modulo `2^128`.
pub proof fn lemma_lehmer_state_output(g: Lehmer64, n: nat)
    ensures
        nth_output(g, n) as int == ((g.state_value() as int * pow(15750249268501108917, n + 1))
            % u128_range()) / 0x1_0000_0000_0000_0000,
{
    lemma_state_closed_form(g, n + 1);
    lemma_advance_succ(g, n);
    assert(Lehmer64::MULTIPLIER == 15750249268501108917u128);
    let st = advance(g, n + 1).state as int;
    assert(0 <= st / 0x1_0000_0000_0000_0000 <= u64::MAX) by (nonlinear_arith)
        requires
            0 <= st < u128_range(),
    ;
}

/// The state of a [`Lehmer64`] that started from state zero stays zero.
proof fn lemma_zero_state_stays(n: nat)
    ensures
        advance(Lehmer64::unwarmed(0), n) == Lehmer64::unwarmed(0),
    decreases n,
{
    if n > 0 {
        lemma_zero_state_stays((n - 1) as nat);
        lemma_advance_succ(Lehmer64::unwarmed(0), (n - 1) as nat);
        assert(0int * Lehmer64::MULTIPLIER as int == 0);
        assert(Lehmer64::multiply(0) == 0);
    }
}

/// The zero state of [`Lehmer64`] maps to itself and outputs zero; the
/// seed `0` gives that state, with or without warmup.
pub proof fn lemma_lehmer_zero_state_fixed()
    ensures
        Lehmer64::unwarmed(0).successor() == Lehmer64::unwarmed(0),
        Lehmer64::unwarmed(0).step_output() == 0,
        Lehmer64::seeded_with(0) == Lehmer64::unwarmed(0),
{
    assert(0int * Lehmer64::MULTIPLIER as int == 0);
    assert(Lehmer64::multiply(0) == 0);
    lemma_lehmer_warmup(0);
    lemma_zero_state_stays(4);
}

/// The seed `0` is weak for [`Lehmer64`]: every output is zero, with or
/// without warmup.
pub proof fn lemma_lehmer_zero_seed(n: nat)
    ensures
        nth_output(Lehmer64::seeded_with(0), n) == 0,
        nth_output(Lehmer64::unwarmed(0), n) == 0,
{
    lemma_lehmer_warmup(0);
    lemma_zero_state_stays(4);
    lemma_zero_state_stays(n);
    lemma_zero_state_stays(n + 1);
    lemma_advance_succ(Lehmer64::unwarmed(0), n);
    assert(Lehmer64::seeded_with(0) == Lehmer64::unwarmed(0));
}

} // verus!
