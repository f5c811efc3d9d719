//! The `WyRand` pseudorandom number generator.
use vstd::prelude::*;
use vstd::arithmetic::div_mod::{lemma_add_mod_noop, lemma_mod_bound, lemma_mod_multiples_vanish, lemma_mod_sub_multiples_vanish, lemma_small_mod, lemma_sub_mod_noop};
use vstd::arithmetic::mul::lemma_mul_upper_bound;

use crate::stream::{advance, lemma_advance_add, lemma_advance_succ, nth_output, RngState};
use crate::traits::{lemma_u128_halves, CoreRNG, SeekableRNG};

verus! {

/// The `WyHash` multiply and mix of `s`: the 128-bit product of `s` and
/// `s ^ 0x8BB8_4B93_962E_ACC9`, its high and low halves combined by
/// exclusive or.
pub open spec fn wyhash_mix(s: u64) -> u64 {
    let product = s as int * (s ^ 0x8BB8_4B93_962E_ACC9u64) as int;
    ((product / 0x1_0000_0000_0000_0000) as u64) ^ ((product % 0x1_0000_0000_0000_0000) as u64)
}

/// Fast general purpose PRNG based on the `WyHash` multiply and mix function.
///
/// [`WyRand`] is a fast pseudorandom number generator derived from the
/// `WyHash` hash function. Each step adds the constant `WY0` to the state and
/// returns the state fed into the multiply and mix function. The generator
/// allows freely moving to any position in the output stream via the
/// [`SeekableRNG`] trait. Its output repeats after `2^64` steps.
///
/// WyRand is NOT cryptographically secure.
#[derive(Debug, Copy, Clone, PartialEq, Eq, Structural)]
pub struct WyRand {
    /// The generator's internal state.
    state: u64,
}

impl WyRand {
    /// Generator constant taken from the `WyHash` paper.
    const WY0: u64 = 0x2D35_8DCC_AA6C_78A5;
    /// Generator constant taken from the `WyHash` paper.
    const WY1: u64 = 0x8BB8_4B93_962E_ACC9;

    /// The state that `n` steps from `state` lead to: each step adds `WY0`
    /// modulo `2^64`.
    closed spec fn state_after(state: u64, n: int) -> u64 {
        ((state as int + n * Self::WY0 as int) % 0x1_0000_0000_0000_0000) as u64
    }

    /// `n` steps from a generator move its state by `n * WY0` modulo `2^64`.
    proof fn lemma_advance_state(g: WyRand, n: nat)
        ensures
            advance(g, n) == (WyRand { state: Self::state_after(g.state, n as int) }),
        decreases n,
    {
        let m: int = 0x1_0000_0000_0000_0000;
        if n == 0 {
            lemma_small_mod(g.state as nat, m as nat);
        } else {
            Self::lemma_advance_state(g, (n - 1) as nat);
            let prev = g.state as int + (n - 1) * Self::WY0 as int;
            lemma_add_mod_noop(prev, Self::WY0 as int, m);
            lemma_small_mod(Self::WY0 as nat, m as nat);
            lemma_mod_bound(prev, m);
            lemma_small_mod((prev % m) as nat, m as nat);
            assert(prev + Self::WY0 as int == g.state as int + n * Self::WY0 as int) by (nonlinear_arith)
                requires prev == g.state as int + (n - 1) * Self::WY0 as int;
        }
    }
}

impl RngState for WyRand {
    closed spec fn seeded_with(seed: u64) -> Self {
        WyRand { state: seed }
    }

    closed spec fn successor(self) -> Self {
        WyRand { state: Self::state_after(self.state, 1) }
    }

    closed spec fn step_output(self) -> u64 {
        wyhash_mix(Self::state_after(self.state, 1))
    }
}

impl CoreRNG for WyRand {
    fn new(seed: u64) -> (r: Self) {
        Self { state: seed }
    }

    fn next(&mut self) -> (r: u64) {
        let ghost before = self.state;
        self.state = self.state.wrapping_add(Self::WY0);
        proof {
            let m: int = 0x1_0000_0000_0000_0000;
            let sum = before as int + Self::WY0 as int;
            if sum > u64::MAX as int {
                lemma_mod_sub_multiples_vanish(sum, m);
                lemma_small_mod((sum - m) as nat, m as nat);
            } else {
                lemma_small_mod(sum as nat, m as nat);
            }
            assert(self.state == Self::state_after(before, 1));
        }
        let s = self.state;
        let t = s ^ Self::WY1;
        assert(Self::WY1 == 0x8BB8_4B93_962E_ACC9u64);
        proof {
            lemma_mul_upper_bound(s as int, u64::MAX as int, t as int, u64::MAX as int);
        }
        let c = u128::from(s).wrapping_mul(u128::from(t));
        assert(c as int == s as int * t as int);
        proof {
            lemma_u128_halves(c);
        }
        #[verifier::truncate]
        let high = (c >> 64u128) as u64;
        #[verifier::truncate]
        let low = c as u64;
        high ^ low
    }
}

impl SeekableRNG for WyRand {
    fn move_state_forwards(&mut self, delta: u64) {
        let ghost before = *self;
        let jump = Self::WY0.wrapping_mul(delta);
        self.state = self.state.wrapping_add(jump);
        proof {
            let m: int = 0x1_0000_0000_0000_0000;
            let prod = Self::WY0 as int * delta as int;
            assert(jump as int == prod % m);
            let sum = before.state as int + jump as int;
            if sum > u64::MAX as int {
                lemma_mod_sub_multiples_vanish(sum, m);
                lemma_small_mod((sum - m) as nat, m as nat);
            } else {
                lemma_small_mod(sum as nat, m as nat);
            }
            lemma_add_mod_noop(before.state as int, prod, m);
            lemma_small_mod(before.state as nat, m as nat);
            lemma_mod_bound(prod, m);
            lemma_small_mod((prod % m) as nat, m as nat);
            vstd::arithmetic::mul::lemma_mul_is_commutative(delta as int, Self::WY0 as int);
            Self::lemma_advance_state(before, delta as nat);
        }
    }

    fn move_state_backwards(&mut self, delta: u64) {
        let ghost before = *self;
        let jump = Self::WY0.wrapping_mul(delta);
        self.state = self.state.wrapping_sub(jump);
        proof {
            let m: int = 0x1_0000_0000_0000_0000;
            let prod = delta as int * Self::WY0 as int;
            vstd::arithmetic::mul::lemma_mul_is_commutative(delta as int, Self::WY0 as int);
            assert(jump as int == prod % m);
            let diff = before.state as int - jump as int;
            if diff < 0 {
                lemma_small_mod((diff + m) as nat, m as nat);
                lemma_mod_multiples_vanish(1, diff, m);
            } else {
                lemma_small_mod(diff as nat, m as nat);
            }
            assert(self.state as int == diff % m);
            Self::lemma_advance_state(*self, delta as nat);
            Self::lemma_undo_jump(before.state as int, prod, m);
        }
    }
}

impl WyRand {
    /// Adding `prod` modulo `m` undoes subtracting it.
    proof fn lemma_undo_jump(s: int, prod: int, m: int)
        requires
            m > 0,
            0 <= s < m,
        ensures
            ((s - prod % m) % m + prod) % m == s,
    {
        let x = s - prod % m;
        vstd::arithmetic::div_mod::lemma_add_mod_noop_right(prod, x, m);
        vstd::arithmetic::div_mod::lemma_fundamental_div_mod(prod, m);
        assert(prod + x == m * (prod / m) + s);
        lemma_mod_multiples_vanish(prod / m, s, m);
        lemma_small_mod(s as nat, m as nat);
    }
}

impl Default for WyRand {
    /// A generator seeded with zero.
    fn default() -> (r: Self)
        ensures
            r == WyRand::seeded_with(0),
    {
        Self { state: 0 }
    }
}

/// Step `n` (counting from zero) of a [`WyRand`] seeded with `seed` returns
/// the multiply and mix of `seed + (n + 1) * 0x2D35_8DCC_AA6C_78A5` modulo
/// `2^64`.
pub proof fn lemma_wyrand_output(seed: u64, n: nat)
    ensures
        nth_output(WyRand::seeded_with(seed), n) == wyhash_mix(
            ((seed as int + (n + 1) * 0x2D35_8DCC_AA6C_78A5) % 0x1_0000_0000_0000_0000) as u64,
        ),
{
    let g = WyRand::seeded_with(seed);
    WyRand::lemma_advance_state(g, n);
    WyRand::lemma_advance_state(g, n + 1);
    lemma_advance_succ(g, n);
}

/// Distinct seeds give distinct [`WyRand`] generators: the seed is the
/// state. With `default` giving the generator of seed 0, a generator equals
/// the default exactly when its seed is 0, an ordinary seed.
pub proof fn lemma_wyrand_seeds_distinct(a: u64, b: u64)
    ensures
        (WyRand::seeded_with(a) == WyRand::seeded_with(b)) <==> a == b,
{
}

/// Step `n` (counting from zero) of a [`WyRand`] seeded with `seed` works on
/// the 64-bit state `t = seed + (n + 1) * 0x2D35_8DCC_AA6C_78A5` (wrapping):
/// it forms the 128-bit product `c = t * (t ^ 0x8BB8_4B93_962E_ACC9)` and
/// returns the exclusive or of the high 64 bits `c >> 64` and the low 64
/// bits of `c`, for every seed and step.
pub proof fn lemma_wyrand_output_bits(seed: u64, n: nat)
    ensures
        ({
            let t = ((seed as int + (n + 1) * 0x2D35_8DCC_AA6C_78A5) % 0x1_0000_0000_0000_0000) as u64;
            let c = ((t as u128) * ((t ^ 0x8BB8_4B93_962E_ACC9u64) as u128)) as u128;
            nth_output(WyRand::seeded_with(seed), n) == ((c >> 64u128) as u64) ^ (c as u64)
        }),
{
    lemma_wyrand_output(seed, n);
    let t = ((seed as int + (n + 1) * 0x2D35_8DCC_AA6C_78A5) % 0x1_0000_0000_0000_0000) as u64;
    let u = t ^ 0x8BB8_4B93_962E_ACC9u64;
    let product = t as int * u as int;
    lemma_mul_upper_bound(t as int, u64::MAX as int, u as int, u64::MAX as int);
    let c = ((t as u128) * (u as u128)) as u128;
    assert(c as int == product);
    lemma_u128_halves(c);
}

/// Every [`WyRand`] is the generator of some seed, so the laws stated of
/// seeded generators hold of every generator.
pub proof fn lemma_wyrand_every_state_seeded(g: WyRand)
    ensures
        exists|seed: u64| g == #[trigger] WyRand::seeded_with(seed),
{
    assert(g == WyRand::seeded_with(g.state));
}

/// The output stream of [`WyRand`] repeats after `2^64` steps.
pub proof fn lemma_wyrand_period(g: WyRand)
    ensures
        advance(g, 0x1_0000_0000_0000_0000) == g,
{
    let m: int = 0x1_0000_0000_0000_0000;
    WyRand::lemma_advance_state(g, m as nat);
    lemma_mod_multiples_vanish(WyRand::WY0 as int, g.state as int, m);
    lemma_small_mod(g.state as nat, m as nat);
    assert(m * WyRand::WY0 as int == 0x1_0000_0000_0000_0000 * WyRand::WY0 as int);
}

/// Two [`WyRand`] generators that agree after the same number of steps were
/// equal: stepping loses nothing.
pub proof fn lemma_wyrand_steps_injective(a: WyRand, b: WyRand, n: nat)
    requires
        advance(a, n) == advance(b, n),
    ensures
        a == b,
{
    let m: int = 0x1_0000_0000_0000_0000;
    WyRand::lemma_advance_state(a, n);
    WyRand::lemma_advance_state(b, n);
    let k = n * WyRand::WY0 as int;
    lemma_mod_bound(a.state as int + k, m);
    lemma_mod_bound(b.state as int + k, m);
    assert((a.state as int + k) % m == (b.state as int + k) % m);
    lemma_sub_mod_noop(a.state as int + k, b.state as int + k, m);
    assert((a.state as int - b.state as int) % m == 0);
    if a.state > b.state {
        lemma_small_mod((a.state - b.state) as nat, m as nat);
    } else if a.state < b.state {
        lemma_small_mod((b.state - a.state) as nat, m as nat);
        lemma_mod_multiples_vanish(1, a.state as int - b.state as int, m);
    }
}

/// Seeking forwards `a` steps and then backwards `b >= a` steps lands where
/// seeking backwards `b - a` steps from the start would: stepping `b - a`
/// times from there gives back the start.
pub proof fn lemma_wyrand_seek_net(start: WyRand, landed: WyRand, a: nat, b: nat)
    requires
        a <= b,
        advance(landed, b) == advance(start, a),
    ensures
        advance(landed, (b - a) as nat) == start,
{
    lemma_advance_add(landed, (b - a) as nat, a);
    lemma_wyrand_steps_injective(advance(landed, (b - a) as nat), start, a);
}

} // verus!
