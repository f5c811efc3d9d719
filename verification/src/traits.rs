//! Traits that a random number generator may implement.
use vstd::prelude::*;
use vstd::arithmetic::div_mod::{
    lemma_add_mod_noop, lemma_mod_bound, lemma_mod_multiples_vanish, lemma_mod_sub_multiples_vanish,
    lemma_small_mod, lemma_sub_mod_noop,
};
use vstd::arithmetic::mul::lemma_mul_upper_bound;

use crate::primitive::{wrap_into, PrimitiveInteger};
use crate::seed::{os_random_u64, SeedError};
use crate::stream::{
    accepted_at, advance, draw, eventually_accepts, le_byte,
    lemire_cutoff, lemire_outcome, lemire_value, lemma_advance_succ,
    lemma_lemire_small_bound, lemma_lemire_value_below_bound, nth_output, u32_range, u64_range,
    RngState,
};

verus! {

/// General trait for pseudorandom number generators.
///
/// This trait defines core generator functionality; its contracts speak of
/// the generator's state machine, [`RngState`].
pub trait CoreRNG: RngState {
    /// Initialize new generator with specified seed.
    fn new(seed: u64) -> (r: Self)
        ensures
            r == Self::seeded_with(seed),
    ;

    /// Initialize a new generator seeded from the operating system's entropy
    /// source, read with the `getrandom` crate.
    ///
    /// On success the generator is the one that some seed gives; which seed
    /// depends on the operating system.
    fn seeded() -> (r: Result<Self, SeedError>)
        ensures
            r matches Ok(g) ==> exists|seed: u64| g == Self::seeded_with(seed),
    {
        Self::from_seed_source(os_random_u64())
    }

    /// Make a generator from what an entropy source gave: the generator of
    /// the seed, or the source's error.
    fn from_seed_source(source: Result<u64, getrandom::Error>) -> (r: Result<Self, SeedError>)
        ensures
            source matches Ok(seed) ==> r == Ok::<Self, SeedError>(Self::seeded_with(seed)),
            source matches Err(cause) ==> r == Err::<Self, SeedError>(SeedError { cause }),
    {
        match source {
            Ok(seed) => Ok(Self::new(seed)),
            Err(cause) => Err(SeedError { cause }),
        }
    }

    /// Generate a pseudorandom u64.
    ///
    /// Advances the generator one step.
    fn next(&mut self) -> (r: u64)
        ensures
            r == old(self).step_output(),
            *final(self) == old(self).successor(),
    ;

    /// Reset to initial state with a given seed, equivalent to replacing
    /// with `Self::new(seed)`.
    fn reseed(&mut self, seed: u64)
        ensures
            *final(self) == Self::seeded_with(seed),
    {
        *self = Self::new(seed);
    }

    /// Generate a pseudorandom integer.
    ///
    /// Advances the generator one step; the result is the output truncated
    /// into `T`.
    fn generate_int<T: PrimitiveInteger>(&mut self) -> (r: T)
        ensures
            r.int_value() == wrap_into(old(self).step_output() as int, T::min_int(), T::max_int()),
            *final(self) == old(self).successor(),
    {
        T::truncate_from_u64(self.next())
    }

    /// Generate a pseudorandom boolean with 50% chance of being `true`:
    /// the lowest bit of the output.
    ///
    /// Advances the generator one step.
    fn generate_bool(&mut self) -> (r: bool)
        ensures
            r == (old(self).step_output() % 2 == 1),
            *final(self) == old(self).successor(),
    {
        let x = self.next();
        assert((x & 1 != 0) == (x % 2 == 1)) by (bit_vector);
        (x & 1) != 0
    }

    /// Generate a pseudorandom u128: the first output is the upper half,
    /// the second the lower half.
    ///
    /// Advances the generator two steps.
    fn generate_u128(&mut self) -> (r: u128)
        ensures
            r as int == nth_output(*old(self), 0) as int * u64_range() + nth_output(*old(self), 1) as int,
            *final(self) == advance(*old(self), 2),
    {
        proof {
            lemma_advance_succ(*old(self), 0);
            lemma_advance_succ(*old(self), 1);
        }
        let upper = self.next();
        let lower = self.next();
        assert((((upper as u128) << 64u128) | (lower as u128)) as int
            == (upper as int) * 0x1_0000_0000_0000_0000 + (lower as int)) by (bit_vector);
        ((upper as u128) << 64u128) | (lower as u128)
    }

    /// Generate a pseudorandom i128: the bits of `generate_u128`.
    ///
    /// Advances the generator two steps.
    fn generate_i128(&mut self) -> (r: i128)
        ensures
            r as int == wrap_into(
                nth_output(*old(self), 0) as int * u64_range() + nth_output(*old(self), 1) as int,
                i128::MIN as int,
                i128::MAX as int,
            ),
            *final(self) == advance(*old(self), 2),
    {
        proof {
            lemma_advance_succ(*old(self), 0);
            lemma_advance_succ(*old(self), 1);
        }
        let upper = self.next();
        let lower = self.next();
        let bits: u128 = ((upper as u128) << 64u128) | (lower as u128);
        assert(bits as int == (upper as int) * 0x1_0000_0000_0000_0000 + (lower as int)) by (bit_vector)
            requires bits == ((upper as u128) << 64u128) | (lower as u128);
        assert(((bits as i128) as int) == if bits < 0x8000_0000_0000_0000_0000_0000_0000_0000u128 {
            bits as int
        } else {
            bits as int - u128::MAX as int - 1
        }) by (bit_vector);
        proof {
            let v = bits as int;
            let half = i128::MAX as int + 1;
            let m = u128::MAX as int + 1;
            assert(i128::MIN as int == -half);
            assert(m == 2 * half);
            if v < half {
                lemma_small_mod((v + half) as nat, m as nat);
            } else {
                lemma_mod_sub_multiples_vanish(v + half, m);
                lemma_small_mod((v + half - m) as nat, m as nat);
            }
        }
        #[verifier::truncate]
        (bits as i128)
    }

    /// Generate a pseudorandom integer in the interval `[0; max_out)` by
    /// Lemire's method, drawing again while a draw is rejected.
    ///
    /// If `max_out` is zero or one, the output is always zero.
    fn next_lim_u64(&mut self, max_out: u64) -> (r: u64)
        requires
            eventually_accepts(*old(self), max_out as int, u64_range()),
        ensures
            exists|steps: nat|
                #[trigger] lemire_outcome(*old(self), max_out as int, u64_range(), steps, r as int)
                && *final(self) == advance(*old(self), steps),
            max_out >= 1 ==> r < max_out,
            max_out <= 1 ==> r == 0 && *final(self) == old(self).successor(),
    {
        let ghost start = *self;
        let ghost stop: nat = choose|k: nat| accepted_at(start, k, max_out as int, u64_range());
        let cutoff = 0u64.wrapping_sub(max_out).checked_rem(max_out).unwrap_or(0);
        proof {
            if max_out > 0 {
                lemma_mod_sub_multiples_vanish(u64_range(), max_out as int);
            }
            lemma_advance_succ(start, 0);
        }
        assert(cutoff as int == lemire_cutoff(max_out as int, u64_range()));
        let x = self.next();
        proof {
            lemma_mul_upper_bound(x as int, u64::MAX as int, max_out as int, u64::MAX as int);
        }
        let mut full: u128 = u128::from(x).wrapping_mul(u128::from(max_out));
        proof {
            lemma_u128_halves(full);
        }
        #[verifier::truncate]
        let mut low: u64 = (full as u64);
        let ghost mut i: nat = 0;
        while low < cutoff
            invariant
                i <= stop,
                accepted_at(start, stop, max_out as int, u64_range()),
                forall|j: nat| j < i ==> !#[trigger] accepted_at(start, j, max_out as int, u64_range()),
                *self == advance(start, i + 1),
                full as int == nth_output(start, i) as int * max_out as int,
                low as int == (full as int) % u64_range(),
                cutoff as int == lemire_cutoff(max_out as int, u64_range()),
            decreases stop - i,
        {
            proof {
                lemma_small_mod(nth_output(start, i) as nat, u64_range() as nat);
                assert(!accepted_at(start, i, max_out as int, u64_range()));
                lemma_advance_succ(start, i + 1);
            }
            let x = self.next();
            proof {
                i = i + 1;
                lemma_mul_upper_bound(x as int, u64::MAX as int, max_out as int, u64::MAX as int);
            }
            full = u128::from(x).wrapping_mul(u128::from(max_out));
            proof {
            lemma_u128_halves(full);
        }
            #[verifier::truncate]
            let next_low = (full as u64);
            low = next_low;
        }
        proof {
            lemma_u128_halves(full);
        }
        #[verifier::truncate]
        let r = (full >> 64u128) as u64;
        proof {
            lemma_small_mod(nth_output(start, i) as nat, u64_range() as nat);
            let steps = i + 1;
            assert(lemire_outcome(start, max_out as int, u64_range(), steps, r as int));
            if max_out >= 1 {
                lemma_lemire_value_below_bound(nth_output(start, i) as int, max_out as int, u64_range());
            }
            if max_out <= 1 {
                lemma_small_mod(nth_output(start, 0) as nat, u64_range() as nat);
                lemma_lemire_small_bound(nth_output(start, 0) as int, max_out as int, u64_range());
                assert(accepted_at(start, 0, max_out as int, u64_range()));
                assert(i == 0);
                assert(lemire_value(draw(start, i, u64_range()), max_out as int, u64_range()) == 0);
            }
        }
        r
    }

    /// Generate a pseudorandom integer in the interval `[0; max_out)` by
    /// Lemire's method on the low 32 bits of each output, drawing again
    /// while a draw is rejected.
    ///
    /// If `max_out` is zero or one, the output is always zero.
    fn next_lim_u32(&mut self, max_out: u32) -> (r: u32)
        requires
            eventually_accepts(*old(self), max_out as int, u32_range()),
        ensures
            exists|steps: nat|
                #[trigger] lemire_outcome(*old(self), max_out as int, u32_range(), steps, r as int)
                && *final(self) == advance(*old(self), steps),
            max_out >= 1 ==> r < max_out,
            max_out <= 1 ==> r == 0 && *final(self) == old(self).successor(),
    {
        let ghost start = *self;
        let ghost stop: nat = choose|k: nat| accepted_at(start, k, max_out as int, u32_range());
        let cutoff = 0u32.wrapping_sub(max_out).checked_rem(max_out).unwrap_or(0);
        proof {
            if max_out > 0 {
                lemma_mod_sub_multiples_vanish(u32_range(), max_out as int);
            }
            lemma_advance_succ(start, 0);
        }
        assert(cutoff as int == lemire_cutoff(max_out as int, u32_range()));
        let x = self.next();
        proof {
            lemma_u64_halves(x);
        }
        #[verifier::truncate]
        let x32 = (x as u32);
        proof {
            lemma_mul_upper_bound(x32 as int, u32::MAX as int, max_out as int, u32::MAX as int);
        }
        let mut full: u64 = u64::from(x32).wrapping_mul(u64::from(max_out));
        proof {
            lemma_u64_halves(full);
        }
        #[verifier::truncate]
        let mut low: u32 = (full as u32);
        let ghost mut i: nat = 0;
        while low < cutoff
            invariant
                i <= stop,
                accepted_at(start, stop, max_out as int, u32_range()),
                forall|j: nat| j < i ==> !#[trigger] accepted_at(start, j, max_out as int, u32_range()),
                *self == advance(start, i + 1),
                full as int == draw(start, i, u32_range()) * max_out as int,
                low as int == (full as int) % u32_range(),
                cutoff as int == lemire_cutoff(max_out as int, u32_range()),
            decreases stop - i,
        {
            proof {
                assert(!accepted_at(start, i, max_out as int, u32_range()));
                lemma_advance_succ(start, i + 1);
            }
            let x = self.next();
            proof {
                i = i + 1;
            }
            proof {
            lemma_u64_halves(x);
        }
            #[verifier::truncate]
            let x32 = (x as u32);
            proof {
                lemma_mul_upper_bound(x32 as int, u32::MAX as int, max_out as int, u32::MAX as int);
            }
            full = u64::from(x32).wrapping_mul(u64::from(max_out));
            proof {
            lemma_u64_halves(full);
        }
            #[verifier::truncate]
            let next_low = (full as u32);
            low = next_low;
        }
        proof {
            lemma_u64_halves(full);
        }
        #[verifier::truncate]
        let r = (full >> 32u64) as u32;
        proof {
            let steps = i + 1;
            lemma_mod_bound(nth_output(start, i) as int, u32_range());
            assert(lemire_outcome(start, max_out as int, u32_range(), steps, r as int));
            if max_out >= 1 {
                lemma_lemire_value_below_bound(draw(start, i, u32_range()), max_out as int, u32_range());
            }
            if max_out <= 1 {
                lemma_mod_bound(nth_output(start, 0) as int, u32_range());
                lemma_lemire_small_bound(draw(start, 0, u32_range()), max_out as int, u32_range());
                assert(accepted_at(start, 0, max_out as int, u32_range()));
                assert(i == 0);
            }
        }
        r
    }

    /// Generate a pseudorandom integer in the interval `[0; max_out)`.
    ///
    /// Setting `max_out` to a value less than two always returns zero and
    /// leaves the generator as it was: no value is drawn. Otherwise the
    /// generator advances one step for each draw that Lemire's method makes,
    /// usually one. For example, from `WyRand::new(0xDEADBEEF)`, after five
    /// six-sided rolls, `generate_int_lim::<i64>(-10)` gives 0 and the next
    /// `generate_int_lim::<i64>(10)` gives 2, drawn from the sixth output; had
    /// the call with `-10` taken a step, it would give 1.
    fn generate_int_lim<T: PrimitiveInteger>(&mut self, max_out: T) -> (r: T)
        requires
            max_out.int_value() >= 2 ==> eventually_accepts(*old(self), max_out.int_value(), u64_range()),
        ensures
            max_out.int_value() < 2 ==> r.int_value() == 0 && *final(self) == *old(self),
            max_out.int_value() >= 2 ==> exists|steps: nat|
                #[trigger] lemire_outcome(*old(self), max_out.int_value(), u64_range(), steps, r.int_value())
                && *final(self) == advance(*old(self), steps),
            max_out.int_value() >= 2 ==> 0 <= r.int_value() < max_out.int_value(),
    {
        proof {
            T::lemma_constants();
            max_out.lemma_in_range();
        }
        if max_out.less_than(&T::TWO) {
            return T::ZERO;
        }
        let bound = T::cast_to_u64(max_out);
        proof {
            lemma_small_mod(max_out.int_value() as nat, u64_range() as nat);
        }
        let ghost before = *self;
        let x = self.next_lim_u64(bound);
        let r = T::truncate_from_u64(x);
        proof {
            let width = T::max_int() - T::min_int() + 1;
            lemma_small_mod((x as int - T::min_int()) as nat, width as nat);
            let steps = choose|steps: nat|
                #[trigger] lemire_outcome(before, bound as int, u64_range(), steps, x as int)
                && *self == advance(before, steps);
            assert(lemire_outcome(before, max_out.int_value(), u64_range(), steps, r.int_value()));
        }
        r
    }

    /// Generate a pseudorandom integer in the interval `[0; max_out)` by
    /// Lemire's method, making at most `max_draws` draws.
    ///
    /// Returns `None`, after making all `max_draws` draws, exactly when none
    /// of them is accepted; otherwise the value that [`Self::next_lim_u64`]
    /// would return, having taken the same steps. Unlike that function it
    /// needs no assurance that a draw is eventually accepted.
    fn try_next_lim_u64(&mut self, max_out: u64, max_draws: u64) -> (r: Option<u64>)
        ensures
            r is Some <==> exists|k: nat|
                k < max_draws && #[trigger] accepted_at(*old(self), k, max_out as int, u64_range()),
            r matches Some(v) ==> exists|steps: nat|
                steps <= max_draws && #[trigger] lemire_outcome(
                    *old(self),
                    max_out as int,
                    u64_range(),
                    steps,
                    v as int,
                ) && *final(self) == advance(*old(self), steps),
            r matches Some(v) ==> max_out >= 1 ==> v < max_out,
            r is None ==> *final(self) == advance(*old(self), max_draws as nat),
    {
        let ghost start = *self;
        let cutoff = 0u64.wrapping_sub(max_out).checked_rem(max_out).unwrap_or(0);
        proof {
            if max_out > 0 {
                lemma_mod_sub_multiples_vanish(u64_range(), max_out as int);
            }
        }
        assert(cutoff as int == lemire_cutoff(max_out as int, u64_range()));
        let mut drawn: u64 = 0;
        let mut result: Option<u64> = None;
        while drawn < max_draws
            invariant_except_break
                result is None,
                *self == advance(start, drawn as nat),
            invariant
                drawn <= max_draws,
                forall|j: nat| j < drawn ==> !#[trigger] accepted_at(start, j, max_out as int, u64_range()),
                cutoff as int == lemire_cutoff(max_out as int, u64_range()),
            ensures
                result is None ==> drawn == max_draws && *self == advance(start, drawn as nat),
                result matches Some(v) ==> drawn < max_draws && *self == advance(start, (drawn + 1) as nat)
                    && lemire_outcome(start, max_out as int, u64_range(), (drawn + 1) as nat, v as int)
                    && (max_out >= 1 ==> v < max_out),
            decreases max_draws - drawn,
        {
            proof {
                lemma_advance_succ(start, drawn as nat);
            }
            let x = self.next();
            proof {
                lemma_mul_upper_bound(x as int, u64::MAX as int, max_out as int, u64::MAX as int);
                lemma_small_mod(x as nat, u64_range() as nat);
            }
            let full: u128 = u128::from(x).wrapping_mul(u128::from(max_out));
            proof {
                lemma_u128_halves(full);
            }
            assert(draw(start, drawn as nat, u64_range()) == x as int);
            #[verifier::truncate]
            let low = (full as u64);
            if low >= cutoff {
                #[verifier::truncate]
                let v = (full >> 64u128) as u64;
                proof {
                    if max_out >= 1 {
                        lemma_lemire_value_below_bound(x as int, max_out as int, u64_range());
                    }
                }
                result = Some(v);
                break;
            }
            drawn = drawn + 1;
        }
        proof {
            if let Some(v) = result {
                assert(drawn + 1 <= max_draws && lemire_outcome(start, max_out as int, u64_range(), (drawn + 1) as nat, v as int)
                    && *self == advance(start, (drawn + 1) as nat));
            } else {
                assert(forall|k: nat| k < max_draws ==> !#[trigger] accepted_at(start, k, max_out as int, u64_range()));
            }
        }
        result
    }

    /// Generate a pseudorandom integer in the interval `[0; max_out)`,
    /// making at most `max_draws` draws.
    ///
    /// A `max_out` below two gives zero at once and leaves the generator as
    /// it was. Otherwise the result is `None`, after all `max_draws` draws,
    /// exactly when none of them is accepted, and else what
    /// [`Self::generate_int_lim`] returns, having taken the same steps.
    fn try_generate_int_lim<T: PrimitiveInteger>(&mut self, max_out: T, max_draws: u64) -> (r: Option<T>)
        ensures
            max_out.int_value() < 2 ==> (r matches Some(v) && v.int_value() == 0 && *final(self)
                == *old(self)),
            max_out.int_value() >= 2 ==> (r is Some <==> exists|k: nat|
                k < max_draws && #[trigger] accepted_at(*old(self), k, max_out.int_value(), u64_range())),
            max_out.int_value() >= 2 ==> (r matches Some(v) ==> exists|steps: nat|
                steps <= max_draws && #[trigger] lemire_outcome(
                    *old(self),
                    max_out.int_value(),
                    u64_range(),
                    steps,
                    v.int_value(),
                ) && *final(self) == advance(*old(self), steps)),
            max_out.int_value() >= 2 ==> (r matches Some(v) ==> 0 <= v.int_value() < max_out.int_value()),
            r is None ==> *final(self) == advance(*old(self), max_draws as nat),
    {
        proof {
            T::lemma_constants();
            max_out.lemma_in_range();
        }
        if max_out.less_than(&T::TWO) {
            return Some(T::ZERO);
        }
        let bound = T::cast_to_u64(max_out);
        proof {
            lemma_small_mod(max_out.int_value() as nat, u64_range() as nat);
        }
        let ghost before = *self;
        let drawn = self.try_next_lim_u64(bound, max_draws);
        let r = match drawn {
            Some(x) => Some(T::truncate_from_u64(x)),
            None => None,
        };
        proof {
            if let Some(x) = drawn {
                let v = r.unwrap();
                let width = T::max_int() - T::min_int() + 1;
                lemma_small_mod((x as int - T::min_int()) as nat, width as nat);
                let steps = choose|steps: nat|
                    steps <= max_draws && #[trigger] lemire_outcome(before, bound as int, u64_range(), steps, x as int)
                    && *self == advance(before, steps);
                assert(lemire_outcome(*old(self), max_out.int_value(), u64_range(), steps, v.int_value()));
            }
        }
        r
    }

    /// Generate a pseudorandom integer in the interval `[min_out; max_out)`.
    ///
    /// If `max_out - min_out` is less than two, this function always returns
    /// `min_out` and leaves the generator as it was. Otherwise the result is
    /// `min_out` plus what Lemire's method makes of the width
    /// `max_out - min_out`, which fits in a `u64` for every integer type, so
    /// that every value of the interval can come out.
    fn generate_int_range<T: PrimitiveInteger>(&mut self, min_out: T, max_out: T) -> (r: T)
        requires
            max_out.int_value() - min_out.int_value() >= 2 ==> eventually_accepts(
                *old(self),
                max_out.int_value() - min_out.int_value(),
                u64_range(),
            ),
        ensures
            max_out.int_value() - min_out.int_value() < 2 ==> r == min_out && *final(self)
                == *old(self),
            max_out.int_value() - min_out.int_value() >= 2 ==> exists|steps: nat|
                #[trigger] lemire_outcome(
                    *old(self),
                    max_out.int_value() - min_out.int_value(),
                    u64_range(),
                    steps,
                    r.int_value() - min_out.int_value(),
                ) && *final(self) == advance(*old(self), steps),
            max_out.int_value() - min_out.int_value() >= 2 ==> min_out.int_value() <= r.int_value()
                < max_out.int_value(),
    {
        proof {
            T::lemma_constants();
            min_out.lemma_in_range();
            max_out.lemma_in_range();
        }
        if !min_out.less_than(&max_out) {
            return min_out;
        }
        let low = T::cast_to_u64(min_out);
        let high = T::cast_to_u64(max_out);
        let width = high.wrapping_sub(low);
        proof {
            let m = u64_range();
            let d = max_out.int_value() - min_out.int_value();
            lemma_sub_mod_noop(max_out.int_value(), min_out.int_value(), m);
            lemma_small_mod(d as nat, m as nat);
            if (high as int) - (low as int) < 0 {
                lemma_mod_multiples_vanish(1, high as int - low as int, m);
                lemma_small_mod((high as int - low as int + m) as nat, m as nat);
            } else {
                lemma_small_mod((high as int - low as int) as nat, m as nat);
            }
            assert(width as int == d);
        }
        if width < 2 {
            return min_out;
        }
        let ghost before = *self;
        let offset = self.next_lim_u64(width);
        let r = T::truncate_from_u64(low.wrapping_add(offset));
        proof {
            let m = u64_range();
            let sum = min_out.int_value() + offset as int;
            let wrapped = (low as int + offset as int) % m;
            if low as int + offset as int > u64::MAX as int {
                lemma_mod_sub_multiples_vanish(low as int + offset as int, m);
                lemma_small_mod((low as int + offset as int - m) as nat, m as nat);
            } else {
                lemma_small_mod((low as int + offset as int) as nat, m as nat);
            }
            lemma_add_mod_noop(min_out.int_value(), offset as int, m);
            lemma_small_mod(offset as nat, m as nat);
            lemma_mod_bound(min_out.int_value(), m);
            lemma_small_mod((min_out.int_value() % m) as nat, m as nat);
            assert(wrapped % m == sum % m);
            lemma_wrap_congruent(wrapped, sum, T::min_int(), T::max_int());
            let steps = choose|steps: nat|
                #[trigger] lemire_outcome(before, width as int, u64_range(), steps, offset as int)
                && *self == advance(before, steps);
            assert(lemire_outcome(before, max_out.int_value() - min_out.int_value(), u64_range(),
                steps, r.int_value() - min_out.int_value()));
        }
        r
    }

    /// Fill a slice with pseudorandom bytes: byte `i` is byte `i % 8` of
    /// output `i / 8` in little-endian order.
    ///
    /// Advances the generator by `ceil(destination.len() / 8)` steps.
    fn fill_bytes(&mut self, destination: &mut [u8])
        ensures
            final(destination)@.len() == old(destination)@.len(),
            forall|i: int|
                0 <= i < old(destination)@.len() ==> #[trigger] final(destination)@[i] == le_byte(
                    nth_output(*old(self), (i / 8) as nat),
                    (i % 8) as nat,
                ),
            *final(self) == advance(*old(self), ((old(destination)@.len() + 7) / 8) as nat),
    {
        let ghost start = *self;
        let len = destination.len();
        let mut i: usize = 0;
        let mut word: u64 = 0;
        while i < len
            invariant
                len == destination@.len(),
                i <= len,
                forall|j: int|
                    0 <= j < i ==> #[trigger] destination@[j] == le_byte(
                        nth_output(start, (j / 8) as nat),
                        (j % 8) as nat,
                    ),
                i % 8 != 0 ==> word == nth_output(start, (i / 8) as nat),
                *self == advance(start, ((i + 7) / 8) as nat),
            decreases len - i,
        {
            if i % 8 == 0 {
                proof {
                    lemma_advance_succ(start, (i / 8) as nat);
                }
                word = self.next();
            }
            let shift: u64 = 8 * (i % 8) as u64;
            proof {
                vstd::bits::lemma_u64_shr_is_div(word, shift);
            }
            let shifted = word >> shift;
            assert((shifted as u8) as int == (shifted as int) % 256) by (bit_vector);
            #[verifier::truncate]
            let byte = (shifted as u8);
            destination[i] = byte;
            i = i + 1;
        }
    }

    /// Fill a slice with pseudorandom integers: element `i` is output `i`
    /// truncated into `T`.
    ///
    /// Advances the generator one step for each element in `destination`.
    fn fill<T: PrimitiveInteger>(&mut self, destination: &mut [T])
        ensures
            final(destination)@.len() == old(destination)@.len(),
            forall|i: int|
                0 <= i < old(destination)@.len() ==> (#[trigger] final(destination)@[i]).int_value()
                    == wrap_into(nth_output(*old(self), i as nat) as int, T::min_int(), T::max_int()),
            *final(self) == advance(*old(self), old(destination)@.len()),
    {
        let ghost start = *self;
        let len = destination.len();
        let mut i: usize = 0;
        while i < len
            invariant
                len == destination@.len(),
                i <= len,
                forall|j: int|
                    0 <= j < i ==> (#[trigger] destination@[j]).int_value() == wrap_into(
                        nth_output(start, j as nat) as int,
                        T::min_int(),
                        T::max_int(),
                    ),
                *self == advance(start, i as nat),
            decreases len - i,
        {
            proof {
                lemma_advance_succ(start, i as nat);
            }
            let element = self.generate_int::<T>();
            destination[i] = element;
            i = i + 1;
        }
    }

    /// Randomly select an element from a slice: the one at the index that
    /// [`Self::generate_int_lim`] makes of the slice's length.
    ///
    /// All elements have equal probability to be chosen. A one-element slice
    /// gives its element without drawing, as `generate_int_lim` of a bound
    /// below two does.
    fn choice<'a, T>(&mut self, selection: &'a [T]) -> (r: &'a T)
        requires
            selection@.len() >= 1,
            selection@.len() >= 2 ==> eventually_accepts(*old(self), selection@.len() as int, u64_range()),
        ensures
            selection@.len() < 2 ==> *r == selection@[0] && *final(self) == *old(self),
            selection@.len() >= 2 ==> exists|steps: nat, index: int|
                #[trigger] lemire_outcome(*old(self), selection@.len() as int, u64_range(), steps, index)
                && *final(self) == advance(*old(self), steps) && 0 <= index < selection@.len()
                && *r == selection@[index],
    {
        let index = self.generate_int_lim(selection.len());
        &selection[index]
    }
}

/// The low and high 64-bit halves of a 128-bit value.
pub(crate) proof fn lemma_u128_halves(full: u128)
    ensures
        (full as u64) as int == (full as int) % 0x1_0000_0000_0000_0000,
        ((full >> 64u128) as u64) as int == (full as int) / 0x1_0000_0000_0000_0000,
{
    assert((full as u64) as int == (full as int) % 0x1_0000_0000_0000_0000) by (bit_vector);
    assert(((full >> 64u128) as u64) as int == (full as int) / 0x1_0000_0000_0000_0000) by (bit_vector);
}

/// The low and high 32-bit halves of a 64-bit value.
proof fn lemma_u64_halves(full: u64)
    ensures
        (full as u32) as int == (full as int) % 0x1_0000_0000,
        ((full >> 32u64) as u32) as int == (full as int) / 0x1_0000_0000,
{
    assert((full as u32) as int == (full as int) % 0x1_0000_0000) by (bit_vector);
    assert(((full >> 32u64) as u32) as int == (full as int) / 0x1_0000_0000) by (bit_vector);
}

/// Truncating `x` into the range `[lo, hi]` of a type whose width divides
/// `2^64` gives `y` when `y` lies in that range and agrees with `x` modulo
/// `2^64`.
proof fn lemma_wrap_congruent(x: int, y: int, lo: int, hi: int)
    requires
        hi - lo + 1 > 0,
        u64_range() % (hi - lo + 1) == 0,
        x % u64_range() == y % u64_range(),
        lo <= y <= hi,
    ensures
        wrap_into(x, lo, hi) == y,
{
    let m = u64_range();
    let w = hi - lo + 1;
    let k = m / w;
    vstd::arithmetic::div_mod::lemma_fundamental_div_mod(m, w);
    vstd::arithmetic::div_mod::lemma_fundamental_div_mod(x, m);
    vstd::arithmetic::div_mod::lemma_fundamental_div_mod(y, m);
    let a = x / m - y / m;
    assert(x - lo == (y - lo) + m * a);
    vstd::arithmetic::mul::lemma_mul_is_associative(w, k, a);
    assert(m * a == w * (k * a));
    lemma_mod_multiples_vanish(k * a, y - lo, w);
    lemma_small_mod((y - lo) as nat, w as nat);
}

/// The 24 bits of an output that make a pseudorandom `f32` in `[0; 1)`
/// when scaled by `2^-24`: the upper 24 of its lower 32 bits.
pub fn f32_fraction_bits(output: u64) -> (r: u32)
    ensures
        r as int == (output as int % u32_range()) / 256,
        r < 0x100_0000,
{
    proof {
        lemma_u64_halves(output);
    }
    #[verifier::truncate]
    let low = (output as u32);
    assert(low >> 8u32 == low / 256) by (bit_vector);
    low >> 8u32
}

/// The 53 bits of an output that make a pseudorandom `f64` in `[0; 1)`
/// when scaled by `2^-53`: its upper 53 bits.
pub fn f64_fraction_bits(output: u64) -> (r: u64)
    ensures
        r as int == output as int / 2048,
        r < 0x20_0000_0000_0000,
{
    assert(output >> 11u64 == output / 2048) by (bit_vector);
    output >> 11u64
}

/// Trait to allow seeking in the output stream of a random number generator.
///
/// Implemented for generators that allow skipping to different positions in
/// the output without generating all the values in between.
pub trait SeekableRNG: CoreRNG {
    /// Advance the generator state by `delta` steps.
    fn move_state_forwards(&mut self, delta: u64)
        ensures
            *final(self) == advance(*old(self), delta as nat),
    ;

    /// Reverse the generator state by `delta` steps: stepping `delta` times
    /// from the result gives back the generator as it was.
    fn move_state_backwards(&mut self, delta: u64)
        ensures
            advance(*final(self), delta as nat) == *old(self),
    ;
}

} // verus!
