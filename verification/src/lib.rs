//! Small, fast pseudorandom number generators with verified contracts.
//!
//! Two generators initialized with the same seed produce the same output:
//! every generator is a state machine ([`RngState`]) whose steps the
//! contracts of [`CoreRNG`] describe exactly.
mod lehmer;
mod primitive;
mod seed;
mod stream;
mod traits;
mod uniform;
mod wyrand;

pub use crate::lehmer::{lemma_lehmer_output, lemma_lehmer_state_output, lemma_lehmer_zero_state_fixed, lemma_lehmer_warmup, lemma_lehmer_zero_seed, u128_range, Lehmer64};
pub use crate::primitive::{clamp_into, wrap_into, PrimitiveInteger};
pub use crate::seed::SeedError;
pub use crate::stream::{
    accepted_at, advance, draw, eventually_accepts, first_accepted_at, le_byte,
    lemire_accepts, lemire_cutoff, lemma_le_bytes_of_word, lemire_outcome, lemire_value, lemma_advance_add,
    lemma_advance_succ, lemma_lemire_outcome_unique, lemma_lemire_small_bound,
    lemma_lemire_value_below_bound, nth_output, u32_range, u64_range, RngState,
};
pub use crate::uniform::{lemire_preimage_count, lemma_lemire_uniform};
pub use crate::traits::{f32_fraction_bits, f64_fraction_bits, CoreRNG, SeekableRNG};
pub use crate::wyrand::{lemma_wyrand_output, lemma_wyrand_every_state_seeded, lemma_wyrand_output_bits, lemma_wyrand_period, lemma_wyrand_seeds_distinct, wyhash_mix, lemma_wyrand_seek_net, lemma_wyrand_steps_injective, WyRand};

use vstd::prelude::*;

verus! {

/// The default generator is currently [`WyRand`]; this may change in the
/// future.
pub type DefaultRNG = WyRand;

} // verus!
