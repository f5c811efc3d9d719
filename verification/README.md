# femtorand

Small, fast pseudorandom number generators (`WyRand`, `Lehmer64`) whose
behaviour is stated in Verus contracts and proved.

Layout:

- `src/stream.rs`: the model the contracts speak of. A generator is a state
  machine (`RngState`): `successor`, `step_output`, `seeded_with`;
  `advance` and `nth_output` follow it for `n` steps. Bounded generation is
  Lemire's method; `lemire_outcome` says which draw it takes and what value
  it makes of it.
- `src/traits.rs`: `CoreRNG` (integers, bounded integers, ranges, bytes,
  slices, choice, seeding; `try_next_lim_u64` and `try_generate_int_lim`
  bound the number of draws) and `SeekableRNG`.
- `src/primitive.rs`: `PrimitiveInteger`, the integer types that generators
  fill directly.
- `src/wyrand.rs`, `src/lehmer.rs`: the two generators and their laws
  (period, seeking, closed forms, the weak zero seed).
- `src/uniform.rs`: Lemire's method is unbiased.
- `src/seed.rs`: seeding from the operating system through `getrandom`.
- `app/lib.rs`: floating point generation (`FloatRNG`), built on the
  verified integer functions.
