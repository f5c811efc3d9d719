use femtorand::{f32_fraction_bits, f64_fraction_bits};
use femtorand::{CoreRNG, DefaultRNG, Lehmer64, SeekableRNG, WyRand};

#[test]
fn test_float_distribuition() {
    let inv_2pow53 = f64::from_bits(0x3ca0_0000_0000_0000);
    let inv_2pow24 = f32::from_bits(0x3380_0000);
    assert!(f64_fraction_bits(u64::MAX) as f64 * inv_2pow53 < 1.0);
    assert!(f32_fraction_bits(u64::from(u32::MAX)) as f32 * inv_2pow24 < 1.0);
}

#[test]
fn test_lim_generation() {
    let mut prng = WyRand::new(0xDEADBEEF);
    assert_eq!(0, prng.next_lim_u64(0));
}

#[test]
fn test_wide_seek() {
    let mut prng = WyRand::new(0xDEADBEEF);
    let n_one = prng.next();
    prng.move_state_forwards(u64::MAX - 2);
    prng.move_state_backwards(u64::MAX - 1);
    let n_two = prng.next();
    assert_eq!(n_one, n_two);

    // Verify output has a period after 2**64 values.
    let mut prng = WyRand::new(0xDEADBEEF);
    let n_one = prng.next();
    prng.move_state_forwards(u64::MAX);
    let n_two = prng.next();
    assert_eq!(n_one, n_two);
}

#[test]
fn readme_basic_usage() {
    const SEED: u64 = 0xDEADBEEF;
    let mut prng = DefaultRNG::new(SEED);
    assert_eq!(0x8FC99FBD, prng.generate_int::<u32>());
    assert_eq!(6, prng.generate_int_lim::<u8>(6) + 1);
    assert_eq!(5, prng.generate_int_range::<u16>(1, 7));
    let mut array = [0_u16; 3];
    prng.fill::<u16>(&mut array);
    assert_eq!([0xD85D, 0x5DE6, 0x78DE], array);
    let selection: [&str; 4] = ["a", "b", "c", "d"];
    assert_eq!("a", *prng.choice(&selection));
    assert_eq!(false, prng.generate_bool());
}

#[test]
fn same_seed_same_output() {
    const SEED: u64 = 0xDEADBEEF;
    let mut prng_one = WyRand::new(SEED);
    let mut prng_two = WyRand::new(SEED);
    for _ in 0..10 {
        assert_eq!(prng_one.generate_int::<u64>(), prng_two.generate_int::<u64>());
    }
}

#[test]
fn default_rng_is_wyrand() {
    const SEED: u64 = 0xDEADBEEF;
    let mut wyrand = WyRand::new(SEED);
    let mut default_rng = DefaultRNG::new(SEED);
    let default_rng_value = default_rng.generate_u128();
    assert_eq!(wyrand.generate_u128(), default_rng_value);
    let mut lehmer = Lehmer64::new(SEED);
    assert_ne!(lehmer.generate_u128(), default_rng_value);
    let mut wyrand_rng = WyRand::new(0xDEADBEEF);
    let mut default_rng = DefaultRNG::new(0xDEADBEEF);
    assert_eq!(wyrand_rng.generate_int::<u64>(), default_rng.generate_int::<u64>());
}

#[test]
fn next_matches_generate_int() {
    let mut prng_one = WyRand::new(0xDEADBEEF);
    let mut prng_two = prng_one;
    assert_eq!(prng_one.generate_int::<u64>(), prng_two.next());
}

#[test]
fn reseed_equals_new() {
    let mut prng_one = WyRand::new(0xDEADBEEF);
    prng_one.reseed(0x42);
    let mut prng_two = WyRand::new(0x42);
    assert_eq!(prng_one.generate_int::<u64>(), prng_two.generate_int::<u64>());
    assert_eq!(prng_one, prng_two);
}

#[test]
fn generate_int_values() {
    let mut prng = WyRand::new(0xDEADBEEF);
    assert_eq!(0xBD, prng.generate_int::<u8>());
    assert_eq!(0x8EC4, prng.generate_int::<u16>());
    assert_eq!(0xDD1D_B295, prng.generate_int::<u32>());
    assert_eq!(0x9370_9C7F_AF7F_D85D, prng.generate_int::<u64>());
    assert_eq!(0x759E_48DE_CED2_5DE6, prng.generate_int::<usize>());

    assert_eq!(-0x22, prng.generate_int::<i8>());
    assert_eq!(-0x1316, prng.generate_int::<i16>());
    assert_eq!(0x4C8B_75FE, prng.generate_int::<i32>());
    assert_eq!(-0x1E27_E3EB_99A3_EC8D, prng.generate_int::<i64>());
    assert_eq!(0x3AA3_C648_F809_F140, prng.generate_int::<isize>());
}

#[test]
fn generate_int_lim_values() {
    let mut prng = WyRand::new(0xDEADBEEF);
    // Roll a D6.
    assert_eq!(4, prng.generate_int_lim::<u8>(6) + 1);
    assert_eq!(6, prng.generate_int_lim::<u16>(6) + 1);
    assert_eq!(5, prng.generate_int_lim::<u32>(6) + 1);
    assert_eq!(4, prng.generate_int_lim::<u64>(6) + 1);
    assert_eq!(3, prng.generate_int_lim::<usize>(6) + 1);
    // A negative bound gives zero without drawing: the next roll is drawn
    // from the sixth output (a step here would make it -1).
    assert_eq!(0, prng.generate_int_lim::<i64>(-10));
    assert_eq!(-2, -prng.generate_int_lim::<i64>(10));
}

#[test]
fn small_bounds_draw_nothing() {
    // Bounds and intervals below two, and one-element choices, take no step:
    // the value that follows is the one a fresh generator gives first.
    let mut fresh = WyRand::new(0xDEADBEEF);
    let first = fresh.next();
    let mut prng = WyRand::new(0xDEADBEEF);
    assert_eq!(0, prng.generate_int_lim::<i64>(1));
    assert_eq!(10, prng.generate_int_range::<i64>(10, 5));
    assert_eq!(10, prng.generate_int_range::<i64>(10, 11));
    assert_eq!("only", *prng.choice(&["only"]));
    assert_eq!(first, prng.next());
}

#[test]
fn generate_int_lim_small_bound_keeps_state() {
    let mut prng = WyRand::new(7);
    let before = prng;
    assert_eq!(0, prng.generate_int_lim::<u32>(1));
    assert_eq!(0, prng.generate_int_lim::<i8>(0));
    assert_eq!(before, prng);
}

#[test]
fn generate_int_range_values() {
    let mut prng = WyRand::new(0xDEADBEEF);
    assert_eq!(13, prng.generate_int_range::<u8>(10, 16));
    assert_eq!(15, prng.generate_int_range::<u16>(10, 16));
    assert_eq!(14, prng.generate_int_range::<u32>(10, 16));
    assert_eq!(13, prng.generate_int_range::<u64>(10, 16));
    assert_eq!(12, prng.generate_int_range::<usize>(10, 16));

    assert_eq!(-9, prng.generate_int_range::<i8>(-10, -6));
    assert_eq!(-8, prng.generate_int_range::<i16>(-10, 1));

    // Incorrect parameters result in `min_out` being returned.
    assert_eq!(10, prng.generate_int_range::<i64>(10, 5));
    assert_eq!(10, prng.generate_int_range::<i64>(10, 10));
    assert_eq!(10, prng.generate_int_range::<i64>(10, 11));
}

#[test]
fn generate_int_range_wide_signed() {
    // The width 255 of [-128; 127) exceeds i8::MAX; the whole interval is
    // still reached, non-negative values included.
    let mut prng = WyRand::new(3);
    let mut seen_non_negative = false;
    let mut seen_negative = false;
    for _ in 0..200 {
        let v = prng.generate_int_range::<i8>(i8::MIN, i8::MAX);
        assert!(v < i8::MAX);
        seen_non_negative |= v >= 0;
        seen_negative |= v < 0;
    }
    assert!(seen_non_negative && seen_negative);
    for _ in 0..100 {
        let v = prng.generate_int_range::<i8>(-100, 100);
        assert!((-100..100).contains(&v));
    }
}

#[test]
fn try_generate_int_lim_values() {
    // With enough draws it agrees with generate_int_lim.
    let mut a = WyRand::new(0xDEADBEEF);
    let mut b = WyRand::new(0xDEADBEEF);
    assert_eq!(Some(a.generate_int_lim::<u8>(6)), b.try_generate_int_lim::<u8>(6, 8));
    assert_eq!(a, b);
    // A bound below two gives zero without drawing, even with no draws allowed.
    let before = b;
    assert_eq!(Some(0), b.try_generate_int_lim::<u32>(1, 0));
    assert_eq!(before, b);
    // No draws allowed and a real bound: nothing comes out, nothing moves.
    assert_eq!(None, b.try_generate_int_lim::<u32>(6, 0));
    assert_eq!(before, b);
    // Lehmer64 seeded with 0 only outputs zeros, which bound 3 always
    // rejects: every allowed draw is made and None comes back.
    let mut weak = Lehmer64::new(0);
    assert_eq!(None, weak.try_generate_int_lim::<u64>(3, 10));
    assert_eq!(None, weak.try_next_lim_u64(3, 10));
    // A power of two has no cutoff, so zeros are accepted.
    assert_eq!(Some(0), weak.try_next_lim_u64(4, 1));
}

#[test]
fn generate_u128_values() {
    let mut prng = WyRand::new(0xDEADBEEF);
    assert_eq!(0xA0A3_1F69_8FC9_9FBD_E083_7439_EEFC_8EC4, prng.generate_u128());
    prng.move_state_backwards(2);
    assert_eq!(0xA0A3_1F69_8FC9_9FBD_E083_7439_EEFC_8EC4, prng.generate_u128());
    prng.move_state_backwards(1);
    assert_eq!(0xE083_7439_EEFC_8EC4_bE5E_8436_DD1D_B295, prng.generate_u128());
}

#[test]
fn generate_i128_values() {
    let mut prng = WyRand::new(0xDEADBEEF);
    assert_eq!(-0x5F5C_E096_7036_6042_1F7C_8BC6_1103_713C, prng.generate_i128());
    prng.move_state_backwards(2);
    assert_eq!(-0x5F5C_E096_7036_6042_1F7C_8BC6_1103_713C, prng.generate_i128());
    prng.move_state_backwards(1);
    assert_eq!(-0x1F7C_8BC6_1103_713B_41A1_7BC9_22E2_4D6B, prng.generate_i128());
}

#[test]
fn generate_bool_values() {
    let mut prng = WyRand::new(0xDEADBEEF);
    assert_eq!(true, prng.generate_bool());
    assert_eq!(false, prng.generate_bool());
}

#[test]
fn fill_bytes_values() {
    let mut prng = WyRand::new(0xDEADBEEF);
    let mut slice = [0_u8; 5];
    prng.fill_bytes(&mut slice);
    assert_eq!([0xBD, 0x9F, 0xC9, 0x8F, 0x69], slice);
}

#[test]
fn fill_bytes_advances_per_eight_bytes() {
    let mut prng = WyRand::new(0xDEADBEEF);
    let mut reference = WyRand::new(0xDEADBEEF);
    let mut slice = [0_u8; 17];
    prng.fill_bytes(&mut slice);
    let first = reference.next().to_le_bytes();
    let second = reference.next().to_le_bytes();
    let third = reference.next().to_le_bytes();
    assert_eq!(&slice[0..8], &first[..]);
    assert_eq!(&slice[8..16], &second[..]);
    assert_eq!(slice[16], third[0]);
    assert_eq!(prng, reference);
    let mut empty: [u8; 0] = [];
    prng.fill_bytes(&mut empty);
    assert_eq!(prng, reference);
}

#[test]
fn fill_values() {
    let mut prng = WyRand::new(0xDEADBEEF);
    let mut slice = [0_u16; 3];
    prng.fill::<u16>(&mut slice);
    assert_eq!([0x9FBD, 0x8EC4, 0xB295], slice);
}

#[test]
fn choice_values() {
    let mut prng = WyRand::new(0xDEADBEEF);
    let selection: [&str; 4] = ["a", "b", "c", "d"];
    assert_eq!("c", *prng.choice(&selection));
    assert_eq!("d", *prng.choice(&selection));
    let single = ["only"];
    let before = prng;
    assert_eq!("only", *prng.choice(&single));
    assert_eq!(before, prng);
}

#[test]
fn next_lim_values() {
    let mut prng = WyRand::new(0xDEADBEEF);
    for bound in [1u64, 2, 3, 6, 1000, u64::MAX] {
        let v = prng.next_lim_u64(bound);
        assert!(v < bound);
    }
    for bound in [1u32, 2, 3, 6, 1000, u32::MAX] {
        let v = prng.next_lim_u32(bound);
        assert!(v < bound);
    }
    assert_eq!(0, prng.next_lim_u32(0));
}

#[test]
fn next_lim_u32_uses_low_bits() {
    // The draw is the low 32 bits of the output: with the bound 2^31 the
    // result is its upper 31 bits.
    let mut prng = WyRand::new(11);
    let mut reference = WyRand::new(11);
    let x = reference.next() as u32;
    assert_eq!(x >> 1, prng.next_lim_u32(1 << 31));
}

#[test]
fn seek_examples() {
    let mut prng_one = WyRand::new(0xDEADBEEF);
    let _ = prng_one.generate_int::<u64>();
    let mut prng_two = WyRand::new(0xDEADBEEF);
    prng_two.move_state_forwards(1);
    assert_eq!(prng_one.generate_int::<u64>(), prng_two.generate_int::<u64>());

    let mut prng = WyRand::new(0xDEADBEEF);
    let result_one = prng.generate_int::<u64>();
    prng.move_state_backwards(1);
    assert_eq!(result_one, prng.generate_int::<u64>());
}

#[test]
fn seek_round_trip() {
    let mut prng = WyRand::new(12345);
    let start = prng;
    prng.move_state_forwards(0x1234_5678_9ABC);
    prng.move_state_backwards(0x1234_5678_9ABC);
    assert_eq!(start, prng);
}

#[test]
fn wyrand_example() {
    let mut prng = WyRand::new(0xDEADBEEF);
    assert_eq!(0x8FC9_9FBD, prng.generate_int::<u32>());
    prng.reseed(0); // Unlike Lehmer64 zero is not a weak seed.
    assert_eq!(0x8D59_F0D6, prng.generate_int::<u32>());
    prng.move_state_backwards(1);
    assert_eq!(0x8D59_F0D6, prng.generate_int::<u32>());
}

#[test]
fn wyrand_default_is_zero_seed() {
    let mut a = WyRand::default();
    let mut b = WyRand::new(0);
    assert_eq!(a.next(), b.next());
}

#[test]
fn lehmer_example() {
    let mut prng = Lehmer64::new(0xDEADBEEF);
    assert_eq!(0x487D_D3D8, prng.generate_int::<u32>());
    prng.reseed(0); // Notice the zero only output with a seed of zero.
    assert_eq!(0, prng.generate_int::<u32>());
}

#[test]
fn lehmer_zero_seed_only_zeros() {
    let mut prng = Lehmer64::new(0);
    for _ in 0..20 {
        assert_eq!(0, prng.next());
    }
    let mut cold = Lehmer64::new_without_warmup(0);
    assert_eq!(0, cold.generate_u128());
}

#[test]
fn lehmer_without_warmup() {
    let mut cold_prng = Lehmer64::new_without_warmup(1);
    let mut slice = [0_u16; 4];
    cold_prng.fill::<u16>(&mut slice);
    // Notice the first output value is zero.
    assert_eq!([0x0, 0x65B4, 0x58D0, 0xB969], slice);
    // A generator instantiated normally with warmup is four steps ahead.
    let mut warmed_prng = Lehmer64::new(1);
    assert_eq!(cold_prng.generate_int::<u64>(), warmed_prng.generate_int::<u64>());
    assert_eq!(Lehmer64::WARMUP_ITERATIONS, 4);
}

#[test]
fn lehmer_output_is_upper_state() {
    // With the seed 1 and no warmup, the first state is the multiplier,
    // whose upper 64 bits are zero.
    let mut cold = Lehmer64::new_without_warmup(1);
    assert_eq!(0, cold.next());
    // The second state is the multiplier squared; its upper half is the output.
    let m: u128 = 0xDA94_2042_E4DD_58B5;
    assert_eq!((m.wrapping_mul(m) >> 64) as u64, cold.next());
}

#[test]
fn lehmer_default() {
    let mut prng = Lehmer64::default();
    assert_ne!(0, prng.generate_u128());
    let mut a = Lehmer64::default();
    let mut b = Lehmer64::new(Lehmer64::DEFAULT_SEED);
    assert_eq!(a.next(), b.next());
}

#[test]
fn float_examples() {
    let inv_2pow53 = f64::from_bits(0x3ca0_0000_0000_0000);
    let inv_2pow24 = f32::from_bits(0x3380_0000);
    let mut prng = WyRand::new(0xDEADBEEF);
    assert_eq!(0.56167024, f32_fraction_bits(prng.next()) as f32 * inv_2pow24);
    let mut prng = WyRand::new(0xDEADBEEF);
    assert_eq!(0.6274890549391671, f64_fraction_bits(prng.next()) as f64 * inv_2pow53);
}

#[test]
fn fraction_bits_exact() {
    assert_eq!(0xFF_FFFF, f32_fraction_bits(0xFFFF_FFFF));
    assert_eq!(0x12_3456, f32_fraction_bits(0xAAAA_AAAA_1234_5678));
    assert_eq!(0x1F_FFFF_FFFF_FFFF, f64_fraction_bits(u64::MAX));
    assert_eq!(1, f64_fraction_bits(2048));
    assert_eq!(0, f64_fraction_bits(2047));
}

#[test]
fn seeded_generators_differ() {
    let mut prng_one = WyRand::seeded().unwrap();
    let mut prng_two = WyRand::seeded().unwrap();
    assert_ne!(prng_one.generate_int::<u64>(), prng_two.generate_int::<u64>());
}

#[test]
fn from_seed_source_ok() {
    let mut a = WyRand::from_seed_source(Ok(0xDEADBEEF)).unwrap();
    let mut b = WyRand::new(0xDEADBEEF);
    assert_eq!(a.next(), b.next());
}

#[test]
fn from_seed_source_err() {
    let e = getrandom::Error::UNSUPPORTED;
    let r = Lehmer64::from_seed_source(Err(e));
    match r {
        Err(err) => assert_eq!(err.cause, e),
        Ok(_) => panic!("expected an error"),
    }
}
