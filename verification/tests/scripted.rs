use femtorand::{CoreRNG, RngState};

/// A generator whose outputs are `start, start + step, start + 2 * step, ...`
/// (wrapping), so that tests can choose the draws that bounded generation sees.
#[derive(Clone, Copy, Debug, PartialEq)]
struct Stepper {
    value: u64,
    step: u64,
    calls: u64,
}

// The model functions are ghost in the library; in compiled code they are
// ordinary functions, written here to mirror the generator.
impl RngState for Stepper {
    fn seeded_with(seed: u64) -> Self {
        Stepper { value: seed, step: 1, calls: 0 }
    }

    fn successor(self) -> Self {
        Stepper { value: self.value.wrapping_add(self.step), step: self.step, calls: self.calls + 1 }
    }

    fn step_output(self) -> u64 {
        self.value
    }
}

impl CoreRNG for Stepper {
    fn new(seed: u64) -> Self {
        Stepper { value: seed, step: 1, calls: 0 }
    }

    fn next(&mut self) -> u64 {
        let out = self.value;
        self.value = self.value.wrapping_add(self.step);
        self.calls += 1;
        out
    }
}

#[test]
fn lemire_values_evenly_spread() {
    // Sixteen evenly spaced draws over the whole u64 range, bound 4:
    // nothing is rejected and each value comes from four draws.
    let mut g = Stepper { value: 0, step: 1 << 60, calls: 0 };
    let mut counts = [0u32; 4];
    for _ in 0..16 {
        let v = g.generate_int_lim::<u64>(4);
        counts[v as usize] += 1;
    }
    assert_eq!([4, 4, 4, 4], counts);
    assert_eq!(16, g.calls);
}

#[test]
fn lemire_rejects_biased_draw() {
    // With bound 3 the cutoff is 2^64 % 3 == 1: the draw 0 has low part 0
    // and is rejected, the draw 5 is accepted with the value 0.
    let mut g = Stepper { value: 0, step: 5, calls: 0 };
    assert_eq!(0, g.generate_int_lim::<u64>(3));
    assert_eq!(2, g.calls);
    // The draw 10 is accepted at once.
    assert_eq!(0, g.generate_int_lim::<u64>(3));
    assert_eq!(3, g.calls);
    // The largest draw maps to the largest value.
    let mut g = Stepper { value: u64::MAX, step: 1, calls: 0 };
    assert_eq!(2, g.generate_int_lim::<u64>(3));
    assert_eq!(1, g.calls);
}

#[test]
fn lemire_u32_rejects_biased_draw() {
    // With bound 3 and 32-bit draws the cutoff is 2^32 % 3 == 1: a draw whose
    // low 32 bits are zero is rejected.
    let mut g = Stepper { value: 0xFFFF_FFFF_0000_0000, step: 7, calls: 0 };
    assert_eq!(0, g.next_lim_u32(3));
    assert_eq!(2, g.calls);
}

#[test]
fn range_covers_wide_signed_intervals() {
    // Width 255, cutoff 2^64 % 255 == 1: the largest draw is accepted and
    // gives offset 254, so the result is -128 + 254.
    let mut g = Stepper { value: u64::MAX, step: 1, calls: 0 };
    assert_eq!(126, g.generate_int_range::<i8>(i8::MIN, i8::MAX));
    // The full i64 interval has width 2^64 - 1.
    let mut g = Stepper { value: u64::MAX, step: 1, calls: 0 };
    assert_eq!(i64::MAX - 1, g.generate_int_range::<i64>(i64::MIN, i64::MAX));
    let mut g = Stepper { value: 1, step: 1, calls: 0 };
    assert_eq!(i64::MIN, g.generate_int_range::<i64>(i64::MIN, i64::MAX));
}

#[test]
fn try_lim_stops_after_allowed_draws() {
    // Bound 3 rejects the draw 0; with one draw allowed nothing comes out.
    let mut g = Stepper { value: 0, step: 5, calls: 0 };
    assert_eq!(None, g.try_next_lim_u64(3, 1));
    assert_eq!(1, g.calls);
    let mut g = Stepper { value: 0, step: 5, calls: 0 };
    assert_eq!(Some(0), g.try_next_lim_u64(3, 2));
    assert_eq!(2, g.calls);
}

#[test]
fn range_adds_minimum() {
    let mut g = Stepper { value: u64::MAX, step: 1, calls: 0 };
    assert_eq!(-8, g.generate_int_range::<i8>(-10, -7));
}

#[test]
fn fill_and_u128_follow_outputs() {
    let mut g = Stepper::new(1);
    assert_eq!((1u128 << 64) | 2, g.generate_u128());
    let mut out = [0u8; 3];
    g.fill(&mut out);
    assert_eq!([3, 4, 5], out);
    assert_eq!(false, g.generate_bool());
    assert_eq!(true, g.generate_bool());
}
