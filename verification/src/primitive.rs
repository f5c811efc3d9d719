//! Primitive integer types that a generator can produce directly from its
//! `u64` output.
use vstd::prelude::*;

verus! {

/// The value of `v` truncated into the two's complement range `[lo, hi]`,
/// the range of an integer type whose width is `hi - lo + 1`.
pub open spec fn wrap_into(v: int, lo: int, hi: int) -> int {
    lo + (v - lo) % (hi - lo + 1)
}

/// `v` limited to the range `[lo, hi]`.
pub open spec fn clamp_into(v: int, lo: int, hi: int) -> int {
    if v < lo {
        lo
    } else if v > hi {
        hi
    } else {
        v
    }
}

/// Casting to a type from [`u128`] and [`u64`].
/// This allows generating a type that implements this trait
/// directly from a generator, since generators output [`u64`].
///
/// The integer a value stands for is `int_value`; the type's range is
/// `[min_int(), max_int()]`. Comparison, which generic code needs, is a
/// method of the trait, so that its result is stated.
pub trait PrimitiveInteger: Sized + Copy {
    /// Number of times this type can fit into a u64.
    const N_U64: usize;
    /// Size of type in bytes.
    const SIZE_BYTES: usize;
    /// The literal `1`.
    const ONE: Self;
    /// The literal `0`.
    const ZERO: Self;
    /// The literal `2`.
    const TWO: Self;

    /// The mathematical integer that a value stands for.
    spec fn int_value(self) -> int;

    /// The smallest value of the type.
    spec fn min_int() -> int;

    /// The largest value of the type.
    spec fn max_int() -> int;

    /// The constants, and the width of the type, which is at least 8 bits
    /// and at most 64 bits.
    proof fn lemma_constants()
        ensures
            Self::ZERO.int_value() == 0,
            Self::ONE.int_value() == 1,
            Self::TWO.int_value() == 2,
            Self::min_int() <= 0,
            127 <= Self::max_int() <= u64::MAX,
            Self::min_int() == 0 || Self::min_int() == -(Self::max_int() + 1),
            Self::max_int() - Self::min_int() + 1 == vstd::arithmetic::power2::pow2(
                (8 * Self::SIZE_BYTES) as nat,
            ),
            Self::SIZE_BYTES * Self::N_U64 == 8,
            Self::max_int() - Self::min_int() < 0x1_0000_0000_0000_0000int,
            0x1_0000_0000_0000_0000int % (Self::max_int() - Self::min_int() + 1) == 0,
    ;

    /// Every value lies in the type's range.
    proof fn lemma_in_range(self)
        ensures
            Self::min_int() <= self.int_value() <= Self::max_int(),
    ;

    /// Truncation using `as` cast.
    fn truncate_from_u64(value: u64) -> (r: Self)
        ensures
            r.int_value() == wrap_into(value as int, Self::min_int(), Self::max_int()),
    ;

    /// Truncation using `as` cast.
    fn truncate_from_u128(value: u128) -> (r: Self)
        ensures
            r.int_value() == wrap_into(value as int, Self::min_int(), Self::max_int()),
    ;

    /// Cast to a [`u64`] using `as`.
    fn cast_to_u64(value: Self) -> (r: u64)
        ensures
            r as int == wrap_into(value.int_value(), 0, u64::MAX as int),
    ;

    /// Subtract `rhs` from `self`, without going below the type's minimum
    /// or above its maximum.
    fn saturating_sub(self, rhs: &Self) -> (r: Self)
        ensures
            r.int_value() == clamp_into(
                self.int_value() - rhs.int_value(),
                Self::min_int(),
                Self::max_int(),
            ),
    ;

    /// Whether `self` is less than `other`.
    fn less_than(&self, other: &Self) -> (r: bool)
        ensures
            r == (self.int_value() < other.int_value()),
    ;
}

impl PrimitiveInteger for u8 {
    const N_U64: usize = 8;
    const SIZE_BYTES: usize = 1;
    const ONE: Self = 1;
    const ZERO: Self = 0;
    const TWO: Self = 2;

    open spec fn int_value(self) -> int {
        self as int
    }

    open spec fn min_int() -> int {
        u8::MIN as int
    }

    open spec fn max_int() -> int {
        u8::MAX as int
    }

    proof fn lemma_constants() {
        vstd::arithmetic::power2::lemma2_to64();
        vstd::arithmetic::power2::lemma2_to64_rest();
    }

    proof fn lemma_in_range(self) {
    }

    fn truncate_from_u64(value: u64) -> (r: Self) {
        proof {
            assert(((value as u8) as int) == ((value as int) % (u8::MAX as int + 1))) by (bit_vector);
        }
        #[verifier::truncate]
        (value as u8)
    }

    fn truncate_from_u128(value: u128) -> (r: Self) {
        proof {
            assert(((value as u8) as int) == ((value as int) % (u8::MAX as int + 1))) by (bit_vector);
        }
        #[verifier::truncate]
        (value as u8)
    }

    fn cast_to_u64(value: u8) -> (r: u64) {
        proof {
            vstd::arithmetic::div_mod::lemma_small_mod(value as nat, 0x1_0000_0000_0000_0000nat);
        }
        value as u64
    }

    fn saturating_sub(self, rhs: &Self) -> (r: Self) {
        <u8>::saturating_sub(self, *rhs)
    }

    fn less_than(&self, other: &Self) -> (r: bool) {
        *self < *other
    }
}

impl PrimitiveInteger for u16 {
    const N_U64: usize = 4;
    const SIZE_BYTES: usize = 2;
    const ONE: Self = 1;
    const ZERO: Self = 0;
    const TWO: Self = 2;

    open spec fn int_value(self) -> int {
        self as int
    }

    open spec fn min_int() -> int {
        u16::MIN as int
    }

    open spec fn max_int() -> int {
        u16::MAX as int
    }

    proof fn lemma_constants() {
        vstd::arithmetic::power2::lemma2_to64();
        vstd::arithmetic::power2::lemma2_to64_rest();
    }

    proof fn lemma_in_range(self) {
    }

    fn truncate_from_u64(value: u64) -> (r: Self) {
        proof {
            assert(((value as u16) as int) == ((value as int) % (u16::MAX as int + 1))) by (bit_vector);
        }
        #[verifier::truncate]
        (value as u16)
    }

    fn truncate_from_u128(value: u128) -> (r: Self) {
        proof {
            assert(((value as u16) as int) == ((value as int) % (u16::MAX as int + 1))) by (bit_vector);
        }
        #[verifier::truncate]
        (value as u16)
    }

    fn cast_to_u64(value: u16) -> (r: u64) {
        proof {
            vstd::arithmetic::div_mod::lemma_small_mod(value as nat, 0x1_0000_0000_0000_0000nat);
        }
        value as u64
    }

    fn saturating_sub(self, rhs: &Self) -> (r: Self) {
        <u16>::saturating_sub(self, *rhs)
    }

    fn less_than(&self, other: &Self) -> (r: bool) {
        *self < *other
    }
}

impl PrimitiveInteger for u32 {
    const N_U64: usize = 2;
    const SIZE_BYTES: usize = 4;
    const ONE: Self = 1;
    const ZERO: Self = 0;
    const TWO: Self = 2;

    open spec fn int_value(self) -> int {
        self as int
    }

    open spec fn min_int() -> int {
        u32::MIN as int
    }

    open spec fn max_int() -> int {
        u32::MAX as int
    }

    proof fn lemma_constants() {
        vstd::arithmetic::power2::lemma2_to64();
        vstd::arithmetic::power2::lemma2_to64_rest();
    }

    proof fn lemma_in_range(self) {
    }

    fn truncate_from_u64(value: u64) -> (r: Self) {
        proof {
            assert(((value as u32) as int) == ((value as int) % (u32::MAX as int + 1))) by (bit_vector);
        }
        #[verifier::truncate]
        (value as u32)
    }

    fn truncate_from_u128(value: u128) -> (r: Self) {
        proof {
            assert(((value as u32) as int) == ((value as int) % (u32::MAX as int + 1))) by (bit_vector);
        }
        #[verifier::truncate]
        (value as u32)
    }

    fn cast_to_u64(value: u32) -> (r: u64) {
        proof {
            vstd::arithmetic::div_mod::lemma_small_mod(value as nat, 0x1_0000_0000_0000_0000nat);
        }
        value as u64
    }

    fn saturating_sub(self, rhs: &Self) -> (r: Self) {
        <u32>::saturating_sub(self, *rhs)
    }

    fn less_than(&self, other: &Self) -> (r: bool) {
        *self < *other
    }
}

impl PrimitiveInteger for u64 {
    const N_U64: usize = 1;
    const SIZE_BYTES: usize = 8;
    const ONE: Self = 1;
    const ZERO: Self = 0;
    const TWO: Self = 2;

    open spec fn int_value(self) -> int {
        self as int
    }

    open spec fn min_int() -> int {
        u64::MIN as int
    }

    open spec fn max_int() -> int {
        u64::MAX as int
    }

    proof fn lemma_constants() {
        vstd::arithmetic::power2::lemma2_to64();
        vstd::arithmetic::power2::lemma2_to64_rest();
    }

    proof fn lemma_in_range(self) {
    }

    fn truncate_from_u64(value: u64) -> (r: Self) {
        proof {
            assert(((value as u64) as int) == ((value as int) % (u64::MAX as int + 1))) by (bit_vector);
        }
        #[verifier::truncate]
        (value as u64)
    }

    fn truncate_from_u128(value: u128) -> (r: Self) {
        proof {
            assert(((value as u64) as int) == ((value as int) % (u64::MAX as int + 1))) by (bit_vector);
        }
        #[verifier::truncate]
        (value as u64)
    }

    fn cast_to_u64(value: u64) -> (r: u64) {
        proof {
            vstd::arithmetic::div_mod::lemma_small_mod(value as nat, 0x1_0000_0000_0000_0000nat);
        }
        value as u64
    }

    fn saturating_sub(self, rhs: &Self) -> (r: Self) {
        <u64>::saturating_sub(self, *rhs)
    }

    fn less_than(&self, other: &Self) -> (r: bool) {
        *self < *other
    }
}

impl PrimitiveInteger for usize {
    const N_U64: usize = (u64::BITS / usize::BITS) as usize;
    const SIZE_BYTES: usize = (usize::BITS / 8) as usize;
    const ONE: Self = 1;
    const ZERO: Self = 0;
    const TWO: Self = 2;

    open spec fn int_value(self) -> int {
        self as int
    }

    open spec fn min_int() -> int {
        usize::MIN as int
    }

    open spec fn max_int() -> int {
        usize::MAX as int
    }

    proof fn lemma_constants() {
        vstd::arithmetic::power2::lemma2_to64();
        vstd::arithmetic::power2::lemma2_to64_rest();
        assert(usize::BITS == 32 || usize::BITS == 64);
        if usize::BITS == 32 {
            assert(Self::SIZE_BYTES == 4 && Self::N_U64 == 2);
        } else {
            assert(Self::SIZE_BYTES == 8 && Self::N_U64 == 1);
        }
    }

    proof fn lemma_in_range(self) {
    }

    fn truncate_from_u64(value: u64) -> (r: Self) {
        proof {
            assert(usize::BITS == 64 ==> ((value as usize) as int) == ((value as int) % 0x1_0000_0000_0000_0000)) by (bit_vector);
            assert(usize::BITS == 32 ==> ((value as usize) as int) == ((value as int) % 0x1_0000_0000)) by (bit_vector);
        }
        #[verifier::truncate]
        (value as usize)
    }

    fn truncate_from_u128(value: u128) -> (r: Self) {
        proof {
            assert(usize::BITS == 64 ==> ((value as usize) as int) == ((value as int) % 0x1_0000_0000_0000_0000)) by (bit_vector);
            assert(usize::BITS == 32 ==> ((value as usize) as int) == ((value as int) % 0x1_0000_0000)) by (bit_vector);
        }
        #[verifier::truncate]
        (value as usize)
    }

    fn cast_to_u64(value: usize) -> (r: u64) {
        proof {
            vstd::arithmetic::div_mod::lemma_small_mod(value as nat, 0x1_0000_0000_0000_0000nat);
        }
        value as u64
    }

    fn saturating_sub(self, rhs: &Self) -> (r: Self) {
        <usize>::saturating_sub(self, *rhs)
    }

    fn less_than(&self, other: &Self) -> (r: bool) {
        *self < *other
    }
}

impl PrimitiveInteger for i8 {
    const N_U64: usize = 8;
    const SIZE_BYTES: usize = 1;
    const ONE: Self = 1;
    const ZERO: Self = 0;
    const TWO: Self = 2;

    open spec fn int_value(self) -> int {
        self as int
    }

    open spec fn min_int() -> int {
        i8::MIN as int
    }

    open spec fn max_int() -> int {
        i8::MAX as int
    }

    proof fn lemma_constants() {
        vstd::arithmetic::power2::lemma2_to64();
        vstd::arithmetic::power2::lemma2_to64_rest();
    }

    proof fn lemma_in_range(self) {
    }

    fn truncate_from_u64(value: u64) -> (r: Self) {
        proof {
            assert(((value as i8) as int) == (-(i8::MAX as int + 1) + ((value as int) + (i8::MAX as int + 1)) % (2 * (i8::MAX as int + 1)))) by (bit_vector);
        }
        #[verifier::truncate]
        (value as i8)
    }

    fn truncate_from_u128(value: u128) -> (r: Self) {
        proof {
            assert(((value as i8) as int) == (-(i8::MAX as int + 1) + ((value as int) + (i8::MAX as int + 1)) % (2 * (i8::MAX as int + 1)))) by (bit_vector);
        }
        #[verifier::truncate]
        (value as i8)
    }

    fn cast_to_u64(value: i8) -> (r: u64) {
        proof {
            assert(((value as u64) as int) == (value as int) % 0x1_0000_0000_0000_0000) by (bit_vector);
        }
        #[verifier::truncate]
        (value as u64)
    }

    fn saturating_sub(self, rhs: &Self) -> (r: Self) {
        if *rhs > 0 && self < i8::MIN + *rhs {
            i8::MIN
        } else if *rhs < 0 && self > i8::MAX + *rhs {
            i8::MAX
        } else {
            self - *rhs
        }
    }

    fn less_than(&self, other: &Self) -> (r: bool) {
        *self < *other
    }
}

impl PrimitiveInteger for i16 {
    const N_U64: usize = 4;
    const SIZE_BYTES: usize = 2;
    const ONE: Self = 1;
    const ZERO: Self = 0;
    const TWO: Self = 2;

    open spec fn int_value(self) -> int {
        self as int
    }

    open spec fn min_int() -> int {
        i16::MIN as int
    }

    open spec fn max_int() -> int {
        i16::MAX as int
    }

    proof fn lemma_constants() {
        vstd::arithmetic::power2::lemma2_to64();
        vstd::arithmetic::power2::lemma2_to64_rest();
    }

    proof fn lemma_in_range(self) {
    }

    fn truncate_from_u64(value: u64) -> (r: Self) {
        proof {
            assert(((value as i16) as int) == (-(i16::MAX as int + 1) + ((value as int) + (i16::MAX as int + 1)) % (2 * (i16::MAX as int + 1)))) by (bit_vector);
        }
        #[verifier::truncate]
        (value as i16)
    }

    fn truncate_from_u128(value: u128) -> (r: Self) {
        proof {
            assert(((value as i16) as int) == (-(i16::MAX as int + 1) + ((value as int) + (i16::MAX as int + 1)) % (2 * (i16::MAX as int + 1)))) by (bit_vector);
        }
        #[verifier::truncate]
        (value as i16)
    }

    fn cast_to_u64(value: i16) -> (r: u64) {
        proof {
            assert(((value as u64) as int) == (value as int) % 0x1_0000_0000_0000_0000) by (bit_vector);
        }
        #[verifier::truncate]
        (value as u64)
    }

    fn saturating_sub(self, rhs: &Self) -> (r: Self) {
        if *rhs > 0 && self < i16::MIN + *rhs {
            i16::MIN
        } else if *rhs < 0 && self > i16::MAX + *rhs {
            i16::MAX
        } else {
            self - *rhs
        }
    }

    fn less_than(&self, other: &Self) -> (r: bool) {
        *self < *other
    }
}

impl PrimitiveInteger for i32 {
    const N_U64: usize = 2;
    const SIZE_BYTES: usize = 4;
    const ONE: Self = 1;
    const ZERO: Self = 0;
    const TWO: Self = 2;

    open spec fn int_value(self) -> int {
        self as int
    }

    open spec fn min_int() -> int {
        i32::MIN as int
    }

    open spec fn max_int() -> int {
        i32::MAX as int
    }

    proof fn lemma_constants() {
        vstd::arithmetic::power2::lemma2_to64();
        vstd::arithmetic::power2::lemma2_to64_rest();
    }

    proof fn lemma_in_range(self) {
    }

    fn truncate_from_u64(value: u64) -> (r: Self) {
        proof {
            assert(((value as i32) as int) == (-(i32::MAX as int + 1) + ((value as int) + (i32::MAX as int + 1)) % (2 * (i32::MAX as int + 1)))) by (bit_vector);
        }
        #[verifier::truncate]
        (value as i32)
    }

    fn truncate_from_u128(value: u128) -> (r: Self) {
        proof {
            assert(((value as i32) as int) == (-(i32::MAX as int + 1) + ((value as int) + (i32::MAX as int + 1)) % (2 * (i32::MAX as int + 1)))) by (bit_vector);
        }
        #[verifier::truncate]
        (value as i32)
    }

    fn cast_to_u64(value: i32) -> (r: u64) {
        proof {
            assert(((value as u64) as int) == (value as int) % 0x1_0000_0000_0000_0000) by (bit_vector);
        }
        #[verifier::truncate]
        (value as u64)
    }

    fn saturating_sub(self, rhs: &Self) -> (r: Self) {
        if *rhs > 0 && self < i32::MIN + *rhs {
            i32::MIN
        } else if *rhs < 0 && self > i32::MAX + *rhs {
            i32::MAX
        } else {
            self - *rhs
        }
    }

    fn less_than(&self, other: &Self) -> (r: bool) {
        *self < *other
    }
}

impl PrimitiveInteger for i64 {
    const N_U64: usize = 1;
    const SIZE_BYTES: usize = 8;
    const ONE: Self = 1;
    const ZERO: Self = 0;
    const TWO: Self = 2;

    open spec fn int_value(self) -> int {
        self as int
    }

    open spec fn min_int() -> int {
        i64::MIN as int
    }

    open spec fn max_int() -> int {
        i64::MAX as int
    }

    proof fn lemma_constants() {
        vstd::arithmetic::power2::lemma2_to64();
        vstd::arithmetic::power2::lemma2_to64_rest();
    }

    proof fn lemma_in_range(self) {
    }

    fn truncate_from_u64(value: u64) -> (r: Self) {
        proof {
            assert(((value as i64) as int) == (-(i64::MAX as int + 1) + ((value as int) + (i64::MAX as int + 1)) % (2 * (i64::MAX as int + 1)))) by (bit_vector);
        }
        #[verifier::truncate]
        (value as i64)
    }

    fn truncate_from_u128(value: u128) -> (r: Self) {
        proof {
            assert(((value as i64) as int) == (-(i64::MAX as int + 1) + ((value as int) + (i64::MAX as int + 1)) % (2 * (i64::MAX as int + 1)))) by (bit_vector);
        }
        #[verifier::truncate]
        (value as i64)
    }

    fn cast_to_u64(value: i64) -> (r: u64) {
        proof {
            assert(((value as u64) as int) == (value as int) % 0x1_0000_0000_0000_0000) by (bit_vector);
        }
        #[verifier::truncate]
        (value as u64)
    }

    fn saturating_sub(self, rhs: &Self) -> (r: Self) {
        if *rhs > 0 && self < i64::MIN + *rhs {
            i64::MIN
        } else if *rhs < 0 && self > i64::MAX + *rhs {
            i64::MAX
        } else {
            self - *rhs
        }
    }

    fn less_than(&self, other: &Self) -> (r: bool) {
        *self < *other
    }
}

impl PrimitiveInteger for isize {
    const N_U64: usize = (u64::BITS / usize::BITS) as usize;
    const SIZE_BYTES: usize = (usize::BITS / 8) as usize;
    const ONE: Self = 1;
    const ZERO: Self = 0;
    const TWO: Self = 2;

    open spec fn int_value(self) -> int {
        self as int
    }

    open spec fn min_int() -> int {
        isize::MIN as int
    }

    open spec fn max_int() -> int {
        isize::MAX as int
    }

    proof fn lemma_constants() {
        vstd::arithmetic::power2::lemma2_to64();
        vstd::arithmetic::power2::lemma2_to64_rest();
        assert(usize::BITS == 32 || usize::BITS == 64);
        if usize::BITS == 32 {
            assert(Self::SIZE_BYTES == 4 && Self::N_U64 == 2);
        } else {
            assert(Self::SIZE_BYTES == 8 && Self::N_U64 == 1);
        }
    }

    proof fn lemma_in_range(self) {
    }

    fn truncate_from_u64(value: u64) -> (r: Self) {
        proof {
            assert(usize::BITS == 64 ==> ((value as isize) as int) == (-0x8000_0000_0000_0000 + ((value as int) + 0x8000_0000_0000_0000) % 0x1_0000_0000_0000_0000)) by (bit_vector);
            assert(usize::BITS == 32 ==> ((value as isize) as int) == (-0x8000_0000 + ((value as int) + 0x8000_0000) % 0x1_0000_0000)) by (bit_vector);
        }
        #[verifier::truncate]
        (value as isize)
    }

    fn truncate_from_u128(value: u128) -> (r: Self) {
        proof {
            assert(usize::BITS == 64 ==> ((value as isize) as int) == (-0x8000_0000_0000_0000 + ((value as int) + 0x8000_0000_0000_0000) % 0x1_0000_0000_0000_0000)) by (bit_vector);
            assert(usize::BITS == 32 ==> ((value as isize) as int) == (-0x8000_0000 + ((value as int) + 0x8000_0000) % 0x1_0000_0000)) by (bit_vector);
        }
        #[verifier::truncate]
        (value as isize)
    }

    fn cast_to_u64(value: isize) -> (r: u64) {
        proof {
            assert(((value as u64) as int) == (value as int) % 0x1_0000_0000_0000_0000) by (bit_vector);
        }
        #[verifier::truncate]
        (value as u64)
    }

    fn saturating_sub(self, rhs: &Self) -> (r: Self) {
        if *rhs > 0 && self < isize::MIN + *rhs {
            isize::MIN
        } else if *rhs < 0 && self > isize::MAX + *rhs {
            isize::MAX
        } else {
            self - *rhs
        }
    }

    fn less_than(&self, other: &Self) -> (r: bool) {
        *self < *other
    }
}

} // verus!
