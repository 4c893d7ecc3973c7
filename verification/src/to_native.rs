//! Conversions out of [`Uint`] into the native integer types, under the
//! strict, saturating and wrapping policies.

use crate::errors::FromUintError;
use crate::outcome::{
    saturated_out_of, to_native_outcome, to_result_matches, wrapped_out_of, ToOutcome,
};
use crate::uint::{lemma_nlimbs_bounds, Uint};
use vstd::arithmetic::power2::{lemma2_to64, lemma_pow2_adds, lemma_pow2_pos, pow2};
use vstd::prelude::*;

verus! {

/// Capability trait of the dispatch layer: one generic strict conversion out
/// of [`Uint`], implemented once per target type, so that the policy methods
/// can treat every native target uniformly.
pub trait UintTryTo<T>: Sized {
    /// Whether the source is ready to convert (its structural invariant).
    spec fn to_ready(&self) -> bool;

    /// The mathematical outcome of the strict conversion.
    spec fn to_outcome(&self) -> ToOutcome;

    /// Mathematical value of a produced target value.
    spec fn target_int(t: T) -> int;

    /// The target type's largest value.
    spec fn target_max() -> int;

    /// Fallible strict conversion into the target type.
    fn uint_try_to(&self) -> (r: Result<T, FromUintError<T>>)
        requires
            self.to_ready(),
        ensures
            to_result_matches(
                r,
                self.to_outcome(),
                (|t: T| Self::target_int(t)),
                Self::target_max(),
            ),
    ;
}

/// Reducing `v` modulo `2^big` keeps the low `tw <= big` bits.
proof fn lemma_mod_pow2_mod(v: nat, big: nat, tw: nat)
    requires
        tw <= big,
    ensures
        (v % pow2(big)) % pow2(tw) == v % pow2(tw),
{
    lemma_pow2_pos(tw);
    lemma_pow2_pos((big - tw) as nat);
    lemma_pow2_adds(tw, (big - tw) as nat);
    vstd::arithmetic::div_mod::lemma_mod_mod(
        v as int,
        pow2(tw) as int,
        pow2((big - tw) as nat) as int,
    );
}

impl Uint {
    /// Strict conversion to a native type.
    ///
    /// The conversion must succeed: values too large for the target are
    /// excluded by precondition, since this crate's functions never abort.
    #[must_use]
    pub fn to<T>(&self) -> (r: T) where Self: UintTryTo<T>
        requires
            self.to_ready(),
            self.to_outcome() matches ToOutcome::Fits(_),
        ensures
            self.to_outcome() matches ToOutcome::Fits(v) && Self::target_int(r) == v,
    {
        match self.uint_try_to() {
            Ok(t) => t,
            Err(_) => vstd::pervasive::unreached(),
        }
    }

    /// Conversion to a native type, wrapping around the target's
    /// two's-complement pattern on overflow.
    #[must_use]
    pub fn wrapping_to<T>(&self) -> (r: T) where Self: UintTryTo<T>
        requires
            self.to_ready(),
        ensures
            Self::target_int(r) == wrapped_out_of(self.to_outcome()),
    {
        match self.uint_try_to() {
            Ok(n) | Err(FromUintError::Overflow(_, n, _)) => n,
        }
    }

    /// Conversion to a native type, saturating at the target's maximum on
    /// overflow.
    #[must_use]
    pub fn saturating_to<T>(&self) -> (r: T) where Self: UintTryTo<T>
        requires
            self.to_ready(),
        ensures
            Self::target_int(r) == saturated_out_of(self.to_outcome(), Self::target_max()),
    {
        match self.uint_try_to() {
            Ok(n) | Err(FromUintError::Overflow(_, _, n)) => n,
        }
    }
}

impl UintTryTo<bool> for Uint {
    open spec fn to_ready(&self) -> bool {
        self.wf()
    }

    open spec fn to_outcome(&self) -> ToOutcome {
        to_native_outcome(self@, self.width as nat, 1, 1, false)
    }

    open spec fn target_int(t: bool) -> int {
        if t {
            1
        } else {
            0
        }
    }

    open spec fn target_max() -> int {
        1
    }

    fn uint_try_to(&self) -> (r: Result<bool, FromUintError<bool>>) {
        if self.width == 0 {
            proof {
                lemma2_to64();
            }
            return Ok(false);
        }
        proof {
            lemma_nlimbs_bounds(self.width as nat);
            crate::limbs::lemma_limbs_val_first(self.limbs@);
            lemma2_to64();
            vstd::arithmetic::power2::lemma2_to64_rest();
        }
        if self.gt_u64_max() || self.limbs[0] > 1 {
            proof {
                lemma_mod_pow2_mod(self@, 64, 1);
                if self@ < pow2(64) {
                    vstd::arithmetic::div_mod::lemma_small_mod(self@, pow2(64));
                }
                assert(self@ / pow2(0) == self@);
            }
            return Err(FromUintError::Overflow(self.width, self.bit(0), true));
        }
        proof {
            vstd::arithmetic::div_mod::lemma_small_mod(self@, pow2(64));
        }
        Ok(self.limbs[0] != 0)
    }
}

impl UintTryTo<u8> for Uint {
    open spec fn to_ready(&self) -> bool {
        self.wf()
    }

    open spec fn to_outcome(&self) -> ToOutcome {
        to_native_outcome(self@, self.width as nat, 8, u8::MAX as int, false)
    }

    open spec fn target_int(t: u8) -> int {
        t as int
    }

    open spec fn target_max() -> int {
        u8::MAX as int
    }

    fn uint_try_to(&self) -> (r: Result<u8, FromUintError<u8>>) {
        if self.width == 0 {
            proof {
                lemma2_to64();
            }
            return Ok(0);
        }
        proof {
            lemma_nlimbs_bounds(self.width as nat);
            crate::limbs::lemma_limbs_val_first(self.limbs@);
            lemma2_to64();
            vstd::arithmetic::power2::lemma2_to64_rest();
        }
        let l0 = self.limbs[0];
        if self.gt_u64_max() || l0 > u8::MAX as u64 {
            proof {
                lemma_mod_pow2_mod(self@, 64, 8);
                assert((l0 as u8) as nat == (l0 as nat) % 0x100) by (bit_vector);
                if self@ < pow2(64) {
                    vstd::arithmetic::div_mod::lemma_small_mod(self@, pow2(64));
                }
            }
            return Err(FromUintError::Overflow(self.width, l0 as u8, u8::MAX));
        }
        proof {
            vstd::arithmetic::div_mod::lemma_small_mod(self@, pow2(64));
        }
        Ok(l0 as u8)
    }
}

impl UintTryTo<u16> for Uint {
    open spec fn to_ready(&self) -> bool {
        self.wf()
    }

    open spec fn to_outcome(&self) -> ToOutcome {
        to_native_outcome(self@, self.width as nat, 16, u16::MAX as int, false)
    }

    open spec fn target_int(t: u16) -> int {
        t as int
    }

    open spec fn target_max() -> int {
        u16::MAX as int
    }

    fn uint_try_to(&self) -> (r: Result<u16, FromUintError<u16>>) {
        if self.width == 0 {
            proof {
                lemma2_to64();
            }
            return Ok(0);
        }
        proof {
            lemma_nlimbs_bounds(self.width as nat);
            crate::limbs::lemma_limbs_val_first(self.limbs@);
            lemma2_to64();
            vstd::arithmetic::power2::lemma2_to64_rest();
        }
        let l0 = self.limbs[0];
        if self.gt_u64_max() || l0 > u16::MAX as u64 {
            proof {
                lemma_mod_pow2_mod(self@, 64, 16);
                assert((l0 as u16) as nat == (l0 as nat) % 0x10000) by (bit_vector);
                if self@ < pow2(64) {
                    vstd::arithmetic::div_mod::lemma_small_mod(self@, pow2(64));
                }
            }
            return Err(FromUintError::Overflow(self.width, l0 as u16, u16::MAX));
        }
        proof {
            vstd::arithmetic::div_mod::lemma_small_mod(self@, pow2(64));
        }
        Ok(l0 as u16)
    }
}

impl UintTryTo<u32> for Uint {
    open spec fn to_ready(&self) -> bool {
        self.wf()
    }

    open spec fn to_outcome(&self) -> ToOutcome {
        to_native_outcome(self@, self.width as nat, 32, u32::MAX as int, false)
    }

    open spec fn target_int(t: u32) -> int {
        t as int
    }

    open spec fn target_max() -> int {
        u32::MAX as int
    }

    fn uint_try_to(&self) -> (r: Result<u32, FromUintError<u32>>) {
        if self.width == 0 {
            proof {
                lemma2_to64();
            }
            return Ok(0);
        }
        proof {
            lemma_nlimbs_bounds(self.width as nat);
            crate::limbs::lemma_limbs_val_first(self.limbs@);
            lemma2_to64();
            vstd::arithmetic::power2::lemma2_to64_rest();
        }
        let l0 = self.limbs[0];
        if self.gt_u64_max() || l0 > u32::MAX as u64 {
            proof {
                lemma_mod_pow2_mod(self@, 64, 32);
                assert((l0 as u32) as nat == (l0 as nat) % 0x100000000) by (bit_vector);
                if self@ < pow2(64) {
                    vstd::arithmetic::div_mod::lemma_small_mod(self@, pow2(64));
                }
            }
            return Err(FromUintError::Overflow(self.width, l0 as u32, u32::MAX));
        }
        proof {
            vstd::arithmetic::div_mod::lemma_small_mod(self@, pow2(64));
        }
        Ok(l0 as u32)
    }
}

impl UintTryTo<u64> for Uint {
    open spec fn to_ready(&self) -> bool {
        self.wf()
    }

    open spec fn to_outcome(&self) -> ToOutcome {
        to_native_outcome(self@, self.width as nat, 64, u64::MAX as int, false)
    }

    open spec fn target_int(t: u64) -> int {
        t as int
    }

    open spec fn target_max() -> int {
        u64::MAX as int
    }

    fn uint_try_to(&self) -> (r: Result<u64, FromUintError<u64>>) {
        if self.width == 0 {
            proof {
                lemma2_to64();
            }
            return Ok(0);
        }
        proof {
            lemma_nlimbs_bounds(self.width as nat);
            crate::limbs::lemma_limbs_val_first(self.limbs@);
            lemma2_to64();
            vstd::arithmetic::power2::lemma2_to64_rest();
        }
        let l0 = self.limbs[0];
        if self.gt_u64_max() {
            proof {
                lemma_mod_pow2_mod(self@, 64, 64);
            }
            return Err(FromUintError::Overflow(self.width, l0, u64::MAX));
        }
        proof {
            vstd::arithmetic::div_mod::lemma_small_mod(self@, pow2(64));
        }
        Ok(l0)
    }
}

impl UintTryTo<i8> for Uint {
    open spec fn to_ready(&self) -> bool {
        self.wf()
    }

    open spec fn to_outcome(&self) -> ToOutcome {
        to_native_outcome(self@, self.width as nat, 8, i8::MAX as int, true)
    }

    open spec fn target_int(t: i8) -> int {
        t as int
    }

    open spec fn target_max() -> int {
        i8::MAX as int
    }

    fn uint_try_to(&self) -> (r: Result<i8, FromUintError<i8>>) {
        if self.width == 0 {
            proof {
                lemma2_to64();
            }
            return Ok(0);
        }
        proof {
            lemma_nlimbs_bounds(self.width as nat);
            crate::limbs::lemma_limbs_val_first(self.limbs@);
            lemma2_to64();
            vstd::arithmetic::power2::lemma2_to64_rest();
        }
        let l0 = self.limbs[0];
        if self.gt_u64_max() || l0 > i8::MAX as u64 {
            proof {
                lemma_mod_pow2_mod(self@, 64, 8);
                assert((l0 as i8) as int == if (l0 % 0x100) >= 0x80 {
                    l0 % 0x100 - 0x100
                } else {
                    (l0 % 0x100) as int
                }) by (bit_vector);
                if self@ < pow2(64) {
                    vstd::arithmetic::div_mod::lemma_small_mod(self@, pow2(64));
                }
            }
            return Err(FromUintError::Overflow(self.width, l0 as i8, i8::MAX));
        }
        proof {
            vstd::arithmetic::div_mod::lemma_small_mod(self@, pow2(64));
        }
        Ok(l0 as i8)
    }
}

impl UintTryTo<i16> for Uint {
    open spec fn to_ready(&self) -> bool {
        self.wf()
    }

    open spec fn to_outcome(&self) -> ToOutcome {
        to_native_outcome(self@, self.width as nat, 16, i16::MAX as int, true)
    }

    open spec fn target_int(t: i16) -> int {
        t as int
    }

    open spec fn target_max() -> int {
        i16::MAX as int
    }

    fn uint_try_to(&self) -> (r: Result<i16, FromUintError<i16>>) {
        if self.width == 0 {
            proof {
                lemma2_to64();
            }
            return Ok(0);
        }
        proof {
            lemma_nlimbs_bounds(self.width as nat);
            crate::limbs::lemma_limbs_val_first(self.limbs@);
            lemma2_to64();
            vstd::arithmetic::power2::lemma2_to64_rest();
        }
        let l0 = self.limbs[0];
        if self.gt_u64_max() || l0 > i16::MAX as u64 {
            proof {
                lemma_mod_pow2_mod(self@, 64, 16);
                assert((l0 as i16) as int == if (l0 % 0x10000) >= 0x8000 {
                    l0 % 0x10000 - 0x10000
                } else {
                    (l0 % 0x10000) as int
                }) by (bit_vector);
                if self@ < pow2(64) {
                    vstd::arithmetic::div_mod::lemma_small_mod(self@, pow2(64));
                }
            }
            return Err(FromUintError::Overflow(self.width, l0 as i16, i16::MAX));
        }
        proof {
            vstd::arithmetic::div_mod::lemma_small_mod(self@, pow2(64));
        }
        Ok(l0 as i16)
    }
}

impl UintTryTo<i32> for Uint {
    open spec fn to_ready(&self) -> bool {
        self.wf()
    }

    open spec fn to_outcome(&self) -> ToOutcome {
        to_native_outcome(self@, self.width as nat, 32, i32::MAX as int, true)
    }

    open spec fn target_int(t: i32) -> int {
        t as int
    }

    open spec fn target_max() -> int {
        i32::MAX as int
    }

    fn uint_try_to(&self) -> (r: Result<i32, FromUintError<i32>>) {
        if self.width == 0 {
            proof {
                lemma2_to64();
            }
            return Ok(0);
        }
        proof {
            lemma_nlimbs_bounds(self.width as nat);
            crate::limbs::lemma_limbs_val_first(self.limbs@);
            lemma2_to64();
            vstd::arithmetic::power2::lemma2_to64_rest();
        }
        let l0 = self.limbs[0];
        if self.gt_u64_max() || l0 > i32::MAX as u64 {
            proof {
                lemma_mod_pow2_mod(self@, 64, 32);
                assert((l0 as i32) as int == if (l0 % 0x100000000) >= 0x80000000 {
                    l0 % 0x100000000 - 0x100000000
                } else {
                    (l0 % 0x100000000) as int
                }) by (bit_vector);
                if self@ < pow2(64) {
                    vstd::arithmetic::div_mod::lemma_small_mod(self@, pow2(64));
                }
            }
            return Err(FromUintError::Overflow(self.width, l0 as i32, i32::MAX));
        }
        proof {
            vstd::arithmetic::div_mod::lemma_small_mod(self@, pow2(64));
        }
        Ok(l0 as i32)
    }
}

impl UintTryTo<i64> for Uint {
    open spec fn to_ready(&self) -> bool {
        self.wf()
    }

    open spec fn to_outcome(&self) -> ToOutcome {
        to_native_outcome(self@, self.width as nat, 64, i64::MAX as int, true)
    }

    open spec fn target_int(t: i64) -> int {
        t as int
    }

    open spec fn target_max() -> int {
        i64::MAX as int
    }

    fn uint_try_to(&self) -> (r: Result<i64, FromUintError<i64>>) {
        if self.width == 0 {
            proof {
                lemma2_to64();
            }
            return Ok(0);
        }
        proof {
            lemma_nlimbs_bounds(self.width as nat);
            crate::limbs::lemma_limbs_val_first(self.limbs@);
            lemma2_to64();
            vstd::arithmetic::power2::lemma2_to64_rest();
        }
        let l0 = self.limbs[0];
        if self.gt_u64_max() || l0 > i64::MAX as u64 {
            proof {
                lemma_mod_pow2_mod(self@, 64, 64);
                assert((l0 as i64) as int == if l0 >= 0x8000000000000000 {
                    l0 - 0x10000000000000000
                } else {
                    l0 as int
                }) by (bit_vector);
                if self@ < pow2(64) {
                    vstd::arithmetic::div_mod::lemma_small_mod(self@, pow2(64));
                }
            }
            return Err(FromUintError::Overflow(self.width, l0 as i64, i64::MAX));
        }
        proof {
            vstd::arithmetic::div_mod::lemma_small_mod(self@, pow2(64));
        }
        Ok(l0 as i64)
    }
}

impl UintTryTo<usize> for Uint {
    open spec fn to_ready(&self) -> bool {
        self.wf()
    }

    open spec fn to_outcome(&self) -> ToOutcome {
        to_native_outcome(self@, self.width as nat, usize::BITS as nat, usize::MAX as int, false)
    }

    open spec fn target_int(t: usize) -> int {
        t as int
    }

    open spec fn target_max() -> int {
        usize::MAX as int
    }

    fn uint_try_to(&self) -> (r: Result<usize, FromUintError<usize>>) {
        if self.width == 0 {
            proof {
                lemma2_to64();
            }
            return Ok(0);
        }
        proof {
            lemma_nlimbs_bounds(self.width as nat);
            crate::limbs::lemma_limbs_val_first(self.limbs@);
            lemma2_to64();
            vstd::arithmetic::power2::lemma2_to64_rest();
            vstd::layout::unsigned_int_max_values();
        }
        let l0 = self.limbs[0];
        if self.gt_u64_max() || l0 > usize::MAX as u64 {
            proof {
                lemma_mod_pow2_mod(self@, 64, usize::BITS as nat);
                if usize::BITS == 64 {
                    assert((l0 as usize) as nat == (l0 as nat) % 0x10000000000000000)
                        by (bit_vector)
                        requires
                            usize::BITS == 64,
                    ;
                } else {
                    assert((l0 as usize) as nat == (l0 as nat) % 0x100000000) by (bit_vector)
                        requires
                            usize::BITS == 32,
                    ;
                }
                if self@ < pow2(64) {
                    vstd::arithmetic::div_mod::lemma_small_mod(self@, pow2(64));
                }
            }
            return Err(FromUintError::Overflow(self.width, l0 as usize, usize::MAX));
        }
        proof {
            vstd::arithmetic::div_mod::lemma_small_mod(self@, pow2(64));
        }
        Ok(l0 as usize)
    }
}

impl UintTryTo<isize> for Uint {
    open spec fn to_ready(&self) -> bool {
        self.wf()
    }

    open spec fn to_outcome(&self) -> ToOutcome {
        to_native_outcome(self@, self.width as nat, usize::BITS as nat, isize::MAX as int, true)
    }

    open spec fn target_int(t: isize) -> int {
        t as int
    }

    open spec fn target_max() -> int {
        isize::MAX as int
    }

    fn uint_try_to(&self) -> (r: Result<isize, FromUintError<isize>>) {
        if self.width == 0 {
            proof {
                lemma2_to64();
            }
            return Ok(0);
        }
        proof {
            lemma_nlimbs_bounds(self.width as nat);
            crate::limbs::lemma_limbs_val_first(self.limbs@);
            lemma2_to64();
            vstd::arithmetic::power2::lemma2_to64_rest();
            vstd::layout::unsigned_int_max_values();
            vstd::layout::signed_int_min_max_values();
        }
        let l0 = self.limbs[0];
        if self.gt_u64_max() || l0 > isize::MAX as u64 {
            proof {
                lemma_mod_pow2_mod(self@, 64, usize::BITS as nat);
                if usize::BITS == 64 {
                    assert((l0 as isize) as int == if l0 >= 0x8000000000000000 {
                        l0 - 0x10000000000000000
                    } else {
                        l0 as int
                    }) by (bit_vector)
                        requires
                            usize::BITS == 64,
                    ;
                } else {
                    assert((l0 as isize) as int == if (l0 % 0x100000000) >= 0x80000000 {
                        l0 % 0x100000000 - 0x100000000
                    } else {
                        (l0 % 0x100000000) as int
                    }) by (bit_vector)
                        requires
                            usize::BITS == 32,
                    ;
                }
                if self@ < pow2(64) {
                    vstd::arithmetic::div_mod::lemma_small_mod(self@, pow2(64));
                }
            }
            return Err(FromUintError::Overflow(self.width, l0 as isize, isize::MAX));
        }
        proof {
            vstd::arithmetic::div_mod::lemma_small_mod(self@, pow2(64));
        }
        Ok(l0 as isize)
    }
}

impl Uint {
    /// The value of the low 128 bits: `self@ % pow2(128)`.
    fn low_u128(&self) -> (r: u128)
        requires
            self.wf(),
            self.width > 64,
        ensures
            r as nat == self@ % pow2(128),
    {
        proof {
            lemma_nlimbs_bounds(self.width as nat);
            assert(self.limbs@.len() >= 2);
            crate::limbs::lemma_limbs_val_skip(self.limbs@, 2);
            let low = self.limbs@.subrange(0, 2);
            let top = low.subrange(1, 2);
            assert(top.subrange(1, 1) =~= Seq::<u64>::empty());
            assert(crate::limbs::limbs_val(top.subrange(1, 1)) == 0);
            assert(crate::limbs::limbs_val(top) == (top[0] + pow2(64) * 0) as nat);
            assert(crate::limbs::limbs_val(low) == (low[0] + pow2(64) * crate::limbs::limbs_val(
                top,
            )) as nat);
            assert(crate::limbs::limbs_val(low) == self.limbs@[0] + pow2(64) * (
            self.limbs@[1] as nat));
            lemma2_to64();
            vstd::arithmetic::power2::lemma2_to64_rest();
            lemma_pow2_adds(64, 64);
        }
        let lo = self.limbs[0];
        let hi = self.limbs[1];
        proof {
            assert(((lo as u128) | ((hi as u128) << 64)) == (lo as u128) + (hi as u128)
                * 0x10000000000000000) by (bit_vector);
            vstd::arithmetic::mul::lemma_mul_is_commutative(pow2(64) as int, hi as int);
        }
        (lo as u128) | ((hi as u128) << 64)
    }
}

impl UintTryTo<u128> for Uint {
    open spec fn to_ready(&self) -> bool {
        self.wf()
    }

    open spec fn to_outcome(&self) -> ToOutcome {
        to_native_outcome(self@, self.width as nat, 128, u128::MAX as int, false)
    }

    open spec fn target_int(t: u128) -> int {
        t as int
    }

    open spec fn target_max() -> int {
        u128::MAX as int
    }

    fn uint_try_to(&self) -> (r: Result<u128, FromUintError<u128>>) {
        if self.width <= 64 {
            if self.width == 0 {
                proof {
                    lemma2_to64();
                }
                return Ok(0);
            }
            proof {
                lemma_nlimbs_bounds(self.width as nat);
                crate::limbs::lemma_limbs_val_first(self.limbs@);
                crate::arith::lemma_pow2_le(self.width as nat, 64);
                lemma2_to64();
                vstd::arithmetic::power2::lemma2_to64_rest();
                vstd::arithmetic::div_mod::lemma_small_mod(self@, pow2(64));
                lemma_pow2_adds(64, 64);
                assert((u128::MAX as nat) == pow2(128) - 1) by {
                    vstd::layout::unsigned_int_max_values();
                }
            }
            return Ok(self.limbs[0] as u128);
        }
        proof {
            lemma_pow2_adds(64, 64);
            assert((u128::MAX as nat) == pow2(128) - 1) by {
                vstd::layout::unsigned_int_max_values();
            }
            vstd::arithmetic::power2::lemma_pow2_pos(128);
            vstd::arithmetic::div_mod::lemma_mod_bound(self@ as int, pow2(128) as int);
        }
        let result = self.low_u128();
        if self.gt_u128_max() {
            return Err(FromUintError::Overflow(self.width, result, u128::MAX));
        }
        proof {
            vstd::arithmetic::div_mod::lemma_small_mod(self@, pow2(128));
        }
        Ok(result)
    }
}

impl UintTryTo<i128> for Uint {
    open spec fn to_ready(&self) -> bool {
        self.wf()
    }

    open spec fn to_outcome(&self) -> ToOutcome {
        to_native_outcome(self@, self.width as nat, 128, i128::MAX as int, true)
    }

    open spec fn target_int(t: i128) -> int {
        t as int
    }

    open spec fn target_max() -> int {
        i128::MAX as int
    }

    fn uint_try_to(&self) -> (r: Result<i128, FromUintError<i128>>) {
        if self.width <= 64 {
            if self.width == 0 {
                proof {
                    lemma2_to64();
                }
                return Ok(0);
            }
            proof {
                lemma_nlimbs_bounds(self.width as nat);
                crate::limbs::lemma_limbs_val_first(self.limbs@);
                crate::arith::lemma_pow2_le(self.width as nat, 64);
                lemma2_to64();
                vstd::arithmetic::power2::lemma2_to64_rest();
                vstd::arithmetic::div_mod::lemma_small_mod(self@, pow2(64));
                vstd::layout::signed_int_min_max_values();
                lemma_pow2_adds(64, 63);
                assert((i128::MAX as nat) == pow2(127) - 1);
                crate::arith::lemma_pow2_le(64, 127);
            }
            return Ok(self.limbs[0] as i128);
        }
        proof {
            lemma2_to64();
            vstd::arithmetic::power2::lemma2_to64_rest();
            lemma_pow2_adds(64, 64);
            lemma_pow2_adds(64, 63);
            vstd::layout::signed_int_min_max_values();
            assert((i128::MAX as nat) == pow2(127) - 1);
            vstd::arithmetic::power2::lemma_pow2_pos(128);
            vstd::arithmetic::div_mod::lemma_mod_bound(self@ as int, pow2(128) as int);
        }
        let result = self.low_u128();
        if self.gt_u128_max() || result > i128::MAX as u128 {
            proof {
                assert((result as i128) as int == if result >= 0x80000000000000000000000000000000 {
                    result - 0x100000000000000000000000000000000
                } else {
                    result as int
                }) by (bit_vector);
                if self@ < pow2(128) {
                    vstd::arithmetic::div_mod::lemma_small_mod(self@, pow2(128));
                }
            }
            return Err(FromUintError::Overflow(self.width, result as i128, i128::MAX));
        }
        proof {
            vstd::arithmetic::div_mod::lemma_small_mod(self@, pow2(128));
        }
        Ok(result as i128)
    }
}

} // verus!
