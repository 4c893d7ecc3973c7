//! Conversions from native integers (and from other widths) into [`Uint`],
//! under the strict, saturating and wrapping policies.

use crate::errors::ToUintError;
use crate::limbs::{lemma_limbs_val_push, limbs_val};
use crate::outcome::{
    from_result_matches, int_from_outcome, saturated_of, wrapped_of, ConvOutcome,
};
use crate::uint::{lemma_nlimbs_bounds, spec_nlimbs, Uint};
use vstd::arithmetic::power2::{lemma2_to64, lemma_pow2_adds, lemma_pow2_pos, pow2};
use vstd::prelude::*;

verus! {

/// Capability trait of the dispatch layer: one generic strict conversion
/// into [`Uint`], implemented once per source type, so that the policy
/// functions can treat native sources and `Uint` sources uniformly.
pub trait UintTryFrom<T>: Sized {
    /// The inputs the strict conversion accepts.
    spec fn in_domain(width: nat, value: T) -> bool;

    /// The mathematical outcome of the strict conversion.
    spec fn from_outcome(width: nat, value: T) -> ConvOutcome;

    /// Fallible strict conversion into a `width`-bit [`Uint`].
    fn uint_try_from(width: usize, value: T) -> (r: Result<Uint, ToUintError>)
        requires
            Self::in_domain(width as nat, value),
        ensures
            from_result_matches(r, Self::from_outcome(width as nat, value), width as nat),
    ;
}

impl Uint {
    /// A limb vector holding `lo` in limb 0, `hi` in limb 1, zeros above.
    fn double_limb_vec(n: usize, lo: u64, hi: u64) -> (r: Vec<u64>)
        requires
            n >= 2,
        ensures
            r@.len() == n,
            limbs_val(r@) == lo + hi * pow2(64),
    {
        let mut limbs: Vec<u64> = Vec::new();
        proof {
            lemma_limbs_val_push(limbs@, lo);
            lemma2_to64();
            assert(limbs_val(limbs@) == 0);
            assert(limbs_val(limbs@.push(lo)) == lo * pow2(0));
        }
        limbs.push(lo);
        proof {
            lemma_limbs_val_push(limbs@, hi);
            assert(limbs_val(limbs@.push(hi)) == lo + hi * pow2(64));
        }
        limbs.push(hi);
        let mut i: usize = 2;
        while i < n
            invariant
                2 <= i <= n,
                limbs@.len() == i,
                limbs_val(limbs@) == lo + hi * pow2(64),
            decreases n - i,
        {
            proof {
                lemma_limbs_val_push(limbs@, 0u64);
            }
            limbs.push(0);
            i += 1;
        }
        limbs
    }

    /// Strict conversion from `u64`: the base case, since a `u64` occupies a
    /// single limb.
    pub(crate) fn from_u64(width: usize, value: u64) -> (r: Result<Uint, ToUintError>)
        ensures
            from_result_matches(
                r,
                int_from_outcome(value as int, 64, width as nat),
                width as nat,
            ),
    {
        let n = Self::nlimbs(width);
        proof {
            lemma2_to64();
            if width > 0 {
                lemma_nlimbs_bounds(width as nat);
            }
        }
        if n == 0 {
            if value > 0 {
                return Err(ToUintError::ValueTooLarge(width, Self::zero(width)));
            }
            return Ok(Self::zero(width));
        }
        if n == 1 {
            let m = Self::mask64(width);
            if value > m {
                proof {
                    if width == 64 {
                        vstd::arithmetic::power2::lemma2_to64_rest();
                        assert(false);
                    }
                    vstd::bits::lemma_u64_shl_is_mul(1u64, width as u64);
                    vstd::bits::lemma_u64_pow2_no_overflow(width as nat);
                    assert(m as nat == vstd::bits::low_bits_mask(width as nat));
                    vstd::bits::lemma_u64_low_bits_mask_is_mod(value, width as nat);
                    vstd::arithmetic::div_mod::lemma_mod_bound(
                        value as int,
                        pow2(width as nat) as int,
                    );
                }
                let masked = value & m;
                let limbs = Self::single_limb_vec(1, masked);
                return Err(ToUintError::ValueTooLarge(width, Self::from_limbs(width, limbs)));
            }
        }
        proof {
            lemma_pow2_pos(width as nat);
            if n == 1 {
                assert((value as nat) < pow2(width as nat));
            } else {
                vstd::arithmetic::power2::lemma2_to64_rest();
                crate::arith::lemma_pow2_le(64, width as nat);
                assert((value as nat) < pow2(width as nat));
            }
        }
        let limbs = Self::single_limb_vec(n, value);
        Ok(Self::from_limbs(width, limbs))
    }

    /// Strict conversion from `u128`: handled separately since the value
    /// covers two limbs.
    pub(crate) fn from_u128(width: usize, value: u128) -> (r: Result<Uint, ToUintError>)
        ensures
            from_result_matches(
                r,
                int_from_outcome(value as int, 128, width as nat),
                width as nat,
            ),
    {
        proof {
            lemma2_to64();
            vstd::arithmetic::power2::lemma2_to64_rest();
        }
        if value <= u64::MAX as u128 {
            let r = Self::from_u64(width, value as u64);
            proof {
                crate::outcome::lemma_outcome_nonneg(value as int, 64, 128, width as nat);
            }
            return r;
        }
        let n = Self::nlimbs(width);
        proof {
            if width > 0 {
                lemma_nlimbs_bounds(width as nat);
            }
            assert((value as u64) as nat == (value as nat) % pow2(64)) by {
                assert(value as u64 == value % 0x10000000000000000u128) by (bit_vector);
            }
        }
        if n < 2 {
            // The width is at most 64 bits: the nonzero high half is lost
            // even after masking, so any success becomes `ValueTooLarge`.
            proof {
                crate::arith::lemma_pow2_le(width as nat, 64);
                // value % 2^width == (value % 2^64) % 2^width
                lemma_pow2_adds(width as nat, (64 - width) as nat);
                vstd::arithmetic::div_mod::lemma_mod_mod(
                    value as int,
                    pow2(width as nat) as int,
                    pow2((64 - width) as nat) as int,
                );
                crate::outcome::lemma_outcome_nonneg((value as u64) as int, 64, 64, width as nat);
                lemma_pow2_pos(width as nat);
            }
            match Self::from_u64(width, value as u64) {
                Ok(x) => {
                    proof {
                        vstd::arithmetic::div_mod::lemma_small_mod(
                            (value as u64) as nat,
                            pow2(width as nat),
                        );
                    }
                    return Err(ToUintError::ValueTooLarge(width, x));
                },
                Err(ToUintError::ValueTooLarge(b, x)) => {
                    return Err(ToUintError::ValueTooLarge(b, x));
                },
                Err(_) => {
                    return vstd::pervasive::unreached();
                },
            }
        }
        let lo = value as u64;
        let hi = (value >> 64) as u64;
        proof {
            vstd::bits::lemma_u128_shr_is_div(value, 64);
            assert((value >> 64) < 0x10000000000000000u128) by (bit_vector);
            vstd::arithmetic::div_mod::lemma_fundamental_div_mod(value as int, pow2(64) as int);
            assert(value as nat == lo + pow2(64) * (hi as nat));
        }
        if n == 2 {
            // 64 < width <= 128: validate the high limb against the top mask.
            let t = width - 64;
            let m = Self::mask64(t);
            proof {
                lemma_pow2_pos(t as nat);
                lemma_pow2_adds(64, t as nat);
            }
            if hi > m {
                proof {
                    if t == 64 {
                        vstd::arithmetic::power2::lemma2_to64_rest();
                        assert(false);
                    }
                    vstd::bits::lemma_u64_shl_is_mul(1u64, t as u64);
                    vstd::bits::lemma_u64_pow2_no_overflow(t as nat);
                    assert(m as nat == vstd::bits::low_bits_mask(t as nat));
                    vstd::bits::lemma_u64_low_bits_mask_is_mod(hi, t as nat);
                    vstd::arithmetic::div_mod::lemma_mod_bound(hi as int, pow2(t as nat) as int);
                    vstd::arithmetic::div_mod::lemma_fundamental_div_mod(
                        hi as int,
                        pow2(t as nat) as int,
                    );
                    let hq = hi as int / pow2(t as nat) as int;
                    let hr = hi as int % pow2(t as nat) as int;
                    assert(value as int == (pow2(64) * pow2(t as nat)) as int * hq + (lo + pow2(64)
                        * hr)) by (nonlinear_arith)
                        requires
                            value as nat == lo + pow2(64) * (hi as nat),
                            hi as int == pow2(t as nat) * hq + hr,
                    ;
                    assert(lo + pow2(64) * hr < (pow2(64) * pow2(t as nat)) as int)
                        by (nonlinear_arith)
                        requires
                            lo < pow2(64),
                            hr <= pow2(t as nat) - 1,
                            pow2(64) > 0,
                    ;
                    vstd::arithmetic::div_mod::lemma_fundamental_div_mod_converse(
                        value as int,
                        (pow2(64) * pow2(t as nat)) as int,
                        hq,
                        lo + pow2(64) * hr,
                    );
                    // the value is indeed too large
                    assert(hq >= 1) by {
                        vstd::arithmetic::div_mod::lemma_div_is_ordered(
                            pow2(t as nat) as int,
                            hi as int,
                            pow2(t as nat) as int,
                        );
                        vstd::arithmetic::div_mod::lemma_div_by_self(pow2(t as nat) as int);
                    }
                    assert((pow2(t as nat) * hq) as int >= pow2(t as nat)) by (nonlinear_arith)
                        requires
                            hq >= 1,
                            pow2(t as nat) > 0,
                    ;
                    assert((value as nat) >= pow2(width as nat)) by (nonlinear_arith)
                        requires
                            value as nat == lo + pow2(64) * (hi as nat),
                            hi as nat >= pow2(t as nat),
                            pow2(width as nat) == pow2(64) * pow2(t as nat),
                    ;
                    vstd::arithmetic::mul::lemma_mul_is_commutative(pow2(64) as int, hr);
                }
                let limbs = Self::double_limb_vec(2, lo, hi & m);
                return Err(ToUintError::ValueTooLarge(width, Self::from_limbs(width, limbs)));
            }
            proof {
                assert((value as nat) < pow2(width as nat)) by (nonlinear_arith)
                    requires
                        value as nat == lo + pow2(64) * (hi as nat),
                        lo < pow2(64),
                        hi as nat <= pow2(t as nat) - 1,
                        pow2(width as nat) == pow2(64) * pow2(t as nat),
                        pow2(64) > 0,
                ;
                vstd::arithmetic::mul::lemma_mul_is_commutative(pow2(64) as int, hi as int);
            }
            let limbs = Self::double_limb_vec(2, lo, hi);
            return Ok(Self::from_limbs(width, limbs));
        }
        // More than two limbs: the width exceeds 128 bits, so any `u128` fits.
        proof {
            assert(64 * (n - 1) >= 128);
            crate::arith::lemma_pow2_le(128, width as nat);
            lemma_pow2_adds(64, 64);
            assert((value as nat) < pow2(128)) by (nonlinear_arith)
                requires
                    value as nat == lo + pow2(64) * (hi as nat),
                    lo < pow2(64),
                    (hi as nat) < pow2(64),
                    pow2(128) == pow2(64) * pow2(64),
            ;
            vstd::arithmetic::mul::lemma_mul_is_commutative(pow2(64) as int, hi as int);
        }
        let limbs = Self::double_limb_vec(n, lo, hi);
        Ok(Self::from_limbs(width, limbs))
    }

    /// The first `k` limbs of `src`, as a fresh vector.
    fn copy_limbs_prefix(src: &Vec<u64>, k: usize) -> (r: Vec<u64>)
        requires
            k <= src@.len(),
        ensures
            r@ == src@.subrange(0, k as int),
    {
        let mut limbs: Vec<u64> = Vec::new();
        let mut i: usize = 0;
        while i < k
            invariant
                i <= k <= src@.len(),
                limbs@ == src@.subrange(0, i as int),
            decreases k - i,
        {
            proof {
                assert(src@.subrange(0, i as int).push(src@[i as int]) =~= src@.subrange(
                    0,
                    i as int + 1,
                ));
            }
            limbs.push(src[i]);
            i += 1;
        }
        limbs
    }

    /// Cross-width conversion: copies `min(limbs_src, limbs_dst)` limbs,
    /// zero-extending when the destination is wider, and reports whether any
    /// source bit at or above the destination width was lost.
    pub(crate) fn overflowing_from_uint(width: usize, value: &Uint) -> (r: (Uint, bool))
        requires
            value.wf(),
        ensures
            r.0.wf(),
            r.0.width == width,
            r.0@ == value@ % pow2(width as nat),
            r.1 == (value@ >= pow2(width as nat)),
    {
        let n = Self::nlimbs(width);
        let src_len = value.limbs.len();
        let bl = value.bit_len();
        proof {
            crate::arith::lemma_bit_len_gt(value@, width as nat);
            lemma_pow2_pos(width as nat);
        }
        if bl <= width {
            // The value fits; any limbs beyond the destination count are zero.
            proof {
                vstd::arithmetic::div_mod::lemma_small_mod(value@, pow2(width as nat));
                if width > 0 {
                    lemma_nlimbs_bounds(width as nat);
                    crate::arith::lemma_pow2_le(width as nat, 64 * spec_nlimbs(width as nat));
                }
            }
            let k = if n < src_len {
                proof {
                    crate::limbs::lemma_limbs_val_high_zero(value.limbs@, n as int);
                }
                n
            } else {
                src_len
            };
            let mut limbs = Self::copy_limbs_prefix(&value.limbs, k);
            proof {
                crate::limbs::lemma_limbs_val_skip(value.limbs@, k as int);
                if (k as int) < value.limbs@.len() {
                    // the dropped high limbs are zero, so nothing is lost
                    crate::limbs::lemma_limbs_val_high_zero(value.limbs@, k as int);
                    vstd::arithmetic::div_mod::lemma_small_mod(value@, pow2(64 * k as nat));
                } else {
                    assert(value.limbs@.subrange(0, k as int) =~= value.limbs@);
                }
            }
            let mut i = k;
            while i < n
                invariant
                    k <= i <= n,
                    limbs@.len() == i,
                    limbs_val(limbs@) == value@,
                decreases n - i,
            {
                proof {
                    lemma_limbs_val_push(limbs@, 0u64);
                }
                limbs.push(0);
                i += 1;
            }
            return (Self::from_limbs(width, limbs), false);
        }
        // The value overflows the destination width: truncate modulo 2^width.
        if n == 0 {
            proof {
                lemma2_to64();
                assert(value@ % pow2(0) == 0) by {
                    vstd::arithmetic::div_mod::lemma_mod_bound(value@ as int, pow2(0) as int);
                }
            }
            return (Self::zero(width), true);
        }
        proof {
            lemma_nlimbs_bounds(width as nat);
            crate::limbs::lemma_limbs_val_bound(value.limbs@);
            crate::arith::lemma_bit_len_le(value@, 64 * value.limbs@.len());
            assert(64 * (n - 1) < 64 * value.limbs@.len());
        }
        let t = width - 64 * (n - 1);
        let mut limbs = Self::copy_limbs_prefix(&value.limbs, n - 1);
        if t == 64 {
            proof {
                crate::limbs::lemma_limbs_val_skip(value.limbs@, n as int);
                assert(value.limbs@.subrange(0, n as int - 1).push(
                    value.limbs@[n as int - 1],
                ) =~= value.limbs@.subrange(0, n as int));
                lemma_limbs_val_push(limbs@, value.limbs@[n as int - 1]);
            }
            limbs.push(value.limbs[n - 1]);
        } else {
            let m = Self::mask64(t);
            proof {
                vstd::bits::lemma_u64_pow2_no_overflow(t as nat);
                vstd::bits::lemma_u64_shl_is_mul(1u64, t as u64);
                assert(m as nat == vstd::bits::low_bits_mask(t as nat));
                vstd::bits::lemma_u64_low_bits_mask_is_mod(value.limbs@[n as int - 1], t as nat);
                crate::limbs::lemma_low_bits_split(value.limbs@, n as int - 1, t as nat);
                lemma_limbs_val_push(limbs@, (value.limbs@[n as int - 1] & m) as u64);
                vstd::arithmetic::mul::lemma_mul_is_commutative(
                    pow2(64 * (n - 1) as nat) as int,
                    ((value.limbs@[n as int - 1] as nat) % pow2(t as nat)) as int,
                );
            }
            limbs.push(value.limbs[n - 1] & m);
        }
        proof {
            vstd::arithmetic::div_mod::lemma_mod_bound(value@ as int, pow2(width as nat) as int);
        }
        (Self::from_limbs(width, limbs), true)
    }

    /// Construct a new [`Uint`] from a potentially different-width [`Uint`].
    ///
    /// This is the older name of the strict cross-width conversion; the value
    /// must fit in the destination width.
    #[must_use]
    pub fn from_uint(width: usize, value: Uint) -> (r: Uint)
        requires
            value.wf(),
            value@ < pow2(width as nat),
        ensures
            r.wf(),
            r.width == width,
            r@ == value@,
    {
        proof {
            vstd::arithmetic::div_mod::lemma_small_mod(value@, pow2(width as nat));
        }
        let (n, overflow) = Self::overflowing_from_uint(width, &value);
        if overflow {
            vstd::pervasive::unreached()
        } else {
            n
        }
    }

    /// Construct a new [`Uint`] from a potentially different-width [`Uint`],
    /// returning `None` if the value does not fit.
    ///
    /// This is the older name of the checked cross-width conversion.
    #[must_use]
    pub fn checked_from_uint(width: usize, value: Uint) -> (r: Option<Uint>)
        requires
            value.wf(),
        ensures
            match r {
                Some(u) => u.wf() && u.width == width && u@ == value@ && value@ < pow2(
                    width as nat,
                ),
                None => value@ >= pow2(width as nat),
            },
    {
        proof {
            lemma_pow2_pos(width as nat);
        }
        let (n, overflow) = Self::overflowing_from_uint(width, &value);
        if overflow {
            None
        } else {
            proof {
                vstd::arithmetic::div_mod::lemma_small_mod(value@, pow2(width as nat));
            }
            Some(n)
        }
    }

    /// Construct a new [`Uint`] of the given width from the value.
    ///
    /// The conversion must succeed: inputs on which the strict conversion
    /// fails are excluded by precondition, since this crate's functions
    /// never abort.
    #[must_use]
    pub fn from<T>(width: usize, value: T) -> (r: Uint) where Self: UintTryFrom<T>
        requires
            Self::in_domain(width as nat, value),
            Self::from_outcome(width as nat, value) matches ConvOutcome::Fits(_),
        ensures
            r.wf(),
            r.width == width,
            Self::from_outcome(width as nat, value) matches ConvOutcome::Fits(v) && r@ == v,
    {
        match Self::uint_try_from(width, value) {
            Ok(n) => n,
            Err(_) => vstd::pervasive::unreached(),
        }
    }

    /// Construct a new [`Uint`] of the given width from the value,
    /// saturating at the minimum or maximum value of the width.
    ///
    /// A `ValueTooLarge` failure becomes the width's maximum; a
    /// `ValueNegative` or `NotANumber` failure becomes zero.  (A NaN bit
    /// pattern surfaces as `ValueTooLarge` carrying the maximum, since its
    /// exponent field is past every width, so it also saturates upward.)
    #[must_use]
    pub fn saturating_from<T>(width: usize, value: T) -> (r: Uint) where Self: UintTryFrom<T>
        requires
            Self::in_domain(width as nat, value),
        ensures
            r.wf(),
            r.width == width,
            r@ == saturated_of(Self::from_outcome(width as nat, value), width as nat),
    {
        match Self::uint_try_from(width, value) {
            Ok(n) => n,
            Err(ToUintError::ValueTooLarge(_, _)) => Self::max(width),
            Err(ToUintError::ValueNegative(_, _) | ToUintError::NotANumber(_)) => Self::zero(
                width,
            ),
        }
    }

    /// Construct a new [`Uint`] of the given width from the value, wrapping
    /// around modulo `2^width`.
    ///
    /// A `ValueTooLarge` or `ValueNegative` failure becomes the wrapped
    /// value it carries; a `NotANumber` failure becomes zero.
    #[must_use]
    pub fn wrapping_from<T>(width: usize, value: T) -> (r: Uint) where Self: UintTryFrom<T>
        requires
            Self::in_domain(width as nat, value),
        ensures
            r.wf(),
            r.width == width,
            r@ == wrapped_of(Self::from_outcome(width as nat, value)),
    {
        match Self::uint_try_from(width, value) {
            Ok(n) => n,
            Err(ToUintError::ValueTooLarge(_, n) | ToUintError::ValueNegative(_, n)) => n,
            Err(ToUintError::NotANumber(_)) => Self::zero(width),
        }
    }
}

/// A negative source delegates through its unsigned bit pattern `p`; the
/// pattern's own outcome is never `Negative` or NaN, and remapping it to
/// `ValueNegative` keeps the wrapped value.
proof fn lemma_negative_remap(x: int, p: int, tw: nat, w: nat)
    requires
        -pow2(tw) <= x < 0,
        p == x + pow2(tw),
    ensures
        int_from_outcome(x, tw, w) == ConvOutcome::Negative(
            wrapped_of(int_from_outcome(p, tw, w)),
        ),
        !(int_from_outcome(p, tw, w) matches ConvOutcome::Negative(_)),
        !(int_from_outcome(p, tw, w) matches ConvOutcome::NotNum),
        int_from_outcome(p, tw, w) matches ConvOutcome::Fits(v) ==> v == wrapped_of(
            int_from_outcome(p, tw, w),
        ),
{
    crate::outcome::lemma_outcome_negative(x, tw, w);
    crate::outcome::lemma_outcome_nonneg(p, tw, tw, w);
}

impl UintTryFrom<bool> for Uint {
    open spec fn in_domain(width: nat, value: bool) -> bool {
        true
    }

    open spec fn from_outcome(width: nat, value: bool) -> ConvOutcome {
        int_from_outcome(
            if value {
                1
            } else {
                0
            },
            1,
            width,
        )
    }

    fn uint_try_from(width: usize, value: bool) -> (r: Result<Uint, ToUintError>) {
        let x: u64 = if value {
            1
        } else {
            0
        };
        proof {
            crate::outcome::lemma_outcome_nonneg(x as int, 64, 1, width as nat);
        }
        Self::from_u64(width, x)
    }
}

impl UintTryFrom<u8> for Uint {
    open spec fn in_domain(width: nat, value: u8) -> bool {
        true
    }

    open spec fn from_outcome(width: nat, value: u8) -> ConvOutcome {
        int_from_outcome(value as int, 8, width)
    }

    fn uint_try_from(width: usize, value: u8) -> (r: Result<Uint, ToUintError>) {
        proof {
            crate::outcome::lemma_outcome_nonneg(value as int, 64, 8, width as nat);
        }
        Self::from_u64(width, value as u64)
    }
}

impl UintTryFrom<u16> for Uint {
    open spec fn in_domain(width: nat, value: u16) -> bool {
        true
    }

    open spec fn from_outcome(width: nat, value: u16) -> ConvOutcome {
        int_from_outcome(value as int, 16, width)
    }

    fn uint_try_from(width: usize, value: u16) -> (r: Result<Uint, ToUintError>) {
        proof {
            crate::outcome::lemma_outcome_nonneg(value as int, 64, 16, width as nat);
        }
        Self::from_u64(width, value as u64)
    }
}

impl UintTryFrom<u32> for Uint {
    open spec fn in_domain(width: nat, value: u32) -> bool {
        true
    }

    open spec fn from_outcome(width: nat, value: u32) -> ConvOutcome {
        int_from_outcome(value as int, 32, width)
    }

    fn uint_try_from(width: usize, value: u32) -> (r: Result<Uint, ToUintError>) {
        proof {
            crate::outcome::lemma_outcome_nonneg(value as int, 64, 32, width as nat);
        }
        Self::from_u64(width, value as u64)
    }
}

impl UintTryFrom<usize> for Uint {
    open spec fn in_domain(width: nat, value: usize) -> bool {
        true
    }

    open spec fn from_outcome(width: nat, value: usize) -> ConvOutcome {
        int_from_outcome(value as int, usize::BITS as nat, width)
    }

    fn uint_try_from(width: usize, value: usize) -> (r: Result<Uint, ToUintError>) {
        proof {
            crate::outcome::lemma_outcome_nonneg(
                value as int,
                64,
                usize::BITS as nat,
                width as nat,
            );
        }
        Self::from_u64(width, value as u64)
    }
}

impl UintTryFrom<u128> for Uint {
    open spec fn in_domain(width: nat, value: u128) -> bool {
        true
    }

    open spec fn from_outcome(width: nat, value: u128) -> ConvOutcome {
        int_from_outcome(value as int, 128, width)
    }

    fn uint_try_from(width: usize, value: u128) -> (r: Result<Uint, ToUintError>) {
        Self::from_u128(width, value)
    }
}

impl UintTryFrom<i8> for Uint {
    open spec fn in_domain(width: nat, value: i8) -> bool {
        true
    }

    open spec fn from_outcome(width: nat, value: i8) -> ConvOutcome {
        int_from_outcome(value as int, 8, width)
    }

    fn uint_try_from(width: usize, value: i8) -> (r: Result<Uint, ToUintError>) {
        if value < 0 {
            proof {
                lemma2_to64();
                assert((value as u8) as int == value + 0x100) by (bit_vector)
                    requires
                        value < 0,
                ;
                lemma_negative_remap(value as int, (value as u8) as int, 8, width as nat);
            }
            match <Self as UintTryFrom<u8>>::uint_try_from(width, value as u8) {
                Ok(n) | Err(ToUintError::ValueTooLarge(_, n)) => Err(
                    ToUintError::ValueNegative(width, n),
                ),
                _ => vstd::pervasive::unreached(),
            }
        } else {
            <Self as UintTryFrom<u8>>::uint_try_from(width, value as u8)
        }
    }
}

impl UintTryFrom<i16> for Uint {
    open spec fn in_domain(width: nat, value: i16) -> bool {
        true
    }

    open spec fn from_outcome(width: nat, value: i16) -> ConvOutcome {
        int_from_outcome(value as int, 16, width)
    }

    fn uint_try_from(width: usize, value: i16) -> (r: Result<Uint, ToUintError>) {
        if value < 0 {
            proof {
                lemma2_to64();
                assert((value as u16) as int == value + 0x10000) by (bit_vector)
                    requires
                        value < 0,
                ;
                lemma_negative_remap(value as int, (value as u16) as int, 16, width as nat);
            }
            match <Self as UintTryFrom<u16>>::uint_try_from(width, value as u16) {
                Ok(n) | Err(ToUintError::ValueTooLarge(_, n)) => Err(
                    ToUintError::ValueNegative(width, n),
                ),
                _ => vstd::pervasive::unreached(),
            }
        } else {
            <Self as UintTryFrom<u16>>::uint_try_from(width, value as u16)
        }
    }
}

impl UintTryFrom<i32> for Uint {
    open spec fn in_domain(width: nat, value: i32) -> bool {
        true
    }

    open spec fn from_outcome(width: nat, value: i32) -> ConvOutcome {
        int_from_outcome(value as int, 32, width)
    }

    fn uint_try_from(width: usize, value: i32) -> (r: Result<Uint, ToUintError>) {
        if value < 0 {
            proof {
                lemma2_to64();
                assert((value as u32) as int == value + 0x100000000) by (bit_vector)
                    requires
                        value < 0,
                ;
                lemma_negative_remap(value as int, (value as u32) as int, 32, width as nat);
            }
            match <Self as UintTryFrom<u32>>::uint_try_from(width, value as u32) {
                Ok(n) | Err(ToUintError::ValueTooLarge(_, n)) => Err(
                    ToUintError::ValueNegative(width, n),
                ),
                _ => vstd::pervasive::unreached(),
            }
        } else {
            <Self as UintTryFrom<u32>>::uint_try_from(width, value as u32)
        }
    }
}

impl UintTryFrom<i64> for Uint {
    open spec fn in_domain(width: nat, value: i64) -> bool {
        true
    }

    open spec fn from_outcome(width: nat, value: i64) -> ConvOutcome {
        int_from_outcome(value as int, 64, width)
    }

    fn uint_try_from(width: usize, value: i64) -> (r: Result<Uint, ToUintError>) {
        if value < 0 {
            proof {
                lemma2_to64();
                vstd::arithmetic::power2::lemma2_to64_rest();
                assert((value as u64) as int == value + 0x10000000000000000) by (bit_vector)
                    requires
                        value < 0,
                ;
                lemma_negative_remap(value as int, (value as u64) as int, 64, width as nat);
            }
            match <Self as UintTryFrom<u64>>::uint_try_from(width, value as u64) {
                Ok(n) | Err(ToUintError::ValueTooLarge(_, n)) => Err(
                    ToUintError::ValueNegative(width, n),
                ),
                _ => vstd::pervasive::unreached(),
            }
        } else {
            <Self as UintTryFrom<u64>>::uint_try_from(width, value as u64)
        }
    }
}

impl UintTryFrom<i128> for Uint {
    open spec fn in_domain(width: nat, value: i128) -> bool {
        true
    }

    open spec fn from_outcome(width: nat, value: i128) -> ConvOutcome {
        int_from_outcome(value as int, 128, width)
    }

    fn uint_try_from(width: usize, value: i128) -> (r: Result<Uint, ToUintError>) {
        if value < 0 {
            proof {
                lemma2_to64();
                vstd::arithmetic::power2::lemma2_to64_rest();
                lemma_pow2_adds(64, 64);
                assert((value as u128) as int == value + 0x100000000000000000000000000000000)
                    by (bit_vector)
                    requires
                        value < 0,
                ;
                lemma_negative_remap(value as int, (value as u128) as int, 128, width as nat);
            }
            match <Self as UintTryFrom<u128>>::uint_try_from(width, value as u128) {
                Ok(n) | Err(ToUintError::ValueTooLarge(_, n)) => Err(
                    ToUintError::ValueNegative(width, n),
                ),
                _ => vstd::pervasive::unreached(),
            }
        } else {
            <Self as UintTryFrom<u128>>::uint_try_from(width, value as u128)
        }
    }
}

impl UintTryFrom<isize> for Uint {
    open spec fn in_domain(width: nat, value: isize) -> bool {
        true
    }

    open spec fn from_outcome(width: nat, value: isize) -> ConvOutcome {
        int_from_outcome(value as int, usize::BITS as nat, width)
    }

    fn uint_try_from(width: usize, value: isize) -> (r: Result<Uint, ToUintError>) {
        if value < 0 {
            proof {
                lemma2_to64();
                vstd::arithmetic::power2::lemma2_to64_rest();
                if usize::BITS == 64 {
                    assert((value as usize) as int == value + 0x10000000000000000) by (bit_vector)
                        requires
                            value < 0,
                            usize::BITS == 64,
                    ;
                } else {
                    assert((value as usize) as int == value + 0x100000000) by (bit_vector)
                        requires
                            value < 0,
                            usize::BITS == 32,
                    ;
                }
                lemma_negative_remap(
                    value as int,
                    (value as usize) as int,
                    usize::BITS as nat,
                    width as nat,
                );
            }
            match <Self as UintTryFrom<usize>>::uint_try_from(width, value as usize) {
                Ok(n) | Err(ToUintError::ValueTooLarge(_, n)) => Err(
                    ToUintError::ValueNegative(width, n),
                ),
                _ => vstd::pervasive::unreached(),
            }
        } else {
            <Self as UintTryFrom<usize>>::uint_try_from(width, value as usize)
        }
    }
}

impl UintTryFrom<u64> for Uint {
    open spec fn in_domain(width: nat, value: u64) -> bool {
        true
    }

    open spec fn from_outcome(width: nat, value: u64) -> ConvOutcome {
        int_from_outcome(value as int, 64, width)
    }

    fn uint_try_from(width: usize, value: u64) -> (r: Result<Uint, ToUintError>) {
        Self::from_u64(width, value)
    }
}

impl UintTryFrom<Uint> for Uint {
    open spec fn in_domain(width: nat, value: Uint) -> bool {
        value.wf()
    }

    open spec fn from_outcome(width: nat, value: Uint) -> ConvOutcome {
        int_from_outcome(value@ as int, value.width as nat, width)
    }

    fn uint_try_from(width: usize, value: Uint) -> (r: Result<Uint, ToUintError>) {
        proof {
            crate::outcome::lemma_outcome_nonneg(
                value@ as int,
                value.width as nat,
                value.width as nat,
                width as nat,
            );
        }
        let (n, overflow) = Self::overflowing_from_uint(width, &value);
        if overflow {
            Err(ToUintError::ValueTooLarge(width, n))
        } else {
            proof {
                vstd::arithmetic::div_mod::lemma_small_mod(value@, pow2(width as nat));
            }
            Ok(n)
        }
    }
}

} // verus!
