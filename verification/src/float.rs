//! Conversions between [`Uint`] and the IEEE-754 binary64 bit format.
//!
//! Both directions work on raw bit patterns (`u64`), so they are pure
//! integer functions: the decoder reproduces hardware float-to-integer
//! conversion bit for bit, and the encoder derives the binary64 pattern of a
//! value directly from its limbs with exact round-to-nearest-ties-to-even,
//! never relying on the host's floating-point rounding.

use crate::arith::{bit_len_of, lemma_bit_len_bounds, lemma_bit_len_div, lemma_pow2_le};
use crate::errors::ToUintError;
use crate::outcome::{from_result_matches, ConvOutcome};
use crate::uint::Uint;
use vstd::arithmetic::power2::{lemma2_to64, lemma_pow2_adds, lemma_pow2_pos, pow2};
use vstd::prelude::*;

verus! {

/// The raw bit pattern of an IEEE-754 binary64 value.
#[derive(Clone, Copy, Debug, PartialEq, Eq, Hash)]
pub struct F64Bits(pub u64);

/// The sign bit of a binary64 pattern.
pub open spec fn f64_sign(bits: u64) -> nat {
    (bits as nat) / pow2(63)
}

/// The pattern with the sign bit cleared.
pub open spec fn f64_abs(bits: u64) -> nat {
    (bits as nat) % pow2(63)
}

/// The biased exponent field.
pub open spec fn f64_biased_exp(bits: u64) -> nat {
    f64_abs(bits) / pow2(52)
}

/// The 53-bit significand with the implicit leading one appended.
pub open spec fn f64_significand(bits: u64) -> nat {
    f64_abs(bits) % pow2(52) + pow2(52)
}

/// Whether the encoded value compares below one half.  Every negative
/// value does; a NaN does not.
pub open spec fn f64_lt_half(bits: u64) -> bool {
    if f64_abs(bits) > 0x7FF0000000000000 {
        false
    } else if f64_sign(bits) == 1 {
        true
    } else {
        f64_abs(bits) < 0x3FE0000000000000
    }
}

/// `sig / 2^sh`, rounded to nearest with ties to even (`sh >= 1`).
pub open spec fn round_shift_even(sig: nat, sh: nat) -> nat {
    let q = sig / pow2(sh);
    let rem = sig % pow2(sh);
    let half = pow2((sh - 1) as nat);
    if rem > half || (rem == half && q % 2 == 1) {
        q + 1
    } else {
        q
    }
}

/// Outcome of decoding a binary64 bit pattern into a `w`-bit `Uint`.
pub open spec fn f64_from_outcome(w: nat, bits: u64) -> ConvOutcome {
    let e0 = f64_biased_exp(bits);
    let sig = f64_significand(bits);
    if f64_lt_half(bits) {
        ConvOutcome::Fits(0)
    } else if e0 < 1023 || f64_sign(bits) == 1 {
        ConvOutcome::Negative(0)
    } else if e0 - 1023 >= w {
        ConvOutcome::TooLarge((pow2(w) - 1) as nat)
    } else if e0 - 1023 < 52 {
        ConvOutcome::Fits(round_shift_even(sig, (52 - (e0 - 1023)) as nat))
    } else {
        ConvOutcome::Fits(sig * pow2((e0 - 1023 - 52) as nat))
    }
}

/// The patterns the strict decoder accepts for a `w`-bit destination: a
/// value below the width that rounding would carry up to exactly `2^w` is
/// excluded, since the conversion could then neither succeed nor report a
/// wrapped value.
pub open spec fn f64_in_domain(w: nat, bits: u64) -> bool {
    f64_from_outcome(w, bits) matches ConvOutcome::Fits(v) ==> v < pow2(w)
}

impl Uint {
    /// Strict conversion from an IEEE-754 binary64 bit pattern, reproducing
    /// hardware float-to-integer conversion bit for bit.
    pub fn from_f64_bits(width: usize, bits: u64) -> (r: Result<Uint, ToUintError>)
        requires
            f64_in_domain(width as nat, bits),
        ensures
            from_result_matches(r, f64_from_outcome(width as nat, bits), width as nat),
    {
        proof {
            lemma2_to64();
            vstd::arithmetic::power2::lemma2_to64_rest();
        }
        let sign_bit: u64 = 0x8000_0000_0000_0000;
        let a_abs = bits & !sign_bit;
        let negative = (bits & sign_bit) != 0;
        proof {
            assert(bits & !0x8000000000000000u64 == bits % 0x8000000000000000) by (bit_vector);
            assert(((bits & 0x8000000000000000u64) != 0) <==> (bits / 0x8000000000000000 == 1))
                by (bit_vector);
        }
        // The original hardware-conversion path begins by sending everything
        // below one half to zero; every negative value takes this exit too.
        let lt_half = if a_abs > 0x7FF0000000000000 {
            false
        } else if negative {
            true
        } else {
            a_abs < 0x3FE0000000000000
        };
        if lt_half {
            return Ok(Self::zero(width));
        }
        // Break the pattern into biased exponent and 53-bit significand.
        proof {
            assert(1u64 << 52 == 0x10000000000000) by (bit_vector);
            vstd::bits::lemma_u64_shr_is_div(a_abs, 52);
            assert(a_abs & (((1u64 << 52) - 1) as u64) == a_abs % 0x10000000000000) by (bit_vector);
            assert((a_abs % 0x10000000000000) | 0x10000000000000 == (a_abs % 0x10000000000000)
                + 0x10000000000000) by (bit_vector);
        }
        let exponent0 = a_abs >> 52;
        let significand = (a_abs & ((1u64 << 52) - 1)) | (1u64 << 52);
        if exponent0 < 1023 || negative {
            return Err(ToUintError::ValueNegative(width, Self::zero(width)));
        }
        let exponent = (exponent0 - 1023) as usize;
        proof {
            assert(a_abs / 0x10000000000000 < 0x800) by (bit_vector)
                requires
                    a_abs == bits & !0x8000000000000000u64,
            ;
        }
        // A value (or infinity, or a NaN payload) at or beyond the width
        // saturates inside the error, so the saturating policy needs no
        // extra logic.
        if exponent >= width {
            return Err(ToUintError::ValueTooLarge(width, Self::max(width)));
        }
        if exponent < 52 {
            // Right-shift with round to nearest, ties to even.
            let shift = 52 - exponent;
            proof {
                vstd::bits::lemma_u64_pow2_no_overflow(shift as nat);
                vstd::bits::lemma_u64_shl_is_mul(1u64, shift as u64);
                assert((((1u64 << (shift as u64)) - 1) as u64) as nat == vstd::bits::low_bits_mask(
                    shift as nat,
                ));
                vstd::bits::lemma_u64_low_bits_mask_is_mod(significand, shift as nat);
                vstd::bits::lemma_u64_shr_is_div(significand, shift as u64);
                vstd::bits::lemma_u64_pow2_no_overflow((shift - 1) as nat);
                vstd::bits::lemma_u64_shl_is_mul(1u64, (shift - 1) as u64);
                let r0 = significand >> (shift as u64);
                assert(r0 & 1 == r0 % 2) by (bit_vector);
            }
            let mut r0 = significand >> (shift as u64);
            let remainder = significand & ((1u64 << (shift as u64)) - 1);
            let halfway = 1u64 << ((shift - 1) as u64);
            if remainder > halfway || (remainder == halfway && (r0 & 1) == 1) {
                r0 = r0 + 1;
            }
            proof {
                assert(r0 as nat == round_shift_even(
                    f64_significand(bits),
                    (52 - exponent) as nat,
                ));
                crate::outcome::lemma_outcome_nonneg(r0 as int, 64, 64, width as nat);
            }
            match Self::from_u64(width, r0) {
                Ok(u) => Ok(u),
                Err(_) => vstd::pervasive::unreached(),
            }
        } else {
            // Left-shift: the result is exact.
            proof {
                let sig = f64_significand(bits);
                let sh = (exponent - 52) as nat;
                lemma_pow2_pos(sh);
                lemma_pow2_adds(53, sh);
                assert(sig * pow2(sh) < pow2(53) * pow2(sh)) by (nonlinear_arith)
                    requires
                        sig < pow2(53),
                        pow2(sh) > 0,
                ;
                lemma_pow2_le((53 + sh) as nat, width as nat);
            }
            Ok(Self::shl_u64(width, significand, exponent - 52))
        }
    }
}

impl crate::from_native::UintTryFrom<F64Bits> for Uint {
    open spec fn in_domain(width: nat, value: F64Bits) -> bool {
        f64_in_domain(width, value.0)
    }

    open spec fn from_outcome(width: nat, value: F64Bits) -> ConvOutcome {
        f64_from_outcome(width, value.0)
    }

    fn uint_try_from(width: usize, value: F64Bits) -> (r: Result<Uint, ToUintError>) {
        Uint::from_f64_bits(width, value.0)
    }
}

/// The round-up increment of the encoder: one exactly when the guard bit is
/// set and either a sticky bit is set or the kept part is odd (`l >= 54`).
pub open spec fn f64_round_up(v: nat, l: nat) -> nat {
    let guard = (v / pow2((l - 54) as nat)) % 2;
    let sticky = v % pow2((l - 54) as nat) != 0;
    let odd = (v / pow2((l - 53) as nat)) % 2 == 1;
    if guard == 1 && (sticky || odd) {
        1
    } else {
        0
    }
}

/// The binary64 bit pattern the encoder derives for the value `v`: zero maps
/// to the zero pattern; a bit length beyond the representable exponent range
/// maps to the positive-infinity pattern; otherwise the exponent field and
/// the rounded 53-bit significand are combined by addition, so a rounding
/// carry out of the significand lands in the exponent field.
pub open spec fn f64_bits_spec(v: nat) -> nat {
    if v == 0 {
        0
    } else {
        let l = bit_len_of(v);
        if 1022 + l >= 0x7FF {
            0x7FF0000000000000
        } else {
            let a = if l >= 53 {
                v / pow2((l - 53) as nat)
            } else {
                v * pow2((53 - l) as nat)
            };
            let up = if l >= 54 {
                f64_round_up(v, l)
            } else {
                0
            };
            (1021 + l) * pow2(52) + a + up
        }
    }
}

impl Uint {
    /// The IEEE-754 binary64 bit pattern for this value, with exact round to
    /// nearest, ties to even.  This function is total: any value whose bit
    /// length exceeds the representable exponent range yields the
    /// positive-infinity pattern.
    #[must_use]
    pub fn to_f64_bits(&self) -> (r: u64)
        requires
            self.wf(),
        ensures
            r as nat == f64_bits_spec(self@),
    {
        // Special case zero.
        if self.is_zero() {
            return 0;
        }
        proof {
            lemma_bit_len_bounds(self@);
        }
        let l = self.bit_len();
        // Such a value is at least 2^1024, past the largest finite binary64:
        // the biased exponent would land at or beyond its top field value
        // once the hidden bit carries in, so saturate to +inf.
        if l >= 1025 {
            return 0x7FF0_0000_0000_0000;
        }
        let e: u64 = 1021 + (l as u64);
        proof {
            lemma2_to64();
            vstd::arithmetic::power2::lemma2_to64_rest();
        }
        // Extract the 53 significant bits (hidden bit included) into `a`.
        let a: u64 = if l >= 53 {
            proof {
                lemma_pow2_le((l - 53) as nat, (l - 1) as nat);
                lemma_bit_len_div(self@, (l - 53) as nat);
                lemma_bit_len_bounds(self@ / pow2((l - 53) as nat));
                vstd::arithmetic::div_mod::lemma_small_mod(
                    self@ / pow2((l - 53) as nat),
                    pow2(64),
                );
            }
            self.bits_window(l - 53)
        } else {
            proof {
                lemma_pow2_le(l as nat, 52);
                crate::limbs::lemma_limbs_val_first(self.limbs@);
                crate::uint::lemma_nlimbs_bounds(self.width as nat);
                vstd::arithmetic::div_mod::lemma_small_mod(self@, pow2(64));
                vstd::bits::lemma_u64_pow2_no_overflow((53 - l) as nat);
                lemma_pow2_adds(l as nat, (53 - l) as nat);
                assert(self@ * pow2((53 - l) as nat) < pow2(l as nat) * pow2((53 - l) as nat))
                    by (nonlinear_arith)
                    requires
                        self@ < pow2(l as nat),
                        pow2((53 - l) as nat) > 0,
                ;
                lemma_pow2_le((l + (53 - l)) as nat, 53);
                vstd::bits::lemma_u64_shl_is_mul(self.limbs@[0], (53 - l) as u64);
            }
            self.limbs[0] << ((53 - l) as u64)
        };
        proof {
            assert((a as nat) < pow2(53));
        }
        // Guard and sticky information for branchless rounding: the top bit
        // of `b` is the guard bit (the bit right below the kept 53), and the
        // low bit records whether any further dropped bit is set.
        let b: u64 = if l >= 54 {
            let g: u64 = if self.bit(l - 54) {
                1
            } else {
                0
            };
            let s: u64 = if self.low_bits_nonzero(l - 54) {
                1
            } else {
                0
            };
            proof {
                let gg = g;
                let ss = s;
                assert(((gg << 63) | ss) >> 63 == gg && ((gg << 63) | ss) & 1 == ss && ((gg << 63)
                    | ss) == ((((gg << 63) | ss) >> 63) << 63) | (((gg << 63) | ss) & 1))
                    by (bit_vector)
                    requires
                        gg <= 1,
                        ss <= 1,
                ;
            }
            (g << 63) | s
        } else {
            proof {
                assert(0u64 == ((0u64 >> 63) << 63) | (0u64 & 1) && 0u64 >> 63 == 0 && 0u64 & 1
                    == 0) by (bit_vector);
            }
            0
        };
        // Tie-to-even, branchless: add one exactly when rounding up.
        proof {
            let aa = a;
            let bb = b;
            assert(((bb >> 63) & !aa) <= bb) by (bit_vector);
            assert((((bb - ((bb >> 63) & !aa)) as u64) >> 63) == (if (bb >> 63) == 1 && ((bb
                & 1) == 1 || (aa & 1) == 1) {
                1u64
            } else {
                0u64
            })) by (bit_vector)
                requires
                    bb == ((bb >> 63) << 63) | (bb & 1),
            ;
            assert(aa & 1 == aa % 2) by (bit_vector);
            if l >= 54 {
                assert((b >> 63) == if ((self@ / pow2((l - 54) as nat)) % 2) == 1 {
                    1u64
                } else {
                    0u64
                });
                assert((b & 1) == if self@ % pow2((l - 54) as nat) != 0 {
                    1u64
                } else {
                    0u64
                });
                assert((self@ / pow2((l - 53) as nat)) % 2 == (a as nat) % 2);
            }
        }
        let m = a + ((b - ((b >> 63) & !a)) >> 63);
        // Combine with addition, so a rounded-up significand that overflows
        // carries into the exponent field.
        proof {
            if l >= 54 {
                assert(m as nat == a + f64_round_up(self@, l as nat));
            } else {
                assert(m == a);
            }
            vstd::bits::lemma_u64_shl_is_mul(e, 52);
            assert(((e << 52) + m) as nat == f64_bits_spec(self@));
        }
        (e << 52) + m
    }
}

} // verus!
