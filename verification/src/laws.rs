//! The laws of the conversion layer: round-trip, saturation, wrapping and
//! float round-trip, stated over the same outcome functions that the
//! executable conversions are specified with.

use crate::arith::{bit_len_of, lemma_bit_len_exact, lemma_bit_len_shift};
use crate::float::{
    f64_abs, f64_biased_exp, f64_bits_spec, f64_from_outcome, f64_round_up, f64_sign,
    f64_significand, round_shift_even,
};
use crate::outcome::{
    int_from_outcome, saturated_of, to_native_outcome, wrapped_of, ConvOutcome, ToOutcome,
};
use vstd::arithmetic::power2::{lemma2_to64, lemma_pow2_adds, lemma_pow2_pos, pow2};
use vstd::prelude::*;

verus! {

/// Round-trip law: a native integer that is exactly representable in the
/// target width converts in strictly to that exact value, and converting
/// the value back out strictly returns the original, whatever the pattern
/// width `tw` of the source type and the bounds of the target type.
pub proof fn lemma_round_trip(x: int, tw: nat, w: nat, bw: nat, tw2: nat, mx: int, signed: bool)
    requires
        0 <= x < pow2(w),
        x <= mx,
    ensures
        int_from_outcome(x, tw, w) == ConvOutcome::Fits(x as nat),
        to_native_outcome(x as nat, bw, tw2, mx, signed) == ToOutcome::Fits(x),
{
}

/// Saturation law: the saturating policy sends any too-large source to the
/// width's largest value, and any negative source into the unsigned
/// destination to zero.
pub proof fn lemma_saturation(x: int, tw: nat, w: nat)
    ensures
        x >= pow2(w) ==> saturated_of(int_from_outcome(x, tw, w), w) == (pow2(w) - 1) as nat,
        x < 0 ==> saturated_of(int_from_outcome(x, tw, w), w) == 0,
{
}

/// Wrapping law: the wrapping policy reduces a non-negative source modulo
/// `2^width`, and a negative source to `(2^width + x) mod 2^width`, as long
/// as the destination is no wider than the source's two's-complement
/// pattern (a negative source into a wider destination keeps only its
/// zero-extended pattern).
pub proof fn lemma_wrapping(x: int, tw: nat, w: nat)
    requires
        x < 0 ==> w <= tw,
    ensures
        x >= 0 ==> wrapped_of(int_from_outcome(x, tw, w)) == x % pow2(w) as int,
        x < 0 ==> wrapped_of(int_from_outcome(x, tw, w)) == (pow2(w) + x) % pow2(w) as int,
{
    lemma_pow2_pos(w);
    lemma_pow2_pos(tw);
    if x >= 0 {
        crate::outcome::lemma_outcome_nonneg(x, tw, tw, w);
    } else {
        lemma_pow2_pos((tw - w) as nat);
        lemma_pow2_adds(w, (tw - w) as nat);
        vstd::arithmetic::div_mod::lemma_mod_mod(x, pow2(w) as int, pow2((tw - w) as nat) as int);
        vstd::arithmetic::div_mod::lemma_mod_add_multiples_vanish(x, pow2(w) as int);
    }
}

/// Float round-trip law: a binary64 pattern that encodes a positive finite
/// value which is exactly an integer below the width decodes strictly to
/// that integer, and the bit-exact encoder applied to the integer
/// reproduces the original pattern.  (Such integers are exactly the ones
/// representable with at most 53 significant bits.)
#[verifier::rlimit(100)]
pub proof fn lemma_float_round_trip(w: nat, bits: u64)
    requires
        f64_sign(bits) == 0,
        1023 <= f64_biased_exp(bits) <= 2046,
        f64_biased_exp(bits) - 1023 < w,
        f64_biased_exp(bits) < 1075 ==> f64_significand(bits) % pow2(
            (1075 - f64_biased_exp(bits)) as nat,
        ) == 0,
    ensures
        f64_from_outcome(w, bits) matches ConvOutcome::Fits(v) && f64_bits_spec(v) == bits,
{
    lemma2_to64();
    vstd::arithmetic::power2::lemma2_to64_rest();
    let e0 = f64_biased_exp(bits);
    let e = (e0 - 1023) as nat;
    let sig = f64_significand(bits);
    let abs = f64_abs(bits);
    lemma_pow2_pos(63);
    vstd::arithmetic::div_mod::lemma_fundamental_div_mod(bits as int, pow2(63) as int);
    assert(bits as nat == abs);
    vstd::arithmetic::div_mod::lemma_fundamental_div_mod(abs as int, pow2(52) as int);
    vstd::arithmetic::div_mod::lemma_mod_bound(abs as int, pow2(52) as int);
    assert(abs == pow2(52) * e0 + (sig - pow2(52)));
    assert(pow2(52) <= sig < pow2(53));
    // the pattern is finite, positive and at least one: not "< 0.5"
    assert(abs >= pow2(52) * 1023) by (nonlinear_arith)
        requires
            abs == pow2(52) * e0 + (sig - pow2(52)),
            e0 >= 1023,
            sig >= pow2(52),
    ;
    assert(abs <= pow2(52) * 2046 + (pow2(52) - 1)) by (nonlinear_arith)
        requires
            abs == pow2(52) * e0 + (sig - pow2(52)),
            e0 <= 2046,
            sig < pow2(53),
            pow2(53) == 2 * pow2(52),
    ;
    assert(!crate::float::f64_lt_half(bits));
    // the decoded integer
    let v = if e < 52 {
        round_shift_even(sig, (52 - e) as nat)
    } else {
        sig * pow2((e - 52) as nat)
    };
    if e < 52 {
        let sh = (52 - e) as nat;
        lemma_pow2_pos(sh);
        lemma_pow2_pos((sh - 1) as nat);
        assert(sig % pow2(sh) == 0);
        assert(v == sig / pow2(sh));
        vstd::arithmetic::div_mod::lemma_fundamental_div_mod(sig as int, pow2(sh) as int);
        assert(sig == pow2(sh) * (sig / pow2(sh)));
        // v * 2^sh == sig, so v has exactly e + 1 bits
        lemma_bit_len_exact(sig, 52);
        assert(v >= 1) by {
            if v == 0 {
                assert(sig == 0) by (nonlinear_arith)
                    requires
                        sig == pow2(sh) * (sig / pow2(sh)),
                        sig / pow2(sh) == 0,
                ;
            }
        }
        vstd::arithmetic::mul::lemma_mul_is_commutative(pow2(sh) as int, v as int);
        lemma_bit_len_shift(v, sh);
        assert(bit_len_of(sig) == bit_len_of(v) + sh);
        assert(bit_len_of(v) == e + 1);
        // the encoder's significand is the original one
        assert(f64_bits_spec(v) == (1021 + (e + 1)) * pow2(52) + v * pow2(
            (53 - (e + 1)) as nat,
        ));
        assert(v * pow2((52 - e) as nat) == sig);
    } else {
        let sh = (e - 52) as nat;
        lemma_pow2_pos(sh);
        lemma_bit_len_exact(sig, 52);
        lemma_bit_len_shift(sig, sh);
        assert(bit_len_of(v) == 53 + sh);
        assert(bit_len_of(v) == e + 1);
        assert(1021 + (e + 1) < 0x7FF);
        if e + 1 >= 54 {
            // dropped bits are all zero: no rounding on re-encoding
            vstd::arithmetic::mul::lemma_mul_is_commutative(sig as int, pow2(sh) as int);
            vstd::arithmetic::div_mod::lemma_div_multiples_vanish(sig as int, pow2(sh) as int);
            assert(v / pow2(sh) == sig);
            assert(v % pow2(sh) == 0) by {
                vstd::arithmetic::div_mod::lemma_mod_multiples_basic(sig as int, pow2(sh) as int);
            }
            // guard bit: v / 2^(sh - 1) == 2 * sig, an even number
            assert(sh >= 1);
            lemma_pow2_adds((sh - 1) as nat, 1);
            assert(v == (pow2((sh - 1) as nat) * (2 * sig)) as int) by (nonlinear_arith)
                requires
                    v == sig * pow2(sh),
                    pow2(sh) == pow2((sh - 1) as nat) * pow2(1),
                    pow2(1) == 2,
            ;
            vstd::arithmetic::div_mod::lemma_div_multiples_vanish(
                (2 * sig) as int,
                pow2((sh - 1) as nat) as int,
            );
            assert(v / pow2((sh - 1) as nat) == 2 * sig);
            assert((2 * sig) % 2 == 0) by {
                vstd::arithmetic::div_mod::lemma_mod_multiples_basic(sig as int, 2);
                vstd::arithmetic::mul::lemma_mul_is_commutative(sig as int, 2);
            }
            assert(v % pow2(((e + 1) - 54) as nat) == 0) by {
                lemma_pow2_pos(((e + 1) - 54) as nat);
                lemma_pow2_adds(((e + 1) - 54) as nat, 1);
                vstd::arithmetic::div_mod::lemma_mod_mod(
                    v as int,
                    pow2(((e + 1) - 54) as nat) as int,
                    2,
                );
                assert((v as int) % ((pow2(((e + 1) - 54) as nat) * 2) as int) == 0) by {
                    lemma_pow2_pos(sh);
                    assert(pow2(sh) == pow2(((e + 1) - 54) as nat) * 2);
                    assert(v % pow2(sh) == 0);
                }
                vstd::arithmetic::div_mod::lemma_small_mod(0, pow2(((e + 1) - 54) as nat));
            }
            assert(((e + 1) - 54) as nat == (sh - 1) as nat);
            assert((v / pow2(((e + 1) - 54) as nat)) % 2 == 0);
            assert(f64_round_up(v, (e + 1) as nat) == 0);
        }
        assert(v >= 1) by (nonlinear_arith)
            requires
                v == sig * pow2(sh),
                sig >= 1,
                pow2(sh) >= 1,
        ;
        if e == 52 {
            vstd::arithmetic::div_mod::lemma_div_basics(v as int);
            assert(pow2(((e + 1) - 53) as nat) == 1);
            assert(v == sig * pow2((e - 52) as nat));
            assert(pow2((e - 52) as nat) == 1);
            assert(sig * pow2((e - 52) as nat) == sig * 1) by (nonlinear_arith)
                requires
                    pow2((e - 52) as nat) == 1,
            ;
            assert(v == sig);
            assert(v / pow2(((e + 1) - 53) as nat) == sig);
        } else {
            assert(((e + 1) - 53) as nat == sh);
            assert(v / pow2(((e + 1) - 53) as nat) == sig);
        }
        assert(f64_bits_spec(v) == (1021 + (e + 1)) * pow2(52) + sig);
    }
    // both sides are the exponent field plus the significand
    assert((1022 + e) * pow2(52) + sig == pow2(52) * e0 + (sig - pow2(52))) by (nonlinear_arith)
        requires
            e0 == e + 1023,
            sig >= pow2(52),
    ;
}

/// Totality of the encoder at the top of the range: any value whose bit
/// length lies beyond the representable exponent range yields the
/// positive-infinity pattern.  (The encoder itself is total: it accepts
/// every well-formed value.)
pub proof fn lemma_encoder_saturates(v: nat)
    requires
        bit_len_of(v) >= 1025,
    ensures
        f64_bits_spec(v) == 0x7FF0000000000000,
{
    assert(v != 0) by {
        if v == 0 {
            assert(bit_len_of(0) == 0);
        }
    }
}

} // verus!

