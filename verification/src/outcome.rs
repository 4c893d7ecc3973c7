//! The mathematical outcomes of conversions, shared by every source and
//! target type.  Contracts are stated over these ghost values, so the three
//! policies (strict, saturating, wrapping) have one uniform description.

use crate::errors::{FromUintError, ToUintError};
use crate::uint::Uint;
use vstd::arithmetic::power2::pow2;
use vstd::prelude::*;

verus! {

/// Outcome of a strict conversion into a `Uint`.
pub ghost enum ConvOutcome {
    /// The value is representable; carries the value itself.
    Fits(nat),
    /// The value is too large; carries the value reduced modulo `2^width`.
    TooLarge(nat),
    /// The source is negative; carries its two's-complement bit pattern
    /// reduced modulo `2^width`.
    Negative(nat),
    /// The source is an IEEE-754 NaN.
    NotNum,
}

/// Outcome of a strict conversion of the integer `x` into a `w`-bit `Uint`,
/// where the two's-complement bit pattern of `x` is `tw` bits wide.
pub open spec fn int_from_outcome(x: int, tw: nat, w: nat) -> ConvOutcome {
    if 0 <= x < pow2(w) {
        ConvOutcome::Fits(x as nat)
    } else if x >= 0 {
        ConvOutcome::TooLarge((x % pow2(w) as int) as nat)
    } else {
        ConvOutcome::Negative(((x % pow2(tw) as int) % pow2(w) as int) as nat)
    }
}

/// The value the wrapping policy draws from an outcome.
pub open spec fn wrapped_of(o: ConvOutcome) -> nat {
    match o {
        ConvOutcome::Fits(v) => v,
        ConvOutcome::TooLarge(v) => v,
        ConvOutcome::Negative(v) => v,
        ConvOutcome::NotNum => 0,
    }
}

/// The value the saturating policy draws from an outcome.
pub open spec fn saturated_of(o: ConvOutcome, w: nat) -> nat {
    match o {
        ConvOutcome::Fits(v) => v,
        ConvOutcome::TooLarge(_) => (pow2(w) - 1) as nat,
        ConvOutcome::Negative(_) => 0,
        ConvOutcome::NotNum => 0,
    }
}

/// How the result of a strict conversion into a `w`-bit `Uint` realises its
/// mathematical outcome.
pub open spec fn from_result_matches(r: Result<Uint, ToUintError>, o: ConvOutcome, w: nat) -> bool {
    match o {
        ConvOutcome::Fits(v) => r matches Ok(u) && u.wf() && u.width as nat == w && u@ == v,
        ConvOutcome::TooLarge(v) => r matches Err(ToUintError::ValueTooLarge(b, u)) && b as nat == w
            && u.wf() && u.width as nat == w && u@ == v,
        ConvOutcome::Negative(v) => r matches Err(ToUintError::ValueNegative(b, u)) && b as nat == w
            && u.wf() && u.width as nat == w && u@ == v,
        ConvOutcome::NotNum => r matches Err(ToUintError::NotANumber(b)) && b as nat == w,
    }
}

/// For a non-negative source, the outcome never involves the pattern width:
/// it fits below `2^w` and is `TooLarge` with the wrapped value otherwise.
pub proof fn lemma_outcome_nonneg(x: int, tw1: nat, tw2: nat, w: nat)
    requires
        x >= 0,
    ensures
        int_from_outcome(x, tw1, w) == int_from_outcome(x, tw2, w),
        wrapped_of(int_from_outcome(x, tw1, w)) == x % pow2(w) as int,
        !(int_from_outcome(x, tw1, w) matches ConvOutcome::Negative(_)),
        !(int_from_outcome(x, tw1, w) matches ConvOutcome::NotNum),
        (int_from_outcome(x, tw1, w) matches ConvOutcome::Fits(_)) <==> x < pow2(w),
{
    vstd::arithmetic::power2::lemma_pow2_pos(w);
    if x < pow2(w) {
        vstd::arithmetic::div_mod::lemma_small_mod(x as nat, pow2(w));
    }
}

/// The bit pattern of a negative source in its type's range is the source
/// plus `2^tw`, and the source's outcome is `Negative` with that pattern
/// reduced modulo `2^w`.
pub proof fn lemma_outcome_negative(x: int, tw: nat, w: nat)
    requires
        -pow2(tw) <= x < 0,
    ensures
        x % pow2(tw) as int == x + pow2(tw),
        int_from_outcome(x, tw, w) == ConvOutcome::Negative(
            (((x + pow2(tw)) % pow2(w) as int)) as nat,
        ),
{
    vstd::arithmetic::power2::lemma_pow2_pos(tw);
    vstd::arithmetic::power2::lemma_pow2_pos(w);
    vstd::arithmetic::div_mod::lemma_mod_add_multiples_vanish(x, pow2(tw) as int);
    vstd::arithmetic::div_mod::lemma_small_mod((x + pow2(tw)) as nat, pow2(tw));
}

/// Outcome of a strict conversion out of a `Uint` into a native type.
pub ghost enum ToOutcome {
    /// The value is representable; carries the value itself.
    Fits(int),
    /// The value overflows the target; carries the source width and the
    /// value truncated to the target's two's-complement pattern.
    Over(nat, int),
}

/// The two's-complement reading of `v mod 2^tw` in a target type of `tw`
/// pattern bits; `signed` tells whether the top pattern bit counts negative.
pub open spec fn wrap_to(v: nat, tw: nat, signed: bool) -> int {
    let p = v % pow2(tw);
    if signed && p >= pow2((tw - 1) as nat) {
        p - pow2(tw)
    } else {
        p as int
    }
}

/// Outcome of converting the value `v` of a `w`-bit `Uint` into a native
/// type with maximum `max` and a `tw`-bit pattern.
pub open spec fn to_native_outcome(v: nat, w: nat, tw: nat, max: int, signed: bool) -> ToOutcome {
    if v <= max {
        ToOutcome::Fits(v as int)
    } else {
        ToOutcome::Over(w, wrap_to(v, tw, signed))
    }
}

/// The value the wrapping policy draws from an outward outcome.
pub open spec fn wrapped_out_of(o: ToOutcome) -> int {
    match o {
        ToOutcome::Fits(v) => v,
        ToOutcome::Over(_, v) => v,
    }
}

/// The value the saturating policy draws from an outward outcome, given the
/// target's maximum.
pub open spec fn saturated_out_of(o: ToOutcome, max: int) -> int {
    match o {
        ToOutcome::Fits(v) => v,
        ToOutcome::Over(_, _) => max,
    }
}

/// How the result of a strict conversion out of a `Uint` realises its
/// mathematical outcome, reading produced target values through `t_int`.
pub open spec fn to_result_matches<T>(
    r: Result<T, FromUintError<T>>,
    o: ToOutcome,
    t_int: spec_fn(T) -> int,
    max: int,
) -> bool {
    match o {
        ToOutcome::Fits(v) => r matches Ok(t) && t_int(t) == v,
        ToOutcome::Over(bits, v) => r matches Err(FromUintError::Overflow(b, t, m)) && b as nat
            == bits && t_int(t) == v && t_int(m) == max,
    }
}

} // verus!
