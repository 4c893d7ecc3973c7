use uintconv::{F64Bits, ToUintError, Uint, UintTryFrom};

#[test]
fn test_decode_rounds_to_nearest_even() {
    assert_eq!(
        Uint::from_f64_bits(64, 3.145_f64.to_bits()),
        Ok(Uint::from_limbs(64, vec![3]))
    );
    assert_eq!(
        Uint::from_f64_bits(64, 2.5_f64.to_bits()),
        Ok(Uint::from_limbs(64, vec![2]))
    );
    assert_eq!(
        Uint::from_f64_bits(64, 3.5_f64.to_bits()),
        Ok(Uint::from_limbs(64, vec![4]))
    );
    assert_eq!(
        Uint::from_f64_bits(64, 0.499_f64.to_bits()),
        Ok(Uint::zero(64))
    );
}

#[test]
fn test_decode_edges() {
    // every negative value takes the "below one half" exit to zero
    assert_eq!(
        Uint::from_f64_bits(8, (-10.0_f64).to_bits()),
        Ok(Uint::zero(8))
    );
    // a value in [0.5, 1) reports a negative outcome carrying zero
    assert_eq!(
        Uint::from_f64_bits(8, 0.7_f64.to_bits()),
        Err(ToUintError::ValueNegative(8, Uint::zero(8)))
    );
    // too large for the width: saturating outcome embedded in the error
    assert_eq!(
        Uint::from_f64_bits(8, 256.0_f64.to_bits()),
        Err(ToUintError::ValueTooLarge(8, Uint::max(8)))
    );
    assert_eq!(
        Uint::from_f64_bits(64, f64::INFINITY.to_bits()),
        Err(ToUintError::ValueTooLarge(64, Uint::max(64)))
    );
    // a NaN pattern has the top exponent, so a 64-bit width rejects it as
    // too large, exactly as the hardware-conversion path does
    assert_eq!(
        Uint::from_f64_bits(64, f64::NAN.to_bits()),
        Err(ToUintError::ValueTooLarge(64, Uint::max(64)))
    );
}

#[test]
fn test_decode_large_exact() {
    // 2^70 is exactly representable and needs two limbs
    let bits = (70.0_f64).exp2().to_bits();
    assert_eq!(
        Uint::from_f64_bits(128, bits),
        Ok(Uint::from_limbs(128, vec![0, 1 << 6]))
    );
    // through the dispatch trait and the policies
    assert_eq!(
        Uint::saturating_from(128, F64Bits(bits)),
        Uint::from_limbs(128, vec![0, 1 << 6])
    );
    assert_eq!(
        Uint::saturating_from(8, F64Bits(bits)),
        Uint::max(8)
    );
    // too-large values carry the saturated maximum in the error, so the
    // wrapping policy hands that maximum back
    assert_eq!(Uint::wrapping_from(8, F64Bits(bits)), Uint::max(8));
    assert_eq!(
        Uint::saturating_from(64, F64Bits(f64::NAN.to_bits())),
        Uint::max(64)
    );
    assert_eq!(
        Uint::saturating_from(64, F64Bits((-7.5_f64).to_bits())),
        Uint::zero(64)
    );
}

#[test]
fn test_encode_matches_hardware() {
    for k in [0_u64, 1, 2, 3, 123, 124, 255, 256, 4095, 1 << 52, u64::MAX >> 11] {
        let v = Uint::from(64, k);
        assert_eq!(v.to_f64_bits(), (k as f64).to_bits(), "k = {k}");
    }
    // values beyond 53 bits round to nearest, ties to even
    for k in [
        u64::MAX,
        (1_u64 << 53) + 1,
        (1_u64 << 53) + 2,
        (1_u64 << 53) + 3,
        0x8000_0000_0000_0801,
        0xFFFF_FFFF_FFFF_FC00,
    ] {
        let v = Uint::from(64, k);
        assert_eq!(v.to_f64_bits(), (k as f64).to_bits(), "k = {k}");
    }
}

#[test]
fn test_encode_wide_values() {
    // 2^70 encodes exactly
    let v = Uint::from_limbs(128, vec![0, 1 << 6]);
    assert_eq!(v.to_f64_bits(), (70.0_f64).exp2().to_bits());
    // a 1100-bit value saturates to the +infinity pattern
    let mut limbs = vec![0_u64; 18];
    limbs[17] = 1 << 11;
    let huge = Uint::from_limbs(1136, limbs);
    assert_eq!(huge.to_f64_bits(), 0x7FF0_0000_0000_0000);
    // zero encodes as the zero pattern
    assert_eq!(Uint::zero(1136).to_f64_bits(), 0);
    // the first width past the finite range: 2^1024 + 2^1023 is beyond the
    // largest finite binary64 and must also saturate, not leak a NaN pattern
    let mut limbs2 = vec![0_u64; 17];
    limbs2[16] = 1;
    limbs2[15] = 1 << 63;
    let just_past = Uint::from_limbs(1025, limbs2);
    assert_eq!(just_past.to_f64_bits(), 0x7FF0_0000_0000_0000);
    // a bit length of exactly 1024 still rounds: all-ones carries up to +inf
    assert_eq!(Uint::max(1024).to_f64_bits(), 0x7FF0_0000_0000_0000);
    // ... while a clean power in range stays finite: 2^1023
    let mut limbs3 = vec![0_u64; 16];
    limbs3[15] = 1 << 63;
    let top_finite = Uint::from_limbs(1024, limbs3);
    assert_eq!(top_finite.to_f64_bits(), 0x7FE0_0000_0000_0000);
}

#[test]
fn test_float_round_trip_scenario() {
    // integers with at most 53 significant bits survive the round trip
    for k in [1_u64, 2, 123, 124, 4096, (1 << 53) - 1, 1 << 60] {
        let bits = (k as f64).to_bits();
        let v = Uint::from_f64_bits(64, bits).unwrap();
        assert_eq!(v.to::<u64>(), k);
        assert_eq!(v.to_f64_bits(), bits, "k = {k}");
    }
}
