use uintconv::{FromUintError, ToUintError, Uint, UintTryFrom, UintTryTo};

const WIDTHS: [usize; 12] = [1, 2, 7, 8, 63, 64, 65, 127, 128, 256, 384, 4096];

#[test]
fn test_u64() {
    assert_eq!(Uint::uint_try_from(0, 0_u64), Ok(Uint::zero(0)));
    assert_eq!(
        Uint::uint_try_from(0, 1_u64),
        Err(ToUintError::ValueTooLarge(0, Uint::zero(0)))
    );
    for width in WIDTHS {
        assert_eq!(Uint::uint_try_from(width, 0_u64), Ok(Uint::zero(width)));
        assert_eq!(
            Uint::uint_try_from(width, 1_u64).unwrap().as_limbs()[0],
            1
        );
    }
}

#[test]
fn test_u64_max() {
    assert_eq!(
        Uint::uint_try_from(64, u64::MAX),
        Ok(Uint::from_limbs(64, vec![u64::MAX]))
    );
    assert_eq!(
        Uint::uint_try_from(64, u64::MAX as u128),
        Ok(Uint::from_limbs(64, vec![u64::MAX]))
    );
    assert_eq!(
        Uint::uint_try_from(64, u64::MAX as u128 + 1),
        Err(ToUintError::ValueTooLarge(64, Uint::zero(64)))
    );

    assert_eq!(
        Uint::uint_try_from(128, u64::MAX),
        Ok(Uint::from_limbs(128, vec![u64::MAX, 0]))
    );
    assert_eq!(
        Uint::uint_try_from(128, u64::MAX as u128),
        Ok(Uint::from_limbs(128, vec![u64::MAX, 0]))
    );
    assert_eq!(
        Uint::uint_try_from(128, u64::MAX as u128 + 1),
        Ok(Uint::from_limbs(128, vec![0, 1]))
    );
}

#[test]
fn test_u65() {
    let x = Uint::uint_try_from(65, 18446744073711518810_u128).unwrap();
    assert_eq!(x.bit_len(), 65);
    let r: Result<u64, FromUintError<u64>> = x.uint_try_to();
    assert_eq!(r, Err(FromUintError::Overflow(65, 1967194, u64::MAX)));
}

#[test]
fn test_f64() {
    assert_eq!(Uint::from_f64_bits(0, 0.0_f64.to_bits()), Ok(Uint::zero(0)));
    for width in WIDTHS {
        assert_eq!(
            Uint::from_f64_bits(width, 0.0_f64.to_bits()),
            Ok(Uint::zero(width))
        );
        assert_eq!(
            Uint::from_f64_bits(width, 1.0_f64.to_bits())
                .unwrap()
                .as_limbs()[0],
            1
        );
    }
    assert_eq!(
        Uint::from_f64_bits(7, 123.499_f64.to_bits()),
        Ok(Uint::from_limbs(7, vec![123]))
    );
    assert_eq!(
        Uint::from_f64_bits(7, 123.500_f64.to_bits()),
        Ok(Uint::from_limbs(7, vec![124]))
    );
}

#[test]
fn test_narrow_sources_zero_extend() {
    assert_eq!(
        Uint::uint_try_from(16, true),
        Ok(Uint::from_limbs(16, vec![1]))
    );
    assert_eq!(
        Uint::uint_try_from(16, 142_u8),
        Ok(Uint::from_limbs(16, vec![142]))
    );
    assert_eq!(
        Uint::uint_try_from(16, 142_u16),
        Ok(Uint::from_limbs(16, vec![142]))
    );
    assert_eq!(
        Uint::uint_try_from(16, 70000_u32),
        Err(ToUintError::ValueTooLarge(16, Uint::from_limbs(16, vec![70000 & 0xFFFF])))
    );
    assert_eq!(
        Uint::uint_try_from(16, 142_usize),
        Ok(Uint::from_limbs(16, vec![142]))
    );
}

#[test]
fn test_signed_sources() {
    assert_eq!(
        Uint::uint_try_from(8, 100_i16),
        Ok(Uint::from_limbs(8, vec![100]))
    );
    assert_eq!(
        Uint::uint_try_from(8, -10_i16),
        Err(ToUintError::ValueNegative(8, Uint::from_limbs(8, vec![246])))
    );
    assert_eq!(
        Uint::uint_try_from(64, -1_i64),
        Err(ToUintError::ValueNegative(64, Uint::from_limbs(64, vec![u64::MAX])))
    );
    assert_eq!(
        Uint::uint_try_from(128, -1_i128),
        Err(ToUintError::ValueNegative(
            128,
            Uint::from_limbs(128, vec![u64::MAX, u64::MAX])
        ))
    );
    assert_eq!(
        Uint::uint_try_from(16, -3_isize),
        Err(ToUintError::ValueNegative(
            16,
            Uint::from_limbs(16, vec![0xFFFD])
        ))
    );
}

#[test]
fn test_cross_width() {
    // growing keeps the value
    let small = Uint::uint_try_from(12, 300_u64).unwrap();
    let grown = Uint::uint_try_from(256, small.clone()).unwrap();
    assert_eq!(grown.width, 256);
    assert_eq!(grown.as_limbs(), &vec![300, 0, 0, 0]);
    // shrinking reports the truncated value
    let big = Uint::uint_try_from(256, 0x1337cafec0d3_u64).unwrap();
    assert_eq!(
        Uint::uint_try_from(32, big.clone()),
        Err(ToUintError::ValueTooLarge(32, Uint::from_limbs(32, vec![0xcafec0d3])))
    );
    assert_eq!(
        Uint::wrapping_from(32, big.clone()).as_limbs(),
        &vec![0xcafec0d3]
    );
    assert_eq!(Uint::saturating_from(32, big), Uint::max(32));
}

#[test]
fn test_from_uint_aliases() {
    let v = Uint::uint_try_from(65, 12345_u64).unwrap();
    let w = Uint::from_uint(128, v.clone());
    assert_eq!(w.as_limbs(), &vec![12345, 0]);
    assert_eq!(
        Uint::checked_from_uint(65, w.clone()),
        Some(Uint::from_limbs(65, vec![12345, 0]))
    );
    let big = Uint::max(65);
    assert_eq!(Uint::checked_from_uint(16, big), None);
}

#[test]
fn test_to_native_targets() {
    let v = Uint::uint_try_from(12, 300_u64).unwrap();
    assert_eq!(v.to::<i16>(), 300_i16);
    assert_eq!(v.to::<u16>(), 300_u16);
    assert_eq!(v.wrapping_to::<i8>(), 44_i8);
    assert_eq!(v.saturating_to::<i8>(), 127_i8);
    let w = Uint::uint_try_from(32, 255_u64).unwrap();
    assert_eq!(w.wrapping_to::<i8>(), -1_i8);
    let r: Result<i8, FromUintError<i8>> = w.uint_try_to();
    assert_eq!(r, Err(FromUintError::Overflow(32, -1, i8::MAX)));
    let big = Uint::uint_try_from(32, 256_u64).unwrap();
    let r2: Result<u8, FromUintError<u8>> = big.uint_try_to();
    assert_eq!(r2, Err(FromUintError::Overflow(32, 0, u8::MAX)));
}

#[test]
fn test_to_bool() {
    assert_eq!(Uint::zero(0).to::<bool>(), false);
    assert_eq!(Uint::zero(9).to::<bool>(), false);
    assert_eq!(Uint::uint_try_from(9, 1_u64).unwrap().to::<bool>(), true);
    let two = Uint::uint_try_from(9, 2_u64).unwrap();
    let r: Result<bool, FromUintError<bool>> = two.uint_try_to();
    assert_eq!(r, Err(FromUintError::Overflow(9, false, true)));
}

#[test]
fn test_to_128_bit_targets() {
    let v = Uint::uint_try_from(130, (1_u128 << 127) + 7).unwrap();
    assert_eq!(v.to::<u128>(), (1_u128 << 127) + 7);
    let r: Result<i128, FromUintError<i128>> = v.uint_try_to();
    assert_eq!(
        r,
        Err(FromUintError::Overflow(130, i128::MIN + 7, i128::MAX))
    );
    assert_eq!(v.saturating_to::<i128>(), i128::MAX);
    assert_eq!(v.wrapping_to::<i128>(), i128::MIN + 7);
    let big = Uint::max(130);
    let r2: Result<u128, FromUintError<u128>> = big.uint_try_to();
    assert_eq!(r2, Err(FromUintError::Overflow(130, u128::MAX, u128::MAX)));
}

#[test]
fn test_const_from_u64_saturates() {
    assert_eq!(Uint::const_from_u64(0, 5), Uint::zero(0));
    assert_eq!(Uint::const_from_u64(4, 300), Uint::max(4));
    assert_eq!(Uint::const_from_u64(4, 9), Uint::from_limbs(4, vec![9]));
    assert_eq!(
        Uint::const_from_u64(100, u64::MAX),
        Uint::from_limbs(100, vec![u64::MAX, 0])
    );
}
