use uintconv::{ToUintError, Uint, UintTryFrom};

#[test]
fn test_saturating_policy() {
    assert_eq!(
        Uint::saturating_from(8, 300_u16),
        Uint::from_limbs(8, vec![255])
    );
    assert_eq!(Uint::saturating_from(8, -10_i16), Uint::zero(8));
    assert_eq!(Uint::saturating_from(8, 255_u16), Uint::max(8));
    assert_eq!(
        Uint::saturating_from(200, u64::MAX),
        Uint::from_limbs(200, vec![u64::MAX, 0, 0, 0])
    );
}

#[test]
fn test_wrapping_policy() {
    assert_eq!(
        Uint::wrapping_from(8, 300_u16),
        Uint::from_limbs(8, vec![44])
    );
    assert_eq!(
        Uint::wrapping_from(8, -10_i16),
        Uint::from_limbs(8, vec![246])
    );
    assert_eq!(
        Uint::wrapping_from(8, 1000_u64),
        Uint::from_limbs(8, vec![1000 % 256])
    );
    // a negative source into a wider destination keeps only the
    // zero-extended pattern of its own type
    assert_eq!(
        Uint::wrapping_from(64, -10_i8),
        Uint::from_limbs(64, vec![246])
    );
}

#[test]
fn test_strict_policy() {
    assert_eq!(Uint::from(16, 142_u16), Uint::from_limbs(16, vec![142]));
    assert_eq!(
        Uint::uint_try_from(16, 70000_u32),
        Err(ToUintError::ValueTooLarge(
            16,
            Uint::from_limbs(16, vec![70000 % 65536])
        ))
    );
}

#[test]
fn test_round_trip_scenarios() {
    // in and back out at the same width, for several source types
    let a = Uint::from(12, 300_u16);
    assert_eq!(a.to::<u16>(), 300);
    let b = Uint::from(64, u64::MAX);
    assert_eq!(b.to::<u64>(), u64::MAX);
    let c = Uint::from(90, 77_u8);
    assert_eq!(c.to::<u8>(), 77);
    let d = Uint::from(128, 0x0123_4567_89ab_cdef_u128 << 32);
    assert_eq!(d.to::<u128>(), 0x0123_4567_89ab_cdef_u128 << 32);
}
