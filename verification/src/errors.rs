//! The conversion failure values.  Each error carries enough context for
//! every policy to resolve it without recomputation.

use crate::uint::Uint;
use vstd::prelude::*;

verus! {

/// Error for a conversion into a [`Uint`].
#[derive(Clone, Debug, PartialEq, Eq, Hash)]
pub enum ToUintError {
    /// Value is too large to fit the Uint.
    ///
    /// `.0` is the width and `.1` is the wrapped (masked) value.
    ValueTooLarge(usize, Uint),
    /// Negative values can not be represented as Uint.
    ///
    /// `.0` is the width and `.1` is the wrapped (masked) value.
    ValueNegative(usize, Uint),
    /// 'Not a number' (NaN) can not be represented as Uint.
    NotANumber(usize),
}

/// Error for a conversion out of a [`Uint`] into a native type.
#[derive(Clone, Copy, Debug, PartialEq, Eq, Hash)]
pub enum FromUintError<T> {
    /// The Uint value is too large for the target type.
    ///
    /// `.0` is the width of the Uint, `.1` is the truncated value and
    /// `.2` is the maximum representable value of the target type.
    Overflow(usize, T, T),
}

/// Error for a conversion into a prime-field element.
#[derive(Debug, Clone, Copy)]
pub enum ToFieldError {
    /// Number is equal or larger than the target field modulus.
    NotInField,
}

} // verus!
