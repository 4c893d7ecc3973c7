//! Conversions for a fixed-width unsigned big integer.
//!
//! The [`Uint`] type stores an unsigned integer of an arbitrary bit width as a
//! little-endian sequence of 64-bit limbs.  This crate provides conversions
//! between `Uint` and the native integer types, between differently sized
//! `Uint` values, and between `Uint` and the IEEE-754 binary64 bit format,
//! under three policies: strict (error on loss), saturating (clamp) and
//! wrapping (modular reduction).

pub mod arith;
pub mod errors;
pub mod float;
pub mod from_native;
pub mod laws;
pub mod limbs;
pub mod outcome;
pub mod to_native;
pub mod uint;

pub use errors::{FromUintError, ToFieldError, ToUintError};
pub use float::F64Bits;
pub use from_native::UintTryFrom;
pub use to_native::UintTryTo;
pub use uint::Uint;
