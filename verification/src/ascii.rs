//! The bytes that the wire format gives a meaning to.

use vstd::prelude::*;

verus! {

/// Carriage return, the first byte of the line terminator.
pub const CR: u8 = 13;

/// Line feed, the second byte of the line terminator.
pub const LF: u8 = 10;

/// `+`, before a simple string.
pub const PLUS: u8 = 43;

/// `-`, before an error, and the sign of a negative number.
pub const MINUS: u8 = 45;

/// `:`, before an integer.
pub const COLON: u8 = 58;

/// `$`, before a bulk string.
pub const DOLLAR: u8 = 36;

/// `*`, before an array.
pub const STAR: u8 = 42;

/// The digit `0`.
pub const ZERO: u8 = 48;

/// The digit `1`.
pub const ONE: u8 = 49;

/// The digit `9`.
pub const NINE: u8 = 57;

} // verus!
