//! Named ASCII byte values, used throughout the wire-level encodings.

use vstd::prelude::*;

verus! {

pub const DIGIT_0: u8 = 48;

pub const DIGIT_9: u8 = 57;

pub const UPPER_A: u8 = 65;

pub const UPPER_F: u8 = 70;

pub const UPPER_Z: u8 = 90;

pub const LOWER_A: u8 = 97;

pub const LOWER_F: u8 = 102;

pub const LOWER_Z: u8 = 122;

pub const SPACE: u8 = 32;

pub const STAR: u8 = 42;

pub const PLUS: u8 = 43;

pub const HYPHEN: u8 = 45;

pub const DOT: u8 = 46;

pub const PERCENT: u8 = 37;

pub const AMPERSAND: u8 = 38;

pub const EQUALS: u8 = 61;

pub const QUESTION: u8 = 63;

pub const COLON: u8 = 58;

pub const UNDERSCORE: u8 = 95;

pub const LBRACE: u8 = 123;

pub const RBRACE: u8 = 125;

} // verus!
