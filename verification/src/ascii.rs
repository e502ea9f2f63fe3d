//! Named ASCII bytes.

use vstd::prelude::*;

verus! {

pub const SPACE: u8 = 0x20;

pub const BANG: u8 = 0x21;

pub const HASH: u8 = 0x23;

pub const DOLLAR: u8 = 0x24;

pub const PERCENT: u8 = 0x25;

pub const AMPERSAND: u8 = 0x26;

pub const APOSTROPHE: u8 = 0x27;

pub const PAREN_OPEN: u8 = 0x28;

pub const PAREN_CLOSE: u8 = 0x29;

pub const STAR: u8 = 0x2A;

pub const PLUS: u8 = 0x2B;

pub const COMMA: u8 = 0x2C;

pub const HYPHEN: u8 = 0x2D;

pub const DOT: u8 = 0x2E;

pub const SLASH: u8 = 0x2F;

pub const DIGIT_0: u8 = 0x30;

pub const DIGIT_9: u8 = 0x39;

pub const COLON: u8 = 0x3A;

pub const SEMICOLON: u8 = 0x3B;

pub const EQUALS: u8 = 0x3D;

pub const QUESTION: u8 = 0x3F;

pub const AT_SIGN: u8 = 0x40;

pub const UPPER_A: u8 = 0x41;

pub const UPPER_E: u8 = 0x45;

pub const UPPER_F: u8 = 0x46;

pub const UPPER_G: u8 = 0x47;

pub const UPPER_R: u8 = 0x52;

pub const UPPER_Z: u8 = 0x5A;

pub const UNDERSCORE: u8 = 0x5F;

pub const LOWER_A: u8 = 0x61;

pub const LOWER_F: u8 = 0x66;

pub const LOWER_H: u8 = 0x68;

pub const LOWER_P: u8 = 0x70;

pub const LOWER_S: u8 = 0x73;

pub const LOWER_T: u8 = 0x74;

pub const LOWER_Z: u8 = 0x7A;

pub const TILDE: u8 = 0x7E;

} // verus!
