//! The ASCII bytes that MiniMessage markup and its values are made of.
use vstd::prelude::*;

verus! {

pub const DIGIT_0: u8 = 48;
pub const DIGIT_9: u8 = 57;
pub const LOWER_A: u8 = 97;
pub const LOWER_F: u8 = 102;
pub const UPPER_A: u8 = 65;
pub const UPPER_F: u8 = 70;
pub const UPPER_Z: u8 = 90;
pub const HASH: u8 = 35;
pub const LESS: u8 = 60;
pub const GREATER: u8 = 62;
pub const COLON: u8 = 58;
pub const SLASH: u8 = 47;
pub const BACKSLASH: u8 = 92;
pub const DOUBLE_QUOTE: u8 = 34;
pub const SINGLE_QUOTE: u8 = 39;
pub const PLUS: u8 = 43;
pub const MINUS: u8 = 45;
pub const DOT: u8 = 46;
pub const BANG: u8 = 33;
pub const LOWER_E: u8 = 101;
pub const UPPER_E: u8 = 69;

} // verus!
