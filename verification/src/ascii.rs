//! Names of the ASCII bytes that the grammar and the formatter use.

use vstd::prelude::*;

verus! {

pub const BACKSPACE: u8 = 8;
pub const TAB: u8 = 9;
pub const LINE_FEED: u8 = 10;
pub const FORM_FEED: u8 = 12;
pub const CARRIAGE_RETURN: u8 = 13;
pub const SPACE: u8 = 32;
pub const QUOTE: u8 = 34;
pub const ASTERISK: u8 = 42;
pub const PLUS: u8 = 43;
pub const COMMA: u8 = 44;
pub const MINUS: u8 = 45;
pub const DOT: u8 = 46;
pub const SLASH: u8 = 47;
pub const DIGIT_ZERO: u8 = 48;
pub const DIGIT_ONE: u8 = 49;
pub const DIGIT_NINE: u8 = 57;
pub const COLON: u8 = 58;
pub const UPPER_A: u8 = 65;
pub const UPPER_E: u8 = 69;
pub const UPPER_F: u8 = 70;
pub const LEFT_BRACKET: u8 = 91;
pub const BACKSLASH: u8 = 92;
pub const RIGHT_BRACKET: u8 = 93;
pub const LOWER_A: u8 = 97;
pub const LOWER_B: u8 = 98;
pub const LOWER_E: u8 = 101;
pub const LOWER_F: u8 = 102;
pub const LOWER_L: u8 = 108;
pub const LOWER_N: u8 = 110;
pub const LOWER_R: u8 = 114;
pub const LOWER_S: u8 = 115;
pub const LOWER_T: u8 = 116;
pub const LOWER_U: u8 = 117;
pub const LEFT_BRACE: u8 = 123;
pub const RIGHT_BRACE: u8 = 125;
pub const DELETE: u8 = 127;

/// `u8::is_ascii_whitespace`: space, tab, line feed, form feed, carriage return.
pub open spec fn is_whitespace(c: u8) -> bool {
    c == SPACE || c == TAB || c == LINE_FEED || c == FORM_FEED || c == CARRIAGE_RETURN
}

/// `u8::is_ascii_control`: the bytes below space, and delete.
pub open spec fn is_control(c: u8) -> bool {
    c < SPACE || c == DELETE
}

pub open spec fn is_digit(c: u8) -> bool {
    DIGIT_ZERO <= c <= DIGIT_NINE
}

pub fn is_ascii_whitespace(c: u8) -> (r: bool)
    ensures
        r == is_whitespace(c),
{
    c == SPACE || c == TAB || c == LINE_FEED || c == FORM_FEED || c == CARRIAGE_RETURN
}

pub fn is_ascii_control(c: u8) -> (r: bool)
    ensures
        r == is_control(c),
{
    c < SPACE || c == DELETE
}

pub fn is_ascii_digit(c: u8) -> (r: bool)
    ensures
        r == is_digit(c),
{
    DIGIT_ZERO <= c && c <= DIGIT_NINE
}

} // verus!
