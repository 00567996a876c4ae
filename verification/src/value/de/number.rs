//! Taking the number of a value as a Rust integer.

use vstd::prelude::*;

use crate::error::{ConvertError, ErrorKind, JsonWithCommentsError};
use crate::value::number::Number;

verus! {

/// The error of a number that cannot be taken as the requested type.
fn convert_error(e: ConvertError) -> (r: JsonWithCommentsError)
    ensures
        r@ == ErrorKind::Convert(e),
{
    JsonWithCommentsError::new(ErrorKind::Convert(e))
}

/// An integer type that the number of a value can be taken as.
pub trait FromNumber: Sized {
    /// Whether the integer `i` is a value of this type.
    spec fn fits(i: int) -> bool;

    /// The integer `i` as a value of this type.
    spec fn from_int(i: int) -> Self;

    /// The number as a value of this type: an integer that fits is taken as
    /// it is, one that does not fit is an error, and so is a float.
    fn from_number(number: &Number<i64, String>) -> (r: Result<Self, JsonWithCommentsError>)
        ensures
            match *number {
                Number::Integer(i) => if Self::fits(i as int) {
                    r == Ok::<Self, JsonWithCommentsError>(Self::from_int(i as int))
                } else {
                    r matches Err(e) && e@ == ErrorKind::Convert(ConvertError::InvalidIntegerConvert)
                },
                Number::Float(_) => r matches Err(e) && e@ == ErrorKind::Convert(
                    ConvertError::CannotConvertFloatToInteger,
                ),
            },
    ;
}

impl FromNumber for u8 {
    open spec fn fits(i: int) -> bool {
        0 <= i <= u8::MAX
    }

    open spec fn from_int(i: int) -> u8 {
        i as u8
    }

    fn from_number(number: &Number<i64, String>) -> (r: Result<u8, JsonWithCommentsError>) {
        match number {
            Number::Integer(i) => {
                if 0 <= *i && *i <= 255 {
                    Ok(*i as u8)
                } else {
                    Err(convert_error(ConvertError::InvalidIntegerConvert))
                }
            },
            Number::Float(_) => Err(convert_error(ConvertError::CannotConvertFloatToInteger)),
        }
    }
}

impl FromNumber for u16 {
    open spec fn fits(i: int) -> bool {
        0 <= i <= u16::MAX
    }

    open spec fn from_int(i: int) -> u16 {
        i as u16
    }

    fn from_number(number: &Number<i64, String>) -> (r: Result<u16, JsonWithCommentsError>) {
        match number {
            Number::Integer(i) => {
                if 0 <= *i && *i <= 65535 {
                    Ok(*i as u16)
                } else {
                    Err(convert_error(ConvertError::InvalidIntegerConvert))
                }
            },
            Number::Float(_) => Err(convert_error(ConvertError::CannotConvertFloatToInteger)),
        }
    }
}

impl FromNumber for u32 {
    open spec fn fits(i: int) -> bool {
        0 <= i <= u32::MAX
    }

    open spec fn from_int(i: int) -> u32 {
        i as u32
    }

    fn from_number(number: &Number<i64, String>) -> (r: Result<u32, JsonWithCommentsError>) {
        match number {
            Number::Integer(i) => {
                if 0 <= *i && *i <= 4294967295 {
                    Ok(*i as u32)
                } else {
                    Err(convert_error(ConvertError::InvalidIntegerConvert))
                }
            },
            Number::Float(_) => Err(convert_error(ConvertError::CannotConvertFloatToInteger)),
        }
    }
}

impl FromNumber for u64 {
    open spec fn fits(i: int) -> bool {
        0 <= i
    }

    open spec fn from_int(i: int) -> u64 {
        i as u64
    }

    fn from_number(number: &Number<i64, String>) -> (r: Result<u64, JsonWithCommentsError>) {
        match number {
            Number::Integer(i) => {
                if 0 <= *i {
                    Ok(*i as u64)
                } else {
                    Err(convert_error(ConvertError::InvalidIntegerConvert))
                }
            },
            Number::Float(_) => Err(convert_error(ConvertError::CannotConvertFloatToInteger)),
        }
    }
}

impl FromNumber for u128 {
    open spec fn fits(i: int) -> bool {
        0 <= i
    }

    open spec fn from_int(i: int) -> u128 {
        i as u128
    }

    fn from_number(number: &Number<i64, String>) -> (r: Result<u128, JsonWithCommentsError>) {
        match number {
            Number::Integer(i) => {
                if 0 <= *i {
                    Ok(*i as u128)
                } else {
                    Err(convert_error(ConvertError::InvalidIntegerConvert))
                }
            },
            Number::Float(_) => Err(convert_error(ConvertError::CannotConvertFloatToInteger)),
        }
    }
}

impl FromNumber for i8 {
    open spec fn fits(i: int) -> bool {
        i8::MIN <= i <= i8::MAX
    }

    open spec fn from_int(i: int) -> i8 {
        i as i8
    }

    fn from_number(number: &Number<i64, String>) -> (r: Result<i8, JsonWithCommentsError>) {
        match number {
            Number::Integer(i) => {
                if -128 <= *i && *i <= 127 {
                    Ok(*i as i8)
                } else {
                    Err(convert_error(ConvertError::InvalidIntegerConvert))
                }
            },
            Number::Float(_) => Err(convert_error(ConvertError::CannotConvertFloatToInteger)),
        }
    }
}

impl FromNumber for i16 {
    open spec fn fits(i: int) -> bool {
        i16::MIN <= i <= i16::MAX
    }

    open spec fn from_int(i: int) -> i16 {
        i as i16
    }

    fn from_number(number: &Number<i64, String>) -> (r: Result<i16, JsonWithCommentsError>) {
        match number {
            Number::Integer(i) => {
                if -32768 <= *i && *i <= 32767 {
                    Ok(*i as i16)
                } else {
                    Err(convert_error(ConvertError::InvalidIntegerConvert))
                }
            },
            Number::Float(_) => Err(convert_error(ConvertError::CannotConvertFloatToInteger)),
        }
    }
}

impl FromNumber for i32 {
    open spec fn fits(i: int) -> bool {
        i32::MIN <= i <= i32::MAX
    }

    open spec fn from_int(i: int) -> i32 {
        i as i32
    }

    fn from_number(number: &Number<i64, String>) -> (r: Result<i32, JsonWithCommentsError>) {
        match number {
            Number::Integer(i) => {
                if -2147483648 <= *i && *i <= 2147483647 {
                    Ok(*i as i32)
                } else {
                    Err(convert_error(ConvertError::InvalidIntegerConvert))
                }
            },
            Number::Float(_) => Err(convert_error(ConvertError::CannotConvertFloatToInteger)),
        }
    }
}

impl FromNumber for i64 {
    open spec fn fits(i: int) -> bool {
        true
    }

    open spec fn from_int(i: int) -> i64 {
        i as i64
    }

    fn from_number(number: &Number<i64, String>) -> (r: Result<i64, JsonWithCommentsError>) {
        match number {
            Number::Integer(i) => Ok(*i as i64),
            Number::Float(_) => Err(convert_error(ConvertError::CannotConvertFloatToInteger)),
        }
    }
}

impl FromNumber for i128 {
    open spec fn fits(i: int) -> bool {
        true
    }

    open spec fn from_int(i: int) -> i128 {
        i as i128
    }

    fn from_number(number: &Number<i64, String>) -> (r: Result<i128, JsonWithCommentsError>) {
        match number {
            Number::Integer(i) => Ok(*i as i128),
            Number::Float(_) => Err(convert_error(ConvertError::CannotConvertFloatToInteger)),
        }
    }
}

} // verus!
