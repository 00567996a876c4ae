//! Taking a Rust integer as the number of a value.

use vstd::prelude::*;

use crate::error::{ConvertError, ErrorKind, JsonWithCommentsError};
use crate::value::number::Number;

verus! {

/// An integer type whose values can be the number of a value.
pub trait ToNumber: Sized {
    /// The integer.
    spec fn integer(&self) -> int;

    /// The integer as a number: one that fits in an `i64` is kept as it is;
    /// one that does not is an error.
    fn to_number(self) -> (r: Result<Number<i64, String>, JsonWithCommentsError>)
        ensures
            i64::MIN <= self.integer() <= i64::MAX ==> r == Ok::<Number<i64, String>, JsonWithCommentsError>(
                Number::Integer(self.integer() as i64),
            ),
            !(i64::MIN <= self.integer() <= i64::MAX) ==> (r matches Err(e) && e@ == ErrorKind::Convert(
                ConvertError::InvalidIntegerConvert,
            )),
    ;
}

impl ToNumber for u8 {
    open spec fn integer(&self) -> int {
        *self as int
    }

    fn to_number(self) -> (r: Result<Number<i64, String>, JsonWithCommentsError>) {
        Ok(Number::Integer(self as i64))
    }
}

impl ToNumber for u16 {
    open spec fn integer(&self) -> int {
        *self as int
    }

    fn to_number(self) -> (r: Result<Number<i64, String>, JsonWithCommentsError>) {
        Ok(Number::Integer(self as i64))
    }
}

impl ToNumber for u32 {
    open spec fn integer(&self) -> int {
        *self as int
    }

    fn to_number(self) -> (r: Result<Number<i64, String>, JsonWithCommentsError>) {
        Ok(Number::Integer(self as i64))
    }
}

impl ToNumber for u64 {
    open spec fn integer(&self) -> int {
        *self as int
    }

    fn to_number(self) -> (r: Result<Number<i64, String>, JsonWithCommentsError>) {
        if self <= 9223372036854775807 {
            Ok(Number::Integer(self as i64))
        } else {
            Err(JsonWithCommentsError::new(ErrorKind::Convert(ConvertError::InvalidIntegerConvert)))
        }
    }
}

impl ToNumber for u128 {
    open spec fn integer(&self) -> int {
        *self as int
    }

    fn to_number(self) -> (r: Result<Number<i64, String>, JsonWithCommentsError>) {
        if self <= 9223372036854775807 {
            Ok(Number::Integer(self as i64))
        } else {
            Err(JsonWithCommentsError::new(ErrorKind::Convert(ConvertError::InvalidIntegerConvert)))
        }
    }
}

impl ToNumber for i8 {
    open spec fn integer(&self) -> int {
        *self as int
    }

    fn to_number(self) -> (r: Result<Number<i64, String>, JsonWithCommentsError>) {
        Ok(Number::Integer(self as i64))
    }
}

impl ToNumber for i16 {
    open spec fn integer(&self) -> int {
        *self as int
    }

    fn to_number(self) -> (r: Result<Number<i64, String>, JsonWithCommentsError>) {
        Ok(Number::Integer(self as i64))
    }
}

impl ToNumber for i32 {
    open spec fn integer(&self) -> int {
        *self as int
    }

    fn to_number(self) -> (r: Result<Number<i64, String>, JsonWithCommentsError>) {
        Ok(Number::Integer(self as i64))
    }
}

impl ToNumber for i64 {
    open spec fn integer(&self) -> int {
        *self as int
    }

    fn to_number(self) -> (r: Result<Number<i64, String>, JsonWithCommentsError>) {
        Ok(Number::Integer(self as i64))
    }
}

impl ToNumber for i128 {
    open spec fn integer(&self) -> int {
        *self as int
    }

    fn to_number(self) -> (r: Result<Number<i64, String>, JsonWithCommentsError>) {
        if -9223372036854775808 <= self && self <= 9223372036854775807 {
            Ok(Number::Integer(self as i64))
        } else {
            Err(JsonWithCommentsError::new(ErrorKind::Convert(ConvertError::InvalidIntegerConvert)))
        }
    }
}

} // verus!
