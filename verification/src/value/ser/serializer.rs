//! Making a value out of Rust data.

use vstd::prelude::*;

use crate::error::{ConvertError, ErrorKind, JsonWithCommentsError};
use crate::value::number::Number;
use crate::value::ser::number::ToNumber;
use crate::value::JsoncValue;

verus! {

/// Makes values out of Rust data.
pub struct ValueSerializer;

impl ValueSerializer {
    pub fn new() -> (r: Self) {
        ValueSerializer
    }

    /// The value of an integer: its number when it fits in an `i64`, an
    /// error when it does not.
    pub fn serialize_number_value<N: ToNumber>(self, number: N) -> (r: Result<JsoncValue, JsonWithCommentsError>)
        ensures
            i64::MIN <= number.integer() <= i64::MAX ==> r == Ok::<JsoncValue, JsonWithCommentsError>(
                JsoncValue::Number(Number::Integer(number.integer() as i64)),
            ),
            !(i64::MIN <= number.integer() <= i64::MAX) ==> (r matches Err(e) && e@ == ErrorKind::Convert(
                ConvertError::InvalidIntegerConvert,
            )),
    {
        match number.to_number() {
            Ok(n) => Ok(JsoncValue::Number(n)),
            Err(e) => Err(e),
        }
    }
}

} // verus!
