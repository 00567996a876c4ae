//! Writing JSON with comments text.

pub mod access;
pub mod formatter;
pub mod valid_text;

use vstd::prelude::*;
use vstd::utf8::decode_utf8;

use crate::error::{ErrorKind, JsonWithCommentsError};
use crate::ser::access::jsonc::JsoncSerializer;
use crate::ser::formatter::minify::{minify_text, MinifyFormatter};
use crate::ser::formatter::pretty::{pretty_text, PrettyFormatter};
use crate::ser::valid_text::{lemma_minify_valid, lemma_pretty_valid};
use crate::utf8::string_from_utf8;
use crate::value::{depth, JsoncValue};

verus! {

/// The compact text of a value.
pub fn value_to_vec(value: &JsoncValue) -> (r: Vec<u8>)
    ensures
        r@ == minify_text(value.model()),
{
    let mut ser = JsoncSerializer::new(Vec::new(), MinifyFormatter);
    ser.serialize_value(value);
    ser.into_inner()
}

/// The pretty text of a value.
pub fn value_to_vec_pretty(value: &JsoncValue) -> (r: Vec<u8>)
    requires
        2 * depth(value.model()) <= usize::MAX,
    ensures
        r@ == pretty_text(value.model(), 0),
{
    let mut ser = JsoncSerializer::new(Vec::new(), PrettyFormatter::new());
    ser.serialize_value(value);
    ser.into_inner()
}

/// The compact text of a value, as a string: always there, since the text
/// of a value is valid UTF-8.
pub fn value_to_string(value: &JsoncValue) -> (r: Result<String, JsonWithCommentsError>)
    ensures
        r matches Ok(s) && s@ == decode_utf8(minify_text(value.model())),
{
    let bytes = value_to_vec(value);
    proof {
        lemma_minify_valid(value.model());
    }
    match string_from_utf8(bytes.as_slice()) {
        Some(s) => Ok(s),
        None => Err(JsonWithCommentsError::new(ErrorKind::InvalidUtf8)),
    }
}

/// The pretty text of a value, as a string: always there, since the text of
/// a value is valid UTF-8.
pub fn value_to_string_pretty(value: &JsoncValue) -> (r: Result<String, JsonWithCommentsError>)
    requires
        2 * depth(value.model()) <= usize::MAX,
    ensures
        r matches Ok(s) && s@ == decode_utf8(pretty_text(value.model(), 0)),
{
    let bytes = value_to_vec_pretty(value);
    proof {
        lemma_pretty_valid(value.model(), 0);
    }
    match string_from_utf8(bytes.as_slice()) {
        Some(s) => Ok(s),
        None => Err(JsonWithCommentsError::new(ErrorKind::InvalidUtf8)),
    }
}

} // verus!
