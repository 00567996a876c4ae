//! The keys of the objects of values made out of Rust data.

use vstd::prelude::*;
use vstd::utf8::{decode_utf8, valid_utf8};

use crate::error::{ErrorKind, JsonWithCommentsError, SemanticError};
use crate::roundtrip::lemma_ascii_valid;
use crate::ser::access::jsonc::JsoncSerializer;
use crate::ser::access::number::ToNumberRepresentation;
use crate::ser::formatter::minify::MinifyFormatter;
use crate::ser::formatter::{bool_text, null_text};
use crate::utf8::string_from_utf8;

verus! {

/// Makes the key of a member out of Rust data: a string is the key as it
/// is; a boolean, a number or a unit is the key that its text spells;
/// nothing else can be a key.
pub struct ValueMapKeySerializer;

impl ValueMapKeySerializer {
    pub fn new() -> (r: Self) {
        ValueMapKeySerializer
    }

    /// The key of a boolean: `true` or `false`.
    pub fn serialize_bool(&self, v: bool) -> (r: String)
        ensures
            r@ == decode_utf8(bool_text(v)),
    {
        let mut ser = JsoncSerializer::new(Vec::new(), MinifyFormatter);
        ser.serialize_bool(v);
        let bytes = ser.into_inner();
        proof {
            assert(bytes@ =~= bool_text(v));
            lemma_ascii_valid(bool_text(v));
        }
        match string_from_utf8(bytes.as_slice()) {
            Some(s) => s,
            None => String::new(),
        }
    }

    /// The key of a unit: `null`.
    pub fn serialize_unit(&self) -> (r: String)
        ensures
            r@ == decode_utf8(null_text()),
    {
        let mut ser = JsoncSerializer::new(Vec::new(), MinifyFormatter);
        ser.serialize_unit();
        let bytes = ser.into_inner();
        proof {
            assert(bytes@ =~= null_text());
            lemma_ascii_valid(null_text());
        }
        match string_from_utf8(bytes.as_slice()) {
            Some(s) => s,
            None => String::new(),
        }
    }

    /// The key of a number: its text.
    pub fn serialize_number<N: ToNumberRepresentation>(&self, v: N) -> (r: Result<String, JsonWithCommentsError>)
        ensures
            valid_utf8(v.representation()) ==> (r matches Ok(s) && s@ == decode_utf8(v.representation())),
            !valid_utf8(v.representation()) ==> (r matches Err(e) && e@ == ErrorKind::InvalidUtf8),
    {
        let mut ser = JsoncSerializer::new(Vec::new(), MinifyFormatter);
        ser.serialize_number(v);
        let bytes = ser.into_inner();
        proof {
            assert(bytes@ =~= v.representation());
        }
        match string_from_utf8(bytes.as_slice()) {
            Some(s) => Ok(s),
            None => Err(JsonWithCommentsError::new(ErrorKind::InvalidUtf8)),
        }
    }

    /// The key of a string: the string.
    pub fn serialize_str(&self, v: &str) -> (r: String)
        ensures
            r@ == v@,
    {
        v.to_owned()
    }

    /// What cannot be a key: `None`, a unit struct, a variant, an array, an
    /// object.
    pub fn reject(&self) -> (r: JsonWithCommentsError)
        ensures
            r@ == ErrorKind::Semantic(SemanticError::AnyMapKey),
    {
        JsonWithCommentsError::new(ErrorKind::Semantic(SemanticError::AnyMapKey))
    }
}

} // verus!
