//! Reading JSON with comments text.

pub mod access;
pub mod grammar;
pub mod position;
pub mod syntax;
pub mod token;

use vstd::prelude::*;
use vstd::string::StringSliceAdditionalSpecFns;

use crate::de::access::jsonc::JsoncDeserializer;
use crate::de::grammar::{document, fails_as, lemma_value_at_progress};
use crate::de::syntax::lemma_skip_ws;
use crate::de::token::raw::RawTokenizer;
use crate::de::token::slice::SliceTokenizer;
use crate::de::token::str::StrTokenizer;
use crate::de::token::Tokenizer;
use crate::error::JsonWithCommentsError;
use crate::value::JsoncValue;

verus! {

/// Reads a whole text holding one value from a tokenizer that starts at the
/// beginning of its input.
pub fn value_from_tokenizer<'de, T: Tokenizer<'de>>(tokenizer: T) -> (r: Result<JsoncValue, JsonWithCommentsError>)
    requires
        tokenizer.wf(),
        tokenizer.cursor() == 0,
    ensures
        match document(tokenizer.input(), tokenizer.keeps_escapes()) {
            Ok(v) => r matches Ok(x) && x.model() == v,
            Err(m) => fails_as(r, m),
        },
{
    let mut de = JsoncDeserializer::new(tokenizer);
    proof {
        lemma_value_at_progress(tokenizer.input(), 0, tokenizer.keeps_escapes());
    }
    let value = match de.deserialize_value() {
        Ok(v) => v,
        Err(e) => {
            return Err(e);
        },
    };
    match de.finish() {
        Ok(()) => Ok(value),
        Err(e) => Err(e),
    }
}

/// Reads a whole text holding one value; strings come out with their escapes replaced.
pub fn value_from_str(s: &str) -> (r: Result<JsoncValue, JsonWithCommentsError>)
    ensures
        match document(s.spec_bytes(), false) {
            Ok(v) => r matches Ok(x) && x.model() == v,
            Err(m) => fails_as(r, m),
        },
{
    value_from_tokenizer(StrTokenizer::new(s))
}

/// Reads a whole text holding one value; strings come out with their escapes replaced.
pub fn value_from_slice(s: &[u8]) -> (r: Result<JsoncValue, JsonWithCommentsError>)
    ensures
        match document(s@, false) {
            Ok(v) => r matches Ok(x) && x.model() == v,
            Err(m) => fails_as(r, m),
        },
{
    value_from_tokenizer(SliceTokenizer::new(s))
}

/// Reads a whole text holding one value; strings come out as they are written,
/// escapes kept.
pub fn value_from_str_raw(s: &str) -> (r: Result<JsoncValue, JsonWithCommentsError>)
    ensures
        match document(s.spec_bytes(), true) {
            Ok(v) => r matches Ok(x) && x.model() == v,
            Err(m) => fails_as(r, m),
        },
{
    value_from_tokenizer(RawTokenizer::new(s.as_bytes()))
}

impl std::str::FromStr for JsoncValue {
    type Err = JsonWithCommentsError;

    /// Reads a whole text holding one value, as `value_from_str` does.
    fn from_str(s: &str) -> (r: Result<Self, Self::Err>)
        ensures
            match document(s.spec_bytes(), false) {
                Ok(v) => r matches Ok(x) && x.model() == v,
                Err(m) => fails_as(r, m),
            },
    {
        value_from_str(s)
    }
}

} // verus!
