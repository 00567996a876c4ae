//! Making values out of their parts, and taking them apart again.

use vstd::prelude::*;

use crate::error::{ErrorKind, InvalidRepresentsValue, JsonWithCommentsError};
use crate::value::number::Number;
use crate::value::{JsoncValue, MapImpl};

verus! {

impl From<bool> for JsoncValue {
    fn from(value: bool) -> (r: Self) {
        JsoncValue::Bool(value)
    }
}

impl vstd::std_specs::convert::FromSpecImpl<bool> for JsoncValue {
    open spec fn obeys_from_spec() -> bool {
        true
    }

    open spec fn from_spec(v: bool) -> JsoncValue {
        JsoncValue::Bool(v)
    }
}

impl From<()> for JsoncValue {
    fn from(value: ()) -> (r: Self) {
        JsoncValue::Null
    }
}

impl vstd::std_specs::convert::FromSpecImpl<()> for JsoncValue {
    open spec fn obeys_from_spec() -> bool {
        true
    }

    open spec fn from_spec(v: ()) -> JsoncValue {
        JsoncValue::Null
    }
}

impl From<String> for JsoncValue {
    fn from(value: String) -> (r: Self) {
        JsoncValue::String(value)
    }
}

impl vstd::std_specs::convert::FromSpecImpl<String> for JsoncValue {
    open spec fn obeys_from_spec() -> bool {
        true
    }

    open spec fn from_spec(v: String) -> JsoncValue {
        JsoncValue::String(v)
    }
}

impl From<i64> for JsoncValue {
    fn from(value: i64) -> (r: Self) {
        JsoncValue::Number(Number::Integer(value))
    }
}

impl vstd::std_specs::convert::FromSpecImpl<i64> for JsoncValue {
    open spec fn obeys_from_spec() -> bool {
        true
    }

    open spec fn from_spec(v: i64) -> JsoncValue {
        JsoncValue::Number(Number::Integer(v))
    }
}

impl From<Number<i64, String>> for JsoncValue {
    fn from(value: Number<i64, String>) -> (r: Self) {
        JsoncValue::Number(value)
    }
}

impl vstd::std_specs::convert::FromSpecImpl<Number<i64, String>> for JsoncValue {
    open spec fn obeys_from_spec() -> bool {
        true
    }

    open spec fn from_spec(v: Number<i64, String>) -> JsoncValue {
        JsoncValue::Number(v)
    }
}

impl From<Vec<JsoncValue>> for JsoncValue {
    fn from(value: Vec<JsoncValue>) -> (r: Self) {
        JsoncValue::Array(value)
    }
}

impl vstd::std_specs::convert::FromSpecImpl<Vec<JsoncValue>> for JsoncValue {
    open spec fn obeys_from_spec() -> bool {
        true
    }

    open spec fn from_spec(v: Vec<JsoncValue>) -> JsoncValue {
        JsoncValue::Array(v)
    }
}

impl From<MapImpl<JsoncValue>> for JsoncValue {
    fn from(value: MapImpl<JsoncValue>) -> (r: Self) {
        JsoncValue::Object(value)
    }
}

impl vstd::std_specs::convert::FromSpecImpl<MapImpl<JsoncValue>> for JsoncValue {
    open spec fn obeys_from_spec() -> bool {
        true
    }

    open spec fn from_spec(v: MapImpl<JsoncValue>) -> JsoncValue {
        JsoncValue::Object(v)
    }
}

/// The error of taking a value as a kind it is not.
pub open spec fn represents_error(should: InvalidRepresentsValue) -> JsonWithCommentsError {
    JsonWithCommentsError::of(ErrorKind::InvalidRepresents(should))
}

impl TryFrom<JsoncValue> for MapImpl<JsoncValue> {
    type Error = JsonWithCommentsError;

    fn try_from(value: JsoncValue) -> (r: Result<Self, JsonWithCommentsError>) {
        match value {
            JsoncValue::Object(m) => Ok(m),
            _ => Err(JsonWithCommentsError::new(ErrorKind::InvalidRepresents(InvalidRepresentsValue::ShouldObject))),
        }
    }
}

impl vstd::std_specs::convert::TryFromSpecImpl<JsoncValue> for MapImpl<JsoncValue> {
    open spec fn obeys_try_from_spec() -> bool {
        true
    }

    open spec fn try_from_spec(v: JsoncValue) -> Result<Self, JsonWithCommentsError> {
        match v {
            JsoncValue::Object(m) => Ok(m),
            _ => Err(represents_error(InvalidRepresentsValue::ShouldObject)),
        }
    }
}

impl TryFrom<JsoncValue> for Vec<JsoncValue> {
    type Error = JsonWithCommentsError;

    fn try_from(value: JsoncValue) -> (r: Result<Self, JsonWithCommentsError>) {
        match value {
            JsoncValue::Array(a) => Ok(a),
            _ => Err(JsonWithCommentsError::new(ErrorKind::InvalidRepresents(InvalidRepresentsValue::ShouldArray))),
        }
    }
}

impl vstd::std_specs::convert::TryFromSpecImpl<JsoncValue> for Vec<JsoncValue> {
    open spec fn obeys_try_from_spec() -> bool {
        true
    }

    open spec fn try_from_spec(v: JsoncValue) -> Result<Self, JsonWithCommentsError> {
        match v {
            JsoncValue::Array(a) => Ok(a),
            _ => Err(represents_error(InvalidRepresentsValue::ShouldArray)),
        }
    }
}

impl TryFrom<JsoncValue> for bool {
    type Error = JsonWithCommentsError;

    fn try_from(value: JsoncValue) -> (r: Result<Self, JsonWithCommentsError>) {
        match value {
            JsoncValue::Bool(b) => Ok(b),
            _ => Err(JsonWithCommentsError::new(ErrorKind::InvalidRepresents(InvalidRepresentsValue::ShouldBool))),
        }
    }
}

impl vstd::std_specs::convert::TryFromSpecImpl<JsoncValue> for bool {
    open spec fn obeys_try_from_spec() -> bool {
        true
    }

    open spec fn try_from_spec(v: JsoncValue) -> Result<Self, JsonWithCommentsError> {
        match v {
            JsoncValue::Bool(b) => Ok(b),
            _ => Err(represents_error(InvalidRepresentsValue::ShouldBool)),
        }
    }
}

impl TryFrom<JsoncValue> for () {
    type Error = JsonWithCommentsError;

    fn try_from(value: JsoncValue) -> (r: Result<Self, JsonWithCommentsError>) {
        match value {
            JsoncValue::Null => Ok(()),
            _ => Err(JsonWithCommentsError::new(ErrorKind::InvalidRepresents(InvalidRepresentsValue::ShouldNull))),
        }
    }
}

impl vstd::std_specs::convert::TryFromSpecImpl<JsoncValue> for () {
    open spec fn obeys_try_from_spec() -> bool {
        true
    }

    open spec fn try_from_spec(v: JsoncValue) -> Result<Self, JsonWithCommentsError> {
        match v {
            JsoncValue::Null => Ok(()),
            _ => Err(represents_error(InvalidRepresentsValue::ShouldNull)),
        }
    }
}

impl TryFrom<JsoncValue> for String {
    type Error = JsonWithCommentsError;

    fn try_from(value: JsoncValue) -> (r: Result<Self, JsonWithCommentsError>) {
        match value {
            JsoncValue::String(s) => Ok(s),
            _ => Err(JsonWithCommentsError::new(ErrorKind::InvalidRepresents(InvalidRepresentsValue::ShouldString))),
        }
    }
}

impl vstd::std_specs::convert::TryFromSpecImpl<JsoncValue> for String {
    open spec fn obeys_try_from_spec() -> bool {
        true
    }

    open spec fn try_from_spec(v: JsoncValue) -> Result<Self, JsonWithCommentsError> {
        match v {
            JsoncValue::String(s) => Ok(s),
            _ => Err(represents_error(InvalidRepresentsValue::ShouldString)),
        }
    }
}

impl TryFrom<JsoncValue> for Number<i64, String> {
    type Error = JsonWithCommentsError;

    fn try_from(value: JsoncValue) -> (r: Result<Self, JsonWithCommentsError>) {
        match value {
            JsoncValue::Number(n) => Ok(n),
            _ => Err(JsonWithCommentsError::new(ErrorKind::InvalidRepresents(InvalidRepresentsValue::ShouldNumber))),
        }
    }
}

impl vstd::std_specs::convert::TryFromSpecImpl<JsoncValue> for Number<i64, String> {
    open spec fn obeys_try_from_spec() -> bool {
        true
    }

    open spec fn try_from_spec(v: JsoncValue) -> Result<Self, JsonWithCommentsError> {
        match v {
            JsoncValue::Number(n) => Ok(n),
            _ => Err(represents_error(InvalidRepresentsValue::ShouldNumber)),
        }
    }
}

impl TryFrom<JsoncValue> for i64 {
    type Error = JsonWithCommentsError;

    fn try_from(value: JsoncValue) -> (r: Result<Self, JsonWithCommentsError>) {
        match value {
            JsoncValue::Number(Number::Integer(v)) => Ok(v),
            _ => Err(JsonWithCommentsError::new(ErrorKind::InvalidRepresents(InvalidRepresentsValue::ShouldNumber))),
        }
    }
}

impl vstd::std_specs::convert::TryFromSpecImpl<JsoncValue> for i64 {
    open spec fn obeys_try_from_spec() -> bool {
        true
    }

    open spec fn try_from_spec(v: JsoncValue) -> Result<Self, JsonWithCommentsError> {
        match v {
            JsoncValue::Number(Number::Integer(i)) => Ok(i),
            _ => Err(represents_error(InvalidRepresentsValue::ShouldNumber)),
        }
    }
}

/// Taking a value apart undoes making it: a value made out of a part, taken
/// as a part of that kind, gives the part back.
pub proof fn lemma_try_from_undoes_from(
    m: MapImpl<JsoncValue>,
    a: Vec<JsoncValue>,
    b: bool,
    s: String,
    n: Number<i64, String>,
    i: i64,
)
    ensures
        <MapImpl<JsoncValue> as vstd::std_specs::convert::TryFromSpec<JsoncValue>>::try_from_spec(
            <JsoncValue as vstd::std_specs::convert::FromSpec<MapImpl<JsoncValue>>>::from_spec(m),
        ) == Ok::<MapImpl<JsoncValue>, JsonWithCommentsError>(m),
        <Vec<JsoncValue> as vstd::std_specs::convert::TryFromSpec<JsoncValue>>::try_from_spec(
            <JsoncValue as vstd::std_specs::convert::FromSpec<Vec<JsoncValue>>>::from_spec(a),
        ) == Ok::<Vec<JsoncValue>, JsonWithCommentsError>(a),
        <bool as vstd::std_specs::convert::TryFromSpec<JsoncValue>>::try_from_spec(
            <JsoncValue as vstd::std_specs::convert::FromSpec<bool>>::from_spec(b),
        ) == Ok::<bool, JsonWithCommentsError>(b),
        <() as vstd::std_specs::convert::TryFromSpec<JsoncValue>>::try_from_spec(
            <JsoncValue as vstd::std_specs::convert::FromSpec<()>>::from_spec(()),
        ) == Ok::<(), JsonWithCommentsError>(()),
        <String as vstd::std_specs::convert::TryFromSpec<JsoncValue>>::try_from_spec(
            <JsoncValue as vstd::std_specs::convert::FromSpec<String>>::from_spec(s),
        ) == Ok::<String, JsonWithCommentsError>(s),
        <Number<i64, String> as vstd::std_specs::convert::TryFromSpec<JsoncValue>>::try_from_spec(
            <JsoncValue as vstd::std_specs::convert::FromSpec<Number<i64, String>>>::from_spec(n),
        ) == Ok::<Number<i64, String>, JsonWithCommentsError>(n),
        <i64 as vstd::std_specs::convert::TryFromSpec<JsoncValue>>::try_from_spec(
            <JsoncValue as vstd::std_specs::convert::FromSpec<i64>>::from_spec(i),
        ) == Ok::<i64, JsonWithCommentsError>(i),
{
}

} // verus!
