//! Writing the members of an object one by one.

use vstd::prelude::*;
use vstd::string::StringSliceAdditionalSpecFns;

use crate::ascii::{COLON, QUOTE};
use crate::error::{ErrorKind, JsonWithCommentsError, SemanticError};
use crate::ser::access::jsonc::JsoncSerializer;
use crate::ser::access::number::ToNumberRepresentation;
use crate::ser::formatter::{bool_text, null_text, quoted, FormatEvent, JsoncFormatter};

verus! {

/// Counts the members of an object being written, for the formatter's
/// separators.
pub struct MapSerializer {
    index: usize,
    len: Option<usize>,
}

impl MapSerializer {
    /// How many members were written.
    pub closed spec fn index(&self) -> usize {
        self.index
    }

    /// How many members the object has, when known.
    pub closed spec fn len(&self) -> Option<usize> {
        self.len
    }

    /// Writes the start of an object of `len` members.
    pub fn start<F: JsoncFormatter>(serializer: &mut JsoncSerializer<F>, len: Option<usize>) -> (r: Self)
        requires
            old(serializer).formatter().room() > 0,
        ensures
            r.index() == 0,
            r.len() == len,
            final(serializer).output() == old(serializer).output() + old(serializer).formatter().text(
                FormatEvent::ObjectStart,
            ),
            final(serializer).formatter() == old(serializer).formatter().next(FormatEvent::ObjectStart),
            final(serializer).formatter().room() + 1 >= old(serializer).formatter().room(),
    {
        serializer.write_object_start();
        MapSerializer { index: 0, len }
    }

    /// Writes what comes before the next key.
    /// How many members have been written.
    pub fn count(&self) -> (r: usize)
        ensures
            r == self.index(),
    {
        self.index
    }

    pub fn key_start<F: JsoncFormatter>(&self, serializer: &mut JsoncSerializer<F>)
        ensures
            final(serializer).output() == old(serializer).output() + old(serializer).formatter().text(
                FormatEvent::ObjectKeyStart { index: self.index(), len: self.len() },
            ),
            final(serializer).formatter() == old(serializer).formatter().next(
                FormatEvent::ObjectKeyStart { index: self.index(), len: self.len() },
            ),
            final(serializer).formatter().room() >= old(serializer).formatter().room(),
    {
        serializer.write_object_key_start(self.index, self.len)
    }

    /// Writes what comes between a key and its value.
    pub fn key_end<F: JsoncFormatter>(&self, serializer: &mut JsoncSerializer<F>)
        ensures
            final(serializer).output() == old(serializer).output().push(COLON) + old(serializer).formatter().text(
                FormatEvent::ObjectValueStart { index: self.index(), len: self.len() },
            ),
            final(serializer).formatter() == old(serializer).formatter().next(
                FormatEvent::ObjectValueStart { index: self.index(), len: self.len() },
            ),
            final(serializer).formatter().room() >= old(serializer).formatter().room(),
    {
        serializer.write_object_key_end(self.index, self.len);
        serializer.write_object_value_start(self.index, self.len);
    }

    /// Writes what comes after a value, and counts the member.
    pub fn value_end<F: JsoncFormatter>(&mut self, serializer: &mut JsoncSerializer<F>)
        requires
            old(self).index() < usize::MAX,
        ensures
            final(self).index() == old(self).index() + 1,
            final(self).len() == old(self).len(),
            final(serializer).output() == old(serializer).output() + old(serializer).formatter().text(
                FormatEvent::ObjectValueEnd { index: old(self).index(), len: old(self).len() },
            ),
            final(serializer).formatter() == old(serializer).formatter().next(
                FormatEvent::ObjectValueEnd { index: old(self).index(), len: old(self).len() },
            ),
            final(serializer).formatter().room() >= old(serializer).formatter().room(),
    {
        serializer.write_object_value_end(self.index, self.len);
        self.index = self.index + 1;
    }

    /// Writes the end of the object.
    pub fn end<F: JsoncFormatter>(self, serializer: &mut JsoncSerializer<F>)
        requires
            old(serializer).formatter().can_close(),
        ensures
            final(serializer).output() == old(serializer).output() + old(serializer).formatter().text(
                FormatEvent::ObjectEnd,
            ),
            final(serializer).formatter() == old(serializer).formatter().next(FormatEvent::ObjectEnd),
            final(serializer).formatter().room() >= old(serializer).formatter().room(),
    {
        serializer.write_object_end()
    }
}

/// Writes keys of objects. A key is written as a string; a number, a boolean
/// or a unit is written quoted; anything else cannot be a key.
pub struct MapKeySerializer;

impl MapKeySerializer {
    pub fn new() -> (r: Self) {
        MapKeySerializer
    }

    /// A string key, as a string.
    pub fn serialize_str<F: JsoncFormatter>(&self, serializer: &mut JsoncSerializer<F>, key: &str)
        ensures
            final(serializer).output() == old(serializer).output() + quoted(key.spec_bytes()),
            final(serializer).formatter() == old(serializer).formatter(),
    {
        serializer.serialize_str(key)
    }

    /// A number key, between quotes.
    pub fn serialize_number<F: JsoncFormatter, N: ToNumberRepresentation>(
        &self,
        serializer: &mut JsoncSerializer<F>,
        key: N,
    )
        ensures
            final(serializer).output() == old(serializer).output() + seq![QUOTE] + key.representation() + seq![QUOTE],
            final(serializer).formatter() == old(serializer).formatter(),
    {
        serializer.push_byte(QUOTE);
        serializer.serialize_number(key);
        serializer.push_byte(QUOTE);
    }

    /// A boolean key, between quotes.
    pub fn serialize_bool<F: JsoncFormatter>(&self, serializer: &mut JsoncSerializer<F>, key: bool)
        ensures
            final(serializer).output() == old(serializer).output() + seq![QUOTE] + bool_text(key) + seq![QUOTE],
            final(serializer).formatter() == old(serializer).formatter(),
    {
        serializer.push_byte(QUOTE);
        serializer.serialize_bool(key);
        serializer.push_byte(QUOTE);
    }

    /// A unit key: `"null"`.
    pub fn serialize_unit<F: JsoncFormatter>(&self, serializer: &mut JsoncSerializer<F>)
        ensures
            final(serializer).output() == old(serializer).output() + seq![QUOTE] + null_text() + seq![QUOTE],
            final(serializer).formatter() == old(serializer).formatter(),
    {
        serializer.push_byte(QUOTE);
        serializer.serialize_unit();
        serializer.push_byte(QUOTE);
    }

    /// What cannot be a key: an option's `None`, a unit struct, a variant,
    /// an array, an object.
    pub fn reject(&self) -> (r: JsonWithCommentsError)
        ensures
            r@ == ErrorKind::Semantic(SemanticError::AnyMapKey),
    {
        JsonWithCommentsError::new(ErrorKind::Semantic(SemanticError::AnyMapKey))
    }
}

} // verus!
