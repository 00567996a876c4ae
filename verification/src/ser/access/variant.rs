//! Writing enum variants that hold fields: `{"Variant":[...]}` or
//! `{"Variant":{...}}`.

use vstd::prelude::*;
use vstd::string::StringSliceAdditionalSpecFns;

use crate::error::{Ensure, ErrorKind, JsonWithCommentsError};
use crate::ser::access::jsonc::JsoncSerializer;
use crate::ser::access::map::MapSerializer;
use crate::ser::access::seq::SeqSerializer;
use crate::ascii::COLON;
use crate::ser::formatter::{quoted, FormatEvent, JsoncFormatter};

verus! {

/// Which kind of fields a variant holds.
pub enum Delegate<S, M> {
    Tuple(S),
    Struct(M),
}

/// Writes a variant that holds fields: an object with one member, the
/// variant's name, whose value is an array (a tuple variant) or an object (a
/// struct variant).
pub struct EnumSerializer {
    delegate: Delegate<SeqSerializer, MapSerializer>,
}

/// What starting a variant writes after a formatter in state `f`: the start
/// of an object, what comes before its one key, the variant's name as a
/// string, a colon, and the start of the fields (`open`).
pub open spec fn variant_start_text<F: JsoncFormatter>(f: F, variant: Seq<u8>, open: FormatEvent) -> Seq<u8> {
    let f1 = f.next(FormatEvent::ObjectStart);
    let f2 = f1.next(FormatEvent::ObjectKeyStart { index: 0, len: Some(1) });
    f.text(FormatEvent::ObjectStart) + f1.text(FormatEvent::ObjectKeyStart { index: 0, len: Some(1) }) + quoted(
        variant,
    ) + seq![COLON] + f2.text(open)
}

/// The formatter after starting a variant from state `f`.
pub open spec fn variant_start_formatter<F: JsoncFormatter>(f: F, open: FormatEvent) -> F {
    f.next(FormatEvent::ObjectStart).next(FormatEvent::ObjectKeyStart { index: 0, len: Some(1) }).next(open)
}

/// Where the fields of a variant start: an array for a tuple variant, an
/// object for a struct variant.
pub open spec fn fields_start<S, M>(delegate_type: Delegate<S, M>) -> FormatEvent {
    match delegate_type {
        Delegate::Tuple(_) => FormatEvent::ArrayStart,
        Delegate::Struct(_) => FormatEvent::ObjectStart,
    }
}

impl EnumSerializer {
    /// Whether the variant's fields form an array.
    pub closed spec fn is_seq(&self) -> bool {
        self.delegate is Tuple
    }

    /// The counter of the variant's fields.
    pub closed spec fn delegate(&self) -> Delegate<SeqSerializer, MapSerializer> {
        self.delegate
    }

    /// Starts a tuple variant of `len` fields.
    pub fn start_tuple_variant<F: JsoncFormatter>(
        serializer: &mut JsoncSerializer<F>,
        variant: &str,
        len: usize,
    ) -> (r: Self)
        requires
            old(serializer).formatter().room() >= 2,
        ensures
            r.is_seq(),
            r.delegate() matches Delegate::Tuple(s) && s.index() == 0 && s.len() == Some(len),
            final(serializer).output() == old(serializer).output() + variant_start_text(
                old(serializer).formatter(),
                variant.spec_bytes(),
                FormatEvent::ArrayStart,
            ),
            final(serializer).formatter() == variant_start_formatter(
                old(serializer).formatter(),
                FormatEvent::ArrayStart,
            ),
    {
        Self::start(serializer, variant, len, Delegate::Tuple(()))
    }

    /// Starts a struct variant of `len` fields.
    pub fn start_struct_variant<F: JsoncFormatter>(
        serializer: &mut JsoncSerializer<F>,
        variant: &str,
        len: usize,
    ) -> (r: Self)
        requires
            old(serializer).formatter().room() >= 2,
        ensures
            !r.is_seq(),
            r.delegate() matches Delegate::Struct(m) && m.index() == 0 && m.len() == Some(len),
            final(serializer).output() == old(serializer).output() + variant_start_text(
                old(serializer).formatter(),
                variant.spec_bytes(),
                FormatEvent::ObjectStart,
            ),
            final(serializer).formatter() == variant_start_formatter(
                old(serializer).formatter(),
                FormatEvent::ObjectStart,
            ),
    {
        Self::start(serializer, variant, len, Delegate::Struct(()))
    }

    /// Writes `{`, the variant's name as the key, `:`, and the start of the
    /// fields.
    pub fn start<F: JsoncFormatter>(
        serializer: &mut JsoncSerializer<F>,
        variant: &str,
        len: usize,
        delegate_type: Delegate<(), ()>,
    ) -> (r: Self)
        requires
            old(serializer).formatter().room() >= 2,
        ensures
            r.is_seq() == (delegate_type is Tuple),
            r.delegate() matches Delegate::Tuple(s) ==> s.index() == 0 && s.len() == Some(len),
            r.delegate() matches Delegate::Struct(m) ==> m.index() == 0 && m.len() == Some(len),
            final(serializer).output() == old(serializer).output() + variant_start_text(
                old(serializer).formatter(),
                variant.spec_bytes(),
                fields_start(delegate_type),
            ),
            final(serializer).formatter() == variant_start_formatter(
                old(serializer).formatter(),
                fields_start(delegate_type),
            ),
    {
        let ghost o0 = serializer.output();
        serializer.write_object_start();
        serializer.write_object_key_start(0, Some(1));
        serializer.serialize_str(variant);
        serializer.write_object_key_end(0, Some(1));
        let delegate = match delegate_type {
            Delegate::Tuple(_) => Delegate::Tuple(SeqSerializer::start(serializer, Some(len))),
            Delegate::Struct(_) => Delegate::Struct(MapSerializer::start(serializer, Some(len))),
        };
        proof {
            assert(serializer.output() =~= o0 + variant_start_text(
                old(serializer).formatter(),
                variant.spec_bytes(),
                fields_start(delegate_type),
            ));
        }
        EnumSerializer { delegate }
    }

    /// Writes what comes before the value of a variant that holds one: `{`,
    /// the variant's name as the key, `:`, and what comes before a value.
    pub fn start_newtype_variant<F: JsoncFormatter>(serializer: &mut JsoncSerializer<F>, variant: &str)
        requires
            old(serializer).formatter().room() >= 1,
        ensures
            final(serializer).output() == old(serializer).output() + variant_start_text(
                old(serializer).formatter(),
                variant.spec_bytes(),
                FormatEvent::ObjectValueStart { index: 0, len: Some(1) },
            ),
            final(serializer).formatter() == variant_start_formatter(
                old(serializer).formatter(),
                FormatEvent::ObjectValueStart { index: 0, len: Some(1) },
            ),
    {
        let ghost o0 = serializer.output();
        serializer.write_object_start();
        serializer.write_object_key_start(0, Some(1));
        serializer.serialize_str(variant);
        serializer.write_object_key_end(0, Some(1));
        serializer.write_object_value_start(0, Some(1));
        proof {
            assert(serializer.output() =~= o0 + variant_start_text(
                old(serializer).formatter(),
                variant.spec_bytes(),
                FormatEvent::ObjectValueStart { index: 0, len: Some(1) },
            ));
        }
    }

    /// Writes what comes after the value of a variant that holds one: what
    /// comes after a member, and `}`.
    pub fn end_newtype_variant<F: JsoncFormatter>(serializer: &mut JsoncSerializer<F>)
        requires
            old(serializer).formatter().next(FormatEvent::ObjectValueEnd { index: 0, len: Some(1) }).can_close(),
        ensures
            final(serializer).output() == old(serializer).output() + old(serializer).formatter().text(
                FormatEvent::ObjectValueEnd { index: 0, len: Some(1) },
            ) + old(serializer).formatter().next(FormatEvent::ObjectValueEnd { index: 0, len: Some(1) }).text(
                FormatEvent::ObjectEnd,
            ),
            final(serializer).formatter() == old(serializer).formatter().next(
                FormatEvent::ObjectValueEnd { index: 0, len: Some(1) },
            ).next(FormatEvent::ObjectEnd),
    {
        let ghost o0 = serializer.output();
        serializer.write_object_value_end(0, Some(1));
        serializer.write_object_end();
        proof {
            assert(serializer.output() =~= o0 + old(serializer).formatter().text(
                FormatEvent::ObjectValueEnd { index: 0, len: Some(1) },
            ) + old(serializer).formatter().next(FormatEvent::ObjectValueEnd { index: 0, len: Some(1) }).text(
                FormatEvent::ObjectEnd,
            ));
        }
    }

    /// The counter of the variant's fields.
    pub fn into_delegate(self) -> (r: Delegate<SeqSerializer, MapSerializer>)
        ensures
            (r is Tuple) == self.is_seq(),
            r == self.delegate(),
    {
        self.delegate
    }

    /// The error for a field of the other kind than the variant holds: a
    /// member for a tuple variant, an element for a struct variant.
    pub fn wrong_field(&self) -> (r: JsonWithCommentsError)
        ensures
            r@ == if self.is_seq() {
                ErrorKind::Ensure(Ensure::MapLikeVariant)
            } else {
                ErrorKind::Ensure(Ensure::SeqLikeVariant)
            },
    {
        match &self.delegate {
            Delegate::Tuple(_) => JsonWithCommentsError::new(ErrorKind::Ensure(Ensure::MapLikeVariant)),
            Delegate::Struct(_) => JsonWithCommentsError::new(ErrorKind::Ensure(Ensure::SeqLikeVariant)),
        }
    }
}

} // verus!
