//! The text of numbers.

use vstd::prelude::*;
use vstd::slice::slice_to_vec;
use vstd::utf8::encode_utf8;

use crate::ascii::{DIGIT_ZERO, MINUS};

verus! {

/// The decimal digits of `n`, most significant first, without leading zeros.
pub open spec fn nat_text(n: nat) -> Seq<u8>
    decreases n,
{
    if n < 10 {
        seq![(DIGIT_ZERO + n) as u8]
    } else {
        nat_text(n / 10).push((DIGIT_ZERO + n % 10) as u8)
    }
}

/// The decimal text of `v`: a minus for a negative number, then its digits.
pub open spec fn int_text(v: int) -> Seq<u8> {
    if v < 0 {
        seq![MINUS] + nat_text((-v) as nat)
    } else {
        nat_text(v as nat)
    }
}

/// Calls `itoa::Buffer::format` on an `i128`, which writes the integer in
/// decimal, as `Display` does: a minus for a negative number, then the digits
/// without leading zeros. The contract claims that text.
#[verifier::external_body]
fn itoa_i128(v: i128) -> (r: Vec<u8>)
    ensures
        r@ == int_text(v as int),
{
    let mut buffer = itoa::Buffer::new();
    buffer.format(v).as_bytes().to_vec()
}

/// Calls `itoa::Buffer::format` on a `u128`, which writes the integer in
/// decimal, as `Display` does, without leading zeros. The contract claims
/// that text.
#[verifier::external_body]
fn itoa_u128(v: u128) -> (r: Vec<u8>)
    ensures
        r@ == int_text(v as int),
{
    let mut buffer = itoa::Buffer::new();
    buffer.format(v).as_bytes().to_vec()
}

/// A number that can be written as text.
pub trait ToNumberRepresentation: Sized {
    /// The text written.
    spec fn representation(&self) -> Seq<u8>;

    fn to_number_representation(self) -> (r: Vec<u8>)
        ensures
            r@ == self.representation(),
    ;
}

impl ToNumberRepresentation for i8 {
    open spec fn representation(&self) -> Seq<u8> {
        int_text(*self as int)
    }

    fn to_number_representation(self) -> (r: Vec<u8>) {
        itoa_i128(self as i128)
    }
}

impl ToNumberRepresentation for i16 {
    open spec fn representation(&self) -> Seq<u8> {
        int_text(*self as int)
    }

    fn to_number_representation(self) -> (r: Vec<u8>) {
        itoa_i128(self as i128)
    }
}

impl ToNumberRepresentation for i32 {
    open spec fn representation(&self) -> Seq<u8> {
        int_text(*self as int)
    }

    fn to_number_representation(self) -> (r: Vec<u8>) {
        itoa_i128(self as i128)
    }
}

impl ToNumberRepresentation for i64 {
    open spec fn representation(&self) -> Seq<u8> {
        int_text(*self as int)
    }

    fn to_number_representation(self) -> (r: Vec<u8>) {
        itoa_i128(self as i128)
    }
}

impl ToNumberRepresentation for i128 {
    open spec fn representation(&self) -> Seq<u8> {
        int_text(*self as int)
    }

    fn to_number_representation(self) -> (r: Vec<u8>) {
        itoa_i128(self)
    }
}

impl ToNumberRepresentation for u8 {
    open spec fn representation(&self) -> Seq<u8> {
        int_text(*self as int)
    }

    fn to_number_representation(self) -> (r: Vec<u8>) {
        itoa_u128(self as u128)
    }
}

impl ToNumberRepresentation for u16 {
    open spec fn representation(&self) -> Seq<u8> {
        int_text(*self as int)
    }

    fn to_number_representation(self) -> (r: Vec<u8>) {
        itoa_u128(self as u128)
    }
}

impl ToNumberRepresentation for u32 {
    open spec fn representation(&self) -> Seq<u8> {
        int_text(*self as int)
    }

    fn to_number_representation(self) -> (r: Vec<u8>) {
        itoa_u128(self as u128)
    }
}

impl ToNumberRepresentation for u64 {
    open spec fn representation(&self) -> Seq<u8> {
        int_text(*self as int)
    }

    fn to_number_representation(self) -> (r: Vec<u8>) {
        itoa_u128(self as u128)
    }
}

impl ToNumberRepresentation for u128 {
    open spec fn representation(&self) -> Seq<u8> {
        int_text(*self as int)
    }

    fn to_number_representation(self) -> (r: Vec<u8>) {
        itoa_u128(self)
    }
}

/// A float given by its text: the text is written as it is.
impl ToNumberRepresentation for String {
    open spec fn representation(&self) -> Seq<u8> {
        encode_utf8(self@)
    }

    fn to_number_representation(self) -> (r: Vec<u8>) {
        slice_to_vec(self.as_str().as_bytes())
    }
}

} // verus!
