//! Checking that bytes are UTF-8.

use vstd::prelude::*;
use vstd::utf8::{decode_utf8, encode_utf8_decode_utf8, valid_utf8};
use vstd::string::StringSliceAdditionalSpecFns;

verus! {

/// Calls `std::str::from_utf8`, which returns the bytes as a string slice when
/// they are valid UTF-8 and an error otherwise. The contract claims exactly
/// that, with vstd's statement of UTF-8: `Some` iff `valid_utf8`, and then the
/// characters that the bytes decode to.
#[verifier::external_body]
pub(crate) fn str_from_utf8<'a>(bytes: &'a [u8]) -> (r: Option<&'a str>)
    ensures
        r is Some <==> valid_utf8(bytes@),
        r matches Some(s) ==> s@ == decode_utf8(bytes@),
{
    std::str::from_utf8(bytes).ok()
}

/// Decodes bytes into an owned string, or `None` when they are not UTF-8.
pub(crate) fn string_from_utf8(bytes: &[u8]) -> (r: Option<String>)
    ensures
        r is Some <==> valid_utf8(bytes@),
        r matches Some(s) ==> s@ == decode_utf8(bytes@),
{
    match str_from_utf8(bytes) {
        Some(s) => Some(s.to_owned()),
        None => None,
    }
}

} // verus!

verus! {

/// Whether two string slices hold the same characters, found by comparing
/// their bytes: the bytes of a string are the UTF-8 encoding of its
/// characters, and different characters encode differently.
pub(crate) fn str_eq(a: &str, b: &str) -> (r: bool)
    ensures
        r == (a@ == b@),
{
    let x = a.as_bytes();
    let y = b.as_bytes();
    proof {
        encode_utf8_decode_utf8(a@);
        encode_utf8_decode_utf8(b@);
    }
    if x.len() != y.len() {
        return false;
    }
    let mut i: usize = 0;
    while i < x.len()
        invariant
            x@ == a.spec_bytes(),
            y@ == b.spec_bytes(),
            x@.len() == y@.len(),
            i <= x@.len(),
            forall|j: int| 0 <= j < i ==> x@[j] == y@[j],
            decode_utf8(a.spec_bytes()) == a@,
            decode_utf8(b.spec_bytes()) == b@,
        decreases x.len() - i,
    {
        if x[i] != y[i] {
            return false;
        }
        i = i + 1;
    }
    assert(x@ =~= y@);
    true
}

} // verus!

verus! {

/// The pieces of `s` between the occurrences of `sep`, as `str::split` with a
/// character gives them: one piece more than there are separators, empty
/// pieces included.
pub open spec fn split_on(s: Seq<char>, sep: char) -> Seq<Seq<char>>
    decreases s.len(),
{
    if s.len() == 0 {
        seq![Seq::empty()]
    } else {
        let rest = split_on(s.drop_last(), sep);
        if s.last() == sep {
            rest.push(Seq::empty())
        } else {
            rest.update(rest.len() - 1, rest.last().push(s.last()))
        }
    }
}

/// Calls `str::split` with `.` and collects the pieces. The contract claims
/// what the documentation of `str::split` states: the pieces between the
/// dots, in order, empty ones included.
#[verifier::external_body]
pub(crate) fn split_dots<'a>(s: &'a str) -> (r: Vec<&'a str>)
    ensures
        r@.len() == split_on(s@, '.').len(),
        forall|i: int| 0 <= i < r@.len() ==> (#[trigger] r@[i])@ == split_on(s@, '.')[i],
{
    s.split('.').collect()
}

} // verus!

verus! {

/// Calls `String::as_mut_str`, which lends the whole string as a mutable
/// string slice: the slice holds the string's characters, and what is left in
/// the slice when the loan ends is what the string holds.
#[verifier::external_body]
pub(crate) fn string_as_mut_str(s: &mut String) -> (r: &mut str)
    ensures
        r@ == old(s)@,
        final(s)@ == final(r)@,
{
    s.as_mut_str()
}

} // verus!
