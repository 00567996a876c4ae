//! What the conversions between numbers and Rust integers do, stated over
//! the bounds of each integer type: a number is taken as an integer type
//! exactly when it lies between the type's `MIN` and `MAX`, and it is taken
//! as the same integer.

use vstd::prelude::*;

use crate::ascii::MINUS;
use crate::de::access::number::{all_digits, parse_integer, FromNumberBuilder};
use crate::roundtrip::{lemma_int_text_value, lemma_nat_text};
use crate::ser::access::number::{int_text, nat_text};
use crate::value::de::number::FromNumber;
use crate::value::ser::number::ToNumber;

verus! {

/// The decimal text of an integer read as an unsigned integer: the integer
/// itself when it is not negative; nothing when it is (a minus sign is no
/// digit).
pub proof fn lemma_int_text_unsigned(n: int)
    ensures
        parse_integer(int_text(n), false) == if n >= 0 {
            Some(n)
        } else {
            None::<int>
        },
{
    lemma_int_text_value(n);
    if n < 0 {
        let t = int_text(n);
        assert(t[0] == MINUS);
        assert(!all_digits(t));
    } else {
        lemma_nat_text(n as nat);
        assert(int_text(n) == nat_text(n as nat));
    }
}

/// Reading the decimal text of an integer `n` into an integer type succeeds
/// exactly when `n` lies between the type's `MIN` and `MAX`, and then gives
/// `n` itself.
pub proof fn lemma_text_into_integer_types(n: int)
    ensures
        <u8 as FromNumberBuilder>::accepts(int_text(n), false) <==> u8::MIN <= n <= u8::MAX,
        <u16 as FromNumberBuilder>::accepts(int_text(n), false) <==> u16::MIN <= n <= u16::MAX,
        <u32 as FromNumberBuilder>::accepts(int_text(n), false) <==> u32::MIN <= n <= u32::MAX,
        <u64 as FromNumberBuilder>::accepts(int_text(n), false) <==> u64::MIN <= n <= u64::MAX,
        <u128 as FromNumberBuilder>::accepts(int_text(n), false) <==> u128::MIN <= n <= u128::MAX,
        <i8 as FromNumberBuilder>::accepts(int_text(n), false) <==> i8::MIN <= n <= i8::MAX,
        <i16 as FromNumberBuilder>::accepts(int_text(n), false) <==> i16::MIN <= n <= i16::MAX,
        <i32 as FromNumberBuilder>::accepts(int_text(n), false) <==> i32::MIN <= n <= i32::MAX,
        <i64 as FromNumberBuilder>::accepts(int_text(n), false) <==> i64::MIN <= n <= i64::MAX,
        <i128 as FromNumberBuilder>::accepts(int_text(n), false) <==> i128::MIN <= n <= i128::MAX,
        forall|v: u8| #[trigger] <u8 as FromNumberBuilder>::converts_to(int_text(n), false, v) <==> v as int == n,
        forall|v: u16| #[trigger] <u16 as FromNumberBuilder>::converts_to(int_text(n), false, v) <==> v as int == n,
        forall|v: u32| #[trigger] <u32 as FromNumberBuilder>::converts_to(int_text(n), false, v) <==> v as int == n,
        forall|v: u64| #[trigger] <u64 as FromNumberBuilder>::converts_to(int_text(n), false, v) <==> v as int == n,
        forall|v: u128| #[trigger] <u128 as FromNumberBuilder>::converts_to(int_text(n), false, v) <==> v as int == n,
        forall|v: i8| #[trigger] <i8 as FromNumberBuilder>::converts_to(int_text(n), false, v) <==> v as int == n,
        forall|v: i16| #[trigger] <i16 as FromNumberBuilder>::converts_to(int_text(n), false, v) <==> v as int == n,
        forall|v: i32| #[trigger] <i32 as FromNumberBuilder>::converts_to(int_text(n), false, v) <==> v as int == n,
        forall|v: i64| #[trigger] <i64 as FromNumberBuilder>::converts_to(int_text(n), false, v) <==> v as int == n,
        forall|v: i128| #[trigger] <i128 as FromNumberBuilder>::converts_to(int_text(n), false, v) <==> v as int == n,
{
    lemma_int_text_unsigned(n);
    lemma_int_text_value(n);
}

/// Taking the integer `i` of a value as an integer type succeeds exactly when
/// `i` lies between the type's `MIN` and `MAX`, and then gives `i` itself.
pub proof fn lemma_number_into_integer_types(i: i64)
    ensures
        <u8 as FromNumber>::fits(i as int) <==> u8::MIN <= i <= u8::MAX,
        <u16 as FromNumber>::fits(i as int) <==> u16::MIN <= i <= u16::MAX,
        <u32 as FromNumber>::fits(i as int) <==> u32::MIN <= i <= u32::MAX,
        <u64 as FromNumber>::fits(i as int) <==> u64::MIN <= i <= u64::MAX,
        <u128 as FromNumber>::fits(i as int) <==> u128::MIN <= i <= u128::MAX,
        <i8 as FromNumber>::fits(i as int) <==> i8::MIN <= i <= i8::MAX,
        <i16 as FromNumber>::fits(i as int) <==> i16::MIN <= i <= i16::MAX,
        <i32 as FromNumber>::fits(i as int) <==> i32::MIN <= i <= i32::MAX,
        <i64 as FromNumber>::fits(i as int) <==> i64::MIN <= i <= i64::MAX,
        <i128 as FromNumber>::fits(i as int) <==> i128::MIN <= i <= i128::MAX,
        <u8 as FromNumber>::fits(i as int) ==> <u8 as FromNumber>::from_int(i as int) as int == i,
        <u16 as FromNumber>::fits(i as int) ==> <u16 as FromNumber>::from_int(i as int) as int == i,
        <u32 as FromNumber>::fits(i as int) ==> <u32 as FromNumber>::from_int(i as int) as int == i,
        <u64 as FromNumber>::fits(i as int) ==> <u64 as FromNumber>::from_int(i as int) as int == i,
        <u128 as FromNumber>::fits(i as int) ==> <u128 as FromNumber>::from_int(i as int) as int == i,
        <i8 as FromNumber>::fits(i as int) ==> <i8 as FromNumber>::from_int(i as int) as int == i,
        <i16 as FromNumber>::fits(i as int) ==> <i16 as FromNumber>::from_int(i as int) as int == i,
        <i32 as FromNumber>::fits(i as int) ==> <i32 as FromNumber>::from_int(i as int) as int == i,
        <i64 as FromNumber>::fits(i as int) ==> <i64 as FromNumber>::from_int(i as int) as int == i,
        <i128 as FromNumber>::fits(i as int) ==> <i128 as FromNumber>::from_int(i as int) as int == i,
{
}

/// Making a number out of a Rust integer takes the integer's own value: the
/// number of `x` is `x` itself, whatever the type, so that every integer
/// that fits in an `i64` becomes the number with that value.
pub proof fn lemma_integers_into_numbers(a: u8, b: u16, c: u32, d: u64, e: u128, f: i8, g: i16, h: i32, k: i64, l: i128)
    ensures
        a.integer() == a as int,
        b.integer() == b as int,
        c.integer() == c as int,
        d.integer() == d as int,
        e.integer() == e as int,
        f.integer() == f as int,
        g.integer() == g as int,
        h.integer() == h as int,
        k.integer() == k as int,
        l.integer() == l as int,
{
}

} // verus!
