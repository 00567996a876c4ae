//! The text of every value is valid UTF-8, compact or pretty.

use vstd::prelude::*;
use vstd::utf8::{
    encode_utf8, encode_utf8_valid_utf8, is_continuation_byte, length_of_first_scalar, pop_first_scalar,
    valid_first_scalar, valid_utf8, valid_utf8_concat,
};

use crate::ascii::{COLON, COMMA, LEFT_BRACE, LEFT_BRACKET, LINE_FEED, QUOTE, RIGHT_BRACE, RIGHT_BRACKET, SPACE};
use crate::roundtrip::lemma_ascii_valid;
use crate::roundtrip::lemma_int_text_value;
use crate::ser::formatter::minify::{minify_items, minify_members, minify_text};
use crate::ser::formatter::pretty::{pretty_items, pretty_members, pretty_text};
use crate::ser::formatter::{bool_text, escape_byte, escape_from, hex_upper, is_c1_pair, null_text, quoted, spaces, unicode_escape};
use crate::value::ValueModel;

verus! {

/// Every byte of `b` is below `0x80`.
pub open spec fn ascii(b: Seq<u8>) -> bool {
    forall|k: int| 0 <= k < b.len() ==> b[k] < 0x80u8
}

proof fn lemma_ascii(b: Seq<u8>)
    requires
        ascii(b),
    ensures
        valid_utf8(b),
{
    lemma_ascii_valid(b);
}

/// The escape of a byte below `0x80` is ASCII.
proof fn lemma_escape_byte_ascii(c: u8)
    requires
        c < 0x80u8,
    ensures
        ascii(escape_byte(c)),
{
    lemma_unicode_escape_ascii(c);
}

/// `\u00XX` is ASCII.
proof fn lemma_unicode_escape_ascii(c: u8)
    ensures
        ascii(unicode_escape(c)),
{
    assert(hex_upper(c as int / 16) < 0x80u8);
    assert(hex_upper(c as int % 16) < 0x80u8);
}

/// The first character of valid UTF-8, as its bytes, is valid UTF-8.
proof fn lemma_first_scalar_valid(rest: Seq<u8>)
    requires
        valid_first_scalar(rest),
    ensures
        valid_utf8(rest.subrange(0, length_of_first_scalar(rest))),
{
    let l = length_of_first_scalar(rest);
    assert(1 <= l <= rest.len());
    let head = rest.subrange(0, l);
    assert(forall|k: int| 0 <= k < l ==> head[k] == rest[k]);
    assert(valid_first_scalar(head));
    assert(length_of_first_scalar(head) == l);
    assert(pop_first_scalar(head) =~= Seq::<u8>::empty());
    assert(valid_utf8(pop_first_scalar(head)));
    reveal_with_fuel(valid_utf8, 2);
}

/// Escaping the bytes of valid UTF-8 from `m` on gives valid UTF-8: control
/// characters and C1 control characters become ASCII escapes, the rest stays
/// as it is.
pub proof fn lemma_escape_valid(b: Seq<u8>, m: int)
    requires
        0 <= m <= b.len(),
        valid_utf8(b.subrange(m, b.len() as int)),
    ensures
        valid_utf8(escape_from(b, m)),
    decreases b.len() - m,
{
    if m == b.len() {
        assert(escape_from(b, m) =~= Seq::<u8>::empty());
    } else {
        let rest = b.subrange(m, b.len() as int);
        assert(rest.len() != 0);
        assert(valid_first_scalar(rest));
        let l = length_of_first_scalar(rest);
        assert(1 <= l <= 4 && l <= rest.len());
        assert(pop_first_scalar(rest) =~= b.subrange(m + l, b.len() as int));
        assert(forall|k: int| 0 <= k < rest.len() ==> rest[k] == b[m + k]);
        if l == 1 {
            lemma_escape_valid(b, m + 1);
            assert(!is_c1_pair(b, m));
            lemma_escape_byte_ascii(b[m]);
            lemma_ascii(escape_byte(b[m]));
            valid_utf8_concat(escape_byte(b[m]), escape_from(b, m + 1));
        } else if is_c1_pair(b, m) {
            assert(l == 2);
            lemma_escape_valid(b, m + 2);
            lemma_unicode_escape_ascii(b[m + 1]);
            lemma_ascii(unicode_escape(b[m + 1]));
            valid_utf8_concat(unicode_escape(b[m + 1]), escape_from(b, m + 2));
        } else {
            lemma_escape_valid(b, m + l);
            let head = b.subrange(m, m + l);
            assert(head =~= rest.subrange(0, l));
            lemma_first_scalar_valid(rest);
            assert forall|k: int| 1 <= k < l implies is_continuation_byte(#[trigger] b[m + k]) by {
                assert(rest[k] == b[m + k]);
            }
            assert(b[m] >= 0xC0u8);
            assert(escape_byte(b[m]) =~= seq![b[m]]);
            if l >= 2 {
                assert(!is_c1_pair(b, m + 1));
                assert(escape_byte(b[m + 1]) =~= seq![b[m + 1]]);
            }
            if l >= 3 {
                assert(!is_c1_pair(b, m + 2));
                assert(escape_byte(b[m + 2]) =~= seq![b[m + 2]]);
            }
            if l >= 4 {
                assert(!is_c1_pair(b, m + 3));
                assert(escape_byte(b[m + 3]) =~= seq![b[m + 3]]);
            }
            assert(escape_from(b, m) =~= head + escape_from(b, m + l)) by {
                if l == 2 {
                    assert(escape_from(b, m) == seq![b[m]] + escape_from(b, m + 1));
                    assert(escape_from(b, m + 1) == seq![b[m + 1]] + escape_from(b, m + 2));
                } else if l == 3 {
                    assert(escape_from(b, m) == seq![b[m]] + escape_from(b, m + 1));
                    assert(escape_from(b, m + 1) == seq![b[m + 1]] + escape_from(b, m + 2));
                    assert(escape_from(b, m + 2) == seq![b[m + 2]] + escape_from(b, m + 3));
                } else {
                    assert(escape_from(b, m) == seq![b[m]] + escape_from(b, m + 1));
                    assert(escape_from(b, m + 1) == seq![b[m + 1]] + escape_from(b, m + 2));
                    assert(escape_from(b, m + 2) == seq![b[m + 2]] + escape_from(b, m + 3));
                    assert(escape_from(b, m + 3) == seq![b[m + 3]] + escape_from(b, m + 4));
                }
            }
            valid_utf8_concat(head, escape_from(b, m + l));
        }
    }
}

/// A string as it is written is valid UTF-8.
pub proof fn lemma_quoted_valid(t: Seq<char>)
    ensures
        valid_utf8(quoted(encode_utf8(t))),
{
    let b = encode_utf8(t);
    encode_utf8_valid_utf8(t);
    assert(b.subrange(0, b.len() as int) =~= b);
    lemma_escape_valid(b, 0);
    lemma_ascii(seq![QUOTE]);
    valid_utf8_concat(seq![QUOTE], escape_from(b, 0));
    valid_utf8_concat(seq![QUOTE] + escape_from(b, 0), seq![QUOTE]);
}

/// The text of a literal, a number or a string is valid UTF-8.
proof fn lemma_scalar_text_valid(v: ValueModel)
    ensures
        v matches ValueModel::Null ==> valid_utf8(null_text()),
        v matches ValueModel::Bool(b) ==> valid_utf8(bool_text(b)),
        v matches ValueModel::Integer(i) ==> valid_utf8(crate::ser::access::number::int_text(i)),
        v matches ValueModel::Float(f) ==> valid_utf8(encode_utf8(f)),
        v matches ValueModel::String(s) ==> valid_utf8(quoted(encode_utf8(s))),
{
    match v {
        ValueModel::Null => lemma_ascii(null_text()),
        ValueModel::Bool(b) => lemma_ascii(bool_text(b)),
        ValueModel::Integer(i) => lemma_int_text_value(i),
        ValueModel::Float(f) => encode_utf8_valid_utf8(f),
        ValueModel::String(s) => lemma_quoted_valid(s),
        _ => {},
    }
}

/// The compact text of every value is valid UTF-8.
pub proof fn lemma_minify_valid(v: ValueModel)
    ensures
        valid_utf8(minify_text(v)),
    decreases v, 0int,
{
    lemma_scalar_text_valid(v);
    match v {
        ValueModel::Array(a) => {
            lemma_minify_items_valid(a, 0);
            lemma_ascii(seq![LEFT_BRACKET]);
            lemma_ascii(seq![RIGHT_BRACKET]);
            valid_utf8_concat(seq![LEFT_BRACKET], minify_items(a, 0));
            valid_utf8_concat(seq![LEFT_BRACKET] + minify_items(a, 0), seq![RIGHT_BRACKET]);
        },
        ValueModel::Object(m) => {
            lemma_minify_members_valid(m, 0);
            lemma_ascii(seq![LEFT_BRACE]);
            lemma_ascii(seq![RIGHT_BRACE]);
            valid_utf8_concat(seq![LEFT_BRACE], minify_members(m, 0));
            valid_utf8_concat(seq![LEFT_BRACE] + minify_members(m, 0), seq![RIGHT_BRACE]);
        },
        _ => {},
    }
}

proof fn lemma_minify_items_valid(a: Seq<ValueModel>, k: int)
    ensures
        valid_utf8(minify_items(a, k)),
    decreases a, a.len() - k,
{
    if 0 <= k < a.len() {
        assert(decreases_to!(a => a[k]));
        lemma_minify_valid(a[k]);
        lemma_minify_items_valid(a, k + 1);
        let sep: Seq<u8> = if k + 1 < a.len() { seq![COMMA] } else { Seq::empty() };
        lemma_ascii(sep);
        valid_utf8_concat(minify_text(a[k]), sep);
        valid_utf8_concat(minify_text(a[k]) + sep, minify_items(a, k + 1));
    } else {
        lemma_ascii(minify_items(a, k));
    }
}

proof fn lemma_minify_members_valid(m: Seq<(Seq<char>, ValueModel)>, k: int)
    ensures
        valid_utf8(minify_members(m, k)),
    decreases m, m.len() - k,
{
    if 0 <= k < m.len() {
        assert(decreases_to!(m => m[k]));
        assert(decreases_to!(m[k] => m[k].1));
        let q = quoted(encode_utf8(m[k].0));
        let tv = minify_text(m[k].1);
        let sep: Seq<u8> = if k + 1 < m.len() { seq![COMMA] } else { Seq::empty() };
        lemma_quoted_valid(m[k].0);
        lemma_minify_valid(m[k].1);
        lemma_minify_members_valid(m, k + 1);
        lemma_ascii(seq![COLON]);
        lemma_ascii(sep);
        valid_utf8_concat(q, seq![COLON]);
        valid_utf8_concat(q + seq![COLON], tv);
        valid_utf8_concat(q + seq![COLON] + tv, sep);
        valid_utf8_concat(q + seq![COLON] + tv + sep, minify_members(m, k + 1));
    } else {
        lemma_ascii(minify_members(m, k));
    }
}

/// Spaces are ASCII.
proof fn lemma_spaces_ascii(n: nat)
    ensures
        ascii(spaces(n)),
{
}

/// The pretty text of every value, at any level, is valid UTF-8.
pub proof fn lemma_pretty_valid(v: ValueModel, level: nat)
    ensures
        valid_utf8(pretty_text(v, level)),
    decreases v, 0int,
{
    lemma_scalar_text_valid(v);
    match v {
        ValueModel::Array(a) => {
            let open = seq![LEFT_BRACKET, LINE_FEED];
            let close = spaces(2 * level).push(RIGHT_BRACKET);
            lemma_pretty_items_valid(a, 0, level + 1);
            lemma_ascii(open);
            lemma_spaces_ascii(2 * level);
            lemma_ascii(close);
            valid_utf8_concat(open, pretty_items(a, 0, level + 1));
            valid_utf8_concat(open + pretty_items(a, 0, level + 1), close);
        },
        ValueModel::Object(m) => {
            let open = seq![LEFT_BRACE, LINE_FEED];
            let close = spaces(2 * level).push(RIGHT_BRACE);
            lemma_pretty_members_valid(m, 0, level + 1);
            lemma_ascii(open);
            lemma_spaces_ascii(2 * level);
            lemma_ascii(close);
            valid_utf8_concat(open, pretty_members(m, 0, level + 1));
            valid_utf8_concat(open + pretty_members(m, 0, level + 1), close);
        },
        _ => {},
    }
}

proof fn lemma_pretty_items_valid(a: Seq<ValueModel>, k: int, level: nat)
    ensures
        valid_utf8(pretty_items(a, k, level)),
    decreases a, a.len() - k,
{
    if 0 <= k < a.len() {
        assert(decreases_to!(a => a[k]));
        let ind = spaces(2 * level);
        let end = seq![COMMA, LINE_FEED];
        lemma_pretty_valid(a[k], level);
        lemma_pretty_items_valid(a, k + 1, level);
        lemma_spaces_ascii(2 * level);
        lemma_ascii(ind);
        lemma_ascii(end);
        valid_utf8_concat(ind, pretty_text(a[k], level));
        valid_utf8_concat(ind + pretty_text(a[k], level), end);
        valid_utf8_concat(ind + pretty_text(a[k], level) + end, pretty_items(a, k + 1, level));
    } else {
        lemma_ascii(pretty_items(a, k, level));
    }
}

proof fn lemma_pretty_members_valid(m: Seq<(Seq<char>, ValueModel)>, k: int, level: nat)
    ensures
        valid_utf8(pretty_members(m, k, level)),
    decreases m, m.len() - k,
{
    if 0 <= k < m.len() {
        assert(decreases_to!(m => m[k]));
        assert(decreases_to!(m[k] => m[k].1));
        let ind = spaces(2 * level);
        let q = quoted(encode_utf8(m[k].0));
        let colon = seq![COLON, SPACE];
        let tv = pretty_text(m[k].1, level);
        let end = seq![COMMA, LINE_FEED];
        lemma_quoted_valid(m[k].0);
        lemma_pretty_valid(m[k].1, level);
        lemma_pretty_members_valid(m, k + 1, level);
        lemma_spaces_ascii(2 * level);
        lemma_ascii(ind);
        lemma_ascii(colon);
        lemma_ascii(end);
        valid_utf8_concat(ind, q);
        valid_utf8_concat(ind + q, colon);
        valid_utf8_concat(ind + q + colon, tv);
        valid_utf8_concat(ind + q + colon + tv, end);
        valid_utf8_concat(ind + q + colon + tv + end, pretty_members(m, k + 1, level));
    } else {
        lemma_ascii(pretty_members(m, k, level));
    }
}

} // verus!
