//! What reading the text of a value gives back: the value itself, for every
//! value whose floats are number texts.

use vstd::prelude::*;
use vstd::utf8::{decode_utf8, decode_utf8_encode_utf8, encode_utf8, encode_utf8_decode_utf8, encode_utf8_valid_utf8, valid_utf8};
use crate::ser::valid_text::{lemma_minify_valid, lemma_pretty_valid};
use vstd::utf8::{partial_valid_utf8, partial_valid_utf8_extend_ascii_block};

use crate::ascii::{
    is_control, is_digit, BACKSLASH, BACKSPACE, CARRIAGE_RETURN, DIGIT_NINE, DIGIT_ONE, DIGIT_ZERO, DOT, FORM_FEED,
    LINE_FEED, LOWER_B, LOWER_F, LOWER_N, LOWER_R, LOWER_T, LOWER_U, MINUS, PLUS, QUOTE, TAB, UPPER_A,
};
use crate::de::grammar::{string_content, ErrorModel};
use crate::de::syntax::{code_unit_utf8, escape, hex_digit, hex_value, is_simple_escape, simple_escape_byte, string_body};
use crate::ser::formatter::{escape_byte, escape_from, hex_upper, is_c1_pair, quoted, unicode_escape};
use crate::de::access::number::{all_digits, decimal, integer_in_range, parse_integer};
use crate::de::syntax::{
    digits_end, exponent_part, fraction_part, integer_part, is_exponent_mark, lemma_digits_end,
    lemma_digits_end_unique, number,
};
use crate::ascii::{COLON, COMMA, LEFT_BRACE, LEFT_BRACKET, RIGHT_BRACE, RIGHT_BRACKET};
use crate::de::grammar::{
    document, elements, false_ident, member_value, members, null_ident, number_value, true_ident, value_at,
};
use crate::de::syntax::{lemma_match_from_unique, match_len, skip_ws};
use crate::ser::access::number::{int_text, nat_text};
use crate::ascii::{is_whitespace, SPACE};
use crate::ser::formatter::minify::{minify_items, minify_members, minify_text};
use crate::ser::formatter::pretty::{pretty_items, pretty_members, pretty_text};
use crate::ser::formatter::spaces;
use crate::ser::formatter::{bool_text, null_text};
use crate::value::{assoc_insert, key_index, keys_unique, lemma_key_index, ValueModel};

verus! {

/// The bytes of `t` stand in `s` from `i` on.
pub open spec fn holds_at(s: Seq<u8>, i: int, t: Seq<u8>) -> bool {
    &&& 0 <= i
    &&& i + t.len() <= s.len()
    &&& forall|k: int| 0 <= k < t.len() ==> #[trigger] s[i + k] == t[k]
}

/// What follows a token at `e` cannot continue a number.
pub open spec fn ends_number(s: Seq<u8>, e: int) -> bool {
    e >= s.len() || !(is_digit(s[e]) || s[e] == DOT || is_exponent_mark(s[e]))
}

/// A text that reads as one float, whole.
pub open spec fn float_text(b: Seq<u8>) -> bool {
    &&& number(b, 0) == Ok::<(int, bool), crate::error::SyntaxError>((b.len() as int, true))
    &&& crate::de::access::number::ends_with_digit(b)
}

proof fn lemma_holds_at_subrange(s: Seq<u8>, i: int, t: Seq<u8>)
    requires
        holds_at(s, i, t),
    ensures
        s.subrange(i, i + t.len()) == t,
{
    assert forall|k: int| 0 <= k < t.len() implies s.subrange(i, i + t.len())[k] == t[k] by {
        assert(s[i + k] == t[k]);
    }
    assert(s.subrange(i, i + t.len()) =~= t);
}

proof fn lemma_holds_at_concat(s: Seq<u8>, i: int, x: Seq<u8>, y: Seq<u8>)
    requires
        holds_at(s, i, x + y),
    ensures
        holds_at(s, i, x),
        holds_at(s, i + x.len(), y),
{
    assert forall|k: int| 0 <= k < x.len() implies s[i + k] == x[k] by {
        assert((x + y)[k] == x[k]);
    }
    assert forall|k: int| 0 <= k < y.len() implies s[i + x.len() + k] == y[k] by {
        assert((x + y)[x.len() + k] == y[k]);
        assert(s[i + (x.len() + k)] == (x + y)[x.len() + k]);
    }
}

/// Bytes below `0x80` are valid UTF-8.
pub proof fn lemma_ascii_valid(b: Seq<u8>)
    requires
        forall|k: int| 0 <= k < b.len() ==> b[k] < 0x80u8,
    ensures
        valid_utf8(b),
{
    assert(b.subrange(0, 0) =~= Seq::<u8>::empty());
    assert(partial_valid_utf8(b, 0));
    partial_valid_utf8_extend_ascii_block(b, 0, b.len() as int);
    assert(b.subrange(0, b.len() as int) =~= b);
}

/// The digits of a number: at least one, all decimal, no leading zero, and their value.
pub proof fn lemma_nat_text(n: nat)
    ensures
        nat_text(n).len() >= 1,
        all_digits(nat_text(n)),
        n >= 1 ==> nat_text(n)[0] != DIGIT_ZERO,
        n == 0 ==> nat_text(n) == seq![DIGIT_ZERO],
        decimal(nat_text(n)) == n,
    decreases n,
{
    if n >= 10 {
        lemma_nat_text(n / 10);
        let d = nat_text(n / 10);
        assert(nat_text(n).drop_last() =~= d);
        assert(nat_text(n)[0] == d[0]);
        assert(all_digits(nat_text(n))) by {
            assert forall|k: int| 0 <= k < nat_text(n).len() implies is_digit(#[trigger] nat_text(n)[k]) by {
                if k < d.len() {
                    assert(nat_text(n)[k] == d[k]);
                }
            }
        }
        assert(decimal(nat_text(n)) == decimal(d) * 10 + n % 10);
        assert((n / 10) * 10 + n % 10 == n) by (nonlinear_arith);
    } else {
        assert(decimal(nat_text(n)) == decimal(nat_text(n).drop_last()) * 10 + n);
        assert(nat_text(n).drop_last() =~= Seq::<u8>::empty());
    }
}

/// The decimal text of an integer is valid UTF-8 and reads back as the integer.
pub proof fn lemma_int_text_value(v: int)
    ensures
        valid_utf8(int_text(v)),
        parse_integer(int_text(v), true) == Some(v),
        int_text(v).len() >= 1,
{
    let n: nat = if v < 0 { (-v) as nat } else { v as nat };
    lemma_nat_text(n);
    let d = nat_text(n);
    assert forall|k: int| 0 <= k < int_text(v).len() implies int_text(v)[k] < 0x80u8 by {
        if v < 0 {
            if k > 0 {
                assert(int_text(v)[k] == d[k - 1]);
                assert(is_digit(d[k - 1]));
            }
        } else {
            assert(is_digit(d[k]));
        }
    }
    lemma_ascii_valid(int_text(v));
    if v < 0 {
        assert(int_text(v).drop_first() =~= d);
    } else {
        assert(is_digit(d[0]));
    }
}

/// The decimal text of an integer, followed by what cannot continue a
/// number, reads as that integer's text.
pub proof fn lemma_int_text_number(s: Seq<u8>, i: int, v: int)
    requires
        holds_at(s, i, int_text(v)),
        ends_number(s, i + int_text(v).len()),
    ensures
        number(s, i) == Ok::<(int, bool), crate::error::SyntaxError>((i + int_text(v).len(), false)),
{
    let n: nat = if v < 0 { (-v) as nat } else { v as nat };
    lemma_nat_text(n);
    let d = nat_text(n);
    let j = if v < 0 { i + 1 } else { i };
    let end = i + int_text(v).len();
    assert(end == j + d.len());
    assert forall|k: int| 0 <= k < d.len() implies s[j + k] == d[k] by {
        if v < 0 {
            assert(int_text(v)[k + 1] == d[k]);
            assert(s[i + (k + 1)] == int_text(v)[k + 1]);
        } else {
            assert(s[i + k] == int_text(v)[k]);
        }
    }
    if v < 0 {
        assert(s[i + 0] == int_text(v)[0]);
    }
    assert(s[j + 0] == d[0]);
    assert(is_digit(d[0]));
    if n == 0 {
        assert(integer_part(s, i) == Ok::<int, crate::error::SyntaxError>(j + 1));
    } else {
        assert forall|k: int| j + 1 <= k < end implies is_digit(s[k]) by {
            assert(s[j + (k - j)] == d[k - j]);
            assert(is_digit(d[k - j]));
        }
        lemma_digits_end_unique(s, j + 1, end);
        assert(integer_part(s, i) == Ok::<int, crate::error::SyntaxError>(end));
    }
}


/// Counting digits inside `b` counts the same in `s`, where `b` stands, when
/// the digits stop inside `b` or no digit follows it.
pub proof fn lemma_digits_end_local(s: Seq<u8>, i: int, b: Seq<u8>, k: int)
    requires
        holds_at(s, i, b),
        0 <= k <= b.len(),
        i + b.len() >= s.len() || !is_digit(s[i + b.len()]),
    ensures
        digits_end(s, i + k) == i + digits_end(b, k),
    decreases b.len() - k,
{
    if k < b.len() {
        assert(s[i + k] == b[k]);
        lemma_digits_end_local(s, i, b, k + 1);
    }
}

/// A number that is the whole of `b` reads the same where `b` stands in `s`,
/// when what follows cannot continue it.
pub proof fn lemma_number_local(s: Seq<u8>, i: int, b: Seq<u8>)
    requires
        holds_at(s, i, b),
        ends_number(s, i + b.len()),
        number(b, 0) matches Ok((e, _)) && e == b.len(),
    ensures
        number(s, i) == Ok::<(int, bool), crate::error::SyntaxError>((i + b.len(), number(b, 0)->Ok_0.1)),
{
    let n = b.len() as int;
    assert(n >= 1) by {
        crate::de::syntax::lemma_number(b, 0);
    }
    assert(s[i + 0] == b[0]);
    let j: int = if b[0] == MINUS { 1 } else { 0 };
    if j == 1 {
        assert(s[i + 1] == b[1]);
    } else {
        assert(s[i + 0] == b[0]);
    }
    let a = integer_part(b, 0)->Ok_0;
    crate::de::syntax::lemma_integer_part(b, 0);
    if b[j] == DIGIT_ZERO {
        if j + 1 < n {
            assert(s[i + (j + 1)] == b[j + 1]);
        }
        assert(integer_part(s, i) == Ok::<int, crate::error::SyntaxError>(i + a));
    } else {
        lemma_digits_end_local(s, i, b, j + 1);
        assert(integer_part(s, i) == Ok::<int, crate::error::SyntaxError>(i + a));
    }
    if a < n {
        assert(s[i + a] == b[a]);
    }
    let bb: int = if a < n && b[a] == DOT {
        crate::de::syntax::lemma_fraction_part(b, a + 1);
        assert(s[i + (a + 1)] == b[a + 1]);
        lemma_digits_end_local(s, i, b, a + 1);
        assert(fraction_part(s, i + a + 1) == Ok::<int, crate::error::SyntaxError>(
            i + fraction_part(b, a + 1)->Ok_0,
        ));
        fraction_part(b, a + 1)->Ok_0
    } else {
        a
    };
    if bb < n {
        assert(s[i + bb] == b[bb]);
        if is_exponent_mark(b[bb]) {
            crate::de::syntax::lemma_exponent_part(b, bb + 1);
            assert(s[i + (bb + 1)] == b[bb + 1]);
            lemma_digits_end_local(s, i, b, bb + 2);
            assert(exponent_part(s, i + bb + 1) == Ok::<int, crate::error::SyntaxError>(
                i + exponent_part(b, bb + 1)->Ok_0,
            ));
        }
    }
}

proof fn lemma_hex_upper(x: int)
    requires
        0 <= x < 16,
    ensures
        hex_digit(hex_upper(x)) == Some(x),
{
}

/// `\u00XX` reads as the byte it names.
proof fn lemma_unicode_escape_parse(s: Seq<u8>, k: int, c: u8)
    requires
        holds_at(s, k, unicode_escape(c)),
    ensures
        hex_value(s, k + 2, 4) == Ok::<int, crate::error::SyntaxError>(c as int),
        s[k] == BACKSLASH,
        s[k + 1] == LOWER_U,
{
    reveal_with_fuel(hex_value, 5);
    assert(s[k + 0] == unicode_escape(c)[0]);
    assert(s[k + 1] == unicode_escape(c)[1]);
    assert(s[k + 2] == unicode_escape(c)[2]);
    assert(s[k + 3] == unicode_escape(c)[3]);
    assert(s[k + 4] == unicode_escape(c)[4]);
    assert(s[k + 5] == unicode_escape(c)[5]);
    lemma_hex_upper(c as int / 16);
    lemma_hex_upper(c as int % 16);
    assert(hex_digit(DIGIT_ZERO) == Some(0int));
}

/// The escaped bytes of `b` from `m` on, then a quote, read back as those bytes.
pub proof fn lemma_escape_parse(s: Seq<u8>, k: int, b: Seq<u8>, m: int)
    requires
        0 <= m <= b.len(),
        holds_at(s, k, escape_from(b, m)),
        k + escape_from(b, m).len() < s.len(),
        s[k + escape_from(b, m).len()] == QUOTE,
    ensures
        string_body(s, k) == Ok::<(int, Seq<u8>), crate::error::SyntaxError>(
            (k + escape_from(b, m).len(), b.subrange(m, b.len() as int)),
        ),
    decreases b.len() - m,
{
    if m == b.len() {
        assert(b.subrange(m, b.len() as int) =~= Seq::<u8>::empty());
    } else if is_c1_pair(b, m) {
        let c = b[m + 1];
        let head = unicode_escape(c);
        lemma_holds_at_concat(s, k, head, escape_from(b, m + 2));
        lemma_unicode_escape_parse(s, k, c);
        lemma_escape_parse(s, k + 6, b, m + 2);
        assert(code_unit_utf8(c as int) =~= seq![b[m], c]);
        assert(escape(s, k) == Ok::<(int, Seq<u8>), crate::error::SyntaxError>((k + 6, seq![b[m], c])));
        assert(b.subrange(m, b.len() as int) =~= seq![b[m], c] + b.subrange(m + 2, b.len() as int));
    } else {
        let c = b[m];
        let head = escape_byte(c);
        lemma_holds_at_concat(s, k, head, escape_from(b, m + 1));
        lemma_escape_parse(s, k + head.len(), b, m + 1);
        assert(b.subrange(m, b.len() as int) =~= seq![c] + b.subrange(m + 1, b.len() as int));
        assert(s[k + 0] == head[0]);
        if c == QUOTE || c == BACKSLASH || c == BACKSPACE || c == FORM_FEED || c == LINE_FEED || c == CARRIAGE_RETURN || c == TAB {
            assert(s[k + 1] == head[1]);
            assert(escape(s, k) == Ok::<(int, Seq<u8>), crate::error::SyntaxError>((k + 2, seq![c])));
        } else if is_control(c) {
            lemma_unicode_escape_parse(s, k, c);
            assert(code_unit_utf8(c as int) =~= seq![c]);
            assert(escape(s, k) == Ok::<(int, Seq<u8>), crate::error::SyntaxError>((k + 6, seq![c])));
        } else {
        }
    }
}

/// A string written with its quotes reads back as its characters.
pub proof fn lemma_string_text(s: Seq<u8>, i: int, t: Seq<char>)
    requires
        holds_at(s, i, quoted(encode_utf8(t))),
    ensures
        s[i] == QUOTE,
        string_content(s, i + 1, false) == Ok::<(Seq<char>, int), ErrorModel>(
            (t, i + quoted(encode_utf8(t)).len() - 1),
        ),
{
    let b = encode_utf8(t);
    let e = escape_from(b, 0);
    assert(quoted(b) == seq![QUOTE] + e + seq![QUOTE]);
    lemma_holds_at_concat(s, i, seq![QUOTE] + e, seq![QUOTE]);
    lemma_holds_at_concat(s, i, seq![QUOTE], e);
    assert(s[i + 0] == seq![QUOTE][0]);
    assert(s[i + 1 + e.len() + 0] == seq![QUOTE][0]);
    lemma_escape_parse(s, i + 1, b, 0);
    assert(b.subrange(0, b.len() as int) =~= b);
    encode_utf8_valid_utf8(t);
    encode_utf8_decode_utf8(t);
}

/// A value whose text reads back as itself: its floats are number texts
/// with a fraction or an exponent, its integers fit an `i64`, and no object
/// holds a key twice.
pub open spec fn writable(v: ValueModel) -> bool
    decreases v, 0int,
{
    match v {
        ValueModel::Float(t) => float_text(encode_utf8(t)),
        ValueModel::Integer(i) => i64::MIN <= i <= i64::MAX,
        ValueModel::Array(a) => items_writable(a, 0),
        ValueModel::Object(m) => keys_unique(m) && members_writable(m, 0),
        _ => true,
    }
}

/// The elements from `k` on are writable.
pub open spec fn items_writable(a: Seq<ValueModel>, k: int) -> bool
    decreases a, a.len() - k,
{
    if 0 <= k < a.len() {
        proof {
            assert(decreases_to!(a => a[k]));
        }
        writable(a[k]) && items_writable(a, k + 1)
    } else {
        true
    }
}

/// The members from `k` on have writable values.
pub open spec fn members_writable(m: Seq<(Seq<char>, ValueModel)>, k: int) -> bool
    decreases m, m.len() - k,
{
    if 0 <= k < m.len() {
        proof {
            assert(decreases_to!(m => m[k]));
        }
        writable(m[k].1) && members_writable(m, k + 1)
    } else {
        true
    }
}

proof fn lemma_literal(s: Seq<u8>, i: int, ident: Seq<u8>)
    requires
        holds_at(s, i, ident),
    ensures
        match_len(s, i, ident) == ident.len(),
{
    lemma_match_from_unique(s, i, ident, 0, ident.len() as int);
}

proof fn lemma_elements_unfold(s: Seq<u8>, p: int, acc: Seq<ValueModel>, v: ValueModel, e: int)
    requires
        0 <= p < s.len(),
        skip_ws(s, p) == Ok::<int, crate::error::SyntaxError>(p),
        s[p] != RIGHT_BRACKET,
        value_at(s, p, false) == Ok::<(ValueModel, int), ErrorModel>((v, e)),
        p < e < s.len(),
        s[e] == COMMA || s[e] == RIGHT_BRACKET,
    ensures
        elements(s, p, false, acc) == if s[e] == COMMA {
            elements(s, e + 1, false, acc.push(v))
        } else {
            elements(s, e, false, acc.push(v))
        },
{
    assert(skip_ws(s, e) == Ok::<int, crate::error::SyntaxError>(e));
}

proof fn lemma_members_unfold(
    s: Seq<u8>,
    p: int,
    acc: Seq<(Seq<char>, ValueModel)>,
    key: Seq<char>,
    kend: int,
)
    requires
        0 <= p < s.len(),
        s[p] == QUOTE,
        string_content(s, p + 1, false) == Ok::<(Seq<char>, int), ErrorModel>((key, kend)),
    ensures
        members(s, p, false, acc) == member_value(s, kend + 1, false, acc, key),
{
    assert(skip_ws(s, p) == Ok::<int, crate::error::SyntaxError>(p));
}

proof fn lemma_member_value_unfold(
    s: Seq<u8>,
    c: int,
    acc: Seq<(Seq<char>, ValueModel)>,
    key: Seq<char>,
    v: ValueModel,
    e: int,
)
    requires
        1 <= c < s.len(),
        s[c] == COLON,
        value_at(s, c + 1, false) == Ok::<(ValueModel, int), ErrorModel>((v, e)),
        c + 1 < e < s.len(),
        s[e] == COMMA || s[e] == RIGHT_BRACE,
    ensures
        member_value(s, c, false, acc, key) == if s[e] == COMMA {
            members(s, e + 1, false, assoc_insert(acc, key, v))
        } else {
            members(s, e, false, assoc_insert(acc, key, v))
        },
{
    assert(skip_ws(s, c) == Ok::<int, crate::error::SyntaxError>(c));
    assert(skip_ws(s, e) == Ok::<int, crate::error::SyntaxError>(e));
}

/// The compact text of a writable value, followed by what cannot continue a
/// number, reads back as the value.
#[verifier::spinoff_prover]
#[verifier::rlimit(40)]
pub proof fn lemma_minify_value(s: Seq<u8>, i: int, v: ValueModel)
    requires
        writable(v),
        holds_at(s, i, minify_text(v)),
        ends_number(s, i + minify_text(v).len()),
    ensures
        minify_text(v).len() >= 1,
        s[i] != RIGHT_BRACKET,
        skip_ws(s, i) == Ok::<int, crate::error::SyntaxError>(i),
        value_at(s, i, false) == Ok::<(ValueModel, int), ErrorModel>((v, i + minify_text(v).len())),
    decreases v, 0int,
{
    let t = minify_text(v);
    match v {
        ValueModel::Null => {
            assert(s[i + 0] == t[0]);
            assert(null_text() == null_ident());
            lemma_literal(s, i, null_ident());
        },
        ValueModel::Bool(b) => {
            assert(s[i + 0] == t[0]);
            if b {
                assert(bool_text(b) == true_ident());
                lemma_literal(s, i, true_ident());
            } else {
                assert(bool_text(b) == false_ident());
                lemma_literal(s, i, false_ident());
            }
        },
        ValueModel::Integer(n) => {
            lemma_int_text_value(n);
            lemma_int_text_number(s, i, n);
            assert(s[i + 0] == t[0]);
            if n >= 0 {
                lemma_nat_text(n as nat);
                assert(is_digit(nat_text(n as nat)[0]));
            }
            lemma_holds_at_subrange(s, i, t);
        },
        ValueModel::Float(f) => {
            let b = encode_utf8(f);
            crate::de::syntax::lemma_number(b, 0);
            lemma_number_local(s, i, b);
            assert(s[i + 0] == t[0]);
            crate::de::syntax::lemma_integer_part(b, 0);
            lemma_holds_at_subrange(s, i, t);
            encode_utf8_valid_utf8(f);
            encode_utf8_decode_utf8(f);
        },
        ValueModel::String(st) => {
            lemma_string_text(s, i, st);
            assert(quoted(encode_utf8(st)).len() >= 2);
        },
        ValueModel::Array(a) => {
            let items = minify_items(a, 0);
            lemma_holds_at_concat(s, i, seq![LEFT_BRACKET] + items, seq![RIGHT_BRACKET]);
            lemma_holds_at_concat(s, i, seq![LEFT_BRACKET], items);
            assert(s[i + 0] == seq![LEFT_BRACKET][0]);
            assert(s[i + 1 + items.len() + 0] == seq![RIGHT_BRACKET][0]);
            lemma_minify_items(s, i + 1, a, 0);
            assert(a.subrange(0, 0) =~= Seq::<ValueModel>::empty());
        },
        ValueModel::Object(m) => {
            let mm = minify_members(m, 0);
            lemma_holds_at_concat(s, i, seq![LEFT_BRACE] + mm, seq![RIGHT_BRACE]);
            lemma_holds_at_concat(s, i, seq![LEFT_BRACE], mm);
            assert(s[i + 0] == seq![LEFT_BRACE][0]);
            assert(s[i + 1 + mm.len() + 0] == seq![RIGHT_BRACE][0]);
            lemma_minify_members(s, i + 1, m, 0);
            assert(m.subrange(0, 0) =~= Seq::<(Seq<char>, ValueModel)>::empty());
        },
    }
}

/// The compact text of the elements from `k` on, then `]`, reads back as the
/// array when the elements before `k` were read.
pub proof fn lemma_minify_items(s: Seq<u8>, p: int, a: Seq<ValueModel>, k: int)
    requires
        0 <= k <= a.len(),
        items_writable(a, k),
        holds_at(s, p, minify_items(a, k)),
        p + minify_items(a, k).len() < s.len(),
        s[p + minify_items(a, k).len()] == RIGHT_BRACKET,
    ensures
        elements(s, p, false, a.subrange(0, k)) == Ok::<(ValueModel, int), ErrorModel>(
            (ValueModel::Array(a), p + minify_items(a, k).len() + 1),
        ),
    decreases a, a.len() - k,
{
    if k == a.len() {
        assert(a.subrange(0, k) =~= a);
    } else {
        assert(decreases_to!(a => a[k]));
        let tk = minify_text(a[k]);
        let sep: Seq<u8> = if k + 1 < a.len() { seq![COMMA] } else { Seq::empty() };
        let rest = minify_items(a, k + 1);
        assert(minify_items(a, k) == tk + sep + rest);
        lemma_holds_at_concat(s, p, tk + sep, rest);
        lemma_holds_at_concat(s, p, tk, sep);
        let e = p + tk.len();
        if k + 1 < a.len() {
            assert(s[e + 0] == sep[0]);
        } else {
            assert(rest.len() == 0);
        }
        lemma_minify_value(s, p, a[k]);
        lemma_minify_items(s, e + sep.len(), a, k + 1);
        lemma_elements_unfold(s, p, a.subrange(0, k), a[k], e);
        assert(a.subrange(0, k).push(a[k]) =~= a.subrange(0, k + 1));
    }
}

/// The compact text of the members from `k` on, then `}`, reads back as the
/// object when the members before `k` were read.
#[verifier::spinoff_prover]
pub proof fn lemma_minify_members(s: Seq<u8>, p: int, m: Seq<(Seq<char>, ValueModel)>, k: int)
    requires
        0 <= k <= m.len(),
        keys_unique(m),
        members_writable(m, k),
        holds_at(s, p, minify_members(m, k)),
        p + minify_members(m, k).len() < s.len(),
        s[p + minify_members(m, k).len()] == RIGHT_BRACE,
    ensures
        members(s, p, false, m.subrange(0, k)) == Ok::<(ValueModel, int), ErrorModel>(
            (ValueModel::Object(m), p + minify_members(m, k).len() + 1),
        ),
    decreases m, m.len() - k,
{
    if k == m.len() {
        assert(m.subrange(0, k) =~= m);
    } else {
        assert(decreases_to!(m => m[k]));
        assert(decreases_to!(m[k] => m[k].1));
        let key = m[k].0;
        let q = quoted(encode_utf8(key));
        let tv = minify_text(m[k].1);
        let sep: Seq<u8> = if k + 1 < m.len() { seq![COMMA] } else { Seq::empty() };
        let rest = minify_members(m, k + 1);
        assert(minify_members(m, k) == q + seq![COLON] + tv + sep + rest);
        lemma_holds_at_concat(s, p, q + seq![COLON] + tv + sep, rest);
        lemma_holds_at_concat(s, p, q + seq![COLON] + tv, sep);
        lemma_holds_at_concat(s, p, q + seq![COLON], tv);
        lemma_holds_at_concat(s, p, q, seq![COLON]);
        lemma_string_text(s, p, key);
        let c = p + q.len();
        assert(s[c + 0] == seq![COLON][0]);
        let e = c + 1 + tv.len();
        if k + 1 < m.len() {
            assert(s[e + 0] == sep[0]);
        } else {
            assert(rest.len() == 0);
        }
        lemma_minify_value(s, c + 1, m[k].1);
        lemma_minify_members(s, e + sep.len(), m, k + 1);
        let before = m.subrange(0, k);
        lemma_members_unfold(s, p, before, key, c - 1);
        lemma_member_value_unfold(s, c, before, key, m[k].1, e);
        lemma_key_index(before, key);
        if key_index(before, key) >= 0 {
            assert(before[key_index(before, key)].0 == m[key_index(before, key)].0);
        }
        assert(assoc_insert(before, key, m[k].1) =~= m.subrange(0, k + 1));
    }
}

/// Reading the compact text of a writable value gives back the value.
pub proof fn lemma_minify_roundtrip(v: ValueModel)
    requires
        writable(v),
    ensures
        document(minify_text(v), false) == Ok::<ValueModel, ErrorModel>(v),
{
    let s = minify_text(v);
    assert(holds_at(s, 0, s));
    lemma_minify_value(s, 0, v);
    assert(skip_ws(s, s.len() as int) == Ok::<int, crate::error::SyntaxError>(s.len() as int));
}

/// Whitespace that stands at `p` is skipped.
proof fn lemma_skip_ws_run(s: Seq<u8>, p: int, w: Seq<u8>)
    requires
        holds_at(s, p, w),
        forall|k: int| 0 <= k < w.len() ==> is_whitespace(#[trigger] w[k]),
    ensures
        skip_ws(s, p) == skip_ws(s, p + w.len()),
    decreases w.len(),
{
    if w.len() > 0 {
        assert(s[p + 0] == w[0]);
        assert(is_whitespace(w[0]));
        let rest = w.drop_first();
        assert forall|k: int| 0 <= k < rest.len() implies s[p + 1 + k] == rest[k] by {
            assert(s[p + (k + 1)] == w[k + 1]);
        }
        assert forall|k: int| 0 <= k < rest.len() implies is_whitespace(#[trigger] rest[k]) by {
            assert(is_whitespace(w[k + 1]));
        }
        lemma_skip_ws_run(s, p + 1, rest);
    }
}

/// A line feed then spaces are whitespace.
proof fn lemma_line_ws(n: nat)
    ensures
        forall|k: int| 0 <= k < (seq![LINE_FEED] + spaces(n)).len() ==> is_whitespace(
            #[trigger] (seq![LINE_FEED] + spaces(n))[k],
        ),
        forall|k: int| 0 <= k < spaces(n).len() ==> is_whitespace(#[trigger] spaces(n)[k]),
{
    assert forall|k: int| 0 <= k < (seq![LINE_FEED] + spaces(n)).len() implies is_whitespace(
        #[trigger] (seq![LINE_FEED] + spaces(n))[k],
    ) by {
        if k > 0 {
            assert((seq![LINE_FEED] + spaces(n))[k] == spaces(n)[k - 1]);
        }
    }
}

/// Reading a value after whitespace reads it where the whitespace ends.
proof fn lemma_value_at_after_ws(s: Seq<u8>, i: int, j: int)
    requires
        0 <= i <= j < s.len(),
        skip_ws(s, i) == Ok::<int, crate::error::SyntaxError>(j),
        skip_ws(s, j) == Ok::<int, crate::error::SyntaxError>(j),
    ensures
        value_at(s, i, false) == value_at(s, j, false),
{
}

proof fn lemma_pretty_scalar(v: ValueModel, l: nat)
    requires
        !(v is Array),
        !(v is Object),
    ensures
        pretty_text(v, l) == minify_text(v),
{
}

/// The pretty text of a writable value, followed by what cannot continue a
/// number, reads back as the value.
#[verifier::spinoff_prover]
#[verifier::rlimit(40)]
pub proof fn lemma_pretty_value(s: Seq<u8>, i: int, v: ValueModel, l: nat)
    requires
        writable(v),
        holds_at(s, i, pretty_text(v, l)),
        ends_number(s, i + pretty_text(v, l).len()),
    ensures
        pretty_text(v, l).len() >= 1,
        s[i] != RIGHT_BRACKET,
        skip_ws(s, i) == Ok::<int, crate::error::SyntaxError>(i),
        value_at(s, i, false) == Ok::<(ValueModel, int), ErrorModel>((v, i + pretty_text(v, l).len())),
    decreases v, 1int,
{
    if !(v is Array || v is Object) {
        lemma_pretty_scalar_value(s, i, v, l);
    } else {
        lemma_pretty_compound_value(s, i, v, l);
    }
}

/// An array or an object reads back from its pretty text.
#[verifier::spinoff_prover]
#[verifier::rlimit(40)]
proof fn lemma_pretty_compound_value(s: Seq<u8>, i: int, v: ValueModel, l: nat)
    requires
        v is Array || v is Object,
        writable(v),
        holds_at(s, i, pretty_text(v, l)),
        ends_number(s, i + pretty_text(v, l).len()),
    ensures
        pretty_text(v, l).len() >= 1,
        s[i] != RIGHT_BRACKET,
        skip_ws(s, i) == Ok::<int, crate::error::SyntaxError>(i),
        value_at(s, i, false) == Ok::<(ValueModel, int), ErrorModel>((v, i + pretty_text(v, l).len())),
    decreases v, 0int,
{
    match v {
        ValueModel::Array(a) => {
            let tail = seq![LINE_FEED] + pretty_items(a, 0, l + 1) + spaces(2 * l) + seq![RIGHT_BRACKET];
            assert(pretty_text(v, l) =~= seq![LEFT_BRACKET] + tail);
            lemma_holds_at_concat(s, i, seq![LEFT_BRACKET], tail);
            assert(s[i + 0] == seq![LEFT_BRACKET][0]);
            lemma_pretty_items(s, i + 1, a, 0, l + 1);
            assert(a.subrange(0, 0) =~= Seq::<ValueModel>::empty());
        },
        ValueModel::Object(m) => {
            let tail = seq![LINE_FEED] + pretty_members(m, 0, l + 1) + spaces(2 * l) + seq![RIGHT_BRACE];
            assert(pretty_text(v, l) =~= seq![LEFT_BRACE] + tail);
            lemma_holds_at_concat(s, i, seq![LEFT_BRACE], tail);
            assert(s[i + 0] == seq![LEFT_BRACE][0]);
            lemma_pretty_members(s, i + 1, m, 0, l + 1);
            assert(m.subrange(0, 0) =~= Seq::<(Seq<char>, ValueModel)>::empty());
        },
        _ => {},
    }
}

/// A value that is neither an array nor an object reads back from its pretty
/// text, which is its compact text.
proof fn lemma_pretty_scalar_value(s: Seq<u8>, i: int, v: ValueModel, l: nat)
    requires
        !(v is Array || v is Object),
        writable(v),
        holds_at(s, i, pretty_text(v, l)),
        ends_number(s, i + pretty_text(v, l).len()),
    ensures
        pretty_text(v, l).len() >= 1,
        s[i] != RIGHT_BRACKET,
        skip_ws(s, i) == Ok::<int, crate::error::SyntaxError>(i),
        value_at(s, i, false) == Ok::<(ValueModel, int), ErrorModel>((v, i + pretty_text(v, l).len())),
{
    lemma_pretty_scalar(v, l);
    lemma_minify_value(s, i, v);
}

/// After `[` or a comma: a line feed, the pretty elements from `k` on, the
/// indentation of the array and `]` read back as the array.
#[verifier::spinoff_prover]
#[verifier::rlimit(40)]
pub proof fn lemma_pretty_items(s: Seq<u8>, p: int, a: Seq<ValueModel>, k: int, l: nat)
    requires
        0 <= k <= a.len(),
        l >= 1,
        items_writable(a, k),
        holds_at(s, p, seq![LINE_FEED] + pretty_items(a, k, l) + spaces((2 * (l - 1)) as nat) + seq![RIGHT_BRACKET]),
    ensures
        elements(s, p, false, a.subrange(0, k)) == Ok::<(ValueModel, int), ErrorModel>(
            (
                ValueModel::Array(a),
                p + (seq![LINE_FEED] + pretty_items(a, k, l) + spaces((2 * (l - 1)) as nat) + seq![
                    RIGHT_BRACKET,
                ]).len(),
            ),
        ),
    decreases a, a.len() - k,
{
    let close = spaces((2 * (l - 1)) as nat) + seq![RIGHT_BRACKET];
    let items = pretty_items(a, k, l);
    assert(seq![LINE_FEED] + items + spaces((2 * (l - 1)) as nat) + seq![RIGHT_BRACKET] =~= seq![LINE_FEED] + items
        + close);
    lemma_holds_at_concat(s, p, seq![LINE_FEED] + items, close);
    lemma_holds_at_concat(s, p, seq![LINE_FEED], items);
    lemma_line_ws((2 * (l - 1)) as nat);
    lemma_line_ws((2 * l) as nat);
    if k == a.len() {
        assert(items.len() == 0);
        let q = p + 1 + 2 * (l - 1);
        lemma_holds_at_concat(s, p + 1, spaces((2 * (l - 1)) as nat), seq![RIGHT_BRACKET]);
        assert(s[q + 0] == seq![RIGHT_BRACKET][0]);
        assert(holds_at(s, p, seq![LINE_FEED] + spaces((2 * (l - 1)) as nat))) by {
            lemma_holds_at_concat(s, p, seq![LINE_FEED], close);
            assert forall|x: int| 0 <= x < (seq![LINE_FEED] + spaces((2 * (l - 1)) as nat)).len() implies #[trigger] s[p + x]
                == (seq![LINE_FEED] + spaces((2 * (l - 1)) as nat))[x] by {
                if x > 0 {
                    assert(s[p + 1 + (x - 1)] == close[x - 1]);
                }
            }
        }
        lemma_skip_ws_run(s, p, seq![LINE_FEED] + spaces((2 * (l - 1)) as nat));
        assert(skip_ws(s, q) == Ok::<int, crate::error::SyntaxError>(q));
        assert(a.subrange(0, k) =~= a);
    } else {
        assert(decreases_to!(a => a[k]));
        let ind = spaces((2 * l) as nat);
        let tk = pretty_text(a[k], l);
        let rest = pretty_items(a, k + 1, l);
        assert(items == ind + tk + seq![COMMA, LINE_FEED] + rest);
        lemma_holds_at_concat(s, p + 1, ind + tk + seq![COMMA], seq![LINE_FEED] + rest);
        assert(ind + tk + seq![COMMA, LINE_FEED] + rest =~= ind + tk + seq![COMMA] + (seq![LINE_FEED] + rest));
        lemma_holds_at_concat(s, p + 1, ind + tk, seq![COMMA]);
        lemma_holds_at_concat(s, p + 1, ind, tk);
        let j = p + 1 + ind.len();
        let e = j + tk.len();
        assert(s[e + 0] == seq![COMMA][0]);
        lemma_pretty_value(s, j, a[k], l);
        assert(holds_at(s, p, seq![LINE_FEED] + ind)) by {
            assert forall|x: int| 0 <= x < (seq![LINE_FEED] + ind).len() implies s[p + x] == (seq![LINE_FEED]
                + ind)[x] by {
                if x > 0 {
                    assert(s[p + 1 + (x - 1)] == ind[x - 1]);
                }
            }
        }
        lemma_skip_ws_run(s, p, seq![LINE_FEED] + ind);
        assert(holds_at(s, e + 1, seq![LINE_FEED] + rest + close)) by {
            assert forall|x: int| 0 <= x < (seq![LINE_FEED] + rest + close).len() implies s[e + 1 + x] == (
            seq![LINE_FEED] + rest + close)[x] by {
                if x < (seq![LINE_FEED] + rest).len() {
                    assert(s[e + 1 + x] == (seq![LINE_FEED] + rest)[x]);
                } else {
                    assert(s[p + 1 + items.len() + (x - (seq![LINE_FEED] + rest).len())] == close[x - (
                    seq![LINE_FEED] + rest).len()]);
                }
            }
        }
        assert(seq![LINE_FEED] + rest + close =~= seq![LINE_FEED] + rest + spaces((2 * (l - 1)) as nat) + seq![
            RIGHT_BRACKET,
        ]);
        lemma_pretty_items(s, e + 1, a, k + 1, l);
        lemma_elements_unfold_at(s, p, j, a.subrange(0, k), a[k], e);
        assert(a.subrange(0, k).push(a[k]) =~= a.subrange(0, k + 1));
    }
}

proof fn lemma_elements_unfold_at(s: Seq<u8>, p: int, j: int, acc: Seq<ValueModel>, v: ValueModel, e: int)
    requires
        0 <= p <= j < s.len(),
        skip_ws(s, p) == Ok::<int, crate::error::SyntaxError>(j),
        s[j] != RIGHT_BRACKET,
        value_at(s, j, false) == Ok::<(ValueModel, int), ErrorModel>((v, e)),
        j < e < s.len(),
        s[e] == COMMA,
    ensures
        elements(s, p, false, acc) == elements(s, e + 1, false, acc.push(v)),
{
    assert(skip_ws(s, e) == Ok::<int, crate::error::SyntaxError>(e));
}

proof fn lemma_members_unfold_at(
    s: Seq<u8>,
    p: int,
    j: int,
    acc: Seq<(Seq<char>, ValueModel)>,
    key: Seq<char>,
    kend: int,
)
    requires
        0 <= p <= j < s.len(),
        skip_ws(s, p) == Ok::<int, crate::error::SyntaxError>(j),
        s[j] == QUOTE,
        string_content(s, j + 1, false) == Ok::<(Seq<char>, int), ErrorModel>((key, kend)),
    ensures
        members(s, p, false, acc) == member_value(s, kend + 1, false, acc, key),
{
}

/// After `{` or a comma: a line feed, the pretty members from `k` on, the
/// indentation of the object and `}` read back as the object.
#[verifier::spinoff_prover]
#[verifier::rlimit(100)]
pub proof fn lemma_pretty_members(s: Seq<u8>, p: int, m: Seq<(Seq<char>, ValueModel)>, k: int, l: nat)
    requires
        0 <= k <= m.len(),
        l >= 1,
        keys_unique(m),
        members_writable(m, k),
        holds_at(s, p, seq![LINE_FEED] + pretty_members(m, k, l) + spaces((2 * (l - 1)) as nat) + seq![RIGHT_BRACE]),
    ensures
        members(s, p, false, m.subrange(0, k)) == Ok::<(ValueModel, int), ErrorModel>(
            (
                ValueModel::Object(m),
                p + (seq![LINE_FEED] + pretty_members(m, k, l) + spaces((2 * (l - 1)) as nat) + seq![
                    RIGHT_BRACE,
                ]).len(),
            ),
        ),
    decreases m, m.len() - k,
{
    let close = spaces((2 * (l - 1)) as nat) + seq![RIGHT_BRACE];
    let mems = pretty_members(m, k, l);
    assert(seq![LINE_FEED] + mems + spaces((2 * (l - 1)) as nat) + seq![RIGHT_BRACE] =~= seq![LINE_FEED] + mems
        + close);
    lemma_holds_at_concat(s, p, seq![LINE_FEED] + mems, close);
    lemma_holds_at_concat(s, p, seq![LINE_FEED], mems);
    lemma_line_ws((2 * (l - 1)) as nat);
    lemma_line_ws((2 * l) as nat);
    if k == m.len() {
        assert(mems.len() == 0);
        let q = p + 1 + 2 * (l - 1);
        lemma_holds_at_concat(s, p + 1, spaces((2 * (l - 1)) as nat), seq![RIGHT_BRACE]);
        assert(s[q + 0] == seq![RIGHT_BRACE][0]);
        assert(holds_at(s, p, seq![LINE_FEED] + spaces((2 * (l - 1)) as nat))) by {
            assert forall|x: int| 0 <= x < (seq![LINE_FEED] + spaces((2 * (l - 1)) as nat)).len() implies #[trigger] s[p + x]
                == (seq![LINE_FEED] + spaces((2 * (l - 1)) as nat))[x] by {
                if x > 0 {
                    assert(s[p + 1 + (x - 1)] == close[x - 1]);
                }
            }
        }
        lemma_skip_ws_run(s, p, seq![LINE_FEED] + spaces((2 * (l - 1)) as nat));
        assert(skip_ws(s, q) == Ok::<int, crate::error::SyntaxError>(q));
        assert(m.subrange(0, k) =~= m);
    } else {
        assert(decreases_to!(m => m[k]));
        assert(decreases_to!(m[k] => m[k].1));
        let key = m[k].0;
        let ind = spaces((2 * l) as nat);
        let q = quoted(encode_utf8(key));
        let tv = pretty_text(m[k].1, l);
        let rest = pretty_members(m, k + 1, l);
        let head = ind + q + seq![COLON, SPACE] + tv + seq![COMMA];
        assert(mems =~= head + (seq![LINE_FEED] + rest));
        lemma_holds_at_concat(s, p + 1, head, seq![LINE_FEED] + rest);
        lemma_holds_at_concat(s, p + 1, ind + q + seq![COLON, SPACE] + tv, seq![COMMA]);
        lemma_holds_at_concat(s, p + 1, ind + q + seq![COLON, SPACE], tv);
        lemma_holds_at_concat(s, p + 1, ind + q, seq![COLON, SPACE]);
        lemma_holds_at_concat(s, p + 1, ind, q);
        let j = p + 1 + ind.len();
        let c = j + q.len();
        let e = c + 2 + tv.len();
        assert(s[c + 0] == seq![COLON, SPACE][0]);
        assert(s[c + 1] == seq![COLON, SPACE][1]);
        assert(s[e + 0] == seq![COMMA][0]);
        lemma_string_text(s, j, key);
        lemma_pretty_value(s, c + 2, m[k].1, l);
        assert(skip_ws(s, c + 1) == Ok::<int, crate::error::SyntaxError>(c + 2));
        lemma_value_at_after_ws(s, c + 1, c + 2);
        assert(holds_at(s, p, seq![LINE_FEED] + ind)) by {
            assert forall|x: int| 0 <= x < (seq![LINE_FEED] + ind).len() implies s[p + x] == (seq![LINE_FEED]
                + ind)[x] by {
                if x > 0 {
                    assert(s[p + 1 + (x - 1)] == ind[x - 1]);
                }
            }
        }
        lemma_skip_ws_run(s, p, seq![LINE_FEED] + ind);
        assert(holds_at(s, e + 1, seq![LINE_FEED] + rest + close)) by {
            assert forall|x: int| 0 <= x < (seq![LINE_FEED] + rest + close).len() implies s[e + 1 + x] == (
            seq![LINE_FEED] + rest + close)[x] by {
                if x < (seq![LINE_FEED] + rest).len() {
                    assert(s[e + 1 + x] == (seq![LINE_FEED] + rest)[x]);
                } else {
                    assert(s[p + 1 + mems.len() + (x - (seq![LINE_FEED] + rest).len())] == close[x - (
                    seq![LINE_FEED] + rest).len()]);
                }
            }
        }
        assert(seq![LINE_FEED] + rest + close =~= seq![LINE_FEED] + rest + spaces((2 * (l - 1)) as nat) + seq![
            RIGHT_BRACE,
        ]);
        lemma_pretty_members(s, e + 1, m, k + 1, l);
        let before = m.subrange(0, k);
        lemma_members_unfold_at(s, p, j, before, key, c - 1);
        lemma_member_value_unfold(s, c, before, key, m[k].1, e);
        lemma_key_index(before, key);
        if key_index(before, key) >= 0 {
            assert(before[key_index(before, key)].0 == m[key_index(before, key)].0);
        }
        assert(assoc_insert(before, key, m[k].1) =~= m.subrange(0, k + 1));
    }
}

/// Reading the pretty text of a writable value gives back the value.
pub proof fn lemma_pretty_roundtrip(v: ValueModel)
    requires
        writable(v),
    ensures
        document(pretty_text(v, 0), false) == Ok::<ValueModel, ErrorModel>(v),
{
    let s = pretty_text(v, 0);
    assert(holds_at(s, 0, s));
    lemma_pretty_value(s, 0, v, 0);
    assert(skip_ws(s, s.len() as int) == Ok::<int, crate::error::SyntaxError>(s.len() as int));
}

/// Reading the compact string of a writable value gives back the value: the
/// string's bytes are the compact text itself.
pub proof fn lemma_minify_string_roundtrip(v: ValueModel)
    requires
        writable(v),
    ensures
        encode_utf8(decode_utf8(minify_text(v))) == minify_text(v),
        document(encode_utf8(decode_utf8(minify_text(v))), false) == Ok::<ValueModel, ErrorModel>(v),
{
    lemma_minify_valid(v);
    decode_utf8_encode_utf8(minify_text(v));
    lemma_minify_roundtrip(v);
}

/// Reading the pretty string of a writable value gives back the value.
pub proof fn lemma_pretty_string_roundtrip(v: ValueModel)
    requires
        writable(v),
    ensures
        encode_utf8(decode_utf8(pretty_text(v, 0))) == pretty_text(v, 0),
        document(encode_utf8(decode_utf8(pretty_text(v, 0))), false) == Ok::<ValueModel, ErrorModel>(v),
{
    lemma_pretty_valid(v, 0);
    decode_utf8_encode_utf8(pretty_text(v, 0));
    lemma_pretty_roundtrip(v);
}
} // verus!
