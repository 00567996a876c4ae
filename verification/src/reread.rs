//! What reading a text, writing the value it holds and reading that again
//! gives: the same value.

use vstd::prelude::*;
use vstd::utf8::{decode_utf8_encode_utf8, valid_utf8};

use crate::ascii::{is_digit, COLON, COMMA, DIGIT_ZERO, DOT, LEFT_BRACE, LEFT_BRACKET, MINUS, QUOTE, RIGHT_BRACE, RIGHT_BRACKET};
use crate::de::grammar::{
    document, elements, lemma_value_at_progress, member_value, members, string_content, value_at,
};
use crate::de::syntax::{
    digits_end, exponent_part, fraction_part, integer_part, is_exponent_mark, lemma_digits_end, lemma_exponent_part,
    lemma_fraction_part, lemma_integer_part, lemma_number, lemma_skip_ws, lemma_string_body, number, skip_ws,
};
use crate::ser::formatter::minify::minify_text;
use crate::ser::formatter::pretty::pretty_text;
use crate::error::SyntaxError;
use crate::roundtrip::{
    holds_at, items_writable, lemma_minify_roundtrip, lemma_pretty_roundtrip, members_writable,
    writable,
};
use crate::value::{assoc_insert, keys_unique, lemma_key_index, key_index, ValueModel};

verus! {

proof fn lemma_items_writable(a: Seq<ValueModel>, k: int)
    requires
        0 <= k <= a.len(),
    ensures
        items_writable(a, k) <==> forall|j: int| k <= j < a.len() ==> writable(#[trigger] a[j]),
    decreases a.len() - k,
{
    if k < a.len() {
        lemma_items_writable(a, k + 1);
    }
}

proof fn lemma_members_writable(m: Seq<(Seq<char>, ValueModel)>, k: int)
    requires
        0 <= k <= m.len(),
    ensures
        members_writable(m, k) <==> forall|j: int|
            #![trigger m[j]]
            k <= j < m.len() ==> writable(m[j].1),
    decreases m.len() - k,
{
    if k < m.len() {
        lemma_members_writable(m, k + 1);
    }
}

/// A number read at `j` reads the same, whole, from a text that holds just
/// its bytes.
proof fn lemma_number_whole(s: Seq<u8>, j: int)
    requires
        0 <= j <= s.len(),
        number(s, j) is Ok,
    ensures
        number(s.subrange(j, number(s, j)->Ok_0.0), 0) == Ok::<(int, bool), SyntaxError>(
            (number(s, j)->Ok_0.0 - j, number(s, j)->Ok_0.1),
        ),
{
    lemma_number(s, j);
    let end = number(s, j)->Ok_0.0;
    let b = s.subrange(j, end);
    let n = end - j;
    assert(holds_at(s, j, b));
    lemma_integer_part(s, j);
    let a = integer_part(s, j)->Ok_0;
    let j1: int = if s[j] == MINUS { j + 1 } else { j };
    if s[j1] != DIGIT_ZERO {
        lemma_digits_end(s, j1 + 1);
    }
    let dot = a < s.len() && s[a] == DOT;
    if dot {
        lemma_fraction_part(s, a + 1);
        lemma_digits_end(s, a + 1);
    }
    let bb: int = if dot { fraction_part(s, a + 1)->Ok_0 } else { a };
    let exp = bb < s.len() && is_exponent_mark(s[bb]);
    if exp {
        lemma_exponent_part(s, bb + 1);
        lemma_digits_end(s, bb + 2);
    }
    assert(end == s.len() || !is_digit(s[end]));
    assert(b[0] == s[j]);
    if j1 > j {
        assert(b[1] == s[j + 1]);
    }
    // the integer part
    if s[j1] == DIGIT_ZERO {
        if j1 - j + 1 < n {
            assert(b[j1 - j + 1] == s[j1 + 1]);
        }
    } else {
        crate::roundtrip::lemma_digits_end_local(s, j, b, j1 - j + 1);
    }
    assert(integer_part(b, 0) == Ok::<int, SyntaxError>(a - j));
    // the fraction
    if a < end {
        assert(b[a - j] == s[a]);
    }
    if dot {
        assert(b[a - j + 1] == s[a + 1]);
        crate::roundtrip::lemma_digits_end_local(s, j, b, a - j + 1);
        assert(fraction_part(b, a - j + 1) == Ok::<int, SyntaxError>(bb - j));
    }
    // the exponent
    if bb < end {
        assert(b[bb - j] == s[bb]);
    }
    if exp {
        assert(b[bb - j + 1] == s[bb + 1]);
        crate::roundtrip::lemma_digits_end_local(s, j, b, bb - j + 2);
        assert(exponent_part(b, bb - j + 1) == Ok::<int, SyntaxError>(end - j));
    }
}


/// Inserting a member keeps keys unique; every value after it is the new one
/// or the one that stood at that index before.
proof fn lemma_assoc_insert_keeps(acc: Seq<(Seq<char>, ValueModel)>, key: Seq<char>, v: ValueModel)
    ensures
        keys_unique(acc) ==> keys_unique(assoc_insert(acc, key, v)),
        forall|j: int|
            #![trigger assoc_insert(acc, key, v)[j]]
            0 <= j < assoc_insert(acc, key, v).len() ==> assoc_insert(acc, key, v)[j].1 == v || (j < acc.len()
                && assoc_insert(acc, key, v)[j].1 == acc[j].1),
{
    lemma_key_index(acc, key);
    let r = assoc_insert(acc, key, v);
    if key_index(acc, key) >= 0 {
        assert(forall|j: int| 0 <= j < acc.len() ==> #[trigger] r[j].0 == acc[j].0);
    } else {
        assert(forall|j: int| 0 <= j < acc.len() ==> #[trigger] r[j] == acc[j]);
    }
}

proof fn lemma_value_at_writable_read(s: Seq<u8>, i: int)
    requires
        0 <= i <= s.len(),
    ensures
        value_at(s, i, false) matches Ok((v, _)) ==> writable(v),
    decreases s.len() - i, 1nat,
{
    lemma_skip_ws(s, i);
    if let Ok(j) = skip_ws(s, i) {
        if j < s.len() {
            let c = s[j];
            if c == MINUS || is_digit(c) {
                if number(s, j) is Ok {
                    lemma_number(s, j);
                    lemma_number_whole(s, j);
                    let rep = s.subrange(j, number(s, j)->Ok_0.0);
                    if valid_utf8(rep) {
                        decode_utf8_encode_utf8(rep);
                    }
                }
            } else if c == LEFT_BRACKET {
                lemma_elements_writable_read(s, j + 1, Seq::empty());
            } else if c == LEFT_BRACE {
                lemma_members_writable_read(s, j + 1, Seq::empty());
            }
        }
    }
}

proof fn lemma_elements_writable_read(s: Seq<u8>, i: int, acc: Seq<ValueModel>)
    requires
        0 <= i <= s.len(),
        forall|j: int| 0 <= j < acc.len() ==> writable(#[trigger] acc[j]),
    ensures
        elements(s, i, false, acc) matches Ok((v, _)) ==> writable(v),
    decreases s.len() - i, 2nat,
{
    lemma_skip_ws(s, i);
    if let Ok(j) = skip_ws(s, i) {
        if j < s.len() {
            if s[j] == RIGHT_BRACKET {
                lemma_items_writable(acc, 0);
            } else {
                lemma_value_at_writable_read(s, j);
                lemma_value_at_progress(s, j, false);
                if let Ok((v, e)) = value_at(s, j, false) {
                    lemma_skip_ws(s, e);
                    if let Ok(k) = skip_ws(s, e) {
                        if k < s.len() {
                            let next = acc.push(v);
                            assert(forall|x: int| 0 <= x < next.len() ==> writable(#[trigger] next[x])) by {
                                assert(forall|x: int| 0 <= x < acc.len() ==> next[x] == acc[x]);
                            }
                            if s[k] == COMMA {
                                lemma_elements_writable_read(s, k + 1, next);
                            } else if s[k] == RIGHT_BRACKET {
                                lemma_elements_writable_read(s, k, next);
                            }
                        }
                    }
                }
            }
        }
    }
}

proof fn lemma_members_writable_read(s: Seq<u8>, i: int, acc: Seq<(Seq<char>, ValueModel)>)
    requires
        0 <= i <= s.len(),
        keys_unique(acc),
        forall|j: int| 0 <= j < acc.len() ==> writable(#[trigger] acc[j].1),
    ensures
        members(s, i, false, acc) matches Ok((v, _)) ==> writable(v),
    decreases s.len() - i, 2nat,
{
    lemma_skip_ws(s, i);
    if let Ok(j) = skip_ws(s, i) {
        if j < s.len() {
            if s[j] == RIGHT_BRACE {
                lemma_members_writable(acc, 0);
            } else if s[j] == QUOTE {
                lemma_string_body(s, j + 1);
                if let Ok((key, kend)) = string_content(s, j + 1, false) {
                    lemma_member_value_writable_read(s, kend + 1, acc, key);
                }
            }
        }
    }
}

proof fn lemma_member_value_writable_read(
    s: Seq<u8>,
    e: int,
    acc: Seq<(Seq<char>, ValueModel)>,
    key: Seq<char>,
)
    requires
        1 <= e <= s.len(),
        keys_unique(acc),
        forall|j: int| 0 <= j < acc.len() ==> writable(#[trigger] acc[j].1),
    ensures
        member_value(s, e, false, acc, key) matches Ok((v, _)) ==> writable(v),
    decreases s.len() - e + 1, 3nat,
{
    lemma_skip_ws(s, e);
    if let Ok(c) = skip_ws(s, e) {
        if c < s.len() && s[c] == COLON {
            lemma_value_at_writable_read(s, c + 1);
            lemma_value_at_progress(s, c + 1, false);
            if let Ok((v, e2)) = value_at(s, c + 1, false) {
                lemma_skip_ws(s, e2);
                if let Ok(k) = skip_ws(s, e2) {
                    if k < s.len() {
                        let next = assoc_insert(acc, key, v);
                        lemma_assoc_insert_keeps(acc, key, v);
                        assert(forall|x: int| 0 <= x < next.len() ==> writable(#[trigger] next[x].1)) by {
                            assert forall|x: int| 0 <= x < next.len() implies writable(#[trigger] next[x].1) by {
                                if next[x].1 != v {
                                    assert(writable(acc[x].1));
                                }
                            }
                        }
                        if s[k] == COMMA {
                            lemma_members_writable_read(s, k + 1, next);
                        } else if s[k] == RIGHT_BRACE {
                            lemma_members_writable_read(s, k, next);
                        }
                    }
                }
            }
        }
    }
}

/// Reading a text, writing the value it holds (compact or pretty) and reading
/// that again gives the same value: every value read is writable.
pub proof fn lemma_reread(s: Seq<u8>)
    requires
        document(s, false) is Ok,
    ensures
        writable(document(s, false)->Ok_0),
        document(minify_text(document(s, false)->Ok_0), false) == document(s, false),
        document(pretty_text(document(s, false)->Ok_0, 0), false) == document(s, false),
{
    lemma_value_at_writable_read(s, 0);
    let v = document(s, false)->Ok_0;
    lemma_minify_roundtrip(v);
    lemma_pretty_roundtrip(v);
}

} // verus!
