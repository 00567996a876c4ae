//! The grammar of JSON with comments, stated over the input bytes.
//!
//! Each function takes the input `s` and an index `i` into it, and says where
//! the construct that starts at `i` ends, or which error the text holds there.

use vstd::prelude::*;

use crate::ascii::{
    is_control, is_digit, is_whitespace, ASTERISK, BACKSLASH, BACKSPACE, CARRIAGE_RETURN, DIGIT_NINE, DIGIT_ONE,
    DIGIT_ZERO, DOT, FORM_FEED, LINE_FEED, LOWER_A, LOWER_B, LOWER_E, LOWER_F, LOWER_N, LOWER_R, LOWER_T, LOWER_U,
    MINUS, PLUS, QUOTE, SLASH, TAB, UPPER_A, UPPER_E, UPPER_F,
};
use crate::de::position::position_of;
use crate::error::SyntaxError;

verus! {

// ---------------------------------------------------------------- whitespace and comments

/// The index of the first line feed at or after `i`, or the length of `s`.
pub open spec fn line_end(s: Seq<u8>, i: int) -> int
    decreases s.len() - i,
{
    if i >= s.len() {
        s.len() as int
    } else if s[i] == LINE_FEED {
        i
    } else {
        line_end(s, i + 1)
    }
}

/// Whether `*/` stands at `m`.
pub open spec fn closes_at(s: Seq<u8>, m: int) -> bool {
    s[m] == ASTERISK && s[m + 1] == SLASH
}

/// The index of the first `*/` at or after `i`, if there is one.
pub open spec fn block_close(s: Seq<u8>, i: int) -> Option<int>
    decreases s.len() - i,
{
    if i + 1 >= s.len() {
        None
    } else if closes_at(s, i) {
        Some(i)
    } else {
        block_close(s, i + 1)
    }
}

/// A comment whose first `/` stands just before `i`: the index just after it.
/// A line comment ends with its line feed (or the input); a block comment with `*/`.
pub open spec fn comment_follow(s: Seq<u8>, i: int) -> Result<int, SyntaxError> {
    if i >= s.len() {
        Err(SyntaxError::EofWhileStartParsingComment)
    } else if s[i] == SLASH {
        let k = line_end(s, i + 1);
        Ok(if k < s.len() { k + 1 } else { k })
    } else if s[i] == ASTERISK {
        match block_close(s, i + 1) {
            Some(k) => Ok(k + 2),
            None => Err(SyntaxError::UnterminatedComment),
        }
    } else {
        Err(SyntaxError::UnexpectedTokenWhileStartParsingComment { pos: position_of(s, i), found: s[i] })
    }
}

/// The text of the comment whose first `/` stands just before `i`, as the
/// tokenizer collects it: a line comment without its line feed, a block comment whole.
pub open spec fn comment_content(s: Seq<u8>, i: int) -> Seq<u8> {
    if s[i] == SLASH {
        seq![SLASH, SLASH] + s.subrange(i + 1, line_end(s, i + 1))
    } else {
        seq![SLASH, ASTERISK] + s.subrange(i + 1, block_close(s, i + 1).unwrap()) + seq![ASTERISK, SLASH]
    }
}

/// The position that ends the comment whose first `/` stands just before `i`:
/// the line feed of a line comment (its second `/` when the input ends first),
/// the closing `/` of a block comment.
pub open spec fn comment_end_pos(s: Seq<u8>, i: int) -> (usize, usize) {
    if s[i] == SLASH {
        let k = line_end(s, i + 1);
        if k < s.len() {
            position_of(s, k)
        } else {
            position_of(s, i)
        }
    } else {
        position_of(s, block_close(s, i + 1).unwrap() + 1)
    }
}

/// A comment that starts at `i` with its first `/`.
pub open spec fn comment(s: Seq<u8>, i: int) -> Result<int, SyntaxError> {
    if i >= s.len() {
        Err(SyntaxError::EofWhileStartParsingComment)
    } else if s[i] == SLASH {
        comment_follow(s, i + 1)
    } else {
        Err(SyntaxError::UnexpectedTokenWhileStartParsingComment { pos: position_of(s, i), found: s[i] })
    }
}

pub proof fn lemma_line_end(s: Seq<u8>, i: int)
    requires
        0 <= i <= s.len(),
    ensures
        i <= line_end(s, i) <= s.len(),
        line_end(s, i) < s.len() ==> s[line_end(s, i)] == LINE_FEED,
        forall|k: int| i <= k < line_end(s, i) ==> s[k] != LINE_FEED,
    decreases s.len() - i,
{
    if i < s.len() && s[i] != LINE_FEED {
        lemma_line_end(s, i + 1);
    }
}

pub proof fn lemma_block_close(s: Seq<u8>, i: int)
    requires
        0 <= i,
    ensures
        block_close(s, i) matches Some(k) ==> i <= k && k + 1 < s.len() && closes_at(s, k),
        block_close(s, i) matches Some(k) ==> forall|m: int| i <= m < k ==> !#[trigger] closes_at(s, m),
        block_close(s, i) is None ==> forall|m: int| i <= m && m + 1 < s.len() ==> !#[trigger] closes_at(s, m),
    decreases s.len() - i,
{
    if i + 1 < s.len() && !closes_at(s, i) {
        lemma_block_close(s, i + 1);
    }
}

/// A comment ends after it starts, and within the input.
pub proof fn lemma_comment_follow_advances(s: Seq<u8>, i: int)
    requires
        0 <= i,
    ensures
        comment_follow(s, i) matches Ok(j) ==> i < j <= s.len(),
{
    if i < s.len() {
        if s[i] == SLASH {
            lemma_line_end(s, i + 1);
        } else if s[i] == ASTERISK {
            lemma_block_close(s, i + 1);
        }
    }
}

/// Whitespace and comments from `i` on: the index of the first byte that is neither.
pub open spec fn skip_ws(s: Seq<u8>, i: int) -> Result<int, SyntaxError>
    decreases s.len() - i,
{
    if i < 0 || i >= s.len() {
        Ok(i)
    } else if s[i] == SLASH {
        match comment_follow(s, i + 1) {
            Ok(j) => {
                proof {
                    lemma_comment_follow_advances(s, i + 1);
                }
                skip_ws(s, j)
            },
            Err(e) => Err(e),
        }
    } else if is_whitespace(s[i]) {
        skip_ws(s, i + 1)
    } else {
        Ok(i)
    }
}

pub proof fn lemma_skip_ws(s: Seq<u8>, i: int)
    requires
        0 <= i <= s.len(),
    ensures
        skip_ws(s, i) matches Ok(j) ==> i <= j <= s.len(),
        skip_ws(s, i) matches Ok(j) ==> j < s.len() ==> s[j] != SLASH && !is_whitespace(s[j]),
    decreases s.len() - i,
{
    if i < s.len() {
        if s[i] == SLASH {
            lemma_comment_follow_advances(s, i + 1);
            if let Ok(j) = comment_follow(s, i + 1) {
                lemma_skip_ws(s, j);
            }
        } else if is_whitespace(s[i]) {
            lemma_skip_ws(s, i + 1);
        }
    }
}

/// The bytes skipped between tokens are those of `u8::is_ascii_whitespace`:
/// space, tab, line feed, form feed and carriage return are passed over,
/// and any other byte but the `/` that starts a comment ends the skipping
/// where it stands.
pub proof fn lemma_skip_ws_ascii_whitespace(s: Seq<u8>, i: int)
    requires
        0 <= i < s.len(),
    ensures
        s[i] == 0x20u8 || s[i] == 0x09u8 || s[i] == 0x0Au8 || s[i] == 0x0Cu8 || s[i] == 0x0Du8 ==> skip_ws(s, i)
            == skip_ws(s, i + 1),
        !(s[i] == 0x20u8 || s[i] == 0x09u8 || s[i] == 0x0Au8 || s[i] == 0x0Cu8 || s[i] == 0x0Du8 || s[i]
            == 0x2Fu8) ==> skip_ws(s, i) == Ok::<int, SyntaxError>(i),
{
}

// ---------------------------------------------------------------- identifiers

/// How many bytes of `ident`, from its `k`-th on, the input repeats from `i + k` on.
pub open spec fn match_from(s: Seq<u8>, i: int, ident: Seq<u8>, k: int) -> int
    decreases ident.len() - k,
{
    if k < 0 || k >= ident.len() || i + k >= s.len() || s[i + k] != ident[k] {
        k
    } else {
        match_from(s, i, ident, k + 1)
    }
}

/// The length of the longest prefix of `ident` that the input holds at `i`.
pub open spec fn match_len(s: Seq<u8>, i: int, ident: Seq<u8>) -> int {
    match_from(s, i, ident, 0)
}

pub proof fn lemma_match_from(s: Seq<u8>, i: int, ident: Seq<u8>, k: int)
    requires
        0 <= i <= s.len(),
        0 <= k <= ident.len(),
        i + k <= s.len(),
    ensures
        k <= match_from(s, i, ident, k) <= ident.len(),
        i + match_from(s, i, ident, k) <= s.len(),
        forall|m: int| k <= m < match_from(s, i, ident, k) ==> s[i + m] == ident[m],
        match_from(s, i, ident, k) < ident.len() && i + match_from(s, i, ident, k) < s.len()
            ==> s[i + match_from(s, i, ident, k)] != ident[match_from(s, i, ident, k)],
    decreases ident.len() - k,
{
    if !(k >= ident.len() || i + k >= s.len() || s[i + k] != ident[k]) {
        lemma_match_from(s, i, ident, k + 1);
    }
}

/// A match that stops where the input and `ident` part (or either ends) is `match_from`.
pub proof fn lemma_match_from_unique(s: Seq<u8>, i: int, ident: Seq<u8>, k: int, m: int)
    requires
        0 <= i <= s.len(),
        0 <= k <= m <= ident.len(),
        i + m <= s.len(),
        forall|n: int| k <= n < m ==> s[i + n] == ident[n],
        m == ident.len() || i + m == s.len() || s[i + m] != ident[m],
    ensures
        match_from(s, i, ident, k) == m,
    decreases m - k,
{
    if k < m {
        lemma_match_from_unique(s, i, ident, k + 1, m);
    }
}

// ---------------------------------------------------------------- strings

/// The escapes of one byte: `\"`, `\\`, `\/`, `\b`, `\f`, `\n`, `\r`, `\t`.
pub open spec fn is_simple_escape(c: u8) -> bool {
    c == QUOTE || c == BACKSLASH || c == SLASH || c == LOWER_B || c == LOWER_F || c == LOWER_N
        || c == LOWER_R || c == LOWER_T
}

/// The byte that a one byte escape stands for.
pub open spec fn simple_escape_byte(c: u8) -> u8 {
    if c == LOWER_B {
        BACKSPACE
    } else if c == LOWER_F {
        FORM_FEED
    } else if c == LOWER_N {
        LINE_FEED
    } else if c == LOWER_R {
        CARRIAGE_RETURN
    } else if c == LOWER_T {
        TAB
    } else {
        c
    }
}

/// The value of a hexadecimal digit, either case.
pub open spec fn hex_digit(c: u8) -> Option<int> {
    if DIGIT_ZERO <= c <= DIGIT_NINE {
        Some(c - DIGIT_ZERO)
    } else if LOWER_A <= c <= LOWER_F {
        Some(c - LOWER_A + 10)
    } else if UPPER_A <= c <= UPPER_F {
        Some(c - UPPER_A + 10)
    } else {
        None
    }
}

/// The number that the `n` hexadecimal digits from `i` on spell, most significant first;
/// or the error at the first byte that is not one.
pub open spec fn hex_value(s: Seq<u8>, i: int, n: nat) -> Result<int, SyntaxError>
    decreases n,
{
    if n == 0 {
        Ok(0)
    } else {
        match hex_value(s, i, (n - 1) as nat) {
            Err(e) => Err(e),
            Ok(v) => {
                let k = i + n - 1;
                if k < 0 || k >= s.len() {
                    Err(SyntaxError::EofWhileParsingEscapeSequence)
                } else {
                    match hex_digit(s[k]) {
                        Some(d) => Ok(v * 16 + d),
                        None => Err(SyntaxError::InvalidUnicodeEscape { pos: position_of(s, k), found: s[k] }),
                    }
                }
            },
        }
    }
}

pub proof fn lemma_hex_value_bounded(s: Seq<u8>, i: int, n: nat)
    ensures
        hex_value(s, i, n) matches Ok(v) ==> 0 <= v < pow16(n),
    decreases n,
{
    if n > 0 {
        lemma_hex_value_bounded(s, i, (n - 1) as nat);
    }
}

pub open spec fn pow16(n: nat) -> int
    decreases n,
{
    if n == 0 {
        1
    } else {
        16 * pow16((n - 1) as nat)
    }
}

/// The bytes that `char::encode_utf8` writes for a code point below `0x10000`:
/// one, two or three bytes by its size.
pub open spec fn code_unit_utf8(cp: int) -> Seq<u8> {
    if cp < 0x80 {
        seq![cp as u8]
    } else if cp < 0x800 {
        seq![(0xC0 + cp / 64) as u8, (0x80 + cp % 64) as u8]
    } else {
        seq![(0xE0 + cp / 4096) as u8, (0x80 + (cp / 64) % 64) as u8, (0x80 + cp % 64) as u8]
    }
}

/// Whether a code point is a surrogate, which no `char` holds.
pub open spec fn is_surrogate(cp: int) -> bool {
    0xD800 <= cp < 0xE000
}

/// The four hexadecimal digits of a `\u` escape, from `i` on: the code point
/// they spell, which cannot be a surrogate.
pub open spec fn unicode_escape_value(s: Seq<u8>, i: int) -> Result<int, SyntaxError> {
    match hex_value(s, i, 4) {
        Ok(v) => if is_surrogate(v) {
            Err(SyntaxError::CannotConvertChar { pos: position_of(s, i), char: v as u32 })
        } else {
            Ok(v)
        },
        Err(e) => Err(e),
    }
}

/// An escape sequence that starts at `i` with its backslash: the index after
/// it, and the bytes that it stands for.
pub open spec fn escape(s: Seq<u8>, i: int) -> Result<(int, Seq<u8>), SyntaxError> {
    if i < 0 || i >= s.len() {
        Err(SyntaxError::EofWhileParsingEscapeSequence)
    } else if s[i] != BACKSLASH {
        Err(SyntaxError::UnexpectedTokenWhileStartParsingEscapeSequence { pos: position_of(s, i), found: s[i] })
    } else if i + 1 >= s.len() {
        Err(SyntaxError::EofWhileParsingEscapeSequence)
    } else if is_simple_escape(s[i + 1]) {
        Ok((i + 2, seq![simple_escape_byte(s[i + 1])]))
    } else if s[i + 1] == LOWER_U {
        match unicode_escape_value(s, i + 2) {
            Ok(v) => Ok((i + 6, code_unit_utf8(v))),
            Err(e) => Err(e),
        }
    } else {
        Err(SyntaxError::InvalidEscapeSequence { pos: position_of(s, i + 1), found: s[i + 1] })
    }
}

pub proof fn lemma_escape_advances(s: Seq<u8>, i: int)
    ensures
        escape(s, i) matches Ok((j, b)) ==> i + 2 <= j <= s.len() && i >= 0,
{
}

/// The body of a string whose opening quote stands just before `i`: the index of
/// its closing quote, and its bytes with the escapes replaced.
pub open spec fn string_body(s: Seq<u8>, i: int) -> Result<(int, Seq<u8>), SyntaxError>
    decreases s.len() - i,
{
    if i < 0 || i >= s.len() {
        Err(SyntaxError::EofWhileEndParsingString)
    } else if s[i] == BACKSLASH {
        match escape(s, i) {
            Err(e) => Err(e),
            Ok((j, b)) => {
                proof {
                    lemma_escape_advances(s, i);
                }
                match string_body(s, j) {
                    Ok((e, rest)) => Ok((e, b + rest)),
                    Err(x) => Err(x),
                }
            },
        }
    } else if s[i] == QUOTE {
        Ok((i, seq![]))
    } else if is_control(s[i]) {
        Err(SyntaxError::ControlCharacterWhileParsingString { pos: position_of(s, i), c: s[i] })
    } else {
        match string_body(s, i + 1) {
            Ok((e, rest)) => Ok((e, seq![s[i]] + rest)),
            Err(x) => Err(x),
        }
    }
}

pub proof fn lemma_string_body(s: Seq<u8>, i: int)
    requires
        0 <= i,
    ensures
        string_body(s, i) matches Ok((e, b)) ==> i <= e < s.len() && s[e] == QUOTE,
    decreases s.len() - i,
{
    if 0 <= i < s.len() {
        if s[i] == BACKSLASH {
            if let Ok((j, b)) = escape(s, i) {
                lemma_string_body(s, j);
            }
        } else if s[i] != QUOTE && !is_control(s[i]) {
            lemma_string_body(s, i + 1);
        }
    }
}

// ---------------------------------------------------------------- numbers

/// The index of the first byte at or after `i` that is not a decimal digit.
pub open spec fn digits_end(s: Seq<u8>, i: int) -> int
    decreases s.len() - i,
{
    if i < 0 || i >= s.len() || !is_digit(s[i]) {
        i
    } else {
        digits_end(s, i + 1)
    }
}

pub proof fn lemma_digits_end(s: Seq<u8>, i: int)
    requires
        0 <= i <= s.len(),
    ensures
        i <= digits_end(s, i) <= s.len(),
        forall|k: int| i <= k < digits_end(s, i) ==> is_digit(s[k]),
        digits_end(s, i) < s.len() ==> !is_digit(s[digits_end(s, i)]),
    decreases s.len() - i,
{
    if i < s.len() && is_digit(s[i]) {
        lemma_digits_end(s, i + 1);
    }
}

pub proof fn lemma_digits_end_unique(s: Seq<u8>, i: int, j: int)
    requires
        0 <= i <= j <= s.len(),
        forall|k: int| i <= k < j ==> is_digit(s[k]),
        j == s.len() || !is_digit(s[j]),
    ensures
        digits_end(s, i) == j,
    decreases j - i,
{
    if i < j {
        lemma_digits_end_unique(s, i + 1, j);
    }
}

/// The integer part of a number that starts at `i`: an optional minus, then
/// `0` alone or a digit from `1` to `9` followed by digits. The index after it.
pub open spec fn integer_part(s: Seq<u8>, i: int) -> Result<int, SyntaxError> {
    if 0 <= i < s.len() && s[i] == PLUS {
        Err(SyntaxError::InvalidLeadingPlus { pos: position_of(s, i) })
    } else {
        let j = if 0 <= i < s.len() && s[i] == MINUS { i + 1 } else { i };
        if j < 0 || j >= s.len() {
            Err(SyntaxError::EofWhileParsingNumber)
        } else if s[j] == DIGIT_ZERO {
            if j + 1 < s.len() && is_digit(s[j + 1]) {
                Err(SyntaxError::InvalidLeadingZeros { pos: position_of(s, j + 1) })
            } else {
                Ok(j + 1)
            }
        } else if DIGIT_ONE <= s[j] <= DIGIT_NINE {
            Ok(digits_end(s, j + 1))
        } else {
            Err(SyntaxError::UnexpectedTokenWhileStartParsingNumber { pos: position_of(s, j), found: s[j] })
        }
    }
}

/// The digits of a fraction whose dot stands just before `i`: the index after them.
pub open spec fn fraction_part(s: Seq<u8>, i: int) -> Result<int, SyntaxError> {
    if i < 0 || i >= s.len() {
        Err(SyntaxError::EofWhileStartParsingFraction)
    } else if is_digit(s[i]) {
        Ok(digits_end(s, i))
    } else {
        Err(SyntaxError::MissingFraction { pos: position_of(s, i), found: s[i] })
    }
}

/// The exponent whose `e` or `E` stands just before `i`: a sign or a digit, then
/// digits. The index after it.
pub open spec fn exponent_part(s: Seq<u8>, i: int) -> Result<int, SyntaxError> {
    if i < 0 || i >= s.len() {
        Err(SyntaxError::EofWhileStartParsingExponent)
    } else if s[i] == PLUS || s[i] == MINUS || is_digit(s[i]) {
        Ok(digits_end(s, i + 1))
    } else {
        Err(SyntaxError::MissingExponent { pos: position_of(s, i), found: s[i] })
    }
}

pub open spec fn is_exponent_mark(c: u8) -> bool {
    c == LOWER_E || c == UPPER_E
}

/// A number that starts at `i`: the index after it, and whether it has a
/// fraction or an exponent (a float) or neither (an integer).
pub open spec fn number(s: Seq<u8>, i: int) -> Result<(int, bool), SyntaxError> {
    match integer_part(s, i) {
        Err(e) => Err(e),
        Ok(a) => {
            let fraction = if 0 <= a < s.len() && s[a] == DOT {
                match fraction_part(s, a + 1) {
                    Ok(b) => Ok((b, true)),
                    Err(e) => Err(e),
                }
            } else {
                Ok((a, false))
            };
            match fraction {
                Err(e) => Err(e),
                Ok((b, is_float)) => if 0 <= b < s.len() && is_exponent_mark(s[b]) {
                    match exponent_part(s, b + 1) {
                        Ok(c) => Ok((c, true)),
                        Err(e) => Err(e),
                    }
                } else {
                    Ok((b, is_float))
                },
            }
        },
    }
}

} // verus!

verus! {

/// A string body with no backslash in it stands for its own bytes.
pub proof fn lemma_string_body_plain(s: Seq<u8>, i: int)
    requires
        0 <= i,
        string_body(s, i) is Ok,
        forall|k: int| i <= k < string_body(s, i)->Ok_0.0 ==> s[k] != BACKSLASH,
    ensures
        string_body(s, i)->Ok_0.1 == s.subrange(i, string_body(s, i)->Ok_0.0),
    decreases s.len() - i,
{
    lemma_string_body(s, i);
    let (e, un) = string_body(s, i)->Ok_0;
    if s[i] == QUOTE {
        assert(s.subrange(i, e) =~= Seq::<u8>::empty());
    } else {
        assert(s[i] != BACKSLASH);
        lemma_string_body(s, i + 1);
        lemma_string_body_plain(s, i + 1);
        assert(s.subrange(i, e) =~= seq![s[i]] + s.subrange(i + 1, e));
    }
}

} // verus!

verus! {

/// Four hexadecimal digits spell a number below `0x10000`.
pub proof fn lemma_pow16_four()
    ensures
        pow16(4) == 0x10000,
{
    reveal_with_fuel(pow16, 5);
}

} // verus!

verus! {

/// Below four digits the value stays below `0x1000`.
pub proof fn lemma_pow16_small(n: nat)
    requires
        n <= 3,
    ensures
        pow16(n) <= 0x1000,
        pow16(n + 1) == 16 * pow16(n),
{
    reveal_with_fuel(pow16, 5);
    if n == 0 {
    } else if n == 1 {
    } else if n == 2 {
    } else {
    }
}

/// Once the digits read so far hold an error, so do all longer runs.
pub proof fn lemma_hex_value_err(s: Seq<u8>, i: int, m: nat, n: nat)
    requires
        m <= n,
        hex_value(s, i, m) is Err,
    ensures
        hex_value(s, i, n) == hex_value(s, i, m),
    decreases n - m,
{
    if m < n {
        lemma_hex_value_err(s, i, m, (n - 1) as nat);
    }
}

} // verus!

verus! {

pub proof fn lemma_integer_part(s: Seq<u8>, i: int)
    requires
        0 <= i <= s.len(),
    ensures
        integer_part(s, i) matches Ok(a) ==> i < a <= s.len(),
{
    if i + 1 <= s.len() {
        lemma_digits_end(s, i + 1);
    }
    if i + 2 <= s.len() {
        lemma_digits_end(s, i + 2);
    }
}

pub proof fn lemma_fraction_part(s: Seq<u8>, i: int)
    requires
        0 <= i <= s.len(),
    ensures
        fraction_part(s, i) matches Ok(b) ==> i < b <= s.len(),
{
    lemma_digits_end(s, i);
}

pub proof fn lemma_exponent_part(s: Seq<u8>, i: int)
    requires
        0 <= i <= s.len(),
    ensures
        exponent_part(s, i) matches Ok(c) ==> i < c <= s.len(),
{
    if i + 1 <= s.len() {
        lemma_digits_end(s, i + 1);
    }
}

/// A number ends after it starts, and within the input.
pub proof fn lemma_number(s: Seq<u8>, i: int)
    requires
        0 <= i <= s.len(),
    ensures
        number(s, i) matches Ok((end, _)) ==> i < end <= s.len(),
{
    lemma_integer_part(s, i);
    if let Ok(a) = integer_part(s, i) {
        if a < s.len() {
            lemma_fraction_part(s, a + 1);
        }
        let b = if a < s.len() && s[a] == DOT {
            match fraction_part(s, a + 1) {
                Ok(b) => b,
                Err(_) => a,
            }
        } else {
            a
        };
        if b < s.len() {
            lemma_exponent_part(s, b + 1);
        }
    }
}

} // verus!
