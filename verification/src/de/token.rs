//! Reading the tokens of JSON with comments: whitespace, comments, literals,
//! strings and numbers.

pub mod byte;
pub mod raw;
pub mod read;
pub mod slice;
pub mod str;

use vstd::prelude::*;
use vstd::slice::slice_to_vec;
use vstd::utf8::{decode_utf8, valid_utf8};

use crate::ascii::{
    is_ascii_control, is_ascii_digit, is_ascii_whitespace, is_control, is_digit, is_whitespace, ASTERISK,
    BACKSLASH, BACKSPACE, CARRIAGE_RETURN, DIGIT_NINE, DIGIT_ONE, DIGIT_ZERO, DOT, FORM_FEED, LINE_FEED,
    LOWER_A, LOWER_B, LOWER_E, LOWER_F, LOWER_N, LOWER_R, LOWER_T, LOWER_U, MINUS, PLUS, QUOTE, SLASH, TAB,
    UPPER_A, UPPER_E, UPPER_F,
};
use crate::de::access::number::{FromNumberBuilder, NumberBuilder};
use crate::de::access::string::StringValue;
use crate::de::grammar::{fails_as, ident_result, string_content};
use crate::de::position::{lemma_row_col_bounded, position_of, spec_look};
use crate::de::syntax::{
    block_close, closes_at, code_unit_utf8, comment, comment_content, comment_end_pos, comment_follow,
    digits_end, escape, exponent_part, fraction_part, hex_digit, hex_value, integer_part, is_exponent_mark,
    is_simple_escape, lemma_block_close, lemma_comment_follow_advances, lemma_digits_end,
    lemma_digits_end_unique, lemma_escape_advances, lemma_hex_value_bounded, lemma_line_end,
    lemma_hex_value_err, lemma_integer_part, lemma_number, lemma_match_from, lemma_match_from_unique, lemma_pow16_four, lemma_pow16_small,
    lemma_skip_ws, lemma_string_body, line_end, match_len, number,
    pow16, simple_escape_byte, skip_ws, string_body, unicode_escape_value,
};
use crate::error::{Ensure, ErrorKind, JsonWithCommentsError, PosRange, Position, SemanticError, SyntaxError};
use crate::utf8::{str_from_utf8, string_from_utf8};

verus! {

/// The cursor after taking one byte at `i`: one further, but not past the end.
pub open spec fn step(s: Seq<u8>, i: int) -> int {
    if i < s.len() {
        i + 1
    } else {
        i
    }
}

/// The tokenizer is well formed and its cursor within its input.
pub open spec fn ready<'de, T: Tokenizer<'de>>(t: &T) -> bool {
    t.wf() && 0 <= t.cursor() <= t.input().len()
}

/// `b` reads the same input as `a`, in the same way, and is ready.
pub open spec fn same_source<'de, T: Tokenizer<'de>>(a: &T, b: &T) -> bool {
    &&& ready(b)
    &&& b.input() == a.input()
    &&& b.keeps_escapes() == a.keeps_escapes()
}

/// `f` gives `answer` for the byte at `k` when it has seen the bytes from `start` to `k`.
pub open spec fn fold_answer<F: Fn(&[u8], u8) -> bool>(f: F, s: Seq<u8>, start: int, k: int, answer: bool) -> bool {
    exists|b: &[u8]| b@ == s.subrange(start, k) && #[trigger] call_ensures(f, (b, s[k]), answer)
}

/// `r` is the error `k`.
pub open spec fn fails_with<T>(r: Result<T, JsonWithCommentsError>, k: ErrorKind) -> bool {
    r matches Err(e) && e@ == k
}

/// What parsing the body of a string that starts at `i` gives: the error of
/// the grammar, or the text (escapes replaced, or kept as written when `keeps`
/// holds), or an error when those bytes are not UTF-8.
pub open spec fn string_outcome<'de>(
    s: Seq<u8>,
    i: int,
    keeps: bool,
    r: Result<StringValue<'de>, JsonWithCommentsError>,
) -> bool {
    match string_content(s, i, keeps) {
        Ok((v, _)) => r matches Ok(x) && x@ == v,
        Err(m) => fails_as(r, m),
    }
}

/// Taking one more byte extends the taken range by that byte.
proof fn lemma_subrange_push(s: Seq<u8>, c0: int, i: int)
    requires
        0 <= c0 <= i < s.len(),
    ensures
        s.subrange(c0, i + 1) == s.subrange(c0, i).push(s[i]),
{
    assert(s.subrange(c0, i + 1) =~= s.subrange(c0, i).push(s[i]));
}

fn syntax_error<T>(e: SyntaxError) -> (r: Result<T, JsonWithCommentsError>)
    ensures
        fails_with(r, ErrorKind::Syntax(e)),
{
    Err(JsonWithCommentsError::syntax(e))
}

pub(crate) fn ensure_error<T>(e: Ensure) -> (r: Result<T, JsonWithCommentsError>)
    ensures
        fails_with(r, ErrorKind::Ensure(e)),
{
    Err(JsonWithCommentsError::new(ErrorKind::Ensure(e)))
}

/// Pushes the bytes that `char::encode_utf8` writes for a code point below `0x10000`.
fn push_code_unit(buff: &mut Vec<u8>, cp: u32)
    requires
        cp < 0x10000,
    ensures
        final(buff)@ == old(buff)@ + code_unit_utf8(cp as int),
{
    if cp < 0x80 {
        buff.push(cp as u8);
    } else if cp < 0x800 {
        buff.push((0xC0 + cp / 64) as u8);
        buff.push((0x80 + cp % 64) as u8);
    } else {
        buff.push((0xE0 + cp / 4096) as u8);
        buff.push((0x80 + (cp / 64) % 64) as u8);
        buff.push((0x80 + cp % 64) as u8);
    }
    assert(final(buff)@ =~= old(buff)@ + code_unit_utf8(cp as int));
}

/// What taking `ident` at `i` gives: `value` when the input holds all of it
/// there; otherwise an error with the range and the bytes that did match.
pub open spec fn ident_outcome<T>(
    s: Seq<u8>,
    i: int,
    ident: Seq<u8>,
    value: T,
    r: Result<T, JsonWithCommentsError>,
) -> bool {
    match ident_result(s, i, ident) {
        Ok(_) => r == Ok::<T, JsonWithCommentsError>(value),
        Err(m) => fails_as(r, m),
    }
}

/// The byte that a one byte escape stands for, given the byte after the backslash.
fn unescape_byte(c: u8) -> (r: Option<u8>)
    ensures
        r is Some <==> is_simple_escape(c),
        r matches Some(b) ==> b == simple_escape_byte(c),
{
    if c == QUOTE || c == BACKSLASH || c == SLASH {
        Some(c)
    } else if c == LOWER_B {
        Some(BACKSPACE)
    } else if c == LOWER_F {
        Some(FORM_FEED)
    } else if c == LOWER_N {
        Some(LINE_FEED)
    } else if c == LOWER_R {
        Some(CARRIAGE_RETURN)
    } else if c == LOWER_T {
        Some(TAB)
    } else {
        None
    }
}

/// The value of a hexadecimal digit, either case.
fn hex_digit_value(c: u8) -> (r: Option<u32>)
    ensures
        r is Some <==> hex_digit(c) is Some,
        r matches Some(d) ==> hex_digit(c) == Some(d as int) && d < 16,
{
    if DIGIT_ZERO <= c && c <= DIGIT_NINE {
        Some((c - DIGIT_ZERO) as u32)
    } else if LOWER_A <= c && c <= LOWER_F {
        Some((c - LOWER_A + 10) as u32)
    } else if UPPER_A <= c && c <= UPPER_F {
        Some((c - UPPER_A + 10) as u32)
    } else {
        None
    }
}

/// What reading a number token from `i` gives, the cursor ending at `c`:
/// after whitespace, the grammar's error, or the text converted into a `T`,
/// or `InvalidNumber` with the text when `T` does not take it.
pub open spec fn number_token_outcome<T: FromNumberBuilder>(
    s: Seq<u8>,
    i: int,
    c: int,
    r: Result<T, JsonWithCommentsError>,
) -> bool {
    match skip_ws(s, i) {
        Err(e) => fails_with(r, ErrorKind::Syntax(e)),
        Ok(j) => if j >= s.len() {
            fails_with(r, ErrorKind::Syntax(SyntaxError::EofWhileStartParsingNumber))
        } else {
            match number(s, j) {
                Err(e) => fails_with(r, ErrorKind::Syntax(e)),
                Ok((end, is_float)) => {
                    let rep = s.subrange(j, end);
                    &&& c == end
                    &&& if !valid_utf8(rep) {
                        fails_with(r, ErrorKind::InvalidUtf8)
                    } else if T::accepts(rep, is_float) {
                        r matches Ok(v) && T::converts_to(rep, is_float, v)
                    } else {
                        &&& r matches Err(e)
                        &&& e@ matches ErrorKind::Semantic(SemanticError::InvalidNumber { pos, rep: text })
                        &&& pos == position_of(s, j)
                        &&& text@ == decode_utf8(rep)
                    }
                },
            }
        },
    }
}

/// A source of bytes with positions, and what is read from it.
pub trait Tokenizer<'de>: Sized {
    /// The bytes read.
    spec fn input(&self) -> Seq<u8>;

    /// The index of the next byte to read.
    spec fn cursor(&self) -> int;

    spec fn wf(&self) -> bool;

    /// Whether strings are given as written, escapes kept.
    spec fn keeps_escapes(&self) -> bool;

    /// Whether the tokenizer, as it stands after reading a string, has handed
    /// that string out borrowed from its input rather than owned.
    spec fn lends_strings(&self) -> bool;

    /// A well formed tokenizer has its cursor within its input.
    proof fn lemma_cursor_bounded(&self)
        requires
            self.wf(),
        ensures
            0 <= self.cursor() <= self.input().len(),
    ;

    /// Takes the next byte, with its position.
    fn eat(&mut self) -> (r: Option<(Position, u8)>)
        requires
            old(self).wf(),
        ensures
            final(self).wf(),
            final(self).input() == old(self).input(),
            final(self).keeps_escapes() == old(self).keeps_escapes(),
            r == spec_look(old(self).input(), old(self).cursor()),
            final(self).cursor() == step(old(self).input(), old(self).cursor()),
            final(self).lends_strings() == old(self).lends_strings(),
    ;

    /// The next byte, with its position, without taking it.
    fn look(&mut self) -> (r: Option<(Position, u8)>)
        requires
            old(self).wf(),
        ensures
            final(self).wf(),
            final(self).input() == old(self).input(),
            final(self).keeps_escapes() == old(self).keeps_escapes(),
            r == spec_look(old(self).input(), old(self).cursor()),
            final(self).cursor() == old(self).cursor(),
    ;

    /// Skips whitespace and comments, then takes the byte that follows.
    fn eat_whitespace(&mut self) -> (r: Result<Option<(Position, u8)>, JsonWithCommentsError>)
        requires
            old(self).wf(),
        ensures
            final(self).wf(),
            final(self).input() == old(self).input(),
            final(self).keeps_escapes() == old(self).keeps_escapes(),
            match skip_ws(old(self).input(), old(self).cursor()) {
                Ok(j) => r matches Ok(x) && x == spec_look(old(self).input(), j) && final(self).cursor() == step(
                    old(self).input(),
                    j,
                ),
                Err(e) => fails_with(r, ErrorKind::Syntax(e)),
            },
    {
        proof {
            self.lemma_cursor_bounded();
        }
        let ghost s = self.input();
        let ghost c0 = self.cursor();
        let ghost ke = self.keeps_escapes();
        proof {
            lemma_skip_ws(s, c0);
        }
        loop
            invariant
                self.wf(),
                0 <= self.cursor() <= s.len(),
                self.input() == s,
                self.keeps_escapes() == ke,
                s == old(self).input(),
                ke == old(self).keeps_escapes(),
                skip_ws(s, self.cursor()) == skip_ws(s, c0),
                c0 == old(self).cursor(),
            decreases s.len() - self.cursor(),
        {
            let ghost i = self.cursor();
            match self.eat() {
                Some((pos, c)) => {
                    if c == SLASH {
                        proof {
                            lemma_comment_follow_advances(s, i + 1);
                        }
                        match self.eat_comment_follow() {
                            Ok(_) => {},
                            Err(e) => {
                                return Err(e);
                            },
                        }
                    } else if is_ascii_whitespace(c) {
                    } else {
                        return Ok(Some((pos, c)));
                    }
                },
                None => {
                    return Ok(None);
                },
            }
        }
    }

    /// Skips whitespace and comments, then looks at the byte that follows.
    fn skip_whitespace(&mut self) -> (r: Result<Option<(Position, u8)>, JsonWithCommentsError>)
        requires
            old(self).wf(),
        ensures
            final(self).wf(),
            final(self).input() == old(self).input(),
            final(self).keeps_escapes() == old(self).keeps_escapes(),
            match skip_ws(old(self).input(), old(self).cursor()) {
                Ok(j) => r matches Ok(x) && x == spec_look(old(self).input(), j) && final(self).cursor() == j,
                Err(e) => fails_with(r, ErrorKind::Syntax(e)),
            },
    {
        proof {
            self.lemma_cursor_bounded();
        }
        let ghost s = self.input();
        let ghost c0 = self.cursor();
        let ghost ke = self.keeps_escapes();
        loop
            invariant
                self.wf(),
                0 <= self.cursor() <= s.len(),
                self.input() == s,
                self.keeps_escapes() == ke,
                s == old(self).input(),
                ke == old(self).keeps_escapes(),
                skip_ws(s, self.cursor()) == skip_ws(s, c0),
                c0 == old(self).cursor(),
            decreases s.len() - self.cursor(),
        {
            let ghost i = self.cursor();
            match self.look() {
                Some((pos, c)) => {
                    if c == SLASH {
                        proof {
                            lemma_comment_follow_advances(s, i + 1);
                        }
                        match self.eat_comment() {
                            Ok(_) => {},
                            Err(e) => {
                                return Err(e);
                            },
                        }
                    } else if is_ascii_whitespace(c) {
                        let _ = self.eat();
                    } else {
                        return Ok(Some((pos, c)));
                    }
                },
                None => {
                    return Ok(None);
                },
            }
        }
    }

    /// Takes a comment that starts here, returning its range and its text.
    fn eat_comment(&mut self) -> (r: Result<Option<(PosRange, Vec<u8>)>, JsonWithCommentsError>)
        requires
            old(self).wf(),
        ensures
            final(self).wf(),
            final(self).input() == old(self).input(),
            final(self).keeps_escapes() == old(self).keeps_escapes(),
            match comment(old(self).input(), old(self).cursor()) {
                Ok(j) => {
                    &&& final(self).cursor() == j
                    &&& r matches Ok(Some((range, content)))
                    &&& range == (
                        position_of(old(self).input(), old(self).cursor()),
                        comment_end_pos(old(self).input(), old(self).cursor() + 1),
                    )
                    &&& content@ == comment_content(old(self).input(), old(self).cursor() + 1)
                },
                Err(e) => fails_with(r, ErrorKind::Syntax(e)),
            },
    {
        proof {
            self.lemma_cursor_bounded();
        }
        match self.eat() {
            None => syntax_error(SyntaxError::EofWhileStartParsingComment),
            Some((start, c)) => {
                if c == SLASH {
                    match self.eat_comment_follow() {
                        Ok(Some((end, content))) => Ok(Some(((start, end), content))),
                        Ok(None) => Ok(None),
                        Err(e) => Err(e),
                    }
                } else {
                    syntax_error(SyntaxError::UnexpectedTokenWhileStartParsingComment { pos: start, found: c })
                }
            },
        }
    }

    /// Takes the rest of a comment whose first `/` was taken: its end position and its text.
    fn eat_comment_follow(&mut self) -> (r: Result<Option<(Position, Vec<u8>)>, JsonWithCommentsError>)
        requires
            old(self).wf(),
        ensures
            final(self).wf(),
            final(self).input() == old(self).input(),
            final(self).keeps_escapes() == old(self).keeps_escapes(),
            match comment_follow(old(self).input(), old(self).cursor()) {
                Ok(j) => {
                    &&& final(self).cursor() == j
                    &&& r matches Ok(Some((p, content)))
                    &&& p == comment_end_pos(old(self).input(), old(self).cursor())
                    &&& content@ == comment_content(old(self).input(), old(self).cursor())
                },
                Err(e) => fails_with(r, ErrorKind::Syntax(e)),
            },
    {
        proof {
            self.lemma_cursor_bounded();
        }
        let ghost s = self.input();
        let ghost c0 = self.cursor();
        match self.eat() {
            None => syntax_error(SyntaxError::EofWhileStartParsingComment),
            Some((follow, c)) => {
                if c == SLASH {
                    let mut content = vec![SLASH, SLASH];
                    let end = self.eat_slash_comment_content(&mut content);
                    assert(content@ =~= comment_content(s, c0));
                    let p = match end {
                        Some(p) => p,
                        None => follow,
                    };
                    Ok(Some((p, content)))
                } else if c == ASTERISK {
                    let mut content = vec![SLASH, ASTERISK];
                    match self.eat_asterisk_comment_content(&mut content) {
                        Ok(end) => {
                            content.push(ASTERISK);
                            content.push(SLASH);
                            assert(content@ =~= comment_content(s, c0));
                            let p = match end {
                                Some(p) => p,
                                None => follow,
                            };
                            Ok(Some((p, content)))
                        },
                        Err(e) => Err(e),
                    }
                } else {
                    syntax_error(SyntaxError::UnexpectedTokenWhileStartParsingComment { pos: follow, found: c })
                }
            },
        }
    }

    /// Takes the text of a line comment up to and with its line feed, pushing
    /// the text (without the line feed) into `buff`. The position of the line
    /// feed, or `None` when the input ends first.
    fn eat_slash_comment_content(&mut self, buff: &mut Vec<u8>) -> (r: Option<Position>)
        requires
            old(self).wf(),
        ensures
            final(self).wf(),
            final(self).input() == old(self).input(),
            final(self).keeps_escapes() == old(self).keeps_escapes(),
            final(buff)@ == old(buff)@ + old(self).input().subrange(
                old(self).cursor(),
                line_end(old(self).input(), old(self).cursor()),
            ),
            final(self).cursor() == step(old(self).input(), line_end(old(self).input(), old(self).cursor())),
            r == if line_end(old(self).input(), old(self).cursor()) < old(self).input().len() {
                Some(position_of(old(self).input(), line_end(old(self).input(), old(self).cursor())))
            } else {
                None::<Position>
            },
    {
        proof {
            self.lemma_cursor_bounded();
        }
        let ghost s = self.input();
        let ghost c0 = self.cursor();
        let ghost ke = self.keeps_escapes();
        let ghost b0 = buff@;
        proof {
            lemma_line_end(s, c0);
        }
        loop
            invariant
                self.wf(),
                0 <= self.cursor() <= s.len(),
                self.input() == s,
                self.keeps_escapes() == ke,
                s == old(self).input(),
                ke == old(self).keeps_escapes(),
                c0 <= self.cursor() <= line_end(s, c0),
                line_end(s, c0) <= s.len(),
                line_end(s, c0) < s.len() ==> s[line_end(s, c0)] == LINE_FEED,
                forall|k: int| c0 <= k < line_end(s, c0) ==> s[k] != LINE_FEED,
                buff@ == b0 + s.subrange(c0, self.cursor()),
                b0 == old(buff)@,
                c0 == old(self).cursor(),
                0 <= c0,
            decreases s.len() - self.cursor(),
        {
            let ghost i = self.cursor();
            match self.eat() {
                Some((pos, c)) => {
                    if c == LINE_FEED {
                        return Some(pos);
                    } else {
                        buff.push(c);
                        proof { lemma_subrange_push(s, c0, i); }
                    }
                },
                None => {
                    return None;
                },
            }
        }
    }

    /// Takes the text of a block comment up to and with its `*/`, pushing the
    /// text between into `buff`. The position of the closing `/`.
    fn eat_asterisk_comment_content(&mut self, buff: &mut Vec<u8>) -> (r: Result<
        Option<Position>,
        JsonWithCommentsError,
    >)
        requires
            old(self).wf(),
        ensures
            final(self).wf(),
            final(self).input() == old(self).input(),
            final(self).keeps_escapes() == old(self).keeps_escapes(),
            match block_close(old(self).input(), old(self).cursor()) {
                Some(k) => {
                    &&& r matches Ok(Some(p))
                    &&& p == position_of(old(self).input(), k + 1)
                    &&& final(self).cursor() == k + 2
                    &&& final(buff)@ == old(buff)@ + old(self).input().subrange(old(self).cursor(), k)
                },
                None => fails_with(r, ErrorKind::Syntax(SyntaxError::UnterminatedComment)),
            },
    {
        proof {
            self.lemma_cursor_bounded();
        }
        let ghost s = self.input();
        let ghost c0 = self.cursor();
        let ghost ke = self.keeps_escapes();
        let ghost b0 = buff@;
        proof {
            lemma_block_close(s, c0);
        }
        loop
            invariant
                self.wf(),
                0 <= self.cursor() <= s.len(),
                self.input() == s,
                self.keeps_escapes() == ke,
                s == old(self).input(),
                ke == old(self).keeps_escapes(),
                c0 <= self.cursor(),
                block_close(s, self.cursor()) == block_close(s, c0),
                buff@ == b0 + s.subrange(c0, self.cursor()),
                b0 == old(buff)@,
                c0 == old(self).cursor(),
                0 <= c0,
            decreases s.len() - self.cursor(),
        {
            let ghost i = self.cursor();
            match self.eat() {
                Some((_, c)) => {
                    if c == ASTERISK {
                        match self.look() {
                            Some((_, n)) => {
                                if n == SLASH {
                                    assert(closes_at(s, i));
                                    match self.eat() {
                                        Some((p, _)) => {
                                            return Ok(Some(p));
                                        },
                                        None => {
                                            return ensure_error(Ensure::EatAfterLook);
                                        },
                                    }
                                } else {
                                    buff.push(c);
                                    proof { lemma_subrange_push(s, c0, i); }
                                }
                            },
                            None => {
                                return syntax_error(SyntaxError::UnterminatedComment);
                            },
                        }
                    } else {
                        buff.push(c);
                        proof { lemma_subrange_push(s, c0, i); }
                    }
                },
                None => {
                    return syntax_error(SyntaxError::UnterminatedComment);
                },
            }
        }
    }

    /// Takes the bytes that `f` accepts, one by one, while it accepts them.
    /// `f` sees the bytes taken so far and the next one. Returns the range of
    /// positions (from the first byte looked at) and the bytes taken.
    fn fold_token<F: Fn(&[u8], u8) -> bool>(&mut self, f: F) -> (r: (Option<PosRange>, Vec<u8>))
        requires
            old(self).wf(),
            forall|b: &[u8], c: u8| call_requires(f, (b, c)),
        ensures
            final(self).wf(),
            final(self).input() == old(self).input(),
            final(self).keeps_escapes() == old(self).keeps_escapes(),
            old(self).cursor() <= final(self).cursor(),
            r.1@ == old(self).input().subrange(old(self).cursor(), final(self).cursor()),
            r.0 == if old(self).cursor() < old(self).input().len() {
                Some(
                    (
                        position_of(old(self).input(), old(self).cursor()),
                        position_of(
                            old(self).input(),
                            if final(self).cursor() > old(self).cursor() {
                                final(self).cursor() - 1
                            } else {
                                old(self).cursor()
                            },
                        ),
                    ),
                )
            } else {
                None::<PosRange>
            },
            forall|k: int|
                old(self).cursor() <= k < final(self).cursor() ==> #[trigger] fold_answer(
                    f,
                    old(self).input(),
                    old(self).cursor(),
                    k,
                    true,
                ),
            final(self).cursor() < old(self).input().len() ==> fold_answer(
                f,
                old(self).input(),
                old(self).cursor(),
                final(self).cursor(),
                false,
            ),
    {
        proof {
            self.lemma_cursor_bounded();
        }
        let ghost s = self.input();
        let ghost c0 = self.cursor();
        let ghost ke = self.keeps_escapes();
        let mut range: Option<PosRange> = None;
        let mut buff: Vec<u8> = Vec::new();
        loop
            invariant
                self.wf(),
                0 <= self.cursor() <= s.len(),
                self.input() == s,
                self.keeps_escapes() == ke,
                s == old(self).input(),
                ke == old(self).keeps_escapes(),
                forall|b: &[u8], c: u8| call_requires(f, (b, c)),
                0 <= c0 <= self.cursor() <= s.len(),
                buff@ == s.subrange(c0, self.cursor()),
                self.cursor() > c0 ==> range == Some(
                    (position_of(s, c0), position_of(s, self.cursor() - 1)),
                ),
                self.cursor() == c0 ==> range is None || range == Some(
                    (position_of(s, c0), position_of(s, c0)),
                ),
                c0 >= s.len() ==> range is None,
                forall|k: int| c0 <= k < self.cursor() ==> #[trigger] fold_answer(f, s, c0, k, true),
            ensures
                self.wf(),
                0 <= self.cursor() <= s.len(),
                self.input() == s,
                self.keeps_escapes() == ke,
                s == old(self).input(),
                ke == old(self).keeps_escapes(),
                c0 <= self.cursor() <= s.len(),
                buff@ == s.subrange(c0, self.cursor()),
                range == if c0 < s.len() {
                    Some(
                        (
                            position_of(s, c0),
                            position_of(s, if self.cursor() > c0 { self.cursor() - 1 } else { c0 }),
                        ),
                    )
                } else {
                    None::<PosRange>
                },
                forall|k: int| c0 <= k < self.cursor() ==> #[trigger] fold_answer(f, s, c0, k, true),
                self.cursor() < s.len() ==> fold_answer(f, s, c0, self.cursor(), false),
            decreases s.len() - self.cursor(),
        {
            let ghost i = self.cursor();
            match self.look() {
                Some((pos, c)) => {
                    if range.is_none() {
                        range = Some((pos, pos));
                    }
                    let sl = buff.as_slice();
                    let accepted = f(sl, c);
                    assert(fold_answer(f, s, c0, i, accepted));
                    if accepted {
                        match self.eat() {
                            Some((p, eaten)) => {
                                match range {
                                    Some((start, _)) => {
                                        range = Some((start, p));
                                    },
                                    None => {},
                                }
                                buff.push(eaten);
                                proof { lemma_subrange_push(s, c0, i); }
                            },
                            None => {},
                        }
                    } else {
                        break;
                    }
                },
                None => {
                    break;
                },
            }
        }
        (range, buff)
    }

    /// Takes the bytes of `ident`, giving `value` when all of them follow.
    fn parse_ident<T>(&mut self, ident: &[u8], value: T) -> (r: Result<T, JsonWithCommentsError>)
        requires
            old(self).wf(),
        ensures
            final(self).wf(),
            final(self).input() == old(self).input(),
            final(self).keeps_escapes() == old(self).keeps_escapes(),
            final(self).cursor() == old(self).cursor() + match_len(old(self).input(), old(self).cursor(), ident@),
            ident_outcome(old(self).input(), old(self).cursor(), ident@, value, r),
    {
        proof {
            self.lemma_cursor_bounded();
        }
        let ghost s = self.input();
        let ghost c0 = self.cursor();
        let ghost id = ident@;
        let f = |b: &[u8], c: u8| -> (ok: bool)
            ensures
                ok == (b@.len() < ident@.len() && ident@[b@.len() as int] == c),
            { b.len() < ident.len() && ident[b.len()] == c };
        let (p, parsed) = self.fold_token(f);
        proof {
            self.lemma_cursor_bounded();
            let c1 = self.cursor();
            assert forall|n: int| 0 <= n < c1 - c0 implies s[c0 + n] == id[n] && n < id.len() by {
                assert(fold_answer(f, s, c0, c0 + n, true));
            }
            if c1 < s.len() {
                assert(fold_answer(f, s, c0, c1, false));
            }
            if c1 > c0 {
                assert(fold_answer(f, s, c0, c1 - 1, true));
            }
            lemma_match_from(s, c0, id, 0);
            lemma_match_from_unique(s, c0, id, 0, c1 - c0);
        }
        if parsed.len() == ident.len() {
            Ok(value)
        } else {
            match p {
                Some(pos) => syntax_error(
                    SyntaxError::UnexpectedIdent { pos, expected: slice_to_vec(ident), found: parsed },
                ),
                None => syntax_error(SyntaxError::EofWhileParsingIdent),
            }
        }
    }

    /// Takes a string token: whitespace, the opening quote, the body and the closing quote.
    fn parse_string(&mut self) -> (r: Result<StringValue<'de>, JsonWithCommentsError>)
        requires
            old(self).wf(),
        ensures
            final(self).wf(),
            final(self).input() == old(self).input(),
            final(self).keeps_escapes() == old(self).keeps_escapes(),
            match skip_ws(old(self).input(), old(self).cursor()) {
                Err(e) => fails_with(r, ErrorKind::Syntax(e)),
                Ok(j) => if j >= old(self).input().len() {
                    fails_with(r, ErrorKind::Syntax(SyntaxError::EofWhileStartParsingString))
                } else if old(self).input()[j] != QUOTE {
                    fails_with(
                        r,
                        ErrorKind::Syntax(
                            SyntaxError::UnexpectedTokenWhileStartParsingString {
                                pos: position_of(old(self).input(), j),
                                found: old(self).input()[j],
                            },
                        ),
                    )
                } else {
                    &&& string_outcome(old(self).input(), j + 1, old(self).keeps_escapes(), r)
                    &&& r is Ok ==> final(self).cursor() == string_body(old(self).input(), j + 1)->Ok_0.0 + 1
                    &&& r matches Ok(v) ==> (v is Borrowed <==> final(self).lends_strings())
                },
            },
    {
        proof {
            self.lemma_cursor_bounded();
            lemma_skip_ws(self.input(), self.cursor());
        }
        let ghost s = self.input();
        match self.eat_whitespace() {
            Err(e) => Err(e),
            Ok(None) => syntax_error(SyntaxError::EofWhileStartParsingString),
            Ok(Some((pos, found))) => {
                if found == QUOTE {
                    let ghost j = self.cursor();
                    proof {
                        lemma_string_body(s, j);
                    }
                    match self.parse_string_content() {
                        Err(e) => Err(e),
                        Ok(value) => match self.eat() {
                            Some((_, c)) => {
                                if c == QUOTE {
                                    Ok(value)
                                } else {
                                    syntax_error(
                                        SyntaxError::UnexpectedTokenWhileEndParsingString { pos: pos, found: c },
                                    )
                                }
                            },
                            None => syntax_error(SyntaxError::EofWhileEndParsingString),
                        },
                    }
                } else {
                    syntax_error(SyntaxError::UnexpectedTokenWhileStartParsingString { pos, found })
                }
            },
        }
    }

    /// Takes the body of a string up to its closing quote, which it leaves.
    fn parse_string_content(&mut self) -> (r: Result<StringValue<'de>, JsonWithCommentsError>)
        requires
            old(self).wf(),
        ensures
            final(self).wf(),
            final(self).input() == old(self).input(),
            final(self).keeps_escapes() == old(self).keeps_escapes(),
            string_outcome(old(self).input(), old(self).cursor(), old(self).keeps_escapes(), r),
            r is Ok ==> final(self).cursor() == string_body(old(self).input(), old(self).cursor())->Ok_0.0,
            r matches Ok(v) ==> (v is Borrowed <==> final(self).lends_strings()),
    ;

    /// Takes the body of a string up to its closing quote, replacing the
    /// escapes, and gives it as an owned string.
    fn parse_string_content_super(&mut self) -> (r: Result<StringValue<'de>, JsonWithCommentsError>)
        requires
            old(self).wf(),
        ensures
            final(self).wf(),
            final(self).input() == old(self).input(),
            final(self).keeps_escapes() == old(self).keeps_escapes(),
            string_outcome(old(self).input(), old(self).cursor(), false, r),
            r matches Ok(v) ==> v is Owned,
            r is Ok ==> final(self).cursor() == string_body(old(self).input(), old(self).cursor())->Ok_0.0,
    {
        proof {
            self.lemma_cursor_bounded();
        }
        let ghost s = self.input();
        let ghost c0 = self.cursor();
        let ghost ke = self.keeps_escapes();
        let mut buff: Vec<u8> = Vec::new();
        loop
            invariant
                self.wf(),
                0 <= self.cursor() <= s.len(),
                self.input() == s,
                self.keeps_escapes() == ke,
                s == old(self).input(),
                ke == old(self).keeps_escapes(),
                c0 == old(self).cursor(),
                string_body(s, c0) == match string_body(s, self.cursor()) {
                    Ok((e, rest)) => Ok((e, buff@ + rest)),
                    Err(x) => Err(x),
                },
            decreases s.len() - self.cursor(),
        {
            let ghost i = self.cursor();
            match self.look() {
                None => {
                    return syntax_error(SyntaxError::EofWhileEndParsingString);
                },
                Some((pos, found)) => {
                    if found == BACKSLASH {
                        proof {
                            lemma_escape_advances(s, i);
                        }
                        let ghost b0 = buff@;
                        match self.parse_escape_sequence(&mut buff) {
                            Ok(()) => {
                                proof {
                                    let (j, b) = escape(s, i)->Ok_0;
                                    match string_body(s, j) {
                                        Ok((e, rest)) => {
                                            assert(b0 + (b + rest) =~= buff@ + rest);
                                        },
                                        Err(x) => {},
                                    }
                                }
                            },
                            Err(e) => {
                                return Err(e);
                            },
                        }
                    } else if found == QUOTE {
                        assert(buff@ + Seq::<u8>::empty() =~= buff@);
                        return match string_from_utf8(buff.as_slice()) {
                            Some(v) => Ok(StringValue::Owned(v)),
                            None => Err(JsonWithCommentsError::new(ErrorKind::InvalidUtf8)),
                        };
                    } else if is_ascii_control(found) {
                        return syntax_error(SyntaxError::ControlCharacterWhileParsingString { pos, c: found });
                    } else {
                        match self.eat() {
                            Some((_, c)) => {
                                let ghost b0 = buff@;
                                buff.push(c);
                                proof {
                                    match string_body(s, i + 1) {
                                        Ok((e, rest)) => {
                                            assert(b0 + (seq![c] + rest) =~= buff@ + rest);
                                        },
                                        Err(x) => {},
                                    }
                                }
                            },
                            None => {
                                return ensure_error(Ensure::EatAfterLook);
                            },
                        }
                    }
                },
            }
        }
    }

    /// Takes an escape sequence, pushing the bytes it stands for.
    fn parse_escape_sequence(&mut self, buff: &mut Vec<u8>) -> (r: Result<(), JsonWithCommentsError>)
        requires
            old(self).wf(),
        ensures
            final(self).wf(),
            final(self).input() == old(self).input(),
            final(self).keeps_escapes() == old(self).keeps_escapes(),
            match escape(old(self).input(), old(self).cursor()) {
                Ok((j, b)) => r is Ok && final(self).cursor() == j && final(buff)@ == old(buff)@ + b,
                Err(e) => fails_with(r, ErrorKind::Syntax(e)),
            },
    {
        self.parse_escape_sequence_super(buff)
    }

    /// Takes an escape sequence, pushing the bytes it stands for.
    fn parse_escape_sequence_super(&mut self, buff: &mut Vec<u8>) -> (r: Result<(), JsonWithCommentsError>)
        requires
            old(self).wf(),
        ensures
            final(self).wf(),
            final(self).input() == old(self).input(),
            final(self).keeps_escapes() == old(self).keeps_escapes(),
            match escape(old(self).input(), old(self).cursor()) {
                Ok((j, b)) => r is Ok && final(self).cursor() == j && final(buff)@ == old(buff)@ + b,
                Err(e) => fails_with(r, ErrorKind::Syntax(e)),
            },
    {
        proof {
            self.lemma_cursor_bounded();
        }
        match self.eat() {
            None => syntax_error(SyntaxError::EofWhileParsingEscapeSequence),
            Some((pos, c)) => {
                if c != BACKSLASH {
                    syntax_error(SyntaxError::UnexpectedTokenWhileStartParsingEscapeSequence { pos, found: c })
                } else {
                    match self.eat() {
                        None => syntax_error(SyntaxError::EofWhileParsingEscapeSequence),
                        Some((p, e)) => match unescape_byte(e) {
                            Some(b) => {
                                buff.push(b);
                                Ok(())
                            },
                            None => {
                                if e == LOWER_U {
                                    self.parse_unicode(buff)
                                } else {
                                    syntax_error(SyntaxError::InvalidEscapeSequence { pos: p, found: e })
                                }
                            },
                        },
                    }
                }
            },
        }
    }

    /// Takes the four hexadecimal digits of a `\u` escape, pushing the UTF-8
    /// bytes of the code point they spell.
    fn parse_unicode(&mut self, buff: &mut Vec<u8>) -> (r: Result<(), JsonWithCommentsError>)
        requires
            old(self).wf(),
        ensures
            final(self).wf(),
            final(self).input() == old(self).input(),
            final(self).keeps_escapes() == old(self).keeps_escapes(),
            match unicode_escape_value(old(self).input(), old(self).cursor()) {
                Ok(v) => r is Ok && final(self).cursor() == old(self).cursor() + 4 && final(buff)@ == old(
                    buff,
                )@ + code_unit_utf8(v),
                Err(e) => fails_with(r, ErrorKind::Syntax(e)) && final(buff)@ == old(buff)@,
            },
    {
        proof {
            self.lemma_cursor_bounded();
        }
        let ghost s = self.input();
        let ghost c0 = self.cursor();
        let ghost ke = self.keeps_escapes();
        let mut hex: u32 = 0;
        let mut i: u32 = 0;
        let mut start: Position = (0, 0);
        while i < 4
            invariant
                i > 0 ==> start == position_of(s, c0),
                self.wf(),
                self.input() == s,
                self.keeps_escapes() == ke,
                s == old(self).input(),
                ke == old(self).keeps_escapes(),
                c0 == old(self).cursor(),
                0 <= c0,
                i <= 4,
                self.cursor() == c0 + i,
                hex_value(s, c0, i as nat) == Ok::<int, SyntaxError>(hex as int),
                hex < pow16(i as nat),
                buff@ == old(buff)@,
            decreases 4 - i,
        {
            proof {
                lemma_hex_value_bounded(s, c0, (i + 1) as nat);
                lemma_pow16_small(i as nat);
                if hex_value(s, c0, (i + 1) as nat) is Err {
                    lemma_hex_value_err(s, c0, (i + 1) as nat, 4);
                }
            }
            match self.eat() {
                None => {
                    return syntax_error(SyntaxError::EofWhileParsingEscapeSequence);
                },
                Some((pos, c)) => match hex_digit_value(c) {
                    Some(d) => {
                        if i == 0 {
                            start = pos;
                        }
                        hex = hex * 16 + d;
                        i = i + 1;
                    },
                    None => {
                        return syntax_error(SyntaxError::InvalidUnicodeEscape { pos, found: c });
                    },
                },
            }
        }
        proof { lemma_pow16_four(); }
        if 0xD800 <= hex && hex < 0xE000 {
            return syntax_error(SyntaxError::CannotConvertChar { pos: start, char: hex });
        }
        push_code_unit(buff, hex);
        Ok(())
    }

    /// Takes the decimal digits that follow, returning them.
    fn fold_digits(&mut self) -> (r: Vec<u8>)
        requires
            old(self).wf(),
        ensures
            final(self).wf(),
            final(self).input() == old(self).input(),
            final(self).keeps_escapes() == old(self).keeps_escapes(),
            final(self).cursor() == digits_end(old(self).input(), old(self).cursor()),
            r@ == old(self).input().subrange(old(self).cursor(), final(self).cursor()),
    {
        proof {
            self.lemma_cursor_bounded();
        }
        let f = |_b: &[u8], c: u8| -> (d: bool)
            ensures
                d == is_digit(c),
            { is_ascii_digit(c) };
        let ghost s = self.input();
        let ghost c0 = self.cursor();
        let (_, digits) = self.fold_token(f);
        proof {
            self.lemma_cursor_bounded();
            let c1 = self.cursor();
            assert forall|k: int| c0 <= k < c1 implies is_digit(s[k]) by {
                assert(fold_answer(f, s, c0, k, true));
            }
            if c1 < s.len() {
                assert(fold_answer(f, s, c0, c1, false));
            }
            lemma_digits_end_unique(s, c0, c1);
        }
        digits
    }

    /// Takes a number token and converts its text into a `T`.
    fn parse_number<T: FromNumberBuilder>(&mut self) -> (r: Result<T, JsonWithCommentsError>)
        requires
            old(self).wf(),
        ensures
            final(self).wf(),
            final(self).input() == old(self).input(),
            final(self).keeps_escapes() == old(self).keeps_escapes(),
            number_token_outcome(old(self).input(), old(self).cursor(), final(self).cursor(), r),
    {
        self.parse_number_super()
    }

    /// Takes a number token and converts its text into a `T`.
    fn parse_number_super<T: FromNumberBuilder>(&mut self) -> (r: Result<T, JsonWithCommentsError>)
        requires
            old(self).wf(),
        ensures
            final(self).wf(),
            final(self).input() == old(self).input(),
            final(self).keeps_escapes() == old(self).keeps_escapes(),
            number_token_outcome(old(self).input(), old(self).cursor(), final(self).cursor(), r),
    {
        proof {
            self.lemma_cursor_bounded();
            lemma_skip_ws(self.input(), self.cursor());
        }
        let ghost s = self.input();
        let mut builder = NumberBuilder::new();
        let pos = match self.skip_whitespace() {
            Err(e) => {
                return Err(e);
            },
            Ok(None) => {
                return syntax_error(SyntaxError::EofWhileStartParsingNumber);
            },
            Ok(Some((pos, _))) => pos,
        };
        let ghost j = self.cursor();
        proof {
            lemma_skip_ws(s, j);
        }
        match self.parse_integer_part(&mut builder) {
            Err(e) => {
                return Err(e);
            },
            Ok(()) => {},
        }
        let ghost a = self.cursor();
        proof {
            self.lemma_cursor_bounded();
            lemma_integer_part(s, j);
            assert(builder.rep() =~= s.subrange(j, a));
        }
        match self.look() {
            Some((_, c)) => {
                if c == DOT {
                    match self.eat() {
                        Some((_, dot)) => builder.visit_fraction_dot(dot),
                        None => {
                            return ensure_error(Ensure::EatAfterLook);
                        },
                    }
                    match self.parse_fraction_part(&mut builder) {
                        Err(e) => {
                            return Err(e);
                        },
                        Ok(()) => {
                            proof {
                                lemma_digits_end(s, a + 1);
                                assert(builder.rep() =~= s.subrange(j, self.cursor()));
                            }
                        },
                    }
                }
            },
            None => {},
        }
        let ghost b = self.cursor();
        proof {
            self.lemma_cursor_bounded();
            assert(builder.rep() =~= s.subrange(j, b));
        }
        match self.look() {
            Some((_, c)) => {
                if c == LOWER_E || c == UPPER_E {
                    match self.eat() {
                        Some((_, e)) => builder.visit_exponent_e(e),
                        None => {
                            return ensure_error(Ensure::EatAfterLook);
                        },
                    }
                    match self.parse_exponent_part(&mut builder) {
                        Err(e) => {
                            return Err(e);
                        },
                        Ok(()) => {
                            proof {
                                lemma_digits_end(s, b + 2);
                                assert(builder.rep() =~= s.subrange(j, self.cursor()));
                            }
                        },
                    }
                }
            },
            None => {},
        }
        proof {
            self.lemma_cursor_bounded();
            let end = self.cursor();
            assert(builder.rep() =~= s.subrange(j, end));
        }
        let rep = match string_from_utf8(builder.representation()) {
            Some(rep) => rep,
            None => {
                return Err(JsonWithCommentsError::new(ErrorKind::InvalidUtf8));
            },
        };
        match builder.build() {
            Ok(v) => Ok(v),
            Err(_) => Err(JsonWithCommentsError::new(ErrorKind::Semantic(SemanticError::InvalidNumber { pos, rep }))),
        }
    }

    /// Takes the integer part of a number, after whitespace: a minus, then
    /// `0` alone or digits that do not start with `0`.
    fn parse_integer_part(&mut self, builder: &mut NumberBuilder) -> (r: Result<(), JsonWithCommentsError>)
        requires
            old(self).wf(),
        ensures
            final(self).wf(),
            final(self).input() == old(self).input(),
            final(self).keeps_escapes() == old(self).keeps_escapes(),
            final(builder).is_float() == old(builder).is_float(),
            match skip_ws(old(self).input(), old(self).cursor()) {
                Err(e) => fails_with(r, ErrorKind::Syntax(e)) && final(builder).rep() == old(builder).rep(),
                Ok(j) => if j >= old(self).input().len() {
                    &&& fails_with(r, ErrorKind::Syntax(SyntaxError::EofWhileStartParsingNumber))
                    &&& final(builder).rep() == old(builder).rep()
                } else {
                    match integer_part(old(self).input(), j) {
                        Err(e) => {
                            &&& fails_with(r, ErrorKind::Syntax(e))
                            &&& final(builder).rep() == old(builder).rep() + (if old(self).input()[j] == MINUS {
                                seq![MINUS]
                            } else {
                                Seq::empty()
                            })
                        },
                        Ok(a) => {
                            &&& r is Ok
                            &&& final(self).cursor() == a
                            &&& final(builder).rep() == old(builder).rep() + old(self).input().subrange(j, a)
                        },
                    }
                },
            },
    {
        proof {
            self.lemma_cursor_bounded();
            lemma_skip_ws(self.input(), self.cursor());
        }
        let ghost s = self.input();
        let ghost r0 = builder.rep();
        let (pos, c) = match self.skip_whitespace() {
            Err(e) => {
                return Err(e);
            },
            Ok(None) => {
                return syntax_error(SyntaxError::EofWhileStartParsingNumber);
            },
            Ok(Some(x)) => x,
        };
        let ghost j0 = self.cursor();
        if c == MINUS {
            match self.eat() {
                Some((_, m)) => builder.push(m),
                None => {
                    return ensure_error(Ensure::EatAfterLook);
                },
            }
        } else if c == PLUS {
            return syntax_error(SyntaxError::InvalidLeadingPlus { pos });
        }
        let ghost k = self.cursor();
        assert(builder.rep() =~= r0 + s.subrange(j0, k));
        match self.eat() {
            None => syntax_error(SyntaxError::EofWhileParsingNumber),
            Some((pos, c)) => {
                if c == DIGIT_ZERO {
                    match self.look() {
                        Some((p, d)) => {
                            if is_ascii_digit(d) {
                                return syntax_error(SyntaxError::InvalidLeadingZeros { pos: p });
                            }
                        },
                        None => {},
                    }
                    builder.push(c);
                    assert(builder.rep() =~= r0 + s.subrange(j0, k + 1));
                    Ok(())
                } else if DIGIT_ONE <= c && c <= DIGIT_NINE {
                    builder.push(c);
                    let remain = self.fold_digits();
                    builder.extend_from_slice(remain.as_slice());
                    proof {
                        self.lemma_cursor_bounded();
                        lemma_digits_end(s, k + 1);
                        assert(builder.rep() =~= r0 + s.subrange(j0, self.cursor()));
                    }
                    Ok(())
                } else {
                    syntax_error(SyntaxError::UnexpectedTokenWhileStartParsingNumber { pos, found: c })
                }
            },
        }
    }

    /// Takes the digits of a fraction whose dot was taken.
    fn parse_fraction_part(&mut self, builder: &mut NumberBuilder) -> (r: Result<(), JsonWithCommentsError>)
        requires
            old(self).wf(),
        ensures
            final(self).wf(),
            final(self).input() == old(self).input(),
            final(self).keeps_escapes() == old(self).keeps_escapes(),
            final(builder).is_float() == old(builder).is_float(),
            match fraction_part(old(self).input(), old(self).cursor()) {
                Err(e) => fails_with(r, ErrorKind::Syntax(e)),
                Ok(b) => {
                    &&& r is Ok
                    &&& final(self).cursor() == b
                    &&& final(builder).rep() == old(builder).rep() + old(self).input().subrange(
                        old(self).cursor(),
                        b,
                    )
                },
            },
    {
        proof {
            self.lemma_cursor_bounded();
        }
        match self.look() {
            None => syntax_error(SyntaxError::EofWhileStartParsingFraction),
            Some((pos, c)) => {
                if is_ascii_digit(c) {
                    let fraction = self.fold_digits();
                    builder.extend_from_slice(fraction.as_slice());
                    Ok(())
                } else {
                    syntax_error(SyntaxError::MissingFraction { pos, found: c })
                }
            },
        }
    }

    /// Takes the sign or first digit and the digits of an exponent whose mark was taken.
    fn parse_exponent_part(&mut self, builder: &mut NumberBuilder) -> (r: Result<(), JsonWithCommentsError>)
        requires
            old(self).wf(),
        ensures
            final(self).wf(),
            final(self).input() == old(self).input(),
            final(self).keeps_escapes() == old(self).keeps_escapes(),
            final(builder).is_float() == old(builder).is_float(),
            match exponent_part(old(self).input(), old(self).cursor()) {
                Err(e) => fails_with(r, ErrorKind::Syntax(e)),
                Ok(b) => {
                    &&& r is Ok
                    &&& final(self).cursor() == b
                    &&& final(builder).rep() == old(builder).rep() + old(self).input().subrange(
                        old(self).cursor(),
                        b,
                    )
                },
            },
    {
        proof {
            self.lemma_cursor_bounded();
        }
        let ghost s = self.input();
        let ghost c0 = self.cursor();
        match self.eat() {
            None => syntax_error(SyntaxError::EofWhileStartParsingExponent),
            Some((pos, c)) => {
                if c == PLUS || c == MINUS || is_ascii_digit(c) {
                    builder.push(c);
                    let exponent = self.fold_digits();
                    builder.extend_from_slice(exponent.as_slice());
                    proof {
                        lemma_digits_end(s, c0 + 1);
                        assert(builder.rep() =~= old(builder).rep() + s.subrange(c0, self.cursor()));
                    }
                    Ok(())
                } else {
                    syntax_error(SyntaxError::MissingExponent { pos, found: c })
                }
            },
        }
    }
}

/// What one call of `eat` does, as its contract states: `r` is what it
/// returned and `after` the tokenizer after it.
pub open spec fn ate<'de, T: Tokenizer<'de>>(before: T, r: Option<(Position, u8)>, after: T) -> bool {
    &&& after.wf()
    &&& after.input() == before.input()
    &&& after.keeps_escapes() == before.keeps_escapes()
    &&& r == spec_look(before.input(), before.cursor())
    &&& after.cursor() == step(before.input(), before.cursor())
}

/// Successive calls of `eat` on a tokenizer at the start of its input give
/// the bytes of the input in order, each with its position, and `None` once
/// the input is spent. (`look` gives what the next `eat` gives, without
/// taking it: both are `spec_look` at the cursor.)
pub proof fn lemma_successive_eats<'de, T: Tokenizer<'de>>(ts: Seq<T>, rs: Seq<Option<(Position, u8)>>)
    requires
        ts.len() == rs.len() + 1,
        ts[0].wf(),
        ts[0].cursor() == 0,
        forall|i: int| 0 <= i < rs.len() ==> ate(ts[i], #[trigger] rs[i], ts[i + 1]),
    ensures
        ts.last().input() == ts[0].input(),
        ts.last().cursor() == if rs.len() <= ts[0].input().len() {
            rs.len() as int
        } else {
            ts[0].input().len() as int
        },
        forall|k: int| 0 <= k < rs.len() ==> #[trigger] rs[k] == spec_look(ts[0].input(), k),
    decreases rs.len(),
{
    if rs.len() > 0 {
        let n = rs.len() - 1;
        let fewer = rs.drop_last();
        let earlier = ts.drop_last();
        assert forall|i: int| 0 <= i < fewer.len() implies ate(earlier[i], #[trigger] fewer[i], earlier[i + 1]) by {
            assert(ate(ts[i], rs[i], ts[i + 1]));
        }
        lemma_successive_eats(earlier, fewer);
        assert(ate(ts[n], rs[n], ts[n + 1]));
        assert forall|k: int| 0 <= k < rs.len() implies #[trigger] rs[k] == spec_look(ts[0].input(), k) by {
            if k < n {
                assert(rs[k] == fewer[k]);
            }
        }
    }
}

} // verus!
