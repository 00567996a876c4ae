//! What reading a whole value gives, stated over the input bytes: the value
//! (as its model) and the index after it, or the error that reading meets.

use vstd::prelude::*;
use vstd::utf8::{decode_utf8, valid_utf8};

use crate::ascii::{
    is_digit, COLON, COMMA, LEFT_BRACE, LEFT_BRACKET, LOWER_A, LOWER_E, LOWER_F, LOWER_L, LOWER_N, LOWER_R, LOWER_S,
    LOWER_T, LOWER_U, MINUS, QUOTE, RIGHT_BRACE, RIGHT_BRACKET,
};
use crate::de::access::number::{ends_with_digit, integer_in_range, parse_integer};
use crate::de::position::position_of;
use crate::de::syntax::{
    lemma_match_from, lemma_number, lemma_skip_ws, lemma_string_body, match_len, number, skip_ws, string_body,
};
use crate::error::{ErrorKind, JsonWithCommentsError, PosRange, Position, SemanticError, SyntaxError};
use crate::value::{assoc_insert, ValueModel};

verus! {

/// An error as the grammar states it: the error of the library with its text
/// as sequences.
pub enum ErrorModel {
    /// A syntax error that carries no text.
    Syntax(SyntaxError),
    UnexpectedIdent { pos: PosRange, expected: Seq<u8>, found: Seq<u8> },
    InvalidNumber { pos: Position, rep: Seq<char> },
    InvalidUtf8,
    /// A value that ends where it starts; `lemma_value_at_progress` shows
    /// that the grammar never gives it.
    NoProgress,
}

/// `e` is the error that `m` states.
pub open spec fn error_matches(e: JsonWithCommentsError, m: ErrorModel) -> bool {
    match m {
        ErrorModel::Syntax(x) => e@ == ErrorKind::Syntax(x),
        ErrorModel::UnexpectedIdent { pos, expected, found } => {
            &&& e@ matches ErrorKind::Syntax(SyntaxError::UnexpectedIdent { pos: p, expected: x, found: f })
            &&& p == pos
            &&& x@ == expected
            &&& f@ == found
        },
        ErrorModel::InvalidNumber { pos, rep } => {
            &&& e@ matches ErrorKind::Semantic(SemanticError::InvalidNumber { pos: p, rep: t })
            &&& p == pos
            &&& t@ == rep
        },
        ErrorModel::InvalidUtf8 => e@ == ErrorKind::InvalidUtf8,
        ErrorModel::NoProgress => false,
    }
}

/// `r` failed with the error that `m` states.
pub open spec fn fails_as<T>(r: Result<T, JsonWithCommentsError>, m: ErrorModel) -> bool {
    r matches Err(e) && error_matches(e, m)
}

/// Taking `ident` at `i`: the index after it, or the error with the range and
/// the bytes that did match.
pub open spec fn ident_result(s: Seq<u8>, i: int, ident: Seq<u8>) -> Result<int, ErrorModel> {
    let k = match_len(s, i, ident);
    if k == ident.len() {
        Ok(i + k)
    } else if i >= s.len() {
        Err(ErrorModel::Syntax(SyntaxError::EofWhileParsingIdent))
    } else {
        Err(
            ErrorModel::UnexpectedIdent {
                pos: (position_of(s, i), position_of(s, if k > 0 { i + k - 1 } else { i })),
                expected: ident,
                found: s.subrange(i, i + k),
            },
        )
    }
}

/// The body of a string whose opening quote stands just before `i`: its text
/// (escapes replaced, or kept as written when `keeps` holds) and the index of
/// the closing quote.
pub open spec fn string_content(s: Seq<u8>, i: int, keeps: bool) -> Result<(Seq<char>, int), ErrorModel> {
    match string_body(s, i) {
        Err(e) => Err(ErrorModel::Syntax(e)),
        Ok((end, un)) => if valid_utf8(un) && (keeps ==> valid_utf8(s.subrange(i, end))) {
            Ok((decode_utf8(if keeps { s.subrange(i, end) } else { un }), end))
        } else {
            Err(ErrorModel::InvalidUtf8)
        },
    }
}

/// A number that starts at `j`, as a value holds it: an integer that fits an
/// `i64`, or a float as its text when the text ends with a digit.
pub open spec fn number_value(s: Seq<u8>, j: int) -> Result<(ValueModel, int), ErrorModel> {
    match number(s, j) {
        Err(e) => Err(ErrorModel::Syntax(e)),
        Ok((end, is_float)) => {
            let rep = s.subrange(j, end);
            if !valid_utf8(rep) {
                Err(ErrorModel::InvalidUtf8)
            } else if is_float {
                if ends_with_digit(rep) {
                    Ok((ValueModel::Float(decode_utf8(rep)), end))
                } else {
                    Err(ErrorModel::InvalidNumber { pos: position_of(s, j), rep: decode_utf8(rep) })
                }
            } else if integer_in_range(rep, true, i64::MIN as int, i64::MAX as int) {
                Ok((ValueModel::Integer(parse_integer(rep, true).unwrap()), end))
            } else {
                Err(ErrorModel::InvalidNumber { pos: position_of(s, j), rep: decode_utf8(rep) })
            }
        },
    }
}

pub open spec fn null_ident() -> Seq<u8> {
    seq![LOWER_N, LOWER_U, LOWER_L, LOWER_L]
}

pub open spec fn true_ident() -> Seq<u8> {
    seq![LOWER_T, LOWER_R, LOWER_U, LOWER_E]
}

pub open spec fn false_ident() -> Seq<u8> {
    seq![LOWER_F, LOWER_A, LOWER_L, LOWER_S, LOWER_E]
}

/// A literal `ident` at `j` standing for `v`.
pub open spec fn literal(s: Seq<u8>, j: int, ident: Seq<u8>, v: ValueModel) -> Result<(ValueModel, int), ErrorModel> {
    match ident_result(s, j, ident) {
        Ok(e) => Ok((v, e)),
        Err(m) => Err(m),
    }
}

/// A value from `i` on, after whitespace and comments: the value and the index after it.
pub open spec fn value_at(s: Seq<u8>, i: int, keeps: bool) -> Result<(ValueModel, int), ErrorModel>
    decreases s.len() - i, 1nat,
{
    if !(0 <= i <= s.len()) {
        Err(ErrorModel::NoProgress)
    } else {
        match skip_ws(s, i) {
            Err(e) => Err(ErrorModel::Syntax(e)),
            Ok(j) => {
                proof {
                    lemma_skip_ws(s, i);
                }
                if j >= s.len() {
                    Err(ErrorModel::Syntax(SyntaxError::EofWhileStartParsingValue))
                } else {
                    let c = s[j];
                    if c == LOWER_N {
                        literal(s, j, null_ident(), ValueModel::Null)
                    } else if c == LOWER_T {
                        literal(s, j, true_ident(), ValueModel::Bool(true))
                    } else if c == LOWER_F {
                        literal(s, j, false_ident(), ValueModel::Bool(false))
                    } else if c == MINUS || is_digit(c) {
                        number_value(s, j)
                    } else if c == QUOTE {
                        match string_content(s, j + 1, keeps) {
                            Ok((v, end)) => Ok((ValueModel::String(v), end + 1)),
                            Err(m) => Err(m),
                        }
                    } else if c == LEFT_BRACKET {
                        elements(s, j + 1, keeps, Seq::empty())
                    } else if c == LEFT_BRACE {
                        members(s, j + 1, keeps, Seq::empty())
                    } else {
                        Err(
                            ErrorModel::Syntax(
                                SyntaxError::UnexpectedTokenWhileParsingValue { pos: position_of(s, j), found: c },
                            ),
                        )
                    }
                }
            },
        }
    }
}

/// The rest of an array from `i` on, `acc` holding the elements read so far:
/// the array and the index after its `]`.
pub open spec fn elements(s: Seq<u8>, i: int, keeps: bool, acc: Seq<ValueModel>) -> Result<
    (ValueModel, int),
    ErrorModel,
>
    decreases s.len() - i, 2nat,
{
    if !(0 <= i <= s.len()) {
        Err(ErrorModel::NoProgress)
    } else {
        match skip_ws(s, i) {
            Err(e) => Err(ErrorModel::Syntax(e)),
            Ok(j) => {
                proof {
                    lemma_skip_ws(s, i);
                }
                if j >= s.len() {
                    Err(ErrorModel::Syntax(SyntaxError::EofWhileStartParsingArray))
                } else if s[j] == RIGHT_BRACKET {
                    Ok((ValueModel::Array(acc), j + 1))
                } else {
                    match value_at(s, j, keeps) {
                        Err(m) => Err(m),
                        Ok((v, e)) => if e <= j || e > s.len() {
                            Err(ErrorModel::NoProgress)
                        } else {
                            match skip_ws(s, e) {
                                Err(x) => Err(ErrorModel::Syntax(x)),
                                Ok(k) => {
                                    proof {
                                        lemma_skip_ws(s, e);
                                    }
                                    if k >= s.len() {
                                        Err(ErrorModel::Syntax(SyntaxError::EofWhileEndParsingArray))
                                    } else if s[k] == COMMA {
                                        elements(s, k + 1, keeps, acc.push(v))
                                    } else if s[k] == RIGHT_BRACKET {
                                        elements(s, k, keeps, acc.push(v))
                                    } else {
                                        Err(
                                            ErrorModel::Syntax(
                                                SyntaxError::UnexpectedTokenWhileParsingArrayValue {
                                                    pos: position_of(s, k),
                                                    found: s[k],
                                                },
                                            ),
                                        )
                                    }
                                },
                            }
                        },
                    }
                }
            },
        }
    }
}

/// The rest of an object from `i` on, `acc` holding the members read so far:
/// the object and the index after its `}`. A key read again keeps its place
/// and takes the later value.
pub open spec fn members(s: Seq<u8>, i: int, keeps: bool, acc: Seq<(Seq<char>, ValueModel)>) -> Result<
    (ValueModel, int),
    ErrorModel,
>
    decreases s.len() - i, 2nat,
{
    if !(0 <= i <= s.len()) {
        Err(ErrorModel::NoProgress)
    } else {
        match skip_ws(s, i) {
            Err(e) => Err(ErrorModel::Syntax(e)),
            Ok(j) => {
                proof {
                    lemma_skip_ws(s, i);
                }
                if j >= s.len() {
                    Err(ErrorModel::Syntax(SyntaxError::EofWhileParsingObjectKey))
                } else if s[j] == RIGHT_BRACE {
                    Ok((ValueModel::Object(acc), j + 1))
                } else if s[j] == QUOTE {
                    match string_content(s, j + 1, keeps) {
                        Err(m) => Err(m),
                        Ok((key, kend)) => {
                            proof {
                                lemma_string_body(s, j + 1);
                            }
                            member_value(s, kend + 1, keeps, acc, key)
                        },
                    }
                } else {
                    Err(
                        ErrorModel::Syntax(
                            SyntaxError::UnexpectedTokenWhileParsingObjectKey { pos: position_of(s, j), found: s[j] },
                        ),
                    )
                }
            },
        }
    }
}

/// The `:` and the value of a member whose key ends just before `e`, then the
/// rest of the object.
pub open spec fn member_value(
    s: Seq<u8>,
    e: int,
    keeps: bool,
    acc: Seq<(Seq<char>, ValueModel)>,
    key: Seq<char>,
) -> Result<(ValueModel, int), ErrorModel>
    decreases s.len() - e + 1, 3nat,
{
    if !(1 <= e <= s.len()) {
        Err(ErrorModel::NoProgress)
    } else {
        match skip_ws(s, e) {
            Err(x) => Err(ErrorModel::Syntax(x)),
            Ok(c) => {
                proof {
                    lemma_skip_ws(s, e);
                }
                if c >= s.len() {
                    Err(ErrorModel::Syntax(SyntaxError::EofWhileParsingObjectValue))
                } else if s[c] != COLON {
                    Err(
                        ErrorModel::Syntax(
                            SyntaxError::UnexpectedTokenWhileStartParsingObjectValue {
                                pos: position_of(s, c),
                                found: s[c],
                            },
                        ),
                    )
                } else {
                    match value_at(s, c + 1, keeps) {
                        Err(m) => Err(m),
                        Ok((v, e2)) => if e2 <= c + 1 || e2 > s.len() {
                            Err(ErrorModel::NoProgress)
                        } else {
                            match skip_ws(s, e2) {
                                Err(x) => Err(ErrorModel::Syntax(x)),
                                Ok(k) => {
                                    proof {
                                        lemma_skip_ws(s, e2);
                                    }
                                    if k >= s.len() {
                                        Err(ErrorModel::Syntax(SyntaxError::EofWhileParsingObjectValue))
                                    } else if s[k] == COMMA {
                                        members(s, k + 1, keeps, assoc_insert(acc, key, v))
                                    } else if s[k] == RIGHT_BRACE {
                                        members(s, k, keeps, assoc_insert(acc, key, v))
                                    } else {
                                        Err(
                                            ErrorModel::Syntax(
                                                SyntaxError::UnexpectedTokenWhileEndParsingObjectValue {
                                                    pos: position_of(s, k),
                                                    found: s[k],
                                                },
                                            ),
                                        )
                                    }
                                },
                            }
                        },
                    }
                }
            },
        }
    }
}

} // verus!

verus! {

/// A literal ends after it starts, within the input.
pub proof fn lemma_ident_result(s: Seq<u8>, i: int, ident: Seq<u8>)
    requires
        0 <= i <= s.len(),
    ensures
        ident_result(s, i, ident) matches Ok(e) ==> e == i + ident.len() && e <= s.len(),
{
    lemma_match_from(s, i, ident, 0);
}

/// Every value ends after it starts, within the input; `NoProgress` never comes.
pub proof fn lemma_value_at_progress(s: Seq<u8>, i: int, keeps: bool)
    requires
        0 <= i <= s.len(),
    ensures
        value_at(s, i, keeps) matches Ok((v, e)) ==> i < e <= s.len(),
        !(value_at(s, i, keeps) matches Err(ErrorModel::NoProgress)),
    decreases s.len() - i, 1nat,
{
    lemma_skip_ws(s, i);
    if let Ok(j) = skip_ws(s, i) {
        if j < s.len() {
            let c = s[j];
            lemma_ident_result(s, j, null_ident());
            lemma_ident_result(s, j, true_ident());
            lemma_ident_result(s, j, false_ident());
            lemma_number(s, j);
            lemma_string_body(s, j + 1);
            if c == LEFT_BRACKET {
                lemma_elements_progress(s, j + 1, keeps, Seq::empty());
            } else if c == LEFT_BRACE {
                lemma_members_progress(s, j + 1, keeps, Seq::empty());
            }
        }
    }
}

pub proof fn lemma_elements_progress(s: Seq<u8>, i: int, keeps: bool, acc: Seq<ValueModel>)
    requires
        0 <= i <= s.len(),
    ensures
        elements(s, i, keeps, acc) matches Ok((v, e)) ==> i < e <= s.len(),
        !(elements(s, i, keeps, acc) matches Err(ErrorModel::NoProgress)),
    decreases s.len() - i, 2nat,
{
    lemma_skip_ws(s, i);
    if let Ok(j) = skip_ws(s, i) {
        if j < s.len() && s[j] != RIGHT_BRACKET {
            lemma_value_at_progress(s, j, keeps);
            if let Ok((v, e)) = value_at(s, j, keeps) {
                lemma_skip_ws(s, e);
                if let Ok(k) = skip_ws(s, e) {
                    if k < s.len() {
                        if s[k] == COMMA {
                            lemma_elements_progress(s, k + 1, keeps, acc.push(v));
                        } else if s[k] == RIGHT_BRACKET {
                            lemma_elements_progress(s, k, keeps, acc.push(v));
                        }
                    }
                }
            }
        }
    }
}

pub proof fn lemma_members_progress(s: Seq<u8>, i: int, keeps: bool, acc: Seq<(Seq<char>, ValueModel)>)
    requires
        0 <= i <= s.len(),
    ensures
        members(s, i, keeps, acc) matches Ok((v, e)) ==> i < e <= s.len(),
        !(members(s, i, keeps, acc) matches Err(ErrorModel::NoProgress)),
    decreases s.len() - i, 2nat,
{
    lemma_skip_ws(s, i);
    if let Ok(j) = skip_ws(s, i) {
        if j < s.len() && s[j] == QUOTE {
            lemma_string_body(s, j + 1);
            if let Ok((key, kend)) = string_content(s, j + 1, keeps) {
                lemma_member_value_progress(s, kend + 1, keeps, acc, key);
            }
        }
    }
}

pub proof fn lemma_member_value_progress(
    s: Seq<u8>,
    e: int,
    keeps: bool,
    acc: Seq<(Seq<char>, ValueModel)>,
    key: Seq<char>,
)
    requires
        1 <= e <= s.len(),
    ensures
        member_value(s, e, keeps, acc, key) matches Ok((v, x)) ==> e < x <= s.len(),
        !(member_value(s, e, keeps, acc, key) matches Err(ErrorModel::NoProgress)),
    decreases s.len() - e + 1, 3nat,
{
    lemma_skip_ws(s, e);
    if let Ok(c) = skip_ws(s, e) {
        if c < s.len() && s[c] == COLON {
            lemma_value_at_progress(s, c + 1, keeps);
            if let Ok((v, e2)) = value_at(s, c + 1, keeps) {
                lemma_skip_ws(s, e2);
                if let Ok(k) = skip_ws(s, e2) {
                    if k < s.len() {
                        if s[k] == COMMA {
                            lemma_members_progress(s, k + 1, keeps, assoc_insert(acc, key, v));
                        } else if s[k] == RIGHT_BRACE {
                            lemma_members_progress(s, k, keeps, assoc_insert(acc, key, v));
                        }
                    }
                }
            }
        }
    }
}

} // verus!

verus! {

/// A whole text holding one value: the value, with nothing but whitespace
/// and comments after it.
pub open spec fn document(s: Seq<u8>, keeps: bool) -> Result<ValueModel, ErrorModel> {
    match value_at(s, 0, keeps) {
        Err(m) => Err(m),
        Ok((v, e)) => match skip_ws(s, e) {
            Err(x) => Err(ErrorModel::Syntax(x)),
            Ok(j) => if j < s.len() {
                Err(ErrorModel::Syntax(SyntaxError::ExpectedEof { pos: position_of(s, j), found: s[j] }))
            } else {
                Ok(v)
            },
        },
    }
}

} // verus!
