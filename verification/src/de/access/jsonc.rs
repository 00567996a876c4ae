//! Reading values from a tokenizer.

use vstd::prelude::*;

use crate::ascii::{
    is_ascii_digit, is_digit, COLON, COMMA, LEFT_BRACE, LEFT_BRACKET, LOWER_A, LOWER_E, LOWER_F, LOWER_L, LOWER_N,
    LOWER_R, LOWER_S, LOWER_T, LOWER_U, MINUS, QUOTE, RIGHT_BRACE, RIGHT_BRACKET,
};
use crate::de::access::number::FromNumberBuilder;
use crate::de::access::string::StringValue;
use crate::de::grammar::{
    elements, fails_as, false_ident, ident_result, lemma_elements_progress, lemma_ident_result,
    lemma_members_progress, lemma_value_at_progress, member_value, members, null_ident, string_content,
    true_ident, value_at, ErrorModel,
};
use crate::de::position::{position_of, spec_look};
use crate::de::syntax::{lemma_skip_ws, lemma_string_body, skip_ws};
use crate::de::token::{fails_with, ident_outcome, number_token_outcome, string_outcome, Tokenizer};
use crate::error::{ErrorKind, JsonWithCommentsError, Position, SyntaxError};
use crate::value::number::Number;
use crate::value::{assoc_insert, lemma_members_model_insert, members_model, values_model, JsoncValue, MapImpl};

verus! {

fn null_bytes() -> (r: Vec<u8>)
    ensures
        r@ == null_ident(),
{
    vec![LOWER_N, LOWER_U, LOWER_L, LOWER_L]
}

fn true_bytes() -> (r: Vec<u8>)
    ensures
        r@ == true_ident(),
{
    vec![LOWER_T, LOWER_R, LOWER_U, LOWER_E]
}

fn false_bytes() -> (r: Vec<u8>)
    ensures
        r@ == false_ident(),
{
    vec![LOWER_F, LOWER_A, LOWER_L, LOWER_S, LOWER_E]
}

/// Taking the token `x` after whitespace and comments from `i`, the cursor
/// ending at `c`: the grammar's error, `eof` at the end of the input, or
/// `unexpected` with the byte found instead.
pub open spec fn eat_outcome(
    s: Seq<u8>,
    i: int,
    c: int,
    x: u8,
    eof: SyntaxError,
    unexpected: spec_fn(Position, u8) -> SyntaxError,
    r: Result<(), JsonWithCommentsError>,
) -> bool {
    match skip_ws(s, i) {
        Err(e) => fails_with(r, ErrorKind::Syntax(e)),
        Ok(j) => if j >= s.len() {
            fails_with(r, ErrorKind::Syntax(eof))
        } else if s[j] == x {
            r is Ok && c == j + 1
        } else {
            fails_with(r, ErrorKind::Syntax(unexpected(position_of(s, j), s[j])))
        },
    }
}

/// Looking, after whitespace and comments from `i`, at what follows a
/// separator position, the cursor ending at `c`: the grammar's error, `eof`
/// at the end of the input; a comma is taken and a `close` is left (both
/// `Ok`); anything else is `unexpected`.
pub open spec fn separator_outcome(
    s: Seq<u8>,
    i: int,
    c: int,
    close: u8,
    eof: SyntaxError,
    unexpected: spec_fn(Position, u8) -> SyntaxError,
    r: Result<(), JsonWithCommentsError>,
) -> bool {
    match skip_ws(s, i) {
        Err(e) => fails_with(r, ErrorKind::Syntax(e)),
        Ok(j) => if j >= s.len() {
            fails_with(r, ErrorKind::Syntax(eof))
        } else if s[j] == COMMA {
            r is Ok && c == j + 1
        } else if s[j] == close {
            r is Ok && c == j
        } else {
            fails_with(r, ErrorKind::Syntax(unexpected(position_of(s, j), s[j])))
        },
    }
}

/// Looking, after whitespace and comments from `i`, whether an element or a
/// member follows: `Ok(false)` at `close`, `Ok(true)` at `open` (or at
/// anything, when `open` is `None`); the cursor ends at the byte looked at.
pub open spec fn next_outcome(
    s: Seq<u8>,
    i: int,
    c: int,
    close: u8,
    open: Option<u8>,
    eof: SyntaxError,
    unexpected: spec_fn(Position, u8) -> SyntaxError,
    r: Result<bool, JsonWithCommentsError>,
) -> bool {
    match skip_ws(s, i) {
        Err(e) => fails_with(r, ErrorKind::Syntax(e)),
        Ok(j) => if j >= s.len() {
            fails_with(r, ErrorKind::Syntax(eof))
        } else if s[j] == close {
            r == Ok::<bool, JsonWithCommentsError>(false) && c == j
        } else if open is None || open == Some(s[j]) {
            r == Ok::<bool, JsonWithCommentsError>(true) && c == j
        } else {
            fails_with(r, ErrorKind::Syntax(unexpected(position_of(s, j), s[j])))
        },
    }
}

/// Reads values of JSON with comments from a tokenizer.
pub struct JsoncDeserializer<'de, T: Tokenizer<'de>> {
    tokenizer: T,
    phantom: std::marker::PhantomData<&'de ()>,
}

impl<'de, T: Tokenizer<'de>> JsoncDeserializer<'de, T> {
    /// The tokenizer read from.
    pub closed spec fn tokenizer(&self) -> T {
        self.tokenizer
    }

    /// The bytes read.
    pub open spec fn input(&self) -> Seq<u8> {
        self.tokenizer().input()
    }

    /// The index of the next byte to read.
    pub open spec fn cursor(&self) -> int {
        self.tokenizer().cursor()
    }

    /// Whether strings are given as written, escapes kept.
    pub open spec fn keeps(&self) -> bool {
        self.tokenizer().keeps_escapes()
    }

    /// Whether the string just read was handed out borrowed from the input.
    pub open spec fn lends_strings(&self) -> bool {
        self.tokenizer().lends_strings()
    }

    pub open spec fn wf(&self) -> bool {
        self.tokenizer().wf()
    }

    /// `b` reads the same input as `a`, in the same way.
    pub open spec fn same_source(a: &Self, b: &Self) -> bool {
        &&& b.wf()
        &&& b.input() == a.input()
        &&& b.keeps() == a.keeps()
    }

    pub fn new(tokenizer: T) -> (r: Self)
        ensures
            r.tokenizer() == tokenizer,
    {
        JsoncDeserializer { tokenizer, phantom: std::marker::PhantomData }
    }

    /// Gives the tokenizer back.
    pub fn into_tokenizer(self) -> (r: T)
        ensures
            r == self.tokenizer(),
    {
        self.tokenizer
    }

    /// Checks that nothing but whitespace and comments follows.
    pub fn finish(&mut self) -> (r: Result<(), JsonWithCommentsError>)
        requires
            old(self).wf(),
        ensures
            Self::same_source(old(self), final(self)),
            match skip_ws(old(self).input(), old(self).cursor()) {
                Err(e) => fails_with(r, ErrorKind::Syntax(e)),
                Ok(j) => if j < old(self).input().len() {
                    fails_with(
                        r,
                        ErrorKind::Syntax(
                            SyntaxError::ExpectedEof {
                                pos: position_of(old(self).input(), j),
                                found: old(self).input()[j],
                            },
                        ),
                    )
                } else {
                    r is Ok
                },
            },
    {
        proof {
            self.tokenizer.lemma_cursor_bounded();
            lemma_skip_ws(self.input(), self.cursor());
        }
        match self.tokenizer.eat_whitespace() {
            Err(e) => Err(e),
            Ok(Some((pos, found))) => Err(JsonWithCommentsError::syntax(SyntaxError::ExpectedEof { pos, found })),
            Ok(None) => Ok(()),
        }
    }

    /// Reads `true` or `false`.
    pub fn deserialize_bool(&mut self) -> (r: Result<bool, JsonWithCommentsError>)
        requires
            old(self).wf(),
        ensures
            Self::same_source(old(self), final(self)),
            match skip_ws(old(self).input(), old(self).cursor()) {
                Err(e) => fails_with(r, ErrorKind::Syntax(e)),
                Ok(j) => if j >= old(self).input().len() {
                    fails_with(r, ErrorKind::Syntax(SyntaxError::EofWhileStartParsingBool))
                } else if old(self).input()[j] == LOWER_T {
                    ident_outcome(old(self).input(), j, true_ident(), true, r)
                } else if old(self).input()[j] == LOWER_F {
                    ident_outcome(old(self).input(), j, false_ident(), false, r)
                } else {
                    fails_with(
                        r,
                        ErrorKind::Syntax(
                            SyntaxError::UnexpectedTokenWhileParsingBool {
                                pos: position_of(old(self).input(), j),
                                found: old(self).input()[j],
                            },
                        ),
                    )
                },
            },
            r is Ok ==> ident_result(
                old(self).input(),
                skip_ws(old(self).input(), old(self).cursor())->Ok_0,
                if r->Ok_0 { true_ident() } else { false_ident() },
            ) == Ok::<int, ErrorModel>(final(self).cursor()),
    {
        proof {
            self.tokenizer.lemma_cursor_bounded();
            lemma_skip_ws(self.input(), self.cursor());
        }
        match self.tokenizer.skip_whitespace() {
            Err(e) => Err(e),
            Ok(None) => Err(JsonWithCommentsError::syntax(SyntaxError::EofWhileStartParsingBool)),
            Ok(Some((pos, c))) => {
                if c == LOWER_T {
                    let ident = true_bytes();
                    self.tokenizer.parse_ident(ident.as_slice(), true)
                } else if c == LOWER_F {
                    let ident = false_bytes();
                    self.tokenizer.parse_ident(ident.as_slice(), false)
                } else {
                    Err(JsonWithCommentsError::syntax(SyntaxError::UnexpectedTokenWhileParsingBool { pos, found: c }))
                }
            },
        }
    }

    /// Reads `null`.
    pub fn deserialize_unit(&mut self) -> (r: Result<(), JsonWithCommentsError>)
        requires
            old(self).wf(),
        ensures
            Self::same_source(old(self), final(self)),
            match skip_ws(old(self).input(), old(self).cursor()) {
                Err(e) => fails_with(r, ErrorKind::Syntax(e)),
                Ok(j) => if j >= old(self).input().len() {
                    fails_with(r, ErrorKind::Syntax(SyntaxError::EofWhileStartParsingNull))
                } else if old(self).input()[j] == LOWER_N {
                    &&& ident_outcome(old(self).input(), j, null_ident(), (), r)
                    &&& r is Ok ==> ident_result(old(self).input(), j, null_ident()) == Ok::<int, ErrorModel>(
                        final(self).cursor(),
                    )
                } else {
                    fails_with(
                        r,
                        ErrorKind::Syntax(
                            SyntaxError::UnexpectedTokenWhileParsingNull {
                                pos: position_of(old(self).input(), j),
                                found: old(self).input()[j],
                            },
                        ),
                    )
                },
            },
    {
        proof {
            self.tokenizer.lemma_cursor_bounded();
            lemma_skip_ws(self.input(), self.cursor());
        }
        match self.tokenizer.skip_whitespace() {
            Err(e) => Err(e),
            Ok(None) => Err(JsonWithCommentsError::syntax(SyntaxError::EofWhileStartParsingNull)),
            Ok(Some((pos, c))) => {
                if c == LOWER_N {
                    let ident = null_bytes();
                    self.tokenizer.parse_ident(ident.as_slice(), ())
                } else {
                    Err(JsonWithCommentsError::syntax(SyntaxError::UnexpectedTokenWhileParsingNull { pos, found: c }))
                }
            },
        }
    }

    /// Reads a number and converts its text into an `N`.
    pub fn deserialize_number<N: FromNumberBuilder>(&mut self) -> (r: Result<N, JsonWithCommentsError>)
        requires
            old(self).wf(),
        ensures
            Self::same_source(old(self), final(self)),
            number_token_outcome(old(self).input(), old(self).cursor(), final(self).cursor(), r),
    {
        self.tokenizer.parse_number()
    }

    /// Reads a string.
    pub fn deserialize_string(&mut self) -> (r: Result<StringValue<'de>, JsonWithCommentsError>)
        requires
            old(self).wf(),
        ensures
            Self::same_source(old(self), final(self)),
            match skip_ws(old(self).input(), old(self).cursor()) {
                Err(e) => fails_with(r, ErrorKind::Syntax(e)),
                Ok(j) => if j >= old(self).input().len() {
                    fails_with(r, ErrorKind::Syntax(SyntaxError::EofWhileStartParsingString))
                } else if old(self).input()[j] != QUOTE {
                    fails_with(
                        r,
                        ErrorKind::Syntax(
                            SyntaxError::UnexpectedTokenWhileStartParsingString {
                                pos: position_of(old(self).input(), j),
                                found: old(self).input()[j],
                            },
                        ),
                    )
                } else {
                    &&& string_outcome(old(self).input(), j + 1, old(self).keeps(), r)
                    &&& r is Ok ==> final(self).cursor() == string_content(
                        old(self).input(),
                        j + 1,
                        old(self).keeps(),
                    )->Ok_0.1 + 1
                    &&& r matches Ok(v) ==> (v is Borrowed <==> final(self).lends_strings())
                },
            },
    {
        proof {
            self.tokenizer.lemma_cursor_bounded();
            lemma_skip_ws(self.input(), self.cursor());
        }
        let ghost s = self.input();
        match self.tokenizer.skip_whitespace() {
            Err(e) => Err(e),
            Ok(None) => Err(JsonWithCommentsError::syntax(SyntaxError::EofWhileStartParsingString)),
            Ok(Some((pos, c))) => {
                if c == QUOTE {
                    proof {
                        lemma_skip_ws(s, self.cursor());
                    }
                    self.tokenizer.parse_string()
                } else {
                    Err(
                        JsonWithCommentsError::syntax(
                            SyntaxError::UnexpectedTokenWhileStartParsingString { pos, found: c },
                        ),
                    )
                }
            },
        }
    }

    /// Reads any value: a literal, a number, a string, an array or an object.
    pub fn deserialize_value(&mut self) -> (r: Result<JsoncValue, JsonWithCommentsError>)
        requires
            old(self).wf(),
        ensures
            Self::same_source(old(self), final(self)),
            match value_at(old(self).input(), old(self).cursor(), old(self).keeps()) {
                Ok((v, e)) => r matches Ok(x) && x.model() == v && final(self).cursor() == e,
                Err(m) => fails_as(r, m),
            },
        decreases old(self).input().len() - old(self).cursor(), 1nat,
    {
        proof {
            self.tokenizer.lemma_cursor_bounded();
            lemma_skip_ws(self.input(), self.cursor());
            lemma_value_at_progress(self.input(), self.cursor(), self.keeps());
        }
        let ghost s = self.input();
        let ghost keeps = self.keeps();
        match self.tokenizer.skip_whitespace() {
            Err(e) => Err(e),
            Ok(None) => Err(JsonWithCommentsError::syntax(SyntaxError::EofWhileStartParsingValue)),
            Ok(Some((pos, c))) => {
                let ghost j = self.cursor();
                proof {
                    lemma_skip_ws(s, j);
                    lemma_ident_result(s, j, null_ident());
                    lemma_ident_result(s, j, true_ident());
                    lemma_ident_result(s, j, false_ident());
                }
                if c == LOWER_N {
                    match self.deserialize_unit() {
                        Ok(()) => {
                            let v = JsoncValue::Null;
                            proof {
                                v.lemma_model();
                            }
                            Ok(v)
                        },
                        Err(e) => Err(e),
                    }
                } else if c == LOWER_T || c == LOWER_F {
                    match self.deserialize_bool() {
                        Ok(b) => {
                            let v = JsoncValue::Bool(b);
                            proof {
                                v.lemma_model();
                            }
                            Ok(v)
                        },
                        Err(e) => Err(e),
                    }
                } else if c == MINUS || is_ascii_digit(c) {
                    match self.deserialize_number::<Number<i64, String>>() {
                        Ok(n) => {
                            let v = JsoncValue::Number(n);
                            proof {
                                v.lemma_model();
                            }
                            Ok(v)
                        },
                        Err(e) => Err(e),
                    }
                } else if c == QUOTE {
                    match self.deserialize_string() {
                        Ok(text) => {
                            let v = JsoncValue::String(text.into_string());
                            proof {
                                v.lemma_model();
                            }
                            Ok(v)
                        },
                        Err(e) => Err(e),
                    }
                } else if c == LEFT_BRACKET {
                    let _ = self.tokenizer.eat();
                    match self.deserialize_elements() {
                        Ok(a) => {
                            let v = JsoncValue::Array(a);
                            proof {
                                v.lemma_model();
                            }
                            Ok(v)
                        },
                        Err(e) => Err(e),
                    }
                } else if c == LEFT_BRACE {
                    let _ = self.tokenizer.eat();
                    match self.deserialize_members() {
                        Ok(m) => {
                            let v = JsoncValue::Object(m);
                            proof {
                                v.lemma_model();
                            }
                            Ok(v)
                        },
                        Err(e) => Err(e),
                    }
                } else {
                    Err(JsonWithCommentsError::syntax(SyntaxError::UnexpectedTokenWhileParsingValue { pos, found: c }))
                }
            },
        }
    }

    /// Reads the elements of an array whose `[` was taken, and its `]`.
    pub fn deserialize_elements(&mut self) -> (r: Result<Vec<JsoncValue>, JsonWithCommentsError>)
        requires
            old(self).wf(),
        ensures
            Self::same_source(old(self), final(self)),
            match elements(old(self).input(), old(self).cursor(), old(self).keeps(), Seq::empty()) {
                Ok((v, e)) => r matches Ok(x) && v == crate::value::ValueModel::Array(values_model(x@))
                    && final(self).cursor() == e,
                Err(m) => fails_as(r, m),
            },
        decreases old(self).input().len() - old(self).cursor(), 2nat,
    {
        proof {
            self.tokenizer.lemma_cursor_bounded();
        }
        let ghost s = self.input();
        let ghost keeps = self.keeps();
        let ghost c0 = self.cursor();
        let mut acc: Vec<JsoncValue> = Vec::new();
        assert(values_model(acc@) =~= Seq::empty());
        loop
            invariant
                self.wf(),
                self.input() == s,
                self.keeps() == keeps,
                s == old(self).input(),
                keeps == old(self).keeps(),
                c0 == old(self).cursor(),
                0 <= c0 <= self.cursor() <= s.len(),
                elements(s, c0, keeps, Seq::empty()) == elements(s, self.cursor(), keeps, values_model(acc@)),
            decreases s.len() - self.cursor(),
        {
            let ghost i = self.cursor();
            proof {
                lemma_skip_ws(s, i);
                lemma_elements_progress(s, i, keeps, values_model(acc@));
            }
            match self.tokenizer.skip_whitespace() {
                Err(e) => {
                    return Err(e);
                },
                Ok(None) => {
                    return Err(JsonWithCommentsError::syntax(SyntaxError::EofWhileStartParsingArray));
                },
                Ok(Some((_, c))) => {
                    if c == RIGHT_BRACKET {
                        let _ = self.tokenizer.eat();
                        return Ok(acc);
                    }
                },
            }
            let ghost j = self.cursor();
            proof {
                self.tokenizer.lemma_cursor_bounded();
                lemma_value_at_progress(s, j, keeps);
            }
            let value = match self.deserialize_value() {
                Ok(v) => v,
                Err(e) => {
                    return Err(e);
                },
            };
            let ghost e = self.cursor();
            let ghost before = acc@;
            let ghost vm = value.model();
            acc.push(value);
            assert(values_model(acc@) =~= values_model(before).push(vm));
            proof {
                lemma_skip_ws(s, e);
            }
            match self.tokenizer.skip_whitespace() {
                Err(e) => {
                    return Err(e);
                },
                Ok(None) => {
                    return Err(JsonWithCommentsError::syntax(SyntaxError::EofWhileEndParsingArray));
                },
                Ok(Some((pos, c))) => {
                    if c == COMMA {
                        let _ = self.tokenizer.eat();
                    } else if c != RIGHT_BRACKET {
                        return Err(
                            JsonWithCommentsError::syntax(
                                SyntaxError::UnexpectedTokenWhileParsingArrayValue { pos, found: c },
                            ),
                        );
                    }
                },
            }
            proof {
                self.tokenizer.lemma_cursor_bounded();
            }
        }
    }

    /// Reads the members of an object whose `{` was taken, and its `}`. A key
    /// read again keeps its place and takes the later value.
    pub fn deserialize_members(&mut self) -> (r: Result<MapImpl<JsoncValue>, JsonWithCommentsError>)
        requires
            old(self).wf(),
        ensures
            Self::same_source(old(self), final(self)),
            match members(old(self).input(), old(self).cursor(), old(self).keeps(), Seq::empty()) {
                Ok((v, e)) => r matches Ok(x) && x.wf() && v == crate::value::ValueModel::Object(
                    members_model(x@),
                ) && final(self).cursor() == e,
                Err(m) => fails_as(r, m),
            },
        decreases old(self).input().len() - old(self).cursor(), 2nat,
    {
        proof {
            self.tokenizer.lemma_cursor_bounded();
        }
        let ghost s = self.input();
        let ghost keeps = self.keeps();
        let ghost c0 = self.cursor();
        let mut map: MapImpl<JsoncValue> = MapImpl::new();
        assert(members_model(map@) =~= Seq::empty());
        loop
            invariant
                self.wf(),
                self.input() == s,
                self.keeps() == keeps,
                s == old(self).input(),
                keeps == old(self).keeps(),
                c0 == old(self).cursor(),
                0 <= c0 <= self.cursor() <= s.len(),
                map.wf(),
                members(s, c0, keeps, Seq::empty()) == members(s, self.cursor(), keeps, members_model(map@)),
            decreases s.len() - self.cursor(),
        {
            let ghost i = self.cursor();
            proof {
                lemma_skip_ws(s, i);
                lemma_members_progress(s, i, keeps, members_model(map@));
            }
            match self.tokenizer.skip_whitespace() {
                Err(e) => {
                    return Err(e);
                },
                Ok(None) => {
                    return Err(JsonWithCommentsError::syntax(SyntaxError::EofWhileParsingObjectKey));
                },
                Ok(Some((pos, c))) => {
                    if c == RIGHT_BRACE {
                        let _ = self.tokenizer.eat();
                        return Ok(map);
                    } else if c != QUOTE {
                        return Err(
                            JsonWithCommentsError::syntax(
                                SyntaxError::UnexpectedTokenWhileParsingObjectKey { pos, found: c },
                            ),
                        );
                    }
                },
            }
            let ghost j = self.cursor();
            proof {
                lemma_skip_ws(s, j);
                lemma_string_body(s, j + 1);
            }
            let key = match self.deserialize_string() {
                Ok(k) => k.into_string(),
                Err(e) => {
                    return Err(e);
                },
            };
            let ghost kend = self.cursor();
            proof {
                self.tokenizer.lemma_cursor_bounded();
                lemma_skip_ws(s, kend);
            }
            match self.tokenizer.eat_whitespace() {
                Err(e) => {
                    return Err(e);
                },
                Ok(None) => {
                    return Err(JsonWithCommentsError::syntax(SyntaxError::EofWhileParsingObjectValue));
                },
                Ok(Some((p, c))) => {
                    if c != COLON {
                        return Err(
                            JsonWithCommentsError::syntax(
                                SyntaxError::UnexpectedTokenWhileStartParsingObjectValue { pos: p, found: c },
                            ),
                        );
                    }
                },
            }
            let ghost vstart = self.cursor();
            proof {
                self.tokenizer.lemma_cursor_bounded();
                lemma_value_at_progress(s, vstart, keeps);
            }
            let value = match self.deserialize_value() {
                Ok(v) => v,
                Err(e) => {
                    return Err(e);
                },
            };
            let ghost e = self.cursor();
            proof {
                lemma_skip_ws(s, e);
            }
            match self.tokenizer.skip_whitespace() {
                Err(e) => {
                    return Err(e);
                },
                Ok(None) => {
                    return Err(JsonWithCommentsError::syntax(SyntaxError::EofWhileParsingObjectValue));
                },
                Ok(Some((pos, c))) => {
                    if c == COMMA {
                        let _ = self.tokenizer.eat();
                    } else if c != RIGHT_BRACE {
                        return Err(
                            JsonWithCommentsError::syntax(
                                SyntaxError::UnexpectedTokenWhileEndParsingObjectValue { pos, found: c },
                            ),
                        );
                    }
                },
            }
            let ghost before = map@;
            let ghost k = key@;
            let ghost v = value;
            let _ = map.insert(key, value);
            proof {
                lemma_members_model_insert(before, k, v);
                self.tokenizer.lemma_cursor_bounded();
            }
        }
    }

    /// Takes the `[` that opens an array.
    pub fn seq_start(&mut self) -> (r: Result<(), JsonWithCommentsError>)
        requires
            old(self).wf(),
        ensures
            Self::same_source(old(self), final(self)),
            eat_outcome(
                old(self).input(),
                old(self).cursor(),
                final(self).cursor(),
                LEFT_BRACKET,
                SyntaxError::EofWhileStartParsingArray,
                (|p: Position, f: u8| SyntaxError::UnexpectedTokenWhileStartParsingArray { pos: p, found: f }),
                r,
            ),
    {
        proof {
            self.tokenizer.lemma_cursor_bounded();
            lemma_skip_ws(self.input(), self.cursor());
        }
        match self.tokenizer.eat_whitespace() {
            Err(e) => Err(e),
            Ok(None) => Err(JsonWithCommentsError::syntax(SyntaxError::EofWhileStartParsingArray)),
            Ok(Some((pos, found))) => {
                if found == LEFT_BRACKET {
                    Ok(())
                } else {
                    Err(JsonWithCommentsError::syntax(SyntaxError::UnexpectedTokenWhileStartParsingArray { pos, found }))
                }
            },
        }
    }

    /// Whether an element follows, rather than the `]` that closes the array.
    pub fn seq_next(&mut self) -> (r: Result<bool, JsonWithCommentsError>)
        requires
            old(self).wf(),
        ensures
            Self::same_source(old(self), final(self)),
            next_outcome(
                old(self).input(),
                old(self).cursor(),
                final(self).cursor(),
                RIGHT_BRACKET,
                None::<u8>,
                SyntaxError::EofWhileStartParsingArray,
                (|p: Position, f: u8| SyntaxError::UnexpectedTokenWhileParsingArrayValue { pos: p, found: f }),
                r,
            ),
    {
        proof {
            self.tokenizer.lemma_cursor_bounded();
            lemma_skip_ws(self.input(), self.cursor());
        }
        match self.tokenizer.skip_whitespace() {
            Err(e) => Err(e),
            Ok(None) => Err(JsonWithCommentsError::syntax(SyntaxError::EofWhileStartParsingArray)),
            Ok(Some((_, found))) => Ok(found != RIGHT_BRACKET),
        }
    }

    /// Takes the comma after an element, or leaves the `]` that closes the array.
    pub fn seq_element_end(&mut self) -> (r: Result<(), JsonWithCommentsError>)
        requires
            old(self).wf(),
        ensures
            Self::same_source(old(self), final(self)),
            separator_outcome(
                old(self).input(),
                old(self).cursor(),
                final(self).cursor(),
                RIGHT_BRACKET,
                SyntaxError::EofWhileEndParsingArray,
                (|p: Position, f: u8| SyntaxError::UnexpectedTokenWhileParsingArrayValue { pos: p, found: f }),
                r,
            ),
    {
        proof {
            self.tokenizer.lemma_cursor_bounded();
            lemma_skip_ws(self.input(), self.cursor());
        }
        match self.tokenizer.skip_whitespace() {
            Err(e) => Err(e),
            Ok(None) => Err(JsonWithCommentsError::syntax(SyntaxError::EofWhileEndParsingArray)),
            Ok(Some((pos, found))) => {
                if found == COMMA {
                    let _ = self.tokenizer.eat();
                    Ok(())
                } else if found == RIGHT_BRACKET {
                    Ok(())
                } else {
                    Err(JsonWithCommentsError::syntax(SyntaxError::UnexpectedTokenWhileParsingArrayValue { pos, found }))
                }
            },
        }
    }

    /// Takes the `]` that closes an array.
    pub fn seq_end(&mut self) -> (r: Result<(), JsonWithCommentsError>)
        requires
            old(self).wf(),
        ensures
            Self::same_source(old(self), final(self)),
            eat_outcome(
                old(self).input(),
                old(self).cursor(),
                final(self).cursor(),
                RIGHT_BRACKET,
                SyntaxError::EofWhileEndParsingArray,
                (|p: Position, f: u8| SyntaxError::UnexpectedTokenWhileEndParsingArray { pos: p, found: f }),
                r,
            ),
    {
        proof {
            self.tokenizer.lemma_cursor_bounded();
            lemma_skip_ws(self.input(), self.cursor());
        }
        match self.tokenizer.eat_whitespace() {
            Err(e) => Err(e),
            Ok(None) => Err(JsonWithCommentsError::syntax(SyntaxError::EofWhileEndParsingArray)),
            Ok(Some((pos, found))) => {
                if found == RIGHT_BRACKET {
                    Ok(())
                } else {
                    Err(JsonWithCommentsError::syntax(SyntaxError::UnexpectedTokenWhileEndParsingArray { pos, found }))
                }
            },
        }
    }

    /// Takes the `{` that opens an object.
    pub fn map_start(&mut self) -> (r: Result<(), JsonWithCommentsError>)
        requires
            old(self).wf(),
        ensures
            Self::same_source(old(self), final(self)),
            eat_outcome(
                old(self).input(),
                old(self).cursor(),
                final(self).cursor(),
                LEFT_BRACE,
                SyntaxError::EofWhileStartParsingObject,
                (|p: Position, f: u8| SyntaxError::UnexpectedTokenWhileStartParsingObject { pos: p, found: f }),
                r,
            ),
    {
        proof {
            self.tokenizer.lemma_cursor_bounded();
            lemma_skip_ws(self.input(), self.cursor());
        }
        match self.tokenizer.eat_whitespace() {
            Err(e) => Err(e),
            Ok(None) => Err(JsonWithCommentsError::syntax(SyntaxError::EofWhileStartParsingObject)),
            Ok(Some((pos, found))) => {
                if found == LEFT_BRACE {
                    Ok(())
                } else {
                    Err(JsonWithCommentsError::syntax(SyntaxError::UnexpectedTokenWhileStartParsingObject { pos, found }))
                }
            },
        }
    }

    /// Whether a key follows, rather than the `}` that closes the object.
    pub fn map_next_key(&mut self) -> (r: Result<bool, JsonWithCommentsError>)
        requires
            old(self).wf(),
        ensures
            Self::same_source(old(self), final(self)),
            next_outcome(
                old(self).input(),
                old(self).cursor(),
                final(self).cursor(),
                RIGHT_BRACE,
                Some(QUOTE),
                SyntaxError::EofWhileParsingObjectKey,
                (|p: Position, f: u8| SyntaxError::UnexpectedTokenWhileParsingObjectKey { pos: p, found: f }),
                r,
            ),
    {
        proof {
            self.tokenizer.lemma_cursor_bounded();
            lemma_skip_ws(self.input(), self.cursor());
        }
        match self.tokenizer.skip_whitespace() {
            Err(e) => Err(e),
            Ok(None) => Err(JsonWithCommentsError::syntax(SyntaxError::EofWhileParsingObjectKey)),
            Ok(Some((pos, found))) => {
                if found == RIGHT_BRACE {
                    Ok(false)
                } else if found == QUOTE {
                    Ok(true)
                } else {
                    Err(JsonWithCommentsError::syntax(SyntaxError::UnexpectedTokenWhileParsingObjectKey { pos, found }))
                }
            },
        }
    }

    /// Takes the `:` between a key and its value.
    pub fn map_value_start(&mut self) -> (r: Result<(), JsonWithCommentsError>)
        requires
            old(self).wf(),
        ensures
            Self::same_source(old(self), final(self)),
            eat_outcome(
                old(self).input(),
                old(self).cursor(),
                final(self).cursor(),
                COLON,
                SyntaxError::EofWhileParsingObjectValue,
                (|p: Position, f: u8| SyntaxError::UnexpectedTokenWhileStartParsingObjectValue { pos: p, found: f }),
                r,
            ),
    {
        proof {
            self.tokenizer.lemma_cursor_bounded();
            lemma_skip_ws(self.input(), self.cursor());
        }
        match self.tokenizer.eat_whitespace() {
            Err(e) => Err(e),
            Ok(None) => Err(JsonWithCommentsError::syntax(SyntaxError::EofWhileParsingObjectValue)),
            Ok(Some((pos, found))) => {
                if found == COLON {
                    Ok(())
                } else {
                    Err(JsonWithCommentsError::syntax(SyntaxError::UnexpectedTokenWhileStartParsingObjectValue { pos, found }))
                }
            },
        }
    }

    /// Takes the comma after a member, or leaves the `}` that closes the object.
    pub fn map_value_end(&mut self) -> (r: Result<(), JsonWithCommentsError>)
        requires
            old(self).wf(),
        ensures
            Self::same_source(old(self), final(self)),
            separator_outcome(
                old(self).input(),
                old(self).cursor(),
                final(self).cursor(),
                RIGHT_BRACE,
                SyntaxError::EofWhileParsingObjectValue,
                (|p: Position, f: u8| SyntaxError::UnexpectedTokenWhileEndParsingObjectValue { pos: p, found: f }),
                r,
            ),
    {
        proof {
            self.tokenizer.lemma_cursor_bounded();
            lemma_skip_ws(self.input(), self.cursor());
        }
        match self.tokenizer.skip_whitespace() {
            Err(e) => Err(e),
            Ok(None) => Err(JsonWithCommentsError::syntax(SyntaxError::EofWhileParsingObjectValue)),
            Ok(Some((pos, found))) => {
                if found == COMMA {
                    let _ = self.tokenizer.eat();
                    Ok(())
                } else if found == RIGHT_BRACE {
                    Ok(())
                } else {
                    Err(JsonWithCommentsError::syntax(SyntaxError::UnexpectedTokenWhileEndParsingObjectValue { pos, found }))
                }
            },
        }
    }

    /// Takes the `}` that closes an object.
    pub fn map_end(&mut self) -> (r: Result<(), JsonWithCommentsError>)
        requires
            old(self).wf(),
        ensures
            Self::same_source(old(self), final(self)),
            eat_outcome(
                old(self).input(),
                old(self).cursor(),
                final(self).cursor(),
                RIGHT_BRACE,
                SyntaxError::EofWhileEndParsingObject,
                (|p: Position, f: u8| SyntaxError::UnexpectedTokenWhileEndParsingObject { pos: p, found: f }),
                r,
            ),
    {
        proof {
            self.tokenizer.lemma_cursor_bounded();
            lemma_skip_ws(self.input(), self.cursor());
        }
        match self.tokenizer.eat_whitespace() {
            Err(e) => Err(e),
            Ok(None) => Err(JsonWithCommentsError::syntax(SyntaxError::EofWhileEndParsingObject)),
            Ok(Some((pos, found))) => {
                if found == RIGHT_BRACE {
                    Ok(())
                } else {
                    Err(JsonWithCommentsError::syntax(SyntaxError::UnexpectedTokenWhileEndParsingObject { pos, found }))
                }
            },
        }
    }

    /// Takes the `:` between the variant of an enum and its content.
    pub fn enum_value_start(&mut self) -> (r: Result<(), JsonWithCommentsError>)
        requires
            old(self).wf(),
        ensures
            Self::same_source(old(self), final(self)),
            eat_outcome(
                old(self).input(),
                old(self).cursor(),
                final(self).cursor(),
                COLON,
                SyntaxError::EofWhileParsingObjectValue,
                (|p: Position, f: u8| SyntaxError::UnexpectedTokenWhileStartParsingEnumValue { pos: p, found: f }),
                r,
            ),
    {
        proof {
            self.tokenizer.lemma_cursor_bounded();
            lemma_skip_ws(self.input(), self.cursor());
        }
        match self.tokenizer.eat_whitespace() {
            Err(e) => Err(e),
            Ok(None) => Err(JsonWithCommentsError::syntax(SyntaxError::EofWhileParsingObjectValue)),
            Ok(Some((pos, found))) => {
                if found == COLON {
                    Ok(())
                } else {
                    Err(JsonWithCommentsError::syntax(SyntaxError::UnexpectedTokenWhileStartParsingEnumValue { pos, found }))
                }
            },
        }
    }

    /// Takes the `}` that closes an enum written as an object.
    pub fn enum_end(&mut self) -> (r: Result<(), JsonWithCommentsError>)
        requires
            old(self).wf(),
        ensures
            Self::same_source(old(self), final(self)),
            eat_outcome(
                old(self).input(),
                old(self).cursor(),
                final(self).cursor(),
                RIGHT_BRACE,
                SyntaxError::EofWhileEndParsingEnum,
                (|p: Position, f: u8| SyntaxError::UnexpectedTokenWhileEndParsingEnum { pos: p, found: f }),
                r,
            ),
    {
        proof {
            self.tokenizer.lemma_cursor_bounded();
            lemma_skip_ws(self.input(), self.cursor());
        }
        match self.tokenizer.eat_whitespace() {
            Err(e) => Err(e),
            Ok(None) => Err(JsonWithCommentsError::syntax(SyntaxError::EofWhileEndParsingEnum)),
            Ok(Some((pos, found))) => {
                if found == RIGHT_BRACE {
                    Ok(())
                } else {
                    Err(JsonWithCommentsError::syntax(SyntaxError::UnexpectedTokenWhileEndParsingEnum { pos, found }))
                }
            },
        }
    }

    /// Looks, after whitespace and comments, at the byte that starts a value.
    pub fn value_start(&mut self) -> (r: Result<(Position, u8), JsonWithCommentsError>)
        requires
            old(self).wf(),
        ensures
            Self::same_source(old(self), final(self)),
            match skip_ws(old(self).input(), old(self).cursor()) {
                Err(e) => fails_with(r, ErrorKind::Syntax(e)),
                Ok(j) => if j >= old(self).input().len() {
                    fails_with(r, ErrorKind::Syntax(SyntaxError::EofWhileStartParsingValue))
                } else {
                    r == Ok::<(Position, u8), JsonWithCommentsError>(
                        (position_of(old(self).input(), j), old(self).input()[j]),
                    ) && final(self).cursor() == j
                },
            },
    {
        proof {
            self.tokenizer.lemma_cursor_bounded();
            lemma_skip_ws(self.input(), self.cursor());
        }
        match self.tokenizer.skip_whitespace() {
            Err(e) => Err(e),
            Ok(None) => Err(JsonWithCommentsError::syntax(SyntaxError::EofWhileStartParsingValue)),
            Ok(Some(x)) => Ok(x),
        }
    }

    /// Whether an optional value is `null`, which is then taken; anything
    /// else is left to be read as the value.
    pub fn option_is_null(&mut self) -> (r: Result<bool, JsonWithCommentsError>)
        requires
            old(self).wf(),
        ensures
            Self::same_source(old(self), final(self)),
            match skip_ws(old(self).input(), old(self).cursor()) {
                Err(e) => fails_with(r, ErrorKind::Syntax(e)),
                Ok(j) => if j >= old(self).input().len() {
                    fails_with(r, ErrorKind::Syntax(SyntaxError::EofWhileStartParsingValue))
                } else if old(self).input()[j] == LOWER_N {
                    match ident_result(old(self).input(), j, null_ident()) {
                        Ok(e) => r == Ok::<bool, JsonWithCommentsError>(true) && final(self).cursor() == e,
                        Err(m) => fails_as(r, m),
                    }
                } else {
                    r == Ok::<bool, JsonWithCommentsError>(false) && final(self).cursor() == j
                },
            },
    {
        proof {
            self.tokenizer.lemma_cursor_bounded();
            lemma_skip_ws(self.input(), self.cursor());
        }
        match self.tokenizer.skip_whitespace() {
            Err(e) => Err(e),
            Ok(None) => Err(JsonWithCommentsError::syntax(SyntaxError::EofWhileStartParsingValue)),
            Ok(Some((_, c))) => {
                if c == LOWER_N {
                    let ident = null_bytes();
                    match self.tokenizer.parse_ident(ident.as_slice(), true) {
                        Ok(b) => Ok(b),
                        Err(e) => Err(e),
                    }
                } else {
                    Ok(false)
                }
            },
        }
    }

    /// Starts an enum: `Ok(false)` at the quote of a variant written as a
    /// string (left to be read), `Ok(true)` at the `{` of a variant written
    /// as an object (taken).
    pub fn enum_start(&mut self) -> (r: Result<bool, JsonWithCommentsError>)
        requires
            old(self).wf(),
        ensures
            Self::same_source(old(self), final(self)),
            match skip_ws(old(self).input(), old(self).cursor()) {
                Err(e) => fails_with(r, ErrorKind::Syntax(e)),
                Ok(j) => if j >= old(self).input().len() {
                    fails_with(r, ErrorKind::Syntax(SyntaxError::EofWhileStartParsingEnum))
                } else if old(self).input()[j] == QUOTE {
                    r == Ok::<bool, JsonWithCommentsError>(false) && final(self).cursor() == j
                } else if old(self).input()[j] == LEFT_BRACE {
                    r == Ok::<bool, JsonWithCommentsError>(true) && final(self).cursor() == j + 1
                } else {
                    fails_with(
                        r,
                        ErrorKind::Syntax(
                            SyntaxError::UnexpectedTokenWhileStartParsingEnum {
                                pos: position_of(old(self).input(), j),
                                found: old(self).input()[j],
                            },
                        ),
                    )
                },
            },
    {
        proof {
            self.tokenizer.lemma_cursor_bounded();
            lemma_skip_ws(self.input(), self.cursor());
        }
        match self.tokenizer.skip_whitespace() {
            Err(e) => Err(e),
            Ok(None) => Err(JsonWithCommentsError::syntax(SyntaxError::EofWhileStartParsingEnum)),
            Ok(Some((pos, found))) => {
                if found == QUOTE {
                    Ok(false)
                } else if found == LEFT_BRACE {
                    let _ = self.tokenizer.eat();
                    Ok(true)
                } else {
                    Err(JsonWithCommentsError::syntax(SyntaxError::UnexpectedTokenWhileStartParsingEnum { pos, found }))
                }
            },
        }
    }

    /// Starts a struct: `Ok(true)` at a `{` (read as an object), `Ok(false)`
    /// at a `[` (read as an array); both are left.
    pub fn struct_start(&mut self) -> (r: Result<bool, JsonWithCommentsError>)
        requires
            old(self).wf(),
        ensures
            Self::same_source(old(self), final(self)),
            match skip_ws(old(self).input(), old(self).cursor()) {
                Err(e) => fails_with(r, ErrorKind::Syntax(e)),
                Ok(j) => if j >= old(self).input().len() {
                    fails_with(r, ErrorKind::Syntax(SyntaxError::EofWhileStartParsingValue))
                } else if old(self).input()[j] == LEFT_BRACE {
                    r == Ok::<bool, JsonWithCommentsError>(true) && final(self).cursor() == j
                } else if old(self).input()[j] == LEFT_BRACKET {
                    r == Ok::<bool, JsonWithCommentsError>(false) && final(self).cursor() == j
                } else {
                    fails_with(
                        r,
                        ErrorKind::Syntax(
                            SyntaxError::UnexpectedTokenWhileStartParsingObject {
                                pos: position_of(old(self).input(), j),
                                found: old(self).input()[j],
                            },
                        ),
                    )
                },
            },
    {
        proof {
            self.tokenizer.lemma_cursor_bounded();
            lemma_skip_ws(self.input(), self.cursor());
        }
        match self.tokenizer.skip_whitespace() {
            Err(e) => Err(e),
            Ok(None) => Err(JsonWithCommentsError::syntax(SyntaxError::EofWhileStartParsingValue)),
            Ok(Some((pos, found))) => {
                if found == LEFT_BRACE {
                    Ok(true)
                } else if found == LEFT_BRACKET {
                    Ok(false)
                } else {
                    Err(JsonWithCommentsError::syntax(SyntaxError::UnexpectedTokenWhileStartParsingObject { pos, found }))
                }
            },
        }
    }

    /// Reads a string that stands for bytes.
    pub fn deserialize_bytes(&mut self) -> (r: Result<StringValue<'de>, JsonWithCommentsError>)
        requires
            old(self).wf(),
        ensures
            Self::same_source(old(self), final(self)),
            match skip_ws(old(self).input(), old(self).cursor()) {
                Err(e) => fails_with(r, ErrorKind::Syntax(e)),
                Ok(j) => if j >= old(self).input().len() {
                    fails_with(r, ErrorKind::Syntax(SyntaxError::EofWhileStartParsingBytes))
                } else if old(self).input()[j] != QUOTE {
                    fails_with(
                        r,
                        ErrorKind::Syntax(
                            SyntaxError::UnexpectedTokenWhileStartParsingBytes {
                                pos: position_of(old(self).input(), j),
                                found: old(self).input()[j],
                            },
                        ),
                    )
                } else {
                    &&& string_outcome(old(self).input(), j + 1, old(self).keeps(), r)
                    &&& r matches Ok(v) ==> (v is Borrowed <==> final(self).lends_strings())
                },
            },
    {
        proof {
            self.tokenizer.lemma_cursor_bounded();
            lemma_skip_ws(self.input(), self.cursor());
        }
        let ghost s = self.input();
        match self.tokenizer.skip_whitespace() {
            Err(e) => Err(e),
            Ok(None) => Err(JsonWithCommentsError::syntax(SyntaxError::EofWhileStartParsingBytes)),
            Ok(Some((pos, found))) => {
                if found == QUOTE {
                    proof {
                        lemma_skip_ws(s, self.cursor());
                    }
                    self.tokenizer.parse_string()
                } else {
                    Err(JsonWithCommentsError::syntax(SyntaxError::UnexpectedTokenWhileStartParsingBytes { pos, found }))
                }
            },
        }
    }

    /// Takes a quote around a key that is not a string (a number or a
    /// boolean written as a key), with no whitespace before it.
    pub fn key_quote(&mut self) -> (r: Result<(), JsonWithCommentsError>)
        requires
            old(self).wf(),
        ensures
            Self::same_source(old(self), final(self)),
            match spec_look(old(self).input(), old(self).cursor()) {
                None => fails_with(r, ErrorKind::Syntax(SyntaxError::EofWhileParsingObjectKey)),
                Some((pos, found)) => if found == QUOTE {
                    r is Ok && final(self).cursor() == old(self).cursor() + 1
                } else {
                    fails_with(r, ErrorKind::Syntax(SyntaxError::UnexpectedTokenWhileParsingObjectKey { pos, found }))
                },
            },
    {
        proof {
            self.tokenizer.lemma_cursor_bounded();
        }
        match self.tokenizer.eat() {
            None => Err(JsonWithCommentsError::syntax(SyntaxError::EofWhileParsingObjectKey)),
            Some((pos, found)) => {
                if found == QUOTE {
                    Ok(())
                } else {
                    Err(JsonWithCommentsError::syntax(SyntaxError::UnexpectedTokenWhileParsingObjectKey { pos, found }))
                }
            },
        }
    }
}

} // verus!
