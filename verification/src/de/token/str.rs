//! Reading tokens from a string slice.

use vstd::prelude::*;
use vstd::slice::slice_subrange;
use vstd::string::StringSliceAdditionalSpecFns;

use crate::ascii::BACKSLASH;
use crate::de::access::string::StringValue;
use crate::de::position::spec_look;
use crate::de::syntax::{lemma_string_body, lemma_string_body_plain};
use crate::de::token::slice::SliceTokenizer;
use crate::de::token::{ensure_error, string_outcome, Tokenizer};
use crate::error::{Ensure, ErrorKind, JsonWithCommentsError, Position};
use crate::utf8::str_from_utf8;

verus! {

/// Reads tokens from a string slice. A string without escapes is borrowed
/// from the input; once a string with an escape was read, strings come out
/// owned, escapes replaced.
pub struct StrTokenizer<'de> {
    delegate: SliceTokenizer<'de>,
    unescaped: bool,
}

/// Whether `b` holds a backslash.
fn has_backslash(b: &[u8]) -> (r: bool)
    ensures
        r <==> exists|k: int| 0 <= k < b@.len() && b@[k] == BACKSLASH,
{
    let mut i: usize = 0;
    while i < b.len()
        invariant
            i <= b@.len(),
            forall|k: int| 0 <= k < i ==> b@[k] != BACKSLASH,
        decreases b.len() - i,
    {
        if b[i] == BACKSLASH {
            return true;
        }
        i = i + 1;
    }
    false
}

impl<'de> StrTokenizer<'de> {
    pub fn new(s: &'de str) -> (r: Self)
        ensures
            r.wf(),
            r.input() == s.spec_bytes(),
            r.cursor() == 0,
            !r.has_unescaped(),
    {
        StrTokenizer { delegate: SliceTokenizer::new(s.as_bytes()), unescaped: false }
    }

    /// Whether a string with an escape was read.
    pub closed spec fn has_unescaped(&self) -> bool {
        self.unescaped
    }
}

impl<'de> Tokenizer<'de> for StrTokenizer<'de> {
    closed spec fn input(&self) -> Seq<u8> {
        self.delegate.input()
    }

    closed spec fn cursor(&self) -> int {
        self.delegate.cursor()
    }

    closed spec fn wf(&self) -> bool {
        self.delegate.wf()
    }

    open spec fn keeps_escapes(&self) -> bool {
        false
    }

    /// Borrowed until a string with an escape was read.
    open spec fn lends_strings(&self) -> bool {
        !self.has_unescaped()
    }

    proof fn lemma_cursor_bounded(&self) {
        self.delegate.lemma_cursor_bounded();
    }

    fn eat(&mut self) -> (r: Option<(Position, u8)>) {
        let r = self.delegate.eat();
        assert(self.lends_strings() == old(self).lends_strings());
        r
    }

    fn look(&mut self) -> (r: Option<(Position, u8)>) {
        self.delegate.look()
    }

    /// Borrowed from the input until a string with an escape was read; owned
    /// from then on.
    fn parse_string_content(&mut self) -> (r: Result<StringValue<'de>, JsonWithCommentsError>)
        ensures
            r is Ok ==> final(self).has_unescaped() == (old(self).has_unescaped() || exists|k: int|
                old(self).cursor() <= k < final(self).cursor() && old(self).input()[k] == BACKSLASH),
            r matches Ok(v) ==> (v is Borrowed <==> !final(self).has_unescaped()),
    {
        proof {
            self.lemma_cursor_bounded();
        }
        let offset = self.delegate.current();
        let prior = self.unescaped;
        let ghost s = self.input();
        match self.parse_string_content_super() {
            Err(e) => Err(e),
            Ok(value) => {
                proof {
                    lemma_string_body(s, offset as int);
                }
                let end = self.delegate.current();
                let raw = slice_subrange(self.delegate.slice(), offset, end);
                let escaped = has_backslash(raw);
                proof {
                    if escaped {
                        let j = choose|j: int| 0 <= j < raw@.len() && raw@[j] == BACKSLASH;
                        assert(s[offset + j] == BACKSLASH);
                    }
                }
                self.unescaped = prior || escaped;
                if self.unescaped {
                    match value {
                        StringValue::Owned(v) => Ok(StringValue::Owned(v)),
                        StringValue::Borrowed(_) => ensure_error(Ensure::OwnedString),
                    }
                } else {
                    proof {
                        assert forall|k: int| offset <= k < end implies s[k] != BACKSLASH by {
                            assert(raw@[k - offset] == s[k]);
                        }
                        lemma_string_body_plain(s, offset as int);
                    }
                    match str_from_utf8(raw) {
                        Some(text) => Ok(StringValue::Borrowed(text)),
                        None => Err(JsonWithCommentsError::new(ErrorKind::InvalidUtf8)),
                    }
                }
            },
        }
    }
}

} // verus!
