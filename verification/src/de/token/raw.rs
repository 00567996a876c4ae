//! Reading tokens from a byte slice, strings borrowed as written.

use vstd::prelude::*;
use vstd::slice::slice_subrange;

use crate::de::syntax::lemma_string_body;
use crate::error::ErrorKind;
use crate::utf8::str_from_utf8;
use crate::de::position::{spec_look, RowColIterator};
use crate::de::token::{string_outcome, Tokenizer};
use crate::error::{JsonWithCommentsError, Position};
use crate::de::access::string::StringValue;

verus! {

/// Reads tokens from a byte slice; strings are borrowed from it as they are
/// written, escapes kept.
pub struct RawTokenizer<'de> {
    slice: &'de [u8],
    iter: RowColIterator<'de>,
}

impl<'de> RawTokenizer<'de> {
    pub fn new(slice: &'de [u8]) -> (r: Self)
        ensures
            r.wf(),
            r.input() == slice@,
            r.cursor() == 0,
    {
        RawTokenizer { slice, iter: RowColIterator::new(slice) }
    }

    /// The index of the next byte to read.
    pub fn current(&self) -> (r: usize)
        requires
            self.wf(),
        ensures
            r == self.cursor(),
    {
        self.iter.offset()
    }

    /// The bytes read.
    pub fn slice(&self) -> (r: &'de [u8])
        requires
            self.wf(),
        ensures
            r@ == self.input(),
    {
        self.slice
    }
}

impl<'de> Tokenizer<'de> for RawTokenizer<'de> {
    closed spec fn input(&self) -> Seq<u8> {
        self.slice@
    }

    closed spec fn cursor(&self) -> int {
        self.iter.index()
    }

    closed spec fn wf(&self) -> bool {
        self.iter.wf() && self.iter.input() == self.slice@
    }

    open spec fn keeps_escapes(&self) -> bool {
        true
    }

    /// Always borrowed: escapes are kept as written.
    open spec fn lends_strings(&self) -> bool {
        true
    }

    proof fn lemma_cursor_bounded(&self) {
        self.iter.lemma_index_bounded();
    }

    fn eat(&mut self) -> (r: Option<(Position, u8)>) {
        let r = self.iter.next();
        assert(self.lends_strings() == old(self).lends_strings());
        r
    }

    fn look(&mut self) -> (r: Option<(Position, u8)>) {
        self.iter.peek()
    }

    /// Borrowed from the input, escapes kept.
    fn parse_string_content(&mut self) -> (r: Result<StringValue<'de>, JsonWithCommentsError>)
        ensures
            r matches Ok(v) ==> v is Borrowed,
    {
        let offset = self.current();
        let ghost s = self.input();
        match self.parse_string_content_super() {
            Err(e) => Err(e),
            Ok(_) => {
                proof {
                    lemma_string_body(s, offset as int);
                }
                let end = self.current();
                let raw = slice_subrange(self.slice(), offset, end);
                match str_from_utf8(raw) {
                    Some(text) => Ok(StringValue::Borrowed(text)),
                    None => Err(JsonWithCommentsError::new(ErrorKind::InvalidUtf8)),
                }
            },
        }
    }
}

} // verus!
