//! Reading tokens from the bytes that a reader gave.

use vstd::prelude::*;

use crate::de::position::{spec_look, RowColIterator};
use crate::de::token::{string_outcome, Tokenizer};
use crate::error::{JsonWithCommentsError, Position};
use crate::de::access::string::StringValue;

verus! {

/// Reads tokens from the bytes that a reader gave; strings come out owned,
/// escapes replaced.
pub struct ReadTokenizer<'de> {
    slice: &'de [u8],
    iter: RowColIterator<'de>,
}

impl<'de> ReadTokenizer<'de> {
    pub fn new(slice: &'de [u8]) -> (r: Self)
        ensures
            r.wf(),
            r.input() == slice@,
            r.cursor() == 0,
    {
        ReadTokenizer { slice, iter: RowColIterator::new(slice) }
    }

    /// The index of the next byte to read.
    pub fn current(&self) -> (r: usize)
        requires
            self.wf(),
        ensures
            r == self.cursor(),
    {
        self.iter.offset()
    }

    /// The bytes read.
    pub fn slice(&self) -> (r: &'de [u8])
        requires
            self.wf(),
        ensures
            r@ == self.input(),
    {
        self.slice
    }
}

impl<'de> Tokenizer<'de> for ReadTokenizer<'de> {
    closed spec fn input(&self) -> Seq<u8> {
        self.slice@
    }

    closed spec fn cursor(&self) -> int {
        self.iter.index()
    }

    closed spec fn wf(&self) -> bool {
        self.iter.wf() && self.iter.input() == self.slice@
    }

    open spec fn keeps_escapes(&self) -> bool {
        false
    }

    /// Never borrowed: strings are owned.
    open spec fn lends_strings(&self) -> bool {
        false
    }

    proof fn lemma_cursor_bounded(&self) {
        self.iter.lemma_index_bounded();
    }

    fn eat(&mut self) -> (r: Option<(Position, u8)>) {
        let r = self.iter.next();
        assert(self.lends_strings() == old(self).lends_strings());
        r
    }

    fn look(&mut self) -> (r: Option<(Position, u8)>) {
        self.iter.peek()
    }

    /// Owned, escapes replaced.
    fn parse_string_content(&mut self) -> (r: Result<StringValue<'de>, JsonWithCommentsError>)
        ensures
            r matches Ok(v) ==> v is Owned,
    {
        self.parse_string_content_super()
    }
}

} // verus!
