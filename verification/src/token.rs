//! A tokenizer that only keeps track of where it is in its input.

use vstd::prelude::*;

pub use crate::de::position::RowColIterator;
use crate::de::position::position_of;
use crate::error::Position;

verus! {

/// Wraps a row and column counting iterator and reports its position.
pub struct Tokenizer<'a> {
    iter: RowColIterator<'a>,
}

impl<'a> Tokenizer<'a> {
    /// The iterator within.
    pub closed spec fn iter(&self) -> RowColIterator<'a> {
        self.iter
    }

    pub fn new(iter: RowColIterator<'a>) -> (r: Self)
        ensures
            r.iter() == iter,
    {
        Tokenizer { iter }
    }

    /// The position of the next byte of the iterator within.
    pub fn pos(&self) -> (r: Position)
        requires
            self.iter().wf(),
        ensures
            r == position_of(self.iter().input(), self.iter().index()),
    {
        self.iter.pos()
    }
}

} // verus!
