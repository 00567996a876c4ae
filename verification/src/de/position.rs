use vstd::prelude::*;

use crate::ascii::LINE_FEED;
use crate::error::Position;

verus! {

/// Row and column of the byte at index `i` of `s`: the number of line feeds
/// before it, and the number of bytes since the last of them.
pub open spec fn row_col(s: Seq<u8>, i: int) -> (nat, nat)
    decreases i,
{
    if i <= 0 {
        (0, 0)
    } else {
        let p = row_col(s, i - 1);
        if s[i - 1] == LINE_FEED {
            ((p.0 + 1) as nat, 0)
        } else {
            (p.0, (p.1 + 1) as nat)
        }
    }
}

/// The position of the byte at index `i` of `s`.
pub open spec fn position_of(s: Seq<u8>, i: int) -> Position {
    (row_col(s, i).0 as usize, row_col(s, i).1 as usize)
}

/// Neither row nor column exceeds the index.
pub proof fn lemma_row_col_bounded(s: Seq<u8>, i: int)
    requires
        0 <= i,
    ensures
        row_col(s, i).0 <= i,
        row_col(s, i).1 <= i,
    decreases i,
{
    if i > 0 {
        lemma_row_col_bounded(s, i - 1);
    }
}

/// What the next byte at index `i` is, with its position, or `None` at the end.
pub open spec fn spec_look(s: Seq<u8>, i: int) -> Option<(Position, u8)> {
    if 0 <= i < s.len() {
        Some((position_of(s, i), s[i]))
    } else {
        None
    }
}

/// Iterates over the bytes of a slice, counting rows and columns.
pub struct RowColIterator<'a> {
    slice: &'a [u8],
    index: usize,
    row: usize,
    col: usize,
}

impl<'a> RowColIterator<'a> {
    /// The bytes iterated over.
    pub closed spec fn input(&self) -> Seq<u8> {
        self.slice@
    }

    /// How many bytes have been taken.
    pub closed spec fn index(&self) -> int {
        self.index as int
    }

    /// The index is within the input and the counters hold its position.
    pub closed spec fn wf(&self) -> bool {
        &&& self.index <= self.slice@.len()
        &&& self.row == row_col(self.slice@, self.index as int).0
        &&& self.col == row_col(self.slice@, self.index as int).1
    }

    pub fn new(slice: &'a [u8]) -> (r: Self)
        ensures
            r.wf(),
            r.input() == slice@,
            r.index() == 0,
    {
        RowColIterator { slice, index: 0, row: 0, col: 0 }
    }

    /// A well formed iterator has taken no more bytes than its input holds.
    pub proof fn lemma_index_bounded(&self)
        requires
            self.wf(),
        ensures
            0 <= self.index() <= self.input().len(),
    {
    }

    /// How many bytes have been taken.
    pub fn offset(&self) -> (r: usize)
        requires
            self.wf(),
        ensures
            r == self.index(),
    {
        self.index
    }

    /// The position of the next byte.
    pub fn pos(&self) -> (r: Position)
        requires
            self.wf(),
        ensures
            r == position_of(self.input(), self.index()),
    {
        (self.row, self.col)
    }

    /// The next byte with its position, without taking it.
    pub fn peek(&self) -> (r: Option<(Position, u8)>)
        requires
            self.wf(),
        ensures
            r == spec_look(self.input(), self.index()),
    {
        if self.index < self.slice.len() {
            Some(((self.row, self.col), self.slice[self.index]))
        } else {
            None
        }
    }

    /// Takes the next byte, returning it with its position.
    pub fn next(&mut self) -> (r: Option<(Position, u8)>)
        requires
            old(self).wf(),
        ensures
            final(self).wf(),
            final(self).input() == old(self).input(),
            r == spec_look(old(self).input(), old(self).index()),
            final(self).index() == if old(self).index() < old(self).input().len() {
                old(self).index() + 1
            } else {
                old(self).index()
            },
    {
        if self.index < self.slice.len() {
            let c = self.slice[self.index];
            let p = (self.row, self.col);
            proof {
                lemma_row_col_bounded(self.slice@, self.index as int + 1);
            }
            if c == LINE_FEED {
                self.row = self.row + 1;
                self.col = 0;
            } else {
                self.col = self.col + 1;
            }
            self.index = self.index + 1;
            Some((p, c))
        } else {
            None
        }
    }
}

/// The position after a byte: the next row, at column 0, after a line feed;
/// the next column of the same row after any other byte.
pub proof fn lemma_position_step(s: Seq<u8>, i: int)
    requires
        0 <= i < s.len(),
        s.len() <= usize::MAX,
    ensures
        position_of(s, i + 1) == if s[i] == LINE_FEED {
            ((position_of(s, i).0 + 1) as usize, 0usize)
        } else {
            (position_of(s, i).0, (position_of(s, i).1 + 1) as usize)
        },
{
    lemma_row_col_bounded(s, i);
}

/// What one call of `next` does, as its contract states: `r` is what it
/// returned and `after` the iterator after it.
pub open spec fn next_step<'a>(before: RowColIterator<'a>, r: Option<(Position, u8)>, after: RowColIterator<'a>) -> bool {
    &&& after.wf()
    &&& after.input() == before.input()
    &&& r == spec_look(before.input(), before.index())
    &&& after.index() == if before.index() < before.input().len() {
        before.index() + 1
    } else {
        before.index()
    }
}

/// Successive calls of `next` on a new iterator give the bytes of the input
/// in order, each with its position (`row_col`, stepped by
/// `lemma_position_step`), and `None` once the input is spent.
pub proof fn lemma_successive_next<'a>(its: Seq<RowColIterator<'a>>, rs: Seq<Option<(Position, u8)>>)
    requires
        its.len() == rs.len() + 1,
        its[0].wf(),
        its[0].index() == 0,
        forall|i: int| 0 <= i < rs.len() ==> next_step(its[i], #[trigger] rs[i], its[i + 1]),
    ensures
        its.last().input() == its[0].input(),
        its.last().index() == if rs.len() <= its[0].input().len() {
            rs.len() as int
        } else {
            its[0].input().len() as int
        },
        forall|k: int| 0 <= k < rs.len() ==> #[trigger] rs[k] == spec_look(its[0].input(), k),
    decreases rs.len(),
{
    if rs.len() > 0 {
        let n = rs.len() - 1;
        let fewer = rs.drop_last();
        let earlier = its.drop_last();
        assert forall|i: int| 0 <= i < fewer.len() implies next_step(earlier[i], #[trigger] fewer[i], earlier[i + 1]) by {
            assert(next_step(its[i], rs[i], its[i + 1]));
        }
        lemma_successive_next(earlier, fewer);
        assert(next_step(its[n], rs[n], its[n + 1]));
        assert forall|k: int| 0 <= k < rs.len() implies #[trigger] rs[k] == spec_look(its[0].input(), k) by {
            if k < n {
                assert(rs[k] == fewer[k]);
            }
        }
    }
}

} // verus!
