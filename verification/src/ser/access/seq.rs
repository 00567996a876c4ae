//! Writing the elements of an array one by one.

use vstd::prelude::*;

use crate::ser::access::jsonc::JsoncSerializer;
use crate::ser::formatter::{FormatEvent, JsoncFormatter};

verus! {

/// Counts the elements of an array being written, for the formatter's
/// separators.
pub struct SeqSerializer {
    index: usize,
    len: Option<usize>,
}

impl SeqSerializer {
    /// How many elements were written.
    pub closed spec fn index(&self) -> usize {
        self.index
    }

    /// How many elements the array has, when known.
    pub closed spec fn len(&self) -> Option<usize> {
        self.len
    }

    /// Writes the start of an array of `len` elements.
    pub fn start<F: JsoncFormatter>(serializer: &mut JsoncSerializer<F>, len: Option<usize>) -> (r: Self)
        requires
            old(serializer).formatter().room() > 0,
        ensures
            r.index() == 0,
            r.len() == len,
            final(serializer).output() == old(serializer).output() + old(serializer).formatter().text(
                FormatEvent::ArrayStart,
            ),
            final(serializer).formatter() == old(serializer).formatter().next(FormatEvent::ArrayStart),
            final(serializer).formatter().room() + 1 >= old(serializer).formatter().room(),
    {
        serializer.write_array_start();
        SeqSerializer { index: 0, len }
    }

    /// Writes what comes before the next element.
    /// How many elements have been written.
    pub fn count(&self) -> (r: usize)
        ensures
            r == self.index(),
    {
        self.index
    }

    pub fn element_start<F: JsoncFormatter>(&self, serializer: &mut JsoncSerializer<F>)
        ensures
            final(serializer).output() == old(serializer).output() + old(serializer).formatter().text(
                FormatEvent::ArrayValueStart { index: self.index(), len: self.len() },
            ),
            final(serializer).formatter() == old(serializer).formatter().next(
                FormatEvent::ArrayValueStart { index: self.index(), len: self.len() },
            ),
            final(serializer).formatter().room() >= old(serializer).formatter().room(),
    {
        serializer.write_array_value_start(self.index, self.len)
    }

    /// Writes what comes after an element, and counts it.
    pub fn element_end<F: JsoncFormatter>(&mut self, serializer: &mut JsoncSerializer<F>)
        requires
            old(self).index() < usize::MAX,
        ensures
            final(self).index() == old(self).index() + 1,
            final(self).len() == old(self).len(),
            final(serializer).output() == old(serializer).output() + old(serializer).formatter().text(
                FormatEvent::ArrayValueEnd { index: old(self).index(), len: old(self).len() },
            ),
            final(serializer).formatter() == old(serializer).formatter().next(
                FormatEvent::ArrayValueEnd { index: old(self).index(), len: old(self).len() },
            ),
            final(serializer).formatter().room() >= old(serializer).formatter().room(),
    {
        serializer.write_array_value_end(self.index, self.len);
        self.index = self.index + 1;
    }

    /// Writes the end of the array.
    pub fn end<F: JsoncFormatter>(self, serializer: &mut JsoncSerializer<F>)
        requires
            old(serializer).formatter().can_close(),
        ensures
            final(serializer).output() == old(serializer).output() + old(serializer).formatter().text(
                FormatEvent::ArrayEnd,
            ),
            final(serializer).formatter() == old(serializer).formatter().next(FormatEvent::ArrayEnd),
            final(serializer).formatter().room() >= old(serializer).formatter().room(),
    {
        serializer.write_array_end()
    }
}

} // verus!
