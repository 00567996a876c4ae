//! The compact layout: no whitespace at all.

use vstd::prelude::*;

use vstd::utf8::encode_utf8;

use crate::ascii::{COLON, COMMA, LEFT_BRACE, LEFT_BRACKET, RIGHT_BRACE, RIGHT_BRACKET};
use crate::ser::access::number::int_text;
use crate::ser::formatter::{bool_text, null_text, quoted, separator, FormatEvent, JsoncFormatter};
use crate::value::ValueModel;

verus! {

/// Writes values with no whitespace: `{"key":[1,2]}`.
pub struct MinifyFormatter;

/// Pushes a comma unless the element or member is known to be the last.
fn push_separator(write: &mut Vec<u8>, index: usize, len: Option<usize>)
    ensures
        final(write)@ == old(write)@ + separator(index, len),
{
    match len {
        Some(l) => {
            if l > 0 && index < l - 1 {
                write.push(COMMA);
            }
        },
        None => {},
    }
    assert(final(write)@ =~= old(write)@ + separator(index, len));
}

impl JsoncFormatter for MinifyFormatter {
    open spec fn room(&self) -> nat {
        usize::MAX as nat
    }

    open spec fn can_close(&self) -> bool {
        true
    }

    /// Brackets and braces, and a comma between elements and between
    /// members; nothing else.
    open spec fn text(&self, event: FormatEvent) -> Seq<u8> {
        match event {
            FormatEvent::ArrayStart => seq![LEFT_BRACKET],
            FormatEvent::ArrayValueEnd { index, len } => separator(index, len),
            FormatEvent::ArrayEnd => seq![RIGHT_BRACKET],
            FormatEvent::ObjectStart => seq![LEFT_BRACE],
            FormatEvent::ObjectValueEnd { index, len } => separator(index, len),
            FormatEvent::ObjectEnd => seq![RIGHT_BRACE],
            _ => Seq::empty(),
        }
    }

    open spec fn next(&self, event: FormatEvent) -> MinifyFormatter {
        MinifyFormatter
    }

    fn room_left(&self) -> (r: usize) {
        usize::MAX
    }

    fn can_close_now(&self) -> (r: bool) {
        true
    }

    fn can_close_after_value(&self, index: usize, len: Option<usize>) -> (r: bool) {
        true
    }

    fn write_array_start(&mut self, write: &mut Vec<u8>) {
        write.push(LEFT_BRACKET);
        assert(final(write)@ =~= old(write)@ + seq![LEFT_BRACKET]);
    }

    fn write_array_value_start(&mut self, write: &mut Vec<u8>, index: usize, len: Option<usize>) {
        assert(final(write)@ =~= old(write)@ + Seq::<u8>::empty());
    }

    fn write_array_value_end(&mut self, write: &mut Vec<u8>, index: usize, len: Option<usize>) {
        push_separator(write, index, len);
    }

    fn write_array_end(&mut self, write: &mut Vec<u8>) {
        write.push(RIGHT_BRACKET);
        assert(final(write)@ =~= old(write)@ + seq![RIGHT_BRACKET]);
    }

    fn write_object_start(&mut self, write: &mut Vec<u8>) {
        write.push(LEFT_BRACE);
        assert(final(write)@ =~= old(write)@ + seq![LEFT_BRACE]);
    }

    fn write_object_key_start(&mut self, write: &mut Vec<u8>, index: usize, len: Option<usize>) {
        assert(final(write)@ =~= old(write)@ + Seq::<u8>::empty());
    }

    fn write_object_value_start(&mut self, write: &mut Vec<u8>, index: usize, len: Option<usize>) {
        assert(final(write)@ =~= old(write)@ + Seq::<u8>::empty());
    }

    fn write_object_value_end(&mut self, write: &mut Vec<u8>, index: usize, len: Option<usize>) {
        push_separator(write, index, len);
    }

    fn write_object_end(&mut self, write: &mut Vec<u8>) {
        write.push(RIGHT_BRACE);
        assert(final(write)@ =~= old(write)@ + seq![RIGHT_BRACE]);
    }
}


/// The compact text of a value.
pub open spec fn minify_text(v: ValueModel) -> Seq<u8>
    decreases v, 0int,
{
    match v {
        ValueModel::Null => null_text(),
        ValueModel::Bool(b) => bool_text(b),
        ValueModel::Integer(i) => int_text(i),
        ValueModel::Float(t) => encode_utf8(t),
        ValueModel::String(t) => quoted(encode_utf8(t)),
        ValueModel::Array(a) => seq![LEFT_BRACKET] + minify_items(a, 0) + seq![RIGHT_BRACKET],
        ValueModel::Object(m) => seq![LEFT_BRACE] + minify_members(m, 0) + seq![RIGHT_BRACE],
    }
}

/// The elements from `i` on, with commas between them.
pub open spec fn minify_items(a: Seq<ValueModel>, i: int) -> Seq<u8>
    decreases a, a.len() - i,
{
    if 0 <= i < a.len() {
        proof {
            assert(decreases_to!(a => a[i]));
        }
        minify_text(a[i]) + (if i + 1 < a.len() {
            seq![COMMA]
        } else {
            Seq::empty()
        }) + minify_items(a, i + 1)
    } else {
        Seq::empty()
    }
}

/// The members from `i` on, with commas between them.
pub open spec fn minify_members(m: Seq<(Seq<char>, ValueModel)>, i: int) -> Seq<u8>
    decreases m, m.len() - i,
{
    if 0 <= i < m.len() {
        proof {
            assert(decreases_to!(m => m[i]));
        }
        quoted(encode_utf8(m[i].0)) + seq![COLON] + minify_text(m[i].1) + (if i + 1 < m.len() {
            seq![COMMA]
        } else {
            Seq::empty()
        }) + minify_members(m, i + 1)
    } else {
        Seq::empty()
    }
}
} // verus!
