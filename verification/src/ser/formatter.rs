//! How values are laid out as text: the events of writing a value, and the
//! bytes that each one writes.

pub mod minify;
pub mod pretty;

use vstd::prelude::*;
use vstd::string::StringSliceAdditionalSpecFns;

use crate::ascii::{
    is_control, BACKSLASH, BACKSPACE, CARRIAGE_RETURN, COLON, COMMA, DIGIT_ZERO, FORM_FEED, LEFT_BRACE,
    LEFT_BRACKET, LINE_FEED, LOWER_A, LOWER_B, LOWER_E, LOWER_F, LOWER_L, LOWER_N, LOWER_R, LOWER_S, LOWER_T,
    LOWER_U, QUOTE, RIGHT_BRACE, RIGHT_BRACKET, TAB, UPPER_A,
};
use crate::ser::access::number::ToNumberRepresentation;

verus! {

pub open spec fn null_text() -> Seq<u8> {
    seq![LOWER_N, LOWER_U, LOWER_L, LOWER_L]
}

pub open spec fn bool_text(b: bool) -> Seq<u8> {
    if b {
        seq![LOWER_T, LOWER_R, LOWER_U, LOWER_E]
    } else {
        seq![LOWER_F, LOWER_A, LOWER_L, LOWER_S, LOWER_E]
    }
}

/// An upper case hexadecimal digit.
pub open spec fn hex_upper(n: int) -> u8 {
    if n < 10 {
        (DIGIT_ZERO + n) as u8
    } else {
        (UPPER_A + n - 10) as u8
    }
}

/// `\u00XX` for a code point below `0x100`.
pub open spec fn unicode_escape(c: u8) -> Seq<u8> {
    seq![BACKSLASH, LOWER_U, DIGIT_ZERO, DIGIT_ZERO, hex_upper(c as int / 16), hex_upper(c as int % 16)]
}

/// At `i` stands the UTF-8 encoding of a C1 control character (U+0080 to U+009F).
pub open spec fn is_c1_pair(b: Seq<u8>, i: int) -> bool {
    &&& b[i] == 0xC2u8
    &&& i + 1 < b.len()
    &&& 0x80u8 <= b[i + 1] <= 0x9Fu8
}

/// How one byte is written inside a string. A slash is written as it is.
pub open spec fn escape_byte(c: u8) -> Seq<u8> {
    if c == QUOTE {
        seq![BACKSLASH, QUOTE]
    } else if c == BACKSLASH {
        seq![BACKSLASH, BACKSLASH]
    } else if c == BACKSPACE {
        seq![BACKSLASH, LOWER_B]
    } else if c == FORM_FEED {
        seq![BACKSLASH, LOWER_F]
    } else if c == LINE_FEED {
        seq![BACKSLASH, LOWER_N]
    } else if c == CARRIAGE_RETURN {
        seq![BACKSLASH, LOWER_R]
    } else if c == TAB {
        seq![BACKSLASH, LOWER_T]
    } else if is_control(c) {
        unicode_escape(c)
    } else {
        seq![c]
    }
}

/// The bytes of a string from `i` on, as they are written between its quotes.
pub open spec fn escape_from(b: Seq<u8>, i: int) -> Seq<u8>
    decreases b.len() - i,
{
    if i < 0 || i >= b.len() {
        Seq::empty()
    } else if is_c1_pair(b, i) {
        unicode_escape(b[i + 1]) + escape_from(b, i + 2)
    } else {
        escape_byte(b[i]) + escape_from(b, i + 1)
    }
}

/// A string as it is written: quotes around its escaped bytes.
pub open spec fn quoted(b: Seq<u8>) -> Seq<u8> {
    seq![QUOTE] + escape_from(b, 0) + seq![QUOTE]
}

/// `n` spaces.
pub open spec fn spaces(n: nat) -> Seq<u8> {
    Seq::new(n, |i: int| 32u8)
}

fn hex_digit_upper(n: u8) -> (r: u8)
    requires
        n < 16,
    ensures
        r == hex_upper(n as int),
{
    if n < 10 {
        DIGIT_ZERO + n
    } else {
        UPPER_A + n - 10
    }
}

/// Pushes `\u00XX` for a byte.
fn push_unicode_escape(write: &mut Vec<u8>, c: u8)
    ensures
        final(write)@ == old(write)@ + unicode_escape(c),
{
    write.push(BACKSLASH);
    write.push(LOWER_U);
    write.push(DIGIT_ZERO);
    write.push(DIGIT_ZERO);
    write.push(hex_digit_upper(c / 16));
    write.push(hex_digit_upper(c % 16));
    assert(final(write)@ =~= old(write)@ + unicode_escape(c));
}

/// Pushes the bytes of a slice.
pub fn push_all(write: &mut Vec<u8>, bytes: &[u8])
    ensures
        final(write)@ == old(write)@ + bytes@,
{
    let mut i: usize = 0;
    while i < bytes.len()
        invariant
            i <= bytes@.len(),
            write@ == old(write)@ + bytes@.take(i as int),
        decreases bytes.len() - i,
    {
        assert(bytes@.take(i + 1) =~= bytes@.take(i as int).push(bytes@[i as int]));
        write.push(bytes[i]);
        i = i + 1;
    }
    assert(bytes@.take(i as int) =~= bytes@);
}

/// Pushes `n` spaces.
pub fn push_spaces(write: &mut Vec<u8>, n: usize)
    ensures
        final(write)@ == old(write)@ + spaces(n as nat),
{
    let mut i: usize = 0;
    while i < n
        invariant
            i <= n,
            write@ == old(write)@ + spaces(i as nat),
        decreases n - i,
    {
        assert(spaces((i + 1) as nat) =~= spaces(i as nat).push(32u8));
        write.push(32u8);
        i = i + 1;
    }
}

/// Pushes a string, quoted and escaped.
pub fn push_quoted(write: &mut Vec<u8>, value: &str)
    ensures
        final(write)@ == old(write)@ + quoted(value.spec_bytes()),
{
    let b = value.as_bytes();
    let ghost bs = b@;
    write.push(QUOTE);
    let mut i: usize = 0;
    while i < b.len()
        invariant
            i <= bs.len(),
            b@ == bs,
            old(write)@ + seq![QUOTE] + escape_from(bs, 0) == write@ + escape_from(bs, i as int),
        decreases b.len() - i,
    {
        let c = b[i];
        let ghost w0 = write@;
        if c == 0xC2u8 && i + 1 < b.len() && 0x80u8 <= b[i + 1] && b[i + 1] <= 0x9Fu8 {
            push_unicode_escape(write, b[i + 1]);
            assert(w0 + escape_from(bs, i as int) =~= write@ + escape_from(bs, i + 2));
            i = i + 2;
        } else {
            if c == QUOTE {
                write.push(BACKSLASH);
                write.push(QUOTE);
            } else if c == BACKSLASH {
                write.push(BACKSLASH);
                write.push(BACKSLASH);
            } else if c == BACKSPACE {
                write.push(BACKSLASH);
                write.push(LOWER_B);
            } else if c == FORM_FEED {
                write.push(BACKSLASH);
                write.push(LOWER_F);
            } else if c == LINE_FEED {
                write.push(BACKSLASH);
                write.push(LOWER_N);
            } else if c == CARRIAGE_RETURN {
                write.push(BACKSLASH);
                write.push(LOWER_R);
            } else if c == TAB {
                write.push(BACKSLASH);
                write.push(LOWER_T);
            } else if c < 32u8 || c == 127u8 {
                push_unicode_escape(write, c);
            } else {
                write.push(c);
            }
            assert(write@ =~= w0 + escape_byte(c));
            assert(w0 + escape_from(bs, i as int) =~= write@ + escape_from(bs, i + 1));
            i = i + 1;
        }
    }
    write.push(QUOTE);
    assert(write@ =~= old(write)@ + quoted(bs));
}

/// An event of writing a value that the layout decides on: what comes around
/// the elements of an array and the members of an object. `index` counts the
/// element or the member from 0; `len` is how many there are, when known.
pub enum FormatEvent {
    ArrayStart,
    ArrayValueStart { index: usize, len: Option<usize> },
    ArrayValueEnd { index: usize, len: Option<usize> },
    ArrayEnd,
    ObjectStart,
    ObjectKeyStart { index: usize, len: Option<usize> },
    ObjectValueStart { index: usize, len: Option<usize> },
    ObjectValueEnd { index: usize, len: Option<usize> },
    ObjectEnd,
}

/// What the compact layout writes after an element or a member: a comma,
/// unless it is known to be the last.
pub open spec fn separator(index: usize, len: Option<usize>) -> Seq<u8> {
    if len matches Some(l) && index + 1 < l {
        seq![COMMA]
    } else {
        Seq::empty()
    }
}

/// Lays out the events of writing a value. Each method appends to `write`
/// the bytes of its event: the literals, numbers and strings in one way for
/// every layout, the rest as the layout's `text` says.
pub trait JsoncFormatter: Sized {
    /// How many more arrays or objects can be opened, one inside the other:
    /// a layout that counts nesting has room for only so many levels.
    spec fn room(&self) -> nat;

    /// Whether an array or an object can be closed: one is open.
    spec fn can_close(&self) -> bool;

    /// The bytes that the layout writes for an event.
    spec fn text(&self, event: FormatEvent) -> Seq<u8>;

    /// The formatter after an event.
    spec fn next(&self, event: FormatEvent) -> Self;

    /// How many more arrays or objects can be opened.
    fn room_left(&self) -> (r: usize)
        ensures
            r as nat == self.room(),
    ;

    /// Whether an array or an object can be closed now.
    fn can_close_now(&self) -> (r: bool)
        ensures
            r == self.can_close(),
    ;

    /// Whether an array or an object can be closed after the end of the
    /// value of a member.
    fn can_close_after_value(&self, index: usize, len: Option<usize>) -> (r: bool)
        ensures
            r == self.next(FormatEvent::ObjectValueEnd { index, len }).can_close(),
    ;

    fn write_bool(&mut self, write: &mut Vec<u8>, value: bool)
        ensures
            final(self).room() >= old(self).room(),
            final(write)@ == old(write)@ + bool_text(value),
            *final(self) == *old(self),
    {
        if value {
            write.push(LOWER_T);
            write.push(LOWER_R);
            write.push(LOWER_U);
            write.push(LOWER_E);
        } else {
            write.push(LOWER_F);
            write.push(LOWER_A);
            write.push(LOWER_L);
            write.push(LOWER_S);
            write.push(LOWER_E);
        }
        assert(final(write)@ =~= old(write)@ + bool_text(value));
    }

    fn write_null(&mut self, write: &mut Vec<u8>)
        ensures
            final(self).room() >= old(self).room(),
            final(write)@ == old(write)@ + null_text(),
            *final(self) == *old(self),
    {
        write.push(LOWER_N);
        write.push(LOWER_U);
        write.push(LOWER_L);
        write.push(LOWER_L);
        assert(final(write)@ =~= old(write)@ + null_text());
    }

    fn write_number<N: ToNumberRepresentation>(&mut self, write: &mut Vec<u8>, value: N)
        ensures
            final(self).room() >= old(self).room(),
            final(write)@ == old(write)@ + value.representation(),
            *final(self) == *old(self),
    {
        let text = value.to_number_representation();
        push_all(write, text.as_slice());
    }

    fn write_str(&mut self, write: &mut Vec<u8>, value: &str)
        ensures
            final(self).room() >= old(self).room(),
            final(write)@ == old(write)@ + quoted(value.spec_bytes()),
            *final(self) == *old(self),
    {
        push_quoted(write, value);
    }

    fn write_array_start(&mut self, write: &mut Vec<u8>)
        requires
            old(self).room() > 0,
        ensures
            final(write)@ == old(write)@ + old(self).text(FormatEvent::ArrayStart),
            *final(self) == old(self).next(FormatEvent::ArrayStart),
            final(self).room() + 1 >= old(self).room(),
    ;

    fn write_array_value_start(&mut self, write: &mut Vec<u8>, index: usize, len: Option<usize>)
        ensures
            final(write)@ == old(write)@ + old(self).text(FormatEvent::ArrayValueStart { index, len }),
            *final(self) == old(self).next(FormatEvent::ArrayValueStart { index, len }),
            final(self).room() >= old(self).room(),
    ;

    fn write_array_value_end(&mut self, write: &mut Vec<u8>, index: usize, len: Option<usize>)
        ensures
            final(write)@ == old(write)@ + old(self).text(FormatEvent::ArrayValueEnd { index, len }),
            *final(self) == old(self).next(FormatEvent::ArrayValueEnd { index, len }),
            final(self).room() >= old(self).room(),
    ;

    fn write_array_end(&mut self, write: &mut Vec<u8>)
        requires
            old(self).can_close(),
        ensures
            final(write)@ == old(write)@ + old(self).text(FormatEvent::ArrayEnd),
            *final(self) == old(self).next(FormatEvent::ArrayEnd),
            final(self).room() >= old(self).room(),
    ;

    fn write_object_start(&mut self, write: &mut Vec<u8>)
        requires
            old(self).room() > 0,
        ensures
            final(write)@ == old(write)@ + old(self).text(FormatEvent::ObjectStart),
            *final(self) == old(self).next(FormatEvent::ObjectStart),
            final(self).room() + 1 >= old(self).room(),
    ;

    fn write_object_key_start(&mut self, write: &mut Vec<u8>, index: usize, len: Option<usize>)
        ensures
            final(write)@ == old(write)@ + old(self).text(FormatEvent::ObjectKeyStart { index, len }),
            *final(self) == old(self).next(FormatEvent::ObjectKeyStart { index, len }),
            final(self).room() >= old(self).room(),
    ;

    /// A colon between a key and its value, in every layout.
    fn write_object_key_end(&mut self, write: &mut Vec<u8>, index: usize, len: Option<usize>)
        ensures
            final(self).room() >= old(self).room(),
            final(write)@ == old(write)@.push(COLON),
            *final(self) == *old(self),
    {
        write.push(COLON);
    }

    fn write_object_value_start(&mut self, write: &mut Vec<u8>, index: usize, len: Option<usize>)
        ensures
            final(write)@ == old(write)@ + old(self).text(FormatEvent::ObjectValueStart { index, len }),
            *final(self) == old(self).next(FormatEvent::ObjectValueStart { index, len }),
            final(self).room() >= old(self).room(),
    ;

    fn write_object_value_end(&mut self, write: &mut Vec<u8>, index: usize, len: Option<usize>)
        ensures
            final(write)@ == old(write)@ + old(self).text(FormatEvent::ObjectValueEnd { index, len }),
            *final(self) == old(self).next(FormatEvent::ObjectValueEnd { index, len }),
            final(self).room() >= old(self).room(),
    ;

    fn write_object_end(&mut self, write: &mut Vec<u8>)
        requires
            old(self).can_close(),
        ensures
            final(write)@ == old(write)@ + old(self).text(FormatEvent::ObjectEnd),
            *final(self) == old(self).next(FormatEvent::ObjectEnd),
            final(self).room() >= old(self).room(),
    ;
}

} // verus!
