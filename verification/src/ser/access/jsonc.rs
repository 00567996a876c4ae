//! Writing values into a buffer through a formatter.

use vstd::prelude::*;
use vstd::string::StringSliceAdditionalSpecFns;

use crate::ascii::{COLON, COMMA, LEFT_BRACE, LEFT_BRACKET, LINE_FEED, RIGHT_BRACE, RIGHT_BRACKET, SPACE};
use crate::ser::access::number::ToNumberRepresentation;
use crate::ser::formatter::minify::{minify_items, minify_members, minify_text, MinifyFormatter};
use crate::ser::formatter::pretty::{pretty_items, pretty_members, pretty_text, pretty_value_end, PrettyFormatter};
use crate::ser::formatter::{bool_text, null_text, quoted, spaces, FormatEvent, JsoncFormatter};
use crate::value::number::Number;
use crate::value::{
    depth, items_depth, lemma_element_decreases, lemma_member_decreases, members_depth, members_model, values_model, JsoncValue,
};

verus! {

/// Writes values as text into a buffer, laid out by a formatter.
pub struct JsoncSerializer<F: JsoncFormatter> {
    write: Vec<u8>,
    formatter: F,
}

impl<F: JsoncFormatter> JsoncSerializer<F> {
    /// The text written so far.
    pub closed spec fn output(&self) -> Seq<u8> {
        self.write@
    }

    /// The formatter.
    pub closed spec fn formatter(&self) -> F {
        self.formatter
    }

    /// A serializer that writes after the bytes of `write`.
    pub fn new(write: Vec<u8>, formatter: F) -> (r: Self)
        ensures
            r.output() == write@,
            r.formatter() == formatter,
    {
        JsoncSerializer { write, formatter }
    }

    /// The text written.
    pub fn into_inner(self) -> (r: Vec<u8>)
        ensures
            r@ == self.output(),
    {
        self.write
    }

    /// How many more arrays or objects the layout can open.
    pub fn room(&self) -> (r: usize)
        ensures
            r as nat == self.formatter().room(),
    {
        self.formatter.room_left()
    }

    /// Whether the layout can close an array or an object now.
    pub fn can_close(&self) -> (r: bool)
        ensures
            r == self.formatter().can_close(),
    {
        self.formatter.can_close_now()
    }

    /// Whether the layout can close an object after the end of the value of
    /// a member.
    pub fn can_close_after_value(&self, index: usize, len: Option<usize>) -> (r: bool)
        ensures
            r == self.formatter().next(FormatEvent::ObjectValueEnd { index, len }).can_close(),
    {
        self.formatter.can_close_after_value(index, len)
    }

    /// Writes one byte as it is.
    pub fn push_byte(&mut self, b: u8)
        ensures
            final(self).output() == old(self).output().push(b),
            final(self).formatter() == old(self).formatter(),
    {
        self.write.push(b)
    }

    pub fn serialize_bool(&mut self, v: bool)
        ensures
            final(self).output() == old(self).output() + bool_text(v),
            final(self).formatter() == old(self).formatter(),
    {
        self.formatter.write_bool(&mut self.write, v)
    }

    /// Writes `null`: for a unit, a unit struct and `None`.
    pub fn serialize_unit(&mut self)
        ensures
            final(self).output() == old(self).output() + null_text(),
            final(self).formatter() == old(self).formatter(),
    {
        self.formatter.write_null(&mut self.write)
    }

    pub fn serialize_number<N: ToNumberRepresentation>(&mut self, v: N)
        ensures
            final(self).output() == old(self).output() + v.representation(),
            final(self).formatter() == old(self).formatter(),
    {
        self.formatter.write_number(&mut self.write, v)
    }

    pub fn serialize_str(&mut self, v: &str)
        ensures
            final(self).output() == old(self).output() + quoted(v.spec_bytes()),
            final(self).formatter() == old(self).formatter(),
    {
        self.formatter.write_str(&mut self.write, v)
    }
}

impl<F: JsoncFormatter> JsoncSerializer<F> {
    /// Writes the start of an array.
    pub fn write_array_start(&mut self)
        requires
            old(self).formatter().room() > 0,
        ensures
            final(self).output() == old(self).output() + old(self).formatter().text(FormatEvent::ArrayStart),
            final(self).formatter() == old(self).formatter().next(FormatEvent::ArrayStart),
            final(self).formatter().room() + 1 >= old(self).formatter().room(),
    {
        self.formatter.write_array_start(&mut self.write)
    }

    /// Writes what comes before an element.
    pub fn write_array_value_start(&mut self, index: usize, len: Option<usize>)
        ensures
            final(self).output() == old(self).output() + old(self).formatter().text(FormatEvent::ArrayValueStart { index, len }),
            final(self).formatter() == old(self).formatter().next(FormatEvent::ArrayValueStart { index, len }),
            final(self).formatter().room() >= old(self).formatter().room(),
    {
        self.formatter.write_array_value_start(&mut self.write, index, len)
    }

    /// Writes what comes after an element.
    pub fn write_array_value_end(&mut self, index: usize, len: Option<usize>)
        ensures
            final(self).output() == old(self).output() + old(self).formatter().text(FormatEvent::ArrayValueEnd { index, len }),
            final(self).formatter() == old(self).formatter().next(FormatEvent::ArrayValueEnd { index, len }),
            final(self).formatter().room() >= old(self).formatter().room(),
    {
        self.formatter.write_array_value_end(&mut self.write, index, len)
    }

    /// Writes the end of an array.
    pub fn write_array_end(&mut self)
        requires
            old(self).formatter().can_close(),
        ensures
            final(self).output() == old(self).output() + old(self).formatter().text(FormatEvent::ArrayEnd),
            final(self).formatter() == old(self).formatter().next(FormatEvent::ArrayEnd),
            final(self).formatter().room() >= old(self).formatter().room(),
    {
        self.formatter.write_array_end(&mut self.write)
    }

    /// Writes the start of an object.
    pub fn write_object_start(&mut self)
        requires
            old(self).formatter().room() > 0,
        ensures
            final(self).output() == old(self).output() + old(self).formatter().text(FormatEvent::ObjectStart),
            final(self).formatter() == old(self).formatter().next(FormatEvent::ObjectStart),
            final(self).formatter().room() + 1 >= old(self).formatter().room(),
    {
        self.formatter.write_object_start(&mut self.write)
    }

    /// Writes what comes before a key.
    pub fn write_object_key_start(&mut self, index: usize, len: Option<usize>)
        ensures
            final(self).output() == old(self).output() + old(self).formatter().text(FormatEvent::ObjectKeyStart { index, len }),
            final(self).formatter() == old(self).formatter().next(FormatEvent::ObjectKeyStart { index, len }),
            final(self).formatter().room() >= old(self).formatter().room(),
    {
        self.formatter.write_object_key_start(&mut self.write, index, len)
    }

    /// Writes the colon between a key and its value.
    pub fn write_object_key_end(&mut self, index: usize, len: Option<usize>)
        ensures
            final(self).output() == old(self).output().push(COLON),
            final(self).formatter() == old(self).formatter(),
    {
        self.formatter.write_object_key_end(&mut self.write, index, len)
    }

    /// Writes what comes between the colon and the value.
    pub fn write_object_value_start(&mut self, index: usize, len: Option<usize>)
        ensures
            final(self).output() == old(self).output() + old(self).formatter().text(FormatEvent::ObjectValueStart { index, len }),
            final(self).formatter() == old(self).formatter().next(FormatEvent::ObjectValueStart { index, len }),
            final(self).formatter().room() >= old(self).formatter().room(),
    {
        self.formatter.write_object_value_start(&mut self.write, index, len)
    }

    /// Writes what comes after a member.
    pub fn write_object_value_end(&mut self, index: usize, len: Option<usize>)
        ensures
            final(self).output() == old(self).output() + old(self).formatter().text(FormatEvent::ObjectValueEnd { index, len }),
            final(self).formatter() == old(self).formatter().next(FormatEvent::ObjectValueEnd { index, len }),
            final(self).formatter().room() >= old(self).formatter().room(),
    {
        self.formatter.write_object_value_end(&mut self.write, index, len)
    }

    /// Writes the end of an object.
    pub fn write_object_end(&mut self)
        requires
            old(self).formatter().can_close(),
        ensures
            final(self).output() == old(self).output() + old(self).formatter().text(FormatEvent::ObjectEnd),
            final(self).formatter() == old(self).formatter().next(FormatEvent::ObjectEnd),
            final(self).formatter().room() >= old(self).formatter().room(),
    {
        self.formatter.write_object_end(&mut self.write)
    }
}

impl JsoncSerializer<MinifyFormatter> {
    /// Writes a value in the compact layout.
    pub fn serialize_value(&mut self, value: &JsoncValue)
        ensures
            final(self).output() == old(self).output() + minify_text(value.model()),
        decreases value,
    {
        proof {
            value.lemma_model();
        }
        match value {
            JsoncValue::Null => self.formatter.write_null(&mut self.write),
            JsoncValue::Bool(b) => self.formatter.write_bool(&mut self.write, *b),
            JsoncValue::Number(Number::Integer(i)) => self.formatter.write_number(&mut self.write, *i),
            JsoncValue::Number(Number::Float(f)) => self.formatter.write_number(&mut self.write, f.clone()),
            JsoncValue::String(s) => self.formatter.write_str(&mut self.write, s.as_str()),
            JsoncValue::Array(a) => {
                let ghost vm = values_model(a@);
                self.formatter.write_array_start(&mut self.write);
                let len = a.len();
                let mut i: usize = 0;
                while i < len
                    invariant
                        len == a@.len(),
                        vm == values_model(a@),
                        *value == JsoncValue::Array(*a),
                        i <= len,
                        old(self).write@ + seq![LEFT_BRACKET] + minify_items(vm, 0) == self.write@ + minify_items(
                            vm,
                            i as int,
                        ),
                    decreases len - i,
                {
                    let ghost w0 = self.write@;
                    self.formatter.write_array_value_start(&mut self.write, i, Some(len));
                    proof {
                        lemma_element_decreases(*value, i as int);
                    }
                    self.serialize_value(&a[i]);
                    self.formatter.write_array_value_end(&mut self.write, i, Some(len));
                    assert(w0 + minify_items(vm, i as int) =~= self.write@ + minify_items(vm, i + 1));
                    i = i + 1;
                }
                self.formatter.write_array_end(&mut self.write);
                assert(self.write@ =~= old(self).write@ + minify_text(value.model()));
            },
            JsoncValue::Object(m) => {
                let ghost mm = members_model(m@);
                self.formatter.write_object_start(&mut self.write);
                let entries = m.entries();
                let len = entries.len();
                let mut i: usize = 0;
                while i < len
                    invariant
                        len == m@.len(),
                        entries@.len() == m@.len(),
                        forall|k: int|
                            0 <= k < entries@.len() ==> (#[trigger] entries@[k]).0@ == m@[k].0 && entries@[k].1
                                == m@[k].1,
                        mm == members_model(m@),
                        *value == JsoncValue::Object(*m),
                        i <= len,
                        old(self).write@ + seq![LEFT_BRACE] + minify_members(mm, 0) == self.write@
                            + minify_members(mm, i as int),
                    decreases len - i,
                {
                    let ghost w0 = self.write@;
                    self.formatter.write_object_key_start(&mut self.write, i, Some(len));
                    self.formatter.write_str(&mut self.write, entries[i].0.as_str());
                    self.formatter.write_object_key_end(&mut self.write, i, Some(len));
                    self.formatter.write_object_value_start(&mut self.write, i, Some(len));
                    proof {
                        lemma_member_decreases(*value, i as int);
                    }
                    self.serialize_value(&entries[i].1);
                    self.formatter.write_object_value_end(&mut self.write, i, Some(len));
                    assert(w0 + minify_members(mm, i as int) =~= self.write@ + minify_members(mm, i + 1));
                    i = i + 1;
                }
                self.formatter.write_object_end(&mut self.write);
                assert(self.write@ =~= old(self).write@ + minify_text(value.model()));
            },
        }
    }
}

impl JsoncSerializer<PrettyFormatter> {
    /// Writes a value in the pretty layout, at the formatter's nesting level.
    pub fn serialize_value(&mut self, value: &JsoncValue)
        requires
            2 * (old(self).formatter().level() + depth(value.model())) <= usize::MAX,
        ensures
            final(self).output() == old(self).output() + pretty_text(value.model(), old(self).formatter().level()),
            final(self).formatter().level() == old(self).formatter().level(),
        decreases value,
    {
        proof {
            value.lemma_model();
        }
        let ghost level = self.formatter.level();
        match value {
            JsoncValue::Null => self.formatter.write_null(&mut self.write),
            JsoncValue::Bool(b) => self.formatter.write_bool(&mut self.write, *b),
            JsoncValue::Number(Number::Integer(i)) => self.formatter.write_number(&mut self.write, *i),
            JsoncValue::Number(Number::Float(f)) => self.formatter.write_number(&mut self.write, f.clone()),
            JsoncValue::String(s) => self.formatter.write_str(&mut self.write, s.as_str()),
            JsoncValue::Array(a) => {
                let ghost vm = values_model(a@);
                self.formatter.write_array_start(&mut self.write);
                let len = a.len();
                let mut i: usize = 0;
                while i < len
                    invariant
                        len == a@.len(),
                        vm == values_model(a@),
                        *value == JsoncValue::Array(*a),
                        i <= len,
                        self.formatter.level() == level + 1,
                        2 * (level + 1 + items_depth(vm, 0)) <= usize::MAX,
                        items_depth(vm, i as int) <= items_depth(vm, 0),
                        old(self).write@ + seq![LEFT_BRACKET, LINE_FEED] + pretty_items(vm, 0, level + 1) == self.write@
                            + pretty_items(vm, i as int, level + 1),
                    decreases len - i,
                {
                    let ghost w0 = self.write@;
                    proof {
                        self.formatter.lemma_indentation();
                    }
                    self.formatter.write_array_value_start(&mut self.write, i, Some(len));
                    proof {
                        lemma_element_decreases(*value, i as int);
                    }
                    self.serialize_value(&a[i]);
                    self.formatter.write_array_value_end(&mut self.write, i, Some(len));
                    assert(w0 + pretty_items(vm, i as int, level + 1) =~= self.write@ + pretty_items(
                        vm,
                        i + 1,
                        level + 1,
                    ));
                    i = i + 1;
                }
                self.formatter.write_array_end(&mut self.write);
                assert(self.write@ =~= old(self).write@ + pretty_text(value.model(), level));
            },
            JsoncValue::Object(m) => {
                let ghost mm = members_model(m@);
                self.formatter.write_object_start(&mut self.write);
                let entries = m.entries();
                let len = entries.len();
                let mut i: usize = 0;
                while i < len
                    invariant
                        len == m@.len(),
                        entries@.len() == m@.len(),
                        forall|k: int|
                            0 <= k < entries@.len() ==> (#[trigger] entries@[k]).0@ == m@[k].0 && entries@[k].1
                                == m@[k].1,
                        mm == members_model(m@),
                        *value == JsoncValue::Object(*m),
                        i <= len,
                        self.formatter.level() == level + 1,
                        2 * (level + 1 + members_depth(mm, 0)) <= usize::MAX,
                        members_depth(mm, i as int) <= members_depth(mm, 0),
                        old(self).write@ + seq![LEFT_BRACE, LINE_FEED] + pretty_members(mm, 0, level + 1) == self.write@
                            + pretty_members(mm, i as int, level + 1),
                    decreases len - i,
                {
                    let ghost w0 = self.write@;
                    proof {
                        self.formatter.lemma_indentation();
                    }
                    self.formatter.write_object_key_start(&mut self.write, i, Some(len));
                    self.formatter.write_str(&mut self.write, entries[i].0.as_str());
                    self.formatter.write_object_key_end(&mut self.write, i, Some(len));
                    self.formatter.write_object_value_start(&mut self.write, i, Some(len));
                    proof {
                        lemma_member_decreases(*value, i as int);
                    }
                    self.serialize_value(&entries[i].1);
                    self.formatter.write_object_value_end(&mut self.write, i, Some(len));
                    assert(w0 + pretty_members(mm, i as int, level + 1) =~= self.write@ + pretty_members(
                        mm,
                        i + 1,
                        level + 1,
                    ));
                    i = i + 1;
                }
                self.formatter.write_object_end(&mut self.write);
                assert(self.write@ =~= old(self).write@ + pretty_text(value.model(), level));
            },
        }
    }
}

} // verus!
