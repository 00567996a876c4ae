//! The pretty layout: one member or element per line, indented by two spaces
//! per level, each followed by a comma.

use vstd::prelude::*;

use crate::ascii::{COMMA, LEFT_BRACE, LEFT_BRACKET, LINE_FEED, RIGHT_BRACE, RIGHT_BRACKET, SPACE};
use vstd::utf8::encode_utf8;

use crate::ascii::COLON;
use crate::ser::access::number::int_text;
use crate::ser::formatter::{bool_text, null_text, push_spaces, quoted, spaces, FormatEvent, JsoncFormatter};
use crate::value::ValueModel;

verus! {

/// Writes values one member or element per line, each line indented by two
/// spaces per level and ended by a comma.
pub struct PrettyFormatter {
    indent: usize,
}

/// What a pretty formatter writes at the end of an element or a member: a
/// comma (the last one too) and a line feed; only past a known length does it
/// write the line feed alone.
pub open spec fn pretty_value_end(index: usize, len: Option<usize>) -> Seq<u8> {
    if len matches Some(l) && index + 1 <= l {
        seq![COMMA, LINE_FEED]
    } else {
        seq![LINE_FEED]
    }
}

impl PrettyFormatter {
    /// The nesting level.
    pub closed spec fn level(&self) -> nat {
        self.indent as nat
    }

    /// The indentation of the current level, two spaces per level; nothing
    /// at a level too deep to count its spaces.
    pub closed spec fn indentation(&self) -> Seq<u8> {
        if 2 * self.level() <= usize::MAX {
            spaces(2 * self.level())
        } else {
            Seq::empty()
        }
    }

    /// The indentation of a level that can be counted.
    pub proof fn lemma_indentation(&self)
        ensures
            2 * self.level() <= usize::MAX ==> self.indentation() == spaces(2 * self.level()),
    {
    }

    pub fn new() -> (r: Self)
        ensures
            r.level() == 0,
    {
        Self { indent: 0 }
    }

    /// The indentation of the current level: two spaces per level.
    pub fn indent(&self) -> (r: Vec<u8>)
        requires
            2 * self.level() <= usize::MAX,
        ensures
            r@ == spaces(2 * self.level()),
    {
        let mut r = Vec::new();
        push_spaces(&mut r, 2 * self.indent);
        r
    }

    /// Whether the element or member at `index` is the last of `len`.
    pub fn should_write_trailing_comma(&self, index: usize, len: Option<usize>) -> (r: bool)
        ensures
            r == (len matches Some(l) && index + 1 == l),
    {
        match len {
            Some(l) => l > 0 && index == l - 1,
            None => false,
        }
    }
}

impl Default for PrettyFormatter {
    fn default() -> (r: Self)
        ensures
            r.level() == 0,
    {
        Self::new()
    }
}

impl JsoncFormatter for PrettyFormatter {
    open spec fn room(&self) -> nat {
        if self.level() < usize::MAX / 2 {
            (usize::MAX / 2 - self.level()) as nat
        } else {
            0
        }
    }

    open spec fn can_close(&self) -> bool {
        0 < self.level() && 2 * self.level() <= usize::MAX
    }

    /// A bracket or a brace and a line feed at the start; the indentation of
    /// the level before each element and each key; a space after a colon; a
    /// comma and a line feed after each element and each member; the
    /// indentation of the level outside and a bracket or a brace at the end.
    closed spec fn text(&self, event: FormatEvent) -> Seq<u8> {
        match event {
            FormatEvent::ArrayStart => seq![LEFT_BRACKET, LINE_FEED],
            FormatEvent::ArrayValueStart { .. } => self.indentation(),
            FormatEvent::ArrayValueEnd { index, len } => pretty_value_end(index, len),
            FormatEvent::ArrayEnd => spaces(2 * (self.level() - 1) as nat).push(RIGHT_BRACKET),
            FormatEvent::ObjectStart => seq![LEFT_BRACE, LINE_FEED],
            FormatEvent::ObjectKeyStart { .. } => self.indentation(),
            FormatEvent::ObjectValueStart { .. } => seq![SPACE],
            FormatEvent::ObjectValueEnd { index, len } => pretty_value_end(index, len),
            FormatEvent::ObjectEnd => spaces(2 * (self.level() - 1) as nat).push(RIGHT_BRACE),
        }
    }

    /// One level deeper after a start, one level out after an end.
    closed spec fn next(&self, event: FormatEvent) -> PrettyFormatter {
        match event {
            FormatEvent::ArrayStart | FormatEvent::ObjectStart => PrettyFormatter { indent: (self.indent + 1) as usize },
            FormatEvent::ArrayEnd | FormatEvent::ObjectEnd => PrettyFormatter { indent: (self.indent - 1) as usize },
            _ => *self,
        }
    }

    fn room_left(&self) -> (r: usize) {
        if self.indent < usize::MAX / 2 {
            usize::MAX / 2 - self.indent
        } else {
            0
        }
    }

    fn can_close_now(&self) -> (r: bool) {
        0 < self.indent && self.indent <= usize::MAX / 2
    }

    fn can_close_after_value(&self, index: usize, len: Option<usize>) -> (r: bool) {
        0 < self.indent && self.indent <= usize::MAX / 2
    }

    fn write_array_start(&mut self, write: &mut Vec<u8>)
        ensures
            final(write)@ == old(write)@ + seq![LEFT_BRACKET, LINE_FEED],
            final(self).level() == old(self).level() + 1,
    {
        write.push(LEFT_BRACKET);
        self.indent = self.indent + 1;
        write.push(LINE_FEED);
        assert(final(write)@ =~= old(write)@ + seq![LEFT_BRACKET, LINE_FEED]);
    }

    fn write_array_value_start(&mut self, write: &mut Vec<u8>, index: usize, len: Option<usize>)
        ensures
            final(write)@ == old(write)@ + old(self).indentation(),
            final(self).level() == old(self).level(),
    {
        if self.indent <= usize::MAX / 2 {
            push_spaces(write, 2 * self.indent);
        }
        assert(final(write)@ =~= old(write)@ + old(self).indentation());
    }

    fn write_array_value_end(&mut self, write: &mut Vec<u8>, index: usize, len: Option<usize>)
        ensures
            final(write)@ == old(write)@ + pretty_value_end(index, len),
            final(self).level() == old(self).level(),
    {
        let comma = match len {
            Some(l) => l > 0 && index < l - 1,
            None => false,
        };
        if comma {
            write.push(COMMA);
        }
        if self.should_write_trailing_comma(index, len) {
            write.push(COMMA);
            write.push(LINE_FEED);
        } else {
            write.push(LINE_FEED);
        }
        assert(final(write)@ =~= old(write)@ + pretty_value_end(index, len));
    }

    fn write_array_end(&mut self, write: &mut Vec<u8>)
        ensures
            final(write)@ == old(write)@ + spaces(2 * (old(self).level() - 1) as nat).push(RIGHT_BRACKET),
            final(self).level() == old(self).level() - 1,
    {
        self.indent = self.indent - 1;
        push_spaces(write, 2 * self.indent);
        write.push(RIGHT_BRACKET);
        assert(final(write)@ =~= old(write)@ + spaces(2 * (old(self).level() - 1) as nat).push(RIGHT_BRACKET));
    }

    fn write_object_start(&mut self, write: &mut Vec<u8>)
        ensures
            final(write)@ == old(write)@ + seq![LEFT_BRACE, LINE_FEED],
            final(self).level() == old(self).level() + 1,
    {
        write.push(LEFT_BRACE);
        self.indent = self.indent + 1;
        write.push(LINE_FEED);
        assert(final(write)@ =~= old(write)@ + seq![LEFT_BRACE, LINE_FEED]);
    }

    fn write_object_key_start(&mut self, write: &mut Vec<u8>, index: usize, len: Option<usize>)
        ensures
            final(write)@ == old(write)@ + old(self).indentation(),
            final(self).level() == old(self).level(),
    {
        if self.indent <= usize::MAX / 2 {
            push_spaces(write, 2 * self.indent);
        }
        assert(final(write)@ =~= old(write)@ + old(self).indentation());
    }

    fn write_object_value_start(&mut self, write: &mut Vec<u8>, index: usize, len: Option<usize>)
        ensures
            final(write)@ == old(write)@.push(SPACE),
            final(self).level() == old(self).level(),
    {
        write.push(SPACE);
        assert(final(write)@ =~= old(write)@ + seq![SPACE]);
    }

    fn write_object_value_end(&mut self, write: &mut Vec<u8>, index: usize, len: Option<usize>)
        ensures
            final(write)@ == old(write)@ + pretty_value_end(index, len),
            final(self).level() == old(self).level(),
    {
        let comma = match len {
            Some(l) => l > 0 && index < l - 1,
            None => false,
        };
        if comma {
            write.push(COMMA);
        }
        if self.should_write_trailing_comma(index, len) {
            write.push(COMMA);
            write.push(LINE_FEED);
        } else {
            write.push(LINE_FEED);
        }
        assert(final(write)@ =~= old(write)@ + pretty_value_end(index, len));
    }

    fn write_object_end(&mut self, write: &mut Vec<u8>)
        ensures
            final(write)@ == old(write)@ + spaces(2 * (old(self).level() - 1) as nat).push(RIGHT_BRACE),
            final(self).level() == old(self).level() - 1,
    {
        self.indent = self.indent - 1;
        push_spaces(write, 2 * self.indent);
        write.push(RIGHT_BRACE);
        assert(final(write)@ =~= old(write)@ + spaces(2 * (old(self).level() - 1) as nat).push(RIGHT_BRACE));
    }
}

/// How many arrays and objects the events leave open: one more after each
/// start, one fewer after each end.
pub open spec fn open_depth(events: Seq<FormatEvent>) -> int
    decreases events.len(),
{
    if events.len() == 0 {
        0
    } else {
        open_depth(events.drop_last()) + match events.last() {
            FormatEvent::ArrayStart | FormatEvent::ObjectStart => 1int,
            FormatEvent::ArrayEnd | FormatEvent::ObjectEnd => -1int,
            _ => 0int,
        }
    }
}

/// The formatter after the events, each taken as the `write_*` method for it
/// takes it (`next`).
pub open spec fn after_events(f: PrettyFormatter, events: Seq<FormatEvent>) -> PrettyFormatter
    decreases events.len(),
{
    if events.len() == 0 {
        f
    } else {
        after_events(f, events.drop_last()).next(events.last())
    }
}

/// A new formatter taken through events that never close more than they
/// opened (and open fewer than a `usize` can count in spaces) is at the level
/// of the arrays and objects left open, and indents by two spaces for each.
pub proof fn lemma_level_counts_open(f: PrettyFormatter, events: Seq<FormatEvent>)
    requires
        f.level() == 0,
        forall|k: int| 0 <= k <= events.len() ==> 0 <= #[trigger] open_depth(events.take(k)) < usize::MAX / 2,
    ensures
        after_events(f, events).level() == open_depth(events),
        after_events(f, events).indentation() == spaces(2 * open_depth(events) as nat),
    decreases events.len(),
{
    if events.len() > 0 {
        let fewer = events.drop_last();
        assert forall|k: int| 0 <= k <= fewer.len() implies 0 <= #[trigger] open_depth(fewer.take(k)) < usize::MAX / 2 by {
            assert(fewer.take(k) =~= events.take(k));
            assert(0 <= open_depth(events.take(k)) < usize::MAX / 2);
        }
        lemma_level_counts_open(f, fewer);
        assert(events.take(events.len() as int) =~= events);
        assert(events.take(fewer.len() as int) =~= fewer);
        assert(0 <= open_depth(events.take(events.len() as int)) < usize::MAX / 2);
        assert(0 <= open_depth(events.take(fewer.len() as int)) < usize::MAX / 2);
    } else {
        assert(events.take(0) =~= events);
        assert(0 <= open_depth(events.take(0)) < usize::MAX / 2);
    }
}

/// The pretty text of a value written at nesting level `level`.
pub open spec fn pretty_text(v: ValueModel, level: nat) -> Seq<u8>
    decreases v, 0int,
{
    match v {
        ValueModel::Null => null_text(),
        ValueModel::Bool(b) => bool_text(b),
        ValueModel::Integer(i) => int_text(i),
        ValueModel::Float(t) => encode_utf8(t),
        ValueModel::String(t) => quoted(encode_utf8(t)),
        ValueModel::Array(a) => seq![LEFT_BRACKET, LINE_FEED] + pretty_items(a, 0, level + 1) + spaces(
            2 * level,
        ).push(RIGHT_BRACKET),
        ValueModel::Object(m) => seq![LEFT_BRACE, LINE_FEED] + pretty_members(m, 0, level + 1) + spaces(
            2 * level,
        ).push(RIGHT_BRACE),
    }
}

/// The elements from `i` on, one per line at level `level`, each with a comma.
pub open spec fn pretty_items(a: Seq<ValueModel>, i: int, level: nat) -> Seq<u8>
    decreases a, a.len() - i,
{
    if 0 <= i < a.len() {
        proof {
            assert(decreases_to!(a => a[i]));
        }
        spaces(2 * level) + pretty_text(a[i], level) + seq![COMMA, LINE_FEED] + pretty_items(a, i + 1, level)
    } else {
        Seq::empty()
    }
}

/// The members from `i` on, one per line at level `level`, each with a comma.
pub open spec fn pretty_members(m: Seq<(Seq<char>, ValueModel)>, i: int, level: nat) -> Seq<u8>
    decreases m, m.len() - i,
{
    if 0 <= i < m.len() {
        proof {
            assert(decreases_to!(m => m[i]));
        }
        spaces(2 * level) + quoted(encode_utf8(m[i].0)) + seq![COLON, SPACE] + pretty_text(m[i].1, level) + seq![
            COMMA,
            LINE_FEED,
        ] + pretty_members(m, i + 1, level)
    } else {
        Seq::empty()
    }
}
} // verus!
