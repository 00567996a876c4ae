//! Picking values out of another: a member of an object by its key, an
//! element of an array by its position, a run of elements by a range.

use vstd::prelude::*;

use vstd::slice::slice_subrange;

use crate::value::{key_index, lemma_key_index, lemma_key_index_same_keys, JsoncValue};

verus! {

/// What can pick values out of another: a key picks a member of an object,
/// a position picks an element of an array, a range picks a run of elements
/// of an array.
pub trait JsoncIndex: Sized {
    /// What is picked: one value, or a slice of elements.
    type Output: ?Sized;

    /// The values that `self` picks out of `value`, in order, if it picks
    /// anything there: one for a key or a position, the run for a range.
    spec fn picked(self, value: JsoncValue) -> Option<Seq<JsoncValue>>;

    /// The values that what is picked holds, in order.
    spec fn held(out: &Self::Output) -> Seq<JsoncValue>;

    /// What `self` picks out of `value`.
    fn get(self, value: &JsoncValue) -> (r: Option<&Self::Output>)
        ensures
            r is Some <==> self.picked(*value) is Some,
            r matches Some(v) ==> self.picked(*value) == Some(Self::held(v)),
    ;

    /// Whether `after` is `before` with the values that `self` picks replaced
    /// by `new`, all else as it was.
    spec fn replaced(self, before: JsoncValue, after: JsoncValue, new: Seq<JsoncValue>) -> bool;

    /// What a read gives back of a write: where `after` is `before` with the
    /// values that `self` picks replaced by as many values `new`, `self` picks
    /// `new` out of `after`.
    proof fn lemma_replaced_then_picked(self, before: JsoncValue, after: JsoncValue, new: Seq<JsoncValue>)
        requires
            self.replaced(before, after, new),
            self.picked(before) matches Some(p) && p.len() == new.len(),
        ensures
            self.picked(after) == Some(new),
    ;

    /// What `self` picks out of `value`, to change in place.
    fn get_mut(self, value: &mut JsoncValue) -> (r: Option<&mut Self::Output>)
        ensures
            r is Some <==> self.picked(*old(value)) is Some,
            r matches Some(v) ==> self.picked(*old(value)) == Some(Self::held(v)),
            r is Some ==> self.replaced(*old(value), *final(value), Self::held(final(r.unwrap()))),
            r is None ==> *final(value) == *old(value),
    ;
}

impl<'a> JsoncIndex for &'a str {
    type Output = JsoncValue;

    /// The member with this key, when `value` is an object that has one.
    open spec fn picked(self, value: JsoncValue) -> Option<Seq<JsoncValue>> {
        match value {
            JsoncValue::Object(m) => if key_index(m@, self@) >= 0 {
                Some(seq![m@[key_index(m@, self@)].1])
            } else {
                None
            },
            _ => None,
        }
    }

    open spec fn held(out: &JsoncValue) -> Seq<JsoncValue> {
        seq![*out]
    }

    fn get(self, value: &JsoncValue) -> (r: Option<&JsoncValue>) {
        match value {
            JsoncValue::Object(m) => m.get(self),
            _ => None,
        }
    }

    /// The object keeps its members in order; the one with this key gets the
    /// one value of `new` as its value.
    open spec fn replaced(self, before: JsoncValue, after: JsoncValue, new: Seq<JsoncValue>) -> bool {
        &&& before matches JsoncValue::Object(m)
        &&& after matches JsoncValue::Object(n)
        &&& key_index(m@, self@) >= 0
        &&& new.len() == 1
        &&& n@ == m@.update(key_index(m@, self@), (self@, new[0]))
    }

    proof fn lemma_replaced_then_picked(self, before: JsoncValue, after: JsoncValue, new: Seq<JsoncValue>) {
        if let (JsoncValue::Object(m), JsoncValue::Object(n)) = (before, after) {
            lemma_key_index(m@, self@);
            lemma_key_index_same_keys(m@, n@, self@);
            assert(seq![new[0]] =~= new);
        }
    }

    fn get_mut(self, value: &mut JsoncValue) -> (r: Option<&mut JsoncValue>) {
        match value {
            JsoncValue::Object(m) => m.get_mut(self),
            _ => None,
        }
    }
}

impl JsoncIndex for usize {
    type Output = JsoncValue;

    /// The element at this position, when `value` is an array that long.
    open spec fn picked(self, value: JsoncValue) -> Option<Seq<JsoncValue>> {
        match value {
            JsoncValue::Array(a) => if self < a@.len() {
                Some(seq![a@[self as int]])
            } else {
                None
            },
            _ => None,
        }
    }

    open spec fn held(out: &JsoncValue) -> Seq<JsoncValue> {
        seq![*out]
    }

    fn get(self, value: &JsoncValue) -> (r: Option<&JsoncValue>) {
        match value {
            JsoncValue::Array(a) => {
                if self < a.len() {
                    Some(&a[self])
                } else {
                    None
                }
            },
            _ => None,
        }
    }

    /// The array keeps its elements; the one at this position becomes the
    /// one value of `new`.
    open spec fn replaced(self, before: JsoncValue, after: JsoncValue, new: Seq<JsoncValue>) -> bool {
        &&& before matches JsoncValue::Array(a)
        &&& after matches JsoncValue::Array(b)
        &&& self < a@.len()
        &&& new.len() == 1
        &&& b@ == a@.update(self as int, new[0])
    }

    proof fn lemma_replaced_then_picked(self, before: JsoncValue, after: JsoncValue, new: Seq<JsoncValue>) {
        assert(seq![new[0]] =~= new);
    }

    fn get_mut(self, value: &mut JsoncValue) -> (r: Option<&mut JsoncValue>) {
        match value {
            JsoncValue::Array(a) => {
                if self < a.len() {
                    Some(&mut a[self])
                } else {
                    None
                }
            },
            _ => None,
        }
    }
}

impl JsoncIndex for std::ops::Range<usize> {
    type Output = [JsoncValue];

    /// The elements from `start` up to `end`, when `value` is an array that
    /// long and the range does not run backwards.
    open spec fn picked(self, value: JsoncValue) -> Option<Seq<JsoncValue>> {
        match value {
            JsoncValue::Array(a) => if self.start <= self.end <= a@.len() {
                Some(a@.subrange(self.start as int, self.end as int))
            } else {
                None
            },
            _ => None,
        }
    }

    open spec fn held(out: &[JsoncValue]) -> Seq<JsoncValue> {
        out@
    }

    fn get(self, value: &JsoncValue) -> (r: Option<&[JsoncValue]>) {
        match value {
            JsoncValue::Array(a) => {
                if self.start <= self.end && self.end <= a.len() {
                    Some(slice_subrange(a.as_slice(), self.start, self.end))
                } else {
                    None
                }
            },
            _ => None,
        }
    }

    /// The array keeps the elements outside the range; those inside become
    /// the values of `new`.
    open spec fn replaced(self, before: JsoncValue, after: JsoncValue, new: Seq<JsoncValue>) -> bool {
        &&& before matches JsoncValue::Array(a)
        &&& after matches JsoncValue::Array(b)
        &&& self.start <= self.end <= a@.len()
        &&& b@ == a@.subrange(0, self.start as int) + new + a@.subrange(self.end as int, a@.len() as int)
    }

    proof fn lemma_replaced_then_picked(self, before: JsoncValue, after: JsoncValue, new: Seq<JsoncValue>) {
        if let (JsoncValue::Array(a), JsoncValue::Array(b)) = (before, after) {
            assert(b@.subrange(self.start as int, self.end as int) =~= new);
        }
    }

    fn get_mut(self, value: &mut JsoncValue) -> (r: Option<&mut [JsoncValue]>) {
        match value {
            JsoncValue::Array(a) => {
                if self.start <= self.end && self.end <= a.len() {
                    let ghost before = a@;
                    let whole = a.as_mut_slice();
                    let (head, tail) = whole.split_at_mut(self.start);
                    let (run, rest) = tail.split_at_mut(self.end - self.start);
                    assert(head@ == before.subrange(0, self.start as int));
                    assert(rest@ == before.subrange(self.end as int, before.len() as int)) by {
                        assert(rest@ =~= before.subrange(self.end as int, before.len() as int));
                    }
                    proof {
                        assert(final(head)@ == before.subrange(0, self.start as int));
                        assert(final(rest)@ == before.subrange(self.end as int, before.len() as int));
                        assert(final(head)@ + (final(run)@ + final(rest)@) =~= final(head)@ + final(run)@ + final(rest)@);
                    }
                    Some(run)
                } else {
                    None
                }
            },
            _ => None,
        }
    }
}

impl JsoncValue {
    /// The member of an object with a key, the element of an array at a
    /// position, or the elements of an array in a range; `None` where there
    /// is none.
    pub fn get<I: JsoncIndex>(&self, index: I) -> (r: Option<&I::Output>)
        ensures
            r is Some <==> index.picked(*self) is Some,
            r matches Some(v) ==> index.picked(*self) == Some(I::held(v)),
    {
        index.get(self)
    }

    /// The member of an object with a key, the element of an array at a
    /// position, or the elements of an array in a range, to change in place;
    /// `None` where there is none.
    pub fn get_mut<I: JsoncIndex>(&mut self, index: I) -> (r: Option<&mut I::Output>)
        ensures
            r is Some <==> index.picked(*old(self)) is Some,
            r matches Some(v) ==> index.picked(*old(self)) == Some(I::held(v)),
            r is Some ==> index.replaced(*old(self), *final(self), I::held(final(r.unwrap()))),
            r is None ==> *final(self) == *old(self),
    {
        index.get_mut(self)
    }
}

} // verus!
