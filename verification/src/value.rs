//! Values of JSON with comments.

pub mod de;
pub mod from;
pub mod index;
pub mod number;
pub mod ser;

use vstd::prelude::*;

use vstd::string::StringSliceAdditionalSpecFns;
use vstd::utf8::encode_utf8;

use crate::de::access::number::{parse_integer, unsigned_value};
use crate::utf8::{split_dots, split_on, str_eq, string_as_mut_str};
use crate::value::number::Number;

verus! {

/// What a value is, mathematically: an object is the list of its members in
/// the order they were first inserted, no key twice; a float is the text it
/// was written with.
pub enum ValueModel {
    Object(Seq<(Seq<char>, ValueModel)>),
    Array(Seq<ValueModel>),
    Bool(bool),
    Null,
    String(Seq<char>),
    Integer(int),
    Float(Seq<char>),
}

/// The index of the member with key `k`, or -1 when there is none.
pub open spec fn key_index<V>(m: Seq<(Seq<char>, V)>, k: Seq<char>) -> int
    decreases m.len(),
{
    if m.len() == 0 {
        -1
    } else {
        let i = key_index(m.drop_last(), k);
        if i >= 0 {
            i
        } else if m.last().0 == k {
            m.len() - 1
        } else {
            -1
        }
    }
}

/// Inserting a member: a key already there gets the new value in its place;
/// a new key goes to the end.
pub open spec fn assoc_insert<V>(m: Seq<(Seq<char>, V)>, k: Seq<char>, v: V) -> Seq<(Seq<char>, V)> {
    let i = key_index(m, k);
    if i >= 0 {
        m.update(i, (k, v))
    } else {
        m.push((k, v))
    }
}

/// No key occurs twice.
pub open spec fn keys_unique<V>(m: Seq<(Seq<char>, V)>) -> bool {
    forall|i: int, j: int| 0 <= i < j < m.len() ==> m[i].0 != m[j].0
}

pub proof fn lemma_key_index<V>(m: Seq<(Seq<char>, V)>, k: Seq<char>)
    ensures
        -1 <= key_index(m, k) < m.len(),
        key_index(m, k) >= 0 ==> m[key_index(m, k)].0 == k,
        key_index(m, k) >= 0 ==> forall|j: int| 0 <= j < key_index(m, k) ==> m[j].0 != k,
        key_index(m, k) < 0 ==> forall|j: int| 0 <= j < m.len() ==> m[j].0 != k,
    decreases m.len(),
{
    if m.len() > 0 {
        lemma_key_index(m.drop_last(), k);
        assert(forall|j: int| 0 <= j < m.len() - 1 ==> m.drop_last()[j] == m[j]);
    }
}

/// Two lists with the same keys, in order, find a key at the same index.
pub proof fn lemma_key_index_same_keys<V, W>(m: Seq<(Seq<char>, V)>, n: Seq<(Seq<char>, W)>, k: Seq<char>)
    requires
        m.len() == n.len(),
        forall|j: int| 0 <= j < m.len() ==> m[j].0 == n[j].0,
    ensures
        key_index(m, k) == key_index(n, k),
    decreases m.len(),
{
    if m.len() > 0 {
        lemma_key_index_same_keys(m.drop_last(), n.drop_last(), k);
    }
}

/// Inserting keeps the keys unique.
pub proof fn lemma_assoc_insert_unique<V>(m: Seq<(Seq<char>, V)>, k: Seq<char>, v: V)
    requires
        keys_unique(m),
    ensures
        keys_unique(assoc_insert(m, k, v)),
{
    lemma_key_index(m, k);
}

/// Changing the value of a member keeps the keys unique or not as they were.
proof fn lemma_update_value_keys_unique<V>(m: Seq<(Seq<char>, V)>, i: int)
    requires
        0 <= i < m.len(),
    ensures
        forall|v: V| #[trigger] keys_unique(m.update(i, (m[i].0, v))) == keys_unique(m),
{
    assert forall|v: V| #[trigger] keys_unique(m.update(i, (m[i].0, v))) == keys_unique(m) by {
        let n = m.update(i, (m[i].0, v));
        assert(forall|j: int| 0 <= j < m.len() ==> n[j].0 == m[j].0);
    }
}

/// The index of a key in a list that ends with one more member.
proof fn lemma_key_index_push<V>(m: Seq<(Seq<char>, V)>, e: (Seq<char>, V), k: Seq<char>)
    ensures
        key_index(m.push(e), k) == if key_index(m, k) >= 0 {
            key_index(m, k)
        } else if e.0 == k {
            m.len() as int
        } else {
            -1
        },
{
    assert(m.push(e).drop_last() =~= m);
}

/// What a read gives back of a write: after inserting `v` under `k`, the map
/// holds `v` under `k`; every other key keeps whether it is there and its
/// value; a key already there keeps its place and a new key comes last.
pub proof fn lemma_insert_then_get<V>(m: Seq<(Seq<char>, V)>, k: Seq<char>, v: V, other: Seq<char>)
    ensures
        key_index(assoc_insert(m, k, v), k) >= 0,
        assoc_insert(m, k, v)[key_index(assoc_insert(m, k, v), k)].1 == v,
        key_index(m, k) >= 0 ==> key_index(assoc_insert(m, k, v), k) == key_index(m, k) && assoc_insert(
            m,
            k,
            v,
        ).len() == m.len(),
        key_index(m, k) < 0 ==> key_index(assoc_insert(m, k, v), k) == m.len() && assoc_insert(m, k, v).len()
            == m.len() + 1,
        other != k ==> key_index(assoc_insert(m, k, v), other) == key_index(m, other),
        other != k && key_index(m, other) >= 0 ==> assoc_insert(m, k, v)[key_index(m, other)] == m[key_index(
            m,
            other,
        )],
{
    lemma_key_index(m, k);
    lemma_key_index(m, other);
    let i = key_index(m, k);
    if i >= 0 {
        lemma_key_index_same_keys(m, m.update(i, (k, v)), k);
        lemma_key_index_same_keys(m, m.update(i, (k, v)), other);
    } else {
        lemma_key_index_push(m, (k, v), k);
        lemma_key_index_push(m, (k, v), other);
    }
}

/// A map from strings to `V` that keeps its members in the order their keys
/// were first inserted.
#[derive(Debug, Clone, PartialEq)]
pub struct MapImpl<V> {
    entries: Vec<(String, V)>,
}

impl<V> View for MapImpl<V> {
    type V = Seq<(Seq<char>, V)>;

    closed spec fn view(&self) -> Seq<(Seq<char>, V)> {
        Seq::new(self.entries@.len(), |i: int| (self.entries@[i].0@, self.entries@[i].1))
    }
}

impl<V> MapImpl<V> {
    /// The keys are unique.
    pub closed spec fn wf(&self) -> bool {
        keys_unique(self@)
    }

    pub fn new() -> (r: Self)
        ensures
            r.wf(),
            r@ == Seq::<(Seq<char>, V)>::empty(),
    {
        MapImpl { entries: Vec::new() }
    }

    pub fn len(&self) -> (r: usize)
        ensures
            r == self@.len(),
    {
        self.entries.len()
    }

    pub fn is_empty(&self) -> (r: bool)
        ensures
            r == (self@.len() == 0),
    {
        self.entries.len() == 0
    }

    /// The index of the member with key `key`.
    fn find(&self, key: &str) -> (r: Option<usize>)
        ensures
            r is Some <==> key_index(self@, key@) >= 0,
            r matches Some(i) ==> i == key_index(self@, key@) && i < self.entries@.len(),
    {
        proof {
            lemma_key_index(self@, key@);
        }
        let mut i: usize = 0;
        while i < self.entries.len()
            invariant
                i <= self.entries@.len(),
                forall|j: int| 0 <= j < i ==> self@[j].0 != key@,
                -1 <= key_index(self@, key@) < self@.len(),
                key_index(self@, key@) >= 0 ==> self@[key_index(self@, key@)].0 == key@,
                key_index(self@, key@) >= 0 ==> forall|j: int|
                    0 <= j < key_index(self@, key@) ==> self@[j].0 != key@,
                key_index(self@, key@) < 0 ==> forall|j: int| 0 <= j < self@.len() ==> self@[j].0 != key@,
            decreases self.entries.len() - i,
        {
            if str_eq(self.entries[i].0.as_str(), key) {
                proof {
                    assert(self@[i as int].0 == key@);
                    if key_index(self@, key@) >= 0 && key_index(self@, key@) != i {
                        assert(self@[key_index(self@, key@)].0 == key@);
                    }
                }
                return Some(i);
            }
            i = i + 1;
        }
        None
    }

    /// The value of the member with key `key`.
    pub fn get(&self, key: &str) -> (r: Option<&V>)
        ensures
            r is Some <==> key_index(self@, key@) >= 0,
            r matches Some(v) ==> *v == self@[key_index(self@, key@)].1,
    {
        match self.find(key) {
            Some(i) => Some(&self.entries[i].1),
            None => None,
        }
    }

    /// The value of the member with key `key`, to change in place.
    pub fn get_mut(&mut self, key: &str) -> (r: Option<&mut V>)
        ensures
            r is Some <==> key_index(old(self)@, key@) >= 0,
            r matches Some(v) ==> *v == old(self)@[key_index(old(self)@, key@)].1,
            r is Some ==> final(self)@ == old(self)@.update(
                key_index(old(self)@, key@),
                (key@, *final(r.unwrap())),
            ),
            r is None ==> *final(self) == *old(self),
            final(self).wf() == old(self).wf(),
    {
        proof {
            lemma_key_index(self@, key@);
        }
        match self.find(key) {
            Some(i) => {
                proof {
                    lemma_update_value_keys_unique(self@, i as int);
                }
                let r = &mut self.entries[i].1;
                Some(r)
            },
            None => None,
        }
    }

    pub fn contains_key(&self, key: &str) -> (r: bool)
        ensures
            r == (key_index(self@, key@) >= 0),
    {
        self.find(key).is_some()
    }

    /// Inserts a member. A key already there keeps its place and gets the new
    /// value; the old value is returned.
    pub fn insert(&mut self, key: String, value: V) -> (r: Option<V>)
        ensures
            old(self).wf() ==> final(self).wf(),
            final(self)@ == assoc_insert(old(self)@, key@, value),
            r is Some <==> key_index(old(self)@, key@) >= 0,
            r matches Some(v) ==> v == old(self)@[key_index(old(self)@, key@)].1,
    {
        proof {
            if self.wf() {
                lemma_assoc_insert_unique(self@, key@, value);
            }
            lemma_key_index(self@, key@);
        }
        match self.find(key.as_str()) {
            Some(i) => {
                let ghost k = key@;
                let ghost v = value;
                let mut entry = (key, value);
                self.entries.set_and_swap(i, &mut entry);
                assert(self@ =~= assoc_insert(old(self)@, k, v));
                Some(entry.1)
            },
            None => {
                self.entries.push((key, value));
                assert(self@ =~= assoc_insert(old(self)@, key@, value));
                None
            },
        }
    }

    /// The members, in order.
    pub fn entries(&self) -> (r: &[(String, V)])
        ensures
            r@.len() == self@.len(),
            forall|i: int| 0 <= i < r@.len() ==> (#[trigger] r@[i]).0@ == self@[i].0 && r@[i].1 == self@[i].1,
    {
        self.entries.as_slice()
    }
}


/// Any value of JSON with comments. A float is kept as the text it was
/// written with.
#[derive(Debug, PartialEq)]
pub enum JsoncValue {
    Object(MapImpl<JsoncValue>),
    Array(Vec<JsoncValue>),
    Bool(bool),
    Null,
    String(String),
    Number(Number<i64, String>),
}

/// The values of a list, each taken as its model.
closed spec fn seq_model(s: Seq<JsoncValue>) -> Seq<ValueModel>
    decreases s,
{
    if s.len() == 0 {
        Seq::empty()
    } else {
        proof {
            assert(decreases_to!(s => s.drop_last()));
            assert(decreases_to!(s => s[s.len() - 1]));
        }
        seq_model(s.drop_last()).push(s[s.len() - 1].model())
    }
}

/// The members of an object, each value taken as its model.
closed spec fn entries_model(s: Seq<(String, JsoncValue)>) -> Seq<(Seq<char>, ValueModel)>
    decreases s,
{
    if s.len() == 0 {
        Seq::empty()
    } else {
        proof {
            assert(decreases_to!(s => s.drop_last()));
            assert(decreases_to!(s => s[s.len() - 1]));
        }
        entries_model(s.drop_last()).push((s[s.len() - 1].0@, s[s.len() - 1].1.model()))
    }
}

proof fn lemma_seq_model(s: Seq<JsoncValue>)
    ensures
        seq_model(s).len() == s.len(),
        forall|i: int| 0 <= i < s.len() ==> #[trigger] seq_model(s)[i] == s[i].model(),
    decreases s.len(),
{
    if s.len() > 0 {
        lemma_seq_model(s.drop_last());
        assert(forall|i: int| 0 <= i < s.len() - 1 ==> s.drop_last()[i] == s[i]);
    }
}

proof fn lemma_entries_model(s: Seq<(String, JsoncValue)>)
    ensures
        entries_model(s).len() == s.len(),
        forall|i: int|
            0 <= i < s.len() ==> #[trigger] entries_model(s)[i] == (s[i].0@, s[i].1.model()),
    decreases s.len(),
{
    if s.len() > 0 {
        lemma_entries_model(s.drop_last());
        assert(forall|i: int| 0 <= i < s.len() - 1 ==> s.drop_last()[i] == s[i]);
    }
}

impl JsoncValue {
    /// What the value is, mathematically.
    pub closed spec fn model(self) -> ValueModel
        decreases self,
    {
        match self {
            JsoncValue::Object(m) => {
                proof {
                    assert(decreases_to!(self => m));
                    assert(decreases_to!(m => m.entries));
                    assert(decreases_to!(m.entries => m.entries@));
                }
                ValueModel::Object(entries_model(m.entries@))
            },
            JsoncValue::Array(v) => {
                proof {
                    assert(decreases_to!(self => v));
                    assert(decreases_to!(v => v@));
                }
                ValueModel::Array(seq_model(v@))
            },
            JsoncValue::Bool(b) => ValueModel::Bool(b),
            JsoncValue::Null => ValueModel::Null,
            JsoncValue::String(s) => ValueModel::String(s@),
            JsoncValue::Number(Number::Integer(i)) => ValueModel::Integer(i as int),
            JsoncValue::Number(Number::Float(f)) => ValueModel::Float(f@),
        }
    }

    /// The model of a value, one level down.
    pub proof fn lemma_model(self)
        ensures
            match self {
                JsoncValue::Object(m) => self.model() == ValueModel::Object(members_model(m@)),
                JsoncValue::Array(v) => self.model() == ValueModel::Array(values_model(v@)),
                JsoncValue::Bool(b) => self.model() == ValueModel::Bool(b),
                JsoncValue::Null => self.model() == ValueModel::Null,
                JsoncValue::String(s) => self.model() == ValueModel::String(s@),
                JsoncValue::Number(Number::Integer(i)) => self.model() == ValueModel::Integer(i as int),
                JsoncValue::Number(Number::Float(f)) => self.model() == ValueModel::Float(f@),
            },
    {
        match self {
            JsoncValue::Object(m) => {
                lemma_entries_model(m.entries@);
                assert(entries_model(m.entries@) =~= members_model(m@));
            },
            JsoncValue::Array(v) => {
                lemma_seq_model(v@);
                assert(seq_model(v@) =~= values_model(v@));
            },
            _ => {},
        }
    }
}

/// The members of an object, each value taken as its model.
pub open spec fn members_model(m: Seq<(Seq<char>, JsoncValue)>) -> Seq<(Seq<char>, ValueModel)> {
    Seq::new(m.len(), |i: int| (m[i].0, m[i].1.model()))
}

/// The values of an array, each taken as its model.
pub open spec fn values_model(v: Seq<JsoncValue>) -> Seq<ValueModel> {
    Seq::new(v.len(), |i: int| v[i].model())
}

/// Inserting into an object and then taking models is taking models and then inserting.
pub proof fn lemma_members_model_insert(m: Seq<(Seq<char>, JsoncValue)>, k: Seq<char>, v: JsoncValue)
    ensures
        members_model(assoc_insert(m, k, v)) == assoc_insert(members_model(m), k, v.model()),
{
    lemma_key_index_same_keys(m, members_model(m), k);
    lemma_key_index(m, k);
    assert(members_model(assoc_insert(m, k, v)) =~= assoc_insert(members_model(m), k, v.model()));
}


/// How deeply arrays and objects nest in a value: 0 for a value that is neither.
pub open spec fn depth(v: ValueModel) -> nat
    decreases v, 0int,
{
    match v {
        ValueModel::Array(a) => 1 + items_depth(a, 0),
        ValueModel::Object(m) => 1 + members_depth(m, 0),
        _ => 0,
    }
}

/// The greatest depth of the elements from `i` on.
pub open spec fn items_depth(a: Seq<ValueModel>, i: int) -> nat
    decreases a, a.len() - i,
{
    if 0 <= i < a.len() {
        proof {
            assert(decreases_to!(a => a[i]));
        }
        let d = depth(a[i]);
        let rest = items_depth(a, i + 1);
        if d >= rest {
            d
        } else {
            rest
        }
    } else {
        0
    }
}

/// The greatest depth of the member values from `i` on.
pub open spec fn members_depth(m: Seq<(Seq<char>, ValueModel)>, i: int) -> nat
    decreases m, m.len() - i,
{
    if 0 <= i < m.len() {
        proof {
            assert(decreases_to!(m => m[i]));
        }
        let d = depth(m[i].1);
        let rest = members_depth(m, i + 1);
        if d >= rest {
            d
        } else {
            rest
        }
    } else {
        0
    }
}

/// A member's value is smaller than the object that holds it.
pub proof fn lemma_member_decreases(v: JsoncValue, i: int)
    requires
        v matches JsoncValue::Object(m) && 0 <= i < m@.len(),
    ensures
        v matches JsoncValue::Object(m) && decreases_to!(v => m@[i].1),
{
    if let JsoncValue::Object(m) = v {
        assert(decreases_to!(v => m));
        assert(decreases_to!(m => m.entries));
        assert(decreases_to!(m.entries => m.entries@));
        assert(decreases_to!(m.entries@ => m.entries@[i]));
        assert(decreases_to!(m.entries@[i] => m.entries@[i].1));
    }
}

/// An element is smaller than the array that holds it.
pub proof fn lemma_element_decreases(v: JsoncValue, i: int)
    requires
        v matches JsoncValue::Array(a) && 0 <= i < a@.len(),
    ensures
        v matches JsoncValue::Array(a) && decreases_to!(v => a@[i]),
{
    if let JsoncValue::Array(a) = v {
        assert(decreases_to!(v => a));
        assert(decreases_to!(a => a@));
        assert(decreases_to!(a@ => a@[i]));
    }
}


impl Clone for JsoncValue {
    /// A copy of the value, all the way down.
    fn clone(&self) -> (r: Self)
        ensures
            r.model() == self.model(),
        decreases self,
    {
        match self {
            JsoncValue::Object(m) => {
                let mut entries: Vec<(String, JsoncValue)> = Vec::new();
                let mut i: usize = 0;
                while i < m.entries.len()
                    invariant
                        *self == JsoncValue::Object(*m),
                        i <= m.entries@.len(),
                        entries@.len() == i,
                        forall|j: int|
                            0 <= j < i ==> (#[trigger] entries@[j]).0 == m.entries@[j].0 && entries@[j].1.model()
                                == m.entries@[j].1.model(),
                    decreases m.entries.len() - i,
                {
                    proof {
                        lemma_member_decreases(*self, i as int);
                    }
                    let key = m.entries[i].0.clone();
                    let value = m.entries[i].1.clone();
                    entries.push((key, value));
                    i = i + 1;
                }
                let r = JsoncValue::Object(MapImpl { entries });
                proof {
                    lemma_entries_model(m.entries@);
                    lemma_entries_model(entries@);
                    assert(entries_model(entries@) =~= entries_model(m.entries@));
                }
                r
            },
            JsoncValue::Array(a) => {
                let mut items: Vec<JsoncValue> = Vec::new();
                let mut i: usize = 0;
                while i < a.len()
                    invariant
                        *self == JsoncValue::Array(*a),
                        i <= a@.len(),
                        items@.len() == i,
                        forall|j: int| 0 <= j < i ==> (#[trigger] items@[j]).model() == a@[j].model(),
                    decreases a.len() - i,
                {
                    proof {
                        lemma_element_decreases(*self, i as int);
                    }
                    let value = a[i].clone();
                    items.push(value);
                    i = i + 1;
                }
                let r = JsoncValue::Array(items);
                proof {
                    lemma_seq_model(a@);
                    lemma_seq_model(items@);
                    assert(seq_model(items@) =~= seq_model(a@));
                }
                r
            },
            JsoncValue::Bool(b) => JsoncValue::Bool(*b),
            JsoncValue::Null => JsoncValue::Null,
            JsoncValue::String(s) => JsoncValue::String(s.clone()),
            JsoncValue::Number(Number::Integer(n)) => JsoncValue::Number(Number::Integer(*n)),
            JsoncValue::Number(Number::Float(f)) => JsoncValue::Number(Number::Float(f.clone())),
        }
    }
}

impl Default for JsoncValue {
    fn default() -> (r: Self)
        ensures
            r == JsoncValue::Null,
    {
        JsoncValue::Null
    }
}

/// The name of a value's kind, as `value_type` gives it.
pub open spec fn value_type_name(v: JsoncValue) -> Seq<char> {
    match v {
        JsoncValue::Object(_) => "Object"@,
        JsoncValue::Array(_) => "Array"@,
        JsoncValue::Bool(_) => "Boolean"@,
        JsoncValue::Null => "Null"@,
        JsoncValue::String(_) => "String"@,
        JsoncValue::Number(_) => "Number"@,
    }
}

impl JsoncValue {
    /// Replaces the value with `Null`, returning the previous value.
    pub fn take(&mut self) -> (r: Self)
        ensures
            r == *old(self),
            *final(self) == JsoncValue::Null,
    {
        self.replace(JsoncValue::Null)
    }

    /// Swaps the two values.
    pub fn swap(&mut self, other: &mut Self)
        ensures
            *final(self) == *old(other),
            *final(other) == *old(self),
    {
        std::mem::swap(self, other)
    }

    /// Moves `other` into the value, returning the previous value.
    pub fn replace(&mut self, other: Self) -> (r: Self)
        ensures
            r == *old(self),
            *final(self) == other,
    {
        let mut other = other;
        std::mem::swap(self, &mut other);
        other
    }

    /// The name of the value's kind: `Object`, `Array`, `Boolean`, `Null`,
    /// `String` or `Number`.
    pub fn value_type(&self) -> (r: String)
        ensures
            r@ == value_type_name(*self),
    {
        match self {
            JsoncValue::Object(_) => "Object".to_string(),
            JsoncValue::Array(_) => "Array".to_string(),
            JsoncValue::Bool(_) => "Boolean".to_string(),
            JsoncValue::Null => "Null".to_string(),
            JsoncValue::String(_) => "String".to_string(),
            JsoncValue::Number(_) => "Number".to_string(),
        }
    }

    pub fn is_object(&self) -> (r: bool)
        ensures
            r == (*self is Object),
    {
        match self {
            JsoncValue::Object(_) => true,
            _ => false,
        }
    }

    pub fn as_object(&self) -> (r: Option<&MapImpl<JsoncValue>>)
        ensures
            r == match *self {
                JsoncValue::Object(m) => Some(&m),
                _ => None::<&MapImpl<JsoncValue>>,
            },
    {
        match self {
            JsoncValue::Object(m) => Some(m),
            _ => None,
        }
    }

    pub fn as_object_mut(&mut self) -> (r: Option<&mut MapImpl<JsoncValue>>)
        ensures
            r is Some <==> *old(self) is Object,
            r matches Some(m) ==> *old(self) == JsoncValue::Object(*m) && *final(self) == JsoncValue::Object(
                *final(r.unwrap()),
            ),
            r is None ==> *final(self) == *old(self),
    {
        match self {
            JsoncValue::Object(m) => Some(m),
            _ => None,
        }
    }

    pub fn is_array(&self) -> (r: bool)
        ensures
            r == (*self is Array),
    {
        match self {
            JsoncValue::Array(_) => true,
            _ => false,
        }
    }

    pub fn as_array(&self) -> (r: Option<&Vec<JsoncValue>>)
        ensures
            r == match *self {
                JsoncValue::Array(a) => Some(&a),
                _ => None::<&Vec<JsoncValue>>,
            },
    {
        match self {
            JsoncValue::Array(a) => Some(a),
            _ => None,
        }
    }

    pub fn as_array_mut(&mut self) -> (r: Option<&mut Vec<JsoncValue>>)
        ensures
            r is Some <==> *old(self) is Array,
            r matches Some(a) ==> *old(self) == JsoncValue::Array(*a) && *final(self) == JsoncValue::Array(
                *final(r.unwrap()),
            ),
            r is None ==> *final(self) == *old(self),
    {
        match self {
            JsoncValue::Array(a) => Some(a),
            _ => None,
        }
    }

    pub fn is_bool(&self) -> (r: bool)
        ensures
            r == (*self is Bool),
    {
        match self {
            JsoncValue::Bool(_) => true,
            _ => false,
        }
    }

    pub fn as_bool(&self) -> (r: Option<&bool>)
        ensures
            r == match *self {
                JsoncValue::Bool(b) => Some(&b),
                _ => None::<&bool>,
            },
    {
        match self {
            JsoncValue::Bool(b) => Some(b),
            _ => None,
        }
    }

    pub fn as_bool_mut(&mut self) -> (r: Option<&mut bool>)
        ensures
            r is Some <==> *old(self) is Bool,
            r matches Some(b) ==> *old(self) == JsoncValue::Bool(*b) && *final(self) == JsoncValue::Bool(
                *final(r.unwrap()),
            ),
            r is None ==> *final(self) == *old(self),
    {
        match self {
            JsoncValue::Bool(b) => Some(b),
            _ => None,
        }
    }

    pub fn is_null(&self) -> (r: bool)
        ensures
            r == (*self is Null),
    {
        match self {
            JsoncValue::Null => true,
            _ => false,
        }
    }

    pub fn as_null(&self) -> (r: Option<()>)
        ensures
            r is Some <==> *self is Null,
    {
        match self {
            JsoncValue::Null => Some(()),
            _ => None,
        }
    }

    pub fn is_string(&self) -> (r: bool)
        ensures
            r == (*self is String),
    {
        match self {
            JsoncValue::String(_) => true,
            _ => false,
        }
    }

    pub fn as_str(&self) -> (r: Option<&str>)
        ensures
            r is Some <==> *self is String,
            r matches Some(s) ==> *self matches JsoncValue::String(t) && s@ == t@,
    {
        match self {
            JsoncValue::String(s) => Some(s.as_str()),
            _ => None,
        }
    }

    pub fn as_str_mut(&mut self) -> (r: Option<&mut str>)
        ensures
            r is Some <==> *old(self) is String,
            r matches Some(t) ==> (*old(self) matches JsoncValue::String(s) && t@ == s@),
            r is Some ==> (*final(self) matches JsoncValue::String(u) && u@ == final(r.unwrap())@),
            r is None ==> *final(self) == *old(self),
    {
        match self {
            JsoncValue::String(s) => Some(string_as_mut_str(s)),
            _ => None,
        }
    }

    pub fn is_number(&self) -> (r: bool)
        ensures
            r == (*self is Number),
    {
        match self {
            JsoncValue::Number(_) => true,
            _ => false,
        }
    }

    pub fn as_number(&self) -> (r: Option<&Number<i64, String>>)
        ensures
            r == match *self {
                JsoncValue::Number(n) => Some(&n),
                _ => None::<&Number<i64, String>>,
            },
    {
        match self {
            JsoncValue::Number(n) => Some(n),
            _ => None,
        }
    }

    pub fn as_number_mut(&mut self) -> (r: Option<&mut Number<i64, String>>)
        ensures
            r is Some <==> *old(self) is Number,
            r matches Some(n) ==> *old(self) == JsoncValue::Number(*n) && *final(self) == JsoncValue::Number(
                *final(r.unwrap()),
            ),
            r is None ==> *final(self) == *old(self),
    {
        match self {
            JsoncValue::Number(n) => Some(n),
            _ => None,
        }
    }

    pub fn is_integer(&self) -> (r: bool)
        ensures
            r == (*self matches JsoncValue::Number(Number::Integer(_))),
    {
        match self {
            JsoncValue::Number(Number::Integer(_)) => true,
            _ => false,
        }
    }

    pub fn as_integer(&self) -> (r: Option<&i64>)
        ensures
            r == match *self {
                JsoncValue::Number(Number::Integer(i)) => Some(&i),
                _ => None::<&i64>,
            },
    {
        match self {
            JsoncValue::Number(Number::Integer(i)) => Some(i),
            _ => None,
        }
    }

    pub fn as_integer_mut(&mut self) -> (r: Option<&mut i64>)
        ensures
            r is Some <==> *old(self) matches JsoncValue::Number(Number::Integer(_)),
            r matches Some(i) ==> *old(self) == JsoncValue::Number(Number::Integer(*i)) && *final(self)
                == JsoncValue::Number(Number::Integer(*final(r.unwrap()))),
            r is None ==> *final(self) == *old(self),
    {
        match self {
            JsoncValue::Number(Number::Integer(i)) => Some(i),
            _ => None,
        }
    }

    pub fn is_float(&self) -> (r: bool)
        ensures
            r == (*self matches JsoncValue::Number(Number::Float(_))),
    {
        match self {
            JsoncValue::Number(Number::Float(_)) => true,
            _ => false,
        }
    }

    /// The text of a float.
    pub fn as_float(&self) -> (r: Option<&String>)
        ensures
            r == match *self {
                JsoncValue::Number(Number::Float(f)) => Some(&f),
                _ => None::<&String>,
            },
    {
        match self {
            JsoncValue::Number(Number::Float(f)) => Some(f),
            _ => None,
        }
    }

    /// The text of a float, to change.
    pub fn as_float_mut(&mut self) -> (r: Option<&mut String>)
        ensures
            r is Some <==> *old(self) matches JsoncValue::Number(Number::Float(_)),
            r matches Some(f) ==> *old(self) == JsoncValue::Number(Number::Float(*f)) && *final(self)
                == JsoncValue::Number(Number::Float(*final(r.unwrap()))),
            r is None ==> *final(self) == *old(self),
    {
        match self {
            JsoncValue::Number(Number::Float(f)) => Some(f),
            _ => None,
        }
    }
}

/// One step of a query: the member with key `seg` of an object, or the
/// element of an array at the index that `seg` spells in decimal.
pub open spec fn query_step(v: JsoncValue, seg: Seq<char>) -> Option<JsoncValue> {
    match v {
        JsoncValue::Object(m) => if key_index(m@, seg) >= 0 {
            Some(m@[key_index(m@, seg)].1)
        } else {
            None
        },
        JsoncValue::Array(a) => match parse_integer(encode_utf8(seg), false) {
            Some(n) => if 0 <= n < a@.len() && n <= usize::MAX {
                Some(a@[n])
            } else {
                None
            },
            None => None,
        },
        _ => None,
    }
}

/// The value that the pieces of a query lead to, step by step.
pub open spec fn query_path(v: JsoncValue, segs: Seq<Seq<char>>) -> Option<JsoncValue>
    decreases segs.len(),
{
    if segs.len() == 0 {
        Some(v)
    } else {
        match query_step(v, segs[0]) {
            Some(w) => query_path(w, segs.drop_first()),
            None => None,
        }
    }
}

impl JsoncValue {
    /// The value that a dotted path leads to: each piece is a key of an
    /// object or a decimal index into an array.
    pub fn query(&self, query: &str) -> (r: Option<&JsoncValue>)
        ensures
            r is Some <==> query_path(*self, split_on(query@, '.')) is Some,
            r matches Some(v) ==> *v == query_path(*self, split_on(query@, '.'))->Some_0,
    {
        let segs = split_dots(query);
        let ghost all = split_on(query@, '.');
        let mut cur: &JsoncValue = self;
        let mut i: usize = 0;
        assert(all.subrange(0, all.len() as int) =~= all);
        while i < segs.len()
            invariant
                i <= segs@.len(),
                segs@.len() == all.len(),
                forall|k: int| 0 <= k < segs@.len() ==> (#[trigger] segs@[k])@ == all[k],
                all == split_on(query@, '.'),
                query_path(*self, all) == query_path(*cur, all.subrange(i as int, all.len() as int)),
            decreases segs.len() - i,
        {
            let seg = segs[i];
            assert(all.subrange(i as int, all.len() as int).drop_first() =~= all.subrange(i + 1, all.len() as int));
            assert(all.subrange(i as int, all.len() as int)[0] == seg@);
            let next = match cur {
                JsoncValue::Object(m) => m.get(seg),
                JsoncValue::Array(a) => match unsigned_value(seg.as_bytes()) {
                    Some(n) => {
                        if n < a.len() as u128 {
                            Some(&a[n as usize])
                        } else {
                            None
                        }
                    },
                    None => None,
                },
                _ => None,
            };
            match next {
                Some(v) => {
                    cur = v;
                },
                None => {
                    return None;
                },
            }
            i = i + 1;
        }
        assert(all.subrange(i as int, all.len() as int) =~= Seq::<Seq<char>>::empty());
        Some(cur)
    }
}
} // verus!
