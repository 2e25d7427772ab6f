//! Values of parameter bundles and of parsed responses: the same shapes
//! that a JSON document has, restricted to integers.

use vstd::prelude::*;
use vstd::string::*;
use crate::text::{owned, str_eq};

verus! {

/// A value of a parameter bundle or of a parsed response.
#[derive(Debug, PartialEq, Eq)]
pub enum Value {
    Null,
    Bool(bool),
    /// A non-negative integer.
    UInt(u64),
    /// A negative integer.
    Int(i64),
    Str(String),
    Array(Vec<Value>),
    /// Named values, in order. A lookup finds the first value under a name.
    Object(Vec<(String, Value)>),
}

/// The mathematical content of a `Value`.
pub enum Json {
    Null,
    Bool(bool),
    UInt(u64),
    Int(i64),
    Str(Seq<char>),
    Array(Seq<Json>),
    Object(Seq<(Seq<char>, Json)>),
}

/// The content of a value.
pub open spec fn json_of(v: Value) -> Json
    decreases v,
{
    match v {
        Value::Null => Json::Null,
        Value::Bool(b) => Json::Bool(b),
        Value::UInt(n) => Json::UInt(n),
        Value::Int(n) => Json::Int(n),
        Value::Str(s) => Json::Str(s@),
        Value::Array(items) => Json::Array(
            Seq::new(
                items@.len(),
                |i: int|
                    if 0 <= i < items@.len() {
                        json_of(items@[i])
                    } else {
                        Json::Null
                    },
            ),
        ),
        Value::Object(entries) => Json::Object(
            Seq::new(
                entries@.len(),
                |i: int|
                    if 0 <= i < entries@.len() {
                        (entries@[i].0@, json_of(entries@[i].1))
                    } else {
                        (Seq::empty(), Json::Null)
                    },
            ),
        ),
    }
}

impl View for Value {
    type V = Json;

    open spec fn view(&self) -> Json {
        json_of(*self)
    }
}

impl DeepView for Value {
    type V = Json;

    open spec fn deep_view(&self) -> Json {
        json_of(*self)
    }
}

/// The place of the first entry with the given name.
pub open spec fn index_of_key(entries: Seq<(Seq<char>, Json)>, key: Seq<char>) -> Option<int>
    decreases entries.len(),
{
    if entries.len() == 0 {
        None
    } else if entries[0].0 == key {
        Some(0)
    } else {
        match index_of_key(entries.skip(1), key) {
            Some(i) => Some(i + 1),
            None => None,
        }
    }
}

impl Json {
    /// The value under `key`, if this is an object that has the name.
    pub open spec fn get(self, key: Seq<char>) -> Option<Json> {
        match self {
            Json::Object(entries) => match index_of_key(entries, key) {
                Some(i) => Some(entries[i].1),
                None => None,
            },
            _ => None,
        }
    }

    pub open spec fn as_u64(self) -> Option<u64> {
        match self {
            Json::UInt(n) => Some(n),
            _ => None,
        }
    }

    pub open spec fn as_bool(self) -> Option<bool> {
        match self {
            Json::Bool(b) => Some(b),
            _ => None,
        }
    }

    pub open spec fn as_str(self) -> Option<Seq<char>> {
        match self {
            Json::Str(s) => Some(s),
            _ => None,
        }
    }

    pub open spec fn as_array(self) -> Option<Seq<Json>> {
        match self {
            Json::Array(items) => Some(items),
            _ => None,
        }
    }
}

/// `index_of_key` finds the first entry with the name, and nothing where
/// no entry has it.
pub proof fn lemma_index_of_key(entries: Seq<(Seq<char>, Json)>, key: Seq<char>)
    ensures
        match index_of_key(entries, key) {
            Some(i) => 0 <= i < entries.len() && entries[i].0 == key && forall|k: int|
                0 <= k < i ==> (#[trigger] entries[k]).0 != key,
            None => forall|k: int| 0 <= k < entries.len() ==> (#[trigger] entries[k]).0 != key,
        },
    decreases entries.len(),
{
    if entries.len() > 0 && entries[0].0 != key {
        let t = entries.skip(1);
        lemma_index_of_key(t, key);
        match index_of_key(t, key) {
            Some(i) => {
                assert(entries[i + 1] == t[i]);
                assert forall|k: int| 0 <= k < i + 1 implies (#[trigger] entries[k]).0 != key by {
                    if k > 0 {
                        assert(entries[k] == t[k - 1]);
                    }
                }
            },
            None => {
                assert forall|k: int| 0 <= k < entries.len() implies (#[trigger] entries[k]).0
                    != key by {
                    if k > 0 {
                        assert(entries[k] == t[k - 1]);
                    }
                }
            },
        }
    }
}

impl Value {
    /// The value under `key`, if this is an object that has the name.
    #[verifier::loop_isolation(false)]
    pub fn get(&self, key: &str) -> (r: Option<&Value>)
        ensures
            match self@.get(key@) {
                Some(v) => r is Some && r->0@ == v,
                None => r is None,
            },
    {
        match self {
            Value::Object(entries) => {
                let ghost es = self@->Object_0;
                proof {
                    lemma_index_of_key(es, key@);
                }
                let mut i: usize = 0;
                while i < entries.len()
                    invariant
                        i <= entries.len(),
                        forall|k: int| 0 <= k < i ==> (#[trigger] es[k]).0 != key@,
                    decreases entries.len() - i,
                {
                    if str_eq(entries[i].0.as_str(), key) {
                        assert(es[i as int].0 == key@);
                        return Some(&entries[i].1);
                    }
                    i = i + 1;
                }
                None
            },
            _ => None,
        }
    }

    pub fn as_u64(&self) -> (r: Option<u64>)
        ensures
            r == self@.as_u64(),
    {
        match self {
            Value::UInt(n) => Some(*n),
            _ => None,
        }
    }

    pub fn as_bool(&self) -> (r: Option<bool>)
        ensures
            r == self@.as_bool(),
    {
        match self {
            Value::Bool(b) => Some(*b),
            _ => None,
        }
    }

    pub fn as_str(&self) -> (r: Option<&str>)
        ensures
            match self@.as_str() {
                Some(s) => r is Some && r->0@ == s,
                None => r is None,
            },
    {
        match self {
            Value::Str(s) => Some(s.as_str()),
            _ => None,
        }
    }

    pub fn as_array(&self) -> (r: Option<&Vec<Value>>)
        ensures
            match self@.as_array() {
                Some(items) => r is Some && items == views(r->0@),
                None => r is None,
            },
    {
        match self {
            Value::Array(items) => {
                assert(self@->Array_0 =~= views(items@));
                Some(items)
            },
            _ => None,
        }
    }

    pub fn is_object(&self) -> (r: bool)
        ensures
            r == self@ is Object,
    {
        match self {
            Value::Object(_) => true,
            _ => false,
        }
    }
}

/// The views of a list of values.
pub open spec fn views(items: Seq<Value>) -> Seq<Json> {
    Seq::new(items.len(), |i: int| items[i]@)
}

/// The named views of a list of named values.
pub open spec fn named_views(entries: Seq<(String, Value)>) -> Seq<(Seq<char>, Json)> {
    Seq::new(entries.len(), |i: int| (entries[i].0@, entries[i].1@))
}

/// The content of an array is the contents of its items.
pub proof fn lemma_array_view(items: Vec<Value>)
    ensures
        Value::Array(items)@ == Json::Array(views(items@)),
{
    assert(Value::Array(items)@->Array_0 =~= views(items@));
}

/// The content of an object is the names and contents of its values.
pub proof fn lemma_object_view(entries: Vec<(String, Value)>)
    ensures
        Value::Object(entries)@ == Json::Object(named_views(entries@)),
{
    assert(Value::Object(entries)@->Object_0 =~= named_views(entries@));
}

/// Puts `value` under `key`: in the place of the value that the name has,
/// if it has one, else at the end.
#[verifier::loop_isolation(false)]
pub fn put_named(entries: &mut Vec<(String, Value)>, key: &str, value: Value)
    ensures
        named_views(final(entries)@) == (match index_of_key(named_views(old(entries)@), key@) {
            Some(i) => named_views(old(entries)@).update(i, (key@, value@)),
            None => named_views(old(entries)@).push((key@, value@)),
        }),
{
    let ghost before_views = named_views(entries@);
    proof {
        lemma_index_of_key(before_views, key@);
    }
    let mut i: usize = 0;
    while i < entries.len()
        invariant
            i <= entries.len(),
            entries@ == old(entries)@,
            forall|k: int| 0 <= k < i ==> (#[trigger] before_views[k]).0 != key@,
        decreases entries.len() - i,
    {
        if str_eq(entries[i].0.as_str(), key) {
            assert(before_views[i as int].0 == key@);
            entries[i] = (owned(key), value);
            assert(named_views(entries@) =~= before_views.update(i as int, (key@, value@)));
            return ;
        }
        i = i + 1;
    }
    entries.push((owned(key), value));
    assert(named_views(entries@) =~= before_views.push((key@, value@)));
}

/// The place of the value under `key`, if the name has one.
#[verifier::loop_isolation(false)]
pub fn find_named(entries: &Vec<(String, Value)>, key: &str) -> (r: Option<usize>)
    ensures
        match index_of_key(named_views(entries@), key@) {
            Some(i) => r == Some(i as usize) && 0 <= i < entries.len(),
            None => r is None,
        },
{
    let ghost vs = named_views(entries@);
    proof {
        lemma_index_of_key(vs, key@);
    }
    let mut i: usize = 0;
    while i < entries.len()
        invariant
            i <= entries.len(),
            forall|k: int| 0 <= k < i ==> (#[trigger] vs[k]).0 != key@,
        decreases entries.len() - i,
    {
        if str_eq(entries[i].0.as_str(), key) {
            assert(vs[i as int].0 == key@);
            return Some(i);
        }
        i = i + 1;
    }
    None
}

} // verus!
