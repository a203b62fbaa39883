//! JSON documents as plain values: what a message reader hands over, and what
//! a request is before it is written out.
use crate::text;
use vstd::prelude::*;

verus! {

/// A JSON document. `Number` is a number that no `i64` holds, as it was
/// written. Where an object names a key more than once, the last entry counts.
#[derive(Debug, PartialEq)]
pub enum Json {
    Null,
    Bool(bool),
    Int(i64),
    Number(String),
    Text(String),
    Array(Vec<Json>),
    Object(Vec<(String, Json)>),
}

/// What a document says, with every text as its characters.
pub enum JsonModel {
    Null,
    Bool(bool),
    Int(i64),
    Number(Seq<char>),
    Text(Seq<char>),
    Array(Seq<JsonModel>),
    Object(Seq<(Seq<char>, JsonModel)>),
}

impl JsonModel {
    /// The document is an object that names `key` exactly once, with `value`.
    pub open spec fn says(self, key: Seq<char>, value: JsonModel) -> bool {
        self is Object && exists|i: int|
            0 <= i < self->Object_0.len() && #[trigger] self->Object_0[i] == (key, value)
                && forall|k: int|
                0 <= k < self->Object_0.len() && k != i ==> (#[trigger] self->Object_0[k]).0 != key
    }

    /// The document is an object that does not name `key`.
    pub open spec fn omits(self, key: Seq<char>) -> bool {
        self is Object && forall|k: int|
            0 <= k < self->Object_0.len() ==> (#[trigger] self->Object_0[k]).0 != key
    }
}

/// The value of the last entry of that key.
pub open spec fn entry_of(entries: Seq<(String, Json)>, key: Seq<char>) -> Option<Json>
    decreases entries.len(),
{
    if entries.len() == 0 {
        None
    } else if entries.last().0@ == key {
        Some(entries.last().1)
    } else {
        entry_of(entries.drop_last(), key)
    }
}

/// The entry that was added last counts, and it hides no other key.
pub proof fn law_last_entry_counts(
    entries: Seq<(String, Json)>,
    key: String,
    value: Json,
    other: Seq<char>,
)
    ensures
        entry_of(entries.push((key, value)), key@) == Some(value),
        other != key@ ==> entry_of(entries.push((key, value)), other) == entry_of(entries, other),
        entry_of(Seq::empty(), other) is None,
{
    assert(entries.push((key, value)).drop_last() =~= entries);
}

/// Only objects have fields, and theirs are their entries; only integers have
/// an integer value, and only arrays have items.
pub proof fn law_parts_are_of_their_kind(j: Json, key: Seq<char>)
    ensures
        match j {
            Json::Object(entries) => j.field(key) == entry_of(entries@, key),
            _ => j.field(key) is None,
        },
        match j {
            Json::Int(i) => j.int_value() == Some(i),
            _ => j.int_value() is None,
        },
        match j {
            Json::Array(v) => j.items() == Some(v@),
            _ => j.items() is None,
        },
{
}

/// The model of a document has the document's own parts: its booleans and
/// integers, the characters of its texts, and its items and entries in order.
pub proof fn law_model_keeps_the_parts(j: Json, i: int)
    ensures
        j == Json::Null ==> j.model() == JsonModel::Null,
        j matches Json::Bool(b) ==> j.model() == JsonModel::Bool(b),
        j matches Json::Int(n) ==> j.model() == JsonModel::Int(n),
        j matches Json::Number(t) ==> j.model() == JsonModel::Number(t@),
        j matches Json::Text(t) ==> j.model() == JsonModel::Text(t@),
        j matches Json::Array(v) ==> j.model() is Array && j.model()->Array_0.len() == v@.len()
            && (0 <= i < v@.len() ==> j.model()->Array_0[i] == v@[i].model()),
        j matches Json::Object(v) ==> j.model() is Object && j.model()->Object_0.len() == v@.len()
            && (0 <= i < v@.len() ==> j.model()->Object_0[i] == (v@[i].0@, v@[i].1.model())),
{
}

/// What the entries of an object say.
pub open spec fn fields_of(entries: Seq<(String, Json)>) -> Seq<(Seq<char>, JsonModel)> {
    entries.map_values(|e: (String, Json)| (e.0@, e.1.model()))
}

/// Integers as an array.
pub open spec fn int_array(list: Seq<u32>) -> JsonModel {
    JsonModel::Array(list.map_values(|c: u32| JsonModel::Int(c as i64)))
}

/// Append an entry to an object.
pub fn push_field(entries: &mut Vec<(String, Json)>, key: &str, value: Json)
    ensures
        fields_of(final(entries)@) == fields_of(old(entries)@).push((key@, value.model())),
{
    let entry: (String, Json) = (key.to_owned(), value);
    entries.push(entry);
    assert(fields_of(entries@) =~= fields_of(old(entries)@).push((key@, value.model())));
}

/// An object of these entries.
pub fn object(entries: Vec<(String, Json)>) -> (j: Json)
    ensures
        j == Json::Object(entries),
        j.model() == JsonModel::Object(fields_of(entries@)),
{
    let j = Json::Object(entries);
    proof {
        let shown = j.model()->Object_0;
        assert(shown =~= fields_of(entries@));
    }
    j
}

/// An array of these integers.
pub fn array_of(list: &Vec<u32>) -> (j: Json)
    ensures
        j.model() == int_array(list@),
{
    let mut items: Vec<Json> = Vec::new();
    let mut i: usize = 0;
    while i < list.len()
        invariant
            i <= list@.len(),
            items@.len() == i,
            forall|k: int| 0 <= k < i ==> #[trigger] items@[k] == Json::Int(list@[k] as i64),
        decreases list.len() - i,
    {
        items.push(Json::Int(list[i] as i64));
        i = i + 1;
    }
    let j = Json::Array(items);
    proof {
        reveal_with_fuel(Json::model, 2);
        let shown = j.model()->Array_0;
        assert(shown =~= list@.map_values(|c: u32| JsonModel::Int(c as i64)));
    }
    j
}

impl Json {
    /// What the document says.
    pub open spec fn model(self) -> JsonModel
        decreases self,
    {
        match self {
            Json::Null => JsonModel::Null,
            Json::Bool(b) => JsonModel::Bool(b),
            Json::Int(i) => JsonModel::Int(i),
            Json::Number(t) => JsonModel::Number(t@),
            Json::Text(t) => JsonModel::Text(t@),
            Json::Array(v) => JsonModel::Array(
                Seq::new(
                    v@.len(),
                    |i: int|
                        if 0 <= i < v@.len() {
                            v@[i].model()
                        } else {
                            JsonModel::Null
                        },
                ),
            ),
            Json::Object(v) => JsonModel::Object(
                Seq::new(
                    v@.len(),
                    |i: int|
                        if 0 <= i < v@.len() {
                            (v@[i].0@, v@[i].1.model())
                        } else {
                            (Seq::empty(), JsonModel::Null)
                        },
                ),
            ),
        }
    }

    /// The value under `key` of an object.
    pub open spec fn field(self, key: Seq<char>) -> Option<Json> {
        match self {
            Json::Object(entries) => entry_of(entries@, key),
            _ => None,
        }
    }

    /// The integer that the value is, where an `i64` holds it.
    pub open spec fn int_value(self) -> Option<i64> {
        match self {
            Json::Int(i) => Some(i),
            _ => None,
        }
    }

    /// The items of an array.
    pub open spec fn items(self) -> Option<Seq<Json>> {
        match self {
            Json::Array(v) => Some(v@),
            _ => None,
        }
    }

    /// The value under `key` of an object; `None` of anything else.
    pub fn get(&self, key: &str) -> (value: Option<&Json>)
        ensures
            match value {
                Some(v) => self.field(key@) == Some(*v),
                None => self.field(key@) is None,
            },
    {
        match self {
            Json::Object(entries) => {
                let mut n: usize = entries.len();
                assert(entries@.take(n as int) =~= entries@);
                while n > 0
                    invariant
                        n <= entries@.len(),
                        self.field(key@) == entry_of(entries@, key@),
                        entry_of(entries@, key@) == entry_of(entries@.take(n as int), key@),
                    decreases n,
                {
                    let ghost shown = entries@.take(n as int);
                    assert(shown.last() == entries@[n - 1]);
                    assert(shown.drop_last() =~= entries@.take(n - 1));
                    if text::same_text(entries[n - 1].0.as_str(), key) {
                        return Some(&entries[n - 1].1);
                    }
                    n = n - 1;
                }
                None
            },
            _ => None,
        }
    }

    /// The integer that the value is, where an `i64` holds it.
    pub fn as_i64(&self) -> (value: Option<i64>)
        ensures
            value == self.int_value(),
    {
        match self {
            Json::Int(i) => Some(*i),
            _ => None,
        }
    }

    /// The boolean that the value is.
    pub fn as_bool(&self) -> (value: Option<bool>)
        ensures
            value == (match *self {
                Json::Bool(b) => Some(b),
                _ => None,
            }),
    {
        match self {
            Json::Bool(b) => Some(*b),
            _ => None,
        }
    }

    /// The text that the value is.
    pub fn as_str(&self) -> (value: Option<&str>)
        ensures
            text::str_of(value) == (match *self {
                Json::Text(t) => Some(t@),
                _ => None,
            }),
    {
        match self {
            Json::Text(t) => Some(t.as_str()),
            _ => None,
        }
    }

    /// The items of an array.
    pub fn as_array(&self) -> (value: Option<&Vec<Json>>)
        ensures
            match value {
                Some(v) => *self == Json::Array(*v),
                None => self.items() is None,
            },
    {
        match self {
            Json::Array(v) => Some(v),
            _ => None,
        }
    }

    /// Whether the value is `null`.
    pub fn is_null(&self) -> (null: bool)
        ensures
            null == (*self is Null),
    {
        match self {
            Json::Null => true,
            _ => false,
        }
    }
}

} // verus!
