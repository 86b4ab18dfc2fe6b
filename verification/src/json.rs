//! A JSON value as plain data, with its mathematical model.
//!
//! Log records carry untyped payloads. The library reads them through
//! [`Json`], an owned tree of plain values, and states its contracts over
//! [`JsonValue`], the same tree built from sequences.

use vstd::prelude::*;
use crate::text::str_eq;

verus! {

/// An owned JSON value. A number is kept as its decimal text; an object keeps
/// its members in order, and a lookup returns the first member with the key.
#[derive(Debug, PartialEq, Eq)]
pub enum Json {
    Null,
    Bool(bool),
    Number(String),
    Str(String),
    Array(Vec<Json>),
    Object(Vec<JsonMember>),
}

/// One member of a JSON object.
#[derive(Debug, PartialEq, Eq)]
pub struct JsonMember {
    pub key: String,
    pub value: Json,
}

/// The model of a [`Json`] value.
pub enum JsonValue {
    Null,
    Bool(bool),
    Number(Seq<char>),
    Str(Seq<char>),
    Array(Seq<JsonValue>),
    Object(Seq<JsonMemberValue>),
}

/// The model of a [`JsonMember`].
pub struct JsonMemberValue {
    pub key: Seq<char>,
    pub value: JsonValue,
}

/// The first member at or after `from` whose key is `key`.
pub open spec fn member_from(
    members: Seq<JsonMemberValue>,
    key: Seq<char>,
    from: int,
) -> Option<JsonValue>
    decreases members.len() - from,
{
    if from < 0 || from >= members.len() {
        None
    } else if members[from].key == key {
        Some(members[from].value)
    } else {
        member_from(members, key, from + 1)
    }
}

impl JsonValue {
    /// The member of an object under `key`; `None` for anything but an object
    /// and for a key that the object lacks.
    pub open spec fn get(self, key: Seq<char>) -> Option<JsonValue> {
        match self {
            JsonValue::Object(members) => member_from(members, key, 0),
            _ => None,
        }
    }

    pub open spec fn as_str(self) -> Option<Seq<char>> {
        match self {
            JsonValue::Str(s) => Some(s),
            _ => None,
        }
    }

    pub open spec fn as_bool(self) -> Option<bool> {
        match self {
            JsonValue::Bool(b) => Some(b),
            _ => None,
        }
    }

    pub open spec fn as_array(self) -> Option<Seq<JsonValue>> {
        match self {
            JsonValue::Array(items) => Some(items),
            _ => None,
        }
    }

    /// The string held by the member under `key`, when there is such a member
    /// and it is a string.
    pub open spec fn str_field(self, key: Seq<char>) -> Option<Seq<char>> {
        match self.get(key) {
            Some(v) => v.as_str(),
            None => None,
        }
    }

    /// The boolean held by the member under `key`, when there is such a member
    /// and it is a boolean.
    pub open spec fn bool_field(self, key: Seq<char>) -> Option<bool> {
        match self.get(key) {
            Some(v) => v.as_bool(),
            None => None,
        }
    }
}

impl View for Json {
    type V = JsonValue;

    open spec fn view(&self) -> JsonValue
        decreases self,
    {
        match self {
            Json::Null => JsonValue::Null,
            Json::Bool(b) => JsonValue::Bool(*b),
            Json::Number(n) => JsonValue::Number(n@),
            Json::Str(s) => JsonValue::Str(s@),
            Json::Array(items) => JsonValue::Array(
                Seq::new(
                    items@.len(),
                    |i: int|
                        if 0 <= i < items@.len() {
                            items@[i]@
                        } else {
                            JsonValue::Null
                        },
                ),
            ),
            Json::Object(members) => JsonValue::Object(
                Seq::new(
                    members@.len(),
                    |i: int|
                        if 0 <= i < members@.len() {
                            JsonMemberValue { key: members@[i].key@, value: members@[i].value@ }
                        } else {
                            JsonMemberValue { key: Seq::empty(), value: JsonValue::Null }
                        },
                ),
            ),
        }
    }
}

impl DeepView for Json {
    type V = JsonValue;

    open spec fn deep_view(&self) -> JsonValue {
        self@
    }
}

impl Json {
    pub fn as_str(&self) -> (r: Option<&String>)
        ensures
            match r {
                Some(s) => self@.as_str() == Some(s@),
                None => self@.as_str() is None,
            },
    {
        match self {
            Json::Str(s) => Some(s),
            _ => None,
        }
    }

    pub fn as_bool(&self) -> (r: Option<bool>)
        ensures
            r == self@.as_bool(),
    {
        match self {
            Json::Bool(b) => Some(*b),
            _ => None,
        }
    }

    pub fn as_array(&self) -> (r: Option<&Vec<Json>>)
        ensures
            match r {
                Some(items) => self@.as_array() == Some(items.deep_view()),
                None => self@.as_array() is None,
            },
    {
        match self {
            Json::Array(items) => {
                assert(self@.as_array() == Some(items.deep_view())) by {
                    assert(self@->Array_0 =~= items.deep_view());
                }
                Some(items)
            },
            _ => None,
        }
    }

    pub fn get(&self, key: &str) -> (r: Option<&Json>)
        ensures
            match r {
                Some(v) => self@.get(key@) == Some(v@),
                None => self@.get(key@) is None,
            },
    {
        match self {
            Json::Object(members) => {
                let ghost model = self@->Object_0;
                let mut i: usize = 0;
                while i < members.len()
                    invariant
                        0 <= i <= members.len(),
                        self@ == JsonValue::Object(model),
                        model.len() == members.len(),
                        forall|k: int|
                            0 <= k < members.len() ==> #[trigger] model[k] == (JsonMemberValue {
                                key: members@[k].key@,
                                value: members@[k].value@,
                            }),
                        member_from(model, key@, 0) == member_from(model, key@, i as int),
                    decreases members.len() - i,
                {
                    if str_eq(members[i].key.as_str(), key) {
                        assert(model[i as int].key == key@);
                        return Some(&members[i].value);
                    }
                    assert(model[i as int].key != key@);
                    i = i + 1;
                }
                None
            },
            _ => None,
        }
    }

    /// The string under `key`, when the value is an object that has the key
    /// with a string behind it.
    pub fn str_field(&self, key: &str) -> (r: Option<&String>)
        ensures
            match r {
                Some(s) => self@.str_field(key@) == Some(s@),
                None => self@.str_field(key@) is None,
            },
    {
        match self.get(key) {
            Some(v) => v.as_str(),
            None => None,
        }
    }

    /// The boolean under `key`, when the value is an object that has the key
    /// with a boolean behind it.
    pub fn bool_field(&self, key: &str) -> (r: Option<bool>)
        ensures
            r == self@.bool_field(key@),
    {
        match self.get(key) {
            Some(v) => v.as_bool(),
            None => None,
        }
    }
}

impl Clone for Json {
    /// A deep copy: the copy has the same model.
    fn clone(&self) -> (r: Self)
        ensures
            r@ == self@,
        decreases self,
    {
        match self {
            Json::Null => Json::Null,
            Json::Bool(b) => Json::Bool(*b),
            Json::Number(n) => Json::Number(n.clone()),
            Json::Str(s) => Json::Str(s.clone()),
            Json::Array(items) => {
                let mut copy: Vec<Json> = Vec::new();
                let mut i: usize = 0;
                while i < items.len()
                    invariant
                        0 <= i <= items.len(),
                        copy.len() == i,
                        forall|k: int|
                            0 <= k < items.len() ==> decreases_to!(self => #[trigger] items@[k]),
                        forall|k: int| 0 <= k < i ==> #[trigger] copy@[k]@ == items@[k]@,
                    decreases items.len() - i,
                {
                    let item = items[i].clone();
                    copy.push(item);
                    i = i + 1;
                }
                let r = Json::Array(copy);
                assert(r@->Array_0 =~= self@->Array_0) by {
                    assert(r@->Array_0.len() == copy@.len());
                    assert(self@->Array_0.len() == items@.len());
                    assert forall|k: int| 0 <= k < copy@.len() implies r@->Array_0[k]
                        == self@->Array_0[k] by {
                        assert(r@->Array_0[k] == copy@[k]@);
                        assert(self@->Array_0[k] == items@[k]@);
                    }
                }
                r
            },
            Json::Object(members) => {
                let mut copy: Vec<JsonMember> = Vec::new();
                let mut i: usize = 0;
                while i < members.len()
                    invariant
                        0 <= i <= members.len(),
                        copy.len() == i,
                        forall|k: int|
                            0 <= k < members.len() ==> decreases_to!(self => (#[trigger] members@[k]).value),
                        forall|k: int|
                            0 <= k < i ==> (#[trigger] copy@[k]).key@ == members@[k].key@
                                && copy@[k].value@ == members@[k].value@,
                    decreases members.len() - i,
                {
                    let key = members[i].key.clone();
                    let value = members[i].value.clone();
                    copy.push(JsonMember { key, value });
                    i = i + 1;
                }
                let r = Json::Object(copy);
                assert(r@->Object_0 =~= self@->Object_0) by {
                    assert(r@->Object_0.len() == copy@.len());
                    assert(self@->Object_0.len() == members@.len());
                    assert forall|k: int| 0 <= k < copy@.len() implies r@->Object_0[k]
                        == self@->Object_0[k] by {
                        assert(r@->Object_0[k].key == copy@[k].key@);
                        assert(self@->Object_0[k].key == members@[k].key@);
                    }
                }
                r
            },
        }
    }
}

} // verus!
