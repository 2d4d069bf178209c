//! A JSON document model holding what the catalogue logic reads from Google
//! Books replies, with the lookups of `serde_json::Value` (`get`, `[key]`,
//! `as_str`, `as_u64`, `as_array`).

use vstd::prelude::*;
use crate::text::same_text;

verus! {

/// A JSON number: its value as an unsigned integer where it is one, and its
/// decimal text.
pub struct JsonNumber {
    pub as_u64: Option<u64>,
    pub text: String,
}

/// One member of a JSON object.
pub struct JsonMember {
    pub key: String,
    pub value: JsonValue,
}

/// A JSON value. An object keeps its members in order; a lookup finds the
/// first member with the key.
pub enum JsonValue {
    Null,
    Bool(bool),
    Number(JsonNumber),
    String(String),
    Array(Vec<JsonValue>),
    Object(Vec<JsonMember>),
}

/// The first member of `members` whose key is `key`.
pub open spec fn member_lookup(members: Seq<JsonMember>, key: Seq<char>) -> Option<JsonValue>
    decreases members.len(),
{
    if members.len() == 0 {
        None
    } else if members[0].key@ == key {
        Some(members[0].value)
    } else {
        member_lookup(members.drop_first(), key)
    }
}

/// `value.get(key)`: the member's value when `value` is an object holding `key`.
pub open spec fn json_get(v: JsonValue, key: Seq<char>) -> Option<JsonValue> {
    match v {
        JsonValue::Object(members) => member_lookup(members@, key),
        _ => None,
    }
}

/// `value[key]`: the member's value, or `Null` when there is none.
pub open spec fn json_field(v: JsonValue, key: Seq<char>) -> JsonValue {
    match json_get(v, key) {
        Some(x) => x,
        None => JsonValue::Null,
    }
}

/// `value.as_str()`.
pub open spec fn json_str(v: JsonValue) -> Option<Seq<char>> {
    match v {
        JsonValue::String(s) => Some(s@),
        _ => None,
    }
}

/// `value.as_u64()`.
pub open spec fn json_u64(v: JsonValue) -> Option<u64> {
    match v {
        JsonValue::Number(n) => n.as_u64,
        _ => None,
    }
}

/// `value.as_array()`.
pub open spec fn json_array(v: JsonValue) -> Option<Seq<JsonValue>> {
    match v {
        JsonValue::Array(items) => Some(items@),
        _ => None,
    }
}

/// `value.as_str().unwrap_or(default)`.
pub open spec fn json_str_or(v: JsonValue, default: Seq<char>) -> Seq<char> {
    match json_str(v) {
        Some(s) => s,
        None => default,
    }
}

proof fn lemma_member_lookup_prefix(members: Seq<JsonMember>, key: Seq<char>, i: int)
    requires
        0 <= i <= members.len(),
        forall|k: int| 0 <= k < i ==> (#[trigger] members[k]).key@ != key,
    ensures
        member_lookup(members, key) == member_lookup(members.subrange(i, members.len() as int), key),
    decreases i,
{
    if i > 0 {
        assert(members.drop_first() =~= members.subrange(1, members.len() as int));
        lemma_member_lookup_prefix(members.drop_first(), key, i - 1);
        assert(members.drop_first().subrange(i - 1, members.drop_first().len() as int)
            =~= members.subrange(i, members.len() as int));
    } else {
        assert(members.subrange(0, members.len() as int) =~= members);
    }
}

impl JsonValue {
    /// Removes and returns the value of the member `key` (the first one with
    /// that key), consuming the document.
    pub fn take_member(self, key: &str) -> (r: Option<JsonValue>)
        ensures
            r == json_get(self, key@),
    {
        match self {
            JsonValue::Object(mut members) => {
                let ghost all = members@;
                let mut i: usize = 0;
                while i < members.len()
                    invariant
                        members@ == all,
                        json_get(self, key@) == member_lookup(all, key@),
                        i <= members@.len(),
                        forall|k: int| 0 <= k < i ==> (#[trigger] members@[k]).key@ != key@,
                    decreases members.len() - i,
                {
                    if same_text(members[i].key.as_str(), key) {
                        proof {
                            lemma_member_lookup_prefix(members@, key@, i as int);
                            let rest = members@.subrange(i as int, members@.len() as int);
                            assert(rest[0] == members@[i as int]);
                        }
                        let m = members.remove(i);
                        return Some(m.value);
                    }
                    i = i + 1;
                }
                proof {
                    lemma_member_lookup_prefix(members@, key@, i as int);
                }
                None
            },
            _ => None,
        }
    }

    /// `value.get(key)` on an object; `None` on anything else.
    pub fn get(&self, key: &str) -> (r: Option<&JsonValue>)
        ensures
            match r {
                Some(x) => json_get(*self, key@) == Some(*x),
                None => json_get(*self, key@) is None,
            },
    {
        match self {
            JsonValue::Object(members) => {
                let mut i: usize = 0;
                while i < members.len()
                    invariant
                        i <= members@.len(),
                        json_get(*self, key@) == member_lookup(members@, key@),
                        forall|k: int| 0 <= k < i ==> (#[trigger] members@[k]).key@ != key@,
                    decreases members.len() - i,
                {
                    if same_text(members[i].key.as_str(), key) {
                        proof {
                            lemma_member_lookup_prefix(members@, key@, i as int);
                            let rest = members@.subrange(i as int, members@.len() as int);
                            assert(rest[0] == members@[i as int]);
                        }
                        return Some(&members[i].value);
                    }
                    i = i + 1;
                }
                proof {
                    lemma_member_lookup_prefix(members@, key@, i as int);
                }
                None
            },
            _ => None,
        }
    }

    /// `value[key].as_str()`: the text of the member `key` when it is a string.
    pub fn str_field(&self, key: &str) -> (r: Option<&String>)
        ensures
            match r {
                Some(s) => json_str(json_field(*self, key@)) == Some(s@),
                None => json_str(json_field(*self, key@)) is None,
            },
    {
        match self.get(key) {
            Some(JsonValue::String(s)) => Some(s),
            _ => None,
        }
    }

    /// `value[key].as_u64()`.
    pub fn u64_field(&self, key: &str) -> (r: Option<u64>)
        ensures
            r == json_u64(json_field(*self, key@)),
    {
        match self.get(key) {
            Some(JsonValue::Number(n)) => n.as_u64,
            _ => None,
        }
    }

    /// `value[key].as_array()`.
    pub fn array_field(&self, key: &str) -> (r: Option<&Vec<JsonValue>>)
        ensures
            match r {
                Some(a) => json_array(json_field(*self, key@)) == Some(a@),
                None => json_array(json_field(*self, key@)) is None,
            },
    {
        match self.get(key) {
            Some(JsonValue::Array(a)) => Some(a),
            _ => None,
        }
    }

    /// `value[key]`, by reference, or `None` when `value[key]` is `Null`
    /// because the member is missing.
    pub fn field(&self, key: &str) -> (r: Option<&JsonValue>)
        ensures
            match r {
                Some(x) => json_field(*self, key@) == *x,
                None => json_field(*self, key@) == JsonValue::Null,
            },
    {
        self.get(key)
    }
}

} // verus!
