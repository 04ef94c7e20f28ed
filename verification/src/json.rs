//! A JSON document as the bridge reads it: the values of a webhook payload,
//! of a relay message or of a relay mapping.
use vstd::prelude::*;
use crate::text::text_eq;

verus! {

/// A JSON value. Numbers keep only what the bridge reads of them: the value
/// when it is an unsigned 64-bit integer (`None` for any other number).
#[derive(Debug)]
pub enum Json {
    Null,
    Bool(bool),
    Number(Option<u64>),
    Str(String),
    Array(Vec<Json>),
    Object(Vec<(String, Json)>),
}

/// The value that the first entry named `key` holds, `Null` where there is none.
pub open spec fn entry_value(entries: Seq<(String, Json)>, key: Seq<char>) -> Json
    decreases entries.len(),
{
    if entries.len() == 0 {
        Json::Null
    } else if entries[0].0@ == key {
        entries[0].1
    } else {
        entry_value(entries.drop_first(), key)
    }
}

/// Whether `value` is an object with an entry named `key`.
pub open spec fn has_member(value: Json, key: Seq<char>) -> bool {
    match value {
        Json::Object(entries) => exists|i: int| 0 <= i < entries@.len() && #[trigger] entries@[i].0@ == key,
        _ => false,
    }
}

/// `value[key]`: the member `key` of an object, `Null` for anything else.
pub open spec fn field(value: Json, key: Seq<char>) -> Json {
    match value {
        Json::Object(entries) => entry_value(entries@, key),
        _ => Json::Null,
    }
}

/// `value[index]`: the element `index` of an array, `Null` for anything else.
pub open spec fn element(value: Json, index: int) -> Json {
    match value {
        Json::Array(items) => if 0 <= index < items@.len() {
            items@[index]
        } else {
            Json::Null
        },
        _ => Json::Null,
    }
}

/// The characters of a string value.
pub open spec fn str_of(value: Json) -> Option<Seq<char>> {
    match value {
        Json::Str(s) => Some(s@),
        _ => None,
    }
}

/// The integer of a number value that is an unsigned 64-bit integer.
pub open spec fn u64_of(value: Json) -> Option<u64> {
    match value {
        Json::Number(n) => n,
        _ => None,
    }
}

/// The characters of a string value, the empty text for anything else.
pub open spec fn str_or_empty(value: Json) -> Seq<char> {
    match str_of(value) {
        Some(s) => s,
        None => Seq::empty(),
    }
}

/// The integer of a number value, zero for anything else.
pub open spec fn u64_or_zero(value: Json) -> u64 {
    match u64_of(value) {
        Some(n) => n,
        None => 0,
    }
}

impl Json {
    /// The member `key` of an object; `None` where there is no such member.
    pub fn member(&self, key: &str) -> (r: Option<&Json>)
        ensures
            r is Some <==> has_member(*self, key@),
            r matches Some(v) ==> *v == field(*self, key@),
            r is None ==> field(*self, key@) == Json::Null,
    {
        match self {
            Json::Object(entries) => {
                let mut i: usize = 0;
                assert(entries@.skip(0) == entries@);
                while i < entries.len()
                    invariant
                        i <= entries@.len(),
                        *self == Json::Object(*entries),
                        field(*self, key@) == entry_value(entries@, key@),
                        entry_value(entries@, key@) == entry_value(entries@.skip(i as int), key@),
                        forall|j: int| 0 <= j < i ==> entries@[j].0@ != key@,
                    decreases entries@.len() - i,
                {
                    assert(entries@.skip(i as int).drop_first() == entries@.skip(i + 1));
                    assert(entries@.skip(i as int)[0] == entries@[i as int]);
                    if text_eq(entries[i].0.as_str(), key) {
                        assert(entries@.skip(i as int).len() > 0);
                        assert(entry_value(entries@.skip(i as int), key@) == entries@[i as int].1);
                        assert(entries@[i as int].0@ == key@);
                        return Some(&entries[i].1);
                    }
                    i = i + 1;
                }
                assert(!has_member(*self, key@));
                None
            },
            _ => None,
        }
    }

    /// The element `index` of an array.
    pub fn at(&self, index: usize) -> (r: Option<&Json>)
        ensures
            r is Some <==> (*self matches Json::Array(items) && index < items@.len()),
            r matches Some(v) ==> *v == element(*self, index as int),
            r is None ==> element(*self, index as int) == Json::Null,
    {
        match self {
            Json::Array(items) => if index < items.len() {
                Some(&items[index])
            } else {
                None
            },
            _ => None,
        }
    }

    /// The text of a string value.
    pub fn as_str(&self) -> (r: Option<&str>)
        ensures
            r matches Some(s) ==> str_of(*self) == Some(s@),
            r is None ==> str_of(*self) is None,
    {
        match self {
            Json::Str(s) => Some(s.as_str()),
            _ => None,
        }
    }

    /// The integer of a number value that is an unsigned 64-bit integer.
    pub fn as_u64(&self) -> (r: Option<u64>)
        ensures
            r == u64_of(*self),
    {
        match self {
            Json::Number(n) => *n,
            _ => None,
        }
    }
}

/// The value of the first entry named `key`.
pub proof fn lemma_entry_value_at(entries: Seq<(String, Json)>, i: int, key: Seq<char>)
    requires
        0 <= i < entries.len(),
        entries[i].0@ == key,
        forall|j: int| 0 <= j < i ==> entries[j].0@ != key,
    ensures
        entry_value(entries, key) == entries[i].1,
    decreases i,
{
    if i > 0 {
        let rest = entries.drop_first();
        assert forall|j: int| 0 <= j < i - 1 implies rest[j].0@ != key by {
            assert(rest[j] == entries[j + 1]);
        }
        lemma_entry_value_at(rest, i - 1, key);
    }
}

/// A string value.
pub fn text(s: &str) -> (r: Json)
    ensures
        str_of(r) == Some(s@),
{
    Json::Str(String::from_str(s))
}

} // verus!
