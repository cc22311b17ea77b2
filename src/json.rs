//! A plain model of a decoded JSON document.
//!
//! Each node keeps the compact text that it was decoded from, so that
//! diagnostics can show the offending value verbatim.
use vstd::prelude::*;

verus! {

/// The shape of a JSON value. Numbers are kept as their decimal text.
pub enum JsonValue {
    Null,
    Bool(bool),
    Number(String),
    Str(String),
    Array(Vec<Json>),
    Object(Vec<(String, Json)>),
}

/// A JSON value together with its serialised text.
pub struct Json {
    pub value: JsonValue,
    pub text: String,
}

/// The value of the first entry whose key is `key`.
pub open spec fn lookup(entries: Seq<(String, Json)>, key: Seq<char>) -> Option<Json>
    decreases entries.len(),
{
    if entries.len() == 0 {
        None
    } else if entries[0].0@ == key {
        Some(entries[0].1)
    } else {
        lookup(entries.drop_first(), key)
    }
}

/// The members have distinct keys.
pub open spec fn keys_distinct(entries: Seq<(String, Json)>) -> bool {
    forall|i: int, j: int| 0 <= i < j < entries.len() ==> entries[i].0@ != entries[j].0@
}

impl Json {
    /// A decoded document: within each object, as at any depth below it,
    /// no two members share a key.
    pub open spec fn wf(self) -> bool
        decreases self,
    {
        match self.value {
            JsonValue::Array(items) => forall|i: int|
                0 <= i < items@.len() ==> (#[trigger] items@[i]).wf(),
            JsonValue::Object(entries) => keys_distinct(entries@) && forall|i: int|
                0 <= i < entries@.len() ==> (#[trigger] entries@[i]).1.wf(),
            _ => true,
        }
    }

    /// The member `key` of an object; nothing for any other kind of value.
    pub open spec fn spec_get(self, key: Seq<char>) -> Option<Json> {
        match self.value {
            JsonValue::Object(entries) => lookup(entries@, key),
            _ => None,
        }
    }

    pub open spec fn spec_as_str(self) -> Option<Seq<char>> {
        match self.value {
            JsonValue::Str(s) => Some(s@),
            _ => None,
        }
    }

    pub open spec fn spec_as_bool(self) -> Option<bool> {
        match self.value {
            JsonValue::Bool(b) => Some(b),
            _ => None,
        }
    }

    pub open spec fn spec_as_array(self) -> Option<Seq<Json>> {
        match self.value {
            JsonValue::Array(items) => Some(items@),
            _ => None,
        }
    }

    pub fn get(&self, key: &str) -> (r: Option<&Json>)
        ensures
            r matches Some(v) ==> self.spec_get(key@) == Some(*v),
            r is None ==> self.spec_get(key@) is None,
    {
        match &self.value {
            JsonValue::Object(entries) => {
                let wanted = key.to_owned();
                let mut i: usize = 0;
                assert(entries@.subrange(0, entries@.len() as int) =~= entries@);
                while i < entries.len()
                    invariant
                        i <= entries@.len(),
                        wanted@ == key@,
                        self.spec_get(key@) == lookup(entries@, key@),
                        lookup(entries@.subrange(i as int, entries@.len() as int), key@)
                            == lookup(entries@, key@),
                    decreases entries@.len() - i,
                {
                    let ghost rest = entries@.subrange(i as int, entries@.len() as int);
                    assert(rest.drop_first() =~= entries@.subrange(
                        i + 1,
                        entries@.len() as int,
                    ));
                    assert(rest[0] == entries@[i as int]);
                    if entries[i].0 == wanted {
                        return Some(&entries[i].1);
                    }
                    i = i + 1;
                }
                assert(entries@.subrange(i as int, entries@.len() as int) =~= Seq::empty());
                None
            },
            _ => None,
        }
    }

    pub fn as_str(&self) -> (r: Option<&String>)
        ensures
            r matches Some(s) ==> self.spec_as_str() == Some(s@),
            r is None ==> self.spec_as_str() is None,
    {
        match &self.value {
            JsonValue::Str(s) => Some(s),
            _ => None,
        }
    }

    pub fn as_bool(&self) -> (r: Option<bool>)
        ensures
            r == self.spec_as_bool(),
    {
        match &self.value {
            JsonValue::Bool(b) => Some(*b),
            _ => None,
        }
    }

    pub fn as_array(&self) -> (r: Option<&Vec<Json>>)
        ensures
            r matches Some(items) ==> self.spec_as_array() == Some(items@),
            r is None ==> self.spec_as_array() is None,
    {
        match &self.value {
            JsonValue::Array(items) => Some(items),
            _ => None,
        }
    }
}

proof fn lemma_lookup_distinct(entries: Seq<(String, Json)>, key: Seq<char>, i: int)
    requires
        keys_distinct(entries),
        0 <= i < entries.len(),
        entries[i].0@ == key,
    ensures
        lookup(entries, key) == Some(entries[i].1),
    decreases entries.len(),
{
    if i > 0 {
        let rest = entries.drop_first();
        assert(entries[0].0@ != entries[i].0@);
        assert(rest[i - 1] == entries[i]);
        assert forall|a: int, b: int| 0 <= a < b < rest.len() implies rest[a].0@ != rest[b].0@ by {
            assert(rest[a] == entries[a + 1] && rest[b] == entries[b + 1]);
        }
        lemma_lookup_distinct(rest, key, i - 1);
    }
}

/// In a well-formed object, looking a key up finds the one member with
/// that key, wherever it stands.
pub proof fn member_is_found(object: Json, i: int)
    requires
        object.wf(),
        object.value is Object,
        0 <= i < object.value->Object_0@.len(),
    ensures
        object.spec_get(object.value->Object_0@[i].0@) == Some(object.value->Object_0@[i].1),
{
    let entries = object.value->Object_0@;
    lemma_lookup_distinct(entries, entries[i].0@, i);
}

} // verus!
