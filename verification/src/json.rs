//! JSON values.

use vstd::prelude::*;

use crate::text::same;

verus! {

#[derive(Debug)]
pub enum Json {
    Null,
    Bool(bool),
    /// A number as it is written.
    Number(String),
    Text(String),
    Array(Vec<Json>),
    Object(Vec<JsonEntry>),
}

#[derive(Debug)]
pub struct JsonEntry {
    pub key: String,
    pub value: Json,
}

/// The first entry from `i` on with a key.
pub open spec fn entry_of(entries: Seq<JsonEntry>, key: Seq<char>, i: int) -> Option<int>
    decreases entries.len() - i,
{
    if i >= entries.len() {
        None
    } else if entries[i].key@ == key {
        Some(i)
    } else {
        entry_of(entries, key, i + 1)
    }
}

/// The value of a key; only an object has any.
pub open spec fn member(json: Json, key: Seq<char>) -> Option<Json> {
    match json {
        Json::Object(entries) => match entry_of(entries@, key, 0) {
            Some(i) => Some(entries@[i].value),
            None => None,
        },
        _ => None,
    }
}

/// The text of a key, where its value is one.
pub open spec fn text_member(json: Json, key: Seq<char>) -> Option<Seq<char>> {
    match member(json, key) {
        Some(Json::Text(text)) => Some(text@),
        _ => None,
    }
}

pub fn find_entry(entries: &Vec<JsonEntry>, key: &str) -> (found: Option<usize>)
    ensures
        match found {
            Some(i) => entry_of(entries@, key@, 0) == Some(i as int) && i < entries@.len(),
            None => entry_of(entries@, key@, 0) is None,
        },
{
    let mut i: usize = 0;
    while i < entries.len()
        invariant
            i <= entries.len(),
            entry_of(entries@, key@, i as int) == entry_of(entries@, key@, 0),
        decreases entries.len() - i,
    {
        if same(entries[i].key.as_str(), key) {
            return Some(i);
        }
        i += 1;
    }
    None
}

impl Json {
    pub fn get(&self, key: &str) -> (value: Option<&Json>)
        ensures
            match value {
                Some(value) => member(*self, key@) == Some(*value),
                None => member(*self, key@) is None,
            },
    {
        match self {
            Json::Object(entries) => match find_entry(entries, key) {
                Some(i) => Some(&entries[i].value),
                None => None,
            },
            _ => None,
        }
    }

    pub fn get_text(&self, key: &str) -> (text: Option<&str>)
        ensures
            match text {
                Some(text) => text_member(*self, key@) == Some(text@),
                None => text_member(*self, key@) is None,
            },
    {
        match self.get(key) {
            Some(Json::Text(text)) => Some(text.as_str()),
            _ => None,
        }
    }
}

/// A key has the value of the first entry with it, and none where no entry has it.
pub proof fn law_key_has_the_value_of_its_first_entry(entries: Vec<JsonEntry>, key: Seq<char>)
    ensures
        match member(Json::Object(entries), key) {
            Some(value) => exists|i: int|
                0 <= i < entries@.len() && (#[trigger] entries@[i]).key@ == key && entries@[i].value
                    == value && forall|k: int|
                    0 <= k < i ==> (#[trigger] entries@[k]).key@ != key,
            None => forall|k: int|
                0 <= k < entries@.len() ==> (#[trigger] entries@[k]).key@ != key,
        },
        text_member(Json::Object(entries), key) == match member(Json::Object(entries), key) {
            Some(Json::Text(text)) => Some(text@),
            _ => None,
        },
{
    lemma_first_entry(entries@, key, 0);
}

proof fn lemma_first_entry(entries: Seq<JsonEntry>, key: Seq<char>, from: int)
    requires
        0 <= from,
    ensures
        match entry_of(entries, key, from) {
            Some(i) => from <= i < entries.len() && entries[i].key@ == key && forall|k: int|
                from <= k < i ==> (#[trigger] entries[k]).key@ != key,
            None => forall|k: int| from <= k < entries.len() ==> (#[trigger] entries[k]).key@ != key,
        },
    decreases entries.len() - from,
{
    if from < entries.len() && entries[from].key@ != key {
        lemma_first_entry(entries, key, from + 1);
    }
}

} // verus!
