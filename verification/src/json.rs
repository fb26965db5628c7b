//! JSON documents as plain data.
use crate::text::same_text;
use vstd::prelude::*;

verus! {

/// A JSON value. A number is kept as it is written in decimal notation, with
/// its value where that is a whole number from zero to `u64::MAX`.
#[derive(Debug, PartialEq, Eq)]
pub enum Json {
    Null,
    Bool(bool),
    Number(Option<u64>, String),
    Text(String),
    Array(Vec<Json>),
    Object(Vec<(String, Json)>),
}

/// What a JSON value holds.
pub enum JsonData {
    Null,
    Bool(bool),
    Number(Option<u64>, Seq<char>),
    Text(Seq<char>),
    Array(Seq<JsonData>),
    Object(Seq<(Seq<char>, JsonData)>),
}

impl Json {
    pub open spec fn view(&self) -> JsonData
        decreases self,
    {
        match self {
            Json::Null => JsonData::Null,
            Json::Bool(b) => JsonData::Bool(*b),
            Json::Number(n, s) => JsonData::Number(*n, s@),
            Json::Text(s) => JsonData::Text(s@),
            Json::Array(v) => JsonData::Array(
                Seq::new(
                    v@.len(),
                    |i: int|
                        if 0 <= i < v@.len() {
                            v[i].view()
                        } else {
                            JsonData::Null
                        },
                ),
            ),
            Json::Object(v) => JsonData::Object(
                Seq::new(
                    v@.len(),
                    |i: int|
                        if 0 <= i < v@.len() {
                            (v[i].0@, v[i].1.view())
                        } else {
                            (Seq::empty(), JsonData::Null)
                        },
                ),
            ),
        }
    }

    /// The member of an object with a given name.
    pub fn member(&self, key: &str) -> (r: Option<&Json>)
        ensures
            match r {
                Some(value) => json_member(self@, key@) == Some(value@),
                None => json_member(self@, key@) is None,
            },
    {
        match self {
            Json::Object(entries) => {
                let mut i: usize = 0;
                let ghost data = self@->Object_0;
                assert(data.skip(0) =~= data);
                while i < entries.len()
                    invariant
                        i <= entries@.len(),
                        self@ == JsonData::Object(data),
                        data.len() == entries@.len(),
                        forall|j: int|
                            0 <= j < entries@.len() ==> #[trigger] data[j] == (
                                entries@[j].0@,
                                entries@[j].1@,
                            ),
                        json_member(self@, key@) == entry_value(data.skip(i as int), key@),
                    decreases entries@.len() - i,
                {
                    assert(data.skip(i as int)[0] == data[i as int]);
                    if same_text(entries[i].0.as_str(), key) {
                        return Some(&entries[i].1);
                    }
                    assert(data.skip(i as int).skip(1) =~= data.skip(i + 1));
                    i += 1;
                }
                None
            },
            _ => None,
        }
    }

    /// The value of a whole number.
    pub fn as_u64(&self) -> (r: Option<u64>)
        ensures
            r == json_whole(self@),
    {
        match self {
            Json::Number(n, _) => *n,
            _ => None,
        }
    }

    /// The characters of a text.
    pub fn as_text(&self) -> (r: Option<&String>)
        ensures
            match r {
                Some(s) => json_text(self@) == Some(s@),
                None => json_text(self@) is None,
            },
    {
        match self {
            Json::Text(s) => Some(s),
            _ => None,
        }
    }

    /// The items of an array.
    pub fn as_array(&self) -> (r: Option<&Vec<Json>>)
        ensures
            match r {
                Some(v) => json_array(self@) matches Some(items) && items.len() == v@.len()
                    && forall|i: int| 0 <= i < items.len() ==> #[trigger] items[i] == v@[i]@,
                None => json_array(self@) is None,
            },
    {
        match self {
            Json::Array(v) => Some(v),
            _ => None,
        }
    }
}

/// The value of the first entry with a given name.
pub open spec fn entry_value(entries: Seq<(Seq<char>, JsonData)>, key: Seq<char>) -> Option<
    JsonData,
>
    decreases entries.len(),
{
    if entries.len() == 0 {
        None
    } else if entries[0].0 == key {
        Some(entries[0].1)
    } else {
        entry_value(entries.skip(1), key)
    }
}

pub open spec fn json_member(value: JsonData, key: Seq<char>) -> Option<JsonData> {
    match value {
        JsonData::Object(entries) => entry_value(entries, key),
        _ => None,
    }
}

pub open spec fn json_whole(value: JsonData) -> Option<u64> {
    match value {
        JsonData::Number(n, _) => n,
        _ => None,
    }
}

pub open spec fn json_text(value: JsonData) -> Option<Seq<char>> {
    match value {
        JsonData::Text(s) => Some(s),
        _ => None,
    }
}

pub open spec fn json_array(value: JsonData) -> Option<Seq<JsonData>> {
    match value {
        JsonData::Array(items) => Some(items),
        _ => None,
    }
}

/// A text member of an object.
pub open spec fn text_member(value: JsonData, key: Seq<char>) -> Option<Seq<char>> {
    match json_member(value, key) {
        Some(member) => json_text(member),
        None => None,
    }
}

/// A whole number that is a member of an object.
pub open spec fn whole_member(value: JsonData, key: Seq<char>) -> Option<u64> {
    match json_member(value, key) {
        Some(member) => json_whole(member),
        None => None,
    }
}

/// An array that is a member of an object.
pub open spec fn array_member(value: JsonData, key: Seq<char>) -> Option<Seq<JsonData>> {
    match json_member(value, key) {
        Some(member) => json_array(member),
        None => None,
    }
}

/// What `serde_json::from_str` reads from a text, or what its error says.
pub uninterp spec fn json_document(text: Seq<char>) -> Result<JsonData, Seq<char>>;

#[verifier::external_type_specification]
#[verifier::external_body]
pub struct ExternalJsonValue(serde_json::Value);

/// What a `serde_json::Value` holds.
pub uninterp spec fn value_data(value: serde_json::Value) -> JsonData;

/// The variants of `serde_json::Value`, one for one. A number is taken as
/// `Number::as_u64` and as the text that its `Display` gives.
#[verifier::external_body]
fn from_value(value: serde_json::Value) -> (r: Json)
    ensures
        r@ == value_data(value),
{
    match value {
        serde_json::Value::Null => Json::Null,
        serde_json::Value::Bool(b) => Json::Bool(b),
        serde_json::Value::Number(n) => Json::Number(n.as_u64(), n.to_string()),
        serde_json::Value::String(s) => Json::Text(s),
        serde_json::Value::Array(v) => Json::Array(v.into_iter().map(from_value).collect()),
        serde_json::Value::Object(m) => {
            Json::Object(m.into_iter().map(|e| (e.0, from_value(e.1))).collect())
        },
    }
}

/// `serde_json::from_str`, into the value that it reads, or what the `Display`
/// of its error says: the same text always gives the same document or error.
#[verifier::external_body]
fn from_text(text: &str) -> (r: Result<serde_json::Value, String>)
    ensures
        match r {
            Ok(value) => json_document(text@) == Ok::<JsonData, Seq<char>>(value_data(value)),
            Err(e) => json_document(text@) == Err::<JsonData, Seq<char>>(e@),
        },
{
    serde_json::from_str(text).map_err(|e| e.to_string())
}

/// Reads a JSON document.
pub fn parse_json(text: &str) -> (r: Result<Json, String>)
    ensures
        match r {
            Ok(value) => json_document(text@) == Ok::<JsonData, Seq<char>>(value@),
            Err(e) => json_document(text@) == Err::<JsonData, Seq<char>>(e@),
        },
{
    match from_text(text) {
        Ok(value) => Ok(from_value(value)),
        Err(e) => Err(e),
    }
}

/// A member is the first one that has the name.
pub proof fn the_first_member_counts(
    before: Seq<(Seq<char>, JsonData)>,
    key: Seq<char>,
    value: JsonData,
    after: Seq<(Seq<char>, JsonData)>,
)
    requires
        forall|i: int| 0 <= i < before.len() ==> (#[trigger] before[i]).0 != key,
    ensures
        json_member(JsonData::Object(before + seq![(key, value)] + after), key) == Some(value),
        json_member(JsonData::Object(before), key) is None,
    decreases before.len(),
{
    let all = before + seq![(key, value)] + after;
    if before.len() > 0 {
        assert(all[0] == before[0]);
        assert(all.skip(1) =~= before.skip(1) + seq![(key, value)] + after);
        the_first_member_counts(before.skip(1), key, value, after);
    } else {
        assert(all[0] == (key, value));
    }
}

} // verus!
