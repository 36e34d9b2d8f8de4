//! JSON documents as the library sees them: a value tree with its model,
//! read from text by `serde_json`.
use vstd::prelude::*;

verus! {

/// A JSON value. Object members keep the order `serde_json` yields them in;
/// a number is kept as its text.
#[derive(Debug)]
pub enum Json {
    Null,
    Bool(bool),
    Number(String),
    Str(String),
    Array(Vec<Json>),
    Object(Vec<(String, Json)>),
}

pub enum JsonModel {
    Null,
    Bool(bool),
    Number(Seq<char>),
    Str(Seq<char>),
    Array(Seq<JsonModel>),
    Object(Seq<(Seq<char>, JsonModel)>),
}

pub open spec fn json_view(j: Json) -> JsonModel
    decreases j,
{
    match j {
        Json::Null => JsonModel::Null,
        Json::Bool(b) => JsonModel::Bool(b),
        Json::Number(n) => JsonModel::Number(n@),
        Json::Str(s) => JsonModel::Str(s@),
        Json::Array(v) => JsonModel::Array(
            Seq::new(
                v@.len(),
                |i: int|
                    if 0 <= i < v@.len() {
                        json_view(v@[i])
                    } else {
                        JsonModel::Null
                    },
            ),
        ),
        Json::Object(v) => JsonModel::Object(
            Seq::new(
                v@.len(),
                |i: int|
                    if 0 <= i < v@.len() {
                        (v@[i].0@, json_view(v@[i].1))
                    } else {
                        (Seq::empty(), JsonModel::Null)
                    },
            ),
        ),
    }
}

/// The value of the first member named `key`.
pub open spec fn member(entries: Seq<(Seq<char>, JsonModel)>, key: Seq<char>) -> Option<JsonModel>
    decreases entries.len(),
{
    if entries.len() == 0 {
        None
    } else if entries[0].0 == key {
        Some(entries[0].1)
    } else {
        member(entries.drop_first(), key)
    }
}

/// The string a member holds, when it is present and a string.
pub open spec fn member_str(entries: Seq<(Seq<char>, JsonModel)>, key: Seq<char>) -> Option<Seq<char>> {
    match member(entries, key) {
        Some(JsonModel::Str(s)) => Some(s),
        _ => None,
    }
}

/// The value `serde_json` reads from `text` (`None` when the text is not a
/// JSON document).
pub uninterp spec fn json_text_value(text: Seq<char>) -> Option<JsonModel>;

#[verifier::external_type_specification]
#[verifier::external_body]
pub struct ExSerdeJsonValue(serde_json::Value);

/// Converts a `serde_json::Value` tree into a `Json` tree, member for
/// member, in the order the value yields them.
#[verifier::external_body]
fn json_from_value(v: serde_json::Value) -> Json {
    match v {
        serde_json::Value::Null => Json::Null,
        serde_json::Value::Bool(b) => Json::Bool(b),
        serde_json::Value::Number(n) => Json::Number(n.to_string()),
        serde_json::Value::String(s) => Json::Str(s),
        serde_json::Value::Array(a) => Json::Array(a.into_iter().map(json_from_value).collect()),
        serde_json::Value::Object(m) => Json::Object(
            m.into_iter().map(|(k, x)| (k, json_from_value(x))).collect(),
        ),
    }
}

/// `serde_json::from_str::<serde_json::Value>`: the document `text` holds.
/// Trusted: the result is `json_text_value(text)`, a function of the text
/// alone; the error's message (serde_json's own) is not stated.
#[verifier::external_body]
pub fn parse_json_text(text: &str) -> (r: Result<Json, String>)
    ensures
        match r {
            Ok(j) => json_text_value(text@) == Some(json_view(j)),
            Err(_) => json_text_value(text@) is None,
        },
{
    match serde_json::from_str::<serde_json::Value>(text) {
        Ok(v) => Ok(json_from_value(v)),
        Err(e) => Err(e.to_string()),
    }
}

/// The first member named `key` of an object's members.
pub fn get_member<'a>(entries: &'a Vec<(String, Json)>, key: &str) -> (r: Option<&'a Json>)
    ensures
        match member(json_entries_view(entries@), key@) {
            None => r is None,
            Some(m) => r matches Some(j) && json_view(*j) == m,
        },
{
    let k = crate::text::chars_of(key);
    assert(json_entries_view(entries@).skip(0) == json_entries_view(entries@));
    let mut i: usize = 0;
    while i < entries.len()
        invariant
            i <= entries@.len(),
            k@ == key@,
            member(json_entries_view(entries@), key@) == member(json_entries_view(entries@).skip(i as int), key@),
        decreases entries@.len() - i,
    {
        let ghost rest = json_entries_view(entries@).skip(i as int);
        assert(rest.drop_first() == json_entries_view(entries@).skip(i + 1));
        assert(rest[0] == (entries@[i as int].0@, json_view(entries@[i as int].1)));
        let name = crate::text::chars_of(entries[i].0.as_str());
        if name.len() == k.len() && crate::text::starts_with_exec(name.as_slice(), k.as_slice()) {
            assert(name@ =~= k@);
            return Some(&entries[i].1);
        }
        assert(name@ != k@) by {
            if name@ == k@ {
                assert(name@.subrange(0, k@.len() as int) =~= k@);
            }
        }
        i = i + 1;
    }
    None
}

pub open spec fn json_entries_view(v: Seq<(String, Json)>) -> Seq<(Seq<char>, JsonModel)> {
    Seq::new(v.len(), |i: int| (v[i].0@, json_view(v[i].1)))
}

pub proof fn lemma_object_view(v: Vec<(String, Json)>)
    ensures
        json_view(Json::Object(v)) == JsonModel::Object(json_entries_view(v@)),
{
    let m = json_view(Json::Object(v));
    let s = m->Object_0;
    assert(s =~= json_entries_view(v@));
}

} // verus!
