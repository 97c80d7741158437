//! A JSON document as plain values, built by the library and handed to a JSON encoder.
use vstd::prelude::*;

verus! {

/// A JSON value. Object members keep the order in which they were listed.
#[derive(Debug)]
pub enum Json {
    Null,
    Bool(bool),
    Int(i64),
    Str(String),
    Array(Vec<Json>),
    Object(Vec<(String, Json)>),
}

/// What a [`Json`] value holds, with texts as character sequences.
pub enum JsonSpec {
    Null,
    Bool(bool),
    Int(i64),
    Str(Seq<char>),
    Array(Seq<JsonSpec>),
    Object(Seq<(Seq<char>, JsonSpec)>),
}

/// The content of a JSON value.
pub open spec fn json_view(j: Json) -> JsonSpec
    decreases j,
{
    match j {
        Json::Null => JsonSpec::Null,
        Json::Bool(b) => JsonSpec::Bool(b),
        Json::Int(n) => JsonSpec::Int(n),
        Json::Str(s) => JsonSpec::Str(s@),
        Json::Array(items) => JsonSpec::Array(
            Seq::new(
                items@.len(),
                |i: int|
                    if 0 <= i < items@.len() {
                        json_view(items@[i])
                    } else {
                        JsonSpec::Null
                    },
            ),
        ),
        Json::Object(members) => JsonSpec::Object(
            Seq::new(
                members@.len(),
                |i: int|
                    if 0 <= i < members@.len() {
                        (members@[i].0@, json_view(members@[i].1))
                    } else {
                        (Seq::empty(), JsonSpec::Null)
                    },
            ),
        ),
    }
}

/// The content of a list of object members.
pub open spec fn members_view(members: Seq<(String, Json)>) -> Seq<(Seq<char>, JsonSpec)> {
    Seq::new(members.len(), |i: int| (members[i].0@, json_view(members[i].1)))
}

/// The content of a list of array items.
pub open spec fn items_view(items: Seq<Json>) -> Seq<JsonSpec> {
    Seq::new(items.len(), |i: int| json_view(items[i]))
}

/// An object's content is its members' content, and an array's its items' content.
pub proof fn lemma_json_view(j: Json)
    ensures
        j matches Json::Object(members) ==> json_view(j) == JsonSpec::Object(members_view(members@)),
        j matches Json::Array(items) ==> json_view(j) == JsonSpec::Array(items_view(items@)),
{
    match j {
        Json::Object(members) => {
            assert(json_view(j) is Object);
            let s = json_view(j)->Object_0;
            assert(s =~= members_view(members@));
        },
        Json::Array(items) => {
            assert(json_view(j) is Array);
            let s = json_view(j)->Array_0;
            assert(s =~= items_view(items@));
        },
        _ => {},
    }
}

/// A JSON string holding `s`.
pub fn str_json(s: &str) -> (j: Json)
    ensures
        json_view(j) == JsonSpec::Str(s@),
{
    Json::Str(String::from_str(s))
}

/// An object member: the key and the value.
pub fn member(key: &str, value: Json) -> (m: (String, Json))
    ensures
        m.0@ == key@,
        m.1 == value,
{
    (String::from_str(key), value)
}

} // verus!
