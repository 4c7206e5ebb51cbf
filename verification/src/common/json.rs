//! JSON documents as plain values.

use vstd::prelude::*;
use serde_json::Value as JsonValue;
use vstd::string::StringExecFns;

verus! {

#[verifier::external_type_specification]
#[verifier::external_body]
pub struct ExJsonValue(JsonValue);

/// A JSON document; numbers are kept as their text.
pub enum Json {
    Null,
    Bool(bool),
    Number(String),
    Text(String),
    Array(Vec<Json>),
    Object(Vec<(String, Json)>),
}

/// View of a JSON document.
pub enum JsonV {
    Null,
    Bool(bool),
    Number(Seq<char>),
    Text(Seq<char>),
    Array(Seq<JsonV>),
    Object(Seq<(Seq<char>, JsonV)>),
}

/// The view of a JSON document.
pub open spec fn json_view(j: Json) -> JsonV
    decreases j,
{
    match j {
        Json::Null => JsonV::Null,
        Json::Bool(b) => JsonV::Bool(b),
        Json::Number(n) => JsonV::Number(n@),
        Json::Text(t) => JsonV::Text(t@),
        Json::Array(v) => JsonV::Array(Seq::new(v@.len(), |i: int|
            if 0 <= i < v@.len() { json_view(v@[i]) } else { JsonV::Null })),
        Json::Object(v) => JsonV::Object(Seq::new(v@.len(), |i: int|
            if 0 <= i < v@.len() { (v@[i].0@, json_view(v@[i].1)) } else { (Seq::empty(), JsonV::Null) })),
    }
}

/// The items of an array, viewed.
pub open spec fn items_view(v: Seq<Json>) -> Seq<JsonV> {
    v.map_values(|j: Json| json_view(j))
}

/// The members of an object, viewed.
pub open spec fn members_view(fs: Seq<(String, Json)>) -> Seq<(Seq<char>, JsonV)> {
    fs.map_values(|p: (String, Json)| (p.0@, json_view(p.1)))
}

/// The view of an array or object is that of its items or members.
pub proof fn lemma_container_views(j: Json)
    ensures
        j matches Json::Array(v) ==> json_view(j) == JsonV::Array(items_view(v@)),
        j matches Json::Object(v) ==> json_view(j) == JsonV::Object(members_view(v@)),
{
    match j {
        Json::Array(v) => {
            let a = json_view(j)->Array_0;
            assert(a.len() == v@.len());
            assert forall|i: int| 0 <= i < a.len() implies a[i] == items_view(v@)[i] by {}
            assert(a =~= items_view(v@));
        },
        Json::Object(v) => {
            let a = json_view(j)->Object_0;
            assert(a.len() == v@.len());
            assert forall|i: int| 0 <= i < a.len() implies a[i] == members_view(v@)[i] by {}
            assert(a =~= members_view(v@));
        },
        _ => {},
    }
}

/// What `serde_json` reads a text as: a JSON document, or the text of
/// its error.
pub uninterp spec fn json_of(text: Seq<char>) -> Result<JsonV, Seq<char>>;

/// Turns a `serde_json` value into a document of the library, variant by
/// variant (numbers by their text). Nothing is claimed of it on its own:
/// `parse_json` states the result of reading and converting together.
#[verifier::external_body]
fn json_from_value(v: &JsonValue) -> Json {
    match v {
        JsonValue::Null => Json::Null,
        JsonValue::Bool(b) => Json::Bool(*b),
        JsonValue::Number(n) => Json::Number(n.to_string()),
        JsonValue::String(t) => Json::Text(t.clone()),
        JsonValue::Array(a) => Json::Array(a.iter().map(json_from_value).collect()),
        JsonValue::Object(o) => Json::Object(o.iter().map(|(k, x)| (k.clone(), json_from_value(x))).collect()),
    }
}

/// Reads a JSON text with `serde_json::from_str` into a document of the
/// library, or gives the text of the error. Claimed: the result is
/// `json_of` of the text.
#[verifier::external_body]
pub(crate) fn parse_json(text: &str) -> (r: Result<Json, String>)
    ensures
        match r {
            Ok(j) => json_of(text@) == Ok::<JsonV, Seq<char>>(json_view(j)),
            Err(e) => json_of(text@) == Err::<JsonV, Seq<char>>(e@),
        },
{
    let v: JsonValue = serde_json::from_str(text).map_err(|e| e.to_string())?;
    Ok(json_from_value(&v))
}

/// The value of the last member named `k` of an object.
pub open spec fn member(fs: Seq<(Seq<char>, JsonV)>, k: Seq<char>) -> Option<JsonV>
    decreases fs.len(),
{
    if fs.len() == 0 {
        None
    } else if fs.last().0 == k {
        Some(fs.last().1)
    } else {
        member(fs.drop_last(), k)
    }
}

/// The member named `k` of the members of an object.
pub fn get_member<'a>(fs: &'a Vec<(String, Json)>, k: &str) -> (r: Option<&'a Json>)
    ensures
        match member(members_view(fs@), k@) {
            Some(v) => r matches Some(j) && json_view(*j) == v,
            None => r is None,
        },
{
    let ghost all = fs@.map_values(|p: (String, Json)| (p.0@, json_view(p.1)));
    let key = String::from_str(k);
    let mut i = fs.len();
    proof {
        assert(all.take(i as int) =~= all);
    }
    while i > 0
        invariant
            i <= fs@.len(),
            all == fs@.map_values(|p: (String, Json)| (p.0@, json_view(p.1))),
            key@ == k@,
            member(all, k@) == member(all.take(i as int), k@),
        decreases i,
    {
        proof {
            assert(all.take(i as int).drop_last() =~= all.take(i - 1));
        }
        if fs[i - 1].0 == key {
            return Some(&fs[i - 1].1);
        }
        i = i - 1;
    }
    proof {
        assert(all.take(0) =~= Seq::<(Seq<char>, JsonV)>::empty());
    }
    None
}

} // verus!
