//! Reading the listing of the resources of a subscription.

use vstd::prelude::*;

use crate::common::json::{Json, JsonV, get_member, items_view, json_of, json_view, lemma_container_views, member, members_view, parse_json};
use crate::common::strmap::StrMap;
use crate::common::text::{push_str, string_from_chars};
use super::metrics::{group_resources, grouped_of, groups_view, listing_view};
use vstd::string::StringExecFns;

verus! {

/// The text of member `k` of a resource, or why it has none.
pub open spec fn resource_text(fs: Seq<(Seq<char>, JsonV)>, k: Seq<char>) -> Result<Seq<char>, Seq<char>> {
    match member(fs, k) {
        None => Err("resource has no parameter '"@ + k + "'"@),
        Some(JsonV::Text(t)) => Ok(t),
        Some(_) => Err("the parameter '"@ + k + "' in resource is not a string"@),
    }
}

/// The name space, name and id of a resource, or why it has none.
pub open spec fn resource_entry(item: JsonV) -> Result<(Seq<char>, Seq<char>, Seq<char>), Seq<char>> {
    match item {
        JsonV::Object(fs) => match resource_text(fs, "type"@) {
            Err(e) => Err(e),
            Ok(t) => match resource_text(fs, "name"@) {
                Err(e) => Err(e),
                Ok(n) => match resource_text(fs, "id"@) {
                    Err(e) => Err(e),
                    Ok(i) => Ok((t, n, i)),
                },
            },
        },
        _ => Err("resource is not an object"@),
    }
}

/// The resources of a list, in order; the first that cannot be read gives
/// the error.
pub open spec fn resource_entries(items: Seq<JsonV>) -> Result<Seq<(Seq<char>, Seq<char>, Seq<char>)>, Seq<char>>
    decreases items.len(),
{
    if items.len() == 0 {
        Ok(Seq::empty())
    } else {
        match resource_entries(items.drop_last()) {
            Err(e) => Err(e),
            Ok(l) => match resource_entry(items.last()) {
                Err(e) => Err(e),
                Ok(t) => Ok(l.push(t)),
            },
        }
    }
}

/// The resources of a listing: the array under `value` of the response
/// object, each resource an object with the texts `type`, `name` and `id`.
pub open spec fn resources_spec(v: JsonV) -> Result<Seq<(Seq<char>, Seq<char>, Seq<char>)>, Seq<char>> {
    match v {
        JsonV::Object(fs) => match member(fs, "value"@) {
            None => Err("response has no value parameter"@),
            Some(JsonV::Array(items)) => resource_entries(items),
            Some(_) => Err("the value parameter is not an array"@),
        },
        _ => Err("response is not an object"@),
    }
}

fn member_text(fs: &Vec<(String, Json)>, k: &str) -> (r: Result<String, String>)
    ensures
        match (r, resource_text(members_view(fs@), k@)) {
            (Ok(a), Ok(b)) => a@ == b,
            (Err(a), Err(b)) => a@ == b,
            _ => false,
        },
{
    match get_member(fs, k) {
        None => {
            let mut out: Vec<char> = Vec::new();
            push_str(&mut out, "resource has no parameter '");
            push_str(&mut out, k);
            push_str(&mut out, "'");
            Err(string_from_chars(out.as_slice()))
        },
        Some(Json::Text(t)) => Ok(t.clone()),
        Some(_) => {
            let mut out: Vec<char> = Vec::new();
            push_str(&mut out, "the parameter '");
            push_str(&mut out, k);
            push_str(&mut out, "' in resource is not a string");
            Err(string_from_chars(out.as_slice()))
        },
    }
}

fn entry_of(item: &Json) -> (r: Result<(String, String, String), String>)
    ensures
        match (r, resource_entry(json_view(*item))) {
            (Ok(a), Ok(b)) => a.0@ == b.0 && a.1@ == b.1 && a.2@ == b.2,
            (Err(a), Err(b)) => a@ == b,
            _ => false,
        },
{
    match item {
        Json::Object(fs) => {
            proof {
                lemma_container_views(*item);
            }
            let t = match member_text(fs, "type") {
                Ok(t) => t,
                Err(e) => return Err(e),
            };
            let n = match member_text(fs, "name") {
                Ok(n) => n,
                Err(e) => return Err(e),
            };
            let i = match member_text(fs, "id") {
                Ok(i) => i,
                Err(e) => return Err(e),
            };
            Ok((t, n, i))
        },
        _ => Err(String::from_str("resource is not an object")),
    }
}

/// The resources of a listing (see `resources_spec`).
pub fn resources_of(v: &Json) -> (r: Result<Vec<(String, String, String)>, String>)
    ensures
        match (r, resources_spec(json_view(*v))) {
            (Ok(a), Ok(b)) => listing_view(a@) == b,
            (Err(a), Err(b)) => a@ == b,
            _ => false,
        },
{
    let fs = match v {
        Json::Object(fs) => fs,
        _ => return Err(String::from_str("response is not an object")),
    };
    proof {
        lemma_container_views(*v);
    }
    let items = match get_member(fs, "value") {
        None => return Err(String::from_str("response has no value parameter")),
        Some(Json::Array(items)) => items,
        Some(_) => return Err(String::from_str("the value parameter is not an array")),
    };
    let ghost iv = items_view(items@);
    proof {
        lemma_container_views(Json::Array(*items));
        assert(member(members_view(fs@), "value"@) == Some(JsonV::Array(iv)));
        assert(iv.take(0) =~= Seq::<JsonV>::empty());
        assert(resources_spec(json_view(*v)) == resource_entries(iv));
    }
    let mut out: Vec<(String, String, String)> = Vec::new();
    proof {
        assert(listing_view(out@) =~= Seq::<(Seq<char>, Seq<char>, Seq<char>)>::empty());
    }
    let mut i: usize = 0;
    while i < items.len()
        invariant
            i <= items@.len(),
            resources_spec(json_view(*v)) == resource_entries(iv),
            iv == items_view(items@),
            iv.len() == items@.len(),
            forall|j: int| 0 <= j < items@.len() ==> #[trigger] iv[j] == json_view(items@[j]),
            resource_entries(iv.take(i as int)) == Ok::<Seq<(Seq<char>, Seq<char>, Seq<char>)>, Seq<char>>(listing_view(out@)),
        decreases items.len() - i,
    {
        proof {
            assert(iv.take(i + 1).drop_last() =~= iv.take(i as int));
            assert(iv.take(i + 1).last() == json_view(items@[i as int]));
        }
        match entry_of(&items[i]) {
            Ok(e) => {
                let ghost o0 = listing_view(out@);
                let ghost ev = (e.0@, e.1@, e.2@);
                out.push(e);
                proof {
                    assert(listing_view(out@) =~= o0.push(ev));
                }
            },
            Err(m) => {
                proof {
                    lemma_entries_err(iv, i as int + 1);
                }
                return Err(m);
            },
        }
        i = i + 1;
    }
    proof {
        assert(iv.take(i as int) =~= iv);
    }
    Ok(out)
}

proof fn lemma_entries_err(items: Seq<JsonV>, n: int)
    requires
        0 < n <= items.len(),
        resource_entries(items.take(n)) is Err,
    ensures
        resource_entries(items) == resource_entries(items.take(n)),
    decreases items.len() - n,
{
    if n < items.len() {
        assert(items.take(n + 1).drop_last() =~= items.take(n));
        lemma_entries_err(items, n + 1);
    } else {
        assert(items.take(n) =~= items);
    }
}

/// Reads the listing of the resources of a subscription and groups them
/// by name space: a text that is no JSON gives the parser's message, a
/// listing that cannot be read gives why (see `resources_spec`).
pub fn resources_from_listing(response: &str) -> (r: Result<StrMap<Vec<(String, String)>>, String>)
    ensures
        match json_of(response@) {
            Err(e) => r matches Err(m) && m@ == e,
            Ok(v) => match resources_spec(v) {
                Err(e) => r matches Err(m) && m@ == e,
                Ok(l) => r matches Ok(g) && groups_view(g@) == grouped_of(l),
            },
        },
{
    let doc = match parse_json(response) {
        Ok(d) => d,
        Err(e) => return Err(e),
    };
    match resources_of(&doc) {
        Ok(list) => Ok(group_resources(list)),
        Err(m) => Err(m),
    }
}

} // verus!
