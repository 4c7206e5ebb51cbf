//! Logging in to a REST application: the login data filled in from the
//! credentials, the body that carries it, and the token header built from
//! the login response.

use vstd::prelude::*;

use crate::common::json::{Json, JsonV, json_of, json_view, lemma_container_views, members_view, parse_json};
use super::http::BodyType;
use super::template::{ElemV, Template, TemplateError, pairs_view, spec_fill};

verus! {

/// The login data as (key, template) pairs, viewed.
pub open spec fn login_data_view(d: Seq<(String, Template)>) -> Seq<(Seq<char>, Seq<ElemV>)> {
    d.map_values(|p: (String, Template)| (p.0@, p.1@))
}

/// The login data filled in with the credentials, in order: each key with
/// its filled-in template; the missing variable of the first template
/// that cannot be filled in.
pub open spec fn filled_login(data: Seq<(Seq<char>, Seq<ElemV>)>, creds: Seq<(Seq<char>, Seq<char>)>) -> Result<Seq<(Seq<char>, Seq<char>)>, Seq<char>>
    decreases data.len(),
{
    if data.len() == 0 {
        Ok(Seq::empty())
    } else {
        match filled_login(data.drop_last(), creds) {
            Err(v) => Err(v),
            Ok(done) => match spec_fill(data.last().1, creds) {
                Ok(t) => Ok(done.push((data.last().0, t))),
                Err(v) => Err(v),
            },
        }
    }
}

/// Fills in the login data with the credentials (see `filled_login`).
pub fn fill_login_data(login_data: &Vec<(String, Template)>, creds: &Vec<(String, String)>) -> (r: Result<Vec<(String, String)>, TemplateError>)
    ensures
        match filled_login(login_data_view(login_data@), pairs_view(creds@)) {
            Ok(v) => r matches Ok(x) && pairs_view(x@) == v,
            Err(m) => r matches Err(TemplateError::MissingVariable(x)) && x@ == m,
        },
{
    let ghost dv = login_data_view(login_data@);
    let mut out: Vec<(String, String)> = Vec::new();
    let mut i: usize = 0;
    proof {
        assert(dv.take(0) =~= Seq::<(Seq<char>, Seq<ElemV>)>::empty());
        assert(pairs_view(out@) =~= Seq::<(Seq<char>, Seq<char>)>::empty());
    }
    while i < login_data.len()
        invariant
            i <= login_data@.len(),
            dv == login_data_view(login_data@),
            filled_login(dv.take(i as int), pairs_view(creds@)) == Ok::<Seq<(Seq<char>, Seq<char>)>, Seq<char>>(pairs_view(out@)),
        decreases login_data.len() - i,
    {
        proof {
            assert(dv.take(i + 1).drop_last() =~= dv.take(i as int));
            assert(dv.take(i + 1).last() == (login_data@[i as int].0@, login_data@[i as int].1@));
        }
        let (k, t) = &login_data[i];
        match t.fill_in(creds) {
            Ok(text) => {
                let ghost o0 = pairs_view(out@);
                let ghost e = (k@, text@);
                out.push((k.clone(), text));
                proof {
                    assert(pairs_view(out@) =~= o0.push(e));
                }
            },
            Err(e) => {
                proof {
                    lemma_filled_stays_failed(dv, pairs_view(creds@), i as int + 1);
                }
                return Err(e);
            },
        }
        i = i + 1;
    }
    proof {
        assert(dv.take(i as int) =~= dv);
    }
    Ok(out)
}

proof fn lemma_filled_stays_failed(data: Seq<(Seq<char>, Seq<ElemV>)>, creds: Seq<(Seq<char>, Seq<char>)>, n: int)
    requires
        0 <= n <= data.len(),
        filled_login(data.take(n), creds) is Err,
    ensures
        filled_login(data, creds) == filled_login(data.take(n), creds),
    decreases data.len() - n,
{
    if n < data.len() {
        assert(data.take(n + 1).drop_last() =~= data.take(n));
        lemma_filled_stays_failed(data, creds, n + 1);
    } else {
        assert(data.take(n) =~= data);
    }
}

/// The text of a JSON object whose members are the given keys, each with
/// its text as a JSON string, as `serde_json` writes it.
pub uninterp spec fn json_object_text(pairs: Seq<(Seq<char>, Seq<char>)>) -> Seq<char>;

/// Writes the pairs as a JSON object of strings with `serde_json`
/// (`serde_json::to_string` of a `serde_json::Map`, a later pair for a key
/// replacing an earlier one). Claimed: the text is `json_object_text` of
/// the pairs; writing such a map does not fail.
#[verifier::external_body]
fn json_object(pairs: &Vec<(String, String)>) -> (r: String)
    ensures
        r@ == json_object_text(pairs_view(pairs@)),
{
    let map: serde_json::Map<String, serde_json::Value> =
        pairs.iter().map(|(k, v)| (k.clone(), serde_json::Value::String(v.clone()))).collect();
    serde_json::Value::Object(map).to_string()
}

/// The text of the pairs, in order, form-urlencoded as `serde_urlencoded`
/// writes it.
pub uninterp spec fn form_text(pairs: Seq<(Seq<char>, Seq<char>)>) -> Seq<char>;

/// Writes the pairs, in order, form-urlencoded with
/// `serde_urlencoded::to_string`. Claimed: a list of pairs of strings is
/// written without error, and the text is `form_text` of the pairs.
#[verifier::external_body]
fn form_pairs(pairs: &Vec<(String, String)>) -> (r: Result<String, String>)
    ensures
        r is Ok,
        r->Ok_0@ == form_text(pairs_view(pairs@)),
{
    serde_urlencoded::to_string(pairs).map_err(|e| e.to_string())
}

/// The body of a login request: the filled-in data as a JSON object, or
/// form-urlencoded; empty without a body.
pub fn login_body(body_type: &BodyType, data: &Vec<(String, String)>) -> (r: String)
    ensures
        r@ == match body_type {
            BodyType::JSON => json_object_text(pairs_view(data@)),
            BodyType::FormUrlEncoded => form_text(pairs_view(data@)),
            BodyType::NoBody => Seq::<char>::empty(),
        },
{
    match body_type {
        BodyType::JSON => json_object(data),
        BodyType::FormUrlEncoded => match form_pairs(data) {
            Ok(t) => t,
            Err(e) => e,
        },
        BodyType::NoBody => String::new(),
    }
}

/// The members of a JSON object whose values are strings, as (name, text)
/// pairs, in order.
pub open spec fn string_members(ms: Seq<(Seq<char>, JsonV)>) -> Seq<(Seq<char>, Seq<char>)>
    decreases ms.len(),
{
    if ms.len() == 0 {
        Seq::empty()
    } else {
        let p = string_members(ms.drop_last());
        match ms.last().1 {
            JsonV::Text(t) => p.push((ms.last().0, t)),
            _ => p,
        }
    }
}

/// The token that a login response gives: for a JSON object, the token
/// template filled in with its string members (or the missing variable);
/// `None` for any other JSON value.
pub open spec fn token_of(template: Seq<ElemV>, response: JsonV) -> Option<Result<Seq<char>, Seq<char>>> {
    match response {
        JsonV::Object(ms) => Some(spec_fill(template, string_members(ms))),
        _ => None,
    }
}

/// `r` is the token `t`, with a missing variable as a template error.
pub open spec fn token_is(r: Option<Result<String, TemplateError>>, t: Option<Result<Seq<char>, Seq<char>>>) -> bool {
    match t {
        None => r is None,
        Some(Ok(text)) => r matches Some(Ok(s)) && s@ == text,
        Some(Err(v)) => r matches Some(Err(TemplateError::MissingVariable(s))) && s@ == v,
    }
}

/// The value of the authorization header after a login: the token template
/// filled in with the string members of the login response, which must be
/// a JSON object (see `token_of`).
pub fn token_header(template: &Template, response: &Json) -> (r: Option<Result<String, TemplateError>>)
    ensures
        token_is(r, token_of(template@, json_view(*response))),
{
    proof {
        lemma_container_views(*response);
    }
    match response {
        Json::Object(fs) => {
            let ghost mv = members_view(fs@);
            let mut vars: Vec<(String, String)> = Vec::new();
            let mut i: usize = 0;
            while i < fs.len()
                invariant
                    i <= fs@.len(),
                    mv == members_view(fs@),
                    pairs_view(vars@) == string_members(mv.take(i as int)),
                decreases fs.len() - i,
            {
                proof {
                    assert(mv.take(i + 1).drop_last() =~= mv.take(i as int));
                    assert(mv.take(i + 1).last() == (fs@[i as int].0@, json_view(fs@[i as int].1)));
                }
                match &fs[i].1 {
                    Json::Text(t) => {
                        let ghost v0 = pairs_view(vars@);
                        let ghost e = (fs@[i as int].0@, t@);
                        vars.push((fs[i].0.clone(), t.clone()));
                        proof {
                            assert(pairs_view(vars@) =~= v0.push(e));
                        }
                    },
                    _ => {},
                }
                i = i + 1;
            }
            proof {
                assert(mv.take(i as int) =~= mv);
            }
            Some(template.fill_in(&vars))
        },
        _ => None,
    }
}

/// The authorization header of a login response given as text: the text
/// that is no JSON gives the parse error; otherwise as `token_header`.
pub fn token_from_response(template: &Template, response: &str) -> (r: Result<Option<Result<String, TemplateError>>, String>)
    ensures
        match json_of(response@) {
            Err(m) => r matches Err(x) && x@ == m,
            Ok(j) => r matches Ok(o) && token_is(o, token_of(template@, j)),
        },
{
    match parse_json(response) {
        Err(m) => Err(m),
        Ok(j) => Ok(token_header(template, &j)),
    }
}

} // verus!
