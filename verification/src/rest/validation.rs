//! Checking a JSON response against a JSON schema.

use vstd::prelude::*;

use crate::common::data::strings_view;
use crate::common::json::{Json, JsonV, json_of, json_view, lemma_container_views, items_view, members_view, parse_json};
use crate::common::text::{chars_eq, chars_of};
use vstd::string::StringExecFns;

verus! {

/// Why a text does not meet a schema.
pub enum SchemaError {
    /// The text is no JSON (the parser's message).
    Json(String),
    /// The schema is no JSON (the parser's message).
    Schema(String),
    /// The schema does not compile (the compiler's message).
    Compile(String),
    /// The value breaks the schema (a text per violation).
    Violations(Vec<String>),
}

/// View of why a text does not meet a schema.
pub enum SchemaErrorV {
    Json(Seq<char>),
    Schema(Seq<char>),
    Compile(Seq<char>),
    Violations(Seq<Seq<char>>),
}

impl View for SchemaError {
    type V = SchemaErrorV;

    open spec fn view(&self) -> SchemaErrorV {
        match self {
            SchemaError::Json(m) => SchemaErrorV::Json(m@),
            SchemaError::Schema(m) => SchemaErrorV::Schema(m@),
            SchemaError::Compile(m) => SchemaErrorV::Compile(m@),
            SchemaError::Violations(v) => SchemaErrorV::Violations(strings_view(v@)),
        }
    }
}

/// What checking the JSON text `json` against the JSON schema text
/// `schema` gives: `serde_json` reads both, `jsonschema` compiles the
/// schema and validates the value.
pub uninterp spec fn schema_check(json: Seq<char>, schema: Seq<char>) -> Result<(), SchemaErrorV>;

/// A JSON value holds a schema reference: an object member named `$ref`,
/// at any depth.
pub open spec fn mentions_ref(j: JsonV) -> bool
    decreases j, 1nat, 0int,
{
    match j {
        JsonV::Array(items) => some_mention_ref(j, items.len() as int),
        JsonV::Object(ms) => some_mention_ref(j, ms.len() as int),
        _ => false,
    }
}

/// One of the first `n` items of an array, or members of an object, holds
/// a schema reference (for a member: its name is `$ref`, or its value
/// holds one).
pub open spec fn some_mention_ref(j: JsonV, n: int) -> bool
    decreases j, 0nat, n,
{
    if n <= 0 {
        false
    } else {
        match j {
            JsonV::Array(items) => n <= items.len() && (mentions_ref(items[n - 1]) || some_mention_ref(j, n - 1)),
            JsonV::Object(ms) => n <= ms.len()
                && (ms[n - 1].0 == "$ref"@ || mentions_ref(ms[n - 1].1) || some_mention_ref(j, n - 1)),
            _ => false,
        }
    }
}

/// A schema text that is JSON and holds a reference (see `mentions_ref`).
pub open spec fn schema_refers(schema: Seq<char>) -> bool {
    json_of(schema) matches Ok(j) && mentions_ref(j)
}

proof fn lemma_mention_grows(j: JsonV, n: int, m: int)
    requires
        0 <= n <= m,
        some_mention_ref(j, n),
        match j {
            JsonV::Array(items) => m <= items.len(),
            JsonV::Object(ms) => m <= ms.len(),
            _ => true,
        },
    ensures
        some_mention_ref(j, m),
    decreases m - n,
{
    if n < m {
        lemma_mention_grows(j, n, m - 1);
    }
}

/// Whether a JSON document holds a schema reference (see `mentions_ref`).
pub fn has_ref(j: &Json) -> (r: bool)
    ensures
        r == mentions_ref(json_view(*j)),
    decreases j,
{
    proof {
        lemma_container_views(*j);
    }
    match j {
        Json::Array(v) => {
            let ghost iv = items_view(v@);
            let mut i: usize = 0;
            while i < v.len()
                invariant
                    i <= v@.len(),
                    *j == Json::Array(*v),
                    json_view(*j) == JsonV::Array(iv),
                    iv == items_view(v@),
                    !some_mention_ref(JsonV::Array(iv), i as int),
                decreases v.len() - i,
            {
                proof {
                    assert(iv[i as int] == json_view(v@[i as int]));
                }
                if has_ref(&v[i]) {
                    proof {
                        lemma_mention_grows(JsonV::Array(iv), i as int + 1, iv.len() as int);
                    }
                    return true;
                }
                i = i + 1;
            }
            false
        },
        Json::Object(fs) => {
            let ghost mv = members_view(fs@);
            let key = chars_of("$ref");
            proof {
                reveal_strlit("$ref");
            }
            let mut i: usize = 0;
            while i < fs.len()
                invariant
                    i <= fs@.len(),
                    *j == Json::Object(*fs),
                    json_view(*j) == JsonV::Object(mv),
                    mv == members_view(fs@),
                    key@ == "$ref"@,
                    !some_mention_ref(JsonV::Object(mv), i as int),
                decreases fs.len() - i,
            {
                proof {
                    assert(mv[i as int] == (fs@[i as int].0@, json_view(fs@[i as int].1)));
                }
                let name = chars_of(fs[i].0.as_str());
                if chars_eq(name.as_slice(), key.as_slice()) || has_ref(&fs[i].1) {
                    proof {
                        lemma_mention_grows(JsonV::Object(mv), i as int + 1, mv.len() as int);
                    }
                    return true;
                }
                i = i + 1;
            }
            false
        },
        _ => false,
    }
}

/// Reads both texts with `serde_json::from_str`, compiles the schema with
/// `jsonschema::JSONSchema::compile` and validates the value with
/// `JSONSchema::validate` (each violation in its debug form); errors are
/// turned into their messages. Claimed: the result is `schema_check` of
/// the texts. The schema holds no reference (see `schema_refers`):
/// `jsonschema` compiles a reference anew each time it validates through
/// it, so a reference that leads back to itself recurses without end.
#[verifier::external_body]
pub(crate) fn check_against_schema(json: &str, schema: &str) -> (r: Result<(), SchemaError>)
    requires
        !schema_refers(schema@),
    ensures
        match r {
            Ok(()) => schema_check(json@, schema@) == Ok::<(), SchemaErrorV>(()),
            Err(e) => schema_check(json@, schema@) == Err::<(), SchemaErrorV>(e@),
        },
{
    let value: serde_json::Value = serde_json::from_str(json).map_err(|e| SchemaError::Json(e.to_string()))?;
    let schema: serde_json::Value = serde_json::from_str(schema).map_err(|e| SchemaError::Schema(e.to_string()))?;
    let compiled = jsonschema::JSONSchema::compile(&schema).map_err(|e| SchemaError::Compile(e.to_string()))?;
    let violations: Vec<String> = match compiled.validate(&value) {
        Ok(()) => return Ok(()),
        Err(errors) => errors.map(|e| format!("{:?}", e)).collect(),
    };
    Err(SchemaError::Violations(violations))
}

/// Why a REST response cannot be used.
pub enum RESTError {
    /// The response, or the schema, is no JSON (the message).
    SerdeJSONError(String),
    /// The schema does not compile (the message).
    CompilationError(String),
    /// The response breaks the schema (a text per violation).
    ValidationError(Vec<String>),
}

/// The error that a failed schema check is reported as.
pub open spec fn rest_error_of(e: SchemaErrorV, r: RESTError) -> bool {
    match e {
        SchemaErrorV::Json(m) | SchemaErrorV::Schema(m) => r matches RESTError::SerdeJSONError(x) && x@ == m,
        SchemaErrorV::Compile(m) => r matches RESTError::CompilationError(x) && x@ == m,
        SchemaErrorV::Violations(v) => r matches RESTError::ValidationError(x) && strings_view(x@) == v,
    }
}

/// The error text for a schema that holds a reference.
pub open spec fn refused_ref_text() -> Seq<char> {
    "schema references ($ref) are not supported"@
}

/// Checks a JSON response against a JSON schema (see `schema_check`): a
/// text that is no JSON is a `SerdeJSONError`, a schema that does not
/// compile a `CompilationError`, a response with violations a
/// `ValidationError` that lists them. A schema that holds a reference
/// (see `schema_refers`) is refused with a `CompilationError`.
pub fn validate_json(json: &String, schema: &String) -> (r: Result<(), RESTError>)
    ensures
        schema_refers(schema@) ==> (r matches Err(RESTError::CompilationError(x)) && x@ == refused_ref_text()),
        !schema_refers(schema@) ==> match schema_check(json@, schema@) {
            Ok(()) => r is Ok,
            Err(e) => r matches Err(x) && rest_error_of(e, x),
        },
{
    match parse_json(schema.as_str()) {
        Ok(j) => {
            if has_ref(&j) {
                let msg = String::from_str("schema references ($ref) are not supported");
                proof {
                    reveal_strlit("schema references ($ref) are not supported");
                }
                return Err(RESTError::CompilationError(msg));
            }
        },
        Err(_) => {},
    }
    match check_against_schema(json.as_str(), schema.as_str()) {
        Ok(()) => Ok(()),
        Err(SchemaError::Json(m)) => Err(RESTError::SerdeJSONError(m)),
        Err(SchemaError::Schema(m)) => Err(RESTError::SerdeJSONError(m)),
        Err(SchemaError::Compile(m)) => Err(RESTError::CompilationError(m)),
        Err(SchemaError::Violations(v)) => Err(RESTError::ValidationError(v)),
    }
}

} // verus!
