//! HTTP-level settings of REST applications.

use vstd::prelude::*;
use vstd::string::StringExecFns;

use super::template::Template;

verus! {

/// Encoding of a request body.
pub enum BodyType {
    JSON,
    FormUrlEncoded,
    NoBody,
}

impl BodyType {
    /// The MIME type that announces this body encoding (empty for no body).
    pub fn mime_type(&self) -> (r: String)
        ensures
            r@ == match self {
                BodyType::FormUrlEncoded => "application/x-www-form-urlencoded"@,
                BodyType::JSON => "application/json"@,
                BodyType::NoBody => Seq::<char>::empty(),
            },
    {
        match self {
            BodyType::FormUrlEncoded => String::from_str("application/x-www-form-urlencoded"),
            BodyType::JSON => String::from_str("application/json"),
            BodyType::NoBody => String::new(),
        }
    }
}

/// Content type accepted in responses.
pub enum ContentType {
    JSON,
}

impl ContentType {
    /// The MIME type of this content type.
    pub fn mime_type(&self) -> (r: String)
        ensures
            r@ == "application/json"@,
    {
        match self {
            ContentType::JSON => String::from_str("application/json"),
        }
    }
}

/// How a REST application authenticates after logging in.
pub enum AuthType {
    Token(Template),
    Cookie,
}

/// HTTP request methods.
pub enum HTTPMethod {
    GET,
    POST,
}

} // verus!
