//! The routes the service answers, and how a refused request is answered.

pub mod deserialize_path;

use crate::url_to_cqn::UriError;
use vstd::prelude::*;

verus! {

/// The route pattern that serves every path below a service.
pub fn service_route(service_name: &str) -> (r: String)
    ensures
        r@ == service_name@ + "/*"@,
{
    let mut r = String::from_str(service_name);
    r.append("/*");
    r
}

/// The answer to a request for the root: status 200 with a hint.
pub fn root_response() -> (r: (u16, String))
    ensures
        r.0 == 200,
        r.1@ == "Please use proper routes."@,
{
    (200, String::from_str("Please use proper routes."))
}

/// The answer to a request that could not be read: 400 for an invalid URI,
/// 501 for a method that is not implemented.
pub fn error_response(e: &UriError) -> (r: (u16, String))
    ensures
        r.0 == match e {
            UriError::InvalidURI => 400u16,
            UriError::NotImplemented => 501u16,
        },
        r.1@ == "Bad request"@,
{
    match e {
        UriError::InvalidURI => (400, String::from_str("Bad request")),
        UriError::NotImplemented => (501, String::from_str("Bad request")),
    }
}

} // verus!
