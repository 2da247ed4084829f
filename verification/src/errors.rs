//! Responses the router produces itself, described as plain values.
use vstd::prelude::*;

use crate::constants::HEADER_ROUTER_ERROR;

verus! {

/// A response: status code, headers in the order they are set, and body.
pub struct PlainResponse {
    pub status: u16,
    pub headers: Vec<(String, String)>,
    pub body: String,
}

/// The view of a header list: pairs of names and values.
pub open spec fn headers_view(h: Seq<(String, String)>) -> Seq<(Seq<char>, Seq<char>)> {
    h.map_values(|p: (String, String)| (p.0@, p.1@))
}

/// An error response of the router: `message` as the body, `status` as the status code,
/// and the error `code` in the `x-router-error` header.
pub fn router_error(message: &str, status: u16, code: &str) -> (r: PlainResponse)
    ensures
        r.status == status,
        r.body@ == message@,
        headers_view(r.headers@) == seq![("x-router-error"@, code@)],
{
    let mut headers: Vec<(String, String)> = Vec::new();
    headers.push((String::from_str(HEADER_ROUTER_ERROR), String::from_str(code)));
    assert(headers_view(headers@) =~= seq![(HEADER_ROUTER_ERROR@, code@)]);
    PlainResponse { status, headers, body: String::from_str(message) }
}

} // verus!
