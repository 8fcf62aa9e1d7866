//! The responses that the router makes on its own.

use hyper::StatusCode;
use vstd::prelude::*;

verus! {

/// A response with a text body.
#[derive(Debug)]
pub struct TextResponse {
    pub status: u16,
    pub content_type: String,
    pub body: String,
}

/// Calls `StatusCode::canonical_reason` on the status code: its standard phrase,
/// which is known for these codes.
#[verifier::external_body]
fn canonical_reason(status: u16) -> (r: &'static str)
    requires
        status == 404 || status == 500,
    ensures
        status == 404 ==> r@ == "Not Found"@,
        status == 500 ==> r@ == "Internal Server Error"@,
{
    StatusCode::from_u16(status).unwrap().canonical_reason().unwrap()
}

/// The answer to a request that no route serves.
pub fn not_found_response() -> (r: TextResponse)
    ensures
        r.status == 404,
        r.content_type@ == "text/plain"@,
        r.body@ == "Not Found"@,
{
    TextResponse {
        status: 404,
        content_type: "text/plain".to_owned(),
        body: canonical_reason(404).to_owned(),
    }
}

/// The answer to a request whose handler returned an error, which reads `err`.
pub fn server_error_response(err: &str) -> (r: TextResponse)
    ensures
        r.status == 500,
        r.content_type@ == "text/plain"@,
        r.body@ == "Internal Server Error"@ + ": "@ + err@,
{
    let mut body = canonical_reason(500).to_owned();
    body.append(": ");
    body.append(err);
    TextResponse { status: 500, content_type: "text/plain".to_owned(), body }
}

} // verus!
