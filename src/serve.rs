//! What a connection is answered, given what was read and what resolved.
use vstd::prelude::*;
use vstd::utf8::{decode_utf8, encode_utf8, valid_utf8};

use crate::http::{error_parts, error_response, HttpResponse};
use crate::request::{lossy_utf8, parse_request, request_line, target_of};
use crate::resolve::PathError;

verus! {

/// The HTTP status that a resolution failure is answered with.
pub open spec fn status_spec(e: PathError) -> u16 {
    match e {
        PathError::NotFound => 404,
        PathError::InvalidPath => 403,
        PathError::Forbidden => 403,
        PathError::Oversized => 500,
    }
}

/// The HTTP status that a resolution failure is answered with.
pub fn status_for(e: PathError) -> (r: u16)
    ensures
        r == status_spec(e),
{
    match e {
        PathError::NotFound => 404,
        PathError::InvalidPath => 403,
        PathError::Forbidden => 403,
        PathError::Oversized => 500,
    }
}

/// The response to a failed resolution.
pub fn failure_response(e: PathError) -> (r: HttpResponse)
    ensures
        r.status_code == error_parts(status_spec(e)).0,
        r.status_text@ == error_parts(status_spec(e)).1,
        r.content_type@ == "text/plain"@,
        r.body@ == encode_utf8(error_parts(status_spec(e)).2),
{
    error_response(status_for(e))
}

/// The response to a resolved path: the file's bytes as `200 OK`, or `404`
/// where reading the file failed.
pub fn file_response(contents: Option<Vec<u8>>) -> (r: HttpResponse)
    ensures
        contents is Some ==> {
            &&& r.status_code == 200
            &&& r.status_text@ == "OK"@
            &&& r.content_type@ == "text/html"@
            &&& r.body@ == contents->0@
        },
        contents is None ==> {
            &&& r.status_code == 404
            &&& r.status_text@ == "Not Found"@
            &&& r.content_type@ == "text/plain"@
            &&& r.body@ == encode_utf8("Not Found"@)
        },
{
    match contents {
        Some(body) => HttpResponse::new(200, "OK", "text/html", body),
        None => error_response(404),
    }
}

/// The path that the bytes read from a connection ask for; `None` when no
/// bytes were read, which ends the connection without a response.
pub fn requested_path(bytes: &[u8]) -> (r: Option<String>)
    ensures
        bytes@.len() == 0 ==> r is None,
        bytes@.len() > 0 ==> r is Some && r->0@ == target_of(request_line(lossy_utf8(bytes@))),
        bytes@.len() > 0 && valid_utf8(bytes@) ==> r is Some && r->0@ == target_of(
            request_line(decode_utf8(bytes@)),
        ),
{
    if bytes.len() == 0 {
        None
    } else {
        Some(parse_request(bytes).path)
    }
}

} // verus!
