//! HTTP responses: the fields of a response and their exact wire form.
use vstd::prelude::*;
use vstd::slice::slice_to_vec;
use vstd::string::StringExecFns;
use vstd::utf8::encode_utf8;

use crate::text::{decimal, decimal_value, lemma_decimal_round_trip, push_decimal, string_from};

verus! {

/// A complete response: status line fields, content type and body bytes.
pub struct HttpResponse {
    pub status_code: u16,
    pub status_text: String,
    pub content_type: String,
    pub body: Vec<u8>,
}

/// The head of a response, up to and including the blank line.
pub open spec fn head_text(code: u16, text: Seq<char>, content_type: Seq<char>, len: nat) -> Seq<char> {
    "HTTP/1.1 "@ + decimal(code as nat) + " "@ + text + "\r\nContent-Type: "@ + content_type
        + "\r\nContent-Length: "@ + decimal(len) + "\r\n\r\n"@
}

/// The bytes sent for a response: its head in UTF-8, then the body as it is.
pub open spec fn wire(r: HttpResponse) -> Seq<u8> {
    encode_utf8(head_text(r.status_code, r.status_text@, r.content_type@, r.body@.len()))
        + r.body@
}

impl HttpResponse {
    pub fn new(status_code: u16, status_text: &str, content_type: &str, body: Vec<u8>) -> (r: Self)
        ensures
            r.status_code == status_code,
            r.status_text@ == status_text@,
            r.content_type@ == content_type@,
            r.body@ == body@,
    {
        HttpResponse {
            status_code,
            status_text: String::from_str(status_text),
            content_type: String::from_str(content_type),
            body,
        }
    }

    /// The response as it goes on the wire; `Content-Length` is the body's byte count.
    pub fn to_bytes(&self) -> (r: Vec<u8>)
        ensures
            r@ == wire(*self),
    {
        let mut code_digits: Vec<char> = Vec::new();
        push_decimal(&mut code_digits, self.status_code as usize);
        let mut len_digits: Vec<char> = Vec::new();
        push_decimal(&mut len_digits, self.body.len());
        let code = string_from(code_digits.as_slice());
        let len = string_from(len_digits.as_slice());

        let mut head = String::from_str("HTTP/1.1 ");
        head.append(code.as_str());
        head.append(" ");
        head.append(self.status_text.as_str());
        head.append("\r\nContent-Type: ");
        head.append(self.content_type.as_str());
        head.append("\r\nContent-Length: ");
        head.append(len.as_str());
        head.append("\r\n\r\n");
        assert(head@ =~= head_text(
            self.status_code,
            self.status_text@,
            self.content_type@,
            self.body@.len(),
        ));

        let mut out = slice_to_vec(head.as_str().as_bytes());
        let ghost head_bytes = out@;
        out.extend_from_slice(self.body.as_slice());
        assert(out@ =~= head_bytes + self.body@);
        out
    }
}


/// The part of a head before its `Content-Length` field.
pub open spec fn head_prefix(code: u16, text: Seq<char>, content_type: Seq<char>) -> Seq<char> {
    "HTTP/1.1 "@ + decimal(code as nat) + " "@ + text + "\r\nContent-Type: "@ + content_type
}

/// A response's wire form is its head followed by its body byte for byte, and
/// the head's `Content-Length` field reads back as the body's byte count.
pub proof fn lemma_body_round_trip(r: HttpResponse)
    ensures
        ({
            let w = wire(r);
            let n = r.body@.len();
            let digits = decimal(n);
            &&& w.len() >= n
            &&& w.subrange(w.len() - n, w.len() as int) == r.body@
            &&& w.subrange(0, w.len() - n) == encode_utf8(
                head_text(r.status_code, r.status_text@, r.content_type@, n),
            )
            &&& head_text(r.status_code, r.status_text@, r.content_type@, n) == head_prefix(
                r.status_code,
                r.status_text@,
                r.content_type@,
            ) + "\r\nContent-Length: "@ + digits + "\r\n\r\n"@
            &&& decimal_value(digits) == n
        }),
{
    let w = wire(r);
    let n = r.body@.len();
    let h = encode_utf8(head_text(r.status_code, r.status_text@, r.content_type@, n));
    assert(w.subrange(w.len() - n, w.len() as int) =~= r.body@);
    assert(w.subrange(0, w.len() - n) =~= h);
    assert(head_text(r.status_code, r.status_text@, r.content_type@, n) =~= head_prefix(
        r.status_code,
        r.status_text@,
        r.content_type@,
    ) + "\r\nContent-Length: "@ + decimal(n) + "\r\n\r\n"@);
    lemma_decimal_round_trip(n);
}

/// The status code, reason phrase and body text of the error response sent
/// for `status`: 404 and 403 keep their code, any other becomes 500.
pub open spec fn error_parts(status: u16) -> (u16, Seq<char>, Seq<char>) {
    if status == 404 {
        (404, "Not Found"@, "Not Found"@)
    } else if status == 403 {
        (403, "Forbidden"@, "Access denied"@)
    } else {
        (500, "Internal Server Error"@, "Server Error"@)
    }
}

/// The canned plain-text response for an error status.
pub fn error_response(status: u16) -> (r: HttpResponse)
    ensures
        r.status_code == error_parts(status).0,
        r.status_text@ == error_parts(status).1,
        r.content_type@ == "text/plain"@,
        r.body@ == encode_utf8(error_parts(status).2),
{
    let (code, text, message) = if status == 404 {
        (404u16, "Not Found", "Not Found")
    } else if status == 403 {
        (403u16, "Forbidden", "Access denied")
    } else {
        (500u16, "Internal Server Error", "Server Error")
    };
    HttpResponse::new(code, text, "text/plain", slice_to_vec(message.as_bytes()))
}

} // verus!
