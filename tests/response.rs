use file_server::http::{error_response, HttpResponse};
use file_server::resolve::PathError;
use file_server::serve::{failure_response, file_response, status_for};

#[test]
fn to_bytes_exact_wire_form() {
    let r = HttpResponse::new(200, "OK", "text/html", b"hi".to_vec());
    assert_eq!(
        r.to_bytes(),
        b"HTTP/1.1 200 OK\r\nContent-Type: text/html\r\nContent-Length: 2\r\n\r\nhi".to_vec()
    );
}

#[test]
fn new_keeps_fields() {
    let r = HttpResponse::new(404, "Not Found", "text/plain", vec![1, 2, 3]);
    assert_eq!(r.status_code, 404);
    assert_eq!(r.status_text, "Not Found");
    assert_eq!(r.content_type, "text/plain");
    assert_eq!(r.body, vec![1, 2, 3]);
}

#[test]
fn empty_body_has_zero_length() {
    let r = HttpResponse::new(204, "No Content", "text/plain", Vec::new());
    assert_eq!(
        r.to_bytes(),
        b"HTTP/1.1 204 No Content\r\nContent-Type: text/plain\r\nContent-Length: 0\r\n\r\n".to_vec()
    );
}

#[test]
fn binary_body_round_trips() {
    let body: Vec<u8> = (0..=255u8).chain([0xff, 0xfe, 0x00, 0xc3]).collect();
    let n = body.len();
    let bytes = file_response(Some(body.clone())).to_bytes();
    let head = format!(
        "HTTP/1.1 200 OK\r\nContent-Type: text/html\r\nContent-Length: {}\r\n\r\n",
        n
    );
    assert_eq!(n, 260);
    assert_eq!(&bytes[..head.len()], head.as_bytes());
    assert_eq!(&bytes[head.len()..], &body[..]);
    assert_eq!(bytes.len(), head.len() + n);
}

#[test]
fn length_is_bytes_not_characters() {
    let body = "héllo".as_bytes().to_vec();
    let bytes = HttpResponse::new(200, "OK", "text/html", body).to_bytes();
    let text = String::from_utf8(bytes).unwrap();
    assert!(text.contains("Content-Length: 6\r\n"));
}

#[test]
fn large_length_digits() {
    let body = vec![b'x'; 12345];
    let bytes = HttpResponse::new(200, "OK", "text/html", body).to_bytes();
    let text = String::from_utf8(bytes).unwrap();
    assert!(text.starts_with("HTTP/1.1 200 OK\r\nContent-Type: text/html\r\nContent-Length: 12345\r\n\r\nxxx"));
}

#[test]
fn error_response_not_found() {
    let r = error_response(404);
    assert_eq!(
        r.to_bytes(),
        b"HTTP/1.1 404 Not Found\r\nContent-Type: text/plain\r\nContent-Length: 9\r\n\r\nNot Found".to_vec()
    );
}

#[test]
fn error_response_forbidden() {
    let r = error_response(403);
    assert_eq!(r.status_code, 403);
    assert_eq!(r.status_text, "Forbidden");
    assert_eq!(r.body, b"Access denied".to_vec());
}

#[test]
fn error_response_other_codes_become_500() {
    for code in [500u16, 418, 0, 200, 65535] {
        let r = error_response(code);
        assert_eq!(r.status_code, 500);
        assert_eq!(r.status_text, "Internal Server Error");
        assert_eq!(r.content_type, "text/plain");
        assert_eq!(r.body, b"Server Error".to_vec());
    }
}

#[test]
fn status_for_each_error() {
    assert_eq!(status_for(PathError::NotFound), 404);
    assert_eq!(status_for(PathError::InvalidPath), 403);
    assert_eq!(status_for(PathError::Forbidden), 403);
    assert_eq!(status_for(PathError::Oversized), 500);
}

#[test]
fn failure_response_oversized_is_server_error() {
    let r = failure_response(PathError::Oversized);
    assert_eq!(r.status_code, 500);
    assert_eq!(r.body, b"Server Error".to_vec());
}

#[test]
fn unreadable_file_is_not_found() {
    let r = file_response(None);
    assert_eq!(r.status_code, 404);
    assert_eq!(r.body, b"Not Found".to_vec());
}
