use http_server::response::names_gzip;
use http_server::{ContentEncoding, HttpResponse, StatusCode};
use std::io::Read;

fn gunzip(bytes: &[u8]) -> Vec<u8> {
    let mut decoder = flate2::read::GzDecoder::new(bytes);
    let mut out = Vec::new();
    decoder.read_to_end(&mut out).unwrap();
    out
}

fn head_and_body(bytes: &[u8]) -> (String, Vec<u8>) {
    let at = bytes.windows(4).position(|w| w == b"\r\n\r\n").unwrap();
    (String::from_utf8(bytes[..at + 2].to_vec()).unwrap(), bytes[at + 4..].to_vec())
}

fn content_length(head: &str) -> Vec<usize> {
    head.lines()
        .filter_map(|line| line.strip_prefix("Content-Length: "))
        .map(|digits| digits.parse().unwrap())
        .collect()
}

#[test]
fn status_codes_have_their_numbers_and_reasons() {
    let all = [
        (StatusCode::OK, 200, "200 OK"),
        (StatusCode::Created, 201, "201 Created"),
        (StatusCode::BadRequest, 400, "400 Bad Request"),
        (StatusCode::Forbidden, 403, "403 Forbidden"),
        (StatusCode::NotFound, 404, "404 Not Found"),
        (StatusCode::InternalServerError, 500, "500 Internal Server Error"),
    ];
    for (status, number, text) in all {
        assert_eq!(status.code(), number);
        assert_eq!(status.as_str(), text);
        assert_eq!(
            HttpResponse::new(status).to_bytes(),
            format!("HTTP/1.1 {}\r\nContent-Length: 0\r\n\r\n", text).into_bytes()
        );
    }
}

#[test]
fn new_response_is_bare() {
    let response = HttpResponse::new(StatusCode::Forbidden);
    assert_eq!(response.status(), StatusCode::Forbidden);
    assert_eq!(response.body(), None);
    assert_eq!(response.encoding(), ContentEncoding::Identity);
    assert_eq!(response.header("Content-Type"), None);
}

#[test]
fn the_short_constructors_set_the_status() {
    assert_eq!(HttpResponse::ok().status(), StatusCode::OK);
    assert_eq!(HttpResponse::created().status(), StatusCode::Created);
    assert_eq!(HttpResponse::not_found().status(), StatusCode::NotFound);
    assert_eq!(HttpResponse::bad_request().status(), StatusCode::BadRequest);
    assert_eq!(
        HttpResponse::internal_server_error().status(),
        StatusCode::InternalServerError
    );
    assert_eq!(HttpResponse::ok().body(), None);
}

#[test]
fn with_body_holds_the_body() {
    let response = HttpResponse::with_body(StatusCode::OK, vec![0, 159, 255]);
    assert_eq!(response.body(), Some(&vec![0, 159, 255]));
    assert_eq!(
        response.to_bytes(),
        [&b"HTTP/1.1 200 OK\r\nContent-Length: 3\r\n\r\n"[..], &[0, 159, 255][..]].concat()
    );
}

#[test]
fn with_string_body_holds_the_bytes_of_the_string() {
    let response = HttpResponse::with_string_body(StatusCode::Created, "h\u{e9}".to_string());
    assert_eq!(response.status(), StatusCode::Created);
    assert_eq!(response.body(), Some(&vec![b'h', 0xc3, 0xa9]));
}

#[test]
fn set_body_replaces_the_body() {
    let mut response = HttpResponse::with_body(StatusCode::OK, b"one".to_vec());
    response.set_body(b"three".to_vec());
    assert_eq!(response.body(), Some(&b"three".to_vec()));
    assert_eq!(response.status(), StatusCode::OK);
}

#[test]
fn set_content_type_sets_the_header() {
    let mut response = HttpResponse::ok();
    response.set_content_type("text/html");
    response.set_content_type("text/css");
    assert_eq!(response.header("Content-Type"), Some(&"text/css".to_string()));
    assert_eq!(
        response.to_bytes(),
        b"HTTP/1.1 200 OK\r\nContent-Type: text/css\r\nContent-Length: 0\r\n\r\n".to_vec()
    );
}

#[test]
fn add_header_adds_and_overwrites() {
    let mut response = HttpResponse::ok();
    response.add_header("X-One", "1");
    response.add_header("X-Two", "2");
    response.add_header("X-One", "3");
    assert_eq!(response.header("X-One"), Some(&"3".to_string()));
    assert_eq!(response.header("x-one"), None);
    assert_eq!(
        response.to_bytes(),
        b"HTTP/1.1 200 OK\r\nX-One: 3\r\nX-Two: 2\r\nContent-Length: 0\r\n\r\n".to_vec()
    );
}

#[test]
fn text_is_plain_text() {
    let response = HttpResponse::text("hello".to_string());
    assert_eq!(response.status(), StatusCode::OK);
    assert_eq!(response.header("Content-Type"), Some(&"text/plain".to_string()));
    assert_eq!(response.body(), Some(&b"hello".to_vec()));
}

#[test]
fn json_wraps_what_was_serialized() {
    let response = HttpResponse::json(serde_json::to_string(&vec![1, 2, 3])).unwrap();
    assert_eq!(response.status(), StatusCode::OK);
    assert_eq!(response.header("Content-Type"), Some(&"application/json".to_string()));
    assert_eq!(response.body(), Some(&b"[1,2,3]".to_vec()));
    assert_eq!(
        response.to_bytes(),
        b"HTTP/1.1 200 OK\r\nContent-Type: application/json\r\nContent-Length: 7\r\n\r\n[1,2,3]"
            .to_vec()
    );
}

#[test]
fn json_hands_the_error_on() {
    let mut keyed = std::collections::BTreeMap::new();
    keyed.insert(vec![1u8], 1u8);
    let failed = serde_json::to_string(&keyed);
    let message = failed.as_ref().unwrap_err().to_string();
    match HttpResponse::json(failed) {
        Ok(response) => panic!("a response: {:?}", response),
        Err(error) => assert_eq!(error.to_string(), message),
    }
}

#[test]
fn names_gzip_looks_at_each_part() {
    for value in ["gzip", " gzip ", "deflate, gzip", "gzip,br", "br,\tgzip\t,x", ",gzip,"] {
        assert!(names_gzip(value), "{:?}", value);
    }
    for value in ["", "GZIP", "Gzip", "gzip;q=1.0", "deflate", "g zip", "gzipp", "x-gzip", ","] {
        assert!(!names_gzip(value), "{:?}", value);
    }
}

#[test]
fn set_accepted_encoding_negotiates_gzip() {
    let mut response = HttpResponse::text("hello".to_string());
    response.set_accepted_encoding(Some("deflate, gzip"));
    assert_eq!(response.encoding(), ContentEncoding::Gzip);
    assert_eq!(response.header("Content-Encoding"), Some(&"gzip".to_string()));
    assert_eq!(response.body(), Some(&b"hello".to_vec()));
}

#[test]
fn set_accepted_encoding_leaves_the_rest_alone() {
    for value in [None, Some("deflate"), Some("GZIP"), Some("")] {
        let mut response = HttpResponse::text("hello".to_string());
        response.set_accepted_encoding(value);
        assert_eq!(response.encoding(), ContentEncoding::Identity);
        assert_eq!(response.header("Content-Encoding"), None);
        assert_eq!(
            response.to_bytes(),
            b"HTTP/1.1 200 OK\r\nContent-Type: text/plain\r\nContent-Length: 5\r\n\r\nhello"
                .to_vec()
        );
    }
}

#[test]
fn gzip_round_trip() {
    let plain: Vec<u8> = (0..2000u32).map(|i| (i * 7 % 251) as u8).collect();
    let mut response = HttpResponse::with_body(StatusCode::OK, plain.clone());
    response.set_accepted_encoding(Some("gzip"));
    let (head, body) = head_and_body(&response.to_bytes());
    assert!(head.starts_with("HTTP/1.1 200 OK\r\nContent-Encoding: gzip\r\n"));
    assert_ne!(body, plain);
    assert_eq!(&body[..2], &[0x1f, 0x8b]);
    assert_eq!(gunzip(&body), plain);
}

#[test]
fn gzip_of_the_same_body_is_the_same() {
    let mut first = HttpResponse::text("the same text, twice".to_string());
    first.set_accepted_encoding(Some("gzip"));
    let mut second = HttpResponse::text("the same text, twice".to_string());
    second.set_accepted_encoding(Some("gzip"));
    assert_eq!(first.to_bytes(), second.to_bytes());
}

#[test]
fn content_length_is_the_length_of_what_is_sent() {
    let long = "abc".repeat(500);
    for text in ["", "x", "hello world", long.as_str()] {
        for accepted in [None, Some("gzip")] {
            let mut response = HttpResponse::text(text.to_string());
            response.set_accepted_encoding(accepted);
            let (head, body) = head_and_body(&response.to_bytes());
            assert_eq!(content_length(&head), vec![body.len()]);
            if accepted.is_some() {
                assert_eq!(gunzip(&body), text.as_bytes());
            } else {
                assert_eq!(body, text.as_bytes());
            }
        }
    }
}

#[test]
fn gzip_without_a_body_sends_nothing() {
    let mut response = HttpResponse::not_found();
    response.set_accepted_encoding(Some("gzip"));
    assert_eq!(
        response.to_bytes(),
        b"HTTP/1.1 404 Not Found\r\nContent-Encoding: gzip\r\nContent-Length: 0\r\n\r\n".to_vec()
    );
}

#[test]
fn gzip_of_an_empty_body_is_a_gzip_stream() {
    let mut response = HttpResponse::with_body(StatusCode::OK, Vec::new());
    response.set_accepted_encoding(Some("gzip"));
    let (head, body) = head_and_body(&response.to_bytes());
    assert!(!body.is_empty());
    assert_eq!(content_length(&head), vec![body.len()]);
    assert_eq!(gunzip(&body), Vec::<u8>::new());
}

#[test]
fn content_length_is_never_written_twice() {
    let mut response = HttpResponse::with_body(StatusCode::OK, b"hello".to_vec());
    response.add_header("Content-Length", "99");
    response.add_header("X-After", "1");
    assert_eq!(response.header("Content-Length"), Some(&"99".to_string()));
    assert_eq!(
        response.to_bytes(),
        b"HTTP/1.1 200 OK\r\nX-After: 1\r\nContent-Length: 5\r\n\r\nhello".to_vec()
    );
}

#[test]
fn frame_announces_the_length_of_the_body_it_is_given() {
    let response = HttpResponse::text("set aside".to_string());
    assert_eq!(
        response.frame(b"xyz".to_vec()),
        b"HTTP/1.1 200 OK\r\nContent-Type: text/plain\r\nContent-Length: 3\r\n\r\nxyz".to_vec()
    );
    assert_eq!(
        HttpResponse::created().frame(Vec::new()),
        b"HTTP/1.1 201 Created\r\nContent-Length: 0\r\n\r\n".to_vec()
    );
    let long = vec![b'a'; 12345];
    let framed = HttpResponse::ok().frame(long.clone());
    assert_eq!(
        framed,
        [&b"HTTP/1.1 200 OK\r\nContent-Length: 12345\r\n\r\n"[..], &long[..]].concat()
    );
}

#[test]
fn headers_may_hold_text_beyond_ascii() {
    let mut response = HttpResponse::ok();
    response.add_header("X-Name", "caf\u{e9}");
    assert_eq!(
        response.to_bytes(),
        "HTTP/1.1 200 OK\r\nX-Name: caf\u{e9}\r\nContent-Length: 0\r\n\r\n"
            .as_bytes()
            .to_vec()
    );
}
