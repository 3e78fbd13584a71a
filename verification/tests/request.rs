use http_server::{HttpParseError, HttpRequest};

fn error_of(text: &str) -> HttpParseError {
    match HttpRequest::parse(text) {
        Ok(request) => panic!("read as a request: {:?}", request),
        Err(error) => error,
    }
}

#[test]
fn parse_reads_the_request_line() {
    let request = HttpRequest::parse("GET /index.html HTTP/1.1\r\n\r\n").unwrap();
    assert_eq!(request.method, "GET");
    assert_eq!(request.path, "/index.html");
    assert_eq!(request.version, "HTTP/1.1");
    assert_eq!(request.headers.len(), 0);
    assert_eq!(request.body, None);
}

#[test]
fn parse_reads_the_headers_and_the_body() {
    let request = HttpRequest::parse(
        "POST /files/a HTTP/1.1\r\nHost: localhost:4221\r\nContent-Length: 5\r\n\r\nhello",
    )
    .unwrap();
    assert_eq!(request.method, "POST");
    assert_eq!(request.headers.len(), 2);
    assert_eq!(request.headers.get("host"), Some(&"localhost:4221".to_string()));
    assert_eq!(request.headers.get("content-length"), Some(&"5".to_string()));
    assert_eq!(request.headers.get("Host"), None);
    assert_eq!(request.body, Some("hello".to_string()));
}

#[test]
fn parse_of_nothing_is_malformed() {
    assert_eq!(error_of(""), HttpParseError::MalformedRequest);
}

#[test]
fn parse_of_a_short_request_line_is_invalid() {
    assert_eq!(error_of("\r\n"), HttpParseError::InvalidRequestLine);
    assert_eq!(error_of("GET"), HttpParseError::InvalidRequestLine);
    assert_eq!(error_of("GET /\r\nHost: x\r\n\r\n"), HttpParseError::InvalidRequestLine);
    assert_eq!(error_of("   \r\nGET / HTTP/1.1\r\n"), HttpParseError::InvalidRequestLine);
}

#[test]
fn parse_of_a_header_without_a_colon_is_invalid() {
    assert_eq!(
        error_of("GET / HTTP/1.1\r\nHost localhost\r\n\r\n"),
        HttpParseError::InvalidHeader
    );
    assert_eq!(
        error_of("GET / HTTP/1.1\r\nHost: a\r\nbroken\r\nAccept: b\r\n\r\n"),
        HttpParseError::InvalidHeader
    );
}

#[test]
fn request_line_comes_before_the_headers() {
    assert_eq!(error_of("GET /\r\nbroken\r\n\r\n"), HttpParseError::InvalidRequestLine);
}

#[test]
fn a_line_without_a_colon_behind_the_empty_line_is_the_body() {
    let request = HttpRequest::parse("GET / HTTP/1.1\r\nHost: a\r\n\r\nno colon here").unwrap();
    assert_eq!(request.body, Some("no colon here".to_string()));
}

#[test]
fn more_than_three_words_are_accepted() {
    let request = HttpRequest::parse("GET / HTTP/1.1 extra words\r\n\r\n").unwrap();
    assert_eq!(request.method, "GET");
    assert_eq!(request.path, "/");
    assert_eq!(request.version, "HTTP/1.1");
}

#[test]
fn words_of_the_request_line_may_be_far_apart() {
    let request = HttpRequest::parse("  GET \t /a\u{a0}HTTP/1.1  \r\n").unwrap();
    assert_eq!(request.method, "GET");
    assert_eq!(request.path, "/a");
    assert_eq!(request.version, "HTTP/1.1");
}

#[test]
fn header_names_are_trimmed_and_lowered_and_values_trimmed() {
    let request =
        HttpRequest::parse("GET / HTTP/1.1\r\n  X-Custom-NAME \t:  some value  \r\n\r\n").unwrap();
    assert_eq!(request.headers.get("x-custom-name"), Some(&"some value".to_string()));
    assert_eq!(request.headers.len(), 1);
}

#[test]
fn header_lookup_is_case_insensitive() {
    for name in ["User-Agent", "user-agent", "USER-AGENT", "uSeR-aGeNt"] {
        let text = format!("GET /user-agent HTTP/1.1\r\n{}: test-agent\r\n\r\n", name);
        let request = HttpRequest::parse(&text).unwrap();
        assert_eq!(request.headers.get("user-agent"), Some(&"test-agent".to_string()));
        assert!(request.headers.contains_key("user-agent"));
    }
}

#[test]
fn header_names_beyond_ascii_are_lowered() {
    let request = HttpRequest::parse("GET / HTTP/1.1\r\n\u{c9}T\u{c9}: x\r\n\r\n").unwrap();
    assert_eq!(request.headers.get("\u{e9}t\u{e9}"), Some(&"x".to_string()));
    assert_eq!(request.headers.get("\u{c9}T\u{c9}"), None);
}

#[test]
fn the_last_of_two_headers_of_one_name_counts() {
    let request =
        HttpRequest::parse("GET / HTTP/1.1\r\nAccept: a\r\nHost: h\r\naccept: b\r\n\r\n").unwrap();
    assert_eq!(request.headers.get("accept"), Some(&"b".to_string()));
    assert_eq!(request.headers.get("host"), Some(&"h".to_string()));
    assert_eq!(request.headers.len(), 2);
}

#[test]
fn the_value_keeps_its_later_colons() {
    let request = HttpRequest::parse("GET / HTTP/1.1\r\nHost: localhost:4221\r\n\r\n").unwrap();
    assert_eq!(request.headers.get("host"), Some(&"localhost:4221".to_string()));
}

#[test]
fn a_header_may_have_an_empty_name_or_value() {
    let request = HttpRequest::parse("GET / HTTP/1.1\r\n: v\r\nEmpty:\r\n\r\n").unwrap();
    assert_eq!(request.headers.get(""), Some(&"v".to_string()));
    assert_eq!(request.headers.get("empty"), Some(&"".to_string()));
}

#[test]
fn the_body_is_the_first_line_that_is_not_empty() {
    let request = HttpRequest::parse("GET / HTTP/1.1\r\n\r\n\r\n\r\nfirst\r\nsecond").unwrap();
    assert_eq!(request.body, Some("first".to_string()));
}

#[test]
fn without_an_empty_line_there_is_no_body() {
    let request = HttpRequest::parse("GET / HTTP/1.1\r\nHost: a").unwrap();
    assert_eq!(request.body, None);
    assert_eq!(request.headers.get("host"), Some(&"a".to_string()));
}

#[test]
fn behind_the_empty_line_nothing_is_no_body() {
    let request = HttpRequest::parse("GET / HTTP/1.1\r\nHost: a\r\n\r\n\r\n").unwrap();
    assert_eq!(request.body, None);
}

#[test]
fn lines_may_end_with_a_line_feed_alone() {
    let request = HttpRequest::parse("GET / HTTP/1.1\nHost: a\n\nbody").unwrap();
    assert_eq!(request.headers.get("host"), Some(&"a".to_string()));
    assert_eq!(request.body, Some("body".to_string()));
}

#[test]
fn a_line_of_white_space_is_not_empty() {
    assert_eq!(error_of("GET / HTTP/1.1\r\n \r\n\r\n"), HttpParseError::InvalidHeader);
}

#[test]
fn the_body_is_not_trimmed() {
    let request = HttpRequest::parse("GET / HTTP/1.1\r\n\r\n  a: b  ").unwrap();
    assert_eq!(request.body, Some("  a: b  ".to_string()));
}

#[test]
fn parsing_twice_gives_the_same() {
    let text = "POST /files/x HTTP/1.1\r\nHost: h\r\nAccept-Encoding: gzip\r\n\r\npayload";
    let first = HttpRequest::parse(text).unwrap();
    let second = HttpRequest::parse(text).unwrap();
    assert_eq!(first.method, second.method);
    assert_eq!(first.path, second.path);
    assert_eq!(first.version, second.version);
    assert_eq!(first.body, second.body);
    assert_eq!(first.headers.len(), second.headers.len());
    for i in 0..first.headers.len() {
        assert_eq!(first.headers.entry(i), second.headers.entry(i));
    }
    let broken = "GET / HTTP/1.1\r\nbroken\r\n";
    assert_eq!(error_of(broken), error_of(broken));
}
