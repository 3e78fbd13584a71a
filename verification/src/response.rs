//! Responses: a status, headers, a body and the encoding the client accepted,
//! and the bytes that go over the wire for them.

use crate::headers::{map_of, put, HeaderMap, Pair};
use crate::strings::{push_decimal, split, str_eq, trim};
use crate::text::{
    decimal, decimal_value, fields, lemma_decimal_is_one_line, lemma_decimal_value,
    lemma_lines_concat, lemma_lines_of_line, lines, trimmed,
};
use std::io::Write;
use vstd::prelude::*;
use vstd::string::StrSliceExecFns;
use vstd::string::StringExecFns;
use vstd::utf8::encode_utf8;

verus! {

/// The status of a response.
#[derive(Debug, Clone, Copy, PartialEq, Eq, Structural)]
pub enum StatusCode {
    OK,
    Created,
    BadRequest,
    NotFound,
    Forbidden,
    InternalServerError,
}

impl StatusCode {
    /// The number of the status.
    pub open spec fn number(self) -> nat {
        match self {
            StatusCode::OK => 200,
            StatusCode::Created => 201,
            StatusCode::BadRequest => 400,
            StatusCode::NotFound => 404,
            StatusCode::Forbidden => 403,
            StatusCode::InternalServerError => 500,
        }
    }

    /// The number and the reason, as the status line holds them.
    pub open spec fn text(self) -> Seq<char> {
        match self {
            StatusCode::OK => "200 OK"@,
            StatusCode::Created => "201 Created"@,
            StatusCode::BadRequest => "400 Bad Request"@,
            StatusCode::NotFound => "404 Not Found"@,
            StatusCode::Forbidden => "403 Forbidden"@,
            StatusCode::InternalServerError => "500 Internal Server Error"@,
        }
    }

    /// The number of the status.
    pub fn code(&self) -> (n: u16)
        ensures
            n == self.number(),
    {
        match self {
            StatusCode::OK => 200,
            StatusCode::Created => 201,
            StatusCode::BadRequest => 400,
            StatusCode::NotFound => 404,
            StatusCode::Forbidden => 403,
            StatusCode::InternalServerError => 500,
        }
    }

    /// The number and the reason, as the status line holds them.
    pub fn as_str(&self) -> (text: &'static str)
        ensures
            text@ == self.text(),
    {
        match self {
            StatusCode::OK => "200 OK",
            StatusCode::Created => "201 Created",
            StatusCode::BadRequest => "400 Bad Request",
            StatusCode::NotFound => "404 Not Found",
            StatusCode::Forbidden => "403 Forbidden",
            StatusCode::InternalServerError => "500 Internal Server Error",
        }
    }
}

/// How the body of a response is encoded on the wire.
#[derive(Debug, Clone, Copy, PartialEq, Eq, Structural)]
pub enum ContentEncoding {
    Identity,
    Gzip,
}

/// What a response holds, as mathematical values.
pub struct ResponseView {
    pub status: StatusCode,
    /// The headers, in the order in which their names were first added.
    pub headers: Seq<Pair>,
    pub body: Option<Seq<u8>>,
    pub encoding: ContentEncoding,
}

/// The gzip stream that the `flate2` crate makes of `data` at its default
/// level of compression, with the header it writes by default. Nothing is
/// stated of it here but that it depends on `data` alone.
pub uninterp spec fn gzip_encoding(data: Seq<u8>) -> Seq<u8>;

/// Compresses `data` with `flate2::write::GzEncoder`: a new encoder over an
/// empty vector at `Compression::default()`, one `write_all`, then `finish`.
/// Trusted: the bytes that come back are `gzip_encoding` of `data`; the
/// header that `flate2` writes holds no time and no name of a system, so the
/// same data give the same bytes. Writing into a vector does not fail.
#[verifier::external_body]
fn gzip(data: &[u8]) -> (encoded: Vec<u8>)
    ensures
        encoded@ == gzip_encoding(data@),
{
    let mut encoder = flate2::write::GzEncoder::new(Vec::new(), flate2::Compression::default());
    encoder.write_all(data).unwrap();
    encoder.finish().unwrap()
}

/// Whether a value of `Accept-Encoding` names gzip: one of its parts between
/// commas is, white space at its ends aside, the word `gzip`.
pub open spec fn accepts_gzip(accept_encoding: Seq<char>) -> bool {
    exists|i: int|
        0 <= i < fields(accept_encoding, ',').len() && trimmed(
            #[trigger] fields(accept_encoding, ',')[i],
        ) == "gzip"@
}

/// The bytes of the body as they go over the wire: compressed where the
/// encoding is gzip and there is a body, else the body itself, and nothing
/// where there is no body.
pub open spec fn wire_body(response: ResponseView) -> Seq<u8> {
    match response.body {
        Some(body) => match response.encoding {
            ContentEncoding::Gzip => gzip_encoding(body),
            ContentEncoding::Identity => body,
        },
        None => Seq::empty(),
    }
}

/// The line of one header. A header named `Content-Length` has none: that
/// line is written once, from the body.
pub open spec fn header_line(header: Pair) -> Seq<char> {
    if header.0 == "Content-Length"@ {
        Seq::empty()
    } else {
        header.0 + ": "@ + header.1 + "\r\n"@
    }
}

/// The lines of the headers, in their order.
pub open spec fn header_lines(headers: Seq<Pair>) -> Seq<char>
    decreases headers.len(),
{
    if headers.len() == 0 {
        Seq::empty()
    } else {
        header_lines(headers.drop_last()) + header_line(headers.last())
    }
}

/// The line that gives the length of the body.
pub open spec fn content_length_line(length: nat) -> Seq<char> {
    "Content-Length: "@ + decimal(length) + "\r\n"@
}

/// What stands before a body of `length` bytes: the status line, the lines
/// of the headers, the line that gives the length, and an empty line.
pub open spec fn head(status: StatusCode, headers: Seq<Pair>, length: nat) -> Seq<char> {
    "HTTP/1.1 "@ + status.text() + "\r\n"@ + header_lines(headers) + content_length_line(length)
        + "\r\n"@
}

/// The bytes that go over the wire for the status and the headers of
/// `response` where `body` is sent as its body: the head, in UTF-8, and
/// then `body`.
pub open spec fn framed(response: ResponseView, body: Seq<u8>) -> Seq<u8> {
    encode_utf8(head(response.status, response.headers, body.len())) + body
}

/// A response as it goes over the wire.
pub open spec fn wire(response: ResponseView) -> Seq<u8> {
    framed(response, wire_body(response))
}

/// The lines of headers are whole lines: together they are empty or end with
/// a line feed.
pub proof fn lemma_header_lines_end(headers: Seq<Pair>)
    ensures
        header_lines(headers).len() > 0 ==> header_lines(headers).last() == '\n',
    decreases headers.len(),
{
    reveal_strlit("\r\n");
    if headers.len() > 0 {
        lemma_header_lines_end(headers.drop_last());
    }
}

/// The length that a head announces is the length of the body behind it.
/// Read as lines, the head ends with the line `Content-Length`, and an
/// empty line behind it; the digits in that line stand for the number of
/// bytes of the body, whatever the status and the headers are.
pub proof fn lemma_content_length(status: StatusCode, headers: Seq<Pair>, length: nat)
    ensures
        ({
            let read = lines(head(status, headers, length));
            &&& read.len() >= 3
            &&& read[read.len() - 1] == Seq::<char>::empty()
            &&& read[read.len() - 2] == "Content-Length: "@ + decimal(length)
            &&& decimal_value(decimal(length)) == length
        }),
{
    reveal_strlit("\r\n");
    reveal_strlit("Content-Length: ");
    let front = "HTTP/1.1 "@ + status.text() + "\r\n"@ + header_lines(headers);
    let line = "Content-Length: "@ + decimal(length);
    let end = seq!['\r', '\n'];
    assert("\r\n"@ =~= end);
    lemma_header_lines_end(headers);
    assert(front.last() == '\n');
    lemma_decimal_is_one_line(length);
    lemma_decimal_value(length);
    lemma_lines_of_line(line);
    lemma_lines_of_line(Seq::<char>::empty());
    assert(Seq::<char>::empty() + end =~= end);
    lemma_lines_concat(line + end, end);
    lemma_lines_concat(front, line + end + end);
    assert(head(status, headers, length) =~= front + (line + end + end));
    assert(lines(front).len() > 0);
    assert(lines(head(status, headers, length)) =~= lines(front) + seq![
        line,
        Seq::<char>::empty(),
    ]);
}

/// Where gzip was negotiated for a response with a body, the bytes behind
/// the head are what the compression made of that body: all of it, and
/// nothing else.
pub proof fn lemma_compressed_body(response: ResponseView)
    requires
        response.encoding == ContentEncoding::Gzip,
        response.body is Some,
    ensures
        ({
            let sent = gzip_encoding(response.body->0);
            let bytes = wire(response);
            &&& bytes.len() >= sent.len()
            &&& bytes.skip(bytes.len() - sent.len()) == sent
            &&& bytes.take(bytes.len() - sent.len()) == encode_utf8(
                head(response.status, response.headers, sent.len()),
            )
        }),
{
    let sent = gzip_encoding(response.body->0);
    let front = encode_utf8(head(response.status, response.headers, sent.len()));
    assert((front + sent).skip(front.len() as int) =~= sent);
    assert((front + sent).take(front.len() as int) =~= front);
}

/// A response with `status` and nothing else.
pub open spec fn bare(status: StatusCode) -> ResponseView {
    ResponseView {
        status,
        headers: Seq::empty(),
        body: None,
        encoding: ContentEncoding::Identity,
    }
}

/// `response` with `value` as the value of the header `name`.
pub open spec fn with_header(
    response: ResponseView,
    name: Seq<char>,
    value: Seq<char>,
) -> ResponseView {
    ResponseView { headers: put(response.headers, name, value), ..response }
}

/// `response` with `body` as its body.
pub open spec fn with_body(response: ResponseView, body: Seq<u8>) -> ResponseView {
    ResponseView { body: Some(body), ..response }
}

/// `response` after the client's `Accept-Encoding` was looked at: where it
/// names gzip, the encoding is gzip and the header `Content-Encoding` says
/// so; else nothing changes.
pub open spec fn negotiated(
    response: ResponseView,
    accept_encoding: Option<Seq<char>>,
) -> ResponseView {
    match accept_encoding {
        Some(value) if accepts_gzip(value) => ResponseView {
            encoding: ContentEncoding::Gzip,
            ..with_header(response, "Content-Encoding"@, "gzip"@)
        },
        _ => response,
    }
}

/// A response of status 200 whose body is `content` as text.
pub open spec fn text_response(content: Seq<char>) -> ResponseView {
    with_header(
        with_body(bare(StatusCode::OK), encode_utf8(content)),
        "Content-Type"@,
        "text/plain"@,
    )
}

/// A response of status 200 whose body is `content` as JSON.
pub open spec fn json_response(content: Seq<char>) -> ResponseView {
    with_header(
        with_body(bare(StatusCode::OK), encode_utf8(content)),
        "Content-Type"@,
        "application/json"@,
    )
}

/// The error of `serde_json`: why a value could not be written as JSON.
#[verifier::external_type_specification]
#[verifier::external_body]
pub struct ExJsonError(serde_json::Error);

/// A response under construction.
#[derive(Debug)]
pub struct HttpResponse {
    status: StatusCode,
    headers: HeaderMap,
    body: Option<Vec<u8>>,
    encoding: ContentEncoding,
}

impl View for HttpResponse {
    type V = ResponseView;

    closed spec fn view(&self) -> ResponseView {
        ResponseView {
            status: self.status,
            headers: self.headers.pairs(),
            body: match self.body {
                Some(body) => Some(body@),
                None => None,
            },
            encoding: self.encoding,
        }
    }
}

impl HttpResponse {
    /// A response with `status`, no header, no body and no encoding.
    pub fn new(status: StatusCode) -> (response: HttpResponse)
        ensures
            response@ == bare(status),
    {
        HttpResponse {
            status,
            headers: HeaderMap::new(),
            body: None,
            encoding: ContentEncoding::Identity,
        }
    }

    /// A response with `status` and `body`.
    pub fn with_body(status: StatusCode, body: Vec<u8>) -> (response: HttpResponse)
        ensures
            response@ == with_body(bare(status), body@),
    {
        let mut response = HttpResponse::new(status);
        response.set_body(body);
        response
    }

    /// A response with `status` and the bytes of `body` as its body.
    pub fn with_string_body(status: StatusCode, body: String) -> (response: HttpResponse)
        ensures
            response@ == with_body(bare(status), encode_utf8(body@)),
    {
        Self::with_body(status, body.as_str().as_bytes_vec())
    }

    /// Makes `body` the body.
    pub fn set_body(&mut self, body: Vec<u8>)
        ensures
            final(self)@ == with_body(old(self)@, body@),
    {
        self.body = Some(body);
    }

    /// Makes `content_type` the value of the header `Content-Type`.
    pub fn set_content_type(&mut self, content_type: &str)
        ensures
            final(self)@ == with_header(old(self)@, "Content-Type"@, content_type@),
    {
        self.add_header("Content-Type", content_type);
    }

    /// Makes `value` the value of the header `key`, in place of the one it
    /// had, if any.
    pub fn add_header(&mut self, key: &str, value: &str)
        ensures
            final(self)@ == with_header(old(self)@, key@, value@),
    {
        self.headers.insert(key.to_owned(), value.to_owned());
    }

    /// Looks at what the client sent as `Accept-Encoding`, if anything.
    pub fn set_accepted_encoding(&mut self, accept_encoding: Option<&str>)
        ensures
            final(self)@ == negotiated(
                old(self)@,
                match accept_encoding {
                    Some(value) => Some(value@),
                    None => None,
                },
            ),
    {
        if let Some(encodings) = accept_encoding {
            if names_gzip(encodings) {
                self.encoding = ContentEncoding::Gzip;
                self.add_header("Content-Encoding", "gzip");
            }
        }
    }

    /// The bytes of the body as they go over the wire.
    fn encoded_body(&self) -> (bytes: Vec<u8>)
        ensures
            bytes@ == wire_body(self@),
    {
        match &self.body {
            Some(body) => match self.encoding {
                ContentEncoding::Gzip => gzip(body.as_slice()),
                ContentEncoding::Identity => body.clone(),
            },
            None => Vec::new(),
        }
    }

    /// The bytes that go over the wire for the status and the headers of
    /// this response where `body` is sent as its body: the status line, a
    /// line for each header in the order in which their names were added,
    /// the line `Content-Length` with the length of `body`, an empty line,
    /// and `body`. The length is always the one computed here: a header
    /// `Content-Length` that was added by hand is not written.
    pub fn frame(&self, body: Vec<u8>) -> (bytes: Vec<u8>)
        ensures
            bytes@ == framed(self@, body@),
    {
        let mut body = body;
        let mut text = "HTTP/1.1 ".to_owned();
        text.append(self.status.as_str());
        text.append("\r\n");
        let count = self.headers.len();
        let ghost start = text@;
        let mut i: usize = 0;
        while i < count
            invariant
                i <= count == self.headers.pairs().len(),
                text@ == start + header_lines(self.headers.pairs().take(i as int)),
            decreases count - i,
        {
            let (name, value) = self.headers.entry(i);
            proof {
                let upto = self.headers.pairs().take(i + 1);
                assert(upto.drop_last() =~= self.headers.pairs().take(i as int));
                assert(upto.last() == (name@, value@));
            }
            if !str_eq(name, "Content-Length") {
                let ghost before = text@;
                text.append(name);
                text.append(": ");
                text.append(value);
                text.append("\r\n");
                assert(text@ =~= before + header_line((name@, value@)));
            }
            assert(text@ =~= start + header_lines(self.headers.pairs().take(i + 1)));
            i += 1;
        }
        proof {
            assert(self.headers.pairs().take(count as int) =~= self.headers.pairs());
        }
        text.append("Content-Length: ");
        push_decimal(&mut text, body.len());
        text.append("\r\n");
        text.append("\r\n");
        assert(text@ =~= head(self@.status, self@.headers, body@.len()));
        let mut bytes = text.as_str().as_bytes_vec();
        bytes.append(&mut body);
        bytes
    }

    /// The response as it goes over the wire: framed as `frame` says, with
    /// the body compressed where gzip was negotiated.
    pub fn to_bytes(&self) -> (bytes: Vec<u8>)
        ensures
            bytes@ == wire(self@),
    {
        self.frame(self.encoded_body())
    }

    /// The status.
    pub fn status(&self) -> (status: StatusCode)
        ensures
            status == self@.status,
    {
        self.status
    }

    /// The value of the header `name`, if it has one.
    pub fn header(&self, name: &str) -> (value: Option<&String>)
        ensures
            match value {
                Some(v) => map_of(self@.headers).contains_key(name@) && v@ == map_of(
                    self@.headers,
                )[name@],
                None => !map_of(self@.headers).contains_key(name@),
            },
    {
        self.headers.get(name)
    }

    /// The body, if there is one, before it is encoded.
    pub fn body(&self) -> (body: Option<&Vec<u8>>)
        ensures
            match body {
                Some(bytes) => self@.body == Some(bytes@),
                None => self@.body is None,
            },
    {
        self.body.as_ref()
    }

    /// The encoding that was negotiated.
    pub fn encoding(&self) -> (encoding: ContentEncoding)
        ensures
            encoding == self@.encoding,
    {
        self.encoding
    }

    /// A response of status 200.
    pub fn ok() -> (response: HttpResponse)
        ensures
            response@ == bare(StatusCode::OK),
    {
        HttpResponse::new(StatusCode::OK)
    }

    /// A response of status 201.
    pub fn created() -> (response: HttpResponse)
        ensures
            response@ == bare(StatusCode::Created),
    {
        HttpResponse::new(StatusCode::Created)
    }

    /// A response of status 404.
    pub fn not_found() -> (response: HttpResponse)
        ensures
            response@ == bare(StatusCode::NotFound),
    {
        HttpResponse::new(StatusCode::NotFound)
    }

    /// A response of status 400.
    pub fn bad_request() -> (response: HttpResponse)
        ensures
            response@ == bare(StatusCode::BadRequest),
    {
        HttpResponse::new(StatusCode::BadRequest)
    }

    /// A response of status 500.
    pub fn internal_server_error() -> (response: HttpResponse)
        ensures
            response@ == bare(StatusCode::InternalServerError),
    {
        HttpResponse::new(StatusCode::InternalServerError)
    }

    /// A response of status 200 with `content` as its body and the content
    /// type `text/plain`.
    pub fn text(content: String) -> (response: HttpResponse)
        ensures
            response@ == text_response(content@),
    {
        let mut response = HttpResponse::with_string_body(StatusCode::OK, content);
        response.set_content_type("text/plain");
        response
    }

    /// The response for a value that was handed to `serde_json::to_string`,
    /// from what came back: of status 200 with the JSON text as its body and
    /// the content type `application/json`, or the error as it is.
    pub fn json(serialized: Result<String, serde_json::Error>) -> (result: Result<
        HttpResponse,
        serde_json::Error,
    >)
        ensures
            match serialized {
                Ok(content) => result matches Ok(response) && response@ == json_response(content@),
                Err(error) => result == Err::<HttpResponse, serde_json::Error>(error),
            },
    {
        match serialized {
            Ok(body) => {
                let mut response = HttpResponse::with_string_body(StatusCode::OK, body);
                response.set_content_type("application/json");
                Ok(response)
            },
            Err(error) => Err(error),
        }
    }
}

/// Whether a value of `Accept-Encoding` names gzip.
pub fn names_gzip(accept_encoding: &str) -> (yes: bool)
    ensures
        yes == accepts_gzip(accept_encoding@),
{
    let parts = split(accept_encoding, ',');
    let mut i: usize = 0;
    while i < parts.len()
        invariant
            i <= parts@.len() == fields(accept_encoding@, ',').len(),
            forall|j: int| 0 <= j < parts@.len() ==> (#[trigger] parts@[j])@ == fields(
                accept_encoding@,
                ',',
            )[j],
            forall|j: int| 0 <= j < i ==> trimmed(#[trigger] fields(accept_encoding@, ',')[j])
                != "gzip"@,
        decreases parts@.len() - i,
    {
        if str_eq(trim(parts[i]), "gzip") {
            assert(trimmed(fields(accept_encoding@, ',')[i as int]) == "gzip"@);
            return true;
        }
        i += 1;
    }
    false
}

} // verus!
