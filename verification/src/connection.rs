//! The steps of a connection: what to do with the text that was read from
//! it, and with the answer of the file system where one was asked for. The
//! caller reads, writes and touches the files; every decision is made here.

use crate::request::{parsed, HttpParseError, HttpRequest, RequestView};
use crate::response::{head, lemma_content_length, wire, wire_body};
use crate::router::{
    file_request, file_request_of, get_response, response_to, FileOutcome, FileOutcomeView,
    FileRequest,
};
use crate::text::{decimal, decimal_value, lines};
use vstd::prelude::*;
use vstd::utf8::encode_utf8;

verus! {

/// What the caller is to do next with a connection.
#[derive(Debug)]
pub enum Step {
    /// To close the connection without a response: the text was no request,
    /// for this reason.
    Close(HttpParseError),
    /// To ask the file system, and then to send what `complete_connection`
    /// makes of the request and the answer.
    Ask(HttpRequest, FileRequest),
    /// To send these bytes, and then to close the connection.
    Send(Vec<u8>),
}

/// Whether `step` is what follows from the text `input`, with the files in
/// `file_directory`.
pub open spec fn is_step_of(input: Seq<char>, file_directory: Seq<char>, step: Step) -> bool {
    match step {
        Step::Close(error) => parsed(input) == Err::<RequestView, HttpParseError>(error),
        Step::Ask(request, asked) => {
            &&& parsed(input) == Ok::<RequestView, HttpParseError>(request@)
            &&& file_request_of(request@, file_directory) == Some(asked@)
        },
        Step::Send(bytes) => {
            &&& parsed(input) is Ok
            &&& file_request_of(parsed(input)->Ok_0, file_directory) is None
            &&& bytes@ == wire(response_to(parsed(input)->Ok_0, FileOutcomeView::NotAsked))
        },
    }
}

/// Whatever the request and whatever the file system answered, the bytes
/// that are sent announce the length of the body that they end with: they
/// are a head and then a body, compressed where gzip was negotiated; read as
/// lines, the head ends with the line `Content-Length`, and an empty line
/// behind it; and the digits in that line stand for the number of bytes of
/// the body as it was sent.
pub proof fn lemma_reply_content_length(request: RequestView, outcome: FileOutcomeView)
    ensures
        ({
            let response = response_to(request, outcome);
            let body = wire_body(response);
            let text = head(response.status, response.headers, body.len());
            let read = lines(text);
            &&& wire(response) == encode_utf8(text) + body
            &&& read.len() >= 3
            &&& read[read.len() - 1] == Seq::<char>::empty()
            &&& read[read.len() - 2] == "Content-Length: "@ + decimal(body.len())
            &&& decimal_value(decimal(body.len())) == body.len()
        }),
{
    let response = response_to(request, outcome);
    lemma_content_length(response.status, response.headers, wire_body(response).len());
}

/// The first step of a connection, from the text that was read from it. A
/// text that is no request gets no response. A request that needs no file
/// gets its response at once.
pub fn handle_connection(input: &str, file_directory: &str) -> (step: Step)
    ensures
        is_step_of(input@, file_directory@, step),
{
    match HttpRequest::parse(input) {
        Err(error) => Step::Close(error),
        Ok(request) => match file_request(&request, file_directory) {
            Some(asked) => Step::Ask(request, asked),
            None => Step::Send(get_response(&request, FileOutcome::NotAsked).to_bytes()),
        },
    }
}

/// The bytes to send for `request`, once the file system answered `outcome`.
pub fn complete_connection(request: &HttpRequest, outcome: FileOutcome) -> (bytes: Vec<u8>)
    ensures
        bytes@ == wire(response_to(request@, outcome@)),
{
    get_response(request, outcome).to_bytes()
}

} // verus!
