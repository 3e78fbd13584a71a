//! A minimal HTTP/1.1 server library: a request parser, a response builder,
//! a routing table and the steps of a connection, with their contracts.

pub mod connection;
pub mod headers;
pub mod request;
pub mod response;
pub mod router;
pub mod strings;
pub mod text;

pub use connection::{complete_connection, handle_connection, Step};
pub use headers::HeaderMap;
pub use request::{HttpParseError, HttpRequest};
pub use response::{ContentEncoding, HttpResponse, StatusCode};
pub use router::{file_request, get_response, route, FileOutcome, FileRequest, Route};
