//! The routing table: which response a request gets. Two routes read or
//! write a file; the table says which file, and what follows from how that
//! went, and leaves the reading and writing to its caller.

use crate::request::{HttpRequest, RequestView};
use crate::response::{
    bare, negotiated, text_response, with_body, with_header, HttpResponse, ResponseView,
    StatusCode,
};
use crate::strings::{remainder_after, str_eq};
use crate::text::strip_prefix;
use vstd::prelude::*;
use vstd::string::StringExecFns;

verus! {

/// The route of a request. The routes behind a prefix hold what follows the
/// prefix in the path, as it stands there.
#[derive(Debug, Clone, Copy)]
pub enum Route<'a> {
    /// The path `/`.
    Root,
    /// The path `/user-agent`.
    UserAgent,
    /// A path that starts with `/echo/`.
    Echo(&'a str),
    /// A path that starts with `/files/`, with the method `POST`.
    Upload(&'a str),
    /// A path that starts with `/files/`, with another method.
    Download(&'a str),
    /// Any other path.
    NotFound,
}

/// A route, as mathematical values.
pub enum RouteView {
    Root,
    UserAgent,
    Echo(Seq<char>),
    Upload(Seq<char>),
    Download(Seq<char>),
    NotFound,
}

impl<'a> View for Route<'a> {
    type V = RouteView;

    open spec fn view(&self) -> RouteView {
        match *self {
            Route::Root => RouteView::Root,
            Route::UserAgent => RouteView::UserAgent,
            Route::Echo(text) => RouteView::Echo(text@),
            Route::Upload(name) => RouteView::Upload(name@),
            Route::Download(name) => RouteView::Download(name@),
            Route::NotFound => RouteView::NotFound,
        }
    }
}

/// What the file system is asked for a request.
#[derive(Debug)]
pub enum FileRequest {
    /// To write `content` to the file at `path`, in place of what it held.
    Write { path: String, content: String },
    /// To read the file at `path`.
    Read { path: String },
}

/// A request to the file system, as mathematical values.
pub enum FileRequestView {
    Write { path: Seq<char>, content: Seq<char> },
    Read { path: Seq<char> },
}

impl View for FileRequest {
    type V = FileRequestView;

    open spec fn view(&self) -> FileRequestView {
        match self {
            FileRequest::Write { path, content } => FileRequestView::Write {
                path: path@,
                content: content@,
            },
            FileRequest::Read { path } => FileRequestView::Read { path: path@ },
        }
    }
}

/// What the file system answered.
#[derive(Debug)]
pub enum FileOutcome {
    /// Nothing was asked.
    NotAsked,
    /// The file was written.
    Written,
    /// The file was read, and held these bytes.
    Found(Vec<u8>),
    /// The file could not be written or read.
    Failed,
}

/// An answer of the file system, as mathematical values.
pub enum FileOutcomeView {
    NotAsked,
    Written,
    Found(Seq<u8>),
    Failed,
}

impl View for FileOutcome {
    type V = FileOutcomeView;

    open spec fn view(&self) -> FileOutcomeView {
        match self {
            FileOutcome::NotAsked => FileOutcomeView::NotAsked,
            FileOutcome::Written => FileOutcomeView::Written,
            FileOutcome::Found(content) => FileOutcomeView::Found(content@),
            FileOutcome::Failed => FileOutcomeView::Failed,
        }
    }
}

/// The route of a method and a path: the first that fits, in the order of
/// the variants of `Route`.
pub open spec fn route_of(method: Seq<char>, path: Seq<char>) -> RouteView {
    if path == "/"@ {
        RouteView::Root
    } else if path == "/user-agent"@ {
        RouteView::UserAgent
    } else if let Some(text) = strip_prefix(path, "/echo/"@) {
        RouteView::Echo(text)
    } else if let Some(name) = strip_prefix(path, "/files/"@) {
        if method == "POST"@ {
            RouteView::Upload(name)
        } else {
            RouteView::Download(name)
        }
    } else {
        RouteView::NotFound
    }
}

/// The path of the file `name` in `directory`.
pub open spec fn file_path(directory: Seq<char>, name: Seq<char>) -> Seq<char> {
    directory + "/"@ + name
}

/// What the file system is asked for `request`, with the files in
/// `directory`: to write the body, or nothing where there is no body, for an
/// upload; to read for a download; nothing on the other routes.
pub open spec fn file_request_of(request: RequestView, directory: Seq<char>) -> Option<
    FileRequestView,
> {
    match route_of(request.method, request.path) {
        RouteView::Upload(name) => Some(
            FileRequestView::Write {
                path: file_path(directory, name),
                content: match request.body {
                    Some(body) => body,
                    None => Seq::empty(),
                },
            },
        ),
        RouteView::Download(name) => Some(
            FileRequestView::Read { path: file_path(directory, name) },
        ),
        _ => None,
    }
}

/// The value of the header `name` of `request`, if it has one.
pub open spec fn header_of(request: RequestView, name: Seq<char>) -> Option<Seq<char>> {
    if request.headers.contains_key(name) {
        Some(request.headers[name])
    } else {
        None
    }
}

/// A response of status 200 whose body is what a file held.
pub open spec fn file_response(content: Seq<u8>) -> ResponseView {
    with_header(
        with_body(bare(StatusCode::OK), content),
        "Content-Type"@,
        "application/octet-stream"@,
    )
}

/// The response that the routing table gives to `request`, once the file
/// system answered `outcome`, before the encoding is negotiated.
pub open spec fn routed(request: RequestView, outcome: FileOutcomeView) -> ResponseView {
    match route_of(request.method, request.path) {
        RouteView::Root => bare(StatusCode::OK),
        RouteView::UserAgent => match header_of(request, "user-agent"@) {
            Some(agent) => text_response(agent),
            None => bare(StatusCode::BadRequest),
        },
        RouteView::Echo(text) => text_response(text),
        RouteView::Upload(_) => match outcome {
            FileOutcomeView::Written => bare(StatusCode::Created),
            _ => bare(StatusCode::InternalServerError),
        },
        RouteView::Download(_) => match outcome {
            FileOutcomeView::Found(content) => file_response(content),
            _ => bare(StatusCode::NotFound),
        },
        RouteView::NotFound => bare(StatusCode::NotFound),
    }
}

/// The response to `request`, once the file system answered `outcome`: what
/// the routing table gives, with the encoding negotiated from the request's
/// header `accept-encoding`, on every route.
pub open spec fn response_to(request: RequestView, outcome: FileOutcomeView) -> ResponseView {
    negotiated(routed(request, outcome), header_of(request, "accept-encoding"@))
}

/// The route of `request`.
pub fn route<'a>(request: &'a HttpRequest) -> (found: Route<'a>)
    ensures
        found@ == route_of(request.method@, request.path@),
{
    let path = request.path.as_str();
    if str_eq(path, "/") {
        Route::Root
    } else if str_eq(path, "/user-agent") {
        Route::UserAgent
    } else if let Some(text) = remainder_after(path, "/echo/") {
        Route::Echo(text)
    } else if let Some(name) = remainder_after(path, "/files/") {
        if str_eq(request.method.as_str(), "POST") {
            Route::Upload(name)
        } else {
            Route::Download(name)
        }
    } else {
        Route::NotFound
    }
}

/// The path of the file `name` in `directory`.
fn path_in(directory: &str, name: &str) -> (path: String)
    ensures
        path@ == file_path(directory@, name@),
{
    let mut path = directory.to_owned();
    path.append("/");
    path.append(name);
    path
}

/// What the file system is to be asked before `request` can be answered,
/// with the files in `file_directory`.
pub fn file_request(request: &HttpRequest, file_directory: &str) -> (asked: Option<FileRequest>)
    ensures
        match asked {
            Some(it) => file_request_of(request@, file_directory@) == Some(it@),
            None => file_request_of(request@, file_directory@) is None,
        },
{
    match route(request) {
        Route::Upload(name) => {
            let content = match &request.body {
                Some(body) => body.clone(),
                None => String::new(),
            };
            Some(FileRequest::Write { path: path_in(file_directory, name), content })
        },
        Route::Download(name) => Some(FileRequest::Read { path: path_in(file_directory, name) }),
        _ => None,
    }
}

/// The response to `request`, once the file system answered `outcome`.
pub fn get_response(request: &HttpRequest, outcome: FileOutcome) -> (response: HttpResponse)
    ensures
        response@ == response_to(request@, outcome@),
{
    let mut response = match route(request) {
        Route::Root => HttpResponse::ok(),
        Route::UserAgent => match request.headers.get("user-agent") {
            Some(agent) => HttpResponse::text(agent.clone()),
            None => HttpResponse::bad_request(),
        },
        Route::Echo(text) => HttpResponse::text(text.to_owned()),
        Route::Upload(_) => match outcome {
            FileOutcome::Written => HttpResponse::created(),
            _ => HttpResponse::internal_server_error(),
        },
        Route::Download(_) => match outcome {
            FileOutcome::Found(content) => {
                let mut found = HttpResponse::with_body(StatusCode::OK, content);
                found.set_content_type("application/octet-stream");
                found
            },
            _ => HttpResponse::not_found(),
        },
        Route::NotFound => HttpResponse::not_found(),
    };
    let accepted = match request.headers.get("accept-encoding") {
        Some(value) => Some(value.as_str()),
        None => None,
    };
    response.set_accepted_encoding(accepted);
    response
}

} // verus!
