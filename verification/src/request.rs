//! Requests, and the grammar by which a text is read as one.

use crate::headers::{lemma_map_of_keys, lemma_map_of_last, map_of, names_of, HeaderMap, Pair};
use crate::strings::{lines_of, lowercase, split_at_first, split_whitespace, trim};
use crate::text::{
    is_whitespace, leading, lemma_leading, lemma_leading_run, lemma_words, lines, split_once,
    trimmed, words,
};
use vstd::prelude::*;

verus! {

/// Why a text is no request.
#[derive(Debug, Clone, Copy, PartialEq, Eq, Structural)]
pub enum HttpParseError {
    /// The first line holds fewer than three words.
    InvalidRequestLine,
    /// A line of the headers holds no colon.
    InvalidHeader,
    /// The text holds no line.
    MalformedRequest,
}

/// What a request holds, as mathematical values.
pub struct RequestView {
    pub method: Seq<char>,
    pub path: Seq<char>,
    pub version: Seq<char>,
    /// The value of each header, under the lower-case form of its name.
    pub headers: Map<Seq<char>, Seq<char>>,
    pub body: Option<Seq<char>>,
}

/// A request as it was read from a connection.
#[derive(Debug)]
pub struct HttpRequest {
    pub method: String,
    pub path: String,
    pub version: String,
    pub headers: HeaderMap,
    pub body: Option<String>,
}

impl View for HttpRequest {
    type V = RequestView;

    open spec fn view(&self) -> RequestView {
        RequestView {
            method: self.method@,
            path: self.path@,
            version: self.version@,
            headers: self.headers@,
            body: match self.body {
                Some(body) => Some(body@),
                None => None,
            },
        }
    }
}

/// The predicate "holds a character".
pub open spec fn non_empty() -> spec_fn(Seq<char>) -> bool {
    |line: Seq<char>| line.len() > 0
}

/// The predicate "holds no character".
pub open spec fn empty() -> spec_fn(Seq<char>) -> bool {
    |line: Seq<char>| line.len() == 0
}

/// The method, the path and the version that a request line names: its
/// first three words. `None` where it holds fewer.
pub open spec fn request_line(line: Seq<char>) -> Option<(Seq<char>, Seq<char>, Seq<char>)> {
    let found = words(line);
    if found.len() >= 3 {
        Some((found[0], found[1], found[2]))
    } else {
        None
    }
}

/// The header that a line states: before its first colon the name, which is
/// trimmed and then put in lower case, behind it the value, which is
/// trimmed. `None` where the line holds no colon.
pub open spec fn header(line: Seq<char>) -> Option<Pair> {
    match split_once(line, ':') {
        Some((name, value)) => Some((lowercase(trimmed(name)), trimmed(value))),
        None => None,
    }
}

/// The key under which the header of a line is kept: its name, trimmed and
/// in lower case.
pub open spec fn header_key(line: Seq<char>) -> Seq<char> {
    let (name, value) = header(line)->0;
    name
}

/// The lines of the headers: those that follow the request line, up to the
/// first empty line or the end.
pub open spec fn header_section(text: Seq<char>) -> Seq<Seq<char>> {
    let rest = lines(text).skip(1);
    rest.take(leading(rest, non_empty()) as int)
}

/// The lines behind the headers: from the first empty line on.
pub open spec fn body_section(text: Seq<char>) -> Seq<Seq<char>> {
    let rest = lines(text).skip(1);
    rest.skip(leading(rest, non_empty()) as int)
}

/// The headers that lines state, in the order of the lines.
pub open spec fn headers_of(section: Seq<Seq<char>>) -> Seq<Pair> {
    section.map_values(|line: Seq<char>| header(line)->0)
}

/// The body that the lines behind the headers give: the first of them that
/// is not empty. `None` where all are empty.
pub open spec fn body_of(section: Seq<Seq<char>>) -> Option<Seq<char>> {
    let at = leading(section, empty());
    if at < section.len() {
        Some(section[at as int])
    } else {
        None
    }
}

/// The request that a text states, or why it states none.
///
/// A text without a line is malformed. The first line names the method, the
/// path and the version, and is invalid where it holds fewer than three
/// words. Each line of the headers must state a header. Of two headers of
/// one name the later counts.
pub open spec fn parsed(text: Seq<char>) -> Result<RequestView, HttpParseError> {
    if lines(text).len() == 0 {
        Err(HttpParseError::MalformedRequest)
    } else {
        match request_line(lines(text)[0]) {
            None => Err(HttpParseError::InvalidRequestLine),
            Some((method, path, version)) => {
                let section = header_section(text);
                if exists|i: int| 0 <= i < section.len() && header(#[trigger] section[i]) is None {
                    Err(HttpParseError::InvalidHeader)
                } else {
                    Ok(
                        RequestView {
                            method,
                            path,
                            version,
                            headers: map_of(headers_of(section)),
                            body: body_of(body_section(text)),
                        },
                    )
                }
            },
        }
    }
}

/// Whether `result` is what `parse` owes for `text`.
pub open spec fn is_parse_of(text: Seq<char>, result: Result<HttpRequest, HttpParseError>) -> bool {
    match result {
        Ok(request) => parsed(text) == Ok::<RequestView, HttpParseError>(request@),
        Err(error) => parsed(text) == Err::<RequestView, HttpParseError>(error),
    }
}

/// Reading one text twice gives the same: any two results that `parse` may
/// return for it are requests that hold the same, or are the same error.
pub proof fn lemma_parse_twice(
    text: Seq<char>,
    first: Result<HttpRequest, HttpParseError>,
    second: Result<HttpRequest, HttpParseError>,
)
    requires
        is_parse_of(text, first),
        is_parse_of(text, second),
    ensures
        match (first, second) {
            (Ok(a), Ok(b)) => a@ == b@,
            (Err(a), Err(b)) => a == b,
            _ => false,
        },
{
}

/// A header is found under the lower-case form of its name, however the name
/// was written in the request: each line of the headers gives its name, in
/// lower case, as a key; and the value under that key is the line's own
/// unless a later line gives the same key.
pub proof fn lemma_header_lookup(text: Seq<char>, i: int)
    requires
        parsed(text) is Ok,
        0 <= i < header_section(text).len(),
    ensures
        split_once(header_section(text)[i], ':') is Some,
        ({
            let section = header_section(text);
            let (name, value) = split_once(section[i], ':')->0;
            let key = lowercase(trimmed(name));
            let headers = parsed(text)->Ok_0.headers;
            &&& headers.contains_key(key)
            &&& (forall|j: int| i < j < section.len() ==> #[trigger] header_key(section[j]) != key)
                ==> headers[key] == trimmed(value)
        }),
{
    let section = header_section(text);
    let stated = headers_of(section);
    assert(header(section[i]) is Some);
    assert(stated[i] == header(section[i])->0);
    lemma_map_of_keys(stated);
    assert(names_of(stated)[i] == stated[i].0);
    if forall|j: int| i < j < section.len() ==> #[trigger] header_key(section[j]) != stated[i].0 {
        assert forall|j: int| i < j < stated.len() implies (#[trigger] stated[j]).0
            != stated[i].0 by {
            assert(stated[j].0 == header_key(section[j]));
        }
        lemma_map_of_last(stated, i);
    }
}

/// What holds of every request that was read from a text: the method, the
/// path and the version each hold a character and no white space; no line
/// of the headers is empty; and a body holds a character and stands behind
/// an empty line.
pub proof fn lemma_parsed_request(text: Seq<char>)
    requires
        parsed(text) is Ok,
    ensures
        ({
            let request = parsed(text)->Ok_0;
            &&& request.method.len() > 0
            &&& request.path.len() > 0
            &&& request.version.len() > 0
            &&& forall|j: int|
                0 <= j < request.method.len() ==> !is_whitespace(#[trigger] request.method[j])
            &&& forall|j: int|
                0 <= j < request.path.len() ==> !is_whitespace(#[trigger] request.path[j])
            &&& forall|j: int|
                0 <= j < request.version.len() ==> !is_whitespace(#[trigger] request.version[j])
            &&& forall|j: int|
                0 <= j < header_section(text).len() ==> (#[trigger] header_section(text)[j]).len()
                    > 0
            &&& request.body matches Some(body) ==> {
                &&& body.len() > 0
                &&& body_section(text).len() > 1
                &&& body_section(text)[0].len() == 0
            }
        }),
{
    let all = lines(text);
    let rest = all.skip(1);
    let found = words(all[0]);
    lemma_words(all[0]);
    assert(found[0].len() > 0 && found[1].len() > 0 && found[2].len() > 0);
    lemma_leading_run(rest, non_empty());
    let section = header_section(text);
    assert forall|j: int| 0 <= j < section.len() implies (#[trigger] section[j]).len() > 0 by {
        assert(non_empty()(rest[j]));
    }
    let behind = body_section(text);
    lemma_leading_run(behind, empty());
    if body_of(behind) is Some {
        let at = leading(behind, empty()) as int;
        assert(!empty()(behind[at]));
        assert(behind[0] == rest[leading(rest, non_empty()) as int]);
        assert(!non_empty()(behind[0]));
    }
}

impl HttpRequest {
    /// Reads `request` as a request.
    pub fn parse(request: &str) -> (result: Result<HttpRequest, HttpParseError>)
        ensures
            is_parse_of(request@, result),
    {
        let all = lines_of(request);
        if all.len() == 0 {
            return Err(HttpParseError::MalformedRequest);
        }
        let parts = split_whitespace(all[0]);
        if parts.len() < 3 {
            return Err(HttpParseError::InvalidRequestLine);
        }
        let method = parts[0].to_owned();
        let path = parts[1].to_owned();
        let version = parts[2].to_owned();

        let ghost rest = lines(request@).skip(1);
        let ghost mut stated: Seq<Pair> = Seq::empty();
        let mut headers = HeaderMap::new();
        let mut i: usize = 1;
        while i < all.len() && !all[i].is_empty()
            invariant
                1 <= i <= all@.len() == lines(request@).len(),
                request_line(lines(request@)[0]) is Some,
                rest == lines(request@).skip(1),
                forall|j: int| 0 <= j < all@.len() ==> (#[trigger] all@[j])@ == lines(request@)[j],
                forall|j: int| 0 <= j < i - 1 ==> (#[trigger] rest[j]).len() > 0,
                forall|j: int| 0 <= j < i - 1 ==> header(#[trigger] rest[j]) is Some,
                stated == headers_of(rest.take(i - 1)),
                headers@ == map_of(stated),
            decreases all@.len() - i,
        {
            let ghost line = rest[i - 1];
            assert(line == all@[i as int]@);
            match split_at_first(all[i], ':') {
                None => {
                    proof {
                        lemma_leading_run(rest, non_empty());
                        let count = leading(rest, non_empty()) as int;
                        if count < i {
                            assert(non_empty()(rest[count]));
                        }
                        let section = header_section(request@);
                        assert(section[i - 1] == line);
                        assert(header(section[i - 1]) is None);
                    }
                    return Err(HttpParseError::InvalidHeader);
                },
                Some((name, value)) => {
                    let key = trim(name).to_lowercase();
                    let value = trim(value).to_owned();
                    proof {
                        assert(header(line) == Some((key@, value@)));
                        assert(headers_of(rest.take(i as int)) =~= stated.push((key@, value@)));
                        assert(stated.push((key@, value@)).drop_last() =~= stated);
                        stated = stated.push((key@, value@));
                    }
                    headers.insert(key, value);
                },
            }
            i += 1;
        }
        let ghost count = i - 1;
        proof {
            lemma_leading(rest, non_empty(), count);
            let section = header_section(request@);
            assert(section =~= rest.take(count));
            assert forall|j: int| 0 <= j < section.len() implies header(#[trigger] section[j])
                is Some by {
                assert(section[j] == rest[j]);
            }
        }
        let first = i;
        while i < all.len() && all[i].is_empty()
            invariant
                1 <= first <= i <= all@.len() == lines(request@).len(),
                rest == lines(request@).skip(1),
                forall|j: int| 0 <= j < all@.len() ==> (#[trigger] all@[j])@ == lines(request@)[j],
                forall|j: int| first - 1 <= j < i - 1 ==> (#[trigger] rest[j]).len() == 0,
            decreases all@.len() - i,
        {
            assert(rest[i - 1] == all@[i as int]@);
            i += 1;
        }
        let body = if i < all.len() {
            Some(all[i].to_owned())
        } else {
            None
        };
        proof {
            let section = body_section(request@);
            assert(section =~= rest.skip(count));
            assert forall|j: int| 0 <= j < i - first implies empty()(#[trigger] section[j]) by {
                assert(section[j] == rest[count + j]);
            }
            if i - first < section.len() {
                assert(section[i - first] == rest[i - 1]);
                assert(rest[i - 1] == all@[i as int]@);
            }
            lemma_leading(section, empty(), i - first);
        }
        Ok(HttpRequest { method, path, version, headers, body })
    }
}

} // verus!
