//! Decoding of request text into a structured request.

use crate::headers::Headers;
use crate::text::{
    chars_of, contains, find, lemma_span_bounds, lines, next_line, next_word, scan, span, str_eq,
    string_of, words, CharClass,
};
use vstd::prelude::*;
use vstd::slice::slice_subrange;
use vstd::std_specs::cmp::PartialEqSpecImpl;
use vstd::std_specs::convert::{FromSpecImpl, TryFromSpecImpl};

verus! {

/// The request method.
#[derive(Debug, PartialEq, Eq, Clone, Copy, Structural)]
pub enum Method {
    Get,
    Post,
    /// Any method that is not recognized.
    Uninitialized,
}

/// The method that a token of the request line stands for.
pub open spec fn method_of(token: Seq<char>) -> Method {
    if token == "GET"@ {
        Method::Get
    } else if token == "POST"@ {
        Method::Post
    } else {
        Method::Uninitialized
    }
}

impl From<&str> for Method {
    fn from(value: &str) -> (method: Method) {
        if str_eq(value, "GET") {
            Method::Get
        } else if str_eq(value, "POST") {
            Method::Post
        } else {
            Method::Uninitialized
        }
    }
}

impl FromSpecImpl<&str> for Method {
    open spec fn obeys_from_spec() -> bool {
        true
    }

    open spec fn from_spec(value: &str) -> Method {
        method_of(value@)
    }
}

/// The protocol version.
#[derive(Debug, PartialEq, Eq, Clone, Copy, Structural)]
pub enum Version {
    V1_1,
    V2_0,
    /// Any version that is not recognized.
    Uninitialized,
}

/// The version that a token of the request line stands for.
pub open spec fn version_of(token: Seq<char>) -> Version {
    if token == "HTTP/1.1"@ {
        Version::V1_1
    } else if token == "HTTP/2.0"@ {
        Version::V2_0
    } else {
        Version::Uninitialized
    }
}

impl From<&str> for Version {
    fn from(value: &str) -> (version: Version) {
        if str_eq(value, "HTTP/1.1") {
            Version::V1_1
        } else if str_eq(value, "HTTP/2.0") {
            Version::V2_0
        } else {
            Version::Uninitialized
        }
    }
}

impl FromSpecImpl<&str> for Version {
    open spec fn obeys_from_spec() -> bool {
        true
    }

    open spec fn from_spec(value: &str) -> Version {
        version_of(value@)
    }
}

/// The resource that a request names.
#[derive(Debug)]
pub enum Resource {
    /// A path, as it stands in the request line.
    Path(String),
}

/// What a `Resource` holds, as a mathematical value.
pub enum ResourceView {
    Path(Seq<char>),
}

impl View for Resource {
    type V = ResourceView;

    open spec fn view(&self) -> ResourceView {
        match self {
            Resource::Path(path) => ResourceView::Path(path@),
        }
    }
}

impl PartialEq for Resource {
    fn eq(&self, other: &Resource) -> (r: bool) {
        match (self, other) {
            (Resource::Path(a), Resource::Path(b)) => str_eq(a.as_str(), b.as_str()),
        }
    }
}

impl PartialEqSpecImpl for Resource {
    open spec fn obeys_eq_spec() -> bool {
        true
    }

    open spec fn eq_spec(&self, other: &Resource) -> bool {
        self@ == other@
    }
}

/// Why a request text cannot be decoded.
#[derive(Debug, PartialEq, Eq, Clone, Copy, Structural)]
pub enum DecodeError {
    /// A request line has fewer than three words.
    MalformedRequestLine,
}

/// The three fields of a request line: the first three words of the line.
pub open spec fn request_fields(line: Seq<char>) -> (Method, ResourceView, Version) {
    let w = words(line);
    (method_of(w[0]), ResourceView::Path(w[1]), version_of(w[2]))
}

/// What a request line decodes to: its three fields, or an error where the
/// line has fewer than three words. Words after the third are ignored.
pub open spec fn request_line(line: Seq<char>) -> Result<
    (Method, ResourceView, Version),
    DecodeError,
> {
    if words(line).len() >= 3 {
        Ok(request_fields(line))
    } else {
        Err(DecodeError::MalformedRequestLine)
    }
}

/// Decodes a request line into method, resource and version.
pub fn process_req_line(line: &[char]) -> (r: Result<(Method, Resource, Version), DecodeError>)
    ensures
        match r {
            Ok((method, resource, version)) => request_line(line@) == Ok::<
                (Method, ResourceView, Version),
                DecodeError,
            >((method, resource@, version)),
            Err(e) => request_line(line@) == Err::<(Method, ResourceView, Version), DecodeError>(e),
        },
{
    assert(line@.skip(0) =~= line@);
    let first = match next_word(line, 0) {
        Some(range) => range,
        None => {
            return Err(DecodeError::MalformedRequestLine);
        },
    };
    let second = match next_word(line, first.1) {
        Some(range) => range,
        None => {
            return Err(DecodeError::MalformedRequestLine);
        },
    };
    let third = match next_word(line, second.1) {
        Some(range) => range,
        None => {
            return Err(DecodeError::MalformedRequestLine);
        },
    };
    let method = string_of(slice_subrange(line, first.0, first.1));
    let path = string_of(slice_subrange(line, second.0, second.1));
    let version = string_of(slice_subrange(line, third.0, third.1));
    Ok((Method::from(method.as_str()), Resource::Path(path), Version::from(version.as_str())))
}

/// The name and the value of a header line: what stands before the first
/// colon and what stands after it. A line without a colon is a name with an
/// empty value.
pub open spec fn header_line(line: Seq<char>) -> (Seq<char>, Seq<char>) {
    let n = span(line, CharClass::Except(':'));
    if n < line.len() {
        (line.take(n), line.skip(n + 1))
    } else {
        (line, Seq::empty())
    }
}

/// Splits a header line into name and value at its first colon.
pub fn process_header_line(line: &[char]) -> (r: (String, String))
    ensures
        (r.0@, r.1@) == header_line(line@),
{
    assert(line@.skip(0) =~= line@);
    let colon = scan(line, 0, CharClass::Except(':'));
    if colon < line.len() {
        let name = string_of(slice_subrange(line, 0, colon));
        let value = string_of(slice_subrange(line, colon + 1, line.len()));
        (name, value)
    } else {
        (string_of(line), String::new())
    }
}

/// What a line of a request text is taken for.
#[derive(Debug, PartialEq, Eq, Clone, Copy, Structural)]
pub enum LineKind {
    /// A line that contains `HTTP`: the request line.
    Request,
    /// A line without `HTTP` that contains a colon.
    Header,
    /// An empty line.
    Blank,
    /// Any other line: the message body.
    Body,
}

/// The kind of a line, decided by what the line contains.
pub open spec fn kind_of(line: Seq<char>) -> LineKind {
    if contains(line, "HTTP"@) {
        LineKind::Request
    } else if line.contains(':') {
        LineKind::Header
    } else if line.len() == 0 {
        LineKind::Blank
    } else {
        LineKind::Body
    }
}

/// Decides the kind of a line.
pub fn classify(line: &[char]) -> (kind: LineKind)
    ensures
        kind == kind_of(line@),
{
    let marker: [char; 4] = ['H', 'T', 'T', 'P'];
    proof {
        reveal_strlit("HTTP");
        assert(marker@ =~= "HTTP"@);
    }
    if find(line, marker.as_slice()) {
        return LineKind::Request;
    }
    assert(line@.skip(0) =~= line@);
    let colon = scan(line, 0, CharClass::Except(':'));
    proof {
        lemma_span_bounds(line@, CharClass::Except(':'));
    }
    if colon < line.len() {
        LineKind::Header
    } else if line.len() == 0 {
        LineKind::Blank
    } else {
        LineKind::Body
    }
}

/// What a request holds, as a mathematical value.
pub struct RequestView {
    pub method: Method,
    pub version: Version,
    pub resource: ResourceView,
    pub headers: Map<Seq<char>, Seq<char>>,
    pub message_body: Seq<char>,
}

/// The last of `lines` that is of the given kind, if there is one.
pub open spec fn last_of_kind(lines: Seq<Seq<char>>, kind: LineKind) -> Option<Seq<char>>
    decreases lines.len(),
{
    if lines.len() == 0 {
        None
    } else if kind_of(lines.last()) == kind {
        Some(lines.last())
    } else {
        last_of_kind(lines.drop_last(), kind)
    }
}

/// The mapping that the header lines among `lines` give, inserted in order:
/// where a name repeats, the last line of that name stands.
pub open spec fn header_map(lines: Seq<Seq<char>>) -> Map<Seq<char>, Seq<char>>
    decreases lines.len(),
{
    if lines.len() == 0 {
        Map::empty()
    } else if kind_of(lines.last()) == LineKind::Header {
        header_map(lines.drop_last()).insert(
            header_line(lines.last()).0,
            header_line(lines.last()).1,
        )
    } else {
        header_map(lines.drop_last())
    }
}

/// Some request line among `lines` has fewer than three words.
pub open spec fn malformed(lines: Seq<Seq<char>>) -> bool {
    exists|i: int|
        0 <= i < lines.len() && kind_of(#[trigger] lines[i]) == LineKind::Request && words(
            lines[i],
        ).len() < 3
}

/// The request that `lines` describe: method, resource and version come from
/// the last request line, the headers from the header lines, and the body is
/// the last body line. Without a request line the method and the version are
/// unrecognized and the path is empty; without a body line the body is empty.
pub open spec fn request_of(lines: Seq<Seq<char>>) -> RequestView {
    let fields = match last_of_kind(lines, LineKind::Request) {
        Some(line) => request_fields(line),
        None => (Method::Uninitialized, ResourceView::Path(Seq::empty()), Version::Uninitialized),
    };
    RequestView {
        method: fields.0,
        resource: fields.1,
        version: fields.2,
        headers: header_map(lines),
        message_body: match last_of_kind(lines, LineKind::Body) {
            Some(line) => line,
            None => Seq::empty(),
        },
    }
}

/// What a request text decodes to: the request that its lines describe, or an
/// error where one of its request lines has fewer than three words.
pub open spec fn decode(text: Seq<char>) -> Result<RequestView, DecodeError> {
    if malformed(lines(text)) {
        Err(DecodeError::MalformedRequestLine)
    } else {
        Ok(request_of(lines(text)))
    }
}

/// A decoded request.
#[derive(Debug)]
pub struct HttpRequest {
    pub method: Method,
    pub version: Version,
    pub resource: Resource,
    pub headers: Headers,
    pub message_body: String,
}

impl View for HttpRequest {
    type V = RequestView;

    open spec fn view(&self) -> RequestView {
        RequestView {
            method: self.method,
            version: self.version,
            resource: self.resource@,
            headers: self.headers@,
            message_body: self.message_body@,
        }
    }
}

/// The result of decoding, as a mathematical value.
pub open spec fn outcome(r: Result<HttpRequest, DecodeError>) -> Result<RequestView, DecodeError> {
    match r {
        Ok(request) => Ok(request@),
        Err(e) => Err(e),
    }
}

/// Adding a line at the end adds it to what the lines before it describe.
proof fn lemma_push_line(done: Seq<Seq<char>>, line: Seq<char>)
    ensures
        done.push(line).drop_last() == done,
        done.push(line).last() == line,
        malformed(done.push(line)) <==> malformed(done) || (kind_of(line) == LineKind::Request
            && words(line).len() < 3),
{
    let all = done.push(line);
    assert(all.drop_last() =~= done);
    if malformed(done) {
        let i = choose|i: int|
            0 <= i < done.len() && kind_of(#[trigger] done[i]) == LineKind::Request && words(
                done[i],
            ).len() < 3;
        assert(all[i] == done[i]);
    }
    if kind_of(line) == LineKind::Request && words(line).len() < 3 {
        assert(all[done.len() as int] == line);
    }
    if malformed(all) {
        let i = choose|i: int|
            0 <= i < all.len() && kind_of(#[trigger] all[i]) == LineKind::Request && words(
                all[i],
            ).len() < 3;
        if i < done.len() {
            assert(done[i] == all[i]);
        }
    }
}

impl TryFrom<String> for HttpRequest {
    type Error = DecodeError;

    /// Decodes a request text. The result is the request that `decode`
    /// describes; the text is rejected exactly where `decode` rejects it.
    fn try_from(req: String) -> (r: Result<HttpRequest, DecodeError>)
        ensures
            outcome(r) == decode(req@),
    {
        let text = chars_of(req.as_str());
        let cs = text.as_slice();
        let mut method = Method::Uninitialized;
        let mut version = Version::Uninitialized;
        let mut resource = Resource::Path(String::new());
        let mut headers = Headers::new();
        let mut body: (usize, usize) = (0, 0);
        let ghost mut done: Seq<Seq<char>> = Seq::empty();
        let mut pos: usize = 0;
        proof {
            assert(cs@.skip(0) =~= cs@);
            assert(done + lines(cs@) =~= lines(cs@));
            assert(cs@.subrange(0, 0) =~= Seq::<char>::empty());
        }
        while pos < cs.len()
            invariant
                pos <= cs.len(),
                cs@ == req@,
                lines(cs@) == done + lines(cs@.skip(pos as int)),
                !malformed(done),
                body.0 <= body.1 <= cs.len(),
                request_of(done) == (RequestView {
                    method,
                    version,
                    resource: resource@,
                    headers: headers@,
                    message_body: cs@.subrange(body.0 as int, body.1 as int),
                }),
            decreases cs.len() - pos,
        {
            let (end, next) = next_line(cs, pos);
            let line = slice_subrange(cs, pos, end);
            proof {
                lemma_push_line(done, line@);
                assert(done.push(line@) + lines(cs@.skip(next as int)) =~= done + (seq![line@]
                    + lines(cs@.skip(next as int))));
            }
            match classify(line) {
                LineKind::Request => {
                    match process_req_line(line) {
                        Ok(fields) => {
                            method = fields.0;
                            resource = fields.1;
                            version = fields.2;
                        },
                        Err(e) => {
                            proof {
                                let all = lines(cs@);
                                assert(all[done.len() as int] == line@);
                            }
                            return Err(e);
                        },
                    }
                },
                LineKind::Header => {
                    let (name, value) = process_header_line(line);
                    headers.insert(name, value);
                },
                LineKind::Blank => {},
                LineKind::Body => {
                    body = (pos, end);
                },
            }
            proof {
                done = done.push(line@);
            }
            pos = next;
        }
        proof {
            assert(cs@.skip(pos as int).len() == 0);
            assert(done + lines(cs@.skip(pos as int)) =~= done);
        }
        let message_body = string_of(slice_subrange(cs, body.0, body.1));
        Ok(HttpRequest { method, version, resource, headers, message_body })
    }
}

impl TryFromSpecImpl<String> for HttpRequest {
    /// The result is specified up to its view, by the `ensures` of `try_from`:
    /// strings with the same characters are not known to be the same value.
    open spec fn obeys_try_from_spec() -> bool {
        false
    }

    open spec fn try_from_spec(req: String) -> Result<HttpRequest, DecodeError> {
        choose|r: Result<HttpRequest, DecodeError>| outcome(r) == decode(req@)
    }
}

} // verus!
