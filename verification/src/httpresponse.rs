//! Building of responses and their encoding into wire text.

use crate::headers::{to_map, Field, Headers};
use crate::text::{decimal, push_decimal, str_eq};
use vstd::prelude::*;
use vstd::std_specs::cmp::PartialEqSpecImpl;
use vstd::std_specs::convert::FromSpecImpl;
use vstd::utf8::encode_utf8;

verus! {

/// The reason phrase that belongs to a status code. A code that is not known
/// has the phrase of 404.
pub open spec fn reason_phrase(code: Seq<char>) -> Seq<char> {
    if code == "200"@ {
        "OK"@
    } else if code == "400"@ {
        "Bad Request"@
    } else if code == "404"@ {
        "Not Found"@
    } else if code == "500"@ {
        "Internal Server Error"@
    } else {
        "Not Found"@
    }
}

/// Whether `table` lists the known status codes, each with its reason phrase.
spec fn is_status_table(table: [(&'static str, &'static str); 4]) -> bool {
    &&& table[0].0@ == "200"@ && table[0].1@ == "OK"@
    &&& table[1].0@ == "400"@ && table[1].1@ == "Bad Request"@
    &&& table[2].0@ == "404"@ && table[2].1@ == "Not Found"@
    &&& table[3].0@ == "500"@ && table[3].1@ == "Internal Server Error"@
}

/// The known status codes, each with its reason phrase.
fn status_table() -> (table: [(&'static str, &'static str); 4])
    ensures
        is_status_table(table),
{
    [("200", "OK"), ("400", "Bad Request"), ("404", "Not Found"), ("500", "Internal Server Error")]
}

/// Looks up the reason phrase of a status code.
pub fn status_text_of(code: &str) -> (text: &'static str)
    ensures
        text@ == reason_phrase(code@),
{
    let table = status_table();
    let mut i: usize = 0;
    while i < 4
        invariant
            i <= 4,
            is_status_table(table),
            forall|j: int| 0 <= j < i ==> code@ != (#[trigger] table[j]).0@,
        decreases 4 - i,
    {
        if str_eq(code, table[i].0) {
            return table[i].1;
        }
        i += 1;
    }
    assert(code@ != table[0].0@ && code@ != table[1].0@ && code@ != table[2].0@ && code@
        != table[3].0@);
    "Not Found"
}

/// What a response holds, as a mathematical value.
pub struct ResponseView {
    pub version: Seq<char>,
    pub status_code: Seq<char>,
    pub status_text: Seq<char>,
    /// The header fields in the order in which they are written.
    pub headers: Option<Seq<Field>>,
    pub body: Option<Seq<char>>,
}

/// The header fields of a response that was built without any.
pub open spec fn default_fields() -> Seq<Field> {
    seq![("Content-Type"@, "text/html"@)]
}

/// The header lines of the wire text: for each field its name, a colon, its
/// value and a line break.
pub open spec fn header_block(fields: Seq<Field>) -> Seq<char>
    decreases fields.len(),
{
    if fields.len() == 0 {
        Seq::empty()
    } else {
        header_block(fields.drop_last()) + fields.last().0 + ":"@ + fields.last().1 + "\r\n"@
    }
}

/// The fields that are written for a response: none where it has no mapping.
pub open spec fn fields_of(headers: Option<Seq<Field>>) -> Seq<Field> {
    match headers {
        Some(fields) => fields,
        None => Seq::empty(),
    }
}

/// The body that is written for a response: empty where it has none.
pub open spec fn body_of(body: Option<Seq<char>>) -> Seq<char> {
    match body {
        Some(text) => text,
        None => Seq::empty(),
    }
}

/// The wire text of a response: the status line, the header lines, the
/// `Content-Length` line with the number of bytes of the body in UTF-8, an
/// empty line, and the body.
pub open spec fn wire(response: ResponseView) -> Seq<char> {
    response.version + " "@ + response.status_code + " "@ + response.status_text + "\r\n"@
        + header_block(fields_of(response.headers)) + "Content-Length: "@ + decimal(
        encode_utf8(body_of(response.body)).len(),
    ) + "\r\n\r\n"@ + body_of(response.body)
}

/// A response. Its version is `HTTP/1.1`, and its status text is the reason
/// phrase of its status code.
#[derive(Debug)]
pub struct HttpResponse<'a> {
    version: &'a str,
    status_code: &'a str,
    status_text: &'a str,
    headers: Option<Headers>,
    body: Option<String>,
}

impl<'a> View for HttpResponse<'a> {
    type V = ResponseView;

    closed spec fn view(&self) -> ResponseView {
        ResponseView {
            version: self.version@,
            status_code: self.status_code@,
            status_text: self.status_text@,
            headers: match self.headers {
                Some(headers) => Some(headers.fields()),
                None => None,
            },
            body: match self.body {
                Some(body) => Some(body@),
                None => None,
            },
        }
    }
}

impl<'a> Default for HttpResponse<'a> {
    /// The response `200 OK` without header fields and without a body.
    fn default() -> (response: HttpResponse<'a>)
        ensures
            response@ == (ResponseView {
                version: "HTTP/1.1"@,
                status_code: "200"@,
                status_text: "OK"@,
                headers: None,
                body: None,
            }),
    {
        HttpResponse {
            version: "HTTP/1.1",
            status_code: "200",
            status_text: "OK",
            headers: None,
            body: None,
        }
    }
}

impl<'a> HttpResponse<'a> {
    #[verifier::type_invariant]
    spec fn well_formed(&self) -> bool {
        &&& self.version@ == "HTTP/1.1"@
        &&& self.status_text@ == reason_phrase(self.status_code@)
    }

    /// Builds a response with the given status code. The status text is
    /// derived from the code. Without header fields the response has the one
    /// field `Content-Type: text/html`; an empty mapping stays empty.
    pub fn new(status_code: &'a str, headers: Option<Headers>, body: Option<String>) -> (response:
        HttpResponse<'a>)
        ensures
            response@ == (ResponseView {
                version: "HTTP/1.1"@,
                status_code: status_code@,
                status_text: reason_phrase(status_code@),
                headers: Some(
                    match headers {
                        Some(given) => given.fields(),
                        None => default_fields(),
                    },
                ),
                body: match body {
                    Some(given) => Some(given@),
                    None => None,
                },
            }),
    {
        let headers = match headers {
            Some(given) => given,
            None => {
                let mut fields = Headers::new();
                fields.insert(String::from_str("Content-Type"), String::from_str("text/html"));
                assert(fields.fields() =~= default_fields());
                fields
            },
        };
        HttpResponse {
            version: "HTTP/1.1",
            status_code,
            status_text: status_text_of(status_code),
            headers: Some(headers),
            body,
        }
    }

    /// The protocol version.
    pub fn version(&self) -> (version: &str)
        ensures
            version@ == self@.version,
            version@ == "HTTP/1.1"@,
    {
        proof {
            use_type_invariant(self);
        }
        self.version
    }

    /// The status code.
    pub fn status_code(&self) -> (code: &str)
        ensures
            code@ == self@.status_code,
    {
        self.status_code
    }

    /// The status text, which is the reason phrase of the status code.
    pub fn status_text(&self) -> (text: &str)
        ensures
            text@ == self@.status_text,
            text@ == reason_phrase(self@.status_code),
    {
        proof {
            use_type_invariant(self);
        }
        self.status_text
    }

    /// The header lines of the wire text.
    pub fn headers(&self) -> (block: String)
        ensures
            block@ == header_block(fields_of(self@.headers)),
    {
        let mut block = String::new();
        match &self.headers {
            Some(headers) => {
                let n = headers.len();
                let mut i: usize = 0;
                while i < n
                    invariant
                        i <= n,
                        n == headers.fields().len(),
                        block@ == header_block(headers.fields().take(i as int)),
                    decreases n - i,
                {
                    match headers.field(i) {
                        Some((name, value)) => {
                            block.append(name.as_str());
                            block.append(":");
                            block.append(value.as_str());
                            block.append("\r\n");
                        },
                        None => {},
                    }
                    proof {
                        let next = headers.fields().take(i + 1);
                        assert(next.drop_last() =~= headers.fields().take(i as int));
                        assert(next.last() == headers.fields()[i as int]);
                    }
                    i += 1;
                }
                assert(headers.fields().take(n as int) =~= headers.fields());
            },
            None => {},
        }
        block
    }

    /// The body, which is empty where the response has none.
    pub fn body(&self) -> (text: &str)
        ensures
            text@ == body_of(self@.body),
    {
        match &self.body {
            Some(body) => body.as_str(),
            None => {
                let empty = "";
                proof {
                    reveal_strlit("");
                    assert(empty@ =~= Seq::<char>::empty());
                }
                empty
            },
        }
    }

    /// The wire text of the response.
    pub fn serialize(&self) -> (text: String)
        ensures
            text@ == wire(self@),
    {
        let body = self.body();
        let mut text = String::from_str(self.version());
        text.append(" ");
        text.append(self.status_code());
        text.append(" ");
        text.append(self.status_text());
        text.append("\r\n");
        text.append(self.headers().as_str());
        text.append("Content-Length: ");
        push_decimal(&mut text, body.as_bytes().len());
        text.append("\r\n\r\n");
        text.append(body);
        text
    }

    /// Writes the wire text of the response, encoded in UTF-8, to the end of
    /// `write_stream`.
    pub fn send_response(&self, write_stream: &mut Vec<u8>)
        ensures
            final(write_stream)@ == old(write_stream)@ + encode_utf8(wire(self@)),
    {
        let text = self.serialize();
        let bytes = text.as_str().as_bytes();
        let mut i: usize = 0;
        while i < bytes.len()
            invariant
                i <= bytes.len(),
                write_stream@ == old(write_stream)@ + bytes@.take(i as int),
            decreases bytes.len() - i,
        {
            write_stream.push(bytes[i]);
            i += 1;
            assert(bytes@.take(i as int) =~= bytes@.take(i - 1).push(bytes@[i - 1]));
        }
        assert(bytes@.take(bytes.len() as int) =~= bytes@);
    }
}

/// The mapping that the header fields of a response stand for.
pub open spec fn mapping_of(headers: Option<Seq<Field>>) -> Option<Map<Seq<char>, Seq<char>>> {
    match headers {
        Some(fields) => Some(to_map(fields)),
        None => None,
    }
}

impl<'a> PartialEq for HttpResponse<'a> {
    /// Two responses are equal when they agree in version, status code,
    /// status text and body, and hold the same header names with the same
    /// values, in whatever order.
    fn eq(&self, other: &HttpResponse<'a>) -> (r: bool) {
        let headers = match (&self.headers, &other.headers) {
            (Some(a), Some(b)) => *a == *b,
            (None, None) => true,
            _ => false,
        };
        let body = match (&self.body, &other.body) {
            (Some(a), Some(b)) => str_eq(a.as_str(), b.as_str()),
            (None, None) => true,
            _ => false,
        };
        str_eq(self.version, other.version) && str_eq(self.status_code, other.status_code)
            && str_eq(self.status_text, other.status_text) && headers && body
    }
}

impl<'a> PartialEqSpecImpl for HttpResponse<'a> {
    open spec fn obeys_eq_spec() -> bool {
        true
    }

    open spec fn eq_spec(&self, other: &HttpResponse<'a>) -> bool {
        &&& self@.version == other@.version
        &&& self@.status_code == other@.status_code
        &&& self@.status_text == other@.status_text
        &&& mapping_of(self@.headers) == mapping_of(other@.headers)
        &&& self@.body == other@.body
    }
}

impl<'a> Clone for HttpResponse<'a> {
    fn clone(&self) -> (response: HttpResponse<'a>)
        ensures
            response@ == self@,
    {
        proof {
            use_type_invariant(self);
        }
        HttpResponse {
            version: self.version,
            status_code: self.status_code,
            status_text: self.status_text,
            headers: match &self.headers {
                Some(headers) => Some(headers.clone()),
                None => None,
            },
            body: match &self.body {
                Some(body) => Some(body.clone()),
                None => None,
            },
        }
    }
}

impl<'a> From<HttpResponse<'a>> for String {
    /// The wire text of the response.
    fn from(response: HttpResponse<'a>) -> (text: String)
        ensures
            text@ == wire(response@),
    {
        response.serialize()
    }
}

impl<'a> FromSpecImpl<HttpResponse<'a>> for String {
    /// The result is specified up to its view, by the `ensures` of `from`:
    /// strings with the same characters are not known to be the same value.
    open spec fn obeys_from_spec() -> bool {
        false
    }

    open spec fn from_spec(response: HttpResponse<'a>) -> String {
        choose|text: String| text@ == wire(response@)
    }
}

} // verus!
