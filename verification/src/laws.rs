//! Properties of the codec, proved from its definitions.

use crate::httprequest::{
    decode, header_line, header_map, kind_of, last_of_kind, malformed, method_of, outcome,
    request_line, request_of, version_of, DecodeError, HttpRequest, LineKind, Method, RequestView,
    ResourceView, Version,
};
use crate::httpresponse::reason_phrase;
use crate::text::{
    contains, is_word, lemma_span_is, lemma_words_after_blank, lemma_words_after_word, lines,
    words, CharClass,
};
use vstd::prelude::*;

verus! {

/// `GET` and `POST` stand for their methods, and every other token for the
/// unrecognized one.
pub proof fn lemma_method_of(token: Seq<char>)
    ensures
        token == "GET"@ ==> method_of(token) == Method::Get,
        token == "POST"@ ==> method_of(token) == Method::Post,
        token != "GET"@ && token != "POST"@ ==> method_of(token) == Method::Uninitialized,
{
    reveal_strlit("GET");
    reveal_strlit("POST");
    assert("GET"@.len() != "POST"@.len());
}

/// `HTTP/1.1` and `HTTP/2.0` stand for their versions, and every other token
/// for the unrecognized one.
pub proof fn lemma_version_of(token: Seq<char>)
    ensures
        token == "HTTP/1.1"@ ==> version_of(token) == Version::V1_1,
        token == "HTTP/2.0"@ ==> version_of(token) == Version::V2_0,
        token != "HTTP/1.1"@ && token != "HTTP/2.0"@ ==> version_of(token)
            == Version::Uninitialized,
{
    reveal_strlit("HTTP/1.1");
    reveal_strlit("HTTP/2.0");
    if token == "HTTP/2.0"@ {
        assert(token[5] != "HTTP/1.1"@[5]);
    }
}

/// Each known status code has its own reason phrase, and every other code has
/// the phrase of 404.
pub proof fn lemma_reason_phrase(code: Seq<char>)
    ensures
        code == "200"@ ==> reason_phrase(code) == "OK"@,
        code == "400"@ ==> reason_phrase(code) == "Bad Request"@,
        code == "404"@ ==> reason_phrase(code) == "Not Found"@,
        code == "500"@ ==> reason_phrase(code) == "Internal Server Error"@,
        code != "200"@ && code != "400"@ && code != "404"@ && code != "500"@ ==> reason_phrase(
            code,
        ) == "Not Found"@,
{
    reveal_strlit("200");
    reveal_strlit("400");
    reveal_strlit("404");
    reveal_strlit("500");
    if code == "400"@ {
        assert(code[0] != "200"@[0]);
    }
    if code == "404"@ {
        assert(code[0] != "200"@[0]);
        assert(code[2] != "400"@[2]);
    }
    if code == "500"@ {
        assert(code[0] != "200"@[0]);
        assert(code[0] != "400"@[0]);
        assert(code[0] != "404"@[0]);
    }
}

/// Three words with one space between them are the three fields of a request
/// line: the first gives the method, the second is the path as it stands, the
/// third gives the version.
pub proof fn lemma_request_line(method: Seq<char>, path: Seq<char>, version: Seq<char>)
    requires
        is_word(method),
        is_word(path),
        is_word(version),
    ensures
        words(method + " "@ + path + " "@ + version) == seq![method, path, version],
        request_line(method + " "@ + path + " "@ + version) == Ok::<
            (Method, ResourceView, Version),
            DecodeError,
        >((method_of(method), ResourceView::Path(path), version_of(version))),
{
    reveal_strlit(" ");
    let blank = seq![' '];
    assert(" "@ =~= blank);
    let line = method + blank + path + blank + version;
    let after_method = blank + (path + (blank + version));
    let after_path = blank + version;
    assert(line =~= method + after_method);
    lemma_words_after_word(method, after_method);
    lemma_words_after_blank(' ', path + after_path);
    lemma_words_after_word(path, after_path);
    lemma_words_after_blank(' ', version);
    assert(version + Seq::<char>::empty() =~= version);
    lemma_words_after_word(version, Seq::empty());
    assert(words(Seq::<char>::empty()) =~= Seq::<Seq<char>>::empty());
    assert(words(line) =~= seq![method, path, version]);
}

/// A text that is one request line decodes to the fields of that line, with
/// no headers and an empty body. So the method of the result is the one that
/// the first word stands for, and the version the one that the third word
/// stands for.
pub proof fn lemma_decode_request_line(method: Seq<char>, path: Seq<char>, version: Seq<char>)
    requires
        is_word(method),
        is_word(path),
        is_word(version),
        contains(method + " "@ + path + " "@ + version, "HTTP"@),
    ensures
        decode(method + " "@ + path + " "@ + version) == Ok::<RequestView, DecodeError>(
            RequestView {
                method: method_of(method),
                version: version_of(version),
                resource: ResourceView::Path(path),
                headers: Map::empty(),
                message_body: Seq::empty(),
            },
        ),
{
    let line = method + " "@ + path + " "@ + version;
    lemma_request_line(method, path, version);
    reveal_strlit(" ");
    assert forall|i: int| 0 <= i < line.len() implies CharClass::Except('\n').has(
        #[trigger] line[i],
    ) by {
        if i < method.len() {
            assert(line[i] == method[i]);
        } else if i == method.len() {
        } else if i < method.len() + 1 + path.len() {
            assert(line[i] == path[i - method.len() - 1]);
        } else if i == method.len() + 1 + path.len() {
        } else {
            assert(line[i] == version[i - method.len() - path.len() - 2]);
        }
    }
    lemma_span_is(line, CharClass::Except('\n'), line.len() as int);
    let ls = seq![line];
    assert(lines(line) == ls);
    assert(ls.last() == line);
    assert(ls.drop_last() =~= Seq::<Seq<char>>::empty());
    assert(!malformed(ls)) by {
        if malformed(ls) {
            let i = choose|i: int|
                0 <= i < ls.len() && kind_of(#[trigger] ls[i]) == LineKind::Request && words(
                    ls[i],
                ).len() < 3;
            assert(ls[i] == line);
        }
    }
    assert(last_of_kind(ls.drop_last(), LineKind::Body) == None::<Seq<char>>);
    assert(header_map(ls.drop_last()) =~= Map::<Seq<char>, Seq<char>>::empty());
    assert(request_of(ls).headers =~= Map::<Seq<char>, Seq<char>>::empty());
}

/// In a line whose name holds no colon, the name is what stands before the
/// first colon and the value is all that stands after it, as it stands.
pub proof fn lemma_header_line(name: Seq<char>, value: Seq<char>)
    requires
        !name.contains(':'),
    ensures
        header_line(name + ":"@ + value) == (name, value),
{
    reveal_strlit(":");
    let line = name + ":"@ + value;
    assert forall|i: int| 0 <= i < name.len() implies CharClass::Except(':').has(
        #[trigger] line[i],
    ) by {
        assert(line[i] == name[i]);
    }
    assert(line[name.len() as int] == ':');
    lemma_span_is(line, CharClass::Except(':'), name.len() as int);
    assert(line.take(name.len() as int) =~= name);
    assert(line.skip(name.len() as int + 1) =~= value);
}

/// The headers and the body depend only on the lines that are neither
/// request lines nor blank: leaving out a request line or a blank line
/// changes neither of them.
pub proof fn lemma_headers_and_body_skip(lines: Seq<Seq<char>>, i: int)
    requires
        0 <= i < lines.len(),
        kind_of(lines[i]) == LineKind::Request || kind_of(lines[i]) == LineKind::Blank,
    ensures
        header_map(lines.remove(i)) == header_map(lines),
        last_of_kind(lines.remove(i), LineKind::Body) == last_of_kind(lines, LineKind::Body),
    decreases lines.len(),
{
    if i == lines.len() - 1 {
        assert(lines.remove(i) =~= lines.drop_last());
    } else {
        assert(lines.remove(i).drop_last() =~= lines.drop_last().remove(i));
        assert(lines.remove(i).last() == lines.last());
        assert(lines.drop_last()[i] == lines[i]);
        lemma_headers_and_body_skip(lines.drop_last(), i);
    }
}

/// Among lines of which none is of a kind, there is no last line of that kind.
proof fn lemma_none_of_kind(lines: Seq<Seq<char>>, kind: LineKind)
    requires
        forall|i: int| 0 <= i < lines.len() ==> kind_of(#[trigger] lines[i]) != kind,
    ensures
        last_of_kind(lines, kind) == None::<Seq<char>>,
    decreases lines.len(),
{
    if lines.len() > 0 {
        let init = lines.drop_last();
        assert forall|i: int| 0 <= i < init.len() implies kind_of(#[trigger] init[i]) != kind by {
            assert(init[i] == lines[i]);
        }
        lemma_none_of_kind(init, kind);
    }
}

/// A text of which no line contains `HTTP` is decoded, and the result has an
/// unrecognized method, an unrecognized version and an empty path.
pub proof fn lemma_decode_without_request_line(text: Seq<char>)
    requires
        forall|i: int| 0 <= i < lines(text).len() ==> !contains(#[trigger] lines(text)[i], "HTTP"@),
    ensures
        decode(text) is Ok,
        decode(text)->Ok_0.method == Method::Uninitialized,
        decode(text)->Ok_0.version == Version::Uninitialized,
        decode(text)->Ok_0.resource == ResourceView::Path(Seq::empty()),
{
    lemma_none_of_kind(lines(text), LineKind::Request);
}

/// Decoding depends on the text alone: whatever two decodings of one text
/// return describes the same value.
pub proof fn lemma_decode_twice(
    text: Seq<char>,
    first: Result<HttpRequest, DecodeError>,
    second: Result<HttpRequest, DecodeError>,
)
    requires
        outcome(first) == decode(text),
        outcome(second) == decode(text),
    ensures
        outcome(first) == outcome(second),
        first is Ok <==> second is Ok,
        first is Ok ==> first->Ok_0@ == second->Ok_0@,
{
}

} // verus!
