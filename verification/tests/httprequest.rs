use http::headers::Headers;
use http::httprequest::{
    classify, process_header_line, process_req_line, DecodeError, HttpRequest, LineKind, Method,
    Resource, Version,
};
use std::collections::HashMap;

fn chars(s: &str) -> Vec<char> {
    s.chars().collect()
}

fn decode(text: &str) -> HttpRequest {
    HttpRequest::try_from(text.to_string()).unwrap()
}

fn header_entries(headers: &Headers) -> HashMap<String, String> {
    let mut entries = HashMap::new();
    let mut i = 0;
    while let Some((name, value)) = headers.field(i) {
        entries.insert(name.clone(), value.clone());
        i += 1;
    }
    entries
}

#[test]
fn test_method_into() {
    let get: Method = "GET".into();
    assert_eq!(get, Method::Get);
}

#[test]
fn test_version_into() {
    let version1_1: Version = "HTTP/1.1".into();
    assert_eq!(version1_1, Version::V1_1);
}

#[test]
fn test_read_http() {
    let http = String::from(
        "
GET /greeting HTTP/1.1
Host: localhost
Accept: */*
User-Agent: curl/7.71.1
        ",
    );

    let request: HttpRequest = http.try_into().unwrap();
    assert_eq!(request.method, Method::Get);
    assert_eq!(request.version, Version::V1_1);
    assert_eq!(request.resource, Resource::Path("/greeting".to_string()));
    assert_eq!(
        header_entries(&request.headers),
        HashMap::from([
            ("Host".into(), " localhost".into()),
            ("Accept".into(), " */*".into()),
            ("User-Agent".into(), " curl/7.71.1".into()),
        ])
    );
    assert_eq!(request.headers.len(), 3);
    assert_eq!(request.message_body, "        ");
}

#[test]
fn method_recognizes_get_and_post_only() {
    assert_eq!(Method::from("GET"), Method::Get);
    assert_eq!(Method::from("POST"), Method::Post);
    for other in ["", "get", "Get", "PUT", "DELETE", "GET ", " GET", "POSTS", "GE", "GETT"] {
        assert_eq!(Method::from(other), Method::Uninitialized, "{other:?}");
    }
}

#[test]
fn version_recognizes_1_1_and_2_0_only() {
    assert_eq!(Version::from("HTTP/1.1"), Version::V1_1);
    assert_eq!(Version::from("HTTP/2.0"), Version::V2_0);
    for other in ["", "HTTP/1.0", "HTTP/2", "http/1.1", "HTTP/1.1 ", "HTTP/3.0", "HTTP"] {
        assert_eq!(Version::from(other), Version::Uninitialized, "{other:?}");
    }
}

#[test]
fn decode_maps_method_and_version_tokens() {
    let cases = [
        ("GET", Method::Get),
        ("POST", Method::Post),
        ("PUT", Method::Uninitialized),
        ("get", Method::Uninitialized),
    ];
    for (token, method) in cases {
        let request = decode(&format!("{token} /x HTTP/1.1"));
        assert_eq!(request.method, method);
        assert_eq!(request.version, Version::V1_1);
    }
    let cases = [
        ("HTTP/1.1", Version::V1_1),
        ("HTTP/2.0", Version::V2_0),
        ("HTTP/1.0", Version::Uninitialized),
        ("HTTPS", Version::Uninitialized),
    ];
    for (token, version) in cases {
        let request = decode(&format!("POST /x {token}"));
        assert_eq!(request.method, Method::Post);
        assert_eq!(request.version, version);
        assert_eq!(request.resource, Resource::Path("/x".to_string()));
    }
}

#[test]
fn decode_without_request_line_yields_defaults() {
    for text in ["", "\n", "Host: localhost\n\nbody", "just a body", "\r\n\r\n"] {
        let request = decode(text);
        assert_eq!(request.method, Method::Uninitialized, "{text:?}");
        assert_eq!(request.version, Version::Uninitialized, "{text:?}");
        assert_eq!(request.resource, Resource::Path(String::new()), "{text:?}");
    }
    let request = decode("");
    assert_eq!(request.headers.len(), 0);
    assert_eq!(request.message_body, "");
}

#[test]
fn decode_twice_yields_equal_requests() {
    let text = "POST /submit?x=1 HTTP/2.0\r\nHost: example.org\r\nA:1\r\nA:2\r\n\r\nfirst\r\nlast";
    let a = decode(text);
    let b = decode(text);
    assert_eq!(a.method, b.method);
    assert_eq!(a.version, b.version);
    assert_eq!(a.resource, b.resource);
    assert_eq!(a.headers, b.headers);
    assert_eq!(a.message_body, b.message_body);
}

#[test]
fn decode_full_request_with_crlf() {
    let text = "POST /submit?x=1 HTTP/2.0\r\nHost: example.org\r\nA:1\r\nA:2\r\n\r\nfirst\r\nlast";
    let request = decode(text);
    assert_eq!(request.method, Method::Post);
    assert_eq!(request.version, Version::V2_0);
    assert_eq!(request.resource, Resource::Path("/submit?x=1".to_string()));
    assert_eq!(request.headers.len(), 2);
    assert_eq!(request.headers.get("Host"), Some(&" example.org".to_string()));
    assert_eq!(request.headers.get("A"), Some(&"2".to_string()));
    assert_eq!(request.headers.get("host"), None);
    assert_eq!(request.message_body, "last");
}

#[test]
fn decode_takes_request_line_by_content_not_position() {
    let request = decode("Host: a\nbody\nGET /late HTTP/1.1\n");
    assert_eq!(request.method, Method::Get);
    assert_eq!(request.resource, Resource::Path("/late".to_string()));
    assert_eq!(request.message_body, "body");
    assert_eq!(request.headers.get("Host"), Some(&" a".to_string()));
}

#[test]
fn decode_last_request_line_wins() {
    let request = decode("GET /one HTTP/1.1\nPOST /two HTTP/2.0");
    assert_eq!(request.method, Method::Post);
    assert_eq!(request.version, Version::V2_0);
    assert_eq!(request.resource, Resource::Path("/two".to_string()));
}

#[test]
fn decode_line_with_http_and_colon_is_request_line() {
    let request = decode("X-Proto: HTTP yes");
    assert_eq!(request.method, Method::Uninitialized);
    assert_eq!(request.resource, Resource::Path("HTTP".to_string()));
    assert_eq!(request.version, Version::Uninitialized);
    assert_eq!(request.headers.len(), 0);
}

#[test]
fn decode_rejects_short_request_line() {
    for text in ["HTTP", "GET HTTP/1.1", "GET /x HTTP/1.1\nHTTP/1.1 only", "  HTTP  \n", "a: b\nHTTP x\nGET / HTTP/1.1"] {
        let result = HttpRequest::try_from(text.to_string());
        assert_eq!(result.err(), Some(DecodeError::MalformedRequestLine), "{text:?}");
    }
}

#[test]
fn decode_ignores_words_after_the_third() {
    let request = decode("GET /x HTTP/1.1 and more");
    assert_eq!(request.method, Method::Get);
    assert_eq!(request.version, Version::V1_1);
    assert_eq!(request.resource, Resource::Path("/x".to_string()));
}

#[test]
fn decode_keeps_bare_carriage_return_of_last_line() {
    assert_eq!(decode("body\r").message_body, "body\r");
    assert_eq!(decode("body\r\n").message_body, "body");
    assert_eq!(decode("body\r\r\n").message_body, "body\r");
    assert_eq!(decode("one\ntwo\n").message_body, "two");
}

#[test]
fn process_req_line_splits_on_any_whitespace() {
    let (method, resource, version) =
        process_req_line(&chars("\t GET\u{3000}/a\u{200b}b\u{a0}\u{2003} HTTP/2.0\r")).unwrap();
    assert_eq!(method, Method::Get);
    assert_eq!(resource, Resource::Path("/a\u{200b}b".to_string()));
    assert_eq!(version, Version::V2_0);
    let (method, resource, version) = process_req_line(&chars("a b c")).unwrap();
    assert_eq!(method, Method::Uninitialized);
    assert_eq!(resource, Resource::Path("b".to_string()));
    assert_eq!(version, Version::Uninitialized);
}

#[test]
fn process_req_line_needs_three_words() {
    for line in ["", "   ", "GET", "GET /", " GET  / "] {
        assert_eq!(
            process_req_line(&chars(line)).err(),
            Some(DecodeError::MalformedRequestLine),
            "{line:?}"
        );
    }
}

#[test]
fn process_header_line_splits_at_first_colon_only() {
    let cases = [
        ("Host: localhost", "Host", " localhost"),
        ("Host: localhost:8080", "Host", " localhost:8080"),
        ("Host:", "Host", ""),
        (":value", "", "value"),
        ("::", "", ":"),
        ("no colon", "no colon", ""),
        ("", "", ""),
        (" A : b ", " A ", " b "),
    ];
    for (line, name, value) in cases {
        assert_eq!(
            process_header_line(&chars(line)),
            (name.to_string(), value.to_string()),
            "{line:?}"
        );
    }
}

#[test]
fn classify_goes_by_content() {
    assert_eq!(classify(&chars("GET / HTTP/1.1")), LineKind::Request);
    assert_eq!(classify(&chars("xHTTPx: y")), LineKind::Request);
    assert_eq!(classify(&chars("HTT P: y")), LineKind::Header);
    assert_eq!(classify(&chars(":")), LineKind::Header);
    assert_eq!(classify(&chars("")), LineKind::Blank);
    assert_eq!(classify(&chars(" ")), LineKind::Body);
    assert_eq!(classify(&chars("http")), LineKind::Body);
}
