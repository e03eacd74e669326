use http::headers::Headers;
use http::httpresponse::{status_text_of, HttpResponse};

fn content_type() -> Headers {
    let mut headers = Headers::new();
    headers.insert("Content-Type".to_string(), "text/html".to_string());
    headers
}

#[test]
fn test_response_struct_creation_200() {
    let response_actual = HttpResponse::new("200", None, Some("xxx".into()));
    let response_expected = HttpResponse::new("200", Some(content_type()), Some("xxx".into()));
    assert_eq!(response_actual, response_expected);
    assert_eq!(response_actual.version(), "HTTP/1.1");
    assert_eq!(response_actual.status_code(), "200");
    assert_eq!(response_actual.status_text(), "OK");
    assert_eq!(response_actual.headers(), "Content-Type:text/html\r\n");
    assert_eq!(response_actual.body(), "xxx");
}

#[test]
fn test_response_struct_creation_404() {
    let response_actual = HttpResponse::new("404", None, Some("xxx".into()));
    let response_expected = HttpResponse::new("404", Some(content_type()), Some("xxx".into()));
    assert_eq!(response_actual, response_expected);
    assert_eq!(response_actual.version(), "HTTP/1.1");
    assert_eq!(response_actual.status_code(), "404");
    assert_eq!(response_actual.status_text(), "Not Found");
    assert_eq!(response_actual.headers(), "Content-Type:text/html\r\n");
    assert_eq!(response_actual.body(), "xxx");
}

#[test]
fn test_http_response_creation() {
    let response_expected = HttpResponse::new("404", Some(content_type()), Some("xxx".into()));
    let response_expected: String = response_expected.into();

    let actual_string = "\
HTTP/1.1 404 Not Found\r
Content-Type:text/html\r
Content-Length: 3\r
\r
xxx"
    .to_string();

    assert_eq!(actual_string, response_expected);
}

#[test]
fn status_text_follows_the_table() {
    assert_eq!(status_text_of("200"), "OK");
    assert_eq!(status_text_of("400"), "Bad Request");
    assert_eq!(status_text_of("404"), "Not Found");
    assert_eq!(status_text_of("500"), "Internal Server Error");
    for other in ["", "301", "2000", "20", " 200", "abc"] {
        assert_eq!(status_text_of(other), "Not Found", "{other:?}");
        assert_eq!(HttpResponse::new(other, None, None).status_text(), "Not Found");
    }
}

#[test]
fn new_keeps_an_empty_mapping_empty() {
    let response = HttpResponse::new("200", Some(Headers::new()), Some("x".to_string()));
    assert_eq!(response.headers(), "");
    assert_eq!(response.serialize(), "HTTP/1.1 200 OK\r\nContent-Length: 1\r\n\r\nx");
    assert_ne!(response, HttpResponse::new("200", None, Some("x".to_string())));
}

#[test]
fn serialize_without_body_writes_length_zero() {
    let response = HttpResponse::new("500", None, None);
    assert_eq!(response.body(), "");
    assert_eq!(
        response.serialize(),
        "HTTP/1.1 500 Internal Server Error\r\nContent-Type:text/html\r\nContent-Length: 0\r\n\r\n"
    );
}

#[test]
fn default_is_200_without_headers_and_body() {
    let response = HttpResponse::default();
    assert_eq!(response.version(), "HTTP/1.1");
    assert_eq!(response.status_code(), "200");
    assert_eq!(response.status_text(), "OK");
    assert_eq!(response.headers(), "");
    assert_eq!(response.body(), "");
    assert_eq!(String::from(response), "HTTP/1.1 200 OK\r\nContent-Length: 0\r\n\r\n");
}

#[test]
fn content_length_counts_bytes() {
    let response = HttpResponse::new("200", Some(Headers::new()), Some("h\u{e9}llo \u{1f600}".to_string()));
    assert_eq!(
        response.serialize(),
        "HTTP/1.1 200 OK\r\nContent-Length: 11\r\n\r\nh\u{e9}llo \u{1f600}"
    );
    let long = "x".repeat(12345);
    let response = HttpResponse::new("200", Some(Headers::new()), Some(long.clone()));
    assert_eq!(
        response.serialize(),
        format!("HTTP/1.1 200 OK\r\nContent-Length: 12345\r\n\r\n{long}")
    );
}

#[test]
fn headers_are_written_in_insertion_order() {
    let mut headers = Headers::new();
    headers.insert("B".to_string(), "2".to_string());
    headers.insert("A".to_string(), " 1".to_string());
    headers.insert("B".to_string(), "3".to_string());
    let response = HttpResponse::new("400", Some(headers), Some("no".to_string()));
    assert_eq!(response.headers(), "B:3\r\nA: 1\r\n");
    assert_eq!(
        response.serialize(),
        "HTTP/1.1 400 Bad Request\r\nB:3\r\nA: 1\r\nContent-Length: 2\r\n\r\nno"
    );
}

#[test]
fn send_response_appends_the_wire_bytes() {
    let response = HttpResponse::new("404", None, Some("xxx".into()));
    let mut sink = b"seen ".to_vec();
    response.send_response(&mut sink);
    assert_eq!(
        sink,
        b"seen HTTP/1.1 404 Not Found\r\nContent-Type:text/html\r\nContent-Length: 3\r\n\r\nxxx"
            .to_vec()
    );
    let mut sink = Vec::new();
    let response = HttpResponse::new("200", Some(Headers::new()), Some("\u{e9}".to_string()));
    response.send_response(&mut sink);
    assert_eq!(sink, "HTTP/1.1 200 OK\r\nContent-Length: 2\r\n\r\n\u{e9}".as_bytes().to_vec());
}

#[test]
fn responses_compare_by_content() {
    let mut ab = Headers::new();
    ab.insert("A".to_string(), "1".to_string());
    ab.insert("B".to_string(), "2".to_string());
    let mut ba = Headers::new();
    ba.insert("B".to_string(), "2".to_string());
    ba.insert("A".to_string(), "1".to_string());
    let one = HttpResponse::new("200", Some(ab), Some("x".to_string()));
    let two = HttpResponse::new("200", Some(ba), Some("x".to_string()));
    assert_eq!(one, two);
    assert_eq!(one.clone(), one);
    assert_ne!(one, HttpResponse::new("404", Some(Headers::new()), Some("x".to_string())));
    assert_ne!(one, HttpResponse::new("200", None, Some("x".to_string())));
    assert_ne!(
        HttpResponse::new("200", None, Some("x".to_string())),
        HttpResponse::new("200", None, Some("y".to_string()))
    );
    assert_ne!(
        HttpResponse::new("200", None, None),
        HttpResponse::new("200", None, Some(String::new()))
    );
    assert_ne!(HttpResponse::default(), HttpResponse::new("200", None, None));
}
