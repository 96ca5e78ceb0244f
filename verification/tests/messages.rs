use alice_http::error::HttpError;
use alice_http::headers::Headers;
use alice_http::method::Method;
use alice_http::request::Request;
use alice_http::response::Response;
use alice_http::status::StatusCode;
use alice_http::uri::Uri;
use alice_http::version::Version;

// --- Headers ---

#[test]
fn headers_set_and_get() {
    let mut h = Headers::new();
    h.set("Content-Type", "text/html");
    assert_eq!(h.get("content-type"), Some("text/html"));
    assert_eq!(h.get("CONTENT-TYPE"), Some("text/html"));
}

#[test]
fn headers_overwrite() {
    let mut h = Headers::new();
    h.set("Host", "a.com");
    h.set("Host", "b.com");
    assert_eq!(h.get("host"), Some("b.com"));
    assert_eq!(h.len(), 1);
}

#[test]
fn headers_append() {
    let mut h = Headers::new();
    h.append("Set-Cookie", "a=1");
    h.append("Set-Cookie", "b=2");
    let all = h.get_all("set-cookie");
    assert_eq!(all.len(), 2);
}

#[test]
fn headers_remove() {
    let mut h = Headers::new();
    h.set("Host", "example.com");
    h.remove("HOST");
    assert!(h.get("host").is_none());
    assert!(h.is_empty());
}

#[test]
fn headers_contains() {
    let mut h = Headers::new();
    h.set("Accept", "*/*");
    assert!(h.contains("accept"));
    assert!(!h.contains("host"));
}

#[test]
fn headers_iter() {
    let mut h = Headers::new();
    h.set("A", "1");
    h.set("B", "2");
    let pairs: Vec<_> = h.iter().into_iter().collect();
    assert_eq!(pairs.len(), 2);
}

#[test]
fn headers_to_http1() {
    let mut h = Headers::new();
    h.set("Host", "example.com");
    let s = h.to_http1();
    assert!(s.contains("host: example.com\r\n"));
}

#[test]
fn headers_default() {
    let h = Headers::default();
    assert!(h.is_empty());
    assert_eq!(h.len(), 0);
}

#[test]
fn headers_get_all_keeps_order_and_values() {
    let mut h = Headers::new();
    h.append("Via", "a");
    h.append("Host", "x");
    h.append("VIA", "b");
    assert_eq!(h.get_all("via"), vec!["a", "b"]);
    assert_eq!(h.get("via"), Some("a"));
    assert_eq!(h.len(), 3);
}

#[test]
fn headers_set_replaces_every_entry_of_the_name() {
    let mut h = Headers::new();
    h.append("Via", "a");
    h.append("Host", "x");
    h.append("via", "b");
    h.set("Via", "c");
    assert_eq!(h.get_all("via"), vec!["c"]);
    assert_eq!(h.get("host"), Some("x"));
    assert_eq!(h.len(), 2);
    assert_eq!(h.iter(), vec![("via", "c"), ("host", "x")]);
}

#[test]
fn headers_remove_all_of_a_name() {
    let mut h = Headers::new();
    h.append("Via", "a");
    h.append("Host", "x");
    h.append("via", "b");
    h.remove("VIA");
    assert!(h.get_all("via").is_empty());
    assert!(!h.contains("via"));
    assert_eq!(h.len(), 1);
    assert_eq!(h.iter(), vec![("host", "x")]);
}

#[test]
fn headers_to_http1_exact() {
    let mut h = Headers::new();
    h.append("Host", "a");
    h.append("Accept", "b");
    assert_eq!(h.to_http1(), "host: a\r\naccept: b\r\n");
    assert_eq!(Headers::new().to_http1(), "");
}

// --- URI ---

#[test]
fn uri_parse_simple() {
    let uri = Uri::parse("/path").unwrap();
    assert_eq!(uri.path(), "/path");
    assert!(uri.query().is_none());
    assert!(uri.fragment().is_none());
}

#[test]
fn uri_parse_with_query() {
    let uri = Uri::parse("/search?q=hello&lang=en").unwrap();
    assert_eq!(uri.path(), "/search");
    assert_eq!(uri.query(), Some("q=hello&lang=en"));
}

#[test]
fn uri_parse_with_fragment() {
    let uri = Uri::parse("/page#section").unwrap();
    assert_eq!(uri.path(), "/page");
    assert_eq!(uri.fragment(), Some("section"));
}

#[test]
fn uri_parse_full() {
    let uri = Uri::parse("/a?b=c#d").unwrap();
    assert_eq!(uri.path(), "/a");
    assert_eq!(uri.query(), Some("b=c"));
    assert_eq!(uri.fragment(), Some("d"));
}

#[test]
fn uri_parse_empty() {
    assert!(Uri::parse("").is_err());
}

#[test]
fn uri_parse_empty_error_kind() {
    assert_eq!(Uri::parse(""), Err(HttpError::InvalidUri));
}

#[test]
fn uri_query_params() {
    let uri = Uri::parse("/s?a=1&b=2&c").unwrap();
    let params = uri.query_params();
    assert_eq!(params.get("a"), Some(&"1".to_string()));
    assert_eq!(params.get("b"), Some(&"2".to_string()));
    assert_eq!(params.get("c"), Some(&String::new()));
}

#[test]
fn uri_query_params_later_wins_and_empty_parts_skipped() {
    let uri = Uri::parse("/s?a=1&&a=2&=x").unwrap();
    let params = uri.query_params();
    assert_eq!(params.get("a"), Some(&"2".to_string()));
    assert_eq!(params.get(""), Some(&"x".to_string()));
    assert_eq!(params.len(), 2);
}

#[test]
fn uri_fragment_before_query_mark() {
    let uri = Uri::parse("/p#f?x").unwrap();
    assert_eq!(uri.path(), "/p");
    assert_eq!(uri.query(), None);
    assert_eq!(uri.fragment(), Some("f?x"));
}

#[test]
fn uri_display() {
    let uri = Uri::parse("/test?x=1").unwrap();
    assert_eq!(uri.to_string(), "/test?x=1");
}

#[test]
fn uri_raw() {
    let uri = Uri::parse("/hello?world#foo").unwrap();
    assert_eq!(uri.raw(), "/hello?world#foo");
}

// --- Request ---

#[test]
fn request_parse_get() {
    let raw = b"GET /index.html HTTP/1.1\r\nHost: example.com\r\n\r\n";
    let req = Request::parse(raw).unwrap();
    assert_eq!(req.method, Method::Get);
    assert_eq!(req.uri.path(), "/index.html");
    assert_eq!(req.version, Version::Http11);
    assert_eq!(req.headers.get("host"), Some("example.com"));
}

#[test]
fn request_parse_post_with_body() {
    let raw = b"POST /api HTTP/1.1\r\nContent-Length: 5\r\n\r\nhello";
    let req = Request::parse(raw).unwrap();
    assert_eq!(req.method, Method::Post);
    assert_eq!(req.body, b"hello");
    assert_eq!(req.content_length(), Some(5));
}

#[test]
fn request_builder() {
    let req = Request::builder()
        .method(Method::Put)
        .uri("/resource")
        .header("Content-Type", "application/json")
        .body(b"{}")
        .build()
        .unwrap();
    assert_eq!(req.method, Method::Put);
    assert_eq!(req.uri.path(), "/resource");
    assert_eq!(req.content_type(), Some("application/json"));
}

#[test]
fn request_roundtrip() {
    let req = Request::builder()
        .method(Method::Get)
        .uri("/test")
        .header("Host", "localhost")
        .build()
        .unwrap();
    let bytes = req.to_bytes();
    let parsed = Request::parse(&bytes).unwrap();
    assert_eq!(parsed.method, Method::Get);
    assert_eq!(parsed.uri.path(), "/test");
}

#[test]
fn request_parse_incomplete() {
    let raw = b"GET /test HTTP/1.1\r\nHost: x";
    assert!(Request::parse(raw).is_err());
}

#[test]
fn request_parse_invalid_method() {
    let raw = b"FOOBAR /test HTTP/1.1\r\n\r\n";
    assert!(Request::parse(raw).is_err());
}

#[test]
fn request_with_query_params() {
    let raw = b"GET /search?q=test&page=2 HTTP/1.1\r\nHost: example.com\r\n\r\n";
    let req = Request::parse(raw).unwrap();
    let params = req.uri.query_params();
    assert_eq!(params.get("q"), Some(&"test".to_string()));
    assert_eq!(params.get("page"), Some(&"2".to_string()));
}

#[test]
fn request_parse_errors() {
    assert_eq!(
        Request::parse(b"GET /test HTTP/1.1\r\nHost: x").unwrap_err(),
        HttpError::Incomplete
    );
    assert_eq!(
        Request::parse(b"FOOBAR /test HTTP/1.1\r\n\r\n").unwrap_err(),
        HttpError::InvalidMethod
    );
    assert_eq!(
        Request::parse(b"GET /test HTTP/3\r\n\r\n").unwrap_err(),
        HttpError::InvalidVersion
    );
    assert_eq!(
        Request::parse(b"GET /test\r\n\r\n").unwrap_err(),
        HttpError::InvalidRequest
    );
    assert_eq!(
        Request::parse(b"GET /test HTTP/1.1\r\nNoColon\r\n\r\n").unwrap_err(),
        HttpError::InvalidHeader
    );
    assert_eq!(
        Request::parse(b"GET /\xff HTTP/1.1\r\n\r\n").unwrap_err(),
        HttpError::InvalidRequest
    );
}

#[test]
fn request_parse_keeps_repeated_headers_and_body() {
    let raw = b"POST /x HTTP/1.0\r\nVia: a\r\nVia:  b \r\n\r\n\r\nrest";
    let req = Request::parse(raw).unwrap();
    assert_eq!(req.version, Version::Http10);
    assert_eq!(req.headers.get_all("via"), vec!["a", "b"]);
    assert_eq!(req.body, b"\r\nrest");
}

#[test]
fn request_to_bytes_exact() {
    let req = Request::builder()
        .method(Method::Post)
        .uri("/a?b")
        .header("Host", "h")
        .body(b"xy")
        .build()
        .unwrap();
    assert_eq!(req.to_bytes(), b"POST /a?b HTTP/1.1\r\nhost: h\r\n\r\nxy".to_vec());
}

#[test]
fn request_builder_rejects_empty_uri() {
    let r = Request::builder().uri("").build();
    assert_eq!(r.unwrap_err(), HttpError::InvalidUri);
}

#[test]
fn request_content_length_invalid() {
    let req = Request::parse(b"GET / HTTP/1.1\r\nContent-Length: abc\r\n\r\n").unwrap();
    assert_eq!(req.content_length(), None);
    assert_eq!(req.content_type(), None);
}

// --- Response ---

#[test]
fn response_parse_ok() {
    let raw = b"HTTP/1.1 200 OK\r\nContent-Type: text/html\r\n\r\n<h1>Hi</h1>";
    let resp = Response::parse(raw).unwrap();
    assert_eq!(resp.status, StatusCode::OK());
    assert_eq!(resp.content_type(), Some("text/html"));
    assert_eq!(resp.body, b"<h1>Hi</h1>");
}

#[test]
fn response_parse_404() {
    let raw = b"HTTP/1.1 404 Not Found\r\n\r\n";
    let resp = Response::parse(raw).unwrap();
    assert_eq!(resp.status, StatusCode::NOT_FOUND());
}

#[test]
fn response_builder() {
    let resp = Response::builder()
        .status(StatusCode::CREATED())
        .header("Location", "/new")
        .body(b"created")
        .build();
    assert_eq!(resp.status, StatusCode::CREATED());
    assert_eq!(resp.headers.get("location"), Some("/new"));
}

#[test]
fn response_roundtrip() {
    let resp = Response::builder()
        .status(StatusCode::OK())
        .header("Content-Type", "text/plain")
        .body(b"hello")
        .build();
    let bytes = resp.to_bytes();
    let parsed = Response::parse(&bytes).unwrap();
    assert_eq!(parsed.status, StatusCode::OK());
    assert_eq!(parsed.body, b"hello");
}

#[test]
fn response_content_length() {
    let resp = Response::builder().header("Content-Length", "42").build();
    assert_eq!(resp.content_length(), Some(42));
}

#[test]
fn response_version() {
    let resp = Response::builder().version(Version::Http10).build();
    assert_eq!(resp.version, Version::Http10);
}

#[test]
fn response_parse_with_content_length() {
    let raw = b"HTTP/1.1 200 OK\r\nContent-Length: 5\r\n\r\nhello";
    let resp = Response::parse(raw).unwrap();
    assert_eq!(resp.content_length(), Some(5));
    assert_eq!(resp.body, b"hello");
}

#[test]
fn response_parse_errors() {
    assert_eq!(
        Response::parse(b"HTTP/1.1 200 OK\r\n").unwrap_err(),
        HttpError::Incomplete
    );
    assert_eq!(
        Response::parse(b"HTTP/9 200 OK\r\n\r\n").unwrap_err(),
        HttpError::InvalidVersion
    );
    assert_eq!(
        Response::parse(b"HTTP/1.1\r\n\r\n").unwrap_err(),
        HttpError::InvalidResponse
    );
    assert_eq!(
        Response::parse(b"HTTP/1.1 abc OK\r\n\r\n").unwrap_err(),
        HttpError::InvalidStatusCode
    );
    assert_eq!(
        Response::parse(b"HTTP/1.1 99 Low\r\n\r\n").unwrap_err(),
        HttpError::InvalidStatusCode
    );
    assert_eq!(
        Response::parse(b"HTTP/1.1 200 OK\r\nbad\r\n\r\n").unwrap_err(),
        HttpError::InvalidHeader
    );
}

#[test]
fn response_to_bytes_exact() {
    let resp = Response::builder()
        .status(StatusCode::NOT_FOUND())
        .header("Content-Length", "0")
        .build();
    assert_eq!(
        resp.to_bytes(),
        b"HTTP/1.1 404 Not Found\r\ncontent-length: 0\r\n\r\n".to_vec()
    );
}

#[test]
fn response_default_builder() {
    let resp = Response::builder().build();
    assert_eq!(resp.status, StatusCode::OK());
    assert_eq!(resp.version, Version::Http11);
    assert!(resp.headers.is_empty());
    assert!(resp.body.is_empty());
}

#[test]
fn request_roundtrip_keeps_every_part() {
    let req = Request::builder()
        .method(Method::Delete)
        .uri("/items/7?force=1#x")
        .version(Version::Http10)
        .header("X-Trace", "a:b: c")
        .header("Accept", "")
        .body("héllo\r\n\r\nworld".as_bytes())
        .build()
        .unwrap();
    let parsed = Request::parse(&req.to_bytes()).unwrap();
    assert_eq!(parsed.method, Method::Delete);
    assert_eq!(parsed.uri.raw(), "/items/7?force=1#x");
    assert_eq!(parsed.version, Version::Http10);
    assert_eq!(parsed.headers.iter(), vec![("x-trace", "a:b: c"), ("accept", "")]);
    assert_eq!(parsed.body, "héllo\r\n\r\nworld".as_bytes());
}

#[test]
fn response_roundtrip_keeps_every_part() {
    let resp = Response::builder()
        .version(Version::Http2)
        .status(StatusCode::from_u16(799).unwrap())
        .header("Server", "ünïcode")
        .body(b"\r\n\r\n")
        .build();
    let bytes = resp.to_bytes();
    assert!(bytes.starts_with(b"HTTP/2 799 Unknown\r\n"));
    let parsed = Response::parse(&bytes).unwrap();
    assert_eq!(parsed.version, Version::Http2);
    assert_eq!(parsed.status.code(), 799);
    assert_eq!(parsed.headers.get("server"), Some("ünïcode"));
    assert_eq!(parsed.body, b"\r\n\r\n");
}

#[test]
fn headers_iter_names_are_lower_case() {
    let mut h = Headers::new();
    h.set("A", "1");
    h.set("B", "2");
    assert_eq!(h.iter(), vec![("a", "1"), ("b", "2")]);
}

#[test]
fn headers_clone_keeps_entries() {
    let mut h = Headers::new();
    h.append("X", "1");
    h.append("x", "2");
    let c = h.clone();
    assert_eq!(c.iter(), h.iter());
}

#[test]
fn request_parse_keeps_binary_body() {
    let raw = b"POST /up HTTP/1.1\r\nContent-Length: 3\r\n\r\n\xff\x00\xfe";
    let req = Request::parse(raw).unwrap();
    assert_eq!(req.body, vec![0xff, 0x00, 0xfe]);
    assert_eq!(Request::parse(&req.to_bytes()).unwrap().body, vec![0xff, 0x00, 0xfe]);
    assert_eq!(
        Request::parse(b"GET / HTTP/1.1\r\n\xff").unwrap_err(),
        HttpError::Incomplete
    );
}

#[test]
fn response_parse_keeps_binary_body() {
    let raw = b"HTTP/1.1 200 OK\r\n\r\n\x89PNG\xff";
    let resp = Response::parse(raw).unwrap();
    assert_eq!(resp.body, b"\x89PNG\xff".to_vec());
    assert_eq!(
        Response::parse(b"HTTP/1.1 200 \xff\r\n\r\n").unwrap_err(),
        HttpError::InvalidResponse
    );
}
