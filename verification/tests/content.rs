use alice_http::content_neg::{AcceptRange, ContentNegotiation};
use alice_http::cookie::{Cookie, SameSite};
use alice_http::error::HttpError;
use alice_http::form::FormData;
use alice_http::mime::MediaType;
use alice_http::params::ParamMap;

// --- Media Type ---

#[test]
fn media_type_parse_simple() {
    let mt = MediaType::parse("text/html").unwrap();
    assert_eq!(mt.main_type, "text");
    assert_eq!(mt.sub_type, "html");
    assert_eq!(mt.essence(), "text/html");
}

#[test]
fn media_type_parse_with_charset() {
    let mt = MediaType::parse("text/html; charset=utf-8").unwrap();
    assert_eq!(mt.charset(), Some("utf-8"));
}

#[test]
fn media_type_parse_with_quoted_param() {
    let mt = MediaType::parse("text/html; charset=\"utf-8\"").unwrap();
    assert_eq!(mt.charset(), Some("utf-8"));
}

#[test]
fn media_type_display() {
    let mt = MediaType::parse("application/json").unwrap();
    assert_eq!(mt.to_string(), "application/json");
}

#[test]
fn media_type_invalid() {
    assert!(MediaType::parse("invalid").is_err());
    assert!(MediaType::parse("/html").is_err());
    assert!(MediaType::parse("text/").is_err());
}

#[test]
fn media_type_invalid_error_kind() {
    assert_eq!(MediaType::parse("invalid").unwrap_err(), HttpError::InvalidMediaType);
}

#[test]
fn media_type_from_extension() {
    assert_eq!(MediaType::from_extension("html"), "text/html");
    assert_eq!(MediaType::from_extension("json"), "application/json");
    assert_eq!(MediaType::from_extension("png"), "image/png");
    assert_eq!(MediaType::from_extension("jpg"), "image/jpeg");
    assert_eq!(MediaType::from_extension("css"), "text/css");
    assert_eq!(MediaType::from_extension("js"), "text/javascript");
    assert_eq!(
        MediaType::from_extension("unknown"),
        "application/octet-stream"
    );
}

#[test]
fn media_type_from_extension_case_insensitive() {
    assert_eq!(MediaType::from_extension("HTML"), "text/html");
    assert_eq!(MediaType::from_extension("JSON"), "application/json");
}

#[test]
fn media_type_constants() {
    assert_eq!(MediaType::TEXT_PLAIN, "text/plain");
    assert_eq!(MediaType::APPLICATION_JSON, "application/json");
    assert_eq!(MediaType::IMAGE_WEBP, "image/webp");
}

#[test]
fn media_type_with_multiple_params() {
    let mt = MediaType::parse("text/html; charset=utf-8; boundary=something").unwrap();
    assert_eq!(mt.charset(), Some("utf-8"));
    assert_eq!(mt.params.get("boundary"), Some(&"something".to_string()));
}

#[test]
fn media_type_lowercases_and_trims() {
    let mt = MediaType::parse("  Text/HTML ; CharSet = UTF-8 ;junk").unwrap();
    assert_eq!(mt.essence(), "text/html");
    assert_eq!(mt.charset(), Some("UTF-8"));
    assert_eq!(mt.params.len(), 1);
    assert_eq!(mt.to_string(), "text/html; charset=UTF-8");
}

// --- Cookie ---

#[test]
fn cookie_new() {
    let c = Cookie::new("session", "abc123");
    assert_eq!(c.name, "session");
    assert_eq!(c.value, "abc123");
    assert!(!c.secure);
    assert!(!c.http_only);
}

#[test]
fn cookie_parse_set_cookie_simple() {
    let c = Cookie::parse_set_cookie("session=abc; Path=/; Secure; HttpOnly").unwrap();
    assert_eq!(c.name, "session");
    assert_eq!(c.value, "abc");
    assert_eq!(c.path, Some("/".to_string()));
    assert!(c.secure);
    assert!(c.http_only);
}

#[test]
fn cookie_parse_set_cookie_full() {
    let c = Cookie::parse_set_cookie(
        "id=42; Path=/api; Domain=example.com; Max-Age=3600; SameSite=Strict; Secure",
    )
    .unwrap();
    assert_eq!(c.name, "id");
    assert_eq!(c.value, "42");
    assert_eq!(c.domain, Some("example.com".to_string()));
    assert_eq!(c.max_age, Some(3600));
    assert_eq!(c.same_site, Some(SameSite::Strict));
    assert!(c.secure);
}

#[test]
fn cookie_parse_set_cookie_samesite_lax() {
    let c = Cookie::parse_set_cookie("x=1; SameSite=Lax").unwrap();
    assert_eq!(c.same_site, Some(SameSite::Lax));
}

#[test]
fn cookie_parse_set_cookie_samesite_none() {
    let c = Cookie::parse_set_cookie("x=1; SameSite=None").unwrap();
    assert_eq!(c.same_site, Some(SameSite::Unrestricted));
}

#[test]
fn cookie_parse_invalid() {
    assert!(Cookie::parse_set_cookie("").is_err());
    assert!(Cookie::parse_set_cookie("=value").is_err());
}

#[test]
fn cookie_parse_invalid_error_kind() {
    assert_eq!(Cookie::parse_set_cookie("novalue").unwrap_err(), HttpError::InvalidCookie);
    assert_eq!(Cookie::parse_set_cookie(" = v").unwrap_err(), HttpError::InvalidCookie);
}

#[test]
fn cookie_to_set_cookie() {
    let mut c = Cookie::new("tok", "xyz");
    c.path = Some("/".to_string());
    c.secure = true;
    c.http_only = true;
    c.same_site = Some(SameSite::Lax);
    let s = c.to_set_cookie();
    assert!(s.contains("tok=xyz"));
    assert!(s.contains("Path=/"));
    assert!(s.contains("Secure"));
    assert!(s.contains("HttpOnly"));
    assert!(s.contains("SameSite=Lax"));
}

#[test]
fn cookie_to_set_cookie_exact() {
    let mut c = Cookie::new("a", "b");
    c.path = Some("/p".to_string());
    c.domain = Some("d.example".to_string());
    c.max_age = Some(-5);
    c.secure = true;
    c.same_site = Some(SameSite::Unrestricted);
    assert_eq!(
        c.to_set_cookie(),
        "a=b; Path=/p; Domain=d.example; Max-Age=-5; Secure; SameSite=None"
    );
}

#[test]
fn cookie_set_cookie_roundtrip() {
    let mut c = Cookie::new("id", "7");
    c.path = Some("/x".to_string());
    c.max_age = Some(60);
    c.http_only = true;
    c.same_site = Some(SameSite::Strict);
    let back = Cookie::parse_set_cookie(&c.to_set_cookie()).unwrap();
    assert_eq!(back, c);
}

#[test]
fn cookie_parse_bad_max_age_and_unknown_attrs() {
    let c = Cookie::parse_set_cookie("x=1; Max-Age=soon; Color=red; SameSite=weird").unwrap();
    assert_eq!(c.max_age, None);
    assert_eq!(c.same_site, None);
    assert_eq!(c.path, None);
}

#[test]
fn cookie_parse_header() {
    let cookies = Cookie::parse_cookie_header("a=1; b=2; c=3");
    assert_eq!(cookies.len(), 3);
    assert_eq!(cookies[0], ("a".to_string(), "1".to_string()));
    assert_eq!(cookies[2], ("c".to_string(), "3".to_string()));
}

#[test]
fn cookie_parse_header_skips_parts_without_eq() {
    let cookies = Cookie::parse_cookie_header("a=1;junk; b = 2 ");
    assert_eq!(
        cookies,
        vec![("a".to_string(), "1".to_string()), ("b".to_string(), "2".to_string())]
    );
}

#[test]
fn cookie_max_age_display() {
    let mut c = Cookie::new("x", "1");
    c.max_age = Some(7200);
    let s = c.to_set_cookie();
    assert!(s.contains("Max-Age=7200"));
}

#[test]
fn cookie_domain_display() {
    let mut c = Cookie::new("x", "1");
    c.domain = Some("example.com".to_string());
    let s = c.to_set_cookie();
    assert!(s.contains("Domain=example.com"));
}

#[test]
fn samesite_display() {
    assert_eq!(SameSite::Strict.to_string(), "Strict");
    assert_eq!(SameSite::Lax.to_string(), "Lax");
    assert_eq!(SameSite::Unrestricted.to_string(), "None");
}

// --- Form Data ---

#[test]
fn form_data_parse() {
    let data = FormData::parse("name=Alice&age=30").unwrap();
    assert_eq!(data.get("name"), Some(&"Alice".to_string()));
    assert_eq!(data.get("age"), Some(&"30".to_string()));
}

#[test]
fn form_data_parse_encoded() {
    let data = FormData::parse("q=hello+world&lang=en").unwrap();
    assert_eq!(data.get("q"), Some(&"hello world".to_string()));
}

#[test]
fn form_data_encode() {
    let encoded = FormData::encode(&[("name", "Alice Bob"), ("age", "30")]);
    assert!(encoded.contains("name=Alice%20Bob"));
    assert!(encoded.contains("age=30"));
}

#[test]
fn form_data_empty() {
    let data = FormData::parse("").unwrap();
    assert!(data.is_empty());
}

#[test]
fn form_data_encode_exact_and_roundtrip() {
    let pairs = [("a b", "c&d"), ("e", "")];
    let encoded = FormData::encode(&pairs);
    assert_eq!(encoded, "a%20b=c%26d&e=");
    let back = FormData::parse(&encoded).unwrap();
    assert_eq!(back.get("a b"), Some(&"c&d".to_string()));
    assert_eq!(back.get("e"), Some(&String::new()));
    assert_eq!(back.len(), 2);
}

#[test]
fn form_data_parse_bad_escape() {
    assert_eq!(FormData::parse("a=%zz").unwrap_err(), HttpError::InvalidUri);
    assert_eq!(FormData::parse("%4=1").unwrap_err(), HttpError::InvalidUri);
}

#[test]
fn form_data_key_without_value() {
    let data = FormData::parse("flag&x=1&&x=2").unwrap();
    assert_eq!(data.get("flag"), Some(&String::new()));
    assert_eq!(data.get("x"), Some(&"2".to_string()));
    assert_eq!(data.len(), 2);
}

// --- Parameter map ---

#[test]
fn param_map_insert_replaces() {
    let mut m = ParamMap::new();
    m.insert("a".to_string(), "1".to_string());
    m.insert("b".to_string(), "2".to_string());
    m.insert("a".to_string(), "3".to_string());
    assert_eq!(m.len(), 2);
    assert_eq!(m.get("a"), Some(&"3".to_string()));
    assert_eq!(m.iter(), vec![("a", "3"), ("b", "2")]);
}

// --- Errors ---

#[test]
fn error_is_std_error() {
    let err = HttpError::InvalidRequest;
    assert!(!err.to_string().is_empty());
}

// --- Content negotiation ---

#[test]
fn accept_ranges_in_written_order() {
    let r = ContentNegotiation::parse_accept_ranges(" text/html;q=0.9 , ,application/json; level=1 ;q=1.0;q=0.5");
    assert_eq!(
        r,
        vec![
            AcceptRange { media_type: "text/html".to_string(), quality: Some("0.9".to_string()) },
            AcceptRange { media_type: "application/json".to_string(), quality: Some("0.5".to_string()) },
        ]
    );
    assert!(ContentNegotiation::parse_accept_ranges("").is_empty());
    assert_eq!(
        ContentNegotiation::parse_accept_ranges("gzip"),
        vec![AcceptRange { media_type: "gzip".to_string(), quality: None }]
    );
}

fn ranges(xs: &[&str]) -> Vec<String> {
    xs.iter().map(|s| s.to_string()).collect()
}

#[test]
fn negotiate_picks_first_matching_range() {
    let avail = ["text/html", "application/json"];
    assert_eq!(
        ContentNegotiation::negotiate(&ranges(&["application/json", "text/html"]), &avail),
        Some("application/json")
    );
    assert_eq!(ContentNegotiation::negotiate(&ranges(&["*/*"]), &["text/plain"]), Some("text/plain"));
    assert_eq!(ContentNegotiation::negotiate(&ranges(&["*/*", "text/html"]), &[]), None);
    assert_eq!(
        ContentNegotiation::negotiate(&ranges(&["text/*"]), &["application/json", "text/html"]),
        Some("text/html")
    );
    assert_eq!(ContentNegotiation::negotiate(&ranges(&["image/png"]), &["text/html"]), None);
    assert_eq!(
        ContentNegotiation::negotiate(&ranges(&["text/*"]), &["textual/x", "text"]),
        None
    );
    assert_eq!(
        ContentNegotiation::negotiate(&ranges(&["image/png", "text/*"]), &["text/css"]),
        Some("text/css")
    );
}

fn media_ranges(header: &str) -> Vec<String> {
    ContentNegotiation::parse_accept_ranges(header)
        .into_iter()
        .map(|r| r.media_type)
        .collect()
}

#[test]
fn accept_parse_simple() {
    let entries = ContentNegotiation::parse_accept_ranges("text/html, application/json");
    assert_eq!(entries.len(), 2);
    assert_eq!(entries[0].media_type, "text/html");
}

#[test]
fn negotiate_exact_match() {
    let accept = media_ranges("application/json, text/html");
    let result = ContentNegotiation::negotiate(&accept, &["text/html", "application/json"]);
    assert_eq!(result, Some("application/json"));
}

#[test]
fn negotiate_wildcard() {
    let accept = media_ranges("*/*");
    let result = ContentNegotiation::negotiate(&accept, &["text/plain"]);
    assert_eq!(result, Some("text/plain"));
}

#[test]
fn negotiate_subtype_wildcard() {
    let accept = media_ranges("text/*");
    let result = ContentNegotiation::negotiate(&accept, &["text/html", "application/json"]);
    assert_eq!(result, Some("text/html"));
}

#[test]
fn negotiate_no_match() {
    let accept = media_ranges("image/png");
    let result = ContentNegotiation::negotiate(&accept, &["text/html"]);
    assert!(result.is_none());
}
