use alice_http::chunked::ChunkedEncoding;
use alice_http::error::HttpError;
use alice_http::h2_frame::{H2Frame, H2FrameType};
use alice_http::hpack::HpackInt;
use alice_http::method::Method;
use alice_http::status::StatusCode;
use alice_http::url_encoding::UrlEncoding;
use alice_http::version::Version;

// --- Method ---

#[test]
fn method_from_str_valid() {
    assert_eq!("GET".parse::<Method>().unwrap(), Method::Get);
    assert_eq!("POST".parse::<Method>().unwrap(), Method::Post);
    assert_eq!("PUT".parse::<Method>().unwrap(), Method::Put);
    assert_eq!("DELETE".parse::<Method>().unwrap(), Method::Delete);
    assert_eq!("PATCH".parse::<Method>().unwrap(), Method::Patch);
    assert_eq!("HEAD".parse::<Method>().unwrap(), Method::Head);
    assert_eq!("OPTIONS".parse::<Method>().unwrap(), Method::Options);
    assert_eq!("TRACE".parse::<Method>().unwrap(), Method::Trace);
    assert_eq!("CONNECT".parse::<Method>().unwrap(), Method::Connect);
}

#[test]
fn method_from_str_invalid() {
    assert_eq!("INVALID".parse::<Method>(), Err(HttpError::InvalidMethod));
}

#[test]
fn method_display() {
    assert_eq!(Method::Get.to_string(), "GET");
    assert_eq!(Method::Post.to_string(), "POST");
}

#[test]
fn method_as_str() {
    assert_eq!(Method::Delete.as_str(), "DELETE");
    assert_eq!(Method::Options.as_str(), "OPTIONS");
}

// --- Version ---

#[test]
fn version_parse() {
    assert_eq!("HTTP/1.0".parse::<Version>().unwrap(), Version::Http10);
    assert_eq!("HTTP/1.1".parse::<Version>().unwrap(), Version::Http11);
    assert_eq!("HTTP/2".parse::<Version>().unwrap(), Version::Http2);
    assert_eq!("HTTP/2.0".parse::<Version>().unwrap(), Version::Http2);
}

#[test]
fn version_invalid() {
    assert_eq!("HTTP/3".parse::<Version>(), Err(HttpError::InvalidVersion));
}

#[test]
fn version_display() {
    assert_eq!(Version::Http11.to_string(), "HTTP/1.1");
    assert_eq!(Version::Http2.to_string(), "HTTP/2");
}

#[test]
fn version_as_str() {
    assert_eq!(Version::Http10.as_str(), "HTTP/1.0");
    assert_eq!(Version::Http11.as_str(), "HTTP/1.1");
    assert_eq!(Version::Http2.as_str(), "HTTP/2");
}

// --- Status Code ---

#[test]
fn status_code_constants() {
    assert_eq!(StatusCode::OK().code(), 200);
    assert_eq!(StatusCode::NOT_FOUND().code(), 404);
    assert_eq!(StatusCode::INTERNAL_SERVER_ERROR().code(), 500);
}

#[test]
fn status_code_reason() {
    assert_eq!(StatusCode::OK().reason(), "OK");
    assert_eq!(StatusCode::NOT_FOUND().reason(), "Not Found");
    assert_eq!(StatusCode::CONTINUE().reason(), "Continue");
}

#[test]
fn status_code_display() {
    assert_eq!(StatusCode::OK().to_string(), "200 OK");
    assert_eq!(StatusCode::NOT_FOUND().to_string(), "404 Not Found");
}

#[test]
fn status_code_categories() {
    assert!(StatusCode::CONTINUE().is_informational());
    assert!(!StatusCode::CONTINUE().is_success());
    assert!(StatusCode::OK().is_success());
    assert!(StatusCode::MOVED_PERMANENTLY().is_redirection());
    assert!(StatusCode::BAD_REQUEST().is_client_error());
    assert!(StatusCode::INTERNAL_SERVER_ERROR().is_server_error());
}

#[test]
fn status_code_from_u16_valid() {
    assert_eq!(StatusCode::from_u16(200).unwrap().code(), 200);
    assert_eq!(StatusCode::from_u16(999).unwrap().code(), 999);
}

#[test]
fn status_code_from_u16_invalid() {
    assert!(StatusCode::from_u16(0).is_err());
    assert!(StatusCode::from_u16(99).is_err());
    assert!(StatusCode::from_u16(1000).is_err());
}

#[test]
fn status_code_unknown_reason() {
    assert_eq!(StatusCode::from_u16(999).unwrap().reason(), "Unknown");
}

#[test]
fn status_switching_protocols() {
    assert!(StatusCode::SWITCHING_PROTOCOLS().is_informational());
    assert_eq!(
        StatusCode::SWITCHING_PROTOCOLS().reason(),
        "Switching Protocols"
    );
}

#[test]
fn status_created() {
    assert!(StatusCode::CREATED().is_success());
    assert_eq!(StatusCode::CREATED().code(), 201);
}

#[test]
fn status_redirection_codes() {
    assert!(StatusCode::FOUND().is_redirection());
    assert!(StatusCode::SEE_OTHER().is_redirection());
    assert!(StatusCode::TEMPORARY_REDIRECT().is_redirection());
    assert!(StatusCode::PERMANENT_REDIRECT().is_redirection());
}

#[test]
fn status_client_error_codes() {
    assert!(StatusCode::UNAUTHORIZED().is_client_error());
    assert!(StatusCode::FORBIDDEN().is_client_error());
    assert!(StatusCode::METHOD_NOT_ALLOWED().is_client_error());
    assert!(StatusCode::CONFLICT().is_client_error());
    assert!(StatusCode::GONE().is_client_error());
    assert!(StatusCode::TOO_MANY_REQUESTS().is_client_error());
}

#[test]
fn status_server_error_codes() {
    assert!(StatusCode::NOT_IMPLEMENTED().is_server_error());
    assert!(StatusCode::BAD_GATEWAY().is_server_error());
    assert!(StatusCode::SERVICE_UNAVAILABLE().is_server_error());
    assert!(StatusCode::GATEWAY_TIMEOUT().is_server_error());
}

// --- Chunked Encoding ---

#[test]
fn chunked_encode_decode() {
    let data = b"Hello, World!";
    let encoded = ChunkedEncoding::encode(data, 5);
    let decoded = ChunkedEncoding::decode(&encoded).unwrap();
    assert_eq!(decoded, data);
}

#[test]
fn chunked_single_chunk() {
    let data = b"abc";
    let encoded = ChunkedEncoding::encode(data, 100);
    let decoded = ChunkedEncoding::decode(&encoded).unwrap();
    assert_eq!(decoded, data);
}

#[test]
fn chunked_decode_with_extension() {
    let encoded = b"5;ext=val\r\nhello\r\n0\r\n\r\n";
    let decoded = ChunkedEncoding::decode(encoded).unwrap();
    assert_eq!(decoded, b"hello");
}

#[test]
fn chunked_decode_invalid() {
    assert!(ChunkedEncoding::decode(b"xyz\r\n").is_err());
}

#[test]
fn chunked_empty() {
    let encoded = b"0\r\n\r\n";
    let decoded = ChunkedEncoding::decode(encoded).unwrap();
    assert!(decoded.is_empty());
}

#[test]
fn chunked_multi_chunk() {
    let data = b"abcdefghij";
    let encoded = ChunkedEncoding::encode(data, 3);
    let decoded = ChunkedEncoding::decode(&encoded).unwrap();
    assert_eq!(decoded, data);
}

// --- HTTP/2 Frames ---

#[test]
fn h2_frame_type_roundtrip() {
    for i in 0..=9 {
        let ft = H2FrameType::from_u8(i);
        assert_eq!(ft.to_u8(), i);
    }
}

#[test]
fn h2_frame_type_unknown() {
    let ft = H2FrameType::from_u8(255);
    assert_eq!(ft, H2FrameType::Unknown(255));
    assert_eq!(ft.to_u8(), 255);
}

#[test]
fn h2_frame_parse_settings() {
    let frame = H2Frame::settings(0, &[]);
    let bytes = frame.to_bytes();
    let parsed = H2Frame::parse(&bytes).unwrap();
    assert_eq!(parsed.frame_type, H2FrameType::Settings);
    assert_eq!(parsed.stream_id, 0);
    assert!(parsed.payload.is_empty());
}

#[test]
fn h2_frame_parse_with_payload() {
    let payload = b"hello";
    let mut frame = H2Frame::settings(1, payload);
    frame.frame_type = H2FrameType::Data;
    let bytes = frame.to_bytes();
    let parsed = H2Frame::parse(&bytes).unwrap();
    assert_eq!(parsed.frame_type, H2FrameType::Data);
    assert_eq!(parsed.payload, payload);
}

#[test]
fn h2_frame_parse_incomplete() {
    assert!(H2Frame::parse(&[0; 5]).is_err());
}

#[test]
fn h2_frame_ping() {
    let frame = H2Frame::ping(&[1, 2, 3, 4, 5, 6, 7, 8]);
    let bytes = frame.to_bytes();
    let parsed = H2Frame::parse(&bytes).unwrap();
    assert_eq!(parsed.frame_type, H2FrameType::Ping);
    assert_eq!(parsed.payload, [1, 2, 3, 4, 5, 6, 7, 8]);
}

#[test]
fn h2_frame_window_update() {
    let frame = H2Frame::window_update(1, 65535);
    let bytes = frame.to_bytes();
    let parsed = H2Frame::parse(&bytes).unwrap();
    assert_eq!(parsed.frame_type, H2FrameType::WindowUpdate);
    assert_eq!(parsed.stream_id, 1);
}

#[test]
fn h2_frame_goaway() {
    let frame = H2Frame::goaway(0, 0);
    let bytes = frame.to_bytes();
    let parsed = H2Frame::parse(&bytes).unwrap();
    assert_eq!(parsed.frame_type, H2FrameType::GoAway);
    assert_eq!(parsed.length, 8);
}

#[test]
fn h2_frame_flags() {
    let mut frame = H2Frame::settings(0, &[]);
    frame.flags = 0x01; // END_STREAM / ACK
    assert!(frame.is_end_stream());
    assert!(frame.is_ack());

    frame.flags = 0x04; // END_HEADERS
    assert!(frame.is_end_headers());
    assert!(!frame.is_end_stream());
}

#[test]
fn h2_connection_preface() {
    assert!(H2Frame::CONNECTION_PREFACE.starts_with(b"PRI"));
}

// --- HPACK Integer ---

#[test]
fn hpack_int_small() {
    let encoded = HpackInt::encode(10, 5);
    let (val, consumed) = HpackInt::decode(&encoded, 5).unwrap();
    assert_eq!(val, 10);
    assert_eq!(consumed, 1);
}

#[test]
fn hpack_int_large() {
    let encoded = HpackInt::encode(1337, 5);
    let (val, consumed) = HpackInt::decode(&encoded, 5).unwrap();
    assert_eq!(val, 1337);
    assert!(consumed > 1);
}

#[test]
fn hpack_int_boundary() {
    let encoded = HpackInt::encode(31, 5);
    let (val, _) = HpackInt::decode(&encoded, 5).unwrap();
    assert_eq!(val, 31);
}

#[test]
fn hpack_int_zero() {
    let encoded = HpackInt::encode(0, 5);
    let (val, consumed) = HpackInt::decode(&encoded, 5).unwrap();
    assert_eq!(val, 0);
    assert_eq!(consumed, 1);
}

#[test]
fn hpack_int_decode_empty() {
    assert!(HpackInt::decode(&[], 5).is_err());
}

// --- URL Encoding ---

#[test]
fn url_encode_simple() {
    assert_eq!(UrlEncoding::encode("hello world"), "hello%20world");
}

#[test]
fn url_encode_special() {
    assert_eq!(UrlEncoding::encode("a&b=c"), "a%26b%3Dc");
}

#[test]
fn url_encode_unreserved() {
    assert_eq!(UrlEncoding::encode("abc-._~123"), "abc-._~123");
}

#[test]
fn url_decode_simple() {
    assert_eq!(UrlEncoding::decode("hello%20world").unwrap(), "hello world");
}

#[test]
fn url_decode_plus() {
    assert_eq!(UrlEncoding::decode("hello+world").unwrap(), "hello world");
}

#[test]
fn url_decode_invalid() {
    assert!(UrlEncoding::decode("hello%2").is_err());
    assert!(UrlEncoding::decode("hello%GG").is_err());
}

#[test]
fn url_roundtrip() {
    let input = "Hello, World! /path?q=1&a=2";
    let encoded = UrlEncoding::encode(input);
    let decoded = UrlEncoding::decode(&encoded).unwrap();
    assert_eq!(decoded, input);
}

// --- Error Display ---

#[test]
fn error_display() {
    assert_eq!(HttpError::InvalidMethod.to_string(), "invalid HTTP method");
    assert_eq!(
        HttpError::InvalidChunk.to_string(),
        "invalid chunked encoding"
    );
    assert_eq!(HttpError::TooLarge.to_string(), "payload too large");
}

#[test]
fn hpack_decode_other_prefix_widths() {
    assert_eq!(HpackInt::decode(&[0x2a], 16), Ok((42, 1)));
    assert_eq!(HpackInt::decode(&[0xff, 0x03], 0), Ok((3, 2)));
    assert_eq!(HpackInt::decode(&[0x05], 0), Err(HttpError::Incomplete));
}

#[test]
fn hpack_overflow_check() {
    assert!(!HpackInt::overflows(&[0x1f, 0x9a, 0x0a], 5));
    assert!(!HpackInt::overflows(&[0x1f, 0x9a], 5));
    let mut long = vec![0x1f];
    long.extend_from_slice(&[0xff; 10]);
    long.push(0x01);
    assert!(HpackInt::overflows(&long, 5));
}

#[test]
fn chunked_decode_any_bytes() {
    assert_eq!(ChunkedEncoding::decode(b"1\r\n\xff\r\n0\r\n\r\n"), Ok(vec![0xff]));
    let body: Vec<u8> = (0u8..=255).collect();
    assert_eq!(ChunkedEncoding::decode(&ChunkedEncoding::encode(&body, 7)), Ok(body));
    let fine = "3\r\naé\r\n0\r\n\r\n".as_bytes();
    assert_eq!(ChunkedEncoding::decode(fine), Ok("aé".as_bytes().to_vec()));
    let cut = "2\r\naé\r\n0\r\n\r\n".as_bytes();
    assert_eq!(ChunkedEncoding::decode(cut), Err(HttpError::InvalidChunk));
    assert_eq!(
        ChunkedEncoding::decode(b"1\r\n\xc3\xa9\r\n0\r\n\r\n"),
        Err(HttpError::InvalidChunk)
    );
    assert_eq!(ChunkedEncoding::decode(b"\xff\r\n"), Err(HttpError::InvalidChunk));
}
