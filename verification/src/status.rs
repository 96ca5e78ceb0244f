//! `StatusCode`: the status of an HTTP response and its reason phrase.
use vstd::prelude::*;
use crate::error::HttpError;
use crate::num::{decimal, radix_digits_of};
use crate::text::{push_chars, push_str};

verus! {

/// HTTP status code with reason phrase.
#[derive(Debug, Clone, Copy, PartialEq, Eq, Hash, Structural)]
pub struct StatusCode(u16);

/// The canonical reason phrase of a status code (`Unknown` for codes
/// without one).
pub open spec fn reason_phrase(code: u16) -> Seq<char> {
    match code {
        100 => "Continue"@,
        101 => "Switching Protocols"@,
        200 => "OK"@,
        201 => "Created"@,
        202 => "Accepted"@,
        204 => "No Content"@,
        206 => "Partial Content"@,
        301 => "Moved Permanently"@,
        302 => "Found"@,
        303 => "See Other"@,
        304 => "Not Modified"@,
        307 => "Temporary Redirect"@,
        308 => "Permanent Redirect"@,
        400 => "Bad Request"@,
        401 => "Unauthorized"@,
        403 => "Forbidden"@,
        404 => "Not Found"@,
        405 => "Method Not Allowed"@,
        406 => "Not Acceptable"@,
        409 => "Conflict"@,
        410 => "Gone"@,
        411 => "Length Required"@,
        413 => "Payload Too Large"@,
        414 => "URI Too Long"@,
        415 => "Unsupported Media Type"@,
        429 => "Too Many Requests"@,
        500 => "Internal Server Error"@,
        501 => "Not Implemented"@,
        502 => "Bad Gateway"@,
        503 => "Service Unavailable"@,
        504 => "Gateway Timeout"@,
        _ => "Unknown"@,
    }
}

impl StatusCode {
    /// A status code lies between 100 and 999.
    #[verifier::type_invariant]
    closed spec fn wf(self) -> bool {
        100 <= self.0 <= 999
    }

    // 1xx
    /// The status `100`.
    #[allow(non_snake_case)]
    pub fn CONTINUE() -> (s: Self)
        ensures
            s.value() == 100,
    {
        StatusCode(100)
    }

    /// The status `101`.
    #[allow(non_snake_case)]
    pub fn SWITCHING_PROTOCOLS() -> (s: Self)
        ensures
            s.value() == 101,
    {
        StatusCode(101)
    }

    // 2xx
    /// The status `200`.
    #[allow(non_snake_case)]
    pub fn OK() -> (s: Self)
        ensures
            s.value() == 200,
    {
        StatusCode(200)
    }

    /// The status `201`.
    #[allow(non_snake_case)]
    pub fn CREATED() -> (s: Self)
        ensures
            s.value() == 201,
    {
        StatusCode(201)
    }

    /// The status `202`.
    #[allow(non_snake_case)]
    pub fn ACCEPTED() -> (s: Self)
        ensures
            s.value() == 202,
    {
        StatusCode(202)
    }

    /// The status `204`.
    #[allow(non_snake_case)]
    pub fn NO_CONTENT() -> (s: Self)
        ensures
            s.value() == 204,
    {
        StatusCode(204)
    }

    /// The status `206`.
    #[allow(non_snake_case)]
    pub fn PARTIAL_CONTENT() -> (s: Self)
        ensures
            s.value() == 206,
    {
        StatusCode(206)
    }

    // 3xx
    /// The status `301`.
    #[allow(non_snake_case)]
    pub fn MOVED_PERMANENTLY() -> (s: Self)
        ensures
            s.value() == 301,
    {
        StatusCode(301)
    }

    /// The status `302`.
    #[allow(non_snake_case)]
    pub fn FOUND() -> (s: Self)
        ensures
            s.value() == 302,
    {
        StatusCode(302)
    }

    /// The status `303`.
    #[allow(non_snake_case)]
    pub fn SEE_OTHER() -> (s: Self)
        ensures
            s.value() == 303,
    {
        StatusCode(303)
    }

    /// The status `304`.
    #[allow(non_snake_case)]
    pub fn NOT_MODIFIED() -> (s: Self)
        ensures
            s.value() == 304,
    {
        StatusCode(304)
    }

    /// The status `307`.
    #[allow(non_snake_case)]
    pub fn TEMPORARY_REDIRECT() -> (s: Self)
        ensures
            s.value() == 307,
    {
        StatusCode(307)
    }

    /// The status `308`.
    #[allow(non_snake_case)]
    pub fn PERMANENT_REDIRECT() -> (s: Self)
        ensures
            s.value() == 308,
    {
        StatusCode(308)
    }

    // 4xx
    /// The status `400`.
    #[allow(non_snake_case)]
    pub fn BAD_REQUEST() -> (s: Self)
        ensures
            s.value() == 400,
    {
        StatusCode(400)
    }

    /// The status `401`.
    #[allow(non_snake_case)]
    pub fn UNAUTHORIZED() -> (s: Self)
        ensures
            s.value() == 401,
    {
        StatusCode(401)
    }

    /// The status `403`.
    #[allow(non_snake_case)]
    pub fn FORBIDDEN() -> (s: Self)
        ensures
            s.value() == 403,
    {
        StatusCode(403)
    }

    /// The status `404`.
    #[allow(non_snake_case)]
    pub fn NOT_FOUND() -> (s: Self)
        ensures
            s.value() == 404,
    {
        StatusCode(404)
    }

    /// The status `405`.
    #[allow(non_snake_case)]
    pub fn METHOD_NOT_ALLOWED() -> (s: Self)
        ensures
            s.value() == 405,
    {
        StatusCode(405)
    }

    /// The status `406`.
    #[allow(non_snake_case)]
    pub fn NOT_ACCEPTABLE() -> (s: Self)
        ensures
            s.value() == 406,
    {
        StatusCode(406)
    }

    /// The status `409`.
    #[allow(non_snake_case)]
    pub fn CONFLICT() -> (s: Self)
        ensures
            s.value() == 409,
    {
        StatusCode(409)
    }

    /// The status `410`.
    #[allow(non_snake_case)]
    pub fn GONE() -> (s: Self)
        ensures
            s.value() == 410,
    {
        StatusCode(410)
    }

    /// The status `411`.
    #[allow(non_snake_case)]
    pub fn LENGTH_REQUIRED() -> (s: Self)
        ensures
            s.value() == 411,
    {
        StatusCode(411)
    }

    /// The status `413`.
    #[allow(non_snake_case)]
    pub fn PAYLOAD_TOO_LARGE() -> (s: Self)
        ensures
            s.value() == 413,
    {
        StatusCode(413)
    }

    /// The status `414`.
    #[allow(non_snake_case)]
    pub fn URI_TOO_LONG() -> (s: Self)
        ensures
            s.value() == 414,
    {
        StatusCode(414)
    }

    /// The status `415`.
    #[allow(non_snake_case)]
    pub fn UNSUPPORTED_MEDIA_TYPE() -> (s: Self)
        ensures
            s.value() == 415,
    {
        StatusCode(415)
    }

    /// The status `429`.
    #[allow(non_snake_case)]
    pub fn TOO_MANY_REQUESTS() -> (s: Self)
        ensures
            s.value() == 429,
    {
        StatusCode(429)
    }

    // 5xx
    /// The status `500`.
    #[allow(non_snake_case)]
    pub fn INTERNAL_SERVER_ERROR() -> (s: Self)
        ensures
            s.value() == 500,
    {
        StatusCode(500)
    }

    /// The status `501`.
    #[allow(non_snake_case)]
    pub fn NOT_IMPLEMENTED() -> (s: Self)
        ensures
            s.value() == 501,
    {
        StatusCode(501)
    }

    /// The status `502`.
    #[allow(non_snake_case)]
    pub fn BAD_GATEWAY() -> (s: Self)
        ensures
            s.value() == 502,
    {
        StatusCode(502)
    }

    /// The status `503`.
    #[allow(non_snake_case)]
    pub fn SERVICE_UNAVAILABLE() -> (s: Self)
        ensures
            s.value() == 503,
    {
        StatusCode(503)
    }

    /// The status `504`.
    #[allow(non_snake_case)]
    pub fn GATEWAY_TIMEOUT() -> (s: Self)
        ensures
            s.value() == 504,
    {
        StatusCode(504)
    }

    /// The numeric code.
    pub closed spec fn value(self) -> u16 {
        self.0
    }

    /// The status with the numeric code `code`.
    pub closed spec fn from_value(code: u16) -> StatusCode {
        StatusCode(code)
    }

    /// A status is its code.
    pub proof fn lemma_value(self, code: u16)
        ensures
            Self::from_value(code).value() == code,
            self.value() == code ==> self == Self::from_value(code),
    {
    }

    /// The status line text: the code in decimal, a space and the reason
    /// phrase.
    pub open spec fn text(self) -> Seq<char> {
        decimal(self.value() as nat) + seq![' '] + reason_phrase(self.value())
    }

    /// Create a status code from a raw `u16`.
    ///
    /// # Errors
    ///
    /// Returns `HttpError::InvalidStatusCode` if the code is outside 100..=999.
    pub fn from_u16(code: u16) -> (r: Result<Self, HttpError>)
        ensures
            100 <= code <= 999 ==> r == Ok::<Self, HttpError>(Self::from_value(code)),
            !(100 <= code <= 999) ==> r == Err::<Self, HttpError>(HttpError::InvalidStatusCode),
    {
        if code >= 100 && code <= 999 {
            Ok(StatusCode(code))
        } else {
            Err(HttpError::InvalidStatusCode)
        }
    }

    /// Returns the numeric code.
    pub fn code(self) -> (r: u16)
        ensures
            r == self.value(),
            100 <= r <= 999,
    {
        proof {
            use_type_invariant(self);
        }
        self.0
    }

    /// Returns the canonical reason phrase, if known.
    pub fn reason(self) -> (r: &'static str)
        ensures
            r@ == reason_phrase(self.value()),
    {
        match self.0 {
            100 => "Continue",
            101 => "Switching Protocols",
            200 => "OK",
            201 => "Created",
            202 => "Accepted",
            204 => "No Content",
            206 => "Partial Content",
            301 => "Moved Permanently",
            302 => "Found",
            303 => "See Other",
            304 => "Not Modified",
            307 => "Temporary Redirect",
            308 => "Permanent Redirect",
            400 => "Bad Request",
            401 => "Unauthorized",
            403 => "Forbidden",
            404 => "Not Found",
            405 => "Method Not Allowed",
            406 => "Not Acceptable",
            409 => "Conflict",
            410 => "Gone",
            411 => "Length Required",
            413 => "Payload Too Large",
            414 => "URI Too Long",
            415 => "Unsupported Media Type",
            429 => "Too Many Requests",
            500 => "Internal Server Error",
            501 => "Not Implemented",
            502 => "Bad Gateway",
            503 => "Service Unavailable",
            504 => "Gateway Timeout",
            _ => "Unknown",
        }
    }

    /// Returns `true` if this is an informational (1xx) status.
    pub fn is_informational(self) -> (r: bool)
        ensures
            r == (100 <= self.value() < 200),
    {
        self.0 >= 100 && self.0 < 200
    }

    /// Returns `true` if this is a success (2xx) status.
    pub fn is_success(self) -> (r: bool)
        ensures
            r == (200 <= self.value() < 300),
    {
        self.0 >= 200 && self.0 < 300
    }

    /// Returns `true` if this is a redirection (3xx) status.
    pub fn is_redirection(self) -> (r: bool)
        ensures
            r == (300 <= self.value() < 400),
    {
        self.0 >= 300 && self.0 < 400
    }

    /// Returns `true` if this is a client error (4xx) status.
    pub fn is_client_error(self) -> (r: bool)
        ensures
            r == (400 <= self.value() < 500),
    {
        self.0 >= 400 && self.0 < 500
    }

    /// Returns `true` if this is a server error (5xx) status.
    pub fn is_server_error(self) -> (r: bool)
        ensures
            r == (500 <= self.value() < 600),
    {
        self.0 >= 500 && self.0 < 600
    }

    /// The code and reason phrase, as in a status line (`200 OK`).
    pub fn to_string(&self) -> (r: String)
        ensures
            r@ == self.text(),
            100 <= self.value() <= 999,
    {
        proof {
            use_type_invariant(self);
        }
        let mut r = String::new();
        let digits = radix_digits_of(self.0 as u64, 10);
        push_chars(&mut r, digits.as_slice());
        push_str(&mut r, " ");
        push_str(&mut r, self.reason());
        proof {
            reveal_strlit(" ");
        }
        r
    }
}

/// The reason phrases are those of RFC 9110, section 15, for the codes it
/// names (`404` is `Not Found`, `503` is `Service Unavailable`, and so on),
/// and `Unknown` for every other code.
pub proof fn reason_phrase_registry(code: u16)
    ensures
        reason_phrase(100) == "Continue"@,
        reason_phrase(101) == "Switching Protocols"@,
        reason_phrase(200) == "OK"@,
        reason_phrase(201) == "Created"@,
        reason_phrase(202) == "Accepted"@,
        reason_phrase(204) == "No Content"@,
        reason_phrase(206) == "Partial Content"@,
        reason_phrase(301) == "Moved Permanently"@,
        reason_phrase(302) == "Found"@,
        reason_phrase(303) == "See Other"@,
        reason_phrase(304) == "Not Modified"@,
        reason_phrase(307) == "Temporary Redirect"@,
        reason_phrase(308) == "Permanent Redirect"@,
        reason_phrase(400) == "Bad Request"@,
        reason_phrase(401) == "Unauthorized"@,
        reason_phrase(403) == "Forbidden"@,
        reason_phrase(404) == "Not Found"@,
        reason_phrase(405) == "Method Not Allowed"@,
        reason_phrase(406) == "Not Acceptable"@,
        reason_phrase(409) == "Conflict"@,
        reason_phrase(410) == "Gone"@,
        reason_phrase(411) == "Length Required"@,
        reason_phrase(413) == "Payload Too Large"@,
        reason_phrase(414) == "URI Too Long"@,
        reason_phrase(415) == "Unsupported Media Type"@,
        reason_phrase(429) == "Too Many Requests"@,
        reason_phrase(500) == "Internal Server Error"@,
        reason_phrase(501) == "Not Implemented"@,
        reason_phrase(502) == "Bad Gateway"@,
        reason_phrase(503) == "Service Unavailable"@,
        reason_phrase(504) == "Gateway Timeout"@,
        !(code == 100 || code == 101 || code == 200 || code == 201 || code == 202 || code == 204
            || code == 206 || code == 301 || code == 302 || code == 303 || code == 304
            || code == 307 || code == 308 || code == 400 || code == 401 || code == 403
            || code == 404 || code == 405 || code == 406 || code == 409 || code == 410
            || code == 411 || code == 413 || code == 414 || code == 415 || code == 429
            || code == 500 || code == 501 || code == 502 || code == 503 || code == 504)
            ==> reason_phrase(code) == "Unknown"@,
{
}

/// A reason phrase holds no carriage return.
pub proof fn lemma_reason_plain(code: u16)
    ensures
        forall|i: int| 0 <= i < reason_phrase(code).len() ==> #[trigger] reason_phrase(code)[i] != '\r',
{
    reveal_strlit("Continue");
    reveal_strlit("Switching Protocols");
    reveal_strlit("OK");
    reveal_strlit("Created");
    reveal_strlit("Accepted");
    reveal_strlit("No Content");
    reveal_strlit("Partial Content");
    reveal_strlit("Moved Permanently");
    reveal_strlit("Found");
    reveal_strlit("See Other");
    reveal_strlit("Not Modified");
    reveal_strlit("Temporary Redirect");
    reveal_strlit("Permanent Redirect");
    reveal_strlit("Bad Request");
    reveal_strlit("Unauthorized");
    reveal_strlit("Forbidden");
    reveal_strlit("Not Found");
    reveal_strlit("Method Not Allowed");
    reveal_strlit("Not Acceptable");
    reveal_strlit("Conflict");
    reveal_strlit("Gone");
    reveal_strlit("Length Required");
    reveal_strlit("Payload Too Large");
    reveal_strlit("URI Too Long");
    reveal_strlit("Unsupported Media Type");
    reveal_strlit("Too Many Requests");
    reveal_strlit("Internal Server Error");
    reveal_strlit("Not Implemented");
    reveal_strlit("Bad Gateway");
    reveal_strlit("Service Unavailable");
    reveal_strlit("Gateway Timeout");
    reveal_strlit("Unknown");
}

} // verus!
