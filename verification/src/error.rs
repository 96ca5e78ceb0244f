//! `HttpError`: what the parsers and builders report when they refuse input.
use vstd::prelude::*;

verus! {

/// Errors produced by the HTTP parser and builder.
#[derive(Debug, Clone, Copy, PartialEq, Eq, Structural)]
pub enum HttpError {
    InvalidMethod,
    InvalidVersion,
    InvalidStatusCode,
    InvalidRequest,
    InvalidResponse,
    InvalidHeader,
    InvalidChunk,
    InvalidUri,
    InvalidCookie,
    InvalidMediaType,
    Incomplete,
    TooLarge,
}

impl HttpError {
    /// The human-readable description of the error.
    pub open spec fn message(self) -> Seq<char> {
        match self {
            HttpError::InvalidMethod => "invalid HTTP method"@,
            HttpError::InvalidVersion => "invalid HTTP version"@,
            HttpError::InvalidStatusCode => "invalid status code"@,
            HttpError::InvalidRequest => "invalid HTTP request"@,
            HttpError::InvalidResponse => "invalid HTTP response"@,
            HttpError::InvalidHeader => "invalid HTTP header"@,
            HttpError::InvalidChunk => "invalid chunked encoding"@,
            HttpError::InvalidUri => "invalid URI"@,
            HttpError::InvalidCookie => "invalid cookie"@,
            HttpError::InvalidMediaType => "invalid media type"@,
            HttpError::Incomplete => "incomplete data"@,
            HttpError::TooLarge => "payload too large"@,
        }
    }

    /// The description of the error as a `String`.
    pub fn to_string(&self) -> (r: String)
        ensures
            r@ == self.message(),
    {
        let s: &str = match self {
            HttpError::InvalidMethod => "invalid HTTP method",
            HttpError::InvalidVersion => "invalid HTTP version",
            HttpError::InvalidStatusCode => "invalid status code",
            HttpError::InvalidRequest => "invalid HTTP request",
            HttpError::InvalidResponse => "invalid HTTP response",
            HttpError::InvalidHeader => "invalid HTTP header",
            HttpError::InvalidChunk => "invalid chunked encoding",
            HttpError::InvalidUri => "invalid URI",
            HttpError::InvalidCookie => "invalid cookie",
            HttpError::InvalidMediaType => "invalid media type",
            HttpError::Incomplete => "incomplete data",
            HttpError::TooLarge => "payload too large",
        };
        s.to_owned()
    }
}

/// The description of each error.
pub proof fn error_messages()
    ensures
        HttpError::InvalidMethod.message() == "invalid HTTP method"@,
        HttpError::InvalidVersion.message() == "invalid HTTP version"@,
        HttpError::InvalidStatusCode.message() == "invalid status code"@,
        HttpError::InvalidRequest.message() == "invalid HTTP request"@,
        HttpError::InvalidResponse.message() == "invalid HTTP response"@,
        HttpError::InvalidHeader.message() == "invalid HTTP header"@,
        HttpError::InvalidChunk.message() == "invalid chunked encoding"@,
        HttpError::InvalidUri.message() == "invalid URI"@,
        HttpError::InvalidCookie.message() == "invalid cookie"@,
        HttpError::InvalidMediaType.message() == "invalid media type"@,
        HttpError::Incomplete.message() == "incomplete data"@,
        HttpError::TooLarge.message() == "payload too large"@,
{
}

} // verus!
