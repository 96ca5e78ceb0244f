//! `Response` and `ResponseBuilder`.
use vstd::prelude::*;
use vstd::utf8::encode_utf8;
use crate::error::HttpError;
use crate::headers::{Entry, Headers, http1_lines, lookup};
use crate::message::{
    Split, clean_entries, lemma_fields, lemma_head_read_back, lemma_no_cr, lemma_no_crlf_concat,
    lemma_plain_entries, message_head,
    plain_entries, after_first, first_field, head_lines, head_lines_of, header_entries,
    read_header_lines, split_message, split_message_bytes, start_fields,
};
use crate::num::{decimal, lemma_radix_digits, parse_unsigned, parse_unsigned_chars};
use crate::request::{content_length_of, length_value, text_then_bytes};
use crate::status::{StatusCode, lemma_reason_plain, reason_phrase};
use crate::text::{lower_all, push_str, views};
use crate::version::{Version, lemma_text_plain, version_roundtrip};

verus! {

/// The parts of a response, as values and text.
pub struct ResponseParts {
    pub version: Version,
    pub status: StatusCode,
    pub headers: Seq<Entry>,
    pub body: Seq<u8>,
}

/// Reading a response from its head text and body bytes: the status line
/// `VERSION CODE REASON` (the reason phrase is not read), then the header
/// lines.
pub open spec fn parse_response_head(head: Seq<char>, body: Seq<u8>) -> Result<
    ResponseParts,
    HttpError,
> {
    let lines = head_lines(head);
    let line = lines[0];
    match Version::named(first_field(line)) {
        None => Err(HttpError::InvalidVersion),
        Some(v) => match after_first(line) {
            None => Err(HttpError::InvalidResponse),
            Some(r1) => match parse_unsigned(first_field(r1), 10, u16::MAX as nat) {
                None => Err(HttpError::InvalidStatusCode),
                Some(code) => if !(100 <= code <= 999) {
                    Err(HttpError::InvalidStatusCode)
                } else {
                    match header_entries(lines.drop_first()) {
                        None => Err(HttpError::InvalidHeader),
                        Some(es) => Ok(
                            ResponseParts {
                                version: v,
                                status: StatusCode::from_value(code as u16),
                                headers: es,
                                body,
                            },
                        ),
                    }
                },
            },
        },
    }
}

/// Reading a response from its bytes.
pub open spec fn parse_response(data: Seq<u8>) -> Result<ResponseParts, HttpError> {
    match split_message(data) {
        Split::NotText => Err(HttpError::InvalidResponse),
        Split::NoHeadEnd => Err(HttpError::Incomplete),
        Split::Parts(head, body) => parse_response_head(head, body),
    }
}

/// The head text of a response.
pub open spec fn response_head(p: ResponseParts) -> Seq<char> {
    p.version.text() + " "@ + p.status.text() + "\r\n"@ + http1_lines(p.headers) + "\r\n"@
}

/// The wire form of a response: its head in UTF-8, then its body.
pub open spec fn response_bytes(p: ResponseParts) -> Seq<u8> {
    encode_utf8(response_head(p)) + p.body
}

/// A response whose parts can be told apart in its wire form: clean header
/// entries (see `clean_entry`).
pub open spec fn wire_response(p: ResponseParts) -> bool {
    clean_entries(p.headers)
}

/// An HTTP response.
#[derive(Debug, Clone)]
pub struct Response {
    pub version: Version,
    pub status: StatusCode,
    pub headers: Headers,
    pub body: Vec<u8>,
}

impl View for Response {
    type V = ResponseParts;

    open spec fn view(&self) -> ResponseParts {
        ResponseParts {
            version: self.version,
            status: self.status,
            headers: self.headers@,
            body: self.body@,
        }
    }
}

impl Response {
    /// Creates a new response builder.
    pub fn builder() -> (b: ResponseBuilder)
        ensures
            b@ == (ResponseParts {
                version: Version::Http11,
                status: StatusCode::from_value(200),
                headers: Seq::<Entry>::empty(),
                body: Seq::<u8>::empty(),
            }),
    {
        ResponseBuilder::new()
    }

    /// Parses an HTTP/1.1 response from raw bytes.
    ///
    /// # Errors
    ///
    /// Returns an `HttpError` if the response is malformed.
    pub fn parse(data: &[u8]) -> (r: Result<Self, HttpError>)
        ensures
            match parse_response(data@) {
                Ok(p) => r matches Ok(resp) && resp@ == p,
                Err(e) => r matches Err(e2) && e2 == e,
            },
    {
        let (head, body) = match split_message_bytes(data) {
            None => return Err(HttpError::InvalidResponse),
            Some(None) => return Err(HttpError::Incomplete),
            Some(Some(parts)) => parts,
        };
        let lines = head_lines_of(head.as_slice());
        let ghost all = views(lines@);
        assert(all[0] == lines@[0]@);
        let (version_text, rest) = start_fields(lines[0].as_slice());
        let version = Version::parse_chars(version_text.as_slice())?;
        let rest = match rest {
            Some(r) => r,
            None => return Err(HttpError::InvalidResponse),
        };
        let (code_text, _) = start_fields(rest.as_slice());
        let code = match parse_unsigned_chars(code_text.as_slice(), 10, 65535) {
            Some(c) => c as u16,
            None => return Err(HttpError::InvalidStatusCode),
        };
        let status = StatusCode::from_u16(code)?;
        let mut headers = Headers::new();
        read_header_lines(&lines, &mut headers)?;
        Ok(Response { version, status, headers, body })
    }

    /// Serializes this response to HTTP/1.1 wire format. Where its parts can
    /// be told apart there, parsing the bytes gives the same response back.
    pub fn to_bytes(&self) -> (r: Vec<u8>)
        ensures
            r@ == response_bytes(self@),
            wire_response(self@) ==> parse_response(r@) == Ok::<ResponseParts, HttpError>(self@),
    {
        let mut out = self.version.to_string();
        push_str(&mut out, " ");
        push_str(&mut out, self.status.to_string().as_str());
        push_str(&mut out, "\r\n");
        push_str(&mut out, self.headers.to_http1().as_str());
        push_str(&mut out, "\r\n");
        proof {
            if wire_response(self@) {
                lemma_plain_entries(self.headers@);
                response_roundtrip(self@);
            }
        }
        text_then_bytes(&out, self.body.as_slice())
    }

    /// Returns the `Content-Type` header value, if present.
    pub fn content_type(&self) -> (r: Option<&str>)
        ensures
            match lookup(self.headers@, lower_all("content-type"@)) {
                Some(v) => r matches Some(s) && s@ == v,
                None => r is None,
            },
    {
        self.headers.get("content-type")
    }

    /// Returns the `Content-Length` parsed as `usize`, if present and valid.
    pub fn content_length(&self) -> (r: Option<usize>)
        ensures
            r == match lookup(self.headers@, lower_all("content-length"@)) {
                Some(v) => match length_value(v) {
                    Some(n) => Some(n as usize),
                    None => None,
                },
                None => None,
            },
    {
        match self.headers.get("content-length") {
            Some(v) => content_length_of(v),
            None => None,
        }
    }
}

/// Builder for constructing HTTP responses.
#[derive(Debug)]
pub struct ResponseBuilder {
    version: Version,
    status: StatusCode,
    headers: Headers,
    body: Vec<u8>,
}

impl View for ResponseBuilder {
    type V = ResponseParts;

    closed spec fn view(&self) -> ResponseParts {
        ResponseParts {
            version: self.version,
            status: self.status,
            headers: self.headers@,
            body: self.body@,
        }
    }
}

impl ResponseBuilder {
    /// A `200 OK` response over HTTP/1.1, with no headers and no body.
    fn new() -> (b: Self)
        ensures
            b@ == (ResponseParts {
                version: Version::Http11,
                status: StatusCode::from_value(200),
                headers: Seq::<Entry>::empty(),
                body: Seq::<u8>::empty(),
            }),
    {
        let b = ResponseBuilder {
            version: Version::Http11,
            status: StatusCode::OK(),
            headers: Headers::new(),
            body: Vec::new(),
        };
        proof {
            b.status.lemma_value(200);
        }
        assert(b@.body =~= Seq::<u8>::empty());
        b
    }

    /// Sets the version.
    pub fn version(self, version: Version) -> (b: Self)
        ensures
            b@ == (ResponseParts { version, ..self@ }),
    {
        ResponseBuilder { version, ..self }
    }

    /// Sets the status.
    pub fn status(self, status: StatusCode) -> (b: Self)
        ensures
            b@ == (ResponseParts { status, ..self@ }),
    {
        ResponseBuilder { status, ..self }
    }

    /// Sets a header, replacing an existing header of that name.
    pub fn header(self, name: &str, value: &str) -> (b: Self)
        ensures
            b@ == (ResponseParts {
                headers: crate::headers::set_header(self@.headers, lower_all(name@), value@),
                ..self@
            }),
    {
        let mut b = self;
        b.headers.set(name, value);
        b
    }

    /// Sets the body.
    pub fn body(self, body: &[u8]) -> (b: Self)
        ensures
            b@ == (ResponseParts { body: body@, ..self@ }),
    {
        ResponseBuilder { body: vstd::slice::slice_to_vec(body), ..self }
    }

    /// Builds the response.
    pub fn build(self) -> (r: Response)
        ensures
            r@ == self@,
    {
        Response { version: self.version, status: self.status, headers: self.headers, body: self.body }
    }
}

/// A response reads back from its wire form as the same response, whenever
/// its status code is one that parsing accepts (100 to 999) and its header
/// entries are ones that their lines give back (see `plain_entry`); the body
/// may be any bytes.
pub proof fn response_roundtrip(p: ResponseParts)
    requires
        100 <= p.status.value() <= 999,
        plain_entries(p.headers),
    ensures
        parse_response(response_bytes(p)) == Ok::<ResponseParts, HttpError>(p),
{
    reveal_strlit(" ");
    reveal_strlit("\r\n");
    let code = p.status.value();
    let vt = p.version.text();
    let ds = decimal(code as nat);
    let rp = reason_phrase(code);
    let sp = seq![' '];
    let start = vt + sp + ds + sp + rp;
    assert(response_head(p) =~= message_head(start, p.headers));
    lemma_text_plain(p.version);
    version_roundtrip(p.version);
    lemma_radix_digits(code as nat, 10);
    lemma_reason_plain(code);
    assert forall|i: int| 0 <= i < ds.len() implies #[trigger] ds[i] != '\r' && ds[i] != ' '
        && ds[i] != '+' by {
        assert('0' <= ds[i] <= '9' || 'a' <= ds[i] <= 'f');
    }
    lemma_no_cr(vt);
    lemma_no_cr(ds);
    lemma_no_cr(rp);
    lemma_no_cr(sp);
    lemma_no_crlf_concat(vt, sp);
    lemma_no_crlf_concat(vt + sp, ds);
    lemma_no_crlf_concat(vt + sp + ds, sp);
    lemma_no_crlf_concat(vt + sp + ds + sp, rp);
    lemma_head_read_back(start, p.headers, p.body);
    assert(!vt.contains(' '));
    assert(!ds.contains(' '));
    assert(start =~= vt + sp + (ds + sp + rp));
    lemma_fields(vt, ds + sp + rp);
    lemma_fields(ds, rp);
    assert(parse_unsigned(ds, 10, u16::MAX as nat) == Some(code as nat));
    p.status.lemma_value(code);
}

} // verus!
