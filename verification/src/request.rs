//! `Request` and `RequestBuilder`.
use vstd::prelude::*;
use vstd::utf8::encode_utf8;
use crate::error::HttpError;
use crate::headers::{Entry, Headers, http1_lines, lookup};
use crate::message::{
    Split, clean_entries, lemma_fields, lemma_head_read_back, lemma_no_cr, lemma_no_crlf_concat,
    lemma_plain_entries, message_head,
    no_crlf, plain_entries, after_first, first_field, head_lines, head_lines_of, header_entries,
    read_header_lines, split_message, split_message_bytes, start_fields,
};
use crate::method::{Method, lemma_text_letters, method_roundtrip};
use crate::num::{parse_unsigned, parse_unsigned_chars};
use crate::text::{chars_of, lower_all, push_str, string_of, views};
use crate::uri::Uri;
use crate::version::{Version, lemma_text_plain, version_roundtrip};

verus! {

/// The parts of a request, as values and text.
pub struct RequestParts {
    pub method: Method,
    pub uri: Seq<char>,
    pub version: Version,
    pub headers: Seq<Entry>,
    pub body: Seq<u8>,
}

/// Reading a request from its head text and body bytes: the request line
/// `METHOD URI VERSION` (cut at the first two spaces; the version is the rest
/// of the line), then the header lines.
pub open spec fn parse_request_head(head: Seq<char>, body: Seq<u8>) -> Result<
    RequestParts,
    HttpError,
> {
    let lines = head_lines(head);
    let line = lines[0];
    match Method::named(first_field(line)) {
        None => Err(HttpError::InvalidMethod),
        Some(m) => match after_first(line) {
            None => Err(HttpError::InvalidRequest),
            Some(r1) => match after_first(r1) {
                None => Err(HttpError::InvalidRequest),
                Some(r2) => match Version::named(r2) {
                    None => Err(HttpError::InvalidVersion),
                    Some(v) => if first_field(r1).len() == 0 {
                        Err(HttpError::InvalidUri)
                    } else {
                        match header_entries(lines.drop_first()) {
                            None => Err(HttpError::InvalidHeader),
                            Some(es) => Ok(
                                RequestParts {
                                    method: m,
                                    uri: first_field(r1),
                                    version: v,
                                    headers: es,
                                    body,
                                },
                            ),
                        }
                    },
                },
            },
        },
    }
}

/// Reading a request from its bytes.
pub open spec fn parse_request(data: Seq<u8>) -> Result<RequestParts, HttpError> {
    match split_message(data) {
        Split::NotText => Err(HttpError::InvalidRequest),
        Split::NoHeadEnd => Err(HttpError::Incomplete),
        Split::Parts(head, body) => parse_request_head(head, body),
    }
}

/// The head text of a request.
pub open spec fn request_head(p: RequestParts) -> Seq<char> {
    p.method.text() + " "@ + p.uri + " "@ + p.version.text() + "\r\n"@ + http1_lines(p.headers)
        + "\r\n"@
}

/// The wire form of a request: its head in UTF-8, then its body.
pub open spec fn request_bytes(p: RequestParts) -> Seq<u8> {
    encode_utf8(request_head(p)) + p.body
}

/// A request whose parts can be told apart in its wire form: a URI without
/// space or line break, and clean header entries (see `clean_entry`).
pub open spec fn wire_request(p: RequestParts) -> bool {
    &&& !p.uri.contains(' ')
    &&& no_crlf(p.uri)
    &&& clean_entries(p.headers)
}

/// A decimal `usize` in text, as `str::parse` reads it.
pub open spec fn length_value(s: Seq<char>) -> Option<nat> {
    parse_unsigned(s, 10, usize::MAX as nat)
}

/// An HTTP request.
#[derive(Debug, Clone)]
pub struct Request {
    pub method: Method,
    pub uri: Uri,
    pub version: Version,
    pub headers: Headers,
    pub body: Vec<u8>,
}

impl View for Request {
    type V = RequestParts;

    open spec fn view(&self) -> RequestParts {
        RequestParts {
            method: self.method,
            uri: self.uri@,
            version: self.version,
            headers: self.headers@,
            body: self.body@,
        }
    }
}

/// Appends the bytes of `src` to `out`.
fn push_all(out: &mut Vec<u8>, src: &[u8])
    ensures
        final(out)@ == old(out)@ + src@,
{
    let ghost start = out@;
    let mut i: usize = 0;
    while i < src.len()
        invariant
            i <= src@.len(),
            out@ == start + src@.take(i as int),
        decreases src.len() - i,
    {
        out.push(src[i]);
        i += 1;
        assert(out@ =~= start + src@.take(i as int));
    }
    assert(src@.take(src@.len() as int) =~= src@);
}

/// The UTF-8 bytes of a text followed by `body`.
pub fn text_then_bytes(text: &String, body: &[u8]) -> (r: Vec<u8>)
    ensures
        r@ == encode_utf8(text@) + body@,
{
    let head = text.as_str().as_bytes();
    let mut out = vstd::slice::slice_to_vec(head);
    push_all(&mut out, body);
    out
}

impl Request {
    /// Creates a new request builder.
    pub fn builder() -> (b: RequestBuilder)
        ensures
            b@ == (RequestParts {
                method: Method::Get,
                uri: "/"@,
                version: Version::Http11,
                headers: Seq::<Entry>::empty(),
                body: Seq::<u8>::empty(),
            }),
    {
        RequestBuilder::new()
    }

    /// Parses an HTTP/1.1 request from raw bytes.
    ///
    /// # Errors
    ///
    /// Returns an `HttpError` if the request is malformed.
    pub fn parse(data: &[u8]) -> (r: Result<Self, HttpError>)
        ensures
            match parse_request(data@) {
                Ok(p) => r matches Ok(req) && req@ == p,
                Err(e) => r matches Err(e2) && e2 == e,
            },
    {
        let (head, body) = match split_message_bytes(data) {
            None => return Err(HttpError::InvalidRequest),
            Some(None) => return Err(HttpError::Incomplete),
            Some(Some(parts)) => parts,
        };
        let lines = head_lines_of(head.as_slice());
        let ghost all = views(lines@);
        assert(all[0] == lines@[0]@);
        let (method_text, rest) = start_fields(lines[0].as_slice());
        let method = Method::parse_chars(method_text.as_slice())?;
        let rest = match rest {
            Some(r) => r,
            None => return Err(HttpError::InvalidRequest),
        };
        let (uri_text, version_text) = start_fields(rest.as_slice());
        let version_text = match version_text {
            Some(v) => v,
            None => return Err(HttpError::InvalidRequest),
        };
        let version = Version::parse_chars(version_text.as_slice())?;
        let uri = Uri::parse_chars(uri_text.as_slice())?;
        let mut headers = Headers::new();
        read_header_lines(&lines, &mut headers)?;
        Ok(Request { method, uri, version, headers, body })
    }

    /// Serializes this request to HTTP/1.1 wire format. Where its parts can
    /// be told apart there, parsing the bytes gives the same request back.
    pub fn to_bytes(&self) -> (r: Vec<u8>)
        ensures
            r@ == request_bytes(self@),
            wire_request(self@) ==> parse_request(r@) == Ok::<RequestParts, HttpError>(self@),
    {
        let mut out = self.method.to_string();
        push_str(&mut out, " ");
        push_str(&mut out, self.uri.raw());
        push_str(&mut out, " ");
        push_str(&mut out, self.version.as_str());
        push_str(&mut out, "\r\n");
        push_str(&mut out, self.headers.to_http1().as_str());
        push_str(&mut out, "\r\n");
        proof {
            if wire_request(self@) {
                lemma_plain_entries(self.headers@);
                request_roundtrip(self@);
            }
        }
        text_then_bytes(&out, self.body.as_slice())
    }

    /// Returns the `Content-Type` header value, if present.
    pub fn content_type(&self) -> (r: Option<&str>)
        ensures
            match lookup(self.headers@, lower_all("content-type"@)) {
                Some(v) => r matches Some(s) && s@ == v,
                None => r is None,
            },
    {
        self.headers.get("content-type")
    }

    /// Returns the `Content-Length` parsed as `usize`, if present and valid.
    pub fn content_length(&self) -> (r: Option<usize>)
        ensures
            r == match lookup(self.headers@, lower_all("content-length"@)) {
                Some(v) => match length_value(v) {
                    Some(n) => Some(n as usize),
                    None => None,
                },
                None => None,
            },
    {
        match self.headers.get("content-length") {
            Some(v) => content_length_of(v),
            None => None,
        }
    }
}

/// A `Content-Length` value read as a decimal `usize`.
pub fn content_length_of(v: &str) -> (r: Option<usize>)
    ensures
        r == match length_value(v@) {
            Some(n) => Some(n as usize),
            None => None,
        },
{
    let cs = chars_of(v);
    match parse_unsigned_chars(cs.as_slice(), 10, usize::MAX as u64) {
        Some(n) => Some(n as usize),
        None => None,
    }
}

/// Builder for constructing HTTP requests.
#[derive(Debug)]
pub struct RequestBuilder {
    method: Method,
    uri: String,
    version: Version,
    headers: Headers,
    body: Vec<u8>,
}

impl View for RequestBuilder {
    type V = RequestParts;

    closed spec fn view(&self) -> RequestParts {
        RequestParts {
            method: self.method,
            uri: self.uri@,
            version: self.version,
            headers: self.headers@,
            body: self.body@,
        }
    }
}

impl RequestBuilder {
    /// A `GET /` request over HTTP/1.1, with no headers and no body.
    fn new() -> (b: Self)
        ensures
            b@ == (RequestParts {
                method: Method::Get,
                uri: "/"@,
                version: Version::Http11,
                headers: Seq::<Entry>::empty(),
                body: Seq::<u8>::empty(),
            }),
    {
        let mut uri = String::new();
        push_str(&mut uri, "/");
        let b = RequestBuilder {
            method: Method::Get,
            uri,
            version: Version::Http11,
            headers: Headers::new(),
            body: Vec::new(),
        };
        assert(b@.body =~= Seq::<u8>::empty());
        b
    }

    /// Sets the method.
    pub fn method(self, method: Method) -> (b: Self)
        ensures
            b@ == (RequestParts { method, ..self@ }),
    {
        RequestBuilder { method, ..self }
    }

    /// Sets the URI.
    pub fn uri(self, uri: &str) -> (b: Self)
        ensures
            b@ == (RequestParts { uri: uri@, ..self@ }),
    {
        RequestBuilder { uri: string_of(chars_of(uri).as_slice()), ..self }
    }

    /// Sets the version.
    pub fn version(self, version: Version) -> (b: Self)
        ensures
            b@ == (RequestParts { version, ..self@ }),
    {
        RequestBuilder { version, ..self }
    }

    /// Sets a header, replacing an existing header of that name.
    pub fn header(self, name: &str, value: &str) -> (b: Self)
        ensures
            b@ == (RequestParts {
                headers: crate::headers::set_header(self@.headers, lower_all(name@), value@),
                ..self@
            }),
    {
        let mut b = self;
        b.headers.set(name, value);
        b
    }

    /// Sets the body.
    pub fn body(self, body: &[u8]) -> (b: Self)
        ensures
            b@ == (RequestParts { body: body@, ..self@ }),
    {
        RequestBuilder { body: vstd::slice::slice_to_vec(body), ..self }
    }

    /// Builds the request.
    ///
    /// # Errors
    ///
    /// Returns `HttpError::InvalidUri` if the URI is invalid.
    pub fn build(self) -> (r: Result<Request, HttpError>)
        ensures
            self@.uri.len() == 0 ==> (r matches Err(e) && e == HttpError::InvalidUri),
            self@.uri.len() > 0 ==> (r matches Ok(req) && req@ == self@),
    {
        let uri = Uri::parse(self.uri.as_str())?;
        Ok(Request {
            method: self.method,
            uri,
            version: self.version,
            headers: self.headers,
            body: self.body,
        })
    }
}

/// A request reads back from its wire form as the same request, whenever
/// its parts can be told apart there: a URI that is not empty and holds no
/// space or line break, and header entries that their lines give back (see
/// `plain_entry`); the body may be any bytes.
pub proof fn request_roundtrip(p: RequestParts)
    requires
        p.uri.len() > 0,
        !p.uri.contains(' '),
        no_crlf(p.uri),
        plain_entries(p.headers),
    ensures
        parse_request(request_bytes(p)) == Ok::<RequestParts, HttpError>(p),
{
    reveal_strlit(" ");
    reveal_strlit("\r\n");
    let mt = p.method.text();
    let vt = p.version.text();
    let sp = seq![' '];
    let start = mt + sp + p.uri + sp + vt;
    assert(request_head(p) =~= message_head(start, p.headers));
    lemma_text_letters(p.method);
    lemma_text_plain(p.version);
    method_roundtrip(p.method);
    version_roundtrip(p.version);
    lemma_no_cr(mt);
    lemma_no_cr(vt);
    lemma_no_cr(sp);
    lemma_no_crlf_concat(mt, sp);
    lemma_no_crlf_concat(mt + sp, p.uri);
    lemma_no_crlf_concat(mt + sp + p.uri, sp);
    lemma_no_crlf_concat(mt + sp + p.uri + sp, vt);
    lemma_head_read_back(start, p.headers, p.body);
    assert(!mt.contains(' ')) by {
        if mt.contains(' ') {
            let i = choose|i: int| 0 <= i < mt.len() && mt[i] == ' ';
            assert('A' <= mt[i] <= 'Z');
        }
    }
    assert(start =~= mt + sp + (p.uri + sp + vt));
    lemma_fields(mt, p.uri + sp + vt);
    lemma_fields(p.uri, vt);
}

} // verus!
