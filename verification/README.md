# alice_http

HTTP/1.1 and HTTP/2 building blocks, verified with Verus: request and
response parsing and serialization, a case-insensitive header map, status
codes, URIs and query strings, chunked transfer encoding, `Accept`-style
headers, cookies, media types, percent-encoding, form data, HTTP/2 frame
headers and HPACK integers.

Every function in `src/` states its behaviour as a `requires` / `ensures`
contract over a mathematical model (sequences of characters and bytes), and
the library states and proves laws that relate its functions, among them:

- a request read back from its wire form is the same request, whenever its
  URI holds no space or line break, its header names hold no `:`, and its
  header names and values hold no line break and no surrounding whitespace;
  the body may be any bytes (`Request::to_bytes`,
  `request::request_roundtrip`); the same for a response, with the
  conditions on headers (`Response::to_bytes`,
  `response::response_roundtrip`);
- a cookie read back from its `Set-Cookie` text is the same cookie, whenever
  its name is not empty and holds no `=`, and its name, value, path and
  domain hold no `;` and no surrounding whitespace
  (`cookie::set_cookie_roundtrip`);
- chunked decoding gives back any encoded body; percent-decoding undoes
  percent-encoding; form data parses back to its pairs (the last value of a
  name winning, and exactly the pairs where no two share a name); HPACK integers with a 1- to
  8-bit prefix read back, and so do HTTP/2 frames with a payload under 2^24
  bytes whose type is not an unknown one holding the code of a known type;
- the header map keeps what `set` (which replaces every entry of a name),
  `append` and `remove` promise, and keeps every name in lower case.

Layout:

- `src/` — the verified library; `text.rs` and `num.rs` hold the text and
  number models that the parsers share, `message.rs` what requests and
  responses share.
- `tests/` — tests on concrete values.
- `app/` — the parts that need floating-point quality factors (sorting an
  `Accept` header by `q`), and an error type that implements
  `std::error::Error`.
