//! HTTP/1.1 and HTTP/2 building blocks: request and response parsing,
//! headers, status codes, chunked transfer encoding, content negotiation,
//! cookies, media types, percent-encoding and HPACK integers.
use vstd::prelude::*;

pub mod chunked;
pub mod content_neg;
pub mod cookie;
pub mod error;
pub mod form;
pub mod h2_frame;
pub mod headers;
pub mod hpack;
pub mod message;
pub mod method;
pub mod mime;
pub mod num;
pub mod params;
pub mod request;
pub mod response;
pub mod status;
pub mod text;
pub mod uri;
pub mod url_encoding;
pub mod version;

pub use crate::chunked::ChunkedEncoding;
pub use crate::content_neg::{AcceptRange, ContentNegotiation};
pub use crate::cookie::{Cookie, SameSite};
pub use crate::error::HttpError;
pub use crate::form::FormData;
pub use crate::h2_frame::{H2Frame, H2FrameType};
pub use crate::headers::Headers;
pub use crate::hpack::HpackInt;
pub use crate::method::Method;
pub use crate::mime::MediaType;
pub use crate::params::ParamMap;
pub use crate::request::{Request, RequestBuilder};
pub use crate::response::{Response, ResponseBuilder};
pub use crate::status::StatusCode;
pub use crate::uri::Uri;
pub use crate::url_encoding::UrlEncoding;
pub use crate::version::Version;

verus! {
}
