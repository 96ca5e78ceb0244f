//! `Version`: the HTTP protocol version.
use vstd::prelude::*;
use crate::error::HttpError;
use crate::text::{chars_eq_str, chars_of, push_str};

verus! {

/// HTTP protocol version.
#[derive(Debug, Clone, Copy, PartialEq, Eq, Hash, Structural)]
pub enum Version {
    Http10,
    Http11,
    Http2,
}

impl Version {
    /// The version's text on the wire.
    pub open spec fn text(self) -> Seq<char> {
        match self {
            Version::Http10 => "HTTP/1.0"@,
            Version::Http11 => "HTTP/1.1"@,
            Version::Http2 => "HTTP/2"@,
        }
    }

    /// The version a text names: `HTTP/1.0`, `HTTP/1.1`, or `HTTP/2` (also
    /// written `HTTP/2.0`).
    pub open spec fn named(s: Seq<char>) -> Option<Version> {
        if s == "HTTP/1.0"@ {
            Some(Version::Http10)
        } else if s == "HTTP/1.1"@ {
            Some(Version::Http11)
        } else if s == "HTTP/2"@ || s == "HTTP/2.0"@ {
            Some(Version::Http2)
        } else {
            None
        }
    }

    /// Returns the version string.
    pub fn as_str(self) -> (r: &'static str)
        ensures
            r@ == self.text(),
    {
        match self {
            Version::Http10 => "HTTP/1.0",
            Version::Http11 => "HTTP/1.1",
            Version::Http2 => "HTTP/2",
        }
    }

    /// The version string as a `String`.
    pub fn to_string(&self) -> (r: String)
        ensures
            r@ == self.text(),
    {
        let mut r = String::new();
        push_str(&mut r, self.as_str());
        r
    }

    /// Reads a version from its text.
    ///
    /// # Errors
    ///
    /// Returns `HttpError::InvalidVersion` for any other text.
    pub fn parse_text(s: &str) -> (r: Result<Version, HttpError>)
        ensures
            match Version::named(s@) {
                Some(v) => r == Ok::<Version, HttpError>(v),
                None => r == Err::<Version, HttpError>(HttpError::InvalidVersion),
            },
    {
        let cs = chars_of(s);
        Self::parse_chars(cs.as_slice())
    }

    /// Reads a version from its characters.
    pub fn parse_chars(cs: &[char]) -> (r: Result<Version, HttpError>)
        ensures
            match Version::named(cs@) {
                Some(v) => r == Ok::<Version, HttpError>(v),
                None => r == Err::<Version, HttpError>(HttpError::InvalidVersion),
            },
    {
        if chars_eq_str(cs, "HTTP/1.0") {
            Ok(Version::Http10)
        } else if chars_eq_str(cs, "HTTP/1.1") {
            Ok(Version::Http11)
        } else if chars_eq_str(cs, "HTTP/2") || chars_eq_str(cs, "HTTP/2.0") {
            Ok(Version::Http2)
        } else {
            Err(HttpError::InvalidVersion)
        }
    }
}

impl std::str::FromStr for Version {
    type Err = HttpError;

    fn from_str(s: &str) -> (r: Result<Self, Self::Err>)
        ensures
            match Version::named(s@) {
                Some(v) => r == Ok::<Version, HttpError>(v),
                None => r == Err::<Version, HttpError>(HttpError::InvalidVersion),
            },
    {
        Version::parse_text(s)
    }
}

/// Every version is read back from its text.
pub proof fn version_roundtrip(v: Version)
    ensures
        Version::named(v.text()) == Some(v),
{
    reveal_strlit("HTTP/1.0");
    reveal_strlit("HTTP/1.1");
    reveal_strlit("HTTP/2");
    reveal_strlit("HTTP/2.0");
    assert("HTTP/1.0"@.len() == 8 && "HTTP/1.1"@.len() == 8 && "HTTP/2"@.len() == 6);
    assert("HTTP/1.0"@[7] != "HTTP/1.1"@[7]);
}

/// A version's text is not empty and holds no space or carriage return.
pub proof fn lemma_text_plain(v: Version)
    ensures
        v.text().len() > 0,
        forall|i: int| 0 <= i < v.text().len() ==> #[trigger] v.text()[i] != ' ' && v.text()[i] != '\r',
{
    reveal_strlit("HTTP/1.0");
    reveal_strlit("HTTP/1.1");
    reveal_strlit("HTTP/2");
}

/// The text of each version on the wire, and the texts read as each.
pub proof fn version_names(s: Seq<char>)
    ensures
        Version::Http10.text() == "HTTP/1.0"@,
        Version::Http11.text() == "HTTP/1.1"@,
        Version::Http2.text() == "HTTP/2"@,
        Version::named(s) == Some(Version::Http10) <==> s == "HTTP/1.0"@,
        Version::named(s) == Some(Version::Http11) <==> s == "HTTP/1.1"@,
        Version::named(s) == Some(Version::Http2) <==> (s == "HTTP/2"@ || s == "HTTP/2.0"@),
{
    reveal_strlit("HTTP/1.0");
    reveal_strlit("HTTP/1.1");
    reveal_strlit("HTTP/2");
    reveal_strlit("HTTP/2.0");
    assert("HTTP/1.0"@[7] != "HTTP/1.1"@[7]);
    assert("HTTP/1.0"@.len() != "HTTP/2"@.len());
    assert("HTTP/1.0"@[5] != "HTTP/2.0"@[5]);
    assert("HTTP/1.1"@.len() != "HTTP/2"@.len());
    assert("HTTP/1.1"@[5] != "HTTP/2.0"@[5]);
    assert("HTTP/2"@.len() != "HTTP/2.0"@.len());
}

} // verus!
