//! `Method`: the HTTP request method.
use vstd::prelude::*;
use crate::error::HttpError;
use crate::text::{chars_eq_str, chars_of, push_str};

verus! {

/// HTTP request methods.
#[derive(Debug, Clone, Copy, PartialEq, Eq, Hash, Structural)]
pub enum Method {
    Get,
    Post,
    Put,
    Delete,
    Patch,
    Head,
    Options,
    Trace,
    Connect,
}

impl Method {
    /// The method's name on the wire.
    pub open spec fn text(self) -> Seq<char> {
        match self {
            Method::Get => "GET"@,
            Method::Post => "POST"@,
            Method::Put => "PUT"@,
            Method::Delete => "DELETE"@,
            Method::Patch => "PATCH"@,
            Method::Head => "HEAD"@,
            Method::Options => "OPTIONS"@,
            Method::Trace => "TRACE"@,
            Method::Connect => "CONNECT"@,
        }
    }

    /// The method a text names (names are case-sensitive).
    pub open spec fn named(s: Seq<char>) -> Option<Method> {
        if s == "GET"@ {
            Some(Method::Get)
        } else if s == "POST"@ {
            Some(Method::Post)
        } else if s == "PUT"@ {
            Some(Method::Put)
        } else if s == "DELETE"@ {
            Some(Method::Delete)
        } else if s == "PATCH"@ {
            Some(Method::Patch)
        } else if s == "HEAD"@ {
            Some(Method::Head)
        } else if s == "OPTIONS"@ {
            Some(Method::Options)
        } else if s == "TRACE"@ {
            Some(Method::Trace)
        } else if s == "CONNECT"@ {
            Some(Method::Connect)
        } else {
            None
        }
    }

    /// Returns the method name.
    pub fn as_str(self) -> (r: &'static str)
        ensures
            r@ == self.text(),
    {
        match self {
            Method::Get => "GET",
            Method::Post => "POST",
            Method::Put => "PUT",
            Method::Delete => "DELETE",
            Method::Patch => "PATCH",
            Method::Head => "HEAD",
            Method::Options => "OPTIONS",
            Method::Trace => "TRACE",
            Method::Connect => "CONNECT",
        }
    }

    /// The method name as a `String`.
    pub fn to_string(&self) -> (r: String)
        ensures
            r@ == self.text(),
    {
        let mut r = String::new();
        push_str(&mut r, self.as_str());
        r
    }

    /// Reads a method from its name.
    ///
    /// # Errors
    ///
    /// Returns `HttpError::InvalidMethod` for any other text.
    pub fn parse_text(s: &str) -> (r: Result<Method, HttpError>)
        ensures
            match Method::named(s@) {
                Some(m) => r == Ok::<Method, HttpError>(m),
                None => r == Err::<Method, HttpError>(HttpError::InvalidMethod),
            },
    {
        let cs = chars_of(s);
        Self::parse_chars(cs.as_slice())
    }

    /// Reads a method from the characters of its name.
    pub fn parse_chars(cs: &[char]) -> (r: Result<Method, HttpError>)
        ensures
            match Method::named(cs@) {
                Some(m) => r == Ok::<Method, HttpError>(m),
                None => r == Err::<Method, HttpError>(HttpError::InvalidMethod),
            },
    {
        if chars_eq_str(cs, "GET") {
            Ok(Method::Get)
        } else if chars_eq_str(cs, "POST") {
            Ok(Method::Post)
        } else if chars_eq_str(cs, "PUT") {
            Ok(Method::Put)
        } else if chars_eq_str(cs, "DELETE") {
            Ok(Method::Delete)
        } else if chars_eq_str(cs, "PATCH") {
            Ok(Method::Patch)
        } else if chars_eq_str(cs, "HEAD") {
            Ok(Method::Head)
        } else if chars_eq_str(cs, "OPTIONS") {
            Ok(Method::Options)
        } else if chars_eq_str(cs, "TRACE") {
            Ok(Method::Trace)
        } else if chars_eq_str(cs, "CONNECT") {
            Ok(Method::Connect)
        } else {
            Err(HttpError::InvalidMethod)
        }
    }
}

impl std::str::FromStr for Method {
    type Err = HttpError;

    fn from_str(s: &str) -> (r: Result<Self, Self::Err>)
        ensures
            match Method::named(s@) {
                Some(m) => r == Ok::<Method, HttpError>(m),
                None => r == Err::<Method, HttpError>(HttpError::InvalidMethod),
            },
    {
        Method::parse_text(s)
    }
}

/// Every method is read back from its name.
pub proof fn method_roundtrip(m: Method)
    ensures
        Method::named(m.text()) == Some(m),
{
    reveal_strlit("GET");
    reveal_strlit("POST");
    reveal_strlit("PUT");
    reveal_strlit("DELETE");
    reveal_strlit("PATCH");
    reveal_strlit("HEAD");
    reveal_strlit("OPTIONS");
    reveal_strlit("TRACE");
    reveal_strlit("CONNECT");
    assert("GET"@.len() == 3 && "PUT"@.len() == 3 && "POST"@.len() == 4 && "HEAD"@.len() == 4);
    assert("PATCH"@.len() == 5 && "TRACE"@.len() == 5 && "DELETE"@.len() == 6);
    assert("OPTIONS"@.len() == 7 && "CONNECT"@.len() == 7);
    assert("GET"@[0] != "PUT"@[0] && "POST"@[0] != "HEAD"@[0] && "PATCH"@[0] != "TRACE"@[0]
        && "OPTIONS"@[0] != "CONNECT"@[0]);
}

/// A method's name is a non-empty run of upper-case ASCII letters.
pub proof fn lemma_text_letters(m: Method)
    ensures
        m.text().len() > 0,
        forall|i: int| 0 <= i < m.text().len() ==> 'A' <= #[trigger] m.text()[i] <= 'Z',
{
    reveal_strlit("GET");
    reveal_strlit("POST");
    reveal_strlit("PUT");
    reveal_strlit("DELETE");
    reveal_strlit("PATCH");
    reveal_strlit("HEAD");
    reveal_strlit("OPTIONS");
    reveal_strlit("TRACE");
    reveal_strlit("CONNECT");
}

/// The name of each method on the wire, as RFC 9110 (section 9) writes it.
pub proof fn method_names()
    ensures
        Method::Get.text() == "GET"@,
        Method::Post.text() == "POST"@,
        Method::Put.text() == "PUT"@,
        Method::Delete.text() == "DELETE"@,
        Method::Patch.text() == "PATCH"@,
        Method::Head.text() == "HEAD"@,
        Method::Options.text() == "OPTIONS"@,
        Method::Trace.text() == "TRACE"@,
        Method::Connect.text() == "CONNECT"@,
{
}

} // verus!
