//! `Cookie` and `SameSite` (RFC 6265): `Set-Cookie` and `Cookie` headers.
use vstd::prelude::*;
use vstd::seq_lib::lemma_concat_associative;
use crate::error::HttpError;
use crate::num::{
    lemma_signed_decimal_read, parse_i64_chars, parse_signed, signed_decimal, signed_decimal_of,
};
use crate::text::{
    chars_eq_str, chars_of, find, is_whitespace, lemma_find_first, lemma_find_from,
    lemma_trim_fixed, lower, lower_all, lower_chars, push_chars, push_str, split, split_chars,
    split_once, split_once_chars, string_of, trim, trim_chars, views,
};

verus! {

/// `SameSite` cookie attribute.
#[derive(Debug, Clone, Copy, PartialEq, Eq, Structural)]
pub enum SameSite {
    Strict,
    Lax,
    /// `SameSite=None`: the cookie is sent in every context.
    Unrestricted,
}

impl SameSite {
    /// The attribute value's text.
    pub open spec fn text(self) -> Seq<char> {
        match self {
            SameSite::Strict => "Strict"@,
            SameSite::Lax => "Lax"@,
            SameSite::Unrestricted => "None"@,
        }
    }

    /// The attribute value's text.
    pub fn as_str(self) -> (r: &'static str)
        ensures
            r@ == self.text(),
    {
        match self {
            SameSite::Strict => "Strict",
            SameSite::Lax => "Lax",
            SameSite::Unrestricted => "None",
        }
    }

    /// The attribute value's text as a `String`.
    pub fn to_string(&self) -> (r: String)
        ensures
            r@ == self.text(),
    {
        let mut r = String::new();
        push_str(&mut r, self.as_str());
        r
    }
}

/// The `SameSite` value that a lower-case text names.
pub open spec fn same_site_named(s: Seq<char>) -> Option<SameSite> {
    if s == "strict"@ {
        Some(SameSite::Strict)
    } else if s == "lax"@ {
        Some(SameSite::Lax)
    } else if s == "none"@ {
        Some(SameSite::Unrestricted)
    } else {
        None
    }
}

/// An HTTP cookie.
#[derive(Debug, Clone, PartialEq, Eq)]
pub struct Cookie {
    pub name: String,
    pub value: String,
    pub path: Option<String>,
    pub domain: Option<String>,
    pub max_age: Option<i64>,
    pub secure: bool,
    pub http_only: bool,
    pub same_site: Option<SameSite>,
}

/// The attributes of a cookie, as text.
pub struct CookieAttrs {
    pub path: Option<Seq<char>>,
    pub domain: Option<Seq<char>>,
    pub max_age: Option<i64>,
    pub secure: bool,
    pub http_only: bool,
    pub same_site: Option<SameSite>,
}

/// The text of an optional string.
pub open spec fn opt_text(o: Option<String>) -> Option<Seq<char>> {
    match o {
        Some(s) => Some(s@),
        None => None,
    }
}

/// The attributes of a cookie.
pub open spec fn attrs_of(c: Cookie) -> CookieAttrs {
    CookieAttrs {
        path: opt_text(c.path),
        domain: opt_text(c.domain),
        max_age: c.max_age,
        secure: c.secure,
        http_only: c.http_only,
        same_site: c.same_site,
    }
}

/// No attributes set.
pub open spec fn no_attrs() -> CookieAttrs {
    CookieAttrs {
        path: None,
        domain: None,
        max_age: None,
        secure: false,
        http_only: false,
        same_site: None,
    }
}

/// The `Max-Age` that a text gives: a decimal `i64`, or none.
pub open spec fn max_age_of(s: Seq<char>) -> Option<i64> {
    match parse_signed(s, 0x8000000000000000, i64::MAX as nat) {
        Some(v) => Some(v as i64),
        None => None,
    }
}

/// An attribute `key=val` (key in lower case) set: `path`, `domain`,
/// `max-age` and `samesite` set their values, an invalid `Max-Age` or
/// `SameSite` clearing it; any other key is ignored.
pub open spec fn set_attr(a: CookieAttrs, key: Seq<char>, val: Seq<char>) -> CookieAttrs {
    if key == "path"@ {
        CookieAttrs { path: Some(val), ..a }
    } else if key == "domain"@ {
        CookieAttrs { domain: Some(val), ..a }
    } else if key == "max-age"@ {
        CookieAttrs { max_age: max_age_of(val), ..a }
    } else if key == "samesite"@ {
        CookieAttrs { same_site: same_site_named(lower_all(val)), ..a }
    } else {
        a
    }
}

/// One attribute of a `Set-Cookie` header applied: `Secure` and `HttpOnly`
/// (any case) set their flags; a part `name=value` sets the attribute that
/// the name names (in any case; name and value trimmed); anything else is
/// ignored.
pub open spec fn apply_attr(a: CookieAttrs, part: Seq<char>) -> CookieAttrs {
    let t = trim(part);
    let l = lower_all(t);
    if l == "secure"@ {
        CookieAttrs { secure: true, ..a }
    } else if l == "httponly"@ {
        CookieAttrs { http_only: true, ..a }
    } else {
        match split_once(t, seq!['=']) {
            None => a,
            Some((k, v)) => set_attr(a, lower_all(trim(k)), trim(v)),
        }
    }
}

/// The attributes given by a sequence of attribute parts, in order.
pub open spec fn apply_attrs(a: CookieAttrs, parts: Seq<Seq<char>>) -> CookieAttrs
    decreases parts.len(),
{
    if parts.len() == 0 {
        a
    } else {
        apply_attr(apply_attrs(a, parts.drop_last()), parts.last())
    }
}

/// What a `Set-Cookie` header value gives: its parts are separated by `;`;
/// the first, cut at its first `=`, gives the trimmed name (which must not
/// be empty) and value, and the others give the attributes.
pub open spec fn read_set_cookie(s: Seq<char>) -> Result<
    (Seq<char>, Seq<char>, CookieAttrs),
    HttpError,
> {
    let parts = split(s, seq![';']);
    match split_once(parts[0], seq!['=']) {
        None => Err(HttpError::InvalidCookie),
        Some((n, v)) => if trim(n).len() == 0 {
            Err(HttpError::InvalidCookie)
        } else {
            Ok((trim(n), trim(v), apply_attrs(no_attrs(), parts.drop_first())))
        },
    }
}

/// The pairs of a `Cookie` request header, part by part (parts are
/// separated by `;`): a trimmed part `name=value` gives the trimmed name and
/// value; a part without `=` gives nothing.
pub open spec fn cookie_pairs(parts: Seq<Seq<char>>) -> Seq<(Seq<char>, Seq<char>)>
    decreases parts.len(),
{
    if parts.len() == 0 {
        seq![]
    } else {
        match split_once(trim(parts.last()), seq!['=']) {
            Some((k, v)) => cookie_pairs(parts.drop_last()).push((trim(k), trim(v))),
            None => cookie_pairs(parts.drop_last()),
        }
    }
}

/// An optional attribute `; Name=value`.
pub open spec fn opt_attr(label: Seq<char>, v: Option<Seq<char>>) -> Seq<char> {
    match v {
        Some(s) => label + s,
        None => seq![],
    }
}

/// The `Max-Age` text of a cookie, if it has one.
pub open spec fn max_age_text(m: Option<i64>) -> Option<Seq<char>> {
    match m {
        Some(v) => Some(signed_decimal(v as int)),
        None => None,
    }
}

/// The `SameSite` text of a cookie, if it has one.
pub open spec fn same_site_text(s: Option<SameSite>) -> Option<Seq<char>> {
    match s {
        Some(x) => Some(x.text()),
        None => None,
    }
}

/// The `Set-Cookie` header value of a cookie.
pub open spec fn set_cookie_text(c: Cookie) -> Seq<char> {
    c.name@ + "="@ + c.value@ + opt_attr("; Path="@, opt_text(c.path)) + opt_attr(
        "; Domain="@,
        opt_text(c.domain),
    ) + opt_attr("; Max-Age="@, max_age_text(c.max_age)) + (if c.secure {
        "; Secure"@
    } else {
        seq![]
    }) + (if c.http_only {
        "; HttpOnly"@
    } else {
        seq![]
    }) + opt_attr("; SameSite="@, same_site_text(c.same_site))
}

impl Cookie {
    /// Creates a new cookie with name and value.
    pub fn new(name: &str, value: &str) -> (c: Self)
        ensures
            c.name@ == name@,
            c.value@ == value@,
            attrs_of(c) == no_attrs(),
    {
        Cookie {
            name: string_of(chars_of(name).as_slice()),
            value: string_of(chars_of(value).as_slice()),
            path: None,
            domain: None,
            max_age: None,
            secure: false,
            http_only: false,
            same_site: None,
        }
    }

    /// Applies one attribute part of a `Set-Cookie` header.
    fn apply_part(&mut self, part: &[char])
        ensures
            final(self).name == old(self).name,
            final(self).value == old(self).value,
            attrs_of(*final(self)) == apply_attr(attrs_of(*old(self)), part@),
    {
        let trimmed = trim_chars(part);
        let lower = lower_chars(trimmed.as_slice());
        let eq = ['='];
        assert(eq@ =~= seq!['=']);
        if chars_eq_str(lower.as_slice(), "secure") {
            self.secure = true;
        } else if chars_eq_str(lower.as_slice(), "httponly") {
            self.http_only = true;
        } else if let Some((k, v)) = split_once_chars(trimmed.as_slice(), &eq) {
            let key = lower_chars(trim_chars(k.as_slice()).as_slice());
            let val = trim_chars(v.as_slice());
            if chars_eq_str(key.as_slice(), "path") {
                self.path = Some(string_of(val.as_slice()));
            } else if chars_eq_str(key.as_slice(), "domain") {
                self.domain = Some(string_of(val.as_slice()));
            } else if chars_eq_str(key.as_slice(), "max-age") {
                self.max_age = parse_i64_chars(val.as_slice());
            } else if chars_eq_str(key.as_slice(), "samesite") {
                let l = lower_chars(val.as_slice());
                self.same_site = if chars_eq_str(l.as_slice(), "strict") {
                    Some(SameSite::Strict)
                } else if chars_eq_str(l.as_slice(), "lax") {
                    Some(SameSite::Lax)
                } else if chars_eq_str(l.as_slice(), "none") {
                    Some(SameSite::Unrestricted)
                } else {
                    None
                };
            }
        }
    }

    /// Parses a `Set-Cookie` header value.
    ///
    /// # Errors
    ///
    /// Returns `HttpError::InvalidCookie` if the string is malformed.
    pub fn parse_set_cookie(s: &str) -> (r: Result<Self, HttpError>)
        ensures
            match read_set_cookie(s@) {
                Ok((n, v, a)) => r matches Ok(c) && c.name@ == n && c.value@ == v && attrs_of(c)
                    == a,
                Err(e) => r == Err::<Self, HttpError>(e),
            },
    {
        let cs = chars_of(s);
        let semi = [';'];
        let eq = ['='];
        assert(semi@ =~= seq![';']);
        assert(eq@ =~= seq!['=']);
        let parts = split_chars(cs.as_slice(), &semi);
        let ghost all = views(parts@);
        proof {
            crate::text::lemma_split_nonempty(cs@, seq![';']);
        }
        assert(all[0] == parts@[0]@);
        let (name, value) = match split_once_chars(parts[0].as_slice(), &eq) {
            Some(p) => p,
            None => return Err(HttpError::InvalidCookie),
        };
        let name = trim_chars(name.as_slice());
        if name.len() == 0 {
            return Err(HttpError::InvalidCookie);
        }
        let value = trim_chars(value.as_slice());
        let mut cookie = Cookie {
            name: string_of(name.as_slice()),
            value: string_of(value.as_slice()),
            path: None,
            domain: None,
            max_age: None,
            secure: false,
            http_only: false,
            same_site: None,
        };
        let ghost rest = all.drop_first();
        let mut i: usize = 1;
        assert(rest.take(0) =~= seq![]);
        while i < parts.len()
            invariant
                1 <= i <= parts@.len(),
                all == views(parts@),
                rest == all.drop_first(),
                cookie.name@ == name@,
                cookie.value@ == value@,
                attrs_of(cookie) == apply_attrs(no_attrs(), rest.take(i - 1)),
            decreases parts.len() - i,
        {
            assert(rest.take(i as int).drop_last() =~= rest.take(i - 1));
            assert(rest.take(i as int).last() == parts@[i as int]@);
            cookie.apply_part(parts[i].as_slice());
            i += 1;
        }
        assert(rest.take(i - 1) =~= rest);
        Ok(cookie)
    }

    /// Parses a `Cookie` request header into a list of name-value pairs.
    pub fn parse_cookie_header(s: &str) -> (r: Vec<(String, String)>)
        ensures
            r@.map_values(|p: (String, String)| (p.0@, p.1@)) == cookie_pairs(
                split(s@, seq![';']),
            ),
    {
        let cs = chars_of(s);
        let semi = [';'];
        let eq = ['='];
        assert(semi@ =~= seq![';']);
        assert(eq@ =~= seq!['=']);
        let parts = split_chars(cs.as_slice(), &semi);
        let ghost all = views(parts@);
        let mut out: Vec<(String, String)> = Vec::new();
        let mut i: usize = 0;
        assert(all.take(0) =~= seq![]);
        while i < parts.len()
            invariant
                i <= parts@.len(),
                all == views(parts@),
                eq@ == seq!['='],
                out@.map_values(|p: (String, String)| (p.0@, p.1@)) == cookie_pairs(
                    all.take(i as int),
                ),
            decreases parts.len() - i,
        {
            assert(all.take(i + 1).drop_last() =~= all.take(i as int));
            assert(all.take(i + 1).last() == parts@[i as int]@);
            let trimmed = trim_chars(parts[i].as_slice());
            let ghost before = out@.map_values(|p: (String, String)| (p.0@, p.1@));
            if let Some((k, v)) = split_once_chars(trimmed.as_slice(), &eq) {
                let k = string_of(trim_chars(k.as_slice()).as_slice());
                let v = string_of(trim_chars(v.as_slice()).as_slice());
                let ghost pair = (k@, v@);
                out.push((k, v));
                assert(out@.map_values(|p: (String, String)| (p.0@, p.1@)) =~= before.push(pair));
            }
            i += 1;
        }
        assert(all.take(i as int) =~= all);
        out
    }

    /// Serializes to `Set-Cookie` header value.
    #[verifier::rlimit(50)]
    pub fn to_set_cookie(&self) -> (r: String)
        ensures
            r@ == set_cookie_text(*self),
    {
        let mut out = String::new();
        push_str(&mut out, self.name.as_str());
        push_str(&mut out, "=");
        push_str(&mut out, self.value.as_str());
        let ghost t0 = out@;
        if let Some(path) = &self.path {
            push_str(&mut out, "; Path=");
            push_str(&mut out, path.as_str());
        }
        assert(out@ =~= t0 + opt_attr("; Path="@, opt_text(self.path)));
        let ghost t1 = out@;
        if let Some(domain) = &self.domain {
            push_str(&mut out, "; Domain=");
            push_str(&mut out, domain.as_str());
        }
        assert(out@ =~= t1 + opt_attr("; Domain="@, opt_text(self.domain)));
        let ghost t2 = out@;
        if let Some(max_age) = self.max_age {
            push_str(&mut out, "; Max-Age=");
            let digits = signed_decimal_of(max_age);
            push_chars(&mut out, digits.as_slice());
        }
        assert(out@ =~= t2 + opt_attr("; Max-Age="@, max_age_text(self.max_age)));
        let ghost t3 = out@;
        if self.secure {
            push_str(&mut out, "; Secure");
        }
        if self.http_only {
            push_str(&mut out, "; HttpOnly");
        }
        assert(out@ =~= t3 + (if self.secure {
            "; Secure"@
        } else {
            seq![]
        }) + (if self.http_only {
            "; HttpOnly"@
        } else {
            seq![]
        }));
        let ghost t4 = out@;
        if let Some(ss) = self.same_site {
            push_str(&mut out, "; SameSite=");
            push_str(&mut out, ss.as_str());
        }
        assert(out@ =~= t4 + opt_attr("; SameSite="@, same_site_text(self.same_site)));
        out
    }
}

// ---------------------------------------------------------------------------
// A written cookie reads back
// ---------------------------------------------------------------------------

/// Text that reads back unchanged as a cookie field: no `;`, and no
/// surrounding whitespace.
pub open spec fn plain_field(s: Seq<char>) -> bool {
    !s.contains(';') && trim(s) == s
}

/// An optional field that reads back unchanged.
pub open spec fn plain_opt(o: Option<String>) -> bool {
    match o {
        Some(s) => plain_field(s@),
        None => true,
    }
}

/// A cookie that its `Set-Cookie` text gives back: a name that is not
/// empty and holds no `=`, and name, value, path and domain without `;` or
/// surrounding whitespace.
pub open spec fn plain_cookie(c: Cookie) -> bool {
    &&& c.name@.len() > 0
    &&& !c.name@.contains('=')
    &&& plain_field(c.name@)
    &&& plain_field(c.value@)
    &&& plain_opt(c.path)
    &&& plain_opt(c.domain)
}

/// Parts, each after a `;`.
pub open spec fn semi_parts(ps: Seq<Seq<char>>) -> Seq<char>
    decreases ps.len(),
{
    if ps.len() == 0 {
        seq![]
    } else {
        seq![';'] + ps[0] + semi_parts(ps.drop_first())
    }
}

/// The attribute part ` Word=value`, if there is a value.
pub open spec fn opt_part(word: Seq<char>, v: Option<Seq<char>>) -> Seq<Seq<char>> {
    match v {
        Some(x) => seq![seq![' '] + word + seq!['='] + x],
        None => seq![],
    }
}

/// The flag part ` Word`, if the flag is set.
pub open spec fn flag_part(flag: bool, word: Seq<char>) -> Seq<Seq<char>> {
    if flag {
        seq![seq![' '] + word]
    } else {
        seq![]
    }
}

/// The attribute parts that `to_set_cookie` writes, each after a `;`.
pub open spec fn attr_parts(c: Cookie) -> Seq<Seq<char>> {
    opt_part("Path"@, opt_text(c.path)) + opt_part("Domain"@, opt_text(c.domain)) + opt_part(
        "Max-Age"@,
        max_age_text(c.max_age),
    ) + flag_part(c.secure, "Secure"@) + flag_part(c.http_only, "HttpOnly"@) + opt_part(
        "SameSite"@,
        same_site_text(c.same_site),
    )
}

/// Parts of two runs, each after a `;`.
proof fn lemma_semi_parts_concat(a: Seq<Seq<char>>, b: Seq<Seq<char>>)
    ensures
        semi_parts(a + b) == semi_parts(a) + semi_parts(b),
    decreases a.len(),
{
    if a.len() == 0 {
        assert(a + b =~= b);
        assert(semi_parts(a) + semi_parts(b) =~= semi_parts(b));
    } else {
        assert((a + b).drop_first() =~= a.drop_first() + b);
        assert((a + b)[0] == a[0]);
        lemma_semi_parts_concat(a.drop_first(), b);
        assert(semi_parts(a + b) =~= semi_parts(a) + semi_parts(b));
    }
}

/// One part after a `;`.
proof fn lemma_semi_one(x: Seq<char>)
    ensures
        semi_parts(seq![x]) == seq![';'] + x,
{
    let ps = seq![x];
    assert(ps[0] == x);
    assert(ps.drop_first() =~= Seq::<Seq<char>>::empty());
    assert(semi_parts(ps.drop_first()) == Seq::<char>::empty());
    assert(semi_parts(ps) =~= seq![';'] + x);
}

/// The labels that `to_set_cookie` writes: `; `, the word, and `=` for a
/// valued attribute.
proof fn lemma_labels()
    ensures
        "; Path="@ == seq![';', ' '] + "Path"@ + seq!['='],
        "; Domain="@ == seq![';', ' '] + "Domain"@ + seq!['='],
        "; Max-Age="@ == seq![';', ' '] + "Max-Age"@ + seq!['='],
        "; SameSite="@ == seq![';', ' '] + "SameSite"@ + seq!['='],
        "; Secure"@ == seq![';', ' '] + "Secure"@,
        "; HttpOnly"@ == seq![';', ' '] + "HttpOnly"@,
        "="@ == seq!['='],
{
    reveal_strlit("; Path=");
    reveal_strlit("Path");
    reveal_strlit("; Domain=");
    reveal_strlit("Domain");
    reveal_strlit("; Max-Age=");
    reveal_strlit("Max-Age");
    reveal_strlit("; SameSite=");
    reveal_strlit("SameSite");
    reveal_strlit("; Secure");
    reveal_strlit("Secure");
    reveal_strlit("; HttpOnly");
    reveal_strlit("HttpOnly");
    reveal_strlit("=");
    assert("; Path="@ =~= seq![';', ' '] + "Path"@ + seq!['=']);
    assert("; Domain="@ =~= seq![';', ' '] + "Domain"@ + seq!['=']);
    assert("; Max-Age="@ =~= seq![';', ' '] + "Max-Age"@ + seq!['=']);
    assert("; SameSite="@ =~= seq![';', ' '] + "SameSite"@ + seq!['=']);
    assert("; Secure"@ =~= seq![';', ' '] + "Secure"@);
    assert("; HttpOnly"@ =~= seq![';', ' '] + "HttpOnly"@);
    assert("="@ =~= seq!['=']);
}

/// An optional valued part, after a `;`, is the attribute text written for it.
proof fn lemma_semi_opt(word: Seq<char>, label: Seq<char>, v: Option<Seq<char>>)
    requires
        label == seq![';', ' '] + word + seq!['='],
    ensures
        semi_parts(opt_part(word, v)) == opt_attr(label, v),
{
    if let Some(x) = v {
        lemma_semi_one(seq![' '] + word + seq!['='] + x);
        assert(semi_parts(opt_part(word, v)) =~= opt_attr(label, v));
    } else {
        assert(opt_part(word, v) =~= Seq::<Seq<char>>::empty());
    }
}

/// A flag part, after a `;`, is the flag text written for it.
proof fn lemma_semi_flag(flag: bool, word: Seq<char>, label: Seq<char>)
    requires
        label == seq![';', ' '] + word,
    ensures
        semi_parts(flag_part(flag, word)) == if flag {
            label
        } else {
            Seq::<char>::empty()
        },
{
    if flag {
        lemma_semi_one(seq![' '] + word);
        assert(semi_parts(flag_part(flag, word)) =~= label);
    } else {
        assert(flag_part(flag, word) =~= Seq::<Seq<char>>::empty());
    }
}

/// The `Set-Cookie` text is `name=value`, then the attribute parts.
proof fn lemma_text_parts(c: Cookie)
    ensures
        set_cookie_text(c) == c.name@ + seq!['='] + c.value@ + semi_parts(attr_parts(c)),
{
    lemma_labels();
    let p1 = opt_part("Path"@, opt_text(c.path));
    let p2 = opt_part("Domain"@, opt_text(c.domain));
    let p3 = opt_part("Max-Age"@, max_age_text(c.max_age));
    let p4 = flag_part(c.secure, "Secure"@);
    let p5 = flag_part(c.http_only, "HttpOnly"@);
    let p6 = opt_part("SameSite"@, same_site_text(c.same_site));
    lemma_semi_opt("Path"@, "; Path="@, opt_text(c.path));
    lemma_semi_opt("Domain"@, "; Domain="@, opt_text(c.domain));
    lemma_semi_opt("Max-Age"@, "; Max-Age="@, max_age_text(c.max_age));
    lemma_semi_flag(c.secure, "Secure"@, "; Secure"@);
    lemma_semi_flag(c.http_only, "HttpOnly"@, "; HttpOnly"@);
    lemma_semi_opt("SameSite"@, "; SameSite="@, same_site_text(c.same_site));
    lemma_semi_parts_concat(p1, p2);
    lemma_semi_parts_concat(p1 + p2, p3);
    lemma_semi_parts_concat(p1 + p2 + p3, p4);
    lemma_semi_parts_concat(p1 + p2 + p3 + p4, p5);
    lemma_semi_parts_concat(p1 + p2 + p3 + p4 + p5, p6);
    let s1 = semi_parts(p1);
    let s2 = semi_parts(p2);
    let s3 = semi_parts(p3);
    let s4 = semi_parts(p4);
    let s5 = semi_parts(p5);
    let s6 = semi_parts(p6);
    let head = c.name@ + seq!['='] + c.value@;
    assert(set_cookie_text(c) == head + s1 + s2 + s3 + s4 + s5 + s6);
    lemma_concat_associative(head, s1, s2);
    lemma_concat_associative(head, s1 + s2, s3);
    lemma_concat_associative(head, s1 + s2 + s3, s4);
    lemma_concat_associative(head, s1 + s2 + s3 + s4, s5);
    lemma_concat_associative(head, s1 + s2 + s3 + s4 + s5, s6);
}


/// Applying parts in two runs.
proof fn lemma_apply_attrs_concat(a: CookieAttrs, xs: Seq<Seq<char>>, ys: Seq<Seq<char>>)
    ensures
        apply_attrs(a, xs + ys) == apply_attrs(apply_attrs(a, xs), ys),
    decreases ys.len(),
{
    if ys.len() == 0 {
        assert(xs + ys =~= xs);
    } else {
        assert((xs + ys).drop_last() =~= xs + ys.drop_last());
        assert((xs + ys).last() == ys.last());
        lemma_apply_attrs_concat(a, xs, ys.drop_last());
    }
}

/// Applying no part, or one.
proof fn lemma_apply_attrs_few(a: CookieAttrs, x: Seq<char>)
    ensures
        apply_attrs(a, Seq::<Seq<char>>::empty()) == a,
        apply_attrs(a, seq![x]) == apply_attr(a, x),
{
    assert(seq![x].drop_last() =~= Seq::<Seq<char>>::empty());
}

/// A part ` Word=value` applied, where the word is not `Secure` or
/// `HttpOnly` and holds no `=`, and the value has no surrounding
/// whitespace: the attribute that the word names is set to the value.
proof fn lemma_apply_valued(a: CookieAttrs, w: Seq<char>, v: Seq<char>)
    requires
        w.len() >= 2,
        !is_whitespace(w[0]),
        !is_whitespace(w.last()),
        !w.contains('='),
        lower(w[0]) != 'h',
        lower(w[0]) != 's' || lower(w[1]) != 'e',
        trim(v) == v,
    ensures
        apply_attr(a, seq![' '] + w + seq!['='] + v) == set_attr(a, lower_all(w), v),
{
    reveal_strlit("secure");
    reveal_strlit("httponly");
    let t = w + seq!['='] + v;
    let x = seq![' '] + t;
    assert(seq![' '] + w + seq!['='] + v =~= x);
    assert(x.drop_first() =~= t);
    lemma_trim_fixed(v);
    lemma_trim_fixed(w);
    assert(t[0] == w[0]);
    assert(v.len() > 0 ==> t.last() == v.last());
    lemma_trim_fixed(t);
    assert(trim(x) == t);
    let l = lower_all(t);
    assert(l[0] == lower(w[0]));
    assert(l[1] == lower(w[1]));
    assert(l != "secure"@) by {
        if l == "secure"@ {
            assert("secure"@[0] == 's' && "secure"@[1] == 'e');
        }
    }
    assert(l != "httponly"@) by {
        if l == "httponly"@ {
            assert("httponly"@[0] == 'h');
        }
    }
    let n = w.len() as int;
    assert(t.subrange(n, n + 1) =~= seq!['=']);
    assert forall|j: int| 0 <= j < n implies #[trigger] t.subrange(j, j + 1) != seq!['='] by {
        if t.subrange(j, j + 1) == seq!['='] {
            assert(t.subrange(j, j + 1)[0] == w[j]);
            assert(w.contains('='));
        }
    }
    lemma_find_first(t, seq!['='], 0, n);
    assert(t.take(n) =~= w);
    assert(t.skip(n + 1) =~= v);
}

/// The parts that `to_set_cookie` writes set their attributes.
proof fn lemma_apply_written(a: CookieAttrs, c: Cookie)
    requires
        plain_opt(c.path),
        plain_opt(c.domain),
    ensures
        apply_attrs(a, opt_part("Path"@, opt_text(c.path))) == (CookieAttrs {
            path: if c.path is Some {
                opt_text(c.path)
            } else {
                a.path
            },
            ..a
        }),
        apply_attrs(a, opt_part("Domain"@, opt_text(c.domain))) == (CookieAttrs {
            domain: if c.domain is Some {
                opt_text(c.domain)
            } else {
                a.domain
            },
            ..a
        }),
        apply_attrs(a, opt_part("Max-Age"@, max_age_text(c.max_age))) == (CookieAttrs {
            max_age: if c.max_age is Some {
                c.max_age
            } else {
                a.max_age
            },
            ..a
        }),
        apply_attrs(a, flag_part(c.secure, "Secure"@)) == (CookieAttrs {
            secure: c.secure || a.secure,
            ..a
        }),
        apply_attrs(a, flag_part(c.http_only, "HttpOnly"@)) == (CookieAttrs {
            http_only: c.http_only || a.http_only,
            ..a
        }),
        apply_attrs(a, opt_part("SameSite"@, same_site_text(c.same_site))) == (CookieAttrs {
            same_site: if c.same_site is Some {
                c.same_site
            } else {
                a.same_site
            },
            ..a
        }),
{
    reveal_strlit("Path");
    reveal_strlit("path");
    reveal_strlit("Domain");
    reveal_strlit("domain");
    reveal_strlit("Max-Age");
    reveal_strlit("max-age");
    reveal_strlit("SameSite");
    reveal_strlit("samesite");
    reveal_strlit("Secure");
    reveal_strlit("secure");
    reveal_strlit("HttpOnly");
    reveal_strlit("httponly");
    assert(lower_all("Path"@) =~= "path"@);
    assert(lower_all("Domain"@) =~= "domain"@);
    assert(lower_all("Max-Age"@) =~= "max-age"@);
    assert(lower_all("SameSite"@) =~= "samesite"@);
    assert(lower_all("Secure"@) =~= "secure"@);
    assert(lower_all("HttpOnly"@) =~= "httponly"@);
    if let Some(p) = c.path {
        lemma_apply_attrs_few(a, seq![' '] + "Path"@ + seq!['='] + p@);
        lemma_apply_valued(a, "Path"@, p@);
    } else {
        lemma_apply_attrs_few(a, seq![]);
    }
    if let Some(d) = c.domain {
        lemma_apply_attrs_few(a, seq![' '] + "Domain"@ + seq!['='] + d@);
        lemma_apply_valued(a, "Domain"@, d@);
    } else {
        lemma_apply_attrs_few(a, seq![]);
    }
    if let Some(m) = c.max_age {
        let v = signed_decimal(m as int);
        lemma_signed_decimal_read(m);
        lemma_trim_fixed(v);
        lemma_apply_attrs_few(a, seq![' '] + "Max-Age"@ + seq!['='] + v);
        lemma_apply_valued(a, "Max-Age"@, v);
    } else {
        lemma_apply_attrs_few(a, seq![]);
    }
    if let Some(x) = c.same_site {
        reveal_strlit("Strict");
        reveal_strlit("Lax");
        reveal_strlit("None");
        reveal_strlit("strict");
        reveal_strlit("lax");
        reveal_strlit("none");
        let v = x.text();
        lemma_trim_fixed(v);
        assert(lower_all("Strict"@) =~= "strict"@);
        assert(lower_all("Lax"@) =~= "lax"@);
        assert(lower_all("None"@) =~= "none"@);
        lemma_apply_attrs_few(a, seq![' '] + "SameSite"@ + seq!['='] + v);
        lemma_apply_valued(a, "SameSite"@, v);
    } else {
        lemma_apply_attrs_few(a, seq![]);
    }
    let xs = seq![' '] + "Secure"@;
    let xh = seq![' '] + "HttpOnly"@;
    assert(xs.drop_first() =~= "Secure"@);
    assert(xh.drop_first() =~= "HttpOnly"@);
    lemma_trim_fixed("Secure"@);
    lemma_trim_fixed("HttpOnly"@);
    assert(trim(xs) == "Secure"@);
    assert(trim(xh) == "HttpOnly"@);
    lemma_apply_attrs_few(a, xs);
    lemma_apply_attrs_few(a, xh);
}


/// No part holds a `;`.
pub open spec fn no_semi(ps: Seq<Seq<char>>) -> bool {
    forall|i: int| 0 <= i < ps.len() ==> !(#[trigger] ps[i]).contains(';')
}

/// Two texts without `;` joined hold none.
proof fn lemma_no_semi_text(a: Seq<char>, b: Seq<char>)
    requires
        !a.contains(';'),
        !b.contains(';'),
    ensures
        !(a + b).contains(';'),
{
    if (a + b).contains(';') {
        let k = choose|k: int| 0 <= k < (a + b).len() && (a + b)[k] == ';';
        if k < a.len() {
            assert(a[k] == ';');
        } else {
            assert(b[k - a.len()] == ';');
        }
    }
}

/// Two runs of parts without `;` joined hold none.
proof fn lemma_no_semi_concat(a: Seq<Seq<char>>, b: Seq<Seq<char>>)
    requires
        no_semi(a),
        no_semi(b),
    ensures
        no_semi(a + b),
{
    assert forall|i: int| 0 <= i < (a + b).len() implies !(#[trigger] (a + b)[i]).contains(';') by {
        if i < a.len() {
            assert((a + b)[i] == a[i]);
        } else {
            assert((a + b)[i] == b[i - a.len()]);
        }
    }
}

/// A valued part made of texts without `;` holds none.
proof fn lemma_no_semi_opt(w: Seq<char>, v: Option<Seq<char>>)
    requires
        !w.contains(';'),
        v matches Some(x) ==> !x.contains(';'),
    ensures
        no_semi(opt_part(w, v)),
{
    if let Some(x) = v {
        assert(!seq![' '].contains(';'));
        assert(!seq!['='].contains(';'));
        lemma_no_semi_text(seq![' '], w);
        lemma_no_semi_text(seq![' '] + w, seq!['=']);
        lemma_no_semi_text(seq![' '] + w + seq!['='], x);
        assert(opt_part(w, v)[0] == seq![' '] + w + seq!['='] + x);
    }
}

/// A flag part made of a word without `;` holds none.
proof fn lemma_no_semi_flag(flag: bool, w: Seq<char>)
    requires
        !w.contains(';'),
    ensures
        no_semi(flag_part(flag, w)),
{
    assert(!seq![' '].contains(';'));
    lemma_no_semi_text(seq![' '], w);
    if flag {
        assert(flag_part(flag, w)[0] == seq![' '] + w);
    }
}

/// No part that `to_set_cookie` writes holds a `;`.
proof fn lemma_attr_parts_no_semi(c: Cookie)
    requires
        plain_opt(c.path),
        plain_opt(c.domain),
    ensures
        no_semi(attr_parts(c)),
{
    reveal_strlit("Path");
    reveal_strlit("Domain");
    reveal_strlit("Max-Age");
    reveal_strlit("SameSite");
    reveal_strlit("Secure");
    reveal_strlit("HttpOnly");
    reveal_strlit("Strict");
    reveal_strlit("Lax");
    reveal_strlit("None");
    let p1 = opt_part("Path"@, opt_text(c.path));
    let p2 = opt_part("Domain"@, opt_text(c.domain));
    let p3 = opt_part("Max-Age"@, max_age_text(c.max_age));
    let p4 = flag_part(c.secure, "Secure"@);
    let p5 = flag_part(c.http_only, "HttpOnly"@);
    let p6 = opt_part("SameSite"@, same_site_text(c.same_site));
    lemma_no_semi_opt("Path"@, opt_text(c.path));
    lemma_no_semi_opt("Domain"@, opt_text(c.domain));
    if let Some(m) = c.max_age {
        lemma_signed_decimal_read(m);
        let v = signed_decimal(m as int);
        if v.contains(';') {
            let k = choose|k: int| 0 <= k < v.len() && v[k] == ';';
            assert('0' <= v[k] <= '9' || v[k] == '-');
        }
    }
    lemma_no_semi_opt("Max-Age"@, max_age_text(c.max_age));
    lemma_no_semi_flag(c.secure, "Secure"@);
    lemma_no_semi_flag(c.http_only, "HttpOnly"@);
    lemma_no_semi_opt("SameSite"@, same_site_text(c.same_site));
    lemma_no_semi_concat(p1, p2);
    lemma_no_semi_concat(p1 + p2, p3);
    lemma_no_semi_concat(p1 + p2 + p3, p4);
    lemma_no_semi_concat(p1 + p2 + p3 + p4, p5);
    lemma_no_semi_concat(p1 + p2 + p3 + p4 + p5, p6);
}

/// Text without `;`, then parts without `;`, each after a `;`, splits back.
proof fn lemma_split_semi(x: Seq<char>, ps: Seq<Seq<char>>)
    requires
        !x.contains(';'),
        no_semi(ps),
    ensures
        split(x + semi_parts(ps), seq![';']) == seq![x] + ps,
    decreases ps.len(),
{
    let s = x + semi_parts(ps);
    let n = x.len() as int;
    if ps.len() == 0 {
        assert(s =~= x);
        lemma_find_from(s, seq![';'], 0);
        if find(s, seq![';']) is Some {
            let i = find(s, seq![';'])->0;
            assert(s.subrange(i, i + 1)[0] == x[i]);
        }
        assert(split(s, seq![';']) =~= seq![x] + ps);
    } else {
        let rest = ps.drop_first();
        assert(no_semi(rest)) by {
            assert forall|i: int| 0 <= i < rest.len() implies !(#[trigger] rest[i]).contains(';') by {
                assert(rest[i] == ps[i + 1]);
            }
        }
        assert(!ps[0].contains(';'));
        lemma_split_semi(ps[0], rest);
        assert(s.subrange(n, n + 1) =~= seq![';']);
        assert forall|j: int| 0 <= j < n implies #[trigger] s.subrange(j, j + 1) != seq![';'] by {
            if s.subrange(j, j + 1) == seq![';'] {
                assert(s.subrange(j, j + 1)[0] == x[j]);
            }
        }
        lemma_find_first(s, seq![';'], 0, n);
        assert(s.take(n) =~= x);
        assert(s.skip(n + 1) =~= ps[0] + semi_parts(rest));
        assert(split(s, seq![';']) =~= seq![x] + ps);
    }
}

/// A cookie reads back from its `Set-Cookie` text as the same cookie,
/// whenever its fields can be told apart there: a name that is not empty
/// and holds no `=`, and name, value, path and domain without `;` or
/// surrounding whitespace.
pub proof fn set_cookie_roundtrip(c: Cookie)
    requires
        plain_cookie(c),
    ensures
        read_set_cookie(set_cookie_text(c)) == Ok::<
            (Seq<char>, Seq<char>, CookieAttrs),
            HttpError,
        >((c.name@, c.value@, attrs_of(c))),
{
    lemma_text_parts(c);
    lemma_attr_parts_no_semi(c);
    let x = c.name@ + seq!['='] + c.value@;
    assert(!seq!['='].contains(';'));
    lemma_no_semi_text(c.name@, seq!['=']);
    lemma_no_semi_text(c.name@ + seq!['='], c.value@);
    let ps = attr_parts(c);
    lemma_split_semi(x, ps);
    let parts = split(set_cookie_text(c), seq![';']);
    assert(parts[0] == x);
    assert(parts.drop_first() =~= ps);
    let n = c.name@.len() as int;
    assert(x.subrange(n, n + 1) =~= seq!['=']);
    assert forall|j: int| 0 <= j < n implies #[trigger] x.subrange(j, j + 1) != seq!['='] by {
        if x.subrange(j, j + 1) == seq!['='] {
            assert(x.subrange(j, j + 1)[0] == c.name@[j]);
        }
    }
    lemma_find_first(x, seq!['='], 0, n);
    assert(x.take(n) =~= c.name@);
    assert(x.skip(n + 1) =~= c.value@);
    let p1 = opt_part("Path"@, opt_text(c.path));
    let p2 = opt_part("Domain"@, opt_text(c.domain));
    let p3 = opt_part("Max-Age"@, max_age_text(c.max_age));
    let p4 = flag_part(c.secure, "Secure"@);
    let p5 = flag_part(c.http_only, "HttpOnly"@);
    let p6 = opt_part("SameSite"@, same_site_text(c.same_site));
    let a0 = no_attrs();
    lemma_apply_attrs_concat(a0, p1, p2);
    lemma_apply_attrs_concat(a0, p1 + p2, p3);
    lemma_apply_attrs_concat(a0, p1 + p2 + p3, p4);
    lemma_apply_attrs_concat(a0, p1 + p2 + p3 + p4, p5);
    lemma_apply_attrs_concat(a0, p1 + p2 + p3 + p4 + p5, p6);
    let a1 = apply_attrs(a0, p1);
    lemma_apply_written(a0, c);
    let a2 = apply_attrs(a1, p2);
    lemma_apply_written(a1, c);
    let a3 = apply_attrs(a2, p3);
    lemma_apply_written(a2, c);
    let a4 = apply_attrs(a3, p4);
    lemma_apply_written(a3, c);
    let a5 = apply_attrs(a4, p5);
    lemma_apply_written(a4, c);
    lemma_apply_written(a5, c);
    assert(apply_attrs(a5, p6) == attrs_of(c));
}

/// The `SameSite` attribute is read in any case, its name and its value: a
/// part ` SameSite=v` (the name in any case, the value without surrounding
/// whitespace) sets `SameSite` to `Strict`, `Lax` or `None` where `v` is
/// `strict`, `lax` or `none` in any case, and clears it for any other value.
pub proof fn same_site_any_case(a: CookieAttrs, word: Seq<char>, v: Seq<char>)
    requires
        lower_all(word) == "samesite"@,
        trim(v) == v,
    ensures
        apply_attr(a, seq![' '] + word + seq!['='] + v).same_site == if lower_all(v)
            == "strict"@ {
            Some(SameSite::Strict)
        } else if lower_all(v) == "lax"@ {
            Some(SameSite::Lax)
        } else if lower_all(v) == "none"@ {
            Some(SameSite::Unrestricted)
        } else {
            None
        },
{
    reveal_strlit("samesite");
    reveal_strlit("strict");
    reveal_strlit("lax");
    reveal_strlit("none");
    reveal_strlit("path");
    reveal_strlit("domain");
    reveal_strlit("max-age");
    let l = lower_all(word);
    assert(l.len() == word.len());
    assert("samesite"@.len() == 8);
    assert(word.len() == 8);
    assert forall|i: int| 0 <= i < 8 implies #[trigger] lower(word[i]) == "samesite"@[i] by {
        assert(l[i] == lower(word[i]));
    }
    assert forall|i: int| 0 <= i < 8 implies ('a' <= #[trigger] word[i] <= 'z' || 'A' <= word[i]
        <= 'Z') by {
        let c = word[i];
        assert('a' <= lower(c) <= 'z');
        if !('A' <= c <= 'Z') {
            assert(lower(c) == c);
        }
    }
    assert(word.last() == word[7]);
    if word.contains('=') {
        let k = choose|k: int| 0 <= k < word.len() && word[k] == '=';
        assert('a' <= word[k] <= 'z' || 'A' <= word[k] <= 'Z');
    }
    lemma_apply_valued(a, word, v);
    assert(l != "path"@ && l != "domain"@ && l != "max-age"@);
}

/// The attribute names that set each field (in lower case), and the text of
/// each `SameSite` value.
pub proof fn cookie_attribute_names(a: CookieAttrs, v: Seq<char>)
    ensures
        set_attr(a, "path"@, v) == (CookieAttrs { path: Some(v), ..a }),
        set_attr(a, "domain"@, v) == (CookieAttrs { domain: Some(v), ..a }),
        set_attr(a, "max-age"@, v) == (CookieAttrs { max_age: max_age_of(v), ..a }),
        set_attr(a, "samesite"@, v) == (CookieAttrs {
            same_site: same_site_named(lower_all(v)),
            ..a
        }),
        SameSite::Strict.text() == "Strict"@,
        SameSite::Lax.text() == "Lax"@,
        SameSite::Unrestricted.text() == "None"@,
{
    reveal_strlit("path");
    reveal_strlit("domain");
    reveal_strlit("max-age");
    reveal_strlit("samesite");
    assert("domain"@.len() != "max-age"@.len());
    assert("domain"@.len() != "path"@.len());
    assert("domain"@.len() != "samesite"@.len());
    assert("max-age"@.len() != "path"@.len());
    assert("max-age"@.len() != "samesite"@.len());
    assert("path"@.len() != "samesite"@.len());
}

} // verus!
