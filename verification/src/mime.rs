//! `MediaType`: MIME types with their parameters.
use vstd::prelude::*;
use crate::error::HttpError;
use crate::headers::{Entry, set_entry};
use crate::params::ParamMap;
use crate::text::{
    chars_eq_str, chars_of, lower_all, lower_chars, push_str, split, split_chars, split_once,
    split_once_chars, string_of, trim, trim_chars, views,
};

verus! {

/// An HTTP media type (MIME type).
#[derive(Debug, Clone)]
pub struct MediaType {
    pub main_type: String,
    pub sub_type: String,
    pub params: ParamMap,
}

/// `s` without leading double quotes.
pub open spec fn strip_quotes_start(s: Seq<char>) -> Seq<char>
    decreases s.len(),
{
    if s.len() > 0 && s[0] == '"' {
        strip_quotes_start(s.drop_first())
    } else {
        s
    }
}

/// `s` without trailing double quotes.
pub open spec fn strip_quotes_end(s: Seq<char>) -> Seq<char>
    decreases s.len(),
{
    if s.len() > 0 && s.last() == '"' {
        strip_quotes_end(s.drop_last())
    } else {
        s
    }
}

/// `s` without surrounding double quotes, as `str::trim_matches('"')` gives it.
pub open spec fn strip_quotes(s: Seq<char>) -> Seq<char> {
    strip_quotes_end(strip_quotes_start(s))
}

/// The parameters of a media type, part by part (parts are separated by
/// `;`): a trimmed part `name=value` sets the lower-case trimmed name to the
/// trimmed value without surrounding quotes; other parts are ignored.
pub open spec fn media_params(parts: Seq<Seq<char>>) -> Seq<Entry>
    decreases parts.len(),
{
    if parts.len() == 0 {
        seq![]
    } else {
        let m = media_params(parts.drop_last());
        match split_once(trim(parts.last()), seq!['=']) {
            Some((k, v)) => set_entry(m, lower_all(trim(k)), strip_quotes(trim(v))),
            None => m,
        }
    }
}

/// The media type an extension (in any case) stands for.
pub open spec fn extension_type(ext: Seq<char>) -> Seq<char> {
    let e = lower_all(ext);
        if e == "html"@ || e == "htm"@ {
            "text/html"@
        } else if e == "css"@ {
            "text/css"@
        } else if e == "js"@ || e == "mjs"@ {
            "text/javascript"@
        } else if e == "json"@ {
            "application/json"@
        } else if e == "xml"@ {
            "application/xml"@
        } else if e == "txt"@ {
            "text/plain"@
        } else if e == "png"@ {
            "image/png"@
        } else if e == "jpg"@ || e == "jpeg"@ {
            "image/jpeg"@
        } else if e == "gif"@ {
            "image/gif"@
        } else if e == "webp"@ {
            "image/webp"@
        } else if e == "svg"@ {
            "image/svg+xml"@
        } else if e == "mp3"@ {
            "audio/mpeg"@
        } else if e == "mp4"@ {
            "video/mp4"@
        } else {
            "application/octet-stream"@
        }
}

/// The parameters as text: `; name=value` for each.
pub open spec fn params_text(entries: Seq<Entry>) -> Seq<char>
    decreases entries.len(),
{
    if entries.len() == 0 {
        seq![]
    } else {
        params_text(entries.drop_last()) + "; "@ + entries.last().0 + "="@ + entries.last().1
    }
}

/// `s` without surrounding double quotes.
fn strip_quotes_chars(s: &[char]) -> (r: Vec<char>)
    ensures
        r@ == strip_quotes(s@),
{
    let mut lo: usize = 0;
    assert(s@.skip(0) =~= s@);
    while lo < s.len() && s[lo] == '"'
        invariant
            lo <= s@.len(),
            strip_quotes_start(s@) == strip_quotes_start(s@.skip(lo as int)),
        decreases s.len() - lo,
    {
        assert(s@.skip(lo as int).drop_first() =~= s@.skip(lo + 1));
        lo += 1;
    }
    let ghost t = s@.skip(lo as int);
    assert(strip_quotes_start(t) == t);
    let mut hi: usize = s.len();
    while hi > lo && s[hi - 1] == '"'
        invariant
            lo <= hi <= s@.len(),
            t == s@.skip(lo as int),
            strip_quotes_end(t) == strip_quotes_end(s@.subrange(lo as int, hi as int)),
        decreases hi,
    {
        assert(s@.subrange(lo as int, hi as int).drop_last() =~= s@.subrange(
            lo as int,
            hi - 1,
        ));
        hi -= 1;
    }
    assert(t =~= s@.subrange(lo as int, s@.len() as int));
    crate::text::slice_chars(s, lo, hi)
}

impl MediaType {
    pub const TEXT_PLAIN: &'static str = "text/plain";
    pub const TEXT_HTML: &'static str = "text/html";
    pub const TEXT_CSS: &'static str = "text/css";
    pub const TEXT_JAVASCRIPT: &'static str = "text/javascript";
    pub const APPLICATION_JSON: &'static str = "application/json";
    pub const APPLICATION_XML: &'static str = "application/xml";
    pub const APPLICATION_OCTET_STREAM: &'static str = "application/octet-stream";
    pub const APPLICATION_FORM_URLENCODED: &'static str = "application/x-www-form-urlencoded";
    pub const MULTIPART_FORM_DATA: &'static str = "multipart/form-data";
    pub const IMAGE_PNG: &'static str = "image/png";
    pub const IMAGE_JPEG: &'static str = "image/jpeg";
    pub const IMAGE_GIF: &'static str = "image/gif";
    pub const IMAGE_WEBP: &'static str = "image/webp";
    pub const IMAGE_SVG: &'static str = "image/svg+xml";
    pub const AUDIO_MPEG: &'static str = "audio/mpeg";
    pub const VIDEO_MP4: &'static str = "video/mp4";

    /// Parses a media type string (e.g. `text/html; charset=utf-8`).
    ///
    /// # Errors
    ///
    /// Returns `HttpError::InvalidMediaType` if the string is malformed.
    pub fn parse(s: &str) -> (r: Result<Self, HttpError>)
        ensures
            ({
                let parts = split(s@, seq![';']);
                match split_once(trim(parts[0]), seq!['/']) {
                    None => r == Err::<Self, HttpError>(HttpError::InvalidMediaType),
                    Some((main, sub)) => if main.len() == 0 || sub.len() == 0 {
                        r == Err::<Self, HttpError>(HttpError::InvalidMediaType)
                    } else {
                        r matches Ok(m) && m.main_type@ == lower_all(main) && m.sub_type@
                            == lower_all(sub) && m.params@ == media_params(parts.drop_first())
                    },
                }
            }),
    {
        let cs = chars_of(s);
        let semi = [';'];
        let slash = ['/'];
        let eq = ['='];
        assert(semi@ =~= seq![';']);
        assert(slash@ =~= seq!['/']);
        assert(eq@ =~= seq!['=']);
        let parts = split_chars(cs.as_slice(), &semi);
        let ghost all = views(parts@);
        proof {
            crate::text::lemma_split_nonempty(cs@, seq![';']);
        }
        assert(all[0] == parts@[0]@);
        let type_part = trim_chars(parts[0].as_slice());
        let (main, sub) = match split_once_chars(type_part.as_slice(), &slash) {
            Some(p) => p,
            None => return Err(HttpError::InvalidMediaType),
        };
        if main.len() == 0 || sub.len() == 0 {
            return Err(HttpError::InvalidMediaType);
        }
        let mut params = ParamMap::new();
        let ghost rest = all.drop_first();
        let mut i: usize = 1;
        assert(rest.take(0) =~= seq![]);
        while i < parts.len()
            invariant
                1 <= i <= parts@.len(),
                all == views(parts@),
                rest == all.drop_first(),
                eq@ == seq!['='],
                params@ == media_params(rest.take(i - 1)),
            decreases parts.len() - i,
        {
            assert(rest.take(i as int).drop_last() =~= rest.take(i - 1));
            assert(rest.take(i as int).last() == parts@[i as int]@);
            let trimmed = trim_chars(parts[i].as_slice());
            if let Some((k, v)) = split_once_chars(trimmed.as_slice(), &eq) {
                let key = lower_chars(trim_chars(k.as_slice()).as_slice());
                let val = strip_quotes_chars(trim_chars(v.as_slice()).as_slice());
                params.insert(string_of(key.as_slice()), string_of(val.as_slice()));
            }
            i += 1;
        }
        assert(rest.take(i - 1) =~= rest);
        Ok(MediaType {
            main_type: string_of(lower_chars(main.as_slice()).as_slice()),
            sub_type: string_of(lower_chars(sub.as_slice()).as_slice()),
            params,
        })
    }

    /// Returns the full MIME type string (without parameters).
    pub fn essence(&self) -> (r: String)
        ensures
            r@ == self.main_type@ + "/"@ + self.sub_type@,
    {
        let mut r = String::new();
        push_str(&mut r, self.main_type.as_str());
        push_str(&mut r, "/");
        push_str(&mut r, self.sub_type.as_str());
        r
    }

    /// Returns the charset parameter, if present.
    pub fn charset(&self) -> (r: Option<&str>)
        ensures
            match crate::headers::lookup(self.params@, "charset"@) {
                Some(v) => r matches Some(s) && s@ == v,
                None => r is None,
            },
    {
        match self.params.get("charset") {
            Some(v) => Some(v.as_str()),
            None => None,
        }
    }

    /// Guesses a MIME type from a file extension.
    pub fn from_extension(ext: &str) -> (r: &'static str)
        ensures
            r@ == extension_type(ext@),
    {
        let lower = lower_chars(chars_of(ext).as_slice());
        let e = lower.as_slice();
        if chars_eq_str(e, "html") || chars_eq_str(e, "htm") {
            "text/html"
        } else if chars_eq_str(e, "css") {
            "text/css"
        } else if chars_eq_str(e, "js") || chars_eq_str(e, "mjs") {
            "text/javascript"
        } else if chars_eq_str(e, "json") {
            "application/json"
        } else if chars_eq_str(e, "xml") {
            "application/xml"
        } else if chars_eq_str(e, "txt") {
            "text/plain"
        } else if chars_eq_str(e, "png") {
            "image/png"
        } else if chars_eq_str(e, "jpg") || chars_eq_str(e, "jpeg") {
            "image/jpeg"
        } else if chars_eq_str(e, "gif") {
            "image/gif"
        } else if chars_eq_str(e, "webp") {
            "image/webp"
        } else if chars_eq_str(e, "svg") {
            "image/svg+xml"
        } else if chars_eq_str(e, "mp3") {
            "audio/mpeg"
        } else if chars_eq_str(e, "mp4") {
            "video/mp4"
        } else {
            "application/octet-stream"
        }
    }

    /// The media type with its parameters, as text
    /// (`main/sub; name=value...`).
    pub fn to_string(&self) -> (r: String)
        ensures
            r@ == self.main_type@ + "/"@ + self.sub_type@ + params_text(self.params@),
    {
        let mut r = self.essence();
        let ps = self.params.iter();
        let ghost entries = self.params@;
        let ghost head = r@;
        let mut i: usize = 0;
        assert(entries.take(0) =~= seq![]);
        while i < ps.len()
            invariant
                i <= ps@.len(),
                ps@.map_values(|p: (&str, &str)| (p.0@, p.1@)) == entries,
                r@ == head + params_text(entries.take(i as int)),
            decreases ps.len() - i,
        {
            let (k, v) = ps[i];
            assert(entries[i as int] == (k@, v@));
            assert(entries.take(i + 1).drop_last() =~= entries.take(i as int));
            push_str(&mut r, "; ");
            push_str(&mut r, k);
            push_str(&mut r, "=");
            push_str(&mut r, v);
            i += 1;
            assert(r@ =~= head + params_text(entries.take(i as int)));
        }
        assert(entries.take(i as int) =~= entries);
        r
    }
}

/// The media type guessed from an extension does not depend on the case of
/// its letters.
pub proof fn extension_ignores_case(ext: Seq<char>)
    ensures
        extension_type(lower_all(ext)) == extension_type(ext),
{
    assert(lower_all(lower_all(ext)) =~= lower_all(ext));
}

/// The media type of each known extension.
pub proof fn extension_types()
    ensures
        extension_type("html"@) == "text/html"@,
        extension_type("htm"@) == "text/html"@,
        extension_type("css"@) == "text/css"@,
        extension_type("js"@) == "text/javascript"@,
        extension_type("mjs"@) == "text/javascript"@,
        extension_type("json"@) == "application/json"@,
        extension_type("xml"@) == "application/xml"@,
        extension_type("txt"@) == "text/plain"@,
        extension_type("png"@) == "image/png"@,
        extension_type("jpg"@) == "image/jpeg"@,
        extension_type("jpeg"@) == "image/jpeg"@,
        extension_type("gif"@) == "image/gif"@,
        extension_type("webp"@) == "image/webp"@,
        extension_type("svg"@) == "image/svg+xml"@,
        extension_type("mp3"@) == "audio/mpeg"@,
        extension_type("mp4"@) == "video/mp4"@,
{
    reveal_strlit("css");
    reveal_strlit("gif");
    reveal_strlit("htm");
    reveal_strlit("html");
    reveal_strlit("jpeg");
    reveal_strlit("jpg");
    reveal_strlit("js");
    reveal_strlit("json");
    reveal_strlit("mjs");
    reveal_strlit("mp3");
    reveal_strlit("mp4");
    reveal_strlit("png");
    reveal_strlit("svg");
    reveal_strlit("txt");
    reveal_strlit("webp");
    reveal_strlit("xml");
    assert(lower_all("css"@) =~= "css"@);
    assert(lower_all("gif"@) =~= "gif"@);
    assert(lower_all("htm"@) =~= "htm"@);
    assert(lower_all("html"@) =~= "html"@);
    assert(lower_all("jpeg"@) =~= "jpeg"@);
    assert(lower_all("jpg"@) =~= "jpg"@);
    assert(lower_all("js"@) =~= "js"@);
    assert(lower_all("json"@) =~= "json"@);
    assert(lower_all("mjs"@) =~= "mjs"@);
    assert(lower_all("mp3"@) =~= "mp3"@);
    assert(lower_all("mp4"@) =~= "mp4"@);
    assert(lower_all("png"@) =~= "png"@);
    assert(lower_all("svg"@) =~= "svg"@);
    assert(lower_all("txt"@) =~= "txt"@);
    assert(lower_all("webp"@) =~= "webp"@);
    assert(lower_all("xml"@) =~= "xml"@);
    assert("css"@[0] != "gif"@[0]);
    assert("css"@[0] != "htm"@[0]);
    assert("css"@.len() != "html"@.len());
    assert("css"@.len() != "jpeg"@.len());
    assert("css"@[0] != "jpg"@[0]);
    assert("css"@.len() != "js"@.len());
    assert("css"@.len() != "json"@.len());
    assert("css"@[0] != "mjs"@[0]);
    assert("css"@[0] != "mp3"@[0]);
    assert("css"@[0] != "mp4"@[0]);
    assert("css"@[0] != "png"@[0]);
    assert("css"@[0] != "svg"@[0]);
    assert("css"@[0] != "txt"@[0]);
    assert("css"@.len() != "webp"@.len());
    assert("css"@[0] != "xml"@[0]);
    assert("gif"@[0] != "htm"@[0]);
    assert("gif"@.len() != "html"@.len());
    assert("gif"@.len() != "jpeg"@.len());
    assert("gif"@[0] != "jpg"@[0]);
    assert("gif"@.len() != "js"@.len());
    assert("gif"@.len() != "json"@.len());
    assert("gif"@[0] != "mjs"@[0]);
    assert("gif"@[0] != "mp3"@[0]);
    assert("gif"@[0] != "mp4"@[0]);
    assert("gif"@[0] != "png"@[0]);
    assert("gif"@[0] != "svg"@[0]);
    assert("gif"@[0] != "txt"@[0]);
    assert("gif"@.len() != "webp"@.len());
    assert("gif"@[0] != "xml"@[0]);
    assert("htm"@.len() != "html"@.len());
    assert("htm"@.len() != "jpeg"@.len());
    assert("htm"@[0] != "jpg"@[0]);
    assert("htm"@.len() != "js"@.len());
    assert("htm"@.len() != "json"@.len());
    assert("htm"@[0] != "mjs"@[0]);
    assert("htm"@[0] != "mp3"@[0]);
    assert("htm"@[0] != "mp4"@[0]);
    assert("htm"@[0] != "png"@[0]);
    assert("htm"@[0] != "svg"@[0]);
    assert("htm"@[0] != "txt"@[0]);
    assert("htm"@.len() != "webp"@.len());
    assert("htm"@[0] != "xml"@[0]);
    assert("html"@[0] != "jpeg"@[0]);
    assert("html"@.len() != "jpg"@.len());
    assert("html"@.len() != "js"@.len());
    assert("html"@[0] != "json"@[0]);
    assert("html"@.len() != "mjs"@.len());
    assert("html"@.len() != "mp3"@.len());
    assert("html"@.len() != "mp4"@.len());
    assert("html"@.len() != "png"@.len());
    assert("html"@.len() != "svg"@.len());
    assert("html"@.len() != "txt"@.len());
    assert("html"@[0] != "webp"@[0]);
    assert("html"@.len() != "xml"@.len());
    assert("jpeg"@.len() != "jpg"@.len());
    assert("jpeg"@.len() != "js"@.len());
    assert("jpeg"@[1] != "json"@[1]);
    assert("jpeg"@.len() != "mjs"@.len());
    assert("jpeg"@.len() != "mp3"@.len());
    assert("jpeg"@.len() != "mp4"@.len());
    assert("jpeg"@.len() != "png"@.len());
    assert("jpeg"@.len() != "svg"@.len());
    assert("jpeg"@.len() != "txt"@.len());
    assert("jpeg"@[0] != "webp"@[0]);
    assert("jpeg"@.len() != "xml"@.len());
    assert("jpg"@.len() != "js"@.len());
    assert("jpg"@.len() != "json"@.len());
    assert("jpg"@[0] != "mjs"@[0]);
    assert("jpg"@[0] != "mp3"@[0]);
    assert("jpg"@[0] != "mp4"@[0]);
    assert("jpg"@[0] != "png"@[0]);
    assert("jpg"@[0] != "svg"@[0]);
    assert("jpg"@[0] != "txt"@[0]);
    assert("jpg"@.len() != "webp"@.len());
    assert("jpg"@[0] != "xml"@[0]);
    assert("js"@.len() != "json"@.len());
    assert("js"@.len() != "mjs"@.len());
    assert("js"@.len() != "mp3"@.len());
    assert("js"@.len() != "mp4"@.len());
    assert("js"@.len() != "png"@.len());
    assert("js"@.len() != "svg"@.len());
    assert("js"@.len() != "txt"@.len());
    assert("js"@.len() != "webp"@.len());
    assert("js"@.len() != "xml"@.len());
    assert("json"@.len() != "mjs"@.len());
    assert("json"@.len() != "mp3"@.len());
    assert("json"@.len() != "mp4"@.len());
    assert("json"@.len() != "png"@.len());
    assert("json"@.len() != "svg"@.len());
    assert("json"@.len() != "txt"@.len());
    assert("json"@[0] != "webp"@[0]);
    assert("json"@.len() != "xml"@.len());
    assert("mjs"@[1] != "mp3"@[1]);
    assert("mjs"@[1] != "mp4"@[1]);
    assert("mjs"@[0] != "png"@[0]);
    assert("mjs"@[0] != "svg"@[0]);
    assert("mjs"@[0] != "txt"@[0]);
    assert("mjs"@.len() != "webp"@.len());
    assert("mjs"@[0] != "xml"@[0]);
    assert("mp3"@[2] != "mp4"@[2]);
    assert("mp3"@[0] != "png"@[0]);
    assert("mp3"@[0] != "svg"@[0]);
    assert("mp3"@[0] != "txt"@[0]);
    assert("mp3"@.len() != "webp"@.len());
    assert("mp3"@[0] != "xml"@[0]);
    assert("mp4"@[0] != "png"@[0]);
    assert("mp4"@[0] != "svg"@[0]);
    assert("mp4"@[0] != "txt"@[0]);
    assert("mp4"@.len() != "webp"@.len());
    assert("mp4"@[0] != "xml"@[0]);
    assert("png"@[0] != "svg"@[0]);
    assert("png"@[0] != "txt"@[0]);
    assert("png"@.len() != "webp"@.len());
    assert("png"@[0] != "xml"@[0]);
    assert("svg"@[0] != "txt"@[0]);
    assert("svg"@.len() != "webp"@.len());
    assert("svg"@[0] != "xml"@[0]);
    assert("txt"@.len() != "webp"@.len());
    assert("txt"@[0] != "xml"@[0]);
    assert("webp"@.len() != "xml"@.len());
}

} // verus!
