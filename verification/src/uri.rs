//! `Uri`: a request target cut into path, query and fragment.
use vstd::prelude::*;
use crate::error::HttpError;
use crate::headers::{Entry, set_entry};
use crate::params::ParamMap;
use crate::text::{
    split, split_once, chars_of, split_chars, split_once_chars, string_of, slice_chars, views,
};

verus! {

/// The part of a URI before its fragment.
pub open spec fn before_fragment(s: Seq<char>) -> Seq<char> {
    match split_once(s, seq!['#']) {
        None => s,
        Some((a, _)) => a,
    }
}

/// The fragment: what follows the first `#`.
pub open spec fn uri_fragment(s: Seq<char>) -> Option<Seq<char>> {
    match split_once(s, seq!['#']) {
        None => None,
        Some((_, f)) => Some(f),
    }
}

/// The path: what precedes the first `?` before the fragment.
pub open spec fn uri_path(s: Seq<char>) -> Seq<char> {
    match split_once(before_fragment(s), seq!['?']) {
        None => before_fragment(s),
        Some((p, _)) => p,
    }
}

/// The query: what follows the first `?` before the fragment.
pub open spec fn uri_query(s: Seq<char>) -> Option<Seq<char>> {
    match split_once(before_fragment(s), seq!['?']) {
        None => None,
        Some((_, q)) => Some(q),
    }
}

/// The text of an optional string.
pub open spec fn opt_text(o: Option<String>) -> Option<Seq<char>> {
    match o {
        Some(s) => Some(s@),
        None => None,
    }
}

/// The parameters of a query, piece by piece (pieces are separated by `&`):
/// `name=value` sets `name` (up to the first `=`), a piece without `=`
/// sets itself to the empty value, an empty piece is skipped. A later
/// piece replaces the value of an earlier one of the same name.
pub open spec fn query_entries(pieces: Seq<Seq<char>>) -> Seq<Entry>
    decreases pieces.len(),
{
    if pieces.len() == 0 {
        seq![]
    } else {
        let m = query_entries(pieces.drop_last());
        let p = pieces.last();
        match split_once(p, seq!['=']) {
            Some((k, v)) => set_entry(m, k, v),
            None => if p.len() == 0 {
                m
            } else {
                set_entry(m, p, seq![])
            },
        }
    }
}

/// A parsed URI (path + optional query + optional fragment).
#[derive(Debug, PartialEq, Eq)]
pub struct Uri {
    raw: String,
    path: String,
    query: Option<String>,
    fragment: Option<String>,
}

impl View for Uri {
    type V = Seq<char>;

    /// The URI as written.
    closed spec fn view(&self) -> Seq<char> {
        self.raw@
    }
}

impl Uri {
    /// The parts are those of the raw text, which is not empty.
    #[verifier::type_invariant]
    closed spec fn wf(self) -> bool {
        &&& self.raw@.len() > 0
        &&& self.path@ == uri_path(self.raw@)
        &&& opt_text(self.query) == uri_query(self.raw@)
        &&& opt_text(self.fragment) == uri_fragment(self.raw@)
    }

    /// Parses a URI string.
    ///
    /// # Errors
    ///
    /// Returns `HttpError::InvalidUri` if the string is empty.
    pub fn parse(raw: &str) -> (r: Result<Self, HttpError>)
        ensures
            raw@.len() == 0 ==> r == Err::<Self, HttpError>(HttpError::InvalidUri),
            raw@.len() > 0 ==> (r matches Ok(u) && u@ == raw@),
    {
        let cs = chars_of(raw);
        Self::parse_chars(cs.as_slice())
    }

    /// Parses a URI from its characters.
    pub fn parse_chars(cs: &[char]) -> (r: Result<Self, HttpError>)
        ensures
            cs@.len() == 0 ==> r == Err::<Self, HttpError>(HttpError::InvalidUri),
            cs@.len() > 0 ==> (r matches Ok(u) && u@ == cs@),
    {
        if cs.len() == 0 {
            return Err(HttpError::InvalidUri);
        }
        let hash = ['#'];
        let question = ['?'];
        assert(hash@ =~= seq!['#']);
        assert(question@ =~= seq!['?']);
        let (before_frag, fragment) = match split_once_chars(cs, &hash) {
            Some((a, f)) => (a, Some(string_of(f.as_slice()))),
            None => (slice_chars(cs, 0, cs.len()), None),
        };
        assert(cs@.subrange(0, cs@.len() as int) =~= cs@);
        let (path, query) = match split_once_chars(before_frag.as_slice(), &question) {
            Some((p, q)) => (string_of(p.as_slice()), Some(string_of(q.as_slice()))),
            None => (string_of(before_frag.as_slice()), None),
        };
        assert(before_frag@ == before_fragment(cs@));
        assert(opt_text(fragment) == uri_fragment(cs@));
        assert(path@ == uri_path(cs@));
        assert(opt_text(query) == uri_query(cs@));
        Ok(Uri { raw: string_of(cs), path, query, fragment })
    }

    /// Returns the full raw URI.
    pub fn raw(&self) -> (r: &str)
        ensures
            r@ == self@,
            self@.len() > 0,
    {
        proof {
            use_type_invariant(self);
        }
        self.raw.as_str()
    }

    /// Returns the path component.
    pub fn path(&self) -> (r: &str)
        ensures
            r@ == uri_path(self@),
    {
        proof {
            use_type_invariant(self);
        }
        self.path.as_str()
    }

    /// Returns the query string, if present.
    pub fn query(&self) -> (r: Option<&str>)
        ensures
            match uri_query(self@) {
                Some(q) => r matches Some(s) && s@ == q,
                None => r is None,
            },
    {
        proof {
            use_type_invariant(self);
        }
        match &self.query {
            Some(q) => Some(q.as_str()),
            None => None,
        }
    }

    /// Returns the fragment, if present.
    pub fn fragment(&self) -> (r: Option<&str>)
        ensures
            match uri_fragment(self@) {
                Some(f) => r matches Some(s) && s@ == f,
                None => r is None,
            },
    {
        proof {
            use_type_invariant(self);
        }
        match &self.fragment {
            Some(f) => Some(f.as_str()),
            None => None,
        }
    }

    /// Parses the query string into key-value pairs.
    pub fn query_params(&self) -> (r: ParamMap)
        ensures
            r@ == match uri_query(self@) {
                Some(q) => query_entries(split(q, seq!['&'])),
                None => Seq::<Entry>::empty(),
            },
    {
        proof {
            use_type_invariant(self);
        }
        let mut map = ParamMap::new();
        if let Some(q) = &self.query {
            let qs = chars_of(q.as_str());
            let amp = ['&'];
            let eq = ['='];
            assert(amp@ =~= seq!['&']);
            assert(eq@ =~= seq!['=']);
            assert(qs@ == uri_query(self@)->0);
            let pieces = split_chars(qs.as_slice(), &amp);
            let ghost all = views(pieces@);
            let mut i: usize = 0;
            assert(all.take(0) =~= seq![]);
            while i < pieces.len()
                invariant
                    eq@ == seq!['='],
                    i <= pieces@.len(),
                    all == views(pieces@),
                    map@ == query_entries(all.take(i as int)),
                decreases pieces.len() - i,
            {
                let piece = pieces[i].as_slice();
                assert(all[i as int] == piece@);
                assert(all.take(i + 1).drop_last() =~= all.take(i as int));
                match split_once_chars(piece, &eq) {
                    Some((k, v)) => {
                        map.insert(string_of(k.as_slice()), string_of(v.as_slice()));
                    },
                    None => {
                        if piece.len() > 0 {
                            map.insert(string_of(piece), String::new());
                        }
                    },
                }
                i += 1;
            }
            assert(all.take(i as int) =~= all);
        } else {
            assert(map@ =~= Seq::<Entry>::empty());
        }
        map
    }

    /// The URI as written.
    pub fn to_string(&self) -> (r: String)
        ensures
            r@ == self@,
    {
        self.raw.clone()
    }
}

impl Clone for Uri {
    /// A copy of the URI.
    fn clone(&self) -> (r: Self)
        ensures
            r@ == self@,
    {
        proof {
            use_type_invariant(self);
        }
        let query = match &self.query {
            Some(q) => Some(q.clone()),
            None => None,
        };
        let fragment = match &self.fragment {
            Some(f) => Some(f.clone()),
            None => None,
        };
        Uri { raw: self.raw.clone(), path: self.path.clone(), query, fragment }
    }
}

} // verus!
