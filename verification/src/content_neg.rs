//! Content negotiation: reading `Accept`-style headers and choosing among
//! the media types on offer.
//!
//! Quality factors are decimal numbers; this module keeps each one as the
//! text that the header gives, and picks a media type from the ranges in the
//! order of preference that the caller has settled.
use vstd::prelude::*;
use crate::text::{chars_eq, chars_of, slice_chars, split, split_chars, string_of, trim, trim_chars, views};

verus! {

/// Content negotiation utilities.
pub struct ContentNegotiation;

/// One entry of an `Accept`-style header: the media range and the text of
/// its quality factor (`q=`), if it has one.
#[derive(Debug, Clone, PartialEq, Eq)]
pub struct AcceptRange {
    pub media_type: String,
    pub quality: Option<String>,
}

/// An entry as text values.
pub type RangeText = (Seq<char>, Option<Seq<char>>);

/// The value of the last `q=` parameter among `params` (each trimmed).
pub open spec fn quality_text(params: Seq<Seq<char>>) -> Option<Seq<char>>
    decreases params.len(),
{
    if params.len() == 0 {
        None
    } else {
        let p = trim(params.last());
        if p.len() >= 2 && p.take(2) == "q="@ {
            Some(p.skip(2))
        } else {
            quality_text(params.drop_last())
        }
    }
}

/// The entry that a trimmed, non-empty part of the header gives: its first
/// `;`-separated segment, trimmed, and the quality text of the others.
pub open spec fn range_of(part: Seq<char>) -> RangeText {
    let segs = split(part, seq![';']);
    (trim(segs[0]), quality_text(segs.drop_first()))
}

/// The entries of a header cut at commas: one for each part that is not
/// blank, in the order written.
pub open spec fn accept_ranges(parts: Seq<Seq<char>>) -> Seq<RangeText>
    decreases parts.len(),
{
    if parts.len() == 0 {
        seq![]
    } else {
        let t = trim(parts.last());
        if t.len() == 0 {
            accept_ranges(parts.drop_last())
        } else {
            accept_ranges(parts.drop_last()).push(range_of(t))
        }
    }
}

/// The view of a list of entries.
pub open spec fn range_texts(r: Seq<AcceptRange>) -> Seq<RangeText> {
    r.map_values(|e: AcceptRange| (e.media_type@, opt_view(e.quality)))
}

/// The text of an optional string.
pub open spec fn opt_view(s: Option<String>) -> Option<Seq<char>> {
    match s {
        Some(t) => Some(t@),
        None => None,
    }
}

/// The first index from `k` on at which `av` holds `m`.
pub open spec fn first_equal(av: Seq<Seq<char>>, m: Seq<char>, k: int) -> Option<int>
    decreases av.len() - k,
{
    if k < 0 || k >= av.len() {
        None
    } else if av[k] == m {
        Some(k)
    } else {
        first_equal(av, m, k + 1)
    }
}

/// Whether the media type `t` has the main type `main` (`main/...`).
pub open spec fn has_main_type(t: Seq<char>, main: Seq<char>) -> bool {
    t.len() > main.len() && t.take(main.len() as int) == main && t[main.len() as int] == '/'
}

/// The first index from `k` on at which `av` holds a type with main type
/// `main`.
pub open spec fn first_under(av: Seq<Seq<char>>, main: Seq<char>, k: int) -> Option<int>
    decreases av.len() - k,
{
    if k < 0 || k >= av.len() {
        None
    } else if has_main_type(av[k], main) {
        Some(k)
    } else {
        first_under(av, main, k + 1)
    }
}

/// Whether the range `m` ends in `/*`.
pub open spec fn is_main_range(m: Seq<char>) -> bool {
    m.len() >= 2 && m.skip(m.len() - 2) == "/*"@
}

/// The index in `av` of the type that the ranges `accept` choose: the first
/// range that anything matches decides; `*/*` matches the first type on
/// offer, a range `main/*` the first type with that main type, and any other
/// range the first type equal to it.
pub open spec fn negotiated(accept: Seq<Seq<char>>, av: Seq<Seq<char>>) -> Option<int>
    decreases accept.len(),
{
    if accept.len() == 0 {
        None
    } else {
        let m = accept[0];
        if m == "*/*"@ {
            if av.len() > 0 {
                Some(0)
            } else {
                None
            }
        } else {
            match first_equal(av, m, 0) {
                Some(i) => Some(i),
                None => {
                    if is_main_range(m) {
                        match first_under(av, m.take(m.len() - 2), 0) {
                            Some(i) => Some(i),
                            None => negotiated(accept.drop_first(), av),
                        }
                    } else {
                        negotiated(accept.drop_first(), av)
                    }
                },
            }
        }
    }
}

/// The first index found by `first_equal` or `first_under` lies in range.
pub proof fn lemma_first_in_range(av: Seq<Seq<char>>, m: Seq<char>, k: int)
    requires
        0 <= k,
    ensures
        first_equal(av, m, k) matches Some(i) ==> k <= i < av.len() && av[i] == m,
        first_under(av, m, k) matches Some(i) ==> k <= i < av.len() && has_main_type(av[i], m),
        first_equal(av, m, k) is None ==> forall|j: int| k <= j < av.len() ==> av[j] != m,
        first_under(av, m, k) is None ==> forall|j: int|
            k <= j < av.len() ==> !has_main_type(av[j], m),
    decreases av.len() - k,
{
    if 0 <= k < av.len() {
        lemma_first_in_range(av, m, k + 1);
    }
}

/// Whether the media range `m` admits the media type `t`: `*/*` admits
/// every type, a range `main/*` every type `main/...`, and any range the
/// type written exactly as it.
pub open spec fn range_admits(m: Seq<char>, t: Seq<char>) -> bool {
    ||| m == "*/*"@
    ||| m == t
    ||| (m.len() >= 2 && m.skip(m.len() - 2) == "/*"@ && t.len() > m.len() - 2 && t.take(
        m.len() - 2,
    ) == m.take(m.len() - 2) && t[m.len() - 2] == '/')
}

/// Negotiation picks a type that an accepted range admits, from the first
/// range (in order of preference) that admits any type on offer; it picks
/// none exactly when no range admits any type on offer.
pub proof fn negotiate_follows_preference(accept: Seq<Seq<char>>, av: Seq<Seq<char>>)
    ensures
        match negotiated(accept, av) {
            Some(i) => 0 <= i < av.len() && exists|k: int|
                0 <= k < accept.len() && #[trigger] range_admits(accept[k], av[i]) && forall|
                    k2: int,
                    j: int,
                | 0 <= k2 < k && 0 <= j < av.len() ==> !range_admits(accept[k2], av[j]),
            None => forall|k: int, j: int|
                0 <= k < accept.len() && 0 <= j < av.len() ==> !range_admits(accept[k], av[j]),
        },
    decreases accept.len(),
{
    reveal_strlit("*/*");
    reveal_strlit("/*");
    if accept.len() > 0 {
        let m = accept[0];
        let rest = accept.drop_first();
        lemma_first_in_range(av, m, 0);
        if m.len() >= 2 {
            lemma_first_in_range(av, m.take(m.len() - 2), 0);
        }
        negotiate_follows_preference(rest, av);
        let first_admits_none = forall|j: int| 0 <= j < av.len() ==> !range_admits(m, av[j]);
        if m == "*/*"@ {
            if av.len() > 0 {
                assert(range_admits(accept[0], av[0]));
            }
        } else if first_equal(av, m, 0) is Some {
            let i = first_equal(av, m, 0)->0;
            assert(range_admits(accept[0], av[i]));
        } else if is_main_range(m) && first_under(av, m.take(m.len() - 2), 0) is Some {
            let i = first_under(av, m.take(m.len() - 2), 0)->0;
            assert(has_main_type(av[i], m.take(m.len() - 2)));
            assert(range_admits(accept[0], av[i]));
        } else {
            assert(first_admits_none) by {
                assert forall|j: int| 0 <= j < av.len() implies !range_admits(m, av[j]) by {
                    assert(av[j] != m);
                    if m.len() >= 2 && m.skip(m.len() - 2) == "/*"@ {
                        assert(is_main_range(m));
                        assert(!has_main_type(av[j], m.take(m.len() - 2)));
                    }
                }
            }
            assert(negotiated(accept, av) == negotiated(rest, av));
            match negotiated(rest, av) {
                Some(i) => {
                    let k1 = choose|k: int|
                        0 <= k < rest.len() && #[trigger] range_admits(rest[k], av[i]) && forall|
                            k2: int,
                            j: int,
                        | 0 <= k2 < k && 0 <= j < av.len() ==> !range_admits(rest[k2], av[j]);
                    assert(accept[k1 + 1] == rest[k1]);
                    assert forall|k2: int, j: int|
                        0 <= k2 < k1 + 1 && 0 <= j < av.len() implies !range_admits(
                        accept[k2],
                        av[j],
                    ) by {
                        if k2 > 0 {
                            assert(accept[k2] == rest[k2 - 1]);
                        }
                    }
                    assert(range_admits(accept[k1 + 1], av[i]));
                },
                None => {
                    assert forall|k: int, j: int|
                        0 <= k < accept.len() && 0 <= j < av.len() implies !range_admits(
                        accept[k],
                        av[j],
                    ) by {
                        if k > 0 {
                            assert(accept[k] == rest[k - 1]);
                        }
                    }
                },
            }
        }
    }
}

/// A first accepted range of `*/*` picks the first type on offer.
pub proof fn negotiate_wildcard_first(accept: Seq<Seq<char>>, av: Seq<Seq<char>>)
    requires
        accept.len() > 0,
        accept[0] == "*/*"@,
    ensures
        negotiated(accept, av) == if av.len() > 0 {
            Some(0int)
        } else {
            None
        },
{
}

/// The chosen index lies in range.
pub proof fn lemma_negotiated_in_range(accept: Seq<Seq<char>>, av: Seq<Seq<char>>)
    ensures
        negotiated(accept, av) matches Some(i) ==> 0 <= i < av.len(),
    decreases accept.len(),
{
    if accept.len() > 0 {
        let m = accept[0];
        lemma_first_in_range(av, m, 0);
        if m.len() >= 2 {
            lemma_first_in_range(av, m.take(m.len() - 2), 0);
        }
        lemma_negotiated_in_range(accept.drop_first(), av);
    }
}

/// The characters of each string slice.
pub open spec fn str_views(av: Seq<&str>) -> Seq<Seq<char>> {
    av.map_values(|s: &str| s@)
}

/// The characters of each string.
pub open spec fn string_views(av: Seq<String>) -> Seq<Seq<char>> {
    av.map_values(|s: String| s@)
}

impl ContentNegotiation {
    /// Reads an `Accept`-style header (`Accept`, `Accept-Encoding`,
    /// `Accept-Language`) into its entries, in the order written: the header
    /// is cut at commas, blank parts are skipped, and each part gives its
    /// media range and the text of its last `q=` parameter.
    pub fn parse_accept_ranges(header: &str) -> (r: Vec<AcceptRange>)
        ensures
            range_texts(r@) == accept_ranges(split(header@, seq![','])),
    {
        let cs = chars_of(header);
        let comma = [','];
        assert(comma@ =~= seq![',']);
        let parts = split_chars(cs.as_slice(), &comma);
        let ghost all = views(parts@);
        let mut out: Vec<AcceptRange> = Vec::new();
        let mut i: usize = 0;
        assert(all.take(0) =~= seq![]);
        while i < parts.len()
            invariant
                i <= parts@.len(),
                all == views(parts@),
                range_texts(out@) == accept_ranges(all.take(i as int)),
            decreases parts.len() - i,
        {
            assert(all.take(i + 1).drop_last() =~= all.take(i as int));
            assert(all.take(i + 1).last() == parts@[i as int]@);
            let trimmed = trim_chars(parts[i].as_slice());
            if trimmed.len() > 0 {
                let e = Self::range_entry(trimmed.as_slice());
                let ghost before = range_texts(out@);
                out.push(e);
                assert(range_texts(out@) =~= before.push(range_of(trimmed@)));
            }
            i += 1;
        }
        assert(all.take(i as int) =~= all);
        out
    }

    /// The entry that one trimmed part of the header gives.
    fn range_entry(part: &[char]) -> (e: AcceptRange)
        ensures
            (e.media_type@, opt_view(e.quality)) == range_of(part@),
    {
        let semi = [';'];
        assert(semi@ =~= seq![';']);
        let segs = split_chars(part, &semi);
        let ghost all = views(segs@);
        proof {
            crate::text::lemma_split_nonempty(part@, seq![';']);
        }
        assert(all[0] == segs@[0]@);
        let media_type = string_of(trim_chars(segs[0].as_slice()).as_slice());
        let mut quality: Option<String> = None;
        let mut i: usize = 1;
        assert(all.subrange(1, 1) =~= seq![]);
        while i < segs.len()
            invariant
                1 <= i <= segs@.len(),
                all == views(segs@),
                opt_view(quality) == quality_text(all.subrange(1, i as int)),
            decreases segs.len() - i,
        {
            assert(all.subrange(1, i + 1).drop_last() =~= all.subrange(1, i as int));
            assert(all.subrange(1, i + 1).last() == segs@[i as int]@);
            let seg = trim_chars(segs[i].as_slice());
            proof {
                reveal_strlit("q=");
            }
            if seg.len() >= 2 && seg[0] == 'q' && seg[1] == '=' {
                assert(seg@.take(2) =~= "q="@);
                let q = slice_chars(seg.as_slice(), 2, seg.len());
                assert(q@ =~= seg@.skip(2));
                quality = Some(string_of(q.as_slice()));
            } else {
                assert(seg@.len() >= 2 ==> seg@.take(2) != "q="@) by {
                    if seg@.len() >= 2 && seg@.take(2) == "q="@ {
                        assert(seg@[0] == seg@.take(2)[0]);
                        assert(seg@[1] == seg@.take(2)[1]);
                    }
                }
            }
            i += 1;
        }
        assert(all.subrange(1, i as int) =~= all.drop_first());
        AcceptRange { media_type, quality }
    }

    /// Selects the best matching media type among `available`, given the
    /// media ranges of an `Accept` header in order of preference.
    ///
    /// The first range that matches decides: `*/*` chooses the first type on
    /// offer, a range `main/*` the first type whose main type is `main`, and
    /// any other range the first type equal to it.
    pub fn negotiate<'a>(accept: &[String], available: &[&'a str]) -> (r: Option<&'a str>)
        ensures
            match negotiated(string_views(accept@), str_views(available@)) {
                Some(i) => r == Some(available@[i]),
                None => r is None,
            },
            accept@.len() > 0 && accept@[0]@ == "*/*"@ ==> r == if available@.len() > 0 {
                Some(available@[0])
            } else {
                None
            },
    {
        let ghost acc = string_views(accept@);
        let ghost av = str_views(available@);
        let mut avail: Vec<Vec<char>> = Vec::new();
        let mut j: usize = 0;
        while j < available.len()
            invariant
                j <= available@.len(),
                av == str_views(available@),
                views(avail@) == av.take(j as int),
            decreases available.len() - j,
        {
            let ghost before = views(avail@);
            avail.push(chars_of(available[j]));
            assert(views(avail@) =~= before.push(av[j as int]));
            assert(av.take(j + 1) =~= av.take(j as int).push(av[j as int]));
            j += 1;
        }
        assert(av.take(j as int) =~= av);
        proof {
            lemma_negotiated_in_range(acc, av);
        }
        let star = ['*', '/', '*'];
        proof {
            reveal_strlit("*/*");
        }
        assert(star@ =~= "*/*"@);
        let mut i: usize = 0;
        assert(acc.skip(0) =~= acc);
        while i < accept.len()
            invariant
                i <= accept@.len(),
                acc == string_views(accept@),
                av == views(avail@),
                av == str_views(available@),
                avail@.len() == available@.len(),
                star@ == "*/*"@,
                negotiated(acc, av) == negotiated(acc.skip(i as int), av),
            decreases accept.len() - i,
        {
            let ghost rest = acc.skip(i as int);
            assert(rest[0] == accept@[i as int]@);
            assert(rest.drop_first() =~= acc.skip(i + 1));
            let m = chars_of(accept[i].as_str());
            proof {
                lemma_first_in_range(av, m@, 0);
            }
            if chars_eq(m.as_slice(), &star) {
                if available.len() > 0 {
                    return Some(available[0]);
                }
                return None;
            }
            if let Some(k) = Self::find_equal(&avail, m.as_slice()) {
                return Some(available[k]);
            }
            let n = m.len();
            proof {
                reveal_strlit("/*");
            }
            if n >= 2 && m[n - 2] == '/' && m[n - 1] == '*' {
                assert(m@.skip(n - 2) =~= "/*"@);
                let main = slice_chars(m.as_slice(), 0, n - 2);
                assert(main@ =~= m@.take(n - 2));
                proof {
                    lemma_first_in_range(av, main@, 0);
                }
                if let Some(k) = Self::find_under(&avail, main.as_slice()) {
                    return Some(available[k]);
                }
            } else {
                assert(!is_main_range(m@)) by {
                    if is_main_range(m@) {
                        assert(m@.skip(n - 2)[0] == m@[n - 2]);
                        assert(m@.skip(n - 2)[1] == m@[n - 1]);
                    }
                }
            }
            i += 1;
        }
        None
    }

    /// The first index at which `av` holds `m`.
    fn find_equal(av: &Vec<Vec<char>>, m: &[char]) -> (r: Option<usize>)
        ensures
            r == match first_equal(views(av@), m@, 0) {
                Some(i) => Some(i as usize),
                None => None::<usize>,
            },
    {
        let ghost all = views(av@);
        proof {
            lemma_first_in_range(all, m@, 0);
        }
        let mut k: usize = 0;
        while k < av.len()
            invariant
                k <= av@.len(),
                all == views(av@),
                first_equal(all, m@, 0) == first_equal(all, m@, k as int),
            decreases av.len() - k,
        {
            assert(all[k as int] == av@[k as int]@);
            if chars_eq(av[k].as_slice(), m) {
                return Some(k);
            }
            k += 1;
        }
        None
    }

    /// The first index at which `av` holds a type with main type `main`.
    fn find_under(av: &Vec<Vec<char>>, main: &[char]) -> (r: Option<usize>)
        ensures
            r == match first_under(views(av@), main@, 0) {
                Some(i) => Some(i as usize),
                None => None::<usize>,
            },
    {
        let ghost all = views(av@);
        proof {
            lemma_first_in_range(all, main@, 0);
        }
        let mut k: usize = 0;
        while k < av.len()
            invariant
                k <= av@.len(),
                all == views(av@),
                first_under(all, main@, 0) == first_under(all, main@, k as int),
            decreases av.len() - k,
        {
            assert(all[k as int] == av@[k as int]@);
            let t = av[k].as_slice();
            let n = main.len();
            if t.len() > n && t[n] == '/' {
                let head = slice_chars(t, 0, n);
                if chars_eq(head.as_slice(), main) {
                    assert(has_main_type(all[k as int], main@));
                    return Some(k);
                }
            }
            k += 1;
        }
        None
    }
}

} // verus!
