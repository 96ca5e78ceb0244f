//! Form data (`application/x-www-form-urlencoded`).
use vstd::prelude::*;
use vstd::utf8::encode_utf8;
use crate::error::HttpError;
use crate::headers::{Entry, set_entry};
use crate::params::ParamMap;
use crate::text::{
    ascii_chars, chars_of, find, find_from, lemma_find_from, lemma_find_first, push_char,
    push_str, split, split_chars, split_once, split_once_chars, string_of, views,
};
use crate::url_encoding::{UrlEncoding, is_unreserved, percent_encode, url_decoded, url_roundtrip};

verus! {

/// Parses `application/x-www-form-urlencoded` data.
pub struct FormData;

/// The form entries of the pieces of a form (pieces are separated by `&`):
/// empty pieces are skipped; `name=value` (cut at the first `=`) or a lone
/// `name` (with the empty value) is percent-decoded and set, a later piece
/// replacing the value of an earlier one of the same name. The first piece
/// that does not decode gives the error.
pub open spec fn form_entries(pieces: Seq<Seq<char>>) -> Result<Seq<Entry>, HttpError>
    decreases pieces.len(),
{
    if pieces.len() == 0 {
        Ok(seq![])
    } else {
        match form_entries(pieces.drop_last()) {
            Err(e) => Err(e),
            Ok(m) => {
                let p = pieces.last();
                if p.len() == 0 {
                    Ok(m)
                } else {
                    match split_once(p, seq!['=']) {
                        Some((k, v)) => match url_decoded(encode_utf8(k)) {
                            Err(e) => Err(e),
                            Ok(dk) => match url_decoded(encode_utf8(v)) {
                                Err(e) => Err(e),
                                Ok(dv) => Ok(set_entry(m, dk, dv)),
                            },
                        },
                        None => match url_decoded(encode_utf8(p)) {
                            Err(e) => Err(e),
                            Ok(dk) => Ok(set_entry(m, dk, seq![])),
                        },
                    }
                }
            },
        }
    }
}

/// The percent-encoding of a text, as text.
pub open spec fn encoded(s: Seq<char>) -> Seq<char> {
    ascii_chars(percent_encode(encode_utf8(s)))
}

/// `name=value`, both percent-encoded.
pub open spec fn encoded_pair(p: (Seq<char>, Seq<char>)) -> Seq<char> {
    encoded(p.0) + seq!['='] + encoded(p.1)
}

/// The pieces joined with `&` between them.
pub open spec fn join_amp(pieces: Seq<Seq<char>>) -> Seq<char>
    decreases pieces.len(),
{
    if pieces.len() == 0 {
        seq![]
    } else if pieces.len() == 1 {
        pieces[0]
    } else {
        join_amp(pieces.drop_last()) + seq!['&'] + pieces.last()
    }
}

/// The form text of a list of pairs.
pub open spec fn form_text(pairs: Seq<(Seq<char>, Seq<char>)>) -> Seq<char> {
    join_amp(pairs.map_values(|p: (Seq<char>, Seq<char>)| encoded_pair(p)))
}

/// The entries that setting each pair in turn gives.
pub open spec fn pairs_entries(pairs: Seq<(Seq<char>, Seq<char>)>) -> Seq<Entry>
    decreases pairs.len(),
{
    if pairs.len() == 0 {
        seq![]
    } else {
        set_entry(pairs_entries(pairs.drop_last()), pairs.last().0, pairs.last().1)
    }
}

impl FormData {
    /// Parses URL-encoded form data into key-value pairs.
    ///
    /// # Errors
    ///
    /// Returns `HttpError::InvalidUri` on malformed percent-encoding.
    pub fn parse(data: &str) -> (r: Result<ParamMap, HttpError>)
        ensures
            match form_entries(split(data@, seq!['&'])) {
                Ok(m) => r matches Ok(map) && map@ == m,
                Err(e) => r matches Err(e2) && e2 == e,
            },
    {
        let cs = chars_of(data);
        let amp = ['&'];
        let eq = ['='];
        assert(amp@ =~= seq!['&']);
        assert(eq@ =~= seq!['=']);
        let pieces = split_chars(cs.as_slice(), &amp);
        let ghost all = views(pieces@);
        let mut map = ParamMap::new();
        let mut i: usize = 0;
        assert(all.take(0) =~= seq![]);
        while i < pieces.len()
            invariant
                eq@ == seq!['='],
                i <= pieces@.len(),
                all == views(pieces@),
                all == split(data@, seq!['&']),
                form_entries(all.take(i as int)) == Ok::<Seq<Entry>, HttpError>(map@),
            decreases pieces.len() - i,
        {
            let piece = pieces[i].as_slice();
            assert(all[i as int] == piece@);
            assert(all.take(i + 1).drop_last() =~= all.take(i as int));
            assert(all.take(i + 1).last() == piece@);
            if piece.len() > 0 {
                match split_once_chars(piece, &eq) {
                    Some((k, v)) => {
                        let ks = string_of(k.as_slice());
                        let vs = string_of(v.as_slice());
                        let dk = UrlEncoding::decode(ks.as_str());
                        let dk = match dk {
                            Ok(x) => x,
                            Err(e) => {
                                proof {
                                    lemma_form_entries_err(all, i as int + 1);
                                }
                                return Err(e);
                            },
                        };
                        let dv = match UrlEncoding::decode(vs.as_str()) {
                            Ok(x) => x,
                            Err(e) => {
                                proof {
                                    lemma_form_entries_err(all, i as int + 1);
                                }
                                return Err(e);
                            },
                        };
                        map.insert(dk, dv);
                    },
                    None => {
                        let ps = string_of(piece);
                        let dk = match UrlEncoding::decode(ps.as_str()) {
                            Ok(x) => x,
                            Err(e) => {
                                proof {
                                    lemma_form_entries_err(all, i as int + 1);
                                }
                                return Err(e);
                            },
                        };
                        map.insert(dk, String::new());
                    },
                }
            }
            i += 1;
        }
        assert(all.take(i as int) =~= all);
        Ok(map)
    }

    /// Encodes key-value pairs to `application/x-www-form-urlencoded` format.
    pub fn encode(pairs: &[(&str, &str)]) -> (r: String)
        ensures
            r@ == form_text(pairs@.map_values(|p: (&str, &str)| (p.0@, p.1@))),
    {
        let ghost ps = pairs@.map_values(|p: (&str, &str)| (p.0@, p.1@));
        let ghost pieces = ps.map_values(|p: (Seq<char>, Seq<char>)| encoded_pair(p));
        let mut out = String::new();
        let mut i: usize = 0;
        assert(pieces.take(0) =~= seq![]);
        while i < pairs.len()
            invariant
                i <= pairs@.len(),
                ps == pairs@.map_values(|p: (&str, &str)| (p.0@, p.1@)),
                pieces == ps.map_values(|p: (Seq<char>, Seq<char>)| encoded_pair(p)),
                out@ == join_amp(pieces.take(i as int)),
            decreases pairs.len() - i,
        {
            let ghost before = out@;
            if i > 0 {
                push_char(&mut out, '&');
            }
            let (k, v) = pairs[i];
            push_str(&mut out, UrlEncoding::encode(k).as_str());
            push_char(&mut out, '=');
            push_str(&mut out, UrlEncoding::encode(v).as_str());
            assert(pieces[i as int] == encoded_pair(ps[i as int]));
            assert(pieces.take(i + 1).drop_last() =~= pieces.take(i as int));
            if i == 0 {
                assert(out@ =~= join_amp(pieces.take(i + 1)));
            } else {
                assert(out@ =~= join_amp(pieces.take(i + 1)));
            }
            i += 1;
        }
        assert(pieces.take(i as int) =~= pieces);
        out
    }
}

/// Percent-encoded bytes are ASCII and hold no `&` or `=`.
proof fn lemma_percent_encode_plain(b: Seq<u8>)
    ensures
        forall|i: int|
            0 <= i < percent_encode(b).len() ==> #[trigger] percent_encode(b)[i] != 0x26u8
                && percent_encode(b)[i] != 0x3du8 && percent_encode(b)[i] < 128,
    decreases b.len(),
{
    if b.len() > 0 {
        lemma_percent_encode_plain(b.drop_last());
        let a = percent_encode(b.drop_last());
        let e = crate::url_encoding::encode_byte(b.last());
        let x = b.last();
        assert(x / 16 < 16 && x % 16 < 16);
        assert forall|i: int| 0 <= i < percent_encode(b).len() implies #[trigger] percent_encode(
            b,
        )[i] != 0x26u8 && percent_encode(b)[i] != 0x3du8 && percent_encode(b)[i] < 128 by {
            if i < a.len() {
                assert(percent_encode(b)[i] == a[i]);
            } else {
                assert(percent_encode(b)[i] == e[i - a.len()]);
            }
        }
    }
}

/// Encoded text holds neither `&` nor `=`.
proof fn lemma_encoded_plain(s: Seq<char>)
    ensures
        forall|i: int|
            0 <= i < encoded(s).len() ==> #[trigger] encoded(s)[i] != '&' && encoded(s)[i] != '=',
{
    let b = percent_encode(encode_utf8(s));
    lemma_percent_encode_plain(encode_utf8(s));
    assert forall|i: int| 0 <= i < encoded(s).len() implies #[trigger] encoded(s)[i] != '&'
        && encoded(s)[i] != '=' by {
        assert(encoded(s)[i] == b[i] as char);
        assert(b[i] != 0x26u8 && b[i] != 0x3du8 && b[i] < 128);
    }
}

/// A text without `c` has no match of `c`.
proof fn lemma_find_absent(s: Seq<char>, c: char)
    requires
        forall|i: int| 0 <= i < s.len() ==> s[i] != c,
    ensures
        find(s, seq![c]) is None,
{
    lemma_find_from(s, seq![c], 0);
    if let Some(i) = find(s, seq![c]) {
        assert(s.subrange(i, i + 1)[0] == s[i]);
    }
}

/// `a`, a separator `c` that `a` does not hold, then `b`: the first match of
/// `c` is the separator.
proof fn lemma_find_after(a: Seq<char>, c: char, b: Seq<char>)
    requires
        forall|i: int| 0 <= i < a.len() ==> a[i] != c,
    ensures
        find(a + seq![c] + b, seq![c]) == Some(a.len() as int),
{
    let s = a + seq![c] + b;
    assert(s.subrange(a.len() as int, a.len() + 1int) =~= seq![c]);
    assert forall|j: int| 0 <= j < a.len() implies #[trigger] s.subrange(j, j + 1) != seq![c] by {
        assert(s.subrange(j, j + 1)[0] == a[j]);
    }
    lemma_find_first(s, seq![c], 0, a.len() as int);
}

/// Joining is the first piece, `&`, then the rest joined.
proof fn lemma_join_first(pieces: Seq<Seq<char>>)
    requires
        pieces.len() >= 2,
    ensures
        join_amp(pieces) == pieces[0] + seq!['&'] + join_amp(pieces.drop_first()),
    decreases pieces.len(),
{
    if pieces.len() > 2 {
        lemma_join_first(pieces.drop_last());
        assert(pieces.drop_last().drop_first() =~= pieces.drop_first().drop_last());
        assert(pieces.drop_first().last() == pieces.last());
        assert(join_amp(pieces.drop_first()) == join_amp(pieces.drop_first().drop_last()) + seq![
            '&',
        ] + pieces.drop_first().last());
        assert(join_amp(pieces) =~= pieces[0] + seq!['&'] + join_amp(pieces.drop_first()));
    } else {
        assert(pieces.drop_last() =~= seq![pieces[0]]);
        assert(pieces.drop_first() =~= seq![pieces[1]]);
        assert(join_amp(pieces.drop_last()) == pieces[0]);
        assert(join_amp(pieces.drop_first()) == pieces[1]);
    }
}

/// Splitting joined pieces that hold no `&` gives the pieces back.
proof fn lemma_split_join(pieces: Seq<Seq<char>>)
    requires
        pieces.len() >= 1,
        forall|k: int, i: int|
            0 <= k < pieces.len() && 0 <= i < pieces[k].len() ==> #[trigger] pieces[k][i] != '&',
    ensures
        split(join_amp(pieces), seq!['&']) == pieces,
    decreases pieces.len(),
{
    if pieces.len() == 1 {
        lemma_find_absent(pieces[0], '&');
        assert(split(pieces[0], seq!['&']) =~= seq![pieces[0]]);
    } else {
        lemma_join_first(pieces);
        let rest = join_amp(pieces.drop_first());
        let s = pieces[0] + seq!['&'] + rest;
        lemma_find_after(pieces[0], '&', rest);
        assert(s.take(pieces[0].len() as int) =~= pieces[0]);
        assert(s.skip(pieces[0].len() + 1int) =~= rest);
        lemma_split_join(pieces.drop_first());
        assert(seq![pieces[0]] + pieces.drop_first() =~= pieces);
    }
}

/// Reading the entries of encoded pairs gives the entries of the pairs.
proof fn lemma_form_entries_encoded(pairs: Seq<(Seq<char>, Seq<char>)>)
    ensures
        form_entries(pairs.map_values(|p: (Seq<char>, Seq<char>)| encoded_pair(p))) == Ok::<
            Seq<Entry>,
            HttpError,
        >(pairs_entries(pairs)),
    decreases pairs.len(),
{
    let pieces = pairs.map_values(|p: (Seq<char>, Seq<char>)| encoded_pair(p));
    if pairs.len() > 0 {
        lemma_form_entries_encoded(pairs.drop_last());
        assert(pieces.drop_last() =~= pairs.drop_last().map_values(
            |p: (Seq<char>, Seq<char>)| encoded_pair(p),
        ));
        let (k, v) = pairs.last();
        assert(pieces.last() == encoded_pair((k, v)));
        lemma_encoded_plain(k);
        lemma_find_after(encoded(k), '=', encoded(v));
        let piece = encoded(k) + seq!['='] + encoded(v);
        assert(piece.take(encoded(k).len() as int) =~= encoded(k));
        assert(piece.skip(encoded(k).len() + 1int) =~= encoded(v));
        url_roundtrip(k);
        url_roundtrip(v);
        assert(piece.len() > 0);
    } else {
        assert(pieces =~= seq![]);
    }
}

/// Parsing the form text of a list of pairs gives the entries of the pairs:
/// every name with the value of its last pair, names in order of first
/// appearance.
pub proof fn form_roundtrip(pairs: Seq<(Seq<char>, Seq<char>)>)
    ensures
        form_entries(split(form_text(pairs), seq!['&'])) == Ok::<Seq<Entry>, HttpError>(
            pairs_entries(pairs),
        ),
{
    let pieces = pairs.map_values(|p: (Seq<char>, Seq<char>)| encoded_pair(p));
    lemma_form_entries_encoded(pairs);
    if pairs.len() == 0 {
        let empty: Seq<char> = seq![];
        assert(form_text(pairs) =~= empty);
        lemma_find_absent(empty, '&');
        assert(split(empty, seq!['&']) =~= seq![empty]);
        assert(seq![empty].drop_last() =~= seq![]);
        assert(form_entries(seq![empty].drop_last()) == Ok::<Seq<Entry>, HttpError>(seq![]));
        assert(seq![empty].last() == empty);
        assert(form_entries(seq![empty]) == Ok::<Seq<Entry>, HttpError>(seq![]));
        assert(pairs_entries(pairs) == Seq::<Entry>::empty());
    } else {
        assert forall|k: int, i: int|
            0 <= k < pieces.len() && 0 <= i < pieces[k].len() implies #[trigger] pieces[k][i]
            != '&' by {
            let (a, b) = pairs[k];
            lemma_encoded_plain(a);
            lemma_encoded_plain(b);
            assert(pieces[k] == encoded(a) + seq!['='] + encoded(b));
            if i < encoded(a).len() {
            } else if i > encoded(a).len() {
                assert(pieces[k][i] == encoded(b)[i - encoded(a).len() - 1]);
            }
        }
        lemma_split_join(pieces);
        assert(split(form_text(pairs), seq!['&']) == pieces);
    }
}

/// Where no two pairs share a name, parsing the form text of the pairs
/// gives exactly those pairs, in order.
pub proof fn form_roundtrip_distinct(pairs: Seq<(Seq<char>, Seq<char>)>)
    requires
        forall|i: int, j: int|
            0 <= i < j < pairs.len() ==> #[trigger] pairs[i].0 != #[trigger] pairs[j].0,
    ensures
        form_entries(split(form_text(pairs), seq!['&'])) == Ok::<Seq<Entry>, HttpError>(pairs),
{
    form_roundtrip(pairs);
    lemma_pairs_entries_distinct(pairs);
}

/// Setting pairs with distinct names in turn keeps every pair.
proof fn lemma_pairs_entries_distinct(pairs: Seq<(Seq<char>, Seq<char>)>)
    requires
        forall|i: int, j: int|
            0 <= i < j < pairs.len() ==> #[trigger] pairs[i].0 != #[trigger] pairs[j].0,
    ensures
        pairs_entries(pairs) == pairs,
    decreases pairs.len(),
{
    if pairs.len() > 0 {
        let init = pairs.drop_last();
        assert forall|i: int, j: int| 0 <= i < j < init.len() implies #[trigger] init[i].0
            != #[trigger] init[j].0 by {
            assert(init[i] == pairs[i] && init[j] == pairs[j]);
        }
        lemma_pairs_entries_distinct(init);
        let k = pairs.last().0;
        crate::headers::lemma_index_from(init, k, 0);
        if let Some(i) = crate::headers::index_of(init, k) {
            assert(init[i] == pairs[i]);
            assert(pairs[i].0 != pairs[pairs.len() - 1].0);
        }
        assert(init.push(pairs.last()) =~= pairs);
    }
}

/// Once a prefix of the pieces fails, the whole fails the same way.
proof fn lemma_form_entries_err(pieces: Seq<Seq<char>>, k: int)
    requires
        0 <= k <= pieces.len(),
    ensures
        form_entries(pieces.take(k)) is Err ==> form_entries(pieces) == form_entries(
            pieces.take(k),
        ),
    decreases pieces.len() - k,
{
    if k < pieces.len() {
        lemma_form_entries_err(pieces, k + 1);
        assert(pieces.take(k + 1).drop_last() =~= pieces.take(k));
    } else {
        assert(pieces.take(k) =~= pieces);
    }
}

} // verus!
