//! Text helpers shared by the parsers: character sequences, searching and
//! splitting, ASCII case folding and whitespace trimming.
use vstd::prelude::*;
use vstd::string::StringSliceAdditionalSpecFns;
use vstd::utf8::{
    valid_utf8, decode_utf8, encode_utf8, encode_scalar, has_width_1_encoding,
    encode_utf8_decode_utf8, is_ascii_chars, is_ascii_chars_encode_utf8,
};

verus! {

// ---------------------------------------------------------------------------
// Searching and splitting (specifications)
// ---------------------------------------------------------------------------

/// The first index `i >= from` at which `pat` occurs in `s`.
pub open spec fn find_from<T>(s: Seq<T>, pat: Seq<T>, from: int) -> Option<int>
    decreases s.len() + 1 - from,
{
    if from < 0 || s.len() < from + pat.len() {
        None
    } else if s.subrange(from, from + pat.len()) == pat {
        Some(from)
    } else {
        find_from(s, pat, from + 1)
    }
}

/// The first index at which `pat` occurs in `s`.
pub open spec fn find<T>(s: Seq<T>, pat: Seq<T>) -> Option<int> {
    find_from(s, pat, 0)
}

/// `s` cut at every (non-overlapping, leftmost) occurrence of `pat`,
/// as `str::split` does.
pub open spec fn split<T>(s: Seq<T>, pat: Seq<T>) -> Seq<Seq<T>>
    decreases s.len(),
{
    if pat.len() == 0 {
        seq![s]
    } else {
        match find(s, pat) {
            None => seq![s],
            Some(i) => {
                proof {
                    lemma_find_from(s, pat, 0);
                }
                seq![s.take(i)] + split(s.skip(i + pat.len()), pat)
            },
        }
    }
}

/// `s` cut at the first occurrence of `pat`, as `str::split_once` does.
pub open spec fn split_once<T>(s: Seq<T>, pat: Seq<T>) -> Option<(Seq<T>, Seq<T>)> {
    match find(s, pat) {
        None => None,
        Some(i) => Some((s.take(i), s.skip(i + pat.len()))),
    }
}

/// The part of `s` before the first occurrence of `pat` (all of `s` if there is none).
pub open spec fn before<T>(s: Seq<T>, pat: Seq<T>) -> Seq<T> {
    match find(s, pat) {
        None => s,
        Some(i) => s.take(i),
    }
}

/// What `find_from` returns: the first match at or after `from`.
pub proof fn lemma_find_from<T>(s: Seq<T>, pat: Seq<T>, from: int)
    requires
        0 <= from,
    ensures
        match find_from(s, pat, from) {
            Some(i) => {
                &&& from <= i
                &&& i + pat.len() <= s.len()
                &&& s.subrange(i, i + pat.len()) == pat
                &&& forall|j: int|
                    from <= j < i ==> #[trigger] s.subrange(j, j + pat.len()) != pat
            },
            None => forall|j: int|
                from <= j && j + pat.len() <= s.len() ==> #[trigger] s.subrange(j, j + pat.len())
                    != pat,
        },
    decreases s.len() + 1 - from,
{
    if s.len() < from + pat.len() {
    } else if s.subrange(from, from + pat.len()) == pat {
    } else {
        lemma_find_from(s, pat, from + 1);
    }
}

/// Splitting gives at least one piece.
pub proof fn lemma_split_nonempty<T>(s: Seq<T>, pat: Seq<T>)
    ensures
        split(s, pat).len() >= 1,
{
}

/// A match at `i`, with none between `from` and `i`, is what `find_from`
/// finds.
pub proof fn lemma_find_first<T>(s: Seq<T>, pat: Seq<T>, from: int, i: int)
    requires
        0 <= from <= i,
        i + pat.len() <= s.len(),
        s.subrange(i, i + pat.len()) == pat,
        forall|j: int| from <= j < i ==> #[trigger] s.subrange(j, j + pat.len()) != pat,
    ensures
        find_from(s, pat, from) == Some(i),
    decreases i - from,
{
    if from < i {
        assert(s.subrange(from, from + pat.len()) != pat);
        lemma_find_first(s, pat, from + 1, i);
    }
}

/// A match found in a suffix of `s` is a match in `s`, shifted.
pub proof fn lemma_find_from_skip<T>(s: Seq<T>, pat: Seq<T>, k: int, from: int)
    requires
        0 <= k <= s.len(),
        0 <= from,
    ensures
        find_from(s.skip(k), pat, from) == (match find_from(s, pat, k + from) {
            Some(i) => Some(i - k),
            None => None,
        }),
    decreases s.len() + 1 - k - from,
{
    let t = s.skip(k);
    if t.len() < from + pat.len() {
    } else {
        assert(t.subrange(from, from + pat.len()) =~= s.subrange(k + from, k + from + pat.len()));
        if t.subrange(from, from + pat.len()) == pat {
        } else {
            lemma_find_from_skip(s, pat, k, from + 1);
        }
    }
}

/// The texts held by a vector of character vectors.
pub open spec fn views(r: Seq<Vec<char>>) -> Seq<Seq<char>> {
    r.map_values(|v: Vec<char>| v@)
}

// ---------------------------------------------------------------------------
// Searching and splitting (executable)
// ---------------------------------------------------------------------------

/// Whether `pat` occurs in `s` at index `i`.
fn matches_at(s: &[char], i: usize, pat: &[char]) -> (r: bool)
    requires
        i + pat@.len() <= s@.len(),
    ensures
        r == (s@.subrange(i as int, i + pat@.len()) == pat@),
{
    let n = s.len();
    let mut j: usize = 0;
    while j < pat.len()
        invariant
            j <= pat@.len(),
            i + pat@.len() <= s@.len(),
            n == s@.len(),
            forall|k: int| 0 <= k < j ==> s@[i + k] == pat@[k],
        decreases pat.len() - j,
    {
        assert(i + j < s@.len());
        if s[i + j] != pat[j] {
            assert(s@.subrange(i as int, i + pat@.len())[j as int] != pat@[j as int]);
            return false;
        }
        j += 1;
    }
    assert(s@.subrange(i as int, i + pat@.len()) =~= pat@);
    true
}

/// The first index at or after `from` where `pat` occurs in `s`.
pub fn find_chars_from(s: &[char], pat: &[char], from: usize) -> (r: Option<usize>)
    ensures
        match r {
            Some(i) => find_from(s@, pat@, from as int) == Some(i as int),
            None => find_from(s@, pat@, from as int) is None,
        },
{
    if pat.len() > s.len() || from > s.len() - pat.len() {
        return None;
    }
    let last = s.len() - pat.len();
    let mut i = from;
    loop
        invariant
            from <= i <= last,
            last + pat@.len() == s@.len(),
            find_from(s@, pat@, from as int) == find_from(s@, pat@, i as int),
        decreases last - i,
    {
        if matches_at(s, i, pat) {
            return Some(i);
        }
        if i == last {
            assert(find_from(s@, pat@, i + 1) is None);
            return None;
        }
        i += 1;
    }
}

/// Whether the bytes `pat` occur in `s` at index `i`.
fn bytes_match_at(s: &[u8], i: usize, pat: &[u8]) -> (r: bool)
    requires
        i + pat@.len() <= s@.len(),
    ensures
        r == (s@.subrange(i as int, i + pat@.len()) == pat@),
{
    let n = s.len();
    let mut j: usize = 0;
    while j < pat.len()
        invariant
            j <= pat@.len(),
            i + pat@.len() <= s@.len(),
            n == s@.len(),
            forall|k: int| 0 <= k < j ==> s@[i + k] == pat@[k],
        decreases pat.len() - j,
    {
        if s[i + j] != pat[j] {
            assert(s@.subrange(i as int, i + pat@.len())[j as int] != pat@[j as int]);
            return false;
        }
        j += 1;
    }
    assert(s@.subrange(i as int, i + pat@.len()) =~= pat@);
    true
}

/// The first index at or after `from` where the bytes `pat` occur in `s`.
pub fn find_bytes_from(s: &[u8], pat: &[u8], from: usize) -> (r: Option<usize>)
    ensures
        match r {
            Some(i) => find_from(s@, pat@, from as int) == Some(i as int),
            None => find_from(s@, pat@, from as int) is None,
        },
{
    if pat.len() > s.len() || from > s.len() - pat.len() {
        return None;
    }
    let last = s.len() - pat.len();
    let mut i = from;
    loop
        invariant
            from <= i <= last,
            last + pat@.len() == s@.len(),
            find_from(s@, pat@, from as int) == find_from(s@, pat@, i as int),
        decreases last - i,
    {
        if bytes_match_at(s, i, pat) {
            return Some(i);
        }
        if i == last {
            assert(find_from(s@, pat@, i + 1) is None);
            return None;
        }
        i += 1;
    }
}

/// The first index where `pat` occurs in `s`.
pub fn find_chars(s: &[char], pat: &[char]) -> (r: Option<usize>)
    ensures
        match r {
            Some(i) => find(s@, pat@) == Some(i as int),
            None => find(s@, pat@) is None,
        },
{
    find_chars_from(s, pat, 0)
}

/// The first `n` bytes of `s`.
pub fn prefix_bytes(s: &[u8], n: usize) -> (r: &[u8])
    requires
        n <= s@.len(),
    ensures
        r@ == s@.take(n as int),
{
    let r = &s[0..n];
    assert(r@ =~= s@.take(n as int));
    r
}

/// The bytes `s[lo..hi]`.
pub fn slice_bytes(s: &[u8], lo: usize, hi: usize) -> (r: &[u8])
    requires
        lo <= hi <= s@.len(),
    ensures
        r@ == s@.subrange(lo as int, hi as int),
{
    &s[lo..hi]
}

/// The characters `s[lo..hi]` as a new vector.
pub fn slice_chars(s: &[char], lo: usize, hi: usize) -> (r: Vec<char>)
    requires
        lo <= hi <= s@.len(),
    ensures
        r@ == s@.subrange(lo as int, hi as int),
{
    let mut r: Vec<char> = Vec::new();
    let mut i = lo;
    while i < hi
        invariant
            lo <= i <= hi <= s@.len(),
            r@ == s@.subrange(lo as int, i as int),
        decreases hi - i,
    {
        r.push(s[i]);
        i += 1;
        assert(r@ =~= s@.subrange(lo as int, i as int));
    }
    r
}

/// `s` cut at the first occurrence of `pat`.
pub fn split_once_chars(s: &[char], pat: &[char]) -> (r: Option<(Vec<char>, Vec<char>)>)
    ensures
        match r {
            Some((a, b)) => split_once(s@, pat@) == Some((a@, b@)),
            None => split_once(s@, pat@) is None,
        },
{
    match find_chars(s, pat) {
        None => None,
        Some(i) => {
            proof {
                lemma_find_from(s@, pat@, 0);
            }
            let n = s.len();
            assert(i + pat@.len() <= n);
            let a = slice_chars(s, 0, i);
            let b = slice_chars(s, i + pat.len(), s.len());
            assert(a@ =~= s@.take(i as int));
            assert(b@ =~= s@.skip(i + pat@.len()));
            Some((a, b))
        },
    }
}

/// The part of `s` before the first occurrence of `pat`.
pub fn before_chars(s: &[char], pat: &[char]) -> (r: Vec<char>)
    ensures
        r@ == before(s@, pat@),
{
    match find_chars(s, pat) {
        None => slice_chars(s, 0, s.len()),
        Some(i) => {
            proof {
                lemma_find_from(s@, pat@, 0);
            }
            slice_chars(s, 0, i)
        },
    }
}

/// `s` cut at every occurrence of the non-empty pattern `pat`.
pub fn split_chars(s: &[char], pat: &[char]) -> (r: Vec<Vec<char>>)
    requires
        pat@.len() > 0,
    ensures
        views(r@) == split(s@, pat@),
{
    let mut r: Vec<Vec<char>> = Vec::new();
    let mut pos: usize = 0;
    assert(s@.skip(0) =~= s@);
    assert(views(r@) =~= Seq::<Seq<char>>::empty());
    loop
        invariant
            pat@.len() > 0,
            pos <= s@.len(),
            split(s@, pat@) == views(r@) + split(s@.skip(pos as int), pat@),
        decreases s.len() - pos,
    {
        let ghost rest = s@.skip(pos as int);
        proof {
            lemma_find_from_skip(s@, pat@, pos as int, 0);
        }
        match find_chars_from(s, pat, pos) {
            None => {
                let piece = slice_chars(s, pos, s.len());
                assert(piece@ =~= rest);
                let ghost old_r = views(r@);
                r.push(piece);
                assert(views(r@) =~= old_r.push(piece@));
                assert(split(rest, pat@) =~= seq![rest]);
                assert(split(s@, pat@) =~= views(r@));
                return r;
            },
            Some(i) => {
                proof {
                    lemma_find_from(s@, pat@, pos as int);
                }
                let piece = slice_chars(s, pos, i);
                assert(piece@ =~= rest.take(i - pos));
                assert(s@.skip(i + pat@.len()) =~= rest.skip(i - pos + pat@.len()));
                let ghost old_r = views(r@);
                r.push(piece);
                assert(views(r@) =~= old_r.push(piece@));
                assert(split(rest, pat@) =~= seq![rest.take(i - pos)] + split(
                    rest.skip(i - pos + pat@.len()),
                    pat@,
                ));
                pos = i + pat.len();
                assert(split(s@, pat@) =~= views(r@) + split(s@.skip(pos as int), pat@));
            },
        }
    }
}

// ---------------------------------------------------------------------------
// Whitespace and case
// ---------------------------------------------------------------------------

/// Unicode `White_Space`, the property that `char::is_whitespace` and
/// `str::trim` go by.
pub open spec fn is_whitespace(c: char) -> bool {
    ||| ('\u{9}' <= c <= '\u{d}')
    ||| c == ' '
    ||| c == '\u{85}'
    ||| c == '\u{a0}'
    ||| c == '\u{1680}'
    ||| ('\u{2000}' <= c <= '\u{200a}')
    ||| c == '\u{2028}'
    ||| c == '\u{2029}'
    ||| c == '\u{202f}'
    ||| c == '\u{205f}'
    ||| c == '\u{3000}'
}

/// Whether `c` is Unicode whitespace.
pub fn is_whitespace_char(c: char) -> (r: bool)
    ensures
        r == is_whitespace(c),
{
    ('\u{9}' <= c && c <= '\u{d}') || c == ' ' || c == '\u{85}' || c == '\u{a0}' || c
        == '\u{1680}' || ('\u{2000}' <= c && c <= '\u{200a}') || c == '\u{2028}' || c
        == '\u{2029}' || c == '\u{202f}' || c == '\u{205f}' || c == '\u{3000}'
}

/// `s` without leading whitespace.
pub open spec fn trim_start(s: Seq<char>) -> Seq<char>
    decreases s.len(),
{
    if s.len() > 0 && is_whitespace(s[0]) {
        trim_start(s.drop_first())
    } else {
        s
    }
}

/// `s` without trailing whitespace.
pub open spec fn trim_end(s: Seq<char>) -> Seq<char>
    decreases s.len(),
{
    if s.len() > 0 && is_whitespace(s.last()) {
        trim_end(s.drop_last())
    } else {
        s
    }
}

/// `s` without leading and trailing whitespace, as `str::trim` gives it.
pub open spec fn trim(s: Seq<char>) -> Seq<char> {
    trim_end(trim_start(s))
}

/// `s` without surrounding whitespace.
pub fn trim_chars(s: &[char]) -> (r: Vec<char>)
    ensures
        r@ == trim(s@),
{
    let mut lo: usize = 0;
    assert(s@.skip(0) =~= s@);
    while lo < s.len() && is_whitespace_char(s[lo])
        invariant
            lo <= s@.len(),
            trim_start(s@) == trim_start(s@.skip(lo as int)),
        decreases s.len() - lo,
    {
        assert(s@.skip(lo as int).drop_first() =~= s@.skip(lo + 1));
        lo += 1;
    }
    let ghost t = s@.skip(lo as int);
    assert(trim_start(t) == t);
    let mut hi: usize = s.len();
    while hi > lo && is_whitespace_char(s[hi - 1])
        invariant
            lo <= hi <= s@.len(),
            t == s@.skip(lo as int),
            trim_end(t) == trim_end(s@.subrange(lo as int, hi as int)),
        decreases hi,
    {
        assert(s@.subrange(lo as int, hi as int).drop_last() =~= s@.subrange(
            lo as int,
            hi - 1,
        ));
        hi -= 1;
    }
    assert(t =~= s@.subrange(lo as int, s@.len() as int));
    slice_chars(s, lo, hi)
}

/// ASCII lower case of one character (other characters are kept).
pub open spec fn lower(c: char) -> char {
    if 'A' <= c <= 'Z' {
        ((c as u32) + 32) as char
    } else {
        c
    }
}

/// ASCII lower case of a text, as `str::to_ascii_lowercase` gives it.
pub open spec fn lower_all(s: Seq<char>) -> Seq<char> {
    s.map_values(|c: char| lower(c))
}

/// The ASCII lower case of `c`.
pub fn lower_char(c: char) -> (r: char)
    ensures
        r == lower(c),
{
    if 'A' <= c && c <= 'Z' {
        let b = c as u8;
        assert(b == c as u32);
        ((b + 32) as char)
    } else {
        c
    }
}

/// The ASCII lower case of `s`.
pub fn lower_chars(s: &[char]) -> (r: Vec<char>)
    ensures
        r@ == lower_all(s@),
{
    let mut r: Vec<char> = Vec::new();
    let mut i: usize = 0;
    while i < s.len()
        invariant
            i <= s@.len(),
            r@ == lower_all(s@.take(i as int)),
        decreases s.len() - i,
    {
        r.push(lower_char(s[i]));
        i += 1;
        assert(r@ =~= lower_all(s@.take(i as int)));
    }
    assert(s@.take(s@.len() as int) =~= s@);
    r
}

// ---------------------------------------------------------------------------
// Conversions between `str`, `String` and characters
// ---------------------------------------------------------------------------

/// The characters of `s`, in order.
pub fn chars_of(s: &str) -> (out: Vec<char>)
    ensures
        out@ == s@,
{
    let mut out: Vec<char> = Vec::new();
    for c in it: s.chars()
        invariant
            out@ == it.seq().take(it.index() as int),
            it.seq() == s@,
    {
        out.push(c);
    }
    out
}

/// Appends one character to a `String`.
///
/// Trusted: `String::push` appends `c` to the string, as its documentation
/// says.
#[verifier::external_body]
pub(crate) fn push_char(s: &mut String, c: char)
    ensures
        final(s)@ == old(s)@.push(c),
{
    s.push(c);
}

/// A `String` holding exactly the given characters.
pub fn string_of(cs: &[char]) -> (out: String)
    ensures
        out@ == cs@,
{
    let mut out = String::new();
    let mut i: usize = 0;
    while i < cs.len()
        invariant
            i <= cs@.len(),
            out@ == cs@.take(i as int),
        decreases cs.len() - i,
    {
        push_char(&mut out, cs[i]);
        i += 1;
        assert(out@ =~= cs@.take(i as int));
    }
    assert(cs@.take(cs@.len() as int) =~= cs@);
    out
}

/// Appends the characters of `cs` to `out`.
pub fn push_chars(out: &mut String, cs: &[char])
    ensures
        final(out)@ == old(out)@ + cs@,
{
    let ghost start = out@;
    let mut i: usize = 0;
    while i < cs.len()
        invariant
            i <= cs@.len(),
            out@ == start + cs@.take(i as int),
        decreases cs.len() - i,
    {
        push_char(out, cs[i]);
        i += 1;
        assert(out@ =~= start + cs@.take(i as int));
    }
    assert(cs@.take(cs@.len() as int) =~= cs@);
}

/// Appends `s` to `out`.
pub fn push_str(out: &mut String, s: &str)
    ensures
        final(out)@ == old(out)@ + s@,
{
    let cs = chars_of(s);
    push_chars(out, cs.as_slice());
}

/// Whether two character sequences are equal.
pub fn chars_eq(a: &[char], b: &[char]) -> (r: bool)
    ensures
        r == (a@ == b@),
{
    if a.len() != b.len() {
        return false;
    }
    let mut i: usize = 0;
    while i < a.len()
        invariant
            a@.len() == b@.len(),
            i <= a@.len(),
            forall|k: int| 0 <= k < i ==> a@[k] == b@[k],
        decreases a.len() - i,
    {
        if a[i] != b[i] {
            return false;
        }
        i += 1;
    }
    assert(a@ =~= b@);
    true
}

/// Whether the characters `a` spell the text `b`.
pub fn chars_eq_str(a: &[char], b: &str) -> (r: bool)
    ensures
        r == (a@ == b@),
{
    let bc = chars_of(b);
    chars_eq(a, bc.as_slice())
}

// ---------------------------------------------------------------------------
// UTF-8
// ---------------------------------------------------------------------------

/// Reads `bytes` as UTF-8 text.
///
/// Trusted: `std::str::from_utf8` accepts exactly the valid UTF-8 byte
/// sequences and returns a string slice over those same bytes.
#[verifier::external_body]
fn str_from_utf8(bytes: &[u8]) -> (r: Option<&str>)
    ensures
        r is Some <==> valid_utf8(bytes@),
        r matches Some(s) ==> s.spec_bytes() == bytes@,
{
    std::str::from_utf8(bytes).ok()
}

/// The text that `bytes` encode in UTF-8, if they are valid UTF-8.
pub fn utf8_text(bytes: &[u8]) -> (r: Option<&str>)
    ensures
        r is Some <==> valid_utf8(bytes@),
        r matches Some(s) ==> s@ == decode_utf8(bytes@) && encode_utf8(s@) == bytes@,
{
    let r = str_from_utf8(bytes);
    if let Some(s) = r {
        proof {
            encode_utf8_decode_utf8(s@);
        }
    }
    r
}

/// The characters that `bytes` encode in UTF-8, if they are valid UTF-8.
pub fn utf8_chars(bytes: &[u8]) -> (r: Option<Vec<char>>)
    ensures
        r is Some <==> valid_utf8(bytes@),
        r matches Some(cs) ==> cs@ == decode_utf8(bytes@) && encode_utf8(cs@) == bytes@,
{
    match utf8_text(bytes) {
        Some(s) => Some(chars_of(s)),
        None => None,
    }
}

/// The characters `b` stand for, one per byte (meant for ASCII bytes).
pub open spec fn ascii_chars(b: Seq<u8>) -> Seq<char> {
    b.map_values(|x: u8| x as char)
}

/// The UTF-8 encoding of ASCII text is its bytes.
pub proof fn lemma_ascii_encoding(b: Seq<u8>)
    requires
        forall|i: int| 0 <= i < b.len() ==> #[trigger] b[i] < 128,
    ensures
        encode_utf8(ascii_chars(b)) == b,
{
    let cs = ascii_chars(b);
    assert(is_ascii_chars(cs)) by {
        assert forall|i: int| 0 <= i < cs.len() implies '\0' <= #[trigger] cs[i] <= '\u{7f}' by {
            assert(b[i] < 128);
        }
    }
    is_ascii_chars_encode_utf8(cs);
    assert(encode_utf8(cs) =~= b);
}

/// The encoding of a concatenation is the concatenation of the encodings.
pub proof fn lemma_encode_concat(a: Seq<char>, b: Seq<char>)
    ensures
        encode_utf8(a + b) == encode_utf8(a) + encode_utf8(b),
    decreases a.len(),
{
    if a.len() == 0 {
        assert(a + b =~= b);
        assert(encode_utf8(a) + encode_utf8(b) =~= encode_utf8(b));
    } else {
        lemma_encode_concat(a.drop_first(), b);
        assert((a + b).drop_first() =~= a.drop_first() + b);
        assert((a + b)[0] == a[0]);
        assert(encode_utf8(a + b) =~= encode_utf8(a) + encode_utf8(b));
    }
}

/// Setting a high bit keeps a byte at or above `0x80`.
proof fn lemma_high_bits(y: u8)
    by (bit_vector)
    ensures
        (0x80u8 | y) >= 0x80u8,
        (0xC0u8 | y) >= 0x80u8,
        (0xE0u8 | y) >= 0x80u8,
        (0xF0u8 | y) >= 0x80u8,
{
}

/// A value below `0x80` is its own one-byte encoding.
proof fn lemma_low_byte(x: u32)
    by (bit_vector)
    requires
        x <= 0x7Fu32,
    ensures
        ((x & 0x7Fu32) as u8) as u32 == x,
{
}

/// A byte below `0x80` in the encoding of a scalar is the whole encoding,
/// and is the scalar's value.
proof fn lemma_scalar_ascii(x: u32, i: int)
    requires
        0 <= i < encode_scalar(x).len(),
        encode_scalar(x)[i] < 0x80,
    ensures
        i == 0,
        encode_scalar(x).len() == 1,
        x <= 0x7F,
        encode_scalar(x)[0] as u32 == x,
{
    if has_width_1_encoding(x) {
        lemma_low_byte(x);
    } else {
        lemma_high_bits(((x >> 6u32) & 0x1Fu32) as u8);
        lemma_high_bits(((x >> 12u32) & 0x0Fu32) as u8);
        lemma_high_bits(((x >> 18u32) & 0x7u32) as u8);
        lemma_high_bits((x & 0x3Fu32) as u8);
        lemma_high_bits(((x >> 6u32) & 0x3Fu32) as u8);
        lemma_high_bits(((x >> 12u32) & 0x3Fu32) as u8);
    }
}

/// Where the encoding of the ASCII text `p` begins the encoding of `s`, `p`
/// begins `s`.
pub proof fn lemma_ascii_prefix(s: Seq<char>, p: Seq<char>)
    requires
        is_ascii_chars(p),
        encode_utf8(p).len() <= encode_utf8(s).len(),
        encode_utf8(s).take(encode_utf8(p).len() as int) == encode_utf8(p),
    ensures
        p.len() <= s.len(),
        s.take(p.len() as int) == p,
    decreases p.len(),
{
    is_ascii_chars_encode_utf8(p);
    if p.len() == 0 {
        assert(s.take(0) =~= p);
    } else {
        let es = encode_utf8(s);
        let ep = encode_utf8(p);
        assert(es[0] == ep[0]);
        assert(s.len() > 0);
        let x = s[0] as u32;
        assert(es =~= encode_scalar(x) + encode_utf8(s.drop_first()));
        assert(ep[0] == p[0] as u8);
        assert(p[0] <= '\u{7f}');
        lemma_scalar_ascii(x, 0);
        vstd::utf8::char_u32_cast(s[0], x);
        vstd::utf8::char_u32_cast(p[0], p[0] as u32);
        assert(s[0] == p[0]);
        let p1 = p.drop_first();
        let s1 = s.drop_first();
        assert(is_ascii_chars(p1)) by {
            assert forall|i: int| 0 <= i < p1.len() implies '\0' <= #[trigger] p1[i] <= '\u{7f}' by {
                assert(p1[i] == p[i + 1]);
            }
        }
        assert(ep =~= encode_scalar(p[0] as u32) + encode_utf8(p1));
        assert(encode_utf8(s1) =~= es.skip(1));
        assert(encode_utf8(p1) =~= ep.skip(1));
        assert(encode_utf8(s1).take(encode_utf8(p1).len() as int) =~= encode_utf8(p1));
        lemma_ascii_prefix(s1, p1);
        assert forall|i: int| 0 <= i < p.len() implies #[trigger] s.take(p.len() as int)[i] == p[i] by {
            if i > 0 {
                assert(s1.take(p1.len() as int)[i - 1] == p1[i - 1]);
            }
        }
        assert(s.take(p.len() as int) =~= p);
    }
}

/// An ASCII pattern met in the encoding of `s` at byte `j` is met in `s` at
/// a character index whose prefix encodes to `j` bytes.
pub proof fn lemma_ascii_pattern(s: Seq<char>, p: Seq<char>, j: int) -> (k: int)
    requires
        p.len() > 0,
        is_ascii_chars(p),
        0 <= j,
        j + encode_utf8(p).len() <= encode_utf8(s).len(),
        encode_utf8(s).subrange(j, j + encode_utf8(p).len()) == encode_utf8(p),
    ensures
        0 <= k,
        k + p.len() <= s.len(),
        s.subrange(k, k + p.len()) == p,
        encode_utf8(s.take(k)).len() == j,
    decreases s.len(),
{
    is_ascii_chars_encode_utf8(p);
    let es = encode_utf8(s);
    let ep = encode_utf8(p);
    assert(s.len() > 0);
    let e = encode_scalar(s[0] as u32);
    let rest = s.drop_first();
    assert(es =~= e + encode_utf8(rest));
    if j >= e.len() {
        assert(encode_utf8(rest).subrange(j - e.len(), j - e.len() + ep.len()) =~= es.subrange(
            j,
            j + ep.len(),
        ));
        let k1 = lemma_ascii_pattern(rest, p, j - e.len());
        assert(s.subrange(k1 + 1, k1 + 1 + p.len()) =~= rest.subrange(k1, k1 + p.len()));
        assert(s.take(k1 + 1).drop_first() =~= rest.take(k1));
        assert(s.take(k1 + 1)[0] == s[0]);
        k1 + 1
    } else {
        assert(es[j] == ep[0]);
        assert(ep[0] == p[0] as u8);
        assert(p[0] <= '\u{7f}');
        lemma_scalar_ascii(s[0] as u32, j);
        assert(es.take(ep.len() as int) =~= ep);
        lemma_ascii_prefix(s, p);
        assert(s.subrange(0, p.len() as int) =~= s.take(p.len() as int));
        assert(s.take(0) =~= Seq::<char>::empty());
        0
    }
}

/// What `trim_start` leaves is a suffix, shorter where `s` starts with
/// whitespace.
pub proof fn lemma_trim_start_suffix(s: Seq<char>)
    ensures
        trim_start(s).len() <= s.len(),
        trim_start(s) == s.skip(s.len() - trim_start(s).len()),
        s.len() > 0 && is_whitespace(s[0]) ==> trim_start(s).len() < s.len(),
    decreases s.len(),
{
    if s.len() > 0 && is_whitespace(s[0]) {
        lemma_trim_start_suffix(s.drop_first());
        assert(s.drop_first().skip(s.len() - 1 - trim_start(s).len()) =~= s.skip(
            s.len() - trim_start(s).len(),
        ));
    } else {
        assert(s.skip(0) =~= s);
    }
}

/// What `trim_end` leaves is a prefix, shorter where `s` ends with
/// whitespace.
pub proof fn lemma_trim_end_prefix(s: Seq<char>)
    ensures
        trim_end(s).len() <= s.len(),
        trim_end(s) == s.take(trim_end(s).len() as int),
        s.len() > 0 && is_whitespace(s.last()) ==> trim_end(s).len() < s.len(),
    decreases s.len(),
{
    if s.len() > 0 && is_whitespace(s.last()) {
        lemma_trim_end_prefix(s.drop_last());
        assert(s.drop_last().take(trim_end(s).len() as int) =~= s.take(trim_end(s).len() as int));
    } else {
        assert(s.take(s.len() as int) =~= s);
    }
}

/// Text that trimming leaves unchanged neither starts nor ends with
/// whitespace, and text that neither starts nor ends with it is left
/// unchanged.
pub proof fn lemma_trim_fixed(s: Seq<char>)
    ensures
        trim(s) == s <==> (s.len() == 0 || (!is_whitespace(s[0]) && !is_whitespace(s.last()))),
{
    lemma_trim_start_suffix(s);
    let u = trim_start(s);
    lemma_trim_end_prefix(u);
    if s.len() > 0 && !is_whitespace(s[0]) && !is_whitespace(s.last()) {
        assert(u == s);
        assert(trim_end(s) == s);
    }
    if trim(s) == s && s.len() > 0 {
        assert(u.len() == s.len());
        assert(s.skip(0) =~= s);
        assert(u == s);
        lemma_trim_end_prefix(s);
    }
}

} // verus!
