//! What HTTP/1.1 requests and responses share: the head/body split, the
//! fields of the start line and the header lines.
use vstd::prelude::*;
use vstd::utf8::{
    valid_utf8, decode_utf8, encode_utf8, encode_utf8_decode_utf8, encode_utf8_valid_utf8,
    is_ascii_chars, is_ascii_chars_encode_utf8,
};
use crate::error::HttpError;
use crate::headers::{Entry, Headers, http1_lines, names_lowercase};
use crate::text::{
    before, before_chars, find, find_bytes_from, lemma_ascii_pattern, lemma_encode_concat,
    lemma_find_first, lemma_find_from, lower_all,
    split, split_chars, split_once, split_once_chars, string_of, trim, trim_chars, trim_start,
    utf8_chars,
    views,
};

verus! {

/// The end of a message head, `\r\n\r\n`.
pub open spec fn head_end() -> Seq<u8> {
    seq![0x0du8, 0x0au8, 0x0du8, 0x0au8]
}

/// A line break, `\r\n`, as text.
pub open spec fn line_break() -> Seq<char> {
    seq!['\r', '\n']
}

/// The start line and the header lines of a message head.
pub open spec fn head_lines(head: Seq<char>) -> Seq<Seq<char>> {
    split(head, line_break())
}

/// The first space-separated field of a start line.
pub open spec fn first_field(line: Seq<char>) -> Seq<char> {
    before(line, seq![' '])
}

/// What follows the first space of a start line.
pub open spec fn after_first(line: Seq<char>) -> Option<Seq<char>> {
    match split_once(line, seq![' ']) {
        Some((_, r)) => Some(r),
        None => None,
    }
}

/// The header entries of header lines, each `name: value` cut at the first
/// `:`, the name trimmed and put in lower case, the value trimmed. `None` if
/// a line has no `:`.
pub open spec fn header_entries(lines: Seq<Seq<char>>) -> Option<Seq<Entry>>
    decreases lines.len(),
{
    if lines.len() == 0 {
        Some(seq![])
    } else {
        match header_entries(lines.drop_last()) {
            None => None,
            Some(es) => match split_once(lines.last(), seq![':']) {
                None => None,
                Some((n, v)) => Some(es.push((lower_all(trim(n)), trim(v)))),
            },
        }
    }
}

/// A message cut into its head (as text) and its body, if its bytes hold
/// the end of a head and the head is UTF-8.
pub enum Split {
    /// The head text and the body bytes.
    Parts(Seq<char>, Seq<u8>),
    /// The head is not UTF-8.
    NotText,
    /// No `\r\n\r\n` ends the head.
    NoHeadEnd,
}

/// Cutting a message at the first `\r\n\r\n`: the head before it must be
/// UTF-8 text; the body after it is any bytes.
pub open spec fn split_message(data: Seq<u8>) -> Split {
    match split_once(data, head_end()) {
        None => Split::NoHeadEnd,
        Some((head, body)) => if valid_utf8(head) {
            Split::Parts(decode_utf8(head), body)
        } else {
            Split::NotText
        },
    }
}

/// The bytes `s[lo..]` as a new vector.
pub fn tail_bytes(s: &[u8], lo: usize) -> (r: Vec<u8>)
    requires
        lo <= s@.len(),
    ensures
        r@ == s@.skip(lo as int),
{
    let mut r: Vec<u8> = Vec::new();
    let mut i = lo;
    while i < s.len()
        invariant
            lo <= i <= s@.len(),
            r@ == s@.subrange(lo as int, i as int),
        decreases s.len() - i,
    {
        r.push(s[i]);
        i += 1;
        assert(r@ =~= s@.subrange(lo as int, i as int));
    }
    assert(r@ =~= s@.skip(lo as int));
    r
}

/// Cuts a message at the first `\r\n\r\n`.
pub fn split_message_bytes(data: &[u8]) -> (r: Option<Option<(Vec<char>, Vec<u8>)>>)
    ensures
        match split_message(data@) {
            Split::NotText => r is None,
            Split::NoHeadEnd => r == Some(None::<(Vec<char>, Vec<u8>)>),
            Split::Parts(head, body) => r matches Some(Some((h, b))) && h@ == head && b@ == body,
        },
{
    let end: [u8; 4] = [0x0d, 0x0a, 0x0d, 0x0a];
    assert(end@ =~= head_end());
    let i = match find_bytes_from(data, end.as_slice(), 0) {
        Some(i) => i,
        None => return Some(None),
    };
    proof {
        lemma_find_from(data@, head_end(), 0);
    }
    let head_bytes = crate::text::prefix_bytes(data, i);
    let head = match utf8_chars(head_bytes) {
        Some(h) => h,
        None => return None,
    };
    let n = data.len();
    assert(i + 4 <= n);
    let body = tail_bytes(data, i + 4);
    Some(Some((head, body)))
}

/// The start line and the header lines of a head.
pub fn head_lines_of(head: &[char]) -> (r: Vec<Vec<char>>)
    ensures
        views(r@) == head_lines(head@),
        r@.len() >= 1,
{
    let br = ['\r', '\n'];
    assert(br@ =~= line_break());
    proof {
        crate::text::lemma_split_nonempty(head@, line_break());
    }
    split_chars(head, &br)
}

/// The first field of a start line and what follows its first space.
pub fn start_fields(line: &[char]) -> (r: (Vec<char>, Option<Vec<char>>))
    ensures
        r.0@ == first_field(line@),
        match after_first(line@) {
            Some(rest) => r.1 matches Some(v) && v@ == rest,
            None => r.1 is None,
        },
{
    let space = [' '];
    assert(space@ =~= seq![' ']);
    let first = before_chars(line, &space);
    match split_once_chars(line, &space) {
        Some((_, rest)) => (first, Some(rest)),
        None => (first, None),
    }
}

/// Appends the header lines `lines[1..]` to `headers`.
pub fn read_header_lines(lines: &Vec<Vec<char>>, headers: &mut Headers) -> (r: Result<
    (),
    HttpError,
>)
    requires
        lines@.len() >= 1,
        old(headers)@ == Seq::<Entry>::empty(),
    ensures
        match header_entries(views(lines@).drop_first()) {
            Some(es) => r is Ok && final(headers)@ == es,
            None => r == Err::<(), HttpError>(HttpError::InvalidHeader),
        },
{
    let colon = [':'];
    assert(colon@ =~= seq![':']);
    let ghost rest = views(lines@).drop_first();
    let mut i: usize = 1;
    assert(rest.take(0) =~= seq![]);
    while i < lines.len()
        invariant
            1 <= i <= lines@.len(),
            rest == views(lines@).drop_first(),
            colon@ == seq![':'],
            header_entries(rest.take(i - 1)) == Some(headers@),
        decreases lines.len() - i,
    {
        assert(rest.take(i as int).drop_last() =~= rest.take(i - 1));
        assert(rest.take(i as int).last() == lines@[i as int]@);
        match split_once_chars(lines[i].as_slice(), &colon) {
            None => {
                proof {
                    lemma_header_entries_none(rest, i as int);
                }
                return Err(HttpError::InvalidHeader);
            },
            Some((name, value)) => {
                let name = string_of(trim_chars(name.as_slice()).as_slice());
                let value = string_of(trim_chars(value.as_slice()).as_slice());
                headers.append(name.as_str(), value.as_str());
            },
        }
        i += 1;
    }
    assert(rest.take(i - 1) =~= rest);
    Ok(())
}

/// Once a prefix of the lines fails, the whole fails.
proof fn lemma_header_entries_none(lines: Seq<Seq<char>>, k: int)
    requires
        0 <= k <= lines.len(),
    ensures
        header_entries(lines.take(k)) is None ==> header_entries(lines) is None,
    decreases lines.len() - k,
{
    if k < lines.len() {
        lemma_header_entries_none(lines, k + 1);
        assert(lines.take(k + 1).drop_last() =~= lines.take(k));
    } else {
        assert(lines.take(k) =~= lines);
    }
}

// ---------------------------------------------------------------------------
// Written heads read back
// ---------------------------------------------------------------------------

/// The blank line that ends a head, as text.
pub open spec fn blank_line() -> Seq<char> {
    seq!['\r', '\n', '\r', '\n']
}

/// Whether `s` holds no line break `\r\n`.
pub open spec fn no_crlf(s: Seq<char>) -> bool {
    forall|j: int| 0 <= j && j + 2 <= s.len() ==> #[trigger] s.subrange(j, j + 2) != line_break()
}

/// Lines joined by line breaks.
pub open spec fn join_lines(xs: Seq<Seq<char>>) -> Seq<char>
    decreases xs.len(),
{
    if xs.len() == 0 {
        seq![]
    } else if xs.len() == 1 {
        xs[0]
    } else {
        xs[0] + line_break() + join_lines(xs.drop_first())
    }
}

/// The line `name: value` of a header entry.
pub open spec fn entry_line(e: Entry) -> Seq<char> {
    e.0 + seq![':', ' '] + e.1
}

/// The lines of header entries.
pub open spec fn entry_lines(es: Seq<Entry>) -> Seq<Seq<char>> {
    es.map_values(|e: Entry| entry_line(e))
}

/// A message head: the start line, the header lines, and a blank line.
pub open spec fn message_head(start: Seq<char>, es: Seq<Entry>) -> Seq<char> {
    start + line_break() + http1_lines(es) + line_break()
}

/// A header entry whose line can be told apart from the others: a name
/// without `:` or line break and without surrounding whitespace, and a
/// value without line break or surrounding whitespace.
pub open spec fn clean_entry(e: Entry) -> bool {
    &&& !e.0.contains(':')
    &&& trim(e.0) == e.0
    &&& no_crlf(e.0)
    &&& trim(e.1) == e.1
    &&& no_crlf(e.1)
}

/// Every entry is clean.
pub open spec fn clean_entries(es: Seq<Entry>) -> bool {
    forall|i: int| 0 <= i < es.len() ==> clean_entry(#[trigger] es[i])
}

/// A header entry that its line gives back: a clean entry whose name is in
/// lower case.
pub open spec fn plain_entry(e: Entry) -> bool {
    &&& clean_entry(e)
    &&& lower_all(e.0) == e.0
}

/// Every entry is plain.
pub open spec fn plain_entries(es: Seq<Entry>) -> bool {
    forall|i: int| 0 <= i < es.len() ==> plain_entry(#[trigger] es[i])
}

/// Clean entries with names in lower case are plain.
pub proof fn lemma_plain_entries(es: Seq<Entry>)
    requires
        clean_entries(es),
        names_lowercase(es),
    ensures
        plain_entries(es),
{
    assert forall|i: int| 0 <= i < es.len() implies plain_entry(#[trigger] es[i]) by {
        assert(clean_entry(es[i]));
        assert(lower_all(es[i].0) == es[i].0);
    }
}

/// Text without a carriage return holds no line break.
pub proof fn lemma_no_cr(s: Seq<char>)
    requires
        forall|i: int| 0 <= i < s.len() ==> #[trigger] s[i] != '\r',
    ensures
        no_crlf(s),
{
    assert forall|j: int| 0 <= j && j + 2 <= s.len() implies #[trigger] s.subrange(j, j + 2)
        != line_break() by {
        assert(s.subrange(j, j + 2)[0] == s[j]);
    }
}

/// Two texts without line breaks, joined where no `\r` meets a `\n`, hold
/// none.
pub proof fn lemma_no_crlf_concat(a: Seq<char>, b: Seq<char>)
    requires
        no_crlf(a),
        no_crlf(b),
        a.len() == 0 || b.len() == 0 || a.last() != '\r' || b[0] != '\n',
    ensures
        no_crlf(a + b),
{
    let s = a + b;
    assert forall|j: int| 0 <= j && j + 2 <= s.len() implies #[trigger] s.subrange(j, j + 2)
        != line_break() by {
        if j + 2 <= a.len() {
            assert(s.subrange(j, j + 2) =~= a.subrange(j, j + 2));
        } else if j >= a.len() {
            assert(s.subrange(j, j + 2) =~= b.subrange(j - a.len(), j - a.len() + 2));
        } else {
            assert(s.subrange(j, j + 2)[0] == a.last());
            assert(s.subrange(j, j + 2)[1] == b[0]);
        }
    }
}

/// Joining one more line at the end.
proof fn lemma_join_push(xs: Seq<Seq<char>>, x: Seq<char>)
    requires
        xs.len() >= 1,
    ensures
        join_lines(xs.push(x)) == join_lines(xs) + line_break() + x,
    decreases xs.len(),
{
    let ys = xs.push(x);
    assert(ys[0] == xs[0]);
    if xs.len() == 1 {
        assert(ys.drop_first() =~= seq![x]);
        assert(join_lines(ys.drop_first()) == x);
    } else {
        assert(ys.drop_first() =~= xs.drop_first().push(x));
        lemma_join_push(xs.drop_first(), x);
        assert(join_lines(ys) =~= join_lines(xs) + line_break() + x);
    }
}

/// The header lines of entries are their lines joined, then a line break.
proof fn lemma_http1_join(es: Seq<Entry>)
    requires
        es.len() >= 1,
    ensures
        http1_lines(es) == join_lines(entry_lines(es)) + line_break(),
    decreases es.len(),
{
    reveal_strlit(": ");
    reveal_strlit("\r\n");
    let e = es.last();
    let init = es.drop_last();
    assert(entry_lines(es) =~= entry_lines(init).push(entry_line(e)));
    if es.len() == 1 {
        assert(init =~= Seq::<Entry>::empty());
        assert(http1_lines(init) == Seq::<char>::empty());
        assert(entry_lines(init).push(entry_line(e)) =~= seq![entry_line(e)]);
        assert(http1_lines(es) =~= join_lines(entry_lines(es)) + line_break());
    } else {
        lemma_http1_join(init);
        lemma_join_push(entry_lines(init), entry_line(e));
        assert(http1_lines(es) =~= join_lines(entry_lines(es)) + line_break());
    }
}

/// A head is its lines joined, then a blank line.
proof fn lemma_head_join(start: Seq<char>, es: Seq<Entry>)
    ensures
        message_head(start, es) == join_lines(seq![start] + entry_lines(es)) + blank_line(),
{
    let xs = seq![start] + entry_lines(es);
    assert(xs[0] == start);
    if es.len() == 0 {
        assert(xs =~= seq![start]);
        assert(message_head(start, es) =~= join_lines(xs) + blank_line());
    } else {
        lemma_http1_join(es);
        assert(xs.drop_first() =~= entry_lines(es));
        assert(message_head(start, es) =~= join_lines(xs) + blank_line());
    }
}

/// Lines without line breaks, joined, split back into themselves.
proof fn lemma_split_join(xs: Seq<Seq<char>>)
    requires
        xs.len() >= 1,
        forall|i: int| 0 <= i < xs.len() ==> no_crlf(#[trigger] xs[i]),
    ensures
        split(join_lines(xs), line_break()) == xs,
    decreases xs.len(),
{
    let s = join_lines(xs);
    let x0 = xs[0];
    assert(no_crlf(x0));
    if xs.len() == 1 {
        lemma_find_from(s, line_break(), 0);
        assert(split(s, line_break()) =~= xs);
    } else {
        let rest = xs.drop_first();
        assert forall|i: int| 0 <= i < rest.len() implies no_crlf(#[trigger] rest[i]) by {
            assert(rest[i] == xs[i + 1]);
        }
        lemma_split_join(rest);
        let n = x0.len() as int;
        assert(s.subrange(n, n + 2) =~= line_break());
        assert forall|j: int| 0 <= j < n implies #[trigger] s.subrange(j, j + 2)
            != line_break() by {
            if j + 2 <= n {
                assert(s.subrange(j, j + 2) =~= x0.subrange(j, j + 2));
            } else {
                assert(s.subrange(j, j + 2)[1] == s[n]);
            }
        }
        lemma_find_first(s, line_break(), 0, n);
        assert(s.take(n) =~= x0);
        assert(s.skip(n + 2) =~= join_lines(rest));
        assert(split(s, line_break()) =~= xs);
    }
}

/// In lines joined and followed by a blank line, the first blank line is
/// the last one, when no line is empty or holds a line break.
proof fn lemma_no_early_blank(xs: Seq<Seq<char>>)
    requires
        xs.len() >= 1,
        forall|i: int| 0 <= i < xs.len() ==> no_crlf(#[trigger] xs[i]) && xs[i].len() > 0,
    ensures
        forall|j: int|
            0 <= j < join_lines(xs).len() ==> #[trigger] (join_lines(xs) + blank_line()).subrange(
                j,
                j + 4,
            ) != blank_line(),
    decreases xs.len(),
{
    let t = join_lines(xs);
    let h = t + blank_line();
    let x0 = xs[0];
    let n = x0.len() as int;
    assert(no_crlf(x0) && n > 0);
    assert forall|i: int| 0 <= i < n implies h[i] == x0[i] by {}
    assert(h[n] == '\r');
    if xs.len() > 1 {
        let rest = xs.drop_first();
        assert forall|i: int| 0 <= i < rest.len() implies no_crlf(#[trigger] rest[i])
            && rest[i].len() > 0 by {
            assert(rest[i] == xs[i + 1]);
        }
        lemma_no_early_blank(rest);
        let h2 = join_lines(rest) + blank_line();
        assert(h =~= x0 + line_break() + h2);
        let r0 = rest[0];
        assert(r0.len() > 0);
        assert(h2[0] == r0[0]);
        assert(r0.len() >= 2 ==> h2[1] == r0[1]);
        assert(r0.len() == 1 ==> h2[1] == '\r') by {
            if r0.len() == 1 {
                if rest.len() == 1 {
                } else {
                    assert(join_lines(rest) =~= r0 + line_break() + join_lines(rest.drop_first()));
                }
            }
        }
        assert forall|j: int| 0 <= j < t.len() implies #[trigger] h.subrange(j, j + 4)
            != blank_line() by {
            if j + 2 <= n {
                if h.subrange(j, j + 4) == blank_line() {
                    assert(x0.subrange(j, j + 2) =~= line_break());
                }
            } else if j < n {
                assert(h.subrange(j, j + 4)[1] == h[n]);
                assert(h.subrange(j, j + 4) != blank_line());
            } else if j == n {
                assert(h[n + 2] == h2[0]);
                assert(h[n + 3] == h2[1]);
                assert(h.subrange(j, j + 4)[2] == h[n + 2]);
                assert(h.subrange(j, j + 4)[3] == h[n + 3]);
                assert(blank_line()[3] == '\n');
                if r0.len() >= 2 {
                    let z: int = 0;
                    assert(r0.subrange(z, z + 2) != line_break());
                    if h.subrange(j, j + 4) == blank_line() {
                        assert(r0.subrange(z, z + 2) =~= line_break());
                    }
                } else {
                    assert(h.subrange(j, j + 4)[3] == '\r');
                }
                assert(h.subrange(j, j + 4) != blank_line());
            } else if j == n + 1 {
                assert(h[n + 1] == '\n');
                assert(h.subrange(j, j + 4)[0] == h[n + 1]);
                assert(h.subrange(j, j + 4) != blank_line());
            } else {
                assert(t.len() == n + 2 + join_lines(rest).len());
                let j2 = j - n - 2;
                assert(0 <= j2 < join_lines(rest).len());
                assert(h2.subrange(j2, j2 + 4) != blank_line());
                assert(h.subrange(j, j + 4) =~= h2.subrange(j2, j2 + 4));
            }
        }
    } else {
        assert(t == x0);
        assert forall|j: int| 0 <= j < t.len() implies #[trigger] h.subrange(j, j + 4)
            != blank_line() by {
            assert(h.subrange(j, j + 4)[0] == h[j]);
            assert(h.subrange(j, j + 4)[1] == h[j + 1]);
            if j + 2 <= n {
                if h.subrange(j, j + 4) == blank_line() {
                    assert(x0.subrange(j, j + 2) =~= line_break());
                }
            } else {
                assert(j + 1 == n);
            }
        }
    }
}

/// A head written from lines without line breaks, none of them empty, then
/// any body, is cut back into those lines joined and the body.
pub proof fn lemma_split_written(xs: Seq<Seq<char>>, body: Seq<u8>)
    requires
        xs.len() >= 1,
        forall|i: int| 0 <= i < xs.len() ==> no_crlf(#[trigger] xs[i]) && xs[i].len() > 0,
    ensures
        split_message(encode_utf8(join_lines(xs) + blank_line()) + body) == Split::Parts(
            join_lines(xs),
            body,
        ),
{
    let t = join_lines(xs);
    let h = t + blank_line();
    let eh = encode_utf8(h);
    let data = eh + body;
    encode_utf8_valid_utf8(t);
    lemma_encode_concat(t, blank_line());
    assert(is_ascii_chars(blank_line()));
    is_ascii_chars_encode_utf8(blank_line());
    assert(encode_utf8(blank_line()) =~= head_end());
    let et = encode_utf8(t);
    let n = et.len() as int;
    assert(data.subrange(n, n + 4) =~= head_end());
    lemma_no_early_blank(xs);
    assert forall|j: int| 0 <= j < n implies #[trigger] data.subrange(j, j + 4) != head_end() by {
        if data.subrange(j, j + 4) == head_end() {
            assert(eh.subrange(j, j + 4) =~= data.subrange(j, j + 4));
            let k = lemma_ascii_pattern(h, blank_line(), j);
            if k >= t.len() {
                assert(h.take(k) =~= t + blank_line().take(k - t.len()));
                lemma_encode_concat(t, blank_line().take(k - t.len()));
            } else {
                assert(h.subrange(k, k + 4) != blank_line());
            }
        }
    }
    lemma_find_first(data, head_end(), 0, n);
    assert(data.take(n) =~= et);
    assert(data.skip(n + 4) =~= body);
    encode_utf8_decode_utf8(t);
}

/// The lines of plain entries read back as those entries.
pub proof fn lemma_entries_read_back(es: Seq<Entry>)
    requires
        plain_entries(es),
    ensures
        header_entries(entry_lines(es)) == Some(es),
    decreases es.len(),
{
    if es.len() == 0 {
        assert(entry_lines(es) =~= Seq::<Seq<char>>::empty());
    } else {
        let init = es.drop_last();
        let e = es.last();
        assert(plain_entry(es[es.len() - 1]));
        assert(plain_entries(init)) by {
            assert forall|i: int| 0 <= i < init.len() implies plain_entry(#[trigger] init[i]) by {
                assert(init[i] == es[i]);
            }
        }
        lemma_entries_read_back(init);
        assert(entry_lines(es).drop_last() =~= entry_lines(init));
        assert(entry_lines(es).last() == entry_line(e));
        let l = entry_line(e);
        let n = e.0.len() as int;
        assert(l.subrange(n, n + 1) =~= seq![':']);
        assert forall|j: int| 0 <= j < n implies #[trigger] l.subrange(j, j + 1) != seq![':'] by {
            if l.subrange(j, j + 1) == seq![':'] {
                assert(l.subrange(j, j + 1)[0] == e.0[j]);
                assert(e.0.contains(':'));
            }
        }
        lemma_find_first(l, seq![':'], 0, n);
        assert(l.take(n) =~= e.0);
        let v = l.skip(n + 1);
        assert(v =~= seq![' '] + e.1);
        assert(v.drop_first() =~= e.1);
        assert(trim_start(v) == trim_start(e.1));
        assert(es =~= init.push(e));
    }
}

/// A field without spaces, a space, and the rest: the first field is that
/// field and what follows its space is the rest.
pub proof fn lemma_fields(a: Seq<char>, b: Seq<char>)
    requires
        !a.contains(' '),
    ensures
        first_field(a + seq![' '] + b) == a,
        after_first(a + seq![' '] + b) == Some(b),
{
    let s = a + seq![' '] + b;
    let n = a.len() as int;
    assert(s.subrange(n, n + 1) =~= seq![' ']);
    assert forall|j: int| 0 <= j < n implies #[trigger] s.subrange(j, j + 1) != seq![' '] by {
        if s.subrange(j, j + 1) == seq![' '] {
            assert(s.subrange(j, j + 1)[0] == a[j]);
            assert(a.contains(' '));
        }
    }
    lemma_find_first(s, seq![' '], 0, n);
    assert(s.take(n) =~= a);
    assert(s.skip(n + 1) =~= b);
}

/// A written head, then any body, reads back as its start line, its header
/// entries and the body.
pub proof fn lemma_head_read_back(start: Seq<char>, es: Seq<Entry>, body: Seq<u8>)
    requires
        start.len() > 0,
        no_crlf(start),
        plain_entries(es),
    ensures
        split_message(encode_utf8(message_head(start, es)) + body) matches Split::Parts(head, b)
            && b == body && head_lines(head)[0] == start && head_lines(head).len() >= 1
            && header_entries(head_lines(head).drop_first()) == Some(es),
{
    let ls = entry_lines(es);
    let xs = seq![start] + ls;
    lemma_head_join(start, es);
    assert forall|i: int| 0 <= i < xs.len() implies no_crlf(#[trigger] xs[i]) && xs[i].len() > 0 by {
        if i > 0 {
            let e = es[i - 1];
            assert(xs[i] == entry_line(e));
            assert(plain_entry(e));
            lemma_no_crlf_concat(e.0, seq![':', ' ']);
            lemma_no_crlf_concat(e.0 + seq![':', ' '], e.1);
        }
    }
    lemma_split_written(xs, body);
    lemma_split_join(xs);
    assert(xs.drop_first() =~= ls);
    lemma_entries_read_back(es);
}

} // verus!
