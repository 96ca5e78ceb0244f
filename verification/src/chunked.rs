//! Chunked transfer coding (RFC 9112, section 7.1).
use vstd::prelude::*;
use vstd::utf8::{
    valid_utf8, decode_utf8, encode_utf8, is_ascii_chars,
    is_ascii_chars_encode_utf8, encode_utf8_valid_utf8, encode_utf8_decode_utf8,
};
use crate::error::HttpError;
use crate::num::{
    parse_unsigned, parse_unsigned_chars, radix_digits, radix_digits_of, lemma_radix_digits,
};
use crate::text::{
    before, before_chars, find_bytes_from, find_from, lemma_find_from, lemma_find_from_skip,
    lemma_find_first, split_once, trim, trim_start, trim_end, trim_chars, utf8_chars,
};

verus! {

/// Encoder/decoder for HTTP chunked transfer encoding.
pub struct ChunkedEncoding;

/// The line break `\r\n`.
pub open spec fn crlf() -> Seq<u8> {
    seq![0x0du8, 0x0au8]
}

/// The last chunk and the empty trailer, `0\r\n\r\n`.
pub open spec fn last_chunk() -> Seq<u8> {
    seq![0x30u8, 0x0du8, 0x0au8, 0x0du8, 0x0au8]
}

/// The bytes of ASCII characters.
pub open spec fn ascii_bytes(cs: Seq<char>) -> Seq<u8> {
    cs.map_values(|c: char| c as u8)
}

/// The chunk size used for a body: the given size, or the whole body (at
/// least one byte) when the given size is zero.
pub open spec fn effective_chunk_size(len: nat, chunk_size: nat) -> nat {
    if chunk_size == 0 {
        if len == 0 {
            1
        } else {
            len
        }
    } else {
        chunk_size
    }
}

/// `data` cut into chunks of `size` bytes (the last one shorter), each
/// written as its length in lower-case hexadecimal, `\r\n`, the bytes and
/// `\r\n`, followed by the last chunk `0\r\n\r\n`.
pub open spec fn chunked(data: Seq<u8>, size: nat) -> Seq<u8>
    decreases data.len(),
{
    if size == 0 || data.len() == 0 {
        last_chunk()
    } else {
        let n = if size < data.len() {
            size
        } else {
            data.len()
        };
        ascii_bytes(radix_digits(n, 16)) + crlf() + data.take(n as int) + crlf() + chunked(
            data.skip(n as int),
            size,
        )
    }
}

/// The chunk size stated by a chunk-size line: the text before any `;`
/// (chunk extensions are ignored), without surrounding whitespace, read as
/// a hexadecimal `usize`. A line that is not UTF-8 text states no size.
pub open spec fn size_line_value(line: Seq<u8>) -> Option<nat> {
    if valid_utf8(line) {
        parse_unsigned(trim(before(decode_utf8(line), seq![';'])), 16, usize::MAX as nat)
    } else {
        None
    }
}

/// How reading a chunked body ends.
pub enum ChunkRead {
    /// The body, up to the last chunk.
    Body(Seq<u8>),
    /// The coding is malformed.
    Malformed,
}

/// Reading chunks from the start of `rest`.
pub open spec fn read_chunks(rest: Seq<u8>) -> ChunkRead
    decreases rest.len(),
{
    match split_once(rest, crlf()) {
        None => ChunkRead::Malformed,
        Some((line, after)) => match size_line_value(line) {
            None => ChunkRead::Malformed,
            Some(n) => {
                if n == 0 {
                    ChunkRead::Body(seq![])
                } else if after.len() < n {
                    ChunkRead::Malformed
                } else if after.len() >= n + 2 && after.subrange(n as int, n + 2int) == crlf() {
                    proof {
                        lemma_find_from(rest, crlf(), 0);
                    }
                    match read_chunks(after.skip(n + 2int)) {
                        ChunkRead::Body(b) => ChunkRead::Body(after.take(n as int) + b),
                        other => other,
                    }
                } else {
                    ChunkRead::Malformed
                }
            },
        },
    }
}

/// What `ChunkedEncoding::decode` gives for `data`: the body, or
/// `InvalidChunk` where the coding is malformed.
pub open spec fn chunked_decoded(data: Seq<u8>) -> Result<Seq<u8>, HttpError> {
    match read_chunks(data) {
        ChunkRead::Body(b) => Ok(b),
        ChunkRead::Malformed => Err(HttpError::InvalidChunk),
    }
}

/// What reading from `pos` on gives, once `out` has been read before it.
pub open spec fn after_read(out: Seq<u8>, r: ChunkRead) -> ChunkRead {
    match r {
        ChunkRead::Body(b) => ChunkRead::Body(out + b),
        other => other,
    }
}

/// A chunk-size line written by the encoder reads back as the size.
proof fn lemma_size_line(n: nat)
    requires
        n <= usize::MAX,
    ensures
        size_line_value(ascii_bytes(radix_digits(n, 16))) == Some(n),
        forall|j: int|
            0 <= j < ascii_bytes(radix_digits(n, 16)).len() ==> #[trigger] ascii_bytes(
                radix_digits(n, 16),
            )[j] != 0x0d,
{
    let ds = radix_digits(n, 16);
    lemma_radix_digits(n, 16);
    assert(is_ascii_chars(ds)) by {
        assert forall|i: int| 0 <= i < ds.len() implies '\0' <= #[trigger] ds[i] <= '\u{7f}' by {
            assert('0' <= ds[i] <= '9' || 'a' <= ds[i] <= 'f');
        }
    }
    is_ascii_chars_encode_utf8(ds);
    assert(encode_utf8(ds) =~= ascii_bytes(ds));
    encode_utf8_valid_utf8(ds);
    encode_utf8_decode_utf8(ds);
    lemma_find_from(ds, seq![';'], 0);
    if let Some(i) = find_from(ds, seq![';'], 0) {
        assert(ds.subrange(i, i + 1)[0] == ds[i]);
        assert('0' <= ds[i] <= '9' || 'a' <= ds[i] <= 'f');
    }
    assert(before(ds, seq![';']) == ds);
    assert('0' <= ds[0] <= '9' || 'a' <= ds[0] <= 'f');
    assert(trim_start(ds) == ds);
    assert('0' <= ds.last() <= '9' || 'a' <= ds.last() <= 'f');
    assert(trim_end(ds) == ds);
    assert forall|j: int| 0 <= j < ascii_bytes(ds).len() implies #[trigger] ascii_bytes(ds)[j]
        != 0x0d by {
        assert('0' <= ds[j] <= '9' || 'a' <= ds[j] <= 'f');
    }
}

/// Reading the chunked coding of `data` gives `data` back.
proof fn lemma_read_chunked(data: Seq<u8>, size: nat)
    requires
        1 <= size <= usize::MAX,
    ensures
        read_chunks(chunked(data, size)) == ChunkRead::Body(data),
    decreases data.len(),
{
    let w = chunked(data, size);
    if data.len() == 0 {
        lemma_size_line(0);
        assert(radix_digits(0, 16) == seq!['0']);
        assert(w.subrange(0, 2) != crlf()) by {
            assert(w.subrange(0, 2)[0] == 0x30u8);
        }
        assert(w.subrange(1, 3) =~= crlf());
        lemma_find_first(w, crlf(), 0, 1);
        assert(w.take(1) =~= ascii_bytes(radix_digits(0, 16)));
        assert(split_once(w, crlf()) == Some((w.take(1), w.skip(3))));
        assert(size_line_value(w.take(1)) == Some(0nat));
        assert(data =~= seq![]);
    } else {
        let n: nat = if size < data.len() {
            size
        } else {
            data.len()
        };
        let hex = ascii_bytes(radix_digits(n, 16));
        let h = hex.len() as int;
        let rest = data.skip(n as int);
        lemma_size_line(n);
        lemma_read_chunked(rest, size);
        assert(w == hex + crlf() + data.take(n as int) + crlf() + chunked(rest, size));
        assert(w.subrange(h, h + 2) =~= crlf());
        assert forall|j: int| 0 <= j < h implies #[trigger] w.subrange(j, j + 2) != crlf() by {
            assert(w.subrange(j, j + 2)[0] == hex[j]);
        }
        lemma_find_first(w, crlf(), 0, h);
        let after = w.skip(h + 2);
        assert(w.take(h) =~= hex);
        assert(after =~= data.take(n as int) + crlf() + chunked(rest, size));
        assert(after[n as int] == 0x0du8);
        assert(after.subrange(n as int, n + 2int) =~= crlf());
        assert(after.skip(n + 2int) =~= chunked(rest, size));
        assert(after.take(n as int) + rest =~= data);
        assert(split_once(w, crlf()) == Some((hex, after)));
        assert(after.len() >= n + 2);
        assert(read_chunks(after.skip(n + 2int)) == ChunkRead::Body(rest));
    }
}

/// Decoding the chunked coding of a body gives the body back, whatever the
/// body and the chunk size.
pub proof fn chunked_roundtrip(data: Seq<u8>, chunk_size: usize)
    requires
        data.len() <= usize::MAX,
    ensures
        chunked_decoded(chunked(data, effective_chunk_size(data.len(), chunk_size as nat)))
            == Ok::<Seq<u8>, HttpError>(data),
{
    lemma_read_chunked(data, effective_chunk_size(data.len(), chunk_size as nat));
}

/// Appends `src[lo..hi]` to `out`.
fn push_bytes(out: &mut Vec<u8>, src: &[u8], lo: usize, hi: usize)
    requires
        lo <= hi <= src@.len(),
    ensures
        final(out)@ == old(out)@ + src@.subrange(lo as int, hi as int),
{
    let ghost start = out@;
    let mut i = lo;
    while i < hi
        invariant
            lo <= i <= hi <= src@.len(),
            out@ == start + src@.subrange(lo as int, i as int),
        decreases hi - i,
    {
        out.push(src[i]);
        i += 1;
        assert(out@ =~= start + src@.subrange(lo as int, i as int));
    }
}

/// Appends `n` in lower-case hexadecimal to `out`.
fn push_hex(out: &mut Vec<u8>, n: usize)
    ensures
        final(out)@ == old(out)@ + ascii_bytes(radix_digits(n as nat, 16)),
{
    let digits = radix_digits_of(n as u64, 16);
    let ghost start = out@;
    let mut k: usize = 0;
    while k < digits.len()
        invariant
            k <= digits@.len(),
            out@ == start + ascii_bytes(digits@.take(k as int)),
        decreases digits.len() - k,
    {
        out.push(digits[k] as u8);
        k += 1;
        assert(out@ =~= start + ascii_bytes(digits@.take(k as int)));
    }
    assert(digits@.take(digits@.len() as int) =~= digits@);
}

impl ChunkedEncoding {
    /// Encodes a body into chunked transfer encoding format.
    pub fn encode(data: &[u8], chunk_size: usize) -> (out: Vec<u8>)
        ensures
            out@ == chunked(data@, effective_chunk_size(data@.len(), chunk_size as nat)),
    {
        let size = if chunk_size == 0 {
            if data.len() == 0 {
                1
            } else {
                data.len()
            }
        } else {
            chunk_size
        };
        let ghost whole = chunked(data@, size as nat);
        let mut out: Vec<u8> = Vec::new();
        let mut pos: usize = 0;
        assert(data@.skip(0) =~= data@);
        while pos < data.len()
            invariant
                size >= 1,
                pos <= data@.len(),
                whole == chunked(data@, size as nat),
                whole == out@ + chunked(data@.skip(pos as int), size as nat),
            decreases data.len() - pos,
        {
            let n = if size < data.len() - pos {
                size
            } else {
                data.len() - pos
            };
            let ghost rest = data@.skip(pos as int);
            let ghost old_out = out@;
            push_hex(&mut out, n);
            out.push(0x0d);
            out.push(0x0a);
            push_bytes(&mut out, data, pos, pos + n);
            out.push(0x0d);
            out.push(0x0a);
            assert(rest.take(n as int) =~= data@.subrange(pos as int, pos + n));
            assert(rest.skip(n as int) =~= data@.skip(pos + n));
            pos = pos + n;
            assert(out@ =~= old_out + (ascii_bytes(radix_digits(n as nat, 16)) + crlf() + rest.take(
                n as int,
            ) + crlf()));
        }
        assert(data@.skip(pos as int) =~= seq![]);
        out.push(0x30);
        out.push(0x0d);
        out.push(0x0a);
        out.push(0x0d);
        out.push(0x0a);
        out
    }

    /// Decodes a chunked transfer encoded body.
    ///
    /// # Errors
    ///
    /// Returns `HttpError::InvalidChunk` if the encoding is malformed.
    pub fn decode(data: &[u8]) -> (r: Result<Vec<u8>, HttpError>)
        ensures
            match chunked_decoded(data@) {
                Ok(b) => r matches Ok(v) && v@ == b,
                Err(e) => r == Err::<Vec<u8>, HttpError>(e),
            },
    {
        match read_chunked(data) {
            Some(v) => Ok(v),
            None => Err(HttpError::InvalidChunk),
        }
    }
}

/// Reads the chunks of `data`, as `read_chunks` describes.
fn read_chunked(data: &[u8]) -> (r: Option<Vec<u8>>)
    ensures
        match read_chunks(data@) {
            ChunkRead::Body(b) => r matches Some(v) && v@ == b,
            ChunkRead::Malformed => r is None,
        },
{
    let crlf_bytes: [u8; 2] = [0x0d, 0x0a];
    let pat = crlf_bytes.as_slice();
    assert(pat@ =~= crlf());
    let semicolon = [';'];
    let mut out: Vec<u8> = Vec::new();
    let mut pos: usize = 0;
    assert(data@.skip(0) =~= data@);
    assert(out@ + seq![] =~= out@);
    loop
        invariant
            pat@ == crlf(),
            semicolon@ == seq![';'],
            pos <= data@.len(),
            read_chunks(data@) == after_read(out@, read_chunks(data@.skip(pos as int))),
        decreases data.len() - pos,
    {
        let ghost rest = data@.skip(pos as int);
        proof {
            lemma_find_from_skip(data@, crlf(), pos as int, 0);
        }
        let line_end = match find_bytes_from(data, pat, pos) {
            Some(i) => i,
            None => return None,
        };
        proof {
            lemma_find_from(data@, crlf(), pos as int);
        }
        let ghost line = rest.take(line_end - pos);
        let ghost after = rest.skip(line_end - pos + 2);
        assert(line =~= data@.subrange(pos as int, line_end as int));
        assert(after =~= data@.skip(line_end + 2));
        let line_bytes = crate::text::slice_bytes(data, pos, line_end);
        let line_chars = match utf8_chars(line_bytes) {
            Some(cs) => cs,
            None => return None,
        };
        let size_text = trim_chars(before_chars(line_chars.as_slice(), &semicolon).as_slice());
        let size = match parse_unsigned_chars(size_text.as_slice(), 16, usize::MAX as u64) {
            Some(v) => v as usize,
            None => return None,
        };
        if size == 0 {
            assert(out@ + seq![] =~= out@);
            return Some(out);
        }
        let start = line_end + 2;
        if data.len() - start < size {
            return None;
        }
        let tail = start + size;
        let ghost old_out = out@;
        push_bytes(&mut out, data, start, start + size);
        if data.len() - tail < 2 || data[tail] != 0x0d || data[tail + 1] != 0x0a {
            assert(!(after.len() >= size + 2 && after.subrange(size as int, size + 2) == crlf()))
                by {
                if after.len() >= size + 2 {
                    assert(after.subrange(size as int, size + 2)[0] == data@[tail as int]);
                    assert(after.subrange(size as int, size + 2)[1] == data@[tail + 1]);
                }
            }
            return None;
        }
        assert(after.subrange(size as int, size + 2) =~= crlf());
        assert(after.skip(size + 2) =~= data@.skip(tail + 2));
        assert(after.take(size as int) =~= data@.subrange(start as int, start + size));
        pos = tail + 2;
        proof {
            match read_chunks(data@.skip(pos as int)) {
                ChunkRead::Body(b) => {
                    assert(out@ + b =~= old_out + (after.take(size as int) + b));
                },
                _ => {},
            }
        }
    }
}

} // verus!
