//! Percent-encoding (RFC 3986) of the UTF-8 bytes of a text.
use vstd::prelude::*;
use vstd::string::StringSliceAdditionalSpecFns;
use vstd::utf8::{decode_utf8, encode_utf8, valid_utf8, encode_utf8_valid_utf8, encode_utf8_decode_utf8};
use crate::error::HttpError;
use crate::text::{ascii_chars, lemma_ascii_encoding, utf8_text};

verus! {

/// Percent-encoding utilities.
pub struct UrlEncoding;

/// The bytes that stand for themselves: ASCII letters, digits and `-._~`.
pub open spec fn is_unreserved(b: u8) -> bool {
    ||| ('a' as u8 <= b <= 'z' as u8)
    ||| ('A' as u8 <= b <= 'Z' as u8)
    ||| ('0' as u8 <= b <= '9' as u8)
    ||| b == '-' as u8
    ||| b == '.' as u8
    ||| b == '_' as u8
    ||| b == '~' as u8
}

/// The upper-case hexadecimal digit for a value below 16.
pub open spec fn hex_digit(n: u8) -> u8 {
    if n < 10 {
        ('0' as u8 + n) as u8
    } else {
        ('A' as u8 + n - 10) as u8
    }
}

/// The value of a hexadecimal digit of either case.
pub open spec fn hex_value(b: u8) -> Option<u8> {
    if '0' as u8 <= b <= '9' as u8 {
        Some((b - '0' as u8) as u8)
    } else if 'a' as u8 <= b <= 'f' as u8 {
        Some((b - 'a' as u8 + 10) as u8)
    } else if 'A' as u8 <= b <= 'F' as u8 {
        Some((b - 'A' as u8 + 10) as u8)
    } else {
        None
    }
}

/// The encoding of one byte: itself if unreserved, else `%` and two
/// upper-case hexadecimal digits.
pub open spec fn encode_byte(b: u8) -> Seq<u8> {
    if is_unreserved(b) {
        seq![b]
    } else {
        seq!['%' as u8, hex_digit(b / 16), hex_digit(b % 16)]
    }
}

/// The percent-encoding of a byte sequence.
pub open spec fn percent_encode(b: Seq<u8>) -> Seq<u8>
    decreases b.len(),
{
    if b.len() == 0 {
        seq![]
    } else {
        percent_encode(b.drop_last()) + encode_byte(b.last())
    }
}

/// Decoding a percent-encoded byte sequence: `%` and two hexadecimal digits
/// give one byte, `+` gives a space, every other byte stands for itself.
/// `None` where a `%` is not followed by two hexadecimal digits.
pub open spec fn percent_decode(b: Seq<u8>) -> Option<Seq<u8>>
    decreases b.len(),
{
    if b.len() == 0 {
        Some(seq![])
    } else if b[0] == '%' as u8 {
        if b.len() <= 2 {
            None
        } else {
            match (hex_value(b[1]), hex_value(b[2]), percent_decode(b.skip(3))) {
                (Some(hi), Some(lo), Some(rest)) => Some(seq![(hi * 16 + lo) as u8] + rest),
                _ => None,
            }
        }
    } else if b[0] == '+' as u8 {
        match percent_decode(b.drop_first()) {
            Some(rest) => Some(seq![' ' as u8] + rest),
            None => None,
        }
    } else {
        match percent_decode(b.drop_first()) {
            Some(rest) => Some(seq![b[0]] + rest),
            None => None,
        }
    }
}

/// What `UrlEncoding::decode` gives for a text whose bytes are `b`.
pub open spec fn url_decoded(b: Seq<u8>) -> Result<Seq<char>, HttpError> {
    match percent_decode(b) {
        Some(d) => if valid_utf8(d) {
            Ok(decode_utf8(d))
        } else {
            Err(HttpError::InvalidUri)
        },
        None => Err(HttpError::InvalidUri),
    }
}

/// The encoding of a byte is ASCII and not empty.
proof fn lemma_encode_byte_ascii(b: u8)
    ensures
        forall|i: int| 0 <= i < encode_byte(b).len() ==> #[trigger] encode_byte(b)[i] < 128,
        encode_byte(b).len() >= 1,
{
}

/// Percent-encoded text is ASCII.
pub proof fn lemma_percent_encode_ascii(b: Seq<u8>)
    ensures
        forall|i: int|
            0 <= i < percent_encode(b).len() ==> #[trigger] percent_encode(b)[i] < 128,
    decreases b.len(),
{
    if b.len() > 0 {
        lemma_percent_encode_ascii(b.drop_last());
        lemma_encode_byte_ascii(b.last());
        let a = percent_encode(b.drop_last());
        let e = encode_byte(b.last());
        assert forall|i: int| 0 <= i < percent_encode(b).len() implies #[trigger] percent_encode(
            b,
        )[i] < 128 by {
            if i < a.len() {
                assert(percent_encode(b)[i] == a[i]);
            } else {
                assert(percent_encode(b)[i] == e[i - a.len()]);
            }
        }
    }
}

/// Encoding a byte sequence is encoding its first byte, then the rest.
proof fn lemma_percent_encode_first(b: Seq<u8>)
    requires
        b.len() > 0,
    ensures
        percent_encode(b) == encode_byte(b[0]) + percent_encode(b.drop_first()),
    decreases b.len(),
{
    if b.len() == 1 {
        assert(b.drop_last() =~= seq![]);
        assert(b.drop_first() =~= seq![]);
        assert(percent_encode(b) =~= encode_byte(b[0]) + percent_encode(b.drop_first()));
    } else {
        lemma_percent_encode_first(b.drop_last());
        assert(b.drop_last().drop_first() =~= b.drop_first().drop_last());
        assert(b.drop_first().last() == b.last());
        assert(percent_encode(b) =~= encode_byte(b[0]) + percent_encode(b.drop_first()));
    }
}

/// Decoding undoes encoding, for every byte sequence.
proof fn lemma_decode_encode(b: Seq<u8>)
    ensures
        percent_decode(percent_encode(b)) == Some(b),
    decreases b.len(),
{
    if b.len() == 0 {
        assert(percent_encode(b) =~= seq![]);
    } else {
        lemma_percent_encode_first(b);
        lemma_decode_encode(b.drop_first());
        let x = b[0];
        let e = encode_byte(x);
        let rest = percent_encode(b.drop_first());
        let whole = e + rest;
        if is_unreserved(x) {
            assert(whole.drop_first() =~= rest);
        } else {
            assert(whole.skip(3) =~= rest);
            assert(hex_value(hex_digit(x / 16)) == Some(x / 16));
            assert(hex_value(hex_digit(x % 16)) == Some(x % 16));
            assert((x / 16) * 16 + x % 16 == x);
        }
        assert(seq![x] + b.drop_first() =~= b);
    }
}

/// Decoding the encoding of a text gives the text back.
pub proof fn url_roundtrip(s: Seq<char>)
    ensures
        url_decoded(encode_utf8(ascii_chars(percent_encode(encode_utf8(s))))) == Ok::<
            Seq<char>,
            HttpError,
        >(s),
{
    let b = encode_utf8(s);
    lemma_percent_encode_ascii(b);
    lemma_ascii_encoding(percent_encode(b));
    lemma_decode_encode(b);
    encode_utf8_valid_utf8(s);
    encode_utf8_decode_utf8(s);
}

/// Whether `b` is left as it is by percent-encoding.
fn is_unreserved_byte(b: u8) -> (r: bool)
    ensures
        r == is_unreserved(b),
        r == (0x30 <= b <= 0x39 || 0x41 <= b <= 0x5a || 0x61 <= b <= 0x7a || b == 0x2d || b
            == 0x2e || b == 0x5f || b == 0x7e),
{
    (('a' as u8) <= b && b <= ('z' as u8)) || (('A' as u8) <= b && b <= ('Z' as u8)) || (('0' as u8) <= b && b <= ('9' as u8)) || b == ('-' as u8)
        || b == ('.' as u8) || b == ('_' as u8) || b == ('~' as u8)
}

impl UrlEncoding {
    /// Percent-encodes a string (RFC 3986 unreserved characters preserved).
    pub fn encode(input: &str) -> (r: String)
        ensures
            r@ == ascii_chars(percent_encode(encode_utf8(input@))),
    {
        let bytes = input.as_bytes();
        let mut out = String::new();
        let mut i: usize = 0;
        while i < bytes.len()
            invariant
                bytes@ == encode_utf8(input@),
                i <= bytes@.len(),
                out@ == ascii_chars(percent_encode(bytes@.take(i as int))),
            decreases bytes.len() - i,
        {
            let byte = bytes[i];
            let ghost before = out@;
            if is_unreserved_byte(byte) {
                crate::text::push_char(&mut out, byte as char);
            } else {
                assert(byte >> 4 == byte / 16 && byte & 0x0F == byte % 16) by (bit_vector);
                crate::text::push_char(&mut out, '%');
                crate::text::push_char(&mut out, Self::to_hex_upper(byte >> 4));
                crate::text::push_char(&mut out, Self::to_hex_upper(byte & 0x0F));
                assert(byte >> 4 == byte / 16 && byte & 0x0F == byte % 16) by (bit_vector);
            }
            assert(bytes@.take(i + 1).drop_last() =~= bytes@.take(i as int));
            i += 1;
            assert(out@ =~= ascii_chars(percent_encode(bytes@.take(i as int))));
        }
        assert(bytes@.take(bytes@.len() as int) =~= bytes@);
        out
    }

    /// Decodes a percent-encoded string.
    ///
    /// # Errors
    ///
    /// Returns `HttpError::InvalidUri` on malformed sequences.
    pub fn decode(input: &str) -> (r: Result<String, HttpError>)
        ensures
            match url_decoded(encode_utf8(input@)) {
                Ok(t) => r matches Ok(s) && s@ == t,
                Err(e) => r == Err::<String, HttpError>(e),
            },
    {
        let input_bytes = input.as_bytes();
        let ghost whole = input_bytes@;
        let mut bytes: Vec<u8> = Vec::new();
        let mut i: usize = 0;
        assert(whole.skip(0) =~= whole);
        while i < input_bytes.len()
            invariant
                whole == input_bytes@,
                whole == encode_utf8(input@),
                i <= whole.len(),
                percent_decode(whole) == match percent_decode(whole.skip(i as int)) {
                    Some(rest) => Some(bytes@ + rest),
                    None => None,
                },
            decreases input_bytes.len() - i,
        {
            let ghost t = whole.skip(i as int);
            let b = input_bytes[i];
            assert(t[0] == b && t.len() == whole.len() - i);
            if b == ('%' as u8) {
                if input_bytes.len() - i <= 2 {
                    return Err(HttpError::InvalidUri);
                }
                assert(t[1] == whole[i + 1] && t[2] == whole[i + 2]);
                let hi = match Self::from_hex(input_bytes[i + 1]) {
                    Some(h) => h,
                    None => return Err(HttpError::InvalidUri),
                };
                let lo = match Self::from_hex(input_bytes[i + 2]) {
                    Some(l) => l,
                    None => return Err(HttpError::InvalidUri),
                };
                let v = hi << 4 | lo;
                assert(v == hi * 16 + lo) by (bit_vector)
                    requires
                        v == hi << 4 | lo,
                        hi < 16,
                        lo < 16,
                ;
                let ghost old_bytes = bytes@;
                bytes.push(v);
                assert(t.skip(3) =~= whole.skip(i + 3));
                i += 3;
                proof {
                    match percent_decode(whole.skip(i as int)) {
                        Some(rest) => {
                            assert(bytes@ + rest =~= old_bytes + (seq![v] + rest));
                        },
                        None => {},
                    }
                }
            } else {
                let ghost old_bytes = bytes@;
                if b == ('+' as u8) {
                    bytes.push((' ' as u8));
                } else {
                    bytes.push(b);
                }
                assert(t.drop_first() =~= whole.skip(i + 1));
                i += 1;
                proof {
                    match percent_decode(whole.skip(i as int)) {
                        Some(rest) => {
                            assert(bytes@ + rest =~= old_bytes + (seq![bytes@.last()] + rest));
                        },
                        None => {},
                    }
                }
            }
        }
        assert(whole.skip(i as int) =~= seq![]);
        assert(bytes@ + seq![] =~= bytes@);
        match utf8_text(bytes.as_slice()) {
            Some(s) => Ok(s.to_owned()),
            None => Err(HttpError::InvalidUri),
        }
    }

    /// The upper-case hexadecimal digit for a nibble.
    fn to_hex_upper(nibble: u8) -> (c: char)
        requires
            nibble < 16,
        ensures
            c == hex_digit(nibble) as char,
    {
        if nibble < 10 {
            (('0' as u8) + nibble) as char
        } else {
            (('A' as u8) + nibble - 10) as char
        }
    }

    /// The value of a hexadecimal digit.
    fn from_hex(byte: u8) -> (r: Option<u8>)
        ensures
            r == hex_value(byte),
            r matches Some(v) ==> v < 16,
    {
        if ('0' as u8) <= byte && byte <= ('9' as u8) {
            Some(byte - ('0' as u8))
        } else if ('a' as u8) <= byte && byte <= ('f' as u8) {
            Some(byte - ('a' as u8) + 10)
        } else if ('A' as u8) <= byte && byte <= ('F' as u8) {
            Some(byte - ('A' as u8) + 10)
        } else {
            None
        }
    }
}

/// Percent-encoding a single byte: the 66 unreserved bytes of RFC 3986 (the
/// ASCII digits `0x30..=0x39`, letters `0x41..=0x5a` and `0x61..=0x7a`, and
/// `-` `.` `_` `~`) stand for themselves; every other byte becomes `%`
/// (`0x25`) and its value in two upper-case hexadecimal digits (`0`-`9` are
/// `0x30..=0x39`, `A`-`F` are `0x41..=0x46`), high digit first.
pub proof fn percent_encode_one(b: u8)
    ensures
        (0x30 <= b <= 0x39 || 0x41 <= b <= 0x5a || 0x61 <= b <= 0x7a || b == 0x2d || b == 0x2e
            || b == 0x5f || b == 0x7e) ==> percent_encode(seq![b]) == seq![b],
        !(0x30 <= b <= 0x39 || 0x41 <= b <= 0x5a || 0x61 <= b <= 0x7a || b == 0x2d || b == 0x2e
            || b == 0x5f || b == 0x7e) ==> percent_encode(seq![b]) == seq![
            0x25u8,
            (if b / 16 < 10 {
                0x30 + b / 16
            } else {
                0x37 + b / 16
            }) as u8,
            (if b % 16 < 10 {
                0x30 + b % 16
            } else {
                0x37 + b % 16
            }) as u8,
        ],
{
    assert(seq![b].drop_last() =~= Seq::<u8>::empty());
    assert(seq![b].last() == b);
    assert(percent_encode(Seq::<u8>::empty()) == Seq::<u8>::empty());
    assert(percent_encode(seq![b]) == percent_encode(seq![b].drop_last()) + encode_byte(b));
    assert(percent_encode(seq![b]) =~= encode_byte(b));
}

/// Percent-encoding works byte by byte: the encoding of two byte sequences
/// joined is their encodings joined.
pub proof fn percent_encode_concat(x: Seq<u8>, y: Seq<u8>)
    ensures
        percent_encode(x + y) == percent_encode(x) + percent_encode(y),
    decreases y.len(),
{
    if y.len() == 0 {
        assert(x + y =~= x);
        assert(percent_encode(x) + percent_encode(y) =~= percent_encode(x));
    } else {
        assert((x + y).drop_last() =~= x + y.drop_last());
        assert((x + y).last() == y.last());
        percent_encode_concat(x, y.drop_last());
        assert(percent_encode(x + y) =~= percent_encode(x) + percent_encode(y));
    }
}

} // verus!
