//! HPACK integer representation (RFC 7541, section 5.1), the integer
//! primitive of HTTP/2 header compression.
use vstd::prelude::*;
use vstd::arithmetic::power2::{pow2, lemma_pow2_adds, lemma_pow2_pos, lemma2_to64, lemma2_to64_rest};
use vstd::bits::{lemma_u64_shl_is_mul, lemma_u64_shr_is_div, lemma_u64_pow2_no_overflow};
use crate::error::HttpError;

verus! {

/// HPACK integer encoding/decoding for HTTP/2.
pub struct HpackInt;

/// The largest value of an `n`-bit prefix, `2^n - 1`.
pub open spec fn prefix_max(prefix_bits: u8) -> nat {
    (pow2(prefix_bits as nat) - 1) as nat
}

/// The continuation bytes that carry `x` after a full prefix: seven bits per
/// byte, least significant group first, the high bit set on all but the last.
pub open spec fn continuation_bytes(x: nat) -> Seq<u8>
    decreases x,
{
    if x < 128 {
        seq![x as u8]
    } else {
        seq![(x % 128 + 128) as u8] + continuation_bytes(x / 128)
    }
}

/// The HPACK representation of `value` with an `n`-bit prefix.
pub open spec fn hpack_encoding(value: nat, prefix_bits: u8) -> Seq<u8> {
    if value < prefix_max(prefix_bits) {
        seq![value as u8]
    } else {
        seq![prefix_max(prefix_bits) as u8] + continuation_bytes(
            (value - prefix_max(prefix_bits)) as nat,
        )
    }
}

/// How reading an HPACK integer ends.
pub enum HpackRead {
    /// The value and the number of bytes it took.
    Value(nat, nat),
    /// The input ends before the integer does.
    Incomplete,
    /// A continuation byte lies beyond 64 bits of shift, or the sum leaves
    /// the range of `u64`.
    Overflow,
}

/// Reading continuation bytes from index `i` on, with `acc` accumulated so
/// far and the next group shifted left by `shift` bits (in 64-bit
/// arithmetic, where bits shifted past bit 63 are lost).
pub open spec fn read_continuation(data: Seq<u8>, i: nat, acc: nat, shift: nat) -> HpackRead
    decreases data.len() - i,
{
    if i >= data.len() {
        HpackRead::Incomplete
    } else if shift >= 64 {
        HpackRead::Overflow
    } else {
        let sum = acc + ((data[i as int] as nat % 128) * pow2(shift)) % pow2(64);
        if sum > u64::MAX {
            HpackRead::Overflow
        } else if data[i as int] < 128 {
            HpackRead::Value(sum, i + 1)
        } else {
            read_continuation(data, i + 1, sum, shift + 7)
        }
    }
}

/// Reading an HPACK integer with an `n`-bit prefix from the start of `data`.
pub open spec fn hpack_read(data: Seq<u8>, prefix_bits: u8) -> HpackRead {
    if data.len() == 0 {
        HpackRead::Incomplete
    } else if (data[0] as nat) % pow2(prefix_bits as nat) < prefix_max(prefix_bits) {
        HpackRead::Value((data[0] as nat) % pow2(prefix_bits as nat), 1)
    } else {
        read_continuation(data, 1, prefix_max(prefix_bits), 0)
    }
}

/// The largest value of a `p`-bit prefix (1 to 8 bits), and the power of
/// two above it.
proof fn lemma_prefix_max(p: u8)
    requires
        1 <= p <= 8,
    ensures
        1 <= prefix_max(p) <= 255,
        (1u64 << (p as u64)) == pow2(p as nat),
        2 <= pow2(p as nat) <= 256,
        prefix_max(p) == pow2(p as nat) - 1,
{
    vstd::arithmetic::power2::lemma_pow2_strictly_increases(0, p as nat);
    lemma2_to64();
    lemma_u64_pow2_no_overflow(p as nat);
    lemma_u64_shl_is_mul(1, p as u64);
    if p < 8 {
        vstd::arithmetic::power2::lemma_pow2_strictly_increases(p as nat, 8);
    }
}

/// A prefix of fewer than 64 bits: its largest value and the power of two
/// above it, as 64-bit arithmetic computes them.
proof fn lemma_prefix_pow2(p: u8)
    requires
        p < 64,
    ensures
        (1u64 << (p as u64)) == pow2(p as nat),
        1 <= pow2(p as nat) < u64::MAX,
        prefix_max(p) == pow2(p as nat) - 1,
{
    lemma_u64_pow2_no_overflow(p as nat);
    lemma_u64_shl_is_mul(1, p as u64);
}

/// Reading back the continuation bytes of `x`, written at index `i` of
/// `data` with shift `shift`, yields `acc + x * 2^shift`.
proof fn lemma_read_continuation(data: Seq<u8>, i: nat, x: nat, acc: nat, shift: nat)
    requires
        i <= data.len(),
        data.skip(i as int) == continuation_bytes(x),
        acc + x * pow2(shift) <= u64::MAX,
        x >= 1 || shift == 0,
    ensures
        read_continuation(data, i, acc, shift) == HpackRead::Value(
            acc + x * pow2(shift),
            data.len(),
        ),
    decreases x,
{
    let t = data.skip(i as int);
    assert(t.len() >= 1);
    assert(t[0] == data[i as int]);
    lemma_pow2_pos(shift);
    lemma2_to64_rest();
    if shift >= 64 {
        lemma_pow2_strictly_increases_or_eq(64, shift);
        assert(x * pow2(shift) >= pow2(shift)) by (nonlinear_arith)
            requires
                x >= 1,
        ;
        assert(false);
    }
    let low = x % 128;
    assert(low * pow2(shift) <= x * pow2(shift)) by (nonlinear_arith)
        requires
            low <= x,
    ;
    assert((low * pow2(shift)) % pow2(64) == low * pow2(shift)) by {
        vstd::arithmetic::div_mod::lemma_small_mod(
            (low * pow2(shift)) as nat,
            pow2(64),
        );
    }
    if x < 128 {
        assert(t.len() == 1);
        assert(data[i as int] == x as u8);
    } else {
        assert(data[i as int] == (x % 128 + 128) as u8);
        let next = x / 128;
        assert(data.skip(i + 1int) =~= continuation_bytes(next)) by {
            assert(data.skip(i + 1int) =~= t.skip(1));
        }
        lemma_pow2_adds(shift, 7);
        assert(pow2(7) == 128) by {
            lemma2_to64();
        }
        assert(x == 128 * next + low) by (nonlinear_arith)
            requires
                next == x / 128,
                low == x % 128,
        ;
        assert(x * pow2(shift) == low * pow2(shift) + next * pow2(shift + 7)) by (nonlinear_arith)
            requires
                x == 128 * next + low,
                pow2(shift + 7) == pow2(shift) * 128,
        ;
        assert(next >= 1);
        lemma_read_continuation(data, i + 1, next, acc + low * pow2(shift), shift + 7);
    }
}

/// Powers of two do not decrease.
proof fn lemma_pow2_strictly_increases_or_eq(a: nat, b: nat)
    requires
        a <= b,
    ensures
        pow2(a) <= pow2(b),
{
    if a < b {
        vstd::arithmetic::power2::lemma_pow2_strictly_increases(a, b);
    }
}

/// Shifting a seven-bit group left in 64-bit arithmetic keeps the bits that
/// stay below bit 64.
proof fn lemma_shl_group(low: u64, shift: u64)
    requires
        low < 128,
        shift < 64,
        shift % 7 == 0,
    ensures
        (low << shift) == ((low as nat) * pow2(shift as nat)) % pow2(64),
{
    lemma2_to64();
    lemma2_to64_rest();
    lemma_pow2_pos(shift as nat);
    if shift <= 56 {
        lemma_pow2_strictly_increases_or_eq(shift as nat, 56);
        assert(low * pow2(shift as nat) < 0x80 * 0x100000000000000) by (nonlinear_arith)
            requires
                low < 128,
                pow2(shift as nat) <= 0x100000000000000,
        ;
        lemma_u64_shl_is_mul(low, shift);
        vstd::arithmetic::div_mod::lemma_small_mod(
            (low * pow2(shift as nat)) as nat,
            pow2(64),
        );
    } else {
        assert(shift == 63);
        assert(low << 63u64 == (low % 2) * 0x8000000000000000) by (bit_vector)
            requires
                low < 128,
        ;
        assert((low * 0x8000000000000000) % 0x10000000000000000 == (low % 2)
            * 0x8000000000000000) by (nonlinear_arith)
            requires
                low < 128,
        ;
    }
}

/// Reading back the encoding of any `u64` with any prefix size from 1 to 8
/// gives the value and the full length of the encoding.
pub proof fn hpack_roundtrip(value: u64, prefix_bits: u8)
    requires
        1 <= prefix_bits <= 8,
    ensures
        hpack_read(hpack_encoding(value as nat, prefix_bits), prefix_bits) == HpackRead::Value(
            value as nat,
            hpack_encoding(value as nat, prefix_bits).len(),
        ),
{
    lemma_prefix_max(prefix_bits);
    let m = prefix_max(prefix_bits);
    let data = hpack_encoding(value as nat, prefix_bits);
    if value < m {
        vstd::arithmetic::div_mod::lemma_small_mod(value as nat, pow2(prefix_bits as nat));
    } else {
        vstd::arithmetic::div_mod::lemma_small_mod(m, pow2(prefix_bits as nat));
        let x = (value - m) as nat;
        assert(data.skip(1) =~= continuation_bytes(x));
        assert(pow2(0) == 1) by {
            lemma2_to64();
        }
        lemma_read_continuation(data, 1, x, m, 0);
    }
}

impl HpackInt {
    /// Encodes an integer with the given prefix size (1..=8).
    pub fn encode(value: u64, prefix_bits: u8) -> (out: Vec<u8>)
        requires
            1 <= prefix_bits <= 8,
        ensures
            out@ == hpack_encoding(value as nat, prefix_bits),
    {
        proof {
            lemma_prefix_max(prefix_bits);
        }
        let max_prefix = (1u64 << (prefix_bits as u64)) - 1;
        if value < max_prefix {
            return vec![value as u8];
        }
        let mut out = vec![max_prefix as u8];
        let mut rest = value - max_prefix;
        let ghost start = rest as nat;
        while rest >= 128
            invariant
                out@ + continuation_bytes(rest as nat) == seq![max_prefix as u8]
                    + continuation_bytes(start),
            decreases rest,
        {
            let ghost old_out = out@;
            let ghost old_rest = rest as nat;
            let byte = (rest & 0x7F) as u8 | 0x80;
            assert(byte == (rest % 128 + 128) as u8) by (bit_vector)
                requires
                    byte == (rest & 0x7F) as u8 | 0x80,
            ;
            out.push(byte);
            proof {
                lemma_u64_shr_is_div(rest, 7);
                lemma2_to64();
            }
            rest = rest >> 7;
            assert(out@ + continuation_bytes(rest as nat) =~= old_out + continuation_bytes(
                old_rest,
            ));
        }
        let ghost before = out@;
        out.push(rest as u8);
        assert(out@ =~= before + continuation_bytes(rest as nat));
        out
    }

    /// Decodes an integer with the given prefix size from the start of
    /// `data`. Returns `(value, bytes_consumed)`.
    ///
    /// # Errors
    ///
    /// Returns `HttpError::Incomplete` if the data ends before the integer.
    pub fn decode(data: &[u8], prefix_bits: u8) -> (r: Result<(u64, usize), HttpError>)
        requires
            prefix_bits < 64,
            !(hpack_read(data@, prefix_bits) is Overflow),
        ensures
            match hpack_read(data@, prefix_bits) {
                HpackRead::Value(v, n) => r == Ok::<(u64, usize), HttpError>((v as u64, n as usize)),
                _ => r == Err::<(u64, usize), HttpError>(HttpError::Incomplete),
            },
    {
        if data.len() == 0 {
            return Err(HttpError::Incomplete);
        }
        proof {
            lemma_prefix_pow2(prefix_bits);
        }
        let max_prefix = (1u64 << (prefix_bits as u64)) - 1;
        let first = (data[0] as u64) & max_prefix;
        proof {
            vstd::bits::lemma_u64_low_bits_mask_is_mod(data[0] as u64, prefix_bits as nat);
            vstd::bits::lemma_low_bits_mask_values();
            assert(vstd::bits::low_bits_mask(prefix_bits as nat) == max_prefix) by {
                lemma2_to64();
            }
        }
        if first < max_prefix {
            return Ok((first, 1));
        }
        let mut value = max_prefix;
        let mut shift: u64 = 0;
        let mut i: usize = 1;
        loop
            invariant
                1 <= i <= data@.len(),
                hpack_read(data@, prefix_bits) == read_continuation(
                    data@,
                    i as nat,
                    value as nat,
                    shift as nat,
                ),
                !(hpack_read(data@, prefix_bits) is Overflow),
                shift % 7 == 0,
            decreases data.len() - i,
        {
            if i >= data.len() {
                return Err(HttpError::Incomplete);
            }
            let byte = data[i] as u64;
            let low = byte & 0x7F;
            assert(low == byte % 128) by (bit_vector)
                requires
                    low == byte & 0x7F,
            ;
            let part = low << shift;
            proof {
                lemma_shl_group(low, shift);
            }
            value = value + part;
            i = i + 1;
            if byte & 0x80 == 0 {
                assert(byte < 128) by (bit_vector)
                    requires
                        byte & 0x80 == 0,
                        byte < 256,
                ;
                return Ok((value, i));
            }
            assert(byte >= 128) by (bit_vector)
                requires
                    byte & 0x80 != 0,
            ;
            shift = shift + 7;
        }
    }

    /// Whether decoding `data` with the given prefix size would overflow 64
    /// bits (a continuation group shifted past bit 63, or a sum past
    /// `u64::MAX`), the inputs that `decode` does not take.
    pub fn overflows(data: &[u8], prefix_bits: u8) -> (b: bool)
        requires
            prefix_bits < 64,
        ensures
            b == (hpack_read(data@, prefix_bits) is Overflow),
    {
        if data.len() == 0 {
            return false;
        }
        proof {
            lemma_prefix_pow2(prefix_bits);
        }
        let max_prefix = (1u64 << (prefix_bits as u64)) - 1;
        let first = (data[0] as u64) & max_prefix;
        proof {
            vstd::bits::lemma_u64_low_bits_mask_is_mod(data[0] as u64, prefix_bits as nat);
            assert(vstd::bits::low_bits_mask(prefix_bits as nat) == max_prefix);
        }
        if first < max_prefix {
            return false;
        }
        let mut value = max_prefix;
        let mut shift: u64 = 0;
        let mut i: usize = 1;
        loop
            invariant
                1 <= i <= data@.len(),
                hpack_read(data@, prefix_bits) == read_continuation(
                    data@,
                    i as nat,
                    value as nat,
                    shift as nat,
                ),
                shift % 7 == 0,
                shift < 64 + 7,
            decreases data.len() - i,
        {
            if i >= data.len() {
                return false;
            }
            if shift >= 64 {
                return true;
            }
            let byte = data[i] as u64;
            let low = byte & 0x7F;
            assert(low == byte % 128) by (bit_vector)
                requires
                    low == byte & 0x7F,
            ;
            let part = low << shift;
            proof {
                lemma_shl_group(low, shift);
            }
            if part > u64::MAX - value {
                return true;
            }
            value = value + part;
            i = i + 1;
            if byte & 0x80 == 0 {
                assert(byte < 128) by (bit_vector)
                    requires
                        byte & 0x80 == 0,
                        byte < 256,
                ;
                return false;
            }
            assert(byte >= 128) by (bit_vector)
                requires
                    byte & 0x80 != 0,
            ;
            shift = shift + 7;
        }
    }
}

} // verus!
