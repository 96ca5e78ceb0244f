//! Integers in text: parsing as `str::parse` and `from_str_radix` do, and
//! decimal and hexadecimal formatting.
use vstd::prelude::*;

verus! {

// ---------------------------------------------------------------------------
// Parsing
// ---------------------------------------------------------------------------

/// The value of `c` as a digit in base `radix` (at most 36), if it is one.
pub open spec fn digit_value(c: char, radix: nat) -> Option<nat> {
    let v: int = if '0' <= c <= '9' {
        c as int - '0' as int
    } else if 'a' <= c <= 'z' {
        c as int - 'a' as int + 10
    } else if 'A' <= c <= 'Z' {
        c as int - 'A' as int + 10
    } else {
        100
    };
    if v < radix {
        Some(v as nat)
    } else {
        None
    }
}

/// Every character of `s` is a digit in base `radix`.
pub open spec fn all_digits(s: Seq<char>, radix: nat) -> bool {
    forall|i: int| 0 <= i < s.len() ==> (#[trigger] digit_value(s[i], radix)) is Some
}

/// The value of the digits `s` in base `radix`, most significant first.
pub open spec fn digits_value(s: Seq<char>, radix: nat) -> nat
    decreases s.len(),
{
    if s.len() == 0 {
        0
    } else {
        digits_value(s.drop_last(), radix) * radix + digit_value(s.last(), radix).unwrap()
    }
}

/// An unsigned integer in base `radix` no larger than `max`, as
/// `from_str_radix` reads it: an optional `+`, then one or more digits.
pub open spec fn parse_unsigned(s: Seq<char>, radix: nat, max: nat) -> Option<nat> {
    let body = if s.len() > 0 && s[0] == '+' {
        s.drop_first()
    } else {
        s
    };
    if body.len() > 0 && all_digits(body, radix) && digits_value(body, radix) <= max {
        Some(digits_value(body, radix))
    } else {
        None
    }
}

/// A signed decimal integer in `[-min_magnitude, max]`, as `str::parse`
/// reads it: an optional sign, then one or more digits.
pub open spec fn parse_signed(s: Seq<char>, min_magnitude: nat, max: nat) -> Option<int> {
    if s.len() > 0 && s[0] == '-' {
        let body = s.drop_first();
        if body.len() > 0 && all_digits(body, 10) && digits_value(body, 10) <= min_magnitude {
            Some(-(digits_value(body, 10) as int))
        } else {
            None
        }
    } else {
        match parse_unsigned(s, 10, max) {
            Some(v) => Some(v as int),
            None => None,
        }
    }
}

/// A prefix of digits is worth no more than all of them.
proof fn lemma_digits_value_grows(s: Seq<char>, radix: nat, k: int)
    requires
        radix >= 1,
        all_digits(s, radix),
        0 <= k <= s.len(),
    ensures
        digits_value(s.take(k), radix) <= digits_value(s, radix),
    decreases s.len() - k,
{
    if k < s.len() {
        let t = s.drop_last();
        assert(t.take(k) =~= s.take(k));
        assert(all_digits(t, radix)) by {
            assert forall|i: int| 0 <= i < t.len() implies (#[trigger] digit_value(t[i], radix)) is Some by {
                assert(t[i] == s[i]);
            }
        }
        lemma_digits_value_grows(t, radix, k);
        assert(digits_value(t, radix) * radix >= digits_value(t, radix)) by (nonlinear_arith)
            requires
                radix >= 1,
        ;
    } else {
        assert(s.take(k) =~= s);
    }
}

/// The value of `c` as a digit in base `radix`.
fn char_digit(c: char, radix: u32) -> (r: Option<u32>)
    requires
        2 <= radix <= 36,
    ensures
        match digit_value(c, radix as nat) {
            Some(v) => r == Some(v as u32),
            None => r is None,
        },
{
    let v: u32 = if '0' <= c && c <= '9' {
        (c as u32) - ('0' as u32)
    } else if 'a' <= c && c <= 'z' {
        (c as u32) - ('a' as u32) + 10
    } else if 'A' <= c && c <= 'Z' {
        (c as u32) - ('A' as u32) + 10
    } else {
        100
    };
    if v < radix {
        Some(v)
    } else {
        None
    }
}

/// Reads the digits `s[from..]` in base `radix`, up to `max`.
fn parse_digits(s: &[char], from: usize, radix: u32, max: u64) -> (r: Option<u64>)
    requires
        2 <= radix <= 36,
        from <= s@.len(),
    ensures
        ({
            let body = s@.skip(from as int);
            match r {
                Some(v) => body.len() > 0 && all_digits(body, radix as nat) && v == digits_value(
                    body,
                    radix as nat,
                ) && v <= max,
                None => !(body.len() > 0 && all_digits(body, radix as nat) && digits_value(
                    body,
                    radix as nat,
                ) <= max),
            }
        }),
{
    let ghost body = s@.skip(from as int);
    if from == s.len() {
        return None;
    }
    let mut acc: u64 = 0;
    let mut i: usize = from;
    assert(body.take(0) =~= seq![]);
    while i < s.len()
        invariant
            2 <= radix <= 36,
            from <= i <= s@.len(),
            body == s@.skip(from as int),
            body.len() > 0,
            all_digits(body.take(i - from), radix as nat),
            acc == digits_value(body.take(i - from), radix as nat),
            acc <= max,
        decreases s.len() - i,
    {
        let ghost k = i - from;
        assert(body[k] == s@[i as int]);
        match char_digit(s[i], radix) {
            None => {
                return None;
            },
            Some(d) => {
                assert((acc as u128) * (radix as u128) + (d as u128) < 0x100000000000000000000)
                    by (nonlinear_arith)
                    requires
                        acc <= u64::MAX,
                        radix <= 36,
                        d < 36,
                ;
                let next = (acc as u128) * (radix as u128) + (d as u128);
                assert(body.take(k + 1).drop_last() =~= body.take(k));
                assert(body.take(k + 1).last() == body[k]);
                assert(next == digits_value(body.take(k + 1), radix as nat));
                assert(all_digits(body.take(k + 1), radix as nat)) by {
                    assert forall|j: int| 0 <= j < k + 1 implies (#[trigger] digit_value(
                        body.take(k + 1)[j],
                        radix as nat,
                    )) is Some by {
                        if j < k {
                            assert(body.take(k + 1)[j] == body.take(k)[j]);
                        }
                    }
                }
                if next > max as u128 {
                    proof {
                        if all_digits(body, radix as nat) {
                            lemma_digits_value_grows(body, radix as nat, k + 1);
                        }
                    }
                    return None;
                }
                acc = next as u64;
                i += 1;
            },
        }
    }
    assert(body.take(i - from) =~= body);
    Some(acc)
}

/// An unsigned integer in base `radix` (optional `+`, then digits), no
/// larger than `max`.
pub fn parse_unsigned_chars(s: &[char], radix: u32, max: u64) -> (r: Option<u64>)
    requires
        2 <= radix <= 36,
    ensures
        match parse_unsigned(s@, radix as nat, max as nat) {
            Some(v) => r == Some(v as u64),
            None => r is None,
        },
{
    let from: usize = if s.len() > 0 && s[0] == '+' {
        1
    } else {
        0
    };
    assert(s@.skip(1) =~= s@.drop_first());
    assert(s@.skip(0) =~= s@);
    parse_digits(s, from, radix, max)
}

/// A signed decimal integer (optional sign, then digits) that fits in `i64`.
pub fn parse_i64_chars(s: &[char]) -> (r: Option<i64>)
    ensures
        match parse_signed(s@, 0x8000000000000000, i64::MAX as nat) {
            Some(v) => r == Some(v as i64),
            None => r is None,
        },
{
    if s.len() > 0 && s[0] == '-' {
        assert(s@.skip(1) =~= s@.drop_first());
        match parse_digits(s, 1, 10, 0x8000000000000000) {
            Some(m) => {
                if m == 0x8000000000000000 {
                    Some(i64::MIN)
                } else {
                    Some(-(m as i64))
                }
            },
            None => None,
        }
    } else {
        match parse_unsigned_chars(s, 10, i64::MAX as u64) {
            Some(v) => Some(v as i64),
            None => None,
        }
    }
}

// ---------------------------------------------------------------------------
// Formatting
// ---------------------------------------------------------------------------

/// The digit character for a value below 16 (lower-case letters).
pub open spec fn digit_char(d: nat) -> char {
    if d < 10 {
        ('0' as int + d) as char
    } else {
        ('a' as int + d - 10) as char
    }
}

/// `n` in base `radix` (2 to 16), most significant digit first, with no
/// leading zeros (`0` is written `"0"`).
pub open spec fn radix_digits(n: nat, radix: nat) -> Seq<char>
    decreases n,
{
    if radix < 2 || n < radix {
        seq![digit_char(n)]
    } else {
        proof {
            assert(n / radix < n) by (nonlinear_arith)
                requires
                    radix >= 2,
                    n >= radix,
            ;
        }
        radix_digits(n / radix, radix).push(digit_char(n % radix))
    }
}

/// `n` in decimal, as `Display` writes it.
pub open spec fn decimal(n: nat) -> Seq<char> {
    radix_digits(n, 10)
}

/// A signed integer in decimal, as `Display` writes it.
pub open spec fn signed_decimal(i: int) -> Seq<char> {
    if i < 0 {
        seq!['-'] + decimal((-i) as nat)
    } else {
        decimal(i as nat)
    }
}

/// The digits of `n` are lower-case hexadecimal digits that read back as `n`.
pub proof fn lemma_radix_digits(n: nat, radix: nat)
    requires
        2 <= radix <= 16,
    ensures
        radix_digits(n, radix).len() > 0,
        all_digits(radix_digits(n, radix), radix),
        digits_value(radix_digits(n, radix), radix) == n,
        forall|i: int|
            0 <= i < radix_digits(n, radix).len() ==> ('0' <= #[trigger] radix_digits(n, radix)[i]
                <= '9' || 'a' <= radix_digits(n, radix)[i] <= 'f'),
    decreases n,
{
    let ds = radix_digits(n, radix);
    if n < radix {
        assert(digit_value(digit_char(n), radix) == Some(n));
        assert(ds.drop_last() =~= seq![]);
        assert(digits_value(ds.drop_last(), radix) == 0);
        assert(digits_value(ds, radix) == 0 * radix + n);
    } else {
        assert(n / radix < n) by (nonlinear_arith)
            requires
                radix >= 2,
                n >= radix,
        ;
        lemma_radix_digits(n / radix, radix);
        let prev = radix_digits(n / radix, radix);
        assert(ds.drop_last() =~= prev);
        let d = n % radix;
        assert(digit_value(digit_char(d), radix) == Some(d));
        assert(n == (n / radix) * radix + d) by (nonlinear_arith)
            requires
                radix >= 2,
                d == n % radix,
        ;
        assert(ds.last() == digit_char(d));
        assert(digits_value(ds, radix) == digits_value(prev, radix) * radix + d);
        assert forall|i: int| 0 <= i < ds.len() implies (#[trigger] digit_value(ds[i], radix)) is Some by {
            if i < prev.len() {
                assert(ds[i] == prev[i]);
            }
        }
        assert forall|i: int| 0 <= i < ds.len() implies ('0' <= #[trigger] ds[i] <= '9' || 'a'
            <= ds[i] <= 'f') by {
            if i < prev.len() {
                assert(ds[i] == prev[i]);
            }
        }
    }
}

/// The digit character for a value below 16.
fn digit_to_char(d: u64) -> (c: char)
    requires
        d < 16,
    ensures
        c == digit_char(d as nat),
{
    if d < 10 {
        (('0' as u8) + (d as u8)) as char
    } else {
        (('a' as u8) + (d as u8) - 10) as char
    }
}

/// `n` in base `radix` (2 to 16).
pub fn radix_digits_of(n: u64, radix: u64) -> (r: Vec<char>)
    requires
        2 <= radix <= 16,
    ensures
        r@ == radix_digits(n as nat, radix as nat),
    decreases n,
{
    if n < radix {
        vec![digit_to_char(n)]
    } else {
        assert(n / radix < n) by (nonlinear_arith)
            requires
                radix >= 2,
                n >= radix,
        ;
        let mut r = radix_digits_of(n / radix, radix);
        r.push(digit_to_char(n % radix));
        r
    }
}

/// A signed integer in decimal.
pub fn signed_decimal_of(i: i64) -> (r: Vec<char>)
    ensures
        r@ == signed_decimal(i as int),
{
    if i < 0 {
        let magnitude: u64 = ((-(i + 1)) as u64) + 1;
        let digits = radix_digits_of(magnitude, 10);
        let mut r = vec!['-'];
        let mut k: usize = 0;
        while k < digits.len()
            invariant
                r@ == seq!['-'] + digits@.take(k as int),
                k <= digits@.len(),
            decreases digits.len() - k,
        {
            r.push(digits[k]);
            k += 1;
            assert(r@ =~= seq!['-'] + digits@.take(k as int));
        }
        assert(digits@.take(digits@.len() as int) =~= digits@);
        r
    } else {
        radix_digits_of(i as u64, 10)
    }
}

/// A signed decimal reads back as its value.
pub proof fn lemma_signed_decimal_read(i: i64)
    ensures
        parse_signed(signed_decimal(i as int), 0x8000000000000000, i64::MAX as nat) == Some(
            i as int,
        ),
        forall|k: int|
            0 <= k < signed_decimal(i as int).len() ==> ('0' <= #[trigger] signed_decimal(
                i as int,
            )[k] <= '9' || signed_decimal(i as int)[k] == '-'),
        signed_decimal(i as int).len() > 0,
        signed_decimal(i as int).last() != '-',
{
    let n: nat = if i < 0 {
        (-(i as int)) as nat
    } else {
        i as nat
    };
    lemma_radix_digits(n, 10);
    let ds = decimal(n);
    assert forall|k: int| 0 <= k < ds.len() implies '0' <= #[trigger] ds[k] <= '9' by {
        assert('0' <= ds[k] <= '9' || 'a' <= ds[k] <= 'f');
        if 'a' <= ds[k] <= 'f' {
            assert(digit_value(ds[k], 10) is None);
        }
    }
    if i < 0 {
        let s = signed_decimal(i as int);
        assert(s =~= seq!['-'] + ds);
        assert(s.drop_first() =~= ds);
        assert(s.last() == ds.last());
    } else {
        assert(ds[0] != '-' && ds[0] != '+');
    }
}

} // verus!
