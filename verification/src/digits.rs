//! Decimal text: the digits of lengths, counts and integers on the wire.

use crate::ascii::{MINUS, NINE, PLUS, ZERO};
use vstd::prelude::*;

verus! {

/// Whether `b` is one of the ASCII digits `0` to `9`.
pub open spec fn is_digit(b: u8) -> bool {
    ZERO <= b <= NINE
}

/// The ASCII digit that stands for `d`, for `d` below ten.
pub open spec fn digit_byte(d: nat) -> u8
    recommends
        d < 10,
{
    (ZERO + d) as u8
}

/// The value of a run of ASCII digits read as a decimal number; zero for
/// the empty run.
pub open spec fn digits_value(s: Seq<u8>) -> nat
    decreases s.len(),
{
    if s.len() == 0 {
        0
    } else {
        (digits_value(s.drop_last()) * 10 + (s.last() - ZERO)) as nat
    }
}

/// Whether every byte of `s` is an ASCII digit.
pub open spec fn all_digits(s: Seq<u8>) -> bool {
    forall|i: int| 0 <= i < s.len() ==> is_digit(#[trigger] s[i])
}

/// The shortest decimal text of `n`: no leading zero, `0` for zero.
pub open spec fn decimal(n: nat) -> Seq<u8>
    decreases n,
{
    if n < 10 {
        seq![digit_byte(n)]
    } else {
        decimal(n / 10).push(digit_byte(n % 10))
    }
}

/// Reading back the shortest decimal text of a number gives that number.
pub proof fn lemma_decimal_value(n: nat)
    ensures
        all_digits(decimal(n)),
        decimal(n).len() >= 1,
        digits_value(decimal(n)) == n,
    decreases n,
{
    if n < 10 {
        let s = decimal(n);
        assert(s.drop_last().len() == 0);
        assert(digits_value(s.drop_last()) == 0);
        assert(s.last() == digit_byte(n));
    } else {
        lemma_decimal_value(n / 10);
        let p = decimal(n / 10);
        let s = decimal(n);
        assert(s.drop_last() =~= p);
        assert(s.last() == digit_byte(n % 10));
    }
}

/// A number's value is at least that of any shorter prefix of its digits.
pub proof fn lemma_prefix_value(s: Seq<u8>, k: int)
    requires
        all_digits(s),
        0 <= k <= s.len(),
    ensures
        digits_value(s.subrange(0, k)) <= digits_value(s),
    decreases s.len() - k,
{
    if k == s.len() {
        assert(s.subrange(0, k) =~= s);
    } else {
        lemma_prefix_value(s, k + 1);
        let t = s.subrange(0, k + 1);
        assert(t.drop_last() =~= s.subrange(0, k));
        assert(is_digit(s[k]));
        assert(t.last() == s[k]);
    }
}

/// What a run of bytes says as an unsigned decimal number no larger than
/// `max`: `Some` exactly when the run is not empty, holds digits only and
/// its value is within the bound. Leading zeros are read.
pub open spec fn parse_unsigned(s: Seq<u8>, max: nat) -> Option<nat> {
    if s.len() > 0 && all_digits(s) && digits_value(s) <= max {
        Some(digits_value(s))
    } else {
        None
    }
}

/// The largest magnitude of a negative 64-bit integer.
pub open spec fn i64_min_magnitude() -> nat {
    0x8000_0000_0000_0000
}

/// What a run of bytes says as a signed 64-bit decimal integer: an optional
/// `+` or `-`, then at least one digit, the whole within the range of
/// `i64`.
pub open spec fn parse_signed(s: Seq<u8>) -> Option<int> {
    if s.len() > 0 && s[0] == MINUS {
        match parse_unsigned(s.skip(1), i64_min_magnitude()) {
            Some(v) => Some(-(v as int)),
            None => None,
        }
    } else if s.len() > 0 && s[0] == PLUS {
        match parse_unsigned(s.skip(1), (i64_min_magnitude() - 1) as nat) {
            Some(v) => Some(v as int),
            None => None,
        }
    } else {
        match parse_unsigned(s, (i64_min_magnitude() - 1) as nat) {
            Some(v) => Some(v as int),
            None => None,
        }
    }
}

/// The shortest decimal text of a signed integer: `-` before the digits of
/// a negative one, no sign otherwise.
pub open spec fn signed_decimal(n: int) -> Seq<u8> {
    if n < 0 {
        seq![MINUS] + decimal((-n) as nat)
    } else {
        decimal(n as nat)
    }
}

/// Reading back the text of a 64-bit integer gives that integer.
pub proof fn lemma_signed_decimal_value(n: int)
    requires
        i64::MIN <= n <= i64::MAX,
    ensures
        parse_signed(signed_decimal(n)) == Some(n),
{
    if n < 0 {
        let m = (-n) as nat;
        lemma_decimal_value(m);
        let s = signed_decimal(n);
        assert(s.skip(1) =~= decimal(m));
    } else {
        lemma_decimal_value(n as nat);
        let s = decimal(n as nat);
        assert(is_digit(s[0]));
    }
}

/// Reads `buf[start..end]` as an unsigned decimal number no larger than
/// `max`.
pub fn read_unsigned(buf: &[u8], start: usize, end: usize, max: u128) -> (r: Option<u128>)
    requires
        start <= end <= buf.len(),
    ensures
        match r {
            Some(v) => parse_unsigned(buf@.subrange(start as int, end as int), max as nat)
                == Some(v as nat),
            None => parse_unsigned(buf@.subrange(start as int, end as int), max as nat)
                is None,
        },
{
    let ghost s = buf@.subrange(start as int, end as int);
    if start == end {
        return None;
    }
    let mut acc: u128 = 0;
    let mut i: usize = start;
    while i < end
        invariant
            start <= i <= end <= buf.len(),
            s == buf@.subrange(start as int, end as int),
            all_digits(s.subrange(0, i - start)),
            acc == digits_value(s.subrange(0, i - start)),
            acc <= max,
        decreases end - i,
    {
        let b: u8 = buf[i];
        let ghost before = s.subrange(0, i - start);
        let ghost after = s.subrange(0, i - start + 1);
        proof {
            assert(s[i - start] == b);
            assert(after.drop_last() =~= before);
            assert(after.last() == b);
        }
        if b < ZERO || b > NINE {
            assert(!is_digit(s[i - start]));
            return None;
        }
        let d: u128 = (b - ZERO) as u128;
        if acc > max / 10 || d > max - acc * 10 {
            proof {
                assert(digits_value(after) == acc * 10 + d);
                assert(digits_value(after) > max);
                if all_digits(s) {
                    lemma_prefix_value(s, i - start + 1);
                }
            }
            return None;
        }
        acc = acc * 10 + d;
        i = i + 1;
        proof {
            assert forall|j: int| 0 <= j < after.len() implies is_digit(#[trigger] after[j]) by {
                if j < before.len() {
                    assert(after[j] == before[j]);
                }
            }
        }
    }
    proof {
        assert(s.subrange(0, i - start) =~= s);
    }
    Some(acc)
}

/// Reads the whole of `text` as a signed 64-bit decimal integer.
pub fn read_signed(text: &[u8]) -> (r: Option<i64>)
    ensures
        match r {
            Some(v) => parse_signed(text@) == Some(v as int),
            None => parse_signed(text@) is None,
        },
{
    let n: usize = text.len();
    if n > 0 && text[0] == MINUS {
        assert(text@.subrange(1, n as int) =~= text@.skip(1));
        match read_unsigned(text, 1, n, 0x8000_0000_0000_0000) {
            Some(v) => {
                if v == 0x8000_0000_0000_0000 {
                    Some(i64::MIN)
                } else {
                    Some(-(v as i64))
                }
            },
            None => None,
        }
    } else if n > 0 && text[0] == PLUS {
        assert(text@.subrange(1, n as int) =~= text@.skip(1));
        match read_unsigned(text, 1, n, 0x7fff_ffff_ffff_ffff) {
            Some(v) => Some(v as i64),
            None => None,
        }
    } else {
        assert(text@.subrange(0, n as int) =~= text@);
        match read_unsigned(text, 0, n, 0x7fff_ffff_ffff_ffff) {
            Some(v) => Some(v as i64),
            None => None,
        }
    }
}

/// Appends the shortest decimal text of `n` to `out`.
pub fn write_unsigned(out: &mut Vec<u8>, n: u128)
    ensures
        final(out)@ == old(out)@ + decimal(n as nat),
    decreases n,
{
    if n >= 10 {
        write_unsigned(out, n / 10);
    }
    let d: u8 = (n % 10) as u8;
    out.push(ZERO + d);
    proof {
        if n >= 10 {
            assert(final(out)@ =~= old(out)@ + decimal(n as nat));
        } else {
            assert(final(out)@ =~= old(out)@ + decimal(n as nat));
        }
    }
}

/// Appends the shortest decimal text of the signed integer `n` to `out`.
pub fn write_signed(out: &mut Vec<u8>, n: i64)
    ensures
        final(out)@ == old(out)@ + signed_decimal(n as int),
{
    if n < 0 {
        out.push(MINUS);
        let m: u128 = (-(n as i128)) as u128;
        write_unsigned(out, m);
        assert(final(out)@ =~= old(out)@ + signed_decimal(n as int));
    } else {
        write_unsigned(out, n as u128);
    }
}

} // verus!
