//! Decimal integer lines: the meaning of a digit string, the canonical
//! decimal rendering of an integer, a verified parser and renderer, and
//! the round-trip facts the codec proofs rest on.
use vstd::prelude::*;

use crate::value::ProtocolError;

verus! {

/// ASCII decimal digit.
pub open spec fn is_digit(b: u8) -> bool {
    48 <= b <= 57
}

pub open spec fn all_digits(s: Seq<u8>) -> bool {
    forall|i: int| 0 <= i < s.len() ==> is_digit(#[trigger] s[i])
}

/// The value of a digit string read most-significant first.
pub open spec fn digits_value(s: Seq<u8>) -> int
    decreases s.len(),
{
    if s.len() == 0 {
        0
    } else {
        digits_value(s.drop_last()) * 10 + (s.last() - 48)
    }
}

/// The canonical decimal rendering of `n`: no sign, no leading zeros.
pub open spec fn dec_digits(n: nat) -> Seq<u8>
    decreases n,
{
    if n < 10 {
        seq![(n + 48) as u8]
    } else {
        dec_digits(n / 10).push(((n % 10) + 48) as u8)
    }
}

/// The canonical decimal rendering of `i`: a minus sign iff `i` is negative.
pub open spec fn dec_int(i: int) -> Seq<u8> {
    if i < 0 {
        seq![45u8] + dec_digits((-i) as nat)
    } else {
        dec_digits(i as nat)
    }
}

/// The digit part of an integer line: everything after an optional leading
/// `+` or `-`.
pub open spec fn int_line_digits(s: Seq<u8>) -> Seq<u8> {
    if s.len() >= 1 && (s[0] == 45 || s[0] == 43) {
        s.skip(1)
    } else {
        s
    }
}

/// The sign an integer line carries: `-1` for a leading minus, else `1`.
pub open spec fn int_line_sign(s: Seq<u8>) -> int {
    if s.len() >= 1 && s[0] == 45 {
        -1
    } else {
        1
    }
}

/// What an integer line means: an optional sign followed by at least one
/// digit, whose signed value fits a 64-bit signed integer; `None` otherwise.
pub open spec fn int_line_value(s: Seq<u8>) -> Option<int> {
    let digits = int_line_digits(s);
    if digits.len() >= 1 && all_digits(digits) {
        let v = int_line_sign(s) * digits_value(digits);
        if i64::MIN <= v <= i64::MAX {
            Some(v)
        } else {
            None
        }
    } else {
        None
    }
}

pub proof fn lemma_digits_value_nonneg(s: Seq<u8>)
    requires
        all_digits(s),
    ensures
        digits_value(s) >= 0,
    decreases s.len(),
{
    if s.len() > 0 {
        assert(all_digits(s.drop_last()));
        lemma_digits_value_nonneg(s.drop_last());
    }
}

/// A digit string is worth at least any of its prefixes.
pub proof fn lemma_digits_value_take(s: Seq<u8>, k: int)
    requires
        all_digits(s),
        0 <= k <= s.len(),
    ensures
        digits_value(s.take(k)) <= digits_value(s),
    decreases s.len(),
{
    lemma_digits_value_nonneg(s);
    if k < s.len() {
        assert(all_digits(s.drop_last()));
        assert(s.drop_last().take(k) =~= s.take(k));
        lemma_digits_value_take(s.drop_last(), k);
        lemma_digits_value_nonneg(s.drop_last());
    } else {
        assert(s.take(k) =~= s);
    }
}

/// The canonical rendering is all digits and reads back to its value.
pub proof fn lemma_dec_digits(n: nat)
    ensures
        all_digits(dec_digits(n)),
        dec_digits(n).len() >= 1,
        digits_value(dec_digits(n)) == n,
    decreases n,
{
    if n < 10 {
        let s = dec_digits(n);
        assert(s.drop_last() =~= Seq::<u8>::empty());
        assert(s.last() == (n + 48) as u8);
        assert((n + 48) as u8 == n + 48);
        assert(digits_value(s) == digits_value(s.drop_last()) * 10 + (s.last() - 48));
        assert(digits_value(Seq::<u8>::empty()) == 0);
    } else {
        lemma_dec_digits(n / 10);
        let pre = dec_digits(n / 10);
        let s = pre.push(((n % 10) + 48) as u8);
        assert(s.drop_last() =~= pre);
        assert(s.last() == ((n % 10) + 48) as u8);
        assert(digits_value(s) == digits_value(pre) * 10 + (n % 10));
    }
}

/// The canonical rendering of a 64-bit integer reads back to that integer,
/// and never contains a carriage return or line feed.
pub proof fn lemma_int_line_dec(i: int)
    requires
        i64::MIN <= i <= i64::MAX,
    ensures
        int_line_value(dec_int(i)) == Some(i),
        dec_int(i).len() >= 1,
        forall|j: int|
            0 <= j < dec_int(i).len() ==> #[trigger] dec_int(i)[j] != 13 && dec_int(i)[j] != 10,
{
    if i < 0 {
        lemma_dec_digits((-i) as nat);
        let s = dec_int(i);
        assert(s[0] == 45);
        assert(s.skip(1) =~= dec_digits((-i) as nat));
        assert(int_line_digits(s) == dec_digits((-i) as nat));
        assert(digits_value(int_line_digits(s)) == -i);
        assert(int_line_value(s) == Some(i));
        assert forall|j: int| 0 <= j < s.len() implies #[trigger] s[j] != 13 && s[j] != 10 by {
            if j >= 1 {
                assert(is_digit(dec_digits((-i) as nat)[j - 1]));
            }
        }
    } else {
        lemma_dec_digits(i as nat);
        let s = dec_int(i);
        assert(is_digit(s[0]));
        assert(int_line_digits(s) == s);
        assert(int_line_sign(s) == 1);
        assert(int_line_value(s) == Some(i));
        assert forall|j: int| 0 <= j < s.len() implies #[trigger] s[j] != 13 && s[j] != 10 by {
            assert(is_digit(s[j]));
        }
    }
}

/// Parses a whole buffer as a signed decimal integer: an optional `+` or
/// `-` sign, then one or more digits. Anything else, or a value outside
/// the signed 64-bit range, is `InvalidInteger`.
pub fn parse_int(buffer: &[u8]) -> (r: Result<i64, ProtocolError>)
    ensures
        match r {
            Ok(i) => int_line_value(buffer@) == Some(i as int),
            Err(e) => int_line_value(buffer@) is None && e == ProtocolError::InvalidInteger,
        },
{
    let n = buffer.len();
    let ghost digits = int_line_digits(buffer@);
    let mut idx: usize = 0;
    let mut neg = false;
    if n == 0 {
        return Err(ProtocolError::InvalidInteger);
    }
    let b0 = buffer[0];
    if b0 == 45 {
        neg = true;
        idx = 1;
    } else if b0 == 43 {
        idx = 1;
    }
    proof {
        assert(digits =~= buffer@.skip(idx as int));
    }
    if idx == n {
        return Err(ProtocolError::InvalidInteger);
    }
    let mut acc: u64 = 0;
    let mut i: usize = idx;
    while i < n
        invariant
            idx <= i <= n == buffer@.len(),
            idx < n,
            digits == int_line_digits(buffer@),
            digits == buffer@.skip(idx as int),
            digits.len() == n - idx,
            all_digits(digits.take(i - idx)),
            acc as int == digits_value(digits.take(i - idx)),
            neg ==> (buffer@.len() >= 1 && buffer@[0] == 45),
            !neg ==> int_line_sign(buffer@) == 1,
        decreases n - i,
    {
        let b = buffer[i];
        if !(48 <= b && b <= 57) {
            proof {
                assert(digits[i - idx] == b);
                assert(!is_digit(digits[i - idx]));
                assert(!all_digits(digits));
            }
            return Err(ProtocolError::InvalidInteger);
        }
        let d = (b - 48) as u64;
        proof {
            assert(digits.take(i + 1 - idx).drop_last() =~= digits.take(i - idx));
            assert(digits.take(i + 1 - idx).last() == b);
        }
        let next = match acc.checked_mul(10) {
            Some(m) => m.checked_add(d),
            None => None,
        };
        match next {
            Some(v) => {
                acc = v;
            },
            None => {
                // The value of the digits seen so far already exceeds
                // what 64 bits can hold, and further digits only grow it.
                proof {
                    assert(digits_value(digits.take(i + 1 - idx)) > u64::MAX);
                    if all_digits(digits) {
                        lemma_digits_value_take(digits, i + 1 - idx);
                        assert(digits_value(digits) > u64::MAX);
                        assert(int_line_sign(buffer@) * digits_value(digits) > i64::MAX
                            || int_line_sign(buffer@) * digits_value(digits) < i64::MIN);
                    }
                }
                return Err(ProtocolError::InvalidInteger);
            },
        }
        i = i + 1;
    }
    proof {
        assert(digits.take(n - idx) =~= digits);
    }
    if neg {
        if acc <= i64::MAX as u64 {
            Ok(-(acc as i64))
        } else if acc == (i64::MAX as u64) + 1 {
            Ok(i64::MIN)
        } else {
            proof {
                assert(int_line_sign(buffer@) == -1);
                assert(-1 * digits_value(digits) < i64::MIN);
            }
            Err(ProtocolError::InvalidInteger)
        }
    } else {
        if acc <= i64::MAX as u64 {
            Ok(acc as i64)
        } else {
            proof {
                lemma_digits_value_nonneg(digits);
                assert(int_line_sign(buffer@) * digits_value(digits) > i64::MAX);
            }
            Err(ProtocolError::InvalidInteger)
        }
    }
}

/// Renders `n` in canonical decimal.
pub fn u64_to_decimal(n: u64) -> (r: Vec<u8>)
    ensures
        r@ == dec_digits(n as nat),
{
    let mut rev: Vec<u8> = Vec::new();
    let mut m = n;
    while m >= 10
        invariant
            dec_digits(n as nat) == dec_digits(m as nat) + rev@.reverse(),
        decreases m,
    {
        let d = ((m % 10) as u8) + 48;
        proof {
            assert((rev@.push(d)).reverse() =~= seq![d] + rev@.reverse());
            assert(dec_digits(m as nat) == dec_digits((m as nat) / 10).push(d));
            assert(dec_digits((m as nat) / 10).push(d) + rev@.reverse() =~= dec_digits(
                (m as nat) / 10,
            ) + (rev@.push(d)).reverse());
            assert((m / 10) as nat == (m as nat) / 10);
        }
        rev.push(d);
        m = m / 10;
    }
    let d = (m as u8) + 48;
    proof {
        assert((rev@.push(d)).reverse() =~= seq![d] + rev@.reverse());
        assert(dec_digits(m as nat) =~= seq![d]);
        assert(dec_digits(n as nat) =~= (rev@.push(d)).reverse());
    }
    rev.push(d);
    let ghost digits = rev@.reverse();
    let mut out: Vec<u8> = Vec::new();
    let k = rev.len();
    let mut j: usize = 0;
    while j < k
        invariant
            k == rev@.len(),
            0 <= j <= k,
            digits == rev@.reverse(),
            out@ =~= digits.take(j as int),
        decreases k - j,
    {
        let b = rev[k - 1 - j];
        proof {
            assert(digits[j as int] == rev@[k - 1 - j]);
            assert(out@.push(b) =~= digits.take(j + 1));
        }
        out.push(b);
        j = j + 1;
    }
    proof {
        assert(out@ =~= digits);
    }
    out
}

/// Renders `i` in canonical decimal, minus sign included when negative.
pub fn i64_to_decimal(i: i64) -> (r: Vec<u8>)
    ensures
        r@ == dec_int(i as int),
{
    if i >= 0 {
        u64_to_decimal(i as u64)
    } else {
        let mag: u64 = ((-(i + 1)) as u64) + 1;
        proof {
            assert(mag as int == -(i as int));
        }
        let mut out: Vec<u8> = Vec::new();
        out.push(45);
        let digits = u64_to_decimal(mag);
        let mut d = digits;
        out.append(&mut d);
        proof {
            assert(out@ =~= seq![45u8] + dec_digits((-(i as int)) as nat));
        }
        out
    }
}

} // verus!
