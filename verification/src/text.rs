//! Byte-level text helpers shared by the level parser and the level writer:
//! character classes, decimal parsing and decimal printing.

use vstd::prelude::*;

verus! {

/// ASCII decimal digit.
pub open spec fn is_digit(b: u8) -> bool {
    48 <= b <= 57
}

/// ASCII whitespace: space, tab, line feed, vertical tab, form feed,
/// carriage return.
pub open spec fn is_space(b: u8) -> bool {
    b == 32 || 9 <= b <= 13
}

/// Numeric value of a digit byte.
pub open spec fn digit_val(b: u8) -> int {
    b - 48
}

/// Every byte of the sequence is a decimal digit.
pub open spec fn all_digits(s: Seq<u8>) -> bool {
    forall|i: int| 0 <= i < s.len() ==> is_digit(#[trigger] s[i])
}

/// The value of a digit string read in base ten.
pub open spec fn dec_value(s: Seq<u8>) -> int
    decreases s.len(),
{
    if s.len() == 0 {
        0
    } else {
        dec_value(s.drop_last()) * 10 + digit_val(s.last())
    }
}

/// Whether a byte sequence is an acceptable unsigned decimal: an optional
/// plus sign followed by at least one digit, with a value that fits.
pub open spec fn spec_parse_u32(s: Seq<u8>) -> Option<u32> {
    let digits = if s.len() > 0 && s[0] == 43 {
        s.subrange(1, s.len() as int)
    } else {
        s
    };
    if digits.len() > 0 && all_digits(digits) && dec_value(digits) <= u32::MAX {
        Some(dec_value(digits) as u32)
    } else {
        None
    }
}

/// Parse an unsigned decimal, tolerating a leading plus sign as the standard
/// integer parser does; anything else, or a value over `u32::MAX`, is `None`.
pub fn parse_u32(s: &[u8]) -> (r: Option<u32>)
    ensures
        r == spec_parse_u32(s@),
{
    let len = s.len();
    let start: usize = if len > 0 && s[0] == 43 {
        1
    } else {
        0
    };
    let ghost digits = s@.subrange(start as int, len as int);
    assert(digits =~= if s@.len() > 0 && s@[0] == 43 {
        s@.subrange(1, s@.len() as int)
    } else {
        s@
    });
    if start == len {
        return None;
    }
    let mut acc: u64 = 0;
    let mut i: usize = start;
    while i < len
        invariant
            start <= i <= len,
            len == s@.len(),
            start + digits.len() == len,
            digits == s@.subrange(start as int, len as int),
            digits == (if s@.len() > 0 && s@[0] == 43 {
                s@.subrange(1, s@.len() as int)
            } else {
                s@
            }),
            all_digits(s@.subrange(start as int, i as int)),
            acc == dec_value(s@.subrange(start as int, i as int)),
            acc <= u32::MAX,
        decreases len - i,
    {
        let b = s[i];
        if b < 48 || b > 57 {
            proof {
                assert(digits[i - start] == s@[i as int]);
                assert(!all_digits(digits));
            }
            return None;
        }
        let d = (b - 48) as u64;
        let next = acc * 10 + d;
        proof {
            let pre = s@.subrange(start as int, i as int);
            let cur = s@.subrange(start as int, i as int + 1);
            assert(cur.drop_last() =~= pre);
            assert(cur.last() == s@[i as int]);
        }
        if next > 0xFFFF_FFFF {
            proof {
                lemma_dec_prefix_bounds(s@, start as int, i as int + 1, len as int);
                assert(s@.subrange(start as int, len as int) == digits);
            }
            return None;
        }
        acc = next;
        i += 1;
    }
    proof {
        assert(s@.subrange(start as int, len as int) == digits);
    }
    Some(acc as u32)
}

/// If the digits of a prefix already read a value above `u32::MAX`, the full
/// string's value stays above it — provided the rest are digits — and a
/// non-digit anywhere disqualifies the string entirely. Together: once the
/// accumulator overflows, the whole string can never parse.
proof fn lemma_dec_prefix_bounds(s: Seq<u8>, start: int, mid: int, end: int)
    requires
        0 <= start <= mid <= end <= s.len(),
        all_digits(s.subrange(start, mid)),
        dec_value(s.subrange(start, mid)) > u32::MAX,
    ensures
        !(all_digits(s.subrange(start, end)) && dec_value(s.subrange(start, end)) <= u32::MAX),
    decreases end - mid,
{
    if all_digits(s.subrange(start, end)) {
        if mid == end {
        } else {
            let prev = s.subrange(start, mid);
            let next = s.subrange(start, mid + 1);
            assert(next.drop_last() =~= prev);
            assert(is_digit(next.last())) by {
                assert(next.last() == s.subrange(start, end)[mid - start]);
            }
            assert(all_digits(next)) by {
                assert(forall|i: int|
                    0 <= i < next.len() ==> next[i] == #[trigger] s.subrange(start, end)[i]);
            }
            assert(dec_value(next) == dec_value(prev) * 10 + digit_val(next.last()));
            assert(dec_value(prev) * 10 >= dec_value(prev)) by (nonlinear_arith)
                requires dec_value(prev) >= 0
            ;
            lemma_dec_prefix_bounds(s, start, mid + 1, end);
        }
    }
}

/// The canonical decimal digits of a number.
pub open spec fn spec_dec_digits(n: int) -> Seq<u8>
    decreases n,
{
    if n <= 0 {
        seq![48u8]
    } else if n < 10 {
        seq![(48 + n) as u8]
    } else {
        spec_dec_digits(n / 10).push((48 + n % 10) as u8)
    }
}

/// Print a number in decimal.
pub fn u32_to_dec(v: u32) -> (out: Vec<u8>)
    ensures
        out@ == spec_dec_digits(v as int),
{
    if v == 0 {
        let mut out: Vec<u8> = Vec::new();
        out.push(48);
        proof {
            assert(out@ =~= spec_dec_digits(0));
        }
        return out;
    }
    let mut rev: Vec<u8> = Vec::new();
    let mut n: u32 = v;
    proof {
        assert(spec_dec_digits(v as int).add(rev@.reverse()) =~= spec_dec_digits(v as int));
    }
    while n > 0
        invariant
            0 <= n <= v,
            v > 0,
            n == v ==> rev@.len() == 0,
            n < v ==> rev@.len() > 0,
            if n > 0 {
                spec_dec_digits(v as int) == spec_dec_digits(n as int).add(rev@.reverse())
            } else {
                spec_dec_digits(v as int) == rev@.reverse()
            },
        decreases n,
    {
        proof {
            vstd::arithmetic::div_mod::lemma_mod_division_less_than_divisor(n as int, 10);
            vstd::arithmetic::div_mod::lemma_div_pos_is_pos(n as int, 10);
        }
        let d = (n % 10) as u8;
        rev.push(48 + d);
        let next = n / 10;
        proof {
            let old_rev = rev@.drop_last();
            assert(rev@.reverse() =~= seq![(48 + (n as int) % 10) as u8].add(old_rev.reverse()));
            if next > 0 {
                assert(spec_dec_digits(n as int) == spec_dec_digits(next as int).push(
                    (48 + (n as int) % 10) as u8,
                ));
                assert(spec_dec_digits(next as int).add(rev@.reverse()) =~= spec_dec_digits(
                    n as int,
                ).add(old_rev.reverse()));
            } else {
                vstd::arithmetic::div_mod::lemma_fundamental_div_mod(n as int, 10);
                assert(n < 10);
                assert(spec_dec_digits(n as int) =~= seq![(48 + (n as int) % 10) as u8]);
                assert(rev@.reverse() =~= spec_dec_digits(n as int).add(old_rev.reverse()));
            }
        }
        n = next;
    }
    let mut out: Vec<u8> = Vec::new();
    let mut i: usize = rev.len();
    while i > 0
        invariant
            0 <= i <= rev@.len(),
            out@ =~= rev@.subrange(i as int, rev@.len() as int).reverse(),
        decreases i,
    {
        i -= 1;
        out.push(rev[i]);
        proof {
            assert(out@ =~= rev@.subrange(i as int, rev@.len() as int).reverse());
        }
    }
    proof {
        assert(rev@.subrange(0, rev@.len() as int) =~= rev@);
        assert(out@ =~= rev@.reverse());
    }
    out
}

} // verus!
