use vstd::prelude::*;

use crate::text::hex_digit_value;

verus! {

pub open spec fn is_digit(c: char) -> bool {
    '0' <= c <= '9'
}

/// Value of one digit in base 10 or 16.
pub open spec fn digit_value(c: char, base: int) -> int {
    if base == 16 {
        hex_digit_value(c)
    } else {
        c as int - '0' as int
    }
}

pub open spec fn is_digit_in(c: char, base: int) -> bool {
    if base == 16 {
        hex_digit_value(c) >= 0
    } else {
        is_digit(c)
    }
}

/// Value of a run of digits in `base`, skipping `_` separators.
pub open spec fn digits_value(s: Seq<char>, base: int) -> int
    decreases s.len(),
{
    if s.len() == 0 {
        0
    } else if s.last() == '_' {
        digits_value(s.drop_last(), base)
    } else {
        digits_value(s.drop_last(), base) * base + digit_value(s.last(), base)
    }
}

/// Digits with `_` separators, starting with a digit.
pub open spec fn is_decimal_digits(s: Seq<char>) -> bool {
    s.len() > 0 && is_digit(s[0]) && forall|i: int| 0 <= i < s.len() ==> is_digit(#[trigger] s[i]) || s[i] == '_'
}

pub open spec fn is_hex_digits(s: Seq<char>) -> bool {
    s.len() > 0 && forall|i: int| 0 <= i < s.len() ==> hex_digit_value(#[trigger] s[i]) >= 0
}

/// The number an integer literal denotes: decimal digits with `_`
/// separators and an optional minus sign, or `0x` and hexadecimal digits.
pub open spec fn integer_literal_value(s: Seq<char>) -> Option<int> {
    if s.len() >= 2 && s[0] == '0' && s[1] == 'x' {
        let h = s.subrange(2, s.len() as int);
        if is_hex_digits(h) {
            Some(digits_value(h, 16))
        } else {
            None
        }
    } else if s.len() >= 1 && s[0] == '-' {
        let d = s.subrange(1, s.len() as int);
        if is_decimal_digits(d) {
            Some(-digits_value(d, 10))
        } else {
            None
        }
    } else if is_decimal_digits(s) {
        Some(digits_value(s, 10))
    } else {
        None
    }
}

pub open spec fn fits_i64(v: int) -> bool {
    i64::MIN <= v <= i64::MAX
}

proof fn lemma_digits_grow(s: Seq<char>, base: int, k: int)
    requires
        base == 10 || base == 16,
        0 <= k <= s.len(),
        forall|i: int| 0 <= i < s.len() ==> is_digit_in(#[trigger] s[i], base) || s[i] == '_',
    ensures
        digits_value(s, base) >= digits_value(s.subrange(0, k), base) >= 0,
    decreases s.len(),
{
    if k == s.len() {
        assert(s.subrange(0, k) =~= s);
        if s.len() > 0 {
            lemma_digits_grow(s.drop_last(), base, k - 1);
        }
    } else {
        assert(s.drop_last().subrange(0, k) =~= s.subrange(0, k));
        lemma_digits_grow(s.drop_last(), base, k);
    }
}

/// Value of the digits `s[from..]` in `base` when it is at most `limit`.
fn digits_to_u64(s: &Vec<char>, from: usize, base: u64, limit: u64) -> (r: Option<u64>)
    requires
        from <= s.len(),
        base == 10 || base == 16,
        forall|i: int| from <= i < s.len() ==> is_digit_in(#[trigger] s@[i], base as int) || s@[i] == '_',
    ensures
        r == (if digits_value(s@.subrange(from as int, s.len() as int), base as int) <= limit {
            Some(digits_value(s@.subrange(from as int, s.len() as int), base as int) as u64)
        } else {
            None::<u64>
        }),
{
    let ghost full = s@.subrange(from as int, s.len() as int);
    let mut acc: u64 = 0;
    let mut i: usize = from;
    while i < s.len()
        invariant
            from <= i <= s.len(),
            full == s@.subrange(from as int, s.len() as int),
            acc as int == digits_value(s@.subrange(from as int, i as int), base as int),
            acc <= limit,
            base == 10 || base == 16,
            forall|j: int| from <= j < s.len() ==> is_digit_in(#[trigger] s@[j], base as int) || s@[j] == '_',
        decreases s.len() - i,
    {
        let ghost pre = s@.subrange(from as int, i as int);
        let ghost next = s@.subrange(from as int, i + 1);
        assert(next.drop_last() =~= pre);
        assert(next.last() == s@[i as int]);
        assert(full.subrange(0, i + 1 - from) =~= next);
        assert(forall|j: int| 0 <= j < full.len() ==> full[j] == s@[from + j]);
        let c = s[i];
        if c != '_' {
            let d: u64 = if base == 16 {
                if '0' <= c && c <= '9' {
                    c as u64 - '0' as u64
                } else if 'a' <= c && c <= 'f' {
                    c as u64 - 'a' as u64 + 10
                } else {
                    c as u64 - 'A' as u64 + 10
                }
            } else {
                c as u64 - '0' as u64
            };
            assert(d as int == digit_value(c, base as int));
            assert(d < base);
            if d > limit || acc > (limit - d) / base {
                proof {
                    let q = (limit - d) as int / base as int;
                    if d <= limit {
                        assert(acc as int * base as int + d as int > limit as int) by (nonlinear_arith)
                            requires
                                acc as int > q,
                                q == (limit - d) as int / base as int,
                                base > 0,
                                d <= limit,
                        ;
                    }
                    lemma_digits_grow(full, base as int, i + 1 - from);
                }
                return None;
            }
            proof {
                let q = (limit - d) as int / base as int;
                assert(acc as int * base as int + d as int <= limit as int) by (nonlinear_arith)
                    requires
                        acc as int <= q,
                        q == (limit - d) as int / base as int,
                        base > 0,
                        d <= limit,
                ;
            }
            acc = acc * base + d;
        }
        i = i + 1;
    }
    assert(s@.subrange(from as int, i as int) =~= full);
    Some(acc)
}

/// Parses an integer literal (see `integer_literal_value`); `None` when the
/// text is no such literal or its value does not fit in 64 signed bits.
pub fn parse_integer(lit: &Vec<char>) -> (r: Option<i64>)
    ensures
        r == (match integer_literal_value(lit@) {
            Some(v) => if fits_i64(v) {
                Some(v as i64)
            } else {
                None::<i64>
            },
            None => None::<i64>,
        }),
{
    let n = lit.len();
    if n >= 2 && lit[0] == '0' && lit[1] == 'x' {
        let ghost h = lit@.subrange(2, n as int);
        if n == 2 {
            return None;
        }
        let mut i: usize = 2;
        while i < n
            invariant
                2 <= i <= n,
                n == lit.len(),
                h == lit@.subrange(2, n as int),
                lit@[0] == '0' && lit@[1] == 'x',
                forall|j: int| 2 <= j < i ==> hex_digit_value(#[trigger] lit@[j]) >= 0,
            decreases n - i,
        {
            let c = lit[i];
            if !(('0' <= c && c <= '9') || ('a' <= c && c <= 'f') || ('A' <= c && c <= 'F')) {
                assert(h[i - 2] == c);
                return None;
            }
            i = i + 1;
        }
        assert(forall|j: int| 0 <= j < h.len() ==> h[j] == lit@[j + 2]);
        assert(is_hex_digits(h));
        proof {
            lemma_digits_grow(h, 16, 0);
        }
        return match digits_to_u64(lit, 2, 16, 0x7FFF_FFFF_FFFF_FFFF) {
            Some(v) => Some(v as i64),
            None => None,
        };
    }
    let neg = n >= 1 && lit[0] == '-';
    let start: usize = if neg { 1 } else { 0 };
    let ghost d = lit@.subrange(start as int, n as int);
    if start >= n || !('0' <= lit[start] && lit[start] <= '9') {
        assert(d.len() == 0 || d[0] == lit@[start as int]);
        proof {
            if !neg {
                assert(d =~= lit@);
            }
        }
        return None;
    }
    let mut i: usize = start;
    while i < n
        invariant
            start <= i <= n,
            n == lit.len(),
            d == lit@.subrange(start as int, n as int),
            neg == (n >= 1 && lit@[0] == '-'),
            start == (if neg { 1usize } else { 0usize }),
            !neg ==> !(n >= 2 && lit@[0] == '0' && lit@[1] == 'x'),
            forall|j: int| start <= j < i ==> is_digit(#[trigger] lit@[j]) || lit@[j] == '_',
        decreases n - i,
    {
        let c = lit[i];
        if !(('0' <= c && c <= '9') || c == '_') {
            proof {
                assert(d[i - start] == c);
                if !neg {
                    assert(d =~= lit@);
                }
            }
            return None;
        }
        i = i + 1;
    }
    assert(forall|j: int| 0 <= j < d.len() ==> d[j] == lit@[j + start]);
    assert(is_decimal_digits(d));
    proof {
        if !neg {
            assert(d =~= lit@);
        }
        lemma_digits_grow(d, 10, 0);
    }
    if neg {
        match digits_to_u64(lit, 1, 10, 0x8000_0000_0000_0000) {
            Some(v) => {
                if v == 0x8000_0000_0000_0000 {
                    Some(i64::MIN)
                } else {
                    Some(-(v as i64))
                }
            },
            None => None,
        }
    } else {
        match digits_to_u64(lit, 0, 10, 0x7FFF_FFFF_FFFF_FFFF) {
            Some(v) => Some(v as i64),
            None => None,
        }
    }
}

} // verus!
