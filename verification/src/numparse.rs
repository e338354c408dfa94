//! Decimal integer parsing with the exact acceptance rules of Rust's
//! `str::parse` for integers: one optional leading sign (`-` only for signed
//! types), then one or more ASCII digits, and a value within the type's range.
use vstd::prelude::*;
use crate::text::is_digit;

verus! {

pub open spec fn digit_value(c: char) -> nat {
    ((c as u32) - ('0' as u32)) as nat
}

pub open spec fn all_digits(s: Seq<char>) -> bool {
    forall|i: int| 0 <= i < s.len() ==> is_digit(#[trigger] s[i])
}

/// The number that a string of decimal digits denotes.
pub open spec fn digits_value(s: Seq<char>) -> nat
    decreases s.len(),
{
    if s.len() == 0 {
        0
    } else {
        digits_value(s.drop_last()) * 10 + digit_value(s.last())
    }
}

/// A lone sign, or nothing at all: rejected before any digit is looked at.
pub open spec fn bare_sign_or_empty(s: Seq<char>) -> bool {
    s.len() == 0 || (s.len() == 1 && (s[0] == '+' || s[0] == '-'))
}

/// `str::parse` for an unsigned type whose largest value is `max`.
pub open spec fn parse_unsigned(s: Seq<char>, max: nat) -> Option<nat> {
    let body = if s.len() > 0 && s[0] == '+' {
        s.drop_first()
    } else {
        s
    };
    if bare_sign_or_empty(s) {
        None
    } else if all_digits(body) && digits_value(body) <= max {
        Some(digits_value(body))
    } else {
        None
    }
}

/// `str::parse` for a signed type whose largest value is `max` (its smallest
/// being `-(max + 1)`).
pub open spec fn parse_signed(s: Seq<char>, max: nat) -> Option<int> {
    if bare_sign_or_empty(s) {
        None
    } else if s[0] == '-' {
        let body = s.drop_first();
        if all_digits(body) && digits_value(body) <= max + 1 {
            Some(-(digits_value(body) as int))
        } else {
            None
        }
    } else {
        match parse_unsigned(s, max) {
            Some(v) => Some(v as int),
            None => None,
        }
    }
}

pub proof fn lemma_digits_value_prefix(s: Seq<char>, k: int)
    requires
        0 <= k <= s.len(),
    ensures
        digits_value(s.take(k)) <= digits_value(s),
    decreases s.len(),
{
    if k < s.len() {
        assert(s.drop_last().take(k) =~= s.take(k));
        lemma_digits_value_prefix(s.drop_last(), k);
    } else {
        assert(s.take(k) =~= s);
    }
}

/// Value of the digits `v[a..b]`, when they are all digits and the value is at
/// most `max`.
fn digits_upto(v: &[char], a: usize, b: usize, max: u64) -> (r: Option<u64>)
    requires
        a <= b <= v.len(),
    ensures
        ({
            let body = v@.subrange(a as int, b as int);
            match r {
                Some(x) => all_digits(body) && digits_value(body) <= max && x == digits_value(body),
                None => !(all_digits(body) && digits_value(body) <= max),
            }
        }),
{
    let ghost body = v@.subrange(a as int, b as int);
    let mut acc: u64 = 0;
    let mut i = a;
    while i < b
        invariant
            a <= i <= b <= v.len(),
            body == v@.subrange(a as int, b as int),
            all_digits(v@.subrange(a as int, i as int)),
            acc == digits_value(v@.subrange(a as int, i as int)),
            acc <= max,
        decreases b - i,
    {
        let c = v[i];
        let ghost pre = v@.subrange(a as int, i as int);
        let ghost next = v@.subrange(a as int, i + 1);
        assert(next.drop_last() =~= pre);
        assert(body.take(i + 1 - a) =~= next);
        if !('0' <= c && c <= '9') {
            assert(body[i - a] == c);
            return None;
        }
        let d = (c as u32) - ('0' as u32);
        let n: u128 = (acc as u128) * 10 + (d as u128);
        if n > max as u128 {
            proof {
                lemma_digits_value_prefix(body, i + 1 - a);
            }
            return None;
        }
        acc = n as u64;
        i = i + 1;
    }
    Some(acc)
}

pub fn parse_u32(v: &[char]) -> (r: Option<u32>)
    ensures
        match r {
            Some(x) => parse_unsigned(v@, u32::MAX as nat) == Some(x as nat),
            None => parse_unsigned(v@, u32::MAX as nat) is None,
        },
{
    let n = v.len();
    if n == 0 || (n == 1 && (v[0] == '+' || v[0] == '-')) {
        return None;
    }
    let a: usize = if v[0] == '+' {
        1
    } else {
        0
    };
    assert(a == 1 ==> v@.subrange(1, n as int) =~= v@.drop_first());
    assert(a == 0 ==> v@.subrange(0, n as int) =~= v@);
    match digits_upto(v, a, n, u32::MAX as u64) {
        Some(x) => Some(x as u32),
        None => None,
    }
}

pub fn parse_usize(v: &[char]) -> (r: Option<usize>)
    ensures
        match r {
            Some(x) => parse_unsigned(v@, usize::MAX as nat) == Some(x as nat),
            None => parse_unsigned(v@, usize::MAX as nat) is None,
        },
{
    let n = v.len();
    if n == 0 || (n == 1 && (v[0] == '+' || v[0] == '-')) {
        return None;
    }
    let a: usize = if v[0] == '+' {
        1
    } else {
        0
    };
    assert(a == 1 ==> v@.subrange(1, n as int) =~= v@.drop_first());
    assert(a == 0 ==> v@.subrange(0, n as int) =~= v@);
    match digits_upto(v, a, n, usize::MAX as u64) {
        Some(x) => Some(x as usize),
        None => None,
    }
}

pub fn parse_i64(v: &[char]) -> (r: Option<i64>)
    ensures
        match r {
            Some(x) => parse_signed(v@, i64::MAX as nat) == Some(x as int),
            None => parse_signed(v@, i64::MAX as nat) is None,
        },
{
    let n = v.len();
    if n == 0 || (n == 1 && (v[0] == '+' || v[0] == '-')) {
        return None;
    }
    if v[0] == '-' {
        assert(v@.subrange(1, n as int) =~= v@.drop_first());
        match digits_upto(v, 1, n, 0x8000_0000_0000_0000u64) {
            Some(x) => {
                if x == 0x8000_0000_0000_0000u64 {
                    Some(i64::MIN)
                } else {
                    Some(-(x as i64))
                }
            },
            None => None,
        }
    } else {
        let a: usize = if v[0] == '+' {
            1
        } else {
            0
        };
        assert(a == 1 ==> v@.subrange(1, n as int) =~= v@.drop_first());
        assert(a == 0 ==> v@.subrange(0, n as int) =~= v@);
        match digits_upto(v, a, n, i64::MAX as u64) {
            Some(x) => Some(x as i64),
            None => None,
        }
    }
}

pub fn parse_i32(v: &[char]) -> (r: Option<i32>)
    ensures
        match r {
            Some(x) => parse_signed(v@, i32::MAX as nat) == Some(x as int),
            None => parse_signed(v@, i32::MAX as nat) is None,
        },
{
    let n = v.len();
    if n == 0 || (n == 1 && (v[0] == '+' || v[0] == '-')) {
        return None;
    }
    if v[0] == '-' {
        assert(v@.subrange(1, n as int) =~= v@.drop_first());
        match digits_upto(v, 1, n, 0x8000_0000u64) {
            Some(x) => Some(-(x as i64) as i32),
            None => None,
        }
    } else {
        let a: usize = if v[0] == '+' {
            1
        } else {
            0
        };
        assert(a == 1 ==> v@.subrange(1, n as int) =~= v@.drop_first());
        assert(a == 0 ==> v@.subrange(0, n as int) =~= v@);
        match digits_upto(v, a, n, i32::MAX as u64) {
            Some(x) => Some(x as i32),
            None => None,
        }
    }
}

} // verus!
