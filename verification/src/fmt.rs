//! Decimal and hexadecimal rendering of integers, with the zero padding that
//! `format!("{:0width$}")` applies (the sign counts towards the width).
use vstd::prelude::*;
use crate::text::append_chars;

verus! {

pub open spec fn digit_char(d: nat) -> char {
    (('0' as u32) + d) as char
}

/// The decimal digits of `n`, most significant first, without leading zeros.
pub open spec fn dec(n: nat) -> Seq<char>
    decreases n,
{
    if n < 10 {
        seq![digit_char(n)]
    } else {
        dec(n / 10).push(digit_char(n % 10))
    }
}

pub open spec fn zeros(k: nat) -> Seq<char> {
    Seq::new(k, |i: int| '0')
}

/// `format!("{:0w$}", n)`: a minus sign when negative, then the digits,
/// with zeros after the sign so that the whole is at least `w` long.
pub open spec fn padded(n: int, w: nat) -> Seq<char> {
    if n >= 0 {
        let d = dec(n as nat);
        if d.len() < w {
            zeros((w - d.len()) as nat) + d
        } else {
            d
        }
    } else {
        let d = dec((-n) as nat);
        if d.len() + 1 < w {
            seq!['-'] + zeros((w - 1 - d.len()) as nat) + d
        } else {
            seq!['-'] + d
        }
    }
}

pub fn dec_u64(n: u64) -> (r: Vec<char>)
    ensures
        r@ == dec(n as nat),
    decreases n,
{
    let d = ((n % 10) as u8 + 48u8) as char;
    assert(d == digit_char((n % 10) as nat));
    if n < 10 {
        let mut r: Vec<char> = Vec::new();
        r.push(d);
        assert(r@ =~= seq![digit_char(n as nat)]);
        r
    } else {
        let mut r = dec_u64(n / 10);
        r.push(d);
        r
    }
}

pub fn dec_u128(n: u128) -> (r: Vec<char>)
    ensures
        r@ == dec(n as nat),
    decreases n,
{
    let d = ((n % 10) as u8 + 48u8) as char;
    assert(d == digit_char((n % 10) as nat));
    if n < 10 {
        let mut r: Vec<char> = Vec::new();
        r.push(d);
        assert(r@ =~= seq![digit_char(n as nat)]);
        r
    } else {
        let mut r = dec_u128(n / 10);
        r.push(d);
        r
    }
}

pub open spec fn hex_upper_digit(d: nat) -> char {
    if d < 10 {
        digit_char(d)
    } else {
        ((d + 55) as u32) as char
    }
}

/// The upper-case hexadecimal digits of `n`, without leading zeros.
pub open spec fn hex_upper(n: nat) -> Seq<char>
    decreases n,
{
    if n < 16 {
        seq![hex_upper_digit(n)]
    } else {
        hex_upper(n / 16).push(hex_upper_digit(n % 16))
    }
}

/// `format!("{:04X}", n)`.
pub open spec fn hex4(n: nat) -> Seq<char> {
    let d = hex_upper(n);
    if d.len() < 4 {
        zeros((4 - d.len()) as nat) + d
    } else {
        d
    }
}

fn hex_upper_u32(n: u32) -> (r: Vec<char>)
    ensures
        r@ == hex_upper(n as nat),
    decreases n,
{
    let d = (n % 16) as u8;
    let c = if d < 10 {
        (d + 48) as char
    } else {
        (d + 55) as char
    };
    assert(c == hex_upper_digit((n % 16) as nat));
    if n < 16 {
        let mut r: Vec<char> = Vec::new();
        r.push(c);
        assert(r@ =~= seq![hex_upper_digit(n as nat)]);
        r
    } else {
        let mut r = hex_upper_u32(n / 16);
        r.push(c);
        r
    }
}

pub fn hex4_u32(n: u32) -> (r: Vec<char>)
    ensures
        r@ == hex4(n as nat),
{
    let d = hex_upper_u32(n);
    let mut r: Vec<char> = Vec::new();
    if d.len() < 4 {
        push_zeros(&mut r, 4 - d.len());
    }
    append_chars(&mut r, &d);
    assert(d.len() >= 4 ==> r@ =~= d@);
    r
}

fn push_zeros(r: &mut Vec<char>, k: usize)
    ensures
        final(r)@ == old(r)@ + zeros(k as nat),
{
    let ghost start = r@;
    for i in 0..k
        invariant
            r@ == start + zeros(i as nat),
    {
        r.push('0');
        assert(start + zeros((i + 1) as nat) =~= (start + zeros(i as nat)).push('0'));
    }
}

/// Digits of `n` zero-padded to at least `w` characters, sign included.
pub fn padded_i64(n: i64, w: usize) -> (r: Vec<char>)
    ensures
        r@ == padded(n as int, w as nat),
{
    let mut r: Vec<char> = Vec::new();
    if n >= 0 {
        let d = dec_u64(n as u64);
        if d.len() < w {
            push_zeros(&mut r, w - d.len());
        }
        append_chars(&mut r, &d);
        assert(d.len() >= w ==> r@ =~= d@);
    } else {
        let m: u64 = if n == i64::MIN {
            0x8000_0000_0000_0000u64
        } else {
            (-n) as u64
        };
        let d = dec_u64(m);
        r.push('-');
        if d.len() < w && w - d.len() > 1 {
            push_zeros(&mut r, w - 1 - d.len());
        }
        append_chars(&mut r, &d);
        assert(r@ =~= padded(n as int, w as nat));
    }
    r
}

/// Plain decimal rendering (`format!("{}", n)`).
pub fn dec_usize(n: usize) -> (r: Vec<char>)
    ensures
        r@ == dec(n as nat),
{
    dec_u64(n as u64)
}

} // verus!
