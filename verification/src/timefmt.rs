//! Calendar arithmetic: the "YYYY-MM-DD HH:MM:SS" rendering used for drawer
//! timestamps and the write log, and RFC 3339 parsing to Unix milliseconds.
use vstd::prelude::*;
use crate::fmt::{padded, padded_i64, zeros};
use crate::numparse::{parse_i64, parse_signed, parse_u32, parse_unsigned};
use crate::text::{
    append_chars, chars_of, find_char, first_index, pieces, prefix, split_char, string_of,
    sub_chars, take_chars, trim_chars, trimmed, views,
};

verus! {

/// Integer division rounding towards zero (Rust's `/`), for `b > 0`.
pub open spec fn tdiv(a: int, b: int) -> int {
    if a >= 0 {
        a / b
    } else {
        -((-a) / b)
    }
}

/// Remainder with the sign of the dividend (Rust's `%`), for `b > 0`.
pub open spec fn tmod(a: int, b: int) -> int {
    a - b * tdiv(a, b)
}

pub open spec fn is_leap(y: int) -> bool {
    y % 4 == 0 && (y % 100 != 0 || y % 400 == 0)
}

pub open spec fn month_len(i: int, leap: bool) -> int {
    if i == 0 {
        31
    } else if i == 1 {
        if leap {
            29
        } else {
            28
        }
    } else if i == 2 {
        31
    } else if i == 3 {
        30
    } else if i == 4 {
        31
    } else if i == 5 {
        30
    } else if i == 6 {
        31
    } else if i == 7 {
        31
    } else if i == 8 {
        30
    } else if i == 9 {
        31
    } else if i == 10 {
        30
    } else {
        31
    }
}

/// "YYYY-MM-DD HH:MM:SS" from its fields, each zero-padded.
pub open spec fn stamp(year: int, month: int, day: int, hour: int, min: int, sec: int) -> Seq<
    char,
> {
    padded(year, 4) + seq!['-'] + padded(month, 2) + seq!['-'] + padded(day, 2) + seq![' ']
        + padded(hour, 2) + seq![':'] + padded(min, 2) + seq![':'] + padded(sec, 2)
}

/// The calendar date of day `days` (counted from 1970-01-01) and the time
/// of day `secs_of_day`, as "YYYY-MM-DD HH:MM:SS". Hours, minutes and
/// seconds are taken with Rust's `/` and `%`, so `secs_of_day` is negative
/// (and so are the fields) for instants before the epoch that are not on a
/// day boundary.
pub open spec fn dt_text(days: int, secs_of_day: int) -> Seq<char> {
    let (year, month, day) = civil_date(days);
    let hour = tdiv(secs_of_day, 3600);
    let min = tdiv(tmod(secs_of_day, 3600), 60);
    let sec = tmod(secs_of_day, 60);
    stamp(year, month, day, hour, min, sec)
}

/// "YYYY-MM-DD HH:MM:SS" for a count of seconds since the epoch.
pub open spec fn secs_text(secs: nat) -> Seq<char> {
    dt_text(secs as int / 86400, secs as int % 86400)
}

/// "YYYY-MM-DD HH:MM:SS" for a count of milliseconds since the epoch.
pub open spec fn millis_text(millis: int) -> Seq<char> {
    let secs = tdiv(millis, 1000);
    dt_text(tdiv(secs, 86400), tmod(secs, 86400))
}

fn tdiv_exec(a: i64, b: i64) -> (r: i64)
    requires
        b > 0,
        a > i64::MIN,
    ensures
        r == tdiv(a as int, b as int),
{
    if a >= 0 {
        a / b
    } else {
        -((-a) / b)
    }
}

fn stamp_exec(year: i64, month: i64, day: i64, hour: i64, min: i64, sec: i64) -> (r: Vec<char>)
    ensures
        r@ == stamp(year as int, month as int, day as int, hour as int, min as int, sec as int),
{
    let mut r = padded_i64(year, 4);
    r.push('-');
    append_chars(&mut r, &padded_i64(month, 2));
    r.push('-');
    append_chars(&mut r, &padded_i64(day, 2));
    r.push(' ');
    append_chars(&mut r, &padded_i64(hour, 2));
    r.push(':');
    append_chars(&mut r, &padded_i64(min, 2));
    r.push(':');
    append_chars(&mut r, &padded_i64(sec, 2));
    assert(r@ =~= stamp(year as int, month as int, day as int, hour as int, min as int, sec as int));
    r
}

/// The valid date whose day count is `days`: the year is estimated and
/// then corrected until 1 January of it and of the next year bracket
/// `days`; the month is the last one starting on or before `days`.
fn civil_from_days(days: i64) -> (r: (i64, i64, i64))
    requires
        -300_000_000_000_000 <= days <= 300_000_000_000_000,
    ensures
        valid_date(r.0 as int, r.1 as int, r.2 as int),
        civil_days(r.0 as int, r.1 as int, r.2 as int) == days,
{
    let mut y: i64 = 1970 + tdiv_exec(4 * days, 1461);
    while civil_days_wide(y, 1, 1).0 > days as i128
        invariant
            -1_000_000_000_000 <= y <= 1_000_000_000_000,
            -300_000_000_000_000 <= days <= 300_000_000_000_000,
        decreases y + 1_000_000_000_000,
    {
        proof {
            lemma_jan1_linear(y as int);
        }
        y = y - 1;
    }
    while civil_days_wide(y + 1, 1, 1).0 <= days as i128
        invariant
            -1_000_000_000_000 <= y <= 1_000_000_000_000,
            -300_000_000_000_000 <= days <= 300_000_000_000_000,
            civil_days(y as int, 1, 1) <= days,
        decreases 1_000_000_000_000 - y,
    {
        proof {
            lemma_jan1_linear(y + 1);
        }
        y = y + 1;
    }
    let mut m: i64 = 1;
    while m < 12 && civil_days_wide(y, (m + 1) as u32, 1).0 <= days as i128
        invariant
            -1_000_000_000_000 <= y <= 1_000_000_000_000,
            1 <= m <= 12,
            civil_days(y as int, m as int, 1) <= days,
            days < civil_days(y + 1, 1, 1),
        decreases 12 - m,
    {
        m = m + 1;
    }
    let start = civil_days_wide(y, m as u32, 1).0;
    proof {
        if m < 12 {
            lemma_month_step(y as int, m as int);
        } else {
            lemma_december(y as int);
        }
    }
    let d = (days as i128 - start + 1) as i64;
    (y, m, d)
}

fn dt_text_exec(days: i64, time: i64) -> (r: Vec<char>)
    requires
        -300_000_000_000_000 <= days <= 300_000_000_000_000,
        -86400 < time < 86400,
    ensures
        r@ == dt_text(days as int, time as int),
{
    let (year, month, day) = civil_from_days(days);
    proof {
        lemma_civil_date(year as int, month as int, day as int);
    }
    let hour = tdiv_exec(time, 3600);
    let min = tdiv_exec(time - 3600 * hour, 60);
    let sec = time - 60 * tdiv_exec(time, 60);
    stamp_exec(year, month, day, hour, min, sec)
}

/// Render seconds since the epoch as "YYYY-MM-DD HH:MM:SS".
pub fn format_ts(secs: u64) -> (r: String)
    ensures
        r@ == secs_text(secs as nat),
{
    let days = secs / 86400;
    let time = secs % 86400;
    let r = dt_text_exec(days as i64, time as i64);
    string_of(&r)
}

/// Render milliseconds since the epoch as "YYYY-MM-DD HH:MM:SS".
pub fn millis_to_dt(millis: i64) -> (r: String)
    ensures
        r@ == millis_text(millis as int),
{
    let secs = if millis == i64::MIN {
        -9_223_372_036_854_775i64
    } else {
        tdiv_exec(millis, 1000)
    };
    assert(secs == tdiv(millis as int, 1000));
    let days = tdiv_exec(secs, 86400);
    let time = secs - 86400 * days;
    let r = dt_text_exec(days, time);
    string_of(&r)
}


// ── RFC 3339 ────────────────────────────────────────────────────────────────
/// `trim_end_matches('Z')`.
pub open spec fn strip_trailing_z(s: Seq<char>) -> Seq<char>
    decreases s.len(),
{
    if s.len() > 0 && s.last() == 'Z' {
        strip_trailing_z(s.drop_last())
    } else {
        s
    }
}

pub open spec fn utc_suffix() -> Seq<char> {
    seq!['+', '0', '0', ':', '0', '0']
}

/// `trim_end_matches("+00:00")`.
pub open spec fn strip_utc_offsets(s: Seq<char>) -> Seq<char>
    decreases s.len(),
{
    if s.len() >= 6 && s.subrange(s.len() - 6, s.len() as int) == utc_suffix() {
        strip_utc_offsets(s.subrange(0, s.len() - 6))
    } else {
        s
    }
}

/// Milliseconds from the fraction digits: the first three characters,
/// right-padded with zeros to three, read as an `i64` (0 when unreadable).
pub open spec fn frac_millis(frac: Seq<char>) -> int {
    if frac.len() == 0 {
        0
    } else {
        let d = prefix(frac, 3);
        let p = d + zeros((3 - d.len()) as nat);
        match parse_signed(p, i64::MAX as nat) {
            Some(v) => v,
            None => 0,
        }
    }
}

/// The fields (year, month, day, hour, minute, second, milliseconds) of
/// "DATE'T'TIME": the date is split on `-` and its first three pieces read,
/// the time loses trailing `Z`s and `+00:00`s, the part before the first `.`
/// is split on `:` and its first three pieces read, the rest is the
/// fraction.
pub open spec fn rfc3339_fields(s: Seq<char>) -> Option<(int, int, int, int, int, int, int)> {
    let t = trimmed(s);
    match first_index(t, 'T') {
        None => None,
        Some(k) => {
            let dp = pieces(t.subrange(0, k), '-');
            let time = strip_utc_offsets(strip_trailing_z(t.subrange(k + 1, t.len() as int)));
            let (hms, frac) = match first_index(time, '.') {
                Some(j) => (time.subrange(0, j), time.subrange(j + 1, time.len() as int)),
                None => (time, Seq::<char>::empty()),
            };
            let tp = pieces(hms, ':');
            if dp.len() < 3 || tp.len() < 3 {
                None
            } else {
                match (
                    parse_signed(dp[0], i64::MAX as nat),
                    parse_unsigned(dp[1], u32::MAX as nat),
                    parse_unsigned(dp[2], u32::MAX as nat),
                    parse_signed(tp[0], i64::MAX as nat),
                    parse_signed(tp[1], i64::MAX as nat),
                    parse_signed(tp[2], i64::MAX as nat),
                ) {
                    (Some(y), Some(m), Some(d), Some(h), Some(mi), Some(se)) => Some(
                        (y, m as int, d as int, h, mi, se, frac_millis(frac)),
                    ),
                    _ => None,
                }
            }
        },
    }
}

pub open spec fn in_i64(x: int) -> bool {
    i64::MIN <= x <= i64::MAX
}

pub open spec fn civil_y1(y: int, m: int) -> int {
    if m <= 2 {
        y - 1
    } else {
        y
    }
}

pub open spec fn civil_shifted(y1: int) -> int {
    if y1 >= 0 {
        y1
    } else {
        y1 - 399
    }
}

/// Days between 1970-01-01 and the civil date `y-m-d` (proleptic
/// Gregorian; eras of 400 years).
pub open spec fn civil_days(y: int, m: int, d: int) -> int {
    let y1 = civil_y1(y, m);
    let era = tdiv(civil_shifted(y1), 400);
    let yoe = y1 - era * 400;
    let mp = (m + 9) % 12;
    let doy = (153 * mp + 2) / 5 + d - 1;
    let doe = yoe * 365 + tdiv(yoe, 4) - tdiv(yoe, 100) + doy;
    era * 146097 + doe - 719468
}

/// Every step of `civil_days` stays within `i64`.
pub open spec fn civil_days_fits(y: int, m: int, d: int) -> bool {
    let y1 = civil_y1(y, m);
    let era = tdiv(civil_shifted(y1), 400);
    let yoe = y1 - era * 400;
    let mp = (m + 9) % 12;
    let doy = (153 * mp + 2) / 5 + d - 1;
    let doe = yoe * 365 + tdiv(yoe, 4) - tdiv(yoe, 100) + doy;
    &&& in_i64(y1)
    &&& in_i64(civil_shifted(y1))
    &&& in_i64(era * 146097)
    &&& in_i64(era * 146097 + doe)
    &&& in_i64(era * 146097 + doe - 719468)
}

pub open spec fn fields_ms(f: (int, int, int, int, int, int, int)) -> int {
    let days = civil_days(f.0, f.1, f.2);
    (days * 86_400 + f.3 * 3_600 + f.4 * 60 + f.5) * 1_000 + f.6
}

/// Every step of `fields_ms` stays within `i64`.
pub open spec fn fields_ms_fits(f: (int, int, int, int, int, int, int)) -> bool {
    let days = civil_days(f.0, f.1, f.2);
    let a = days * 86_400 + f.3 * 3_600;
    let b = a + f.4 * 60 + f.5;
    &&& civil_days_fits(f.0, f.1, f.2)
    &&& in_i64(days * 86_400)
    &&& in_i64(f.3 * 3_600)
    &&& in_i64(a)
    &&& in_i64(f.4 * 60)
    &&& in_i64(a + f.4 * 60)
    &&& in_i64(b)
    &&& in_i64(b * 1_000)
    &&& in_i64(b * 1_000 + f.6)
}

/// The instant that `s` denotes can be computed without overflowing `i64`
/// (or `s` does not parse at all).
pub open spec fn rfc3339_computable(s: Seq<char>) -> bool {
    match rfc3339_fields(s) {
        Some(f) => fields_ms_fits(f),
        None => true,
    }
}

fn tdiv128(a: i128, b: i128) -> (r: i128)
    requires
        b > 0,
        a > i128::MIN,
    ensures
        r == tdiv(a as int, b as int),
{
    if a >= 0 {
        a / b
    } else {
        -((-a) / b)
    }
}

fn in_i64_exec(x: i128) -> (b: bool)
    ensures
        b == in_i64(x as int),
{
    -0x8000_0000_0000_0000i128 <= x && x <= 0x7fff_ffff_ffff_ffffi128
}

/// (days, whether every step fits in `i64`)
fn civil_days_wide(y: i64, m: u32, d: u32) -> (r: (i128, bool))
    ensures
        r.0 == civil_days(y as int, m as int, d as int),
        r.1 == civil_days_fits(y as int, m as int, d as int),
        -0x1000_0000_0000_0000_0000 <= r.0 <= 0x1000_0000_0000_0000_0000,
{
    let y: i128 = y as i128;
    let m: i128 = m as i128;
    let d: i128 = d as i128;
    let y1 = if m <= 2 {
        y - 1
    } else {
        y
    };
    let sh = if y1 >= 0 {
        y1
    } else {
        y1 - 399
    };
    let era = tdiv128(sh, 400);
    assert(-0x80_0000_0000_0000 <= era <= 0x80_0000_0000_0000);
    let yoe = y1 - era * 400;
    let mp = (m + 9) % 12;
    let doy = (153 * mp + 2) / 5 + d - 1;
    let doe = yoe * 365 + tdiv128(yoe, 4) - tdiv128(yoe, 100) + doy;
    let e = era * 146097;
    let days = e + doe - 719468;
    let fits = in_i64_exec(y1) && in_i64_exec(sh) && in_i64_exec(e) && in_i64_exec(e + doe)
        && in_i64_exec(days);
    (days, fits)
}

fn strip_time_suffixes(time0: &[char]) -> (r: Vec<char>)
    ensures
        r@ == strip_utc_offsets(strip_trailing_z(time0@)),
{
    let mut e = time0.len();
    assert(time0@.subrange(0, time0.len() as int) =~= time0@);
    while e > 0 && time0[e - 1] == 'Z'
        invariant
            e <= time0.len(),
            strip_trailing_z(time0@) == strip_trailing_z(time0@.subrange(0, e as int)),
        decreases e,
    {
        assert(time0@.subrange(0, e as int).drop_last() =~= time0@.subrange(0, e - 1));
        e = e - 1;
    }
    let ghost z = time0@.subrange(0, e as int);
    assert(strip_trailing_z(time0@) == z);
    while e >= 6 && time0[e - 6] == '+' && time0[e - 5] == '0' && time0[e - 4] == '0'
        && time0[e - 3] == ':' && time0[e - 2] == '0' && time0[e - 1] == '0'
        invariant
            e <= z.len() <= time0@.len(),
            z == strip_trailing_z(time0@),
            z =~= time0@.subrange(0, z.len() as int),
            strip_utc_offsets(z) == strip_utc_offsets(time0@.subrange(0, e as int)),
        decreases e,
    {
        let ghost cur = time0@.subrange(0, e as int);
        assert(cur.subrange(cur.len() - 6, cur.len() as int) =~= utc_suffix());
        assert(cur.subrange(0, cur.len() - 6) =~= time0@.subrange(0, e - 6));
        e = e - 6;
    }
    let time = sub_chars(time0, 0, e);
    assert(strip_utc_offsets(time@) == time@) by {
        if time@.len() >= 6 && time@.subrange(time@.len() - 6, time@.len() as int)
            == utc_suffix() {
            let tail = time@.subrange(time@.len() - 6, time@.len() as int);
            assert(tail[0] == time0@[e - 6]);
            assert(tail[1] == time0@[e - 5]);
            assert(tail[2] == time0@[e - 4]);
            assert(tail[3] == time0@[e - 3]);
            assert(tail[4] == time0@[e - 2]);
            assert(tail[5] == time0@[e - 1]);
            assert(false);
        }
    }
    time
}

fn frac_millis_exec(frac: &[char]) -> (r: i64)
    ensures
        r == frac_millis(frac@),
{
    if frac.len() == 0 {
        return 0;
    }
    let mut p = take_chars(frac, 3);
    let ghost dd = p@;
    assert(dd + zeros(0) =~= dd);
    while p.len() < 3
        invariant
            p@.len() <= 3,
            dd.len() <= p@.len(),
            p@ == dd + zeros((p@.len() - dd.len()) as nat),
        decreases 3 - p.len(),
    {
        p.push('0');
        assert(dd + zeros((p@.len() - dd.len()) as nat) =~= (dd + zeros(
            (p@.len() - 1 - dd.len()) as nat,
        )).push('0'));
    }
    match parse_i64(&p) {
        Some(x) => x,
        None => 0,
    }
}

fn fields_ms_wide(y: i64, m: u32, d: u32, h: i64, mi: i64, se: i64, f: i64) -> (r: (i128, bool))
    ensures
        ({
            let fl = (y as int, m as int, d as int, h as int, mi as int, se as int, f as int);
            r.0 == fields_ms(fl) && r.1 == fields_ms_fits(fl)
        }),
{
    let (days, dfits) = civil_days_wide(y, m, d);
    let a1 = days * 86_400;
    let a2 = (h as i128) * 3_600;
    let a3 = a1 + a2;
    let a4 = (mi as i128) * 60;
    let a5 = a3 + a4;
    let a6 = a5 + se as i128;
    let a7 = a6 * 1_000;
    let a8 = a7 + f as i128;
    let fits = dfits && in_i64_exec(a1) && in_i64_exec(a2) && in_i64_exec(a3) && in_i64_exec(a4)
        && in_i64_exec(a5) && in_i64_exec(a6) && in_i64_exec(a7) && in_i64_exec(a8);
    (a8, fits)
}

/// The milliseconds that an RFC 3339 timestamp denotes, computed without
/// overflow, with whether `i64` arithmetic would have held.
fn rfc3339_wide(v: &[char]) -> (r: Option<(i128, bool)>)
    ensures
        match r {
            Some((ms, fits)) => rfc3339_fields(v@) matches Some(f) && ms == fields_ms(f) && fits
                == fields_ms_fits(f),
            None => rfc3339_fields(v@) is None,
        },
{
    let t = trim_chars(v);
    let k = match find_char(&t, 'T') {
        None => {
            return None;
        },
        Some(k) => k,
    };
    let date = sub_chars(&t, 0, k);
    let time0 = sub_chars(&t, k + 1, t.len());
    let dp = split_char(&date, '-');
    let time = strip_time_suffixes(&time0);
    let (hms, frac) = match find_char(&time, '.') {
        Some(j) => (sub_chars(&time, 0, j), sub_chars(&time, j + 1, time.len())),
        None => {
            let f: Vec<char> = Vec::new();
            assert(f@ =~= Seq::<char>::empty());
            assert(time@.subrange(0, time.len() as int) =~= time@);
            (sub_chars(&time, 0, time.len()), f)
        },
    };
    let tp = split_char(&hms, ':');
    if dp.len() < 3 || tp.len() < 3 {
        return None;
    }
    assert(views(dp@)[0] == dp@[0]@ && views(dp@)[1] == dp@[1]@ && views(dp@)[2] == dp@[2]@);
    assert(views(tp@)[0] == tp@[0]@ && views(tp@)[1] == tp@[1]@ && views(tp@)[2] == tp@[2]@);
    let y = parse_i64(&dp[0]);
    let m = parse_u32(&dp[1]);
    let d = parse_u32(&dp[2]);
    let h = parse_i64(&tp[0]);
    let mi = parse_i64(&tp[1]);
    let se = parse_i64(&tp[2]);
    match (y, m, d, h, mi, se) {
        (Some(y), Some(m), Some(d), Some(h), Some(mi), Some(se)) => {
            let f = frac_millis_exec(&frac);
            Some(fields_ms_wide(y, m, d, h, mi, se, f))
        },
        _ => None,
    }
}

/// Whether the instant that `s` denotes can be computed in `i64` (true also
/// when `s` does not parse).
pub fn rfc3339_in_range(s: &str) -> (b: bool)
    ensures
        b == rfc3339_computable(s@),
{
    let v = chars_of(s);
    match rfc3339_wide(&v) {
        Some((_, fits)) => fits,
        None => true,
    }
}

/// Parse an RFC 3339 timestamp ("2026-08-04T09:59:24.241258Z") to Unix
/// milliseconds; fractional seconds of any precision are cut to
/// milliseconds.
pub fn parse_rfc3339_ms(s: &str) -> (r: Option<i64>)
    requires
        rfc3339_computable(s@),
    ensures
        match r {
            Some(ms) => rfc3339_fields(s@) matches Some(f) && ms == fields_ms(f),
            None => rfc3339_fields(s@) is None,
        },
{
    let v = chars_of(s);
    match rfc3339_wide(&v) {
        Some((ms, _)) => Some(ms as i64),
        None => None,
    }
}


/// Days since 1970-01-01 for a civil date.
pub fn days_from_civil(y: i64, m: u32, d: u32) -> (r: i64)
    requires
        civil_days_fits(y as int, m as int, d as int),
    ensures
        r == civil_days(y as int, m as int, d as int),
{
    let (days, _) = civil_days_wide(y, m, d);
    days as i64
}

// ── the civil calendar ──────────────────────────────────────────────────────
/// Days in month `m` (1-based) of year `y`.
pub open spec fn days_in_month(y: int, m: int) -> int {
    month_len(m - 1, is_leap(y))
}

/// `y-m-d` names a day of the proleptic Gregorian calendar.
pub open spec fn valid_date(y: int, m: int, d: int) -> bool {
    1 <= m <= 12 && 1 <= d <= days_in_month(y, m)
}

/// The calendar date of the day `days` after 1970-01-01: the valid date
/// whose day count (`civil_days`) is `days`. There is exactly one
/// (`lemma_civil_date`).
pub open spec fn civil_date(days: int) -> (int, int, int) {
    choose|t: (int, int, int)| valid_date(t.0, t.1, t.2) && civil_days(t.0, t.1, t.2) == days
}

proof fn lemma_era(y1: int)
    ensures
        tdiv(civil_shifted(y1), 400) == y1 / 400,
        y1 - (y1 / 400) * 400 == y1 % 400,
{
    if y1 < 0 {
        assert(tdiv(y1 - 399, 400) == -((399 - y1) / 400));
        assert(-((399 - y1) / 400) == y1 / 400) by (nonlinear_arith);
    }
}

/// Days from 1 March of the year after `y1`'s era start: the part of
/// `civil_days` that depends on the year alone.
spec fn march_days(y1: int) -> int {
    let era = y1 / 400;
    let yoe = y1 % 400;
    era * 146097 + yoe * 365 + yoe / 4 - yoe / 100
}

proof fn lemma_civil_days_split(y: int, m: int, d: int)
    requires
        1 <= m <= 12,
    ensures
        civil_days(y, m, d) == march_days(civil_y1(y, m)) + (153 * ((m + 9) % 12) + 2) / 5 + d - 1
            - 719468,
{
    let y1 = civil_y1(y, m);
    lemma_era(y1);
    let yoe = y1 % 400;
    assert(tdiv(yoe, 4) == yoe / 4);
    assert(tdiv(yoe, 100) == yoe / 100);
}

/// The year from 1 March of `y - 1` to 1 March of `y` has 366 days when
/// `y` is a leap year, else 365.
proof fn lemma_march_step(y: int)
    ensures
        march_days(y) - march_days(y - 1) == if is_leap(y) {
            366int
        } else {
            365int
        },
{
    let q = y % 400;
    let e = y / 400;
    assert(y == 400 * e + q) by {
        vstd::arithmetic::div_mod::lemma_fundamental_div_mod(y, 400);
    }
    assert(y % 4 == q % 4) by (nonlinear_arith)
        requires
            y == 400 * e + q,
            0 <= q < 400,
    ;
    assert(y % 100 == q % 100) by (nonlinear_arith)
        requires
            y == 400 * e + q,
            0 <= q < 400,
    ;
    if q >= 1 {
        assert((y - 1) / 400 == e && (y - 1) % 400 == q - 1) by (nonlinear_arith)
            requires
                y == 400 * e + q,
                1 <= q < 400,
        ;
    } else {
        assert((y - 1) / 400 == e - 1 && (y - 1) % 400 == 399) by (nonlinear_arith)
            requires
                y == 400 * e,
        ;
    }
}

/// Each month starts `days_in_month` days after the one before.
proof fn lemma_month_step(y: int, m: int)
    requires
        1 <= m <= 11,
    ensures
        civil_days(y, m + 1, 1) == civil_days(y, m, 1) + days_in_month(y, m),
{
    lemma_civil_days_split(y, m, 1);
    lemma_civil_days_split(y, m + 1, 1);
    if m == 2 {
        lemma_march_step(y);
    }
}

/// 1 January comes 31 days after 1 December.
proof fn lemma_december(y: int)
    ensures
        civil_days(y + 1, 1, 1) == civil_days(y, 12, 1) + 31,
{
    lemma_civil_days_split(y, 12, 1);
    lemma_civil_days_split(y + 1, 1, 1);
}

/// Within a month the days follow one another.
proof fn lemma_day_offset(y: int, m: int, d: int)
    ensures
        civil_days(y, m, d) == civil_days(y, m, 1) + d - 1,
{
}

proof fn lemma_month_lower(y: int, m: int)
    requires
        1 <= m <= 12,
    ensures
        civil_days(y, 1, 1) <= civil_days(y, m, 1),
    decreases m,
{
    if m > 1 {
        lemma_month_lower(y, m - 1);
        lemma_month_step(y, m - 1);
    }
}

proof fn lemma_month_upper(y: int, m: int)
    requires
        1 <= m <= 12,
    ensures
        civil_days(y, m, 1) + days_in_month(y, m) <= civil_days(y + 1, 1, 1),
    decreases 12 - m,
{
    if m < 12 {
        lemma_month_upper(y, m + 1);
        lemma_month_step(y, m);
    } else {
        lemma_december(y);
    }
}

proof fn lemma_month_order(y: int, m1: int, m2: int)
    requires
        1 <= m1 < m2 <= 12,
    ensures
        civil_days(y, m1, 1) + days_in_month(y, m1) <= civil_days(y, m2, 1),
    decreases m2 - m1,
{
    lemma_month_step(y, m1);
    if m1 + 1 < m2 {
        lemma_month_order(y, m1 + 1, m2);
    }
}

/// Every year begins later than the one before.
proof fn lemma_year_step(y: int)
    ensures
        civil_days(y, 1, 1) + 31 <= civil_days(y + 1, 1, 1),
{
    lemma_month_lower(y, 12);
    lemma_december(y);
}

proof fn lemma_year_order(y1: int, y2: int)
    requires
        y1 < y2,
    ensures
        civil_days(y1 + 1, 1, 1) <= civil_days(y2, 1, 1),
    decreases y2 - y1,
{
    if y1 + 1 < y2 {
        lemma_year_order(y1, y2 - 1);
        lemma_year_step(y2 - 1);
    }
}

/// A valid date falls between 1 January of its year and of the next.
proof fn lemma_in_year(y: int, m: int, d: int)
    requires
        valid_date(y, m, d),
    ensures
        civil_days(y, 1, 1) <= civil_days(y, m, d) < civil_days(y + 1, 1, 1),
{
    lemma_day_offset(y, m, d);
    lemma_month_lower(y, m);
    lemma_month_upper(y, m);
}

/// Two valid dates with the same day count are the same date.
proof fn lemma_civil_days_injective(a: (int, int, int), b: (int, int, int))
    requires
        valid_date(a.0, a.1, a.2),
        valid_date(b.0, b.1, b.2),
        civil_days(a.0, a.1, a.2) == civil_days(b.0, b.1, b.2),
    ensures
        a == b,
{
    lemma_in_year(a.0, a.1, a.2);
    lemma_in_year(b.0, b.1, b.2);
    if a.0 < b.0 {
        lemma_year_order(a.0, b.0);
    } else if b.0 < a.0 {
        lemma_year_order(b.0, a.0);
    }
    assert(a.0 == b.0);
    lemma_day_offset(a.0, a.1, a.2);
    lemma_day_offset(b.0, b.1, b.2);
    if a.1 < b.1 {
        lemma_month_order(a.0, a.1, b.1);
    } else if b.1 < a.1 {
        lemma_month_order(a.0, b.1, a.1);
    }
}

/// `civil_date` gives back the date of a valid date's day count.
pub proof fn lemma_civil_date(y: int, m: int, d: int)
    requires
        valid_date(y, m, d),
    ensures
        civil_date(civil_days(y, m, d)) == (y, m, d),
{
    let n = civil_days(y, m, d);
    assert(valid_date((y, m, d).0, (y, m, d).1, (y, m, d).2) && civil_days((y, m, d).0, (y, m, d).1, (y, m, d).2) == n);
    let t = civil_date(n);
    lemma_civil_days_injective(t, (y, m, d));
}

proof fn lemma_march_days_linear(y1: int)
    ensures
        146097 * y1 - 700 <= 400 * march_days(y1) <= 146097 * y1 + 39600,
{
    let q = y1 % 400;
    let e = y1 / 400;
    assert(y1 == 400 * e + q) by {
        vstd::arithmetic::div_mod::lemma_fundamental_div_mod(y1, 400);
    }
    assert(q - 3 <= 4 * (q / 4) <= q);
    assert(q - 99 <= 100 * (q / 100) <= q);
    assert(400 * march_days(y1) == 146097 * y1 - 97 * q + 400 * (q / 4) - 400 * (q / 100)) by (nonlinear_arith)
        requires
            y1 == 400 * e + q,
            march_days(y1) == e * 146097 + q * 365 + q / 4 - q / 100,
    ;
}

/// 1 January of year `y` is about 365.2425 days per year after the epoch.
proof fn lemma_jan1_linear(y: int)
    ensures
        146097 * (y - 1) - 287_666_000 <= 400 * civil_days(y, 1, 1) <= 146097 * (y - 1) - 287_625_000,
{
    lemma_civil_days_split(y, 1, 1);
    lemma_march_days_linear(y - 1);
}

// ── laws ────────────────────────────────────────────────────────────────────
/// Rendering a count of seconds gives the same text as rendering the same
/// instant in milliseconds.
pub proof fn law_seconds_and_millis_render_alike(secs: nat)
    requires
        secs * 1000 <= i64::MAX,
    ensures
        secs_text(secs) == millis_text(secs as int * 1000),
{
    assert(tdiv(secs as int * 1000, 1000) == secs);
    assert(tdiv(secs as int, 86400) == secs as int / 86400);
    assert(tmod(secs as int, 86400) == secs as int % 86400);
}

/// The next day of the month is one day later.
pub proof fn law_civil_next_day(y: int, m: int, d: int)
    ensures
        civil_days(y, m, d + 1) == civil_days(y, m, d) + 1,
{
}

/// The Gregorian calendar repeats every 400 years, which are 146097 days.
pub proof fn law_civil_four_centuries(y: int, m: int, d: int)
    ensures
        civil_days(y + 400, m, d) == civil_days(y, m, d) + 146097,
{
    let y1 = civil_y1(y, m);
    assert(civil_y1(y + 400, m) == y1 + 400);
    assert(tdiv(civil_shifted(y1 + 400), 400) == tdiv(civil_shifted(y1), 400) + 1);
}

/// An instant on or after the epoch renders as the date and time it was
/// built from: the calendar date of its day, then hours, minutes and
/// seconds.
pub proof fn law_millis_render_date(y: int, m: int, d: int, h: int, mi: int, sec: int, ms: int)
    requires
        valid_date(y, m, d),
        civil_days(y, m, d) >= 0,
        0 <= h < 24,
        0 <= mi < 60,
        0 <= sec < 60,
        0 <= ms < 1000,
    ensures
        millis_text(fields_ms((y, m, d, h, mi, sec, ms))) == stamp(y, m, d, h, mi, sec),
{
    let days = civil_days(y, m, d);
    let t = h * 3600 + mi * 60 + sec;
    let secs = days * 86400 + t;
    let total = fields_ms((y, m, d, h, mi, sec, ms));
    assert(total == secs * 1000 + ms);
    assert(0 <= t < 86400);
    assert(secs >= 0) by (nonlinear_arith)
        requires
            days >= 0,
            t >= 0,
            secs == days * 86400 + t,
    ;
    assert(total / 1000 == secs) by (nonlinear_arith)
        requires
            total == secs * 1000 + ms,
            0 <= ms < 1000,
    ;
    assert(secs / 86400 == days && secs % 86400 == t) by (nonlinear_arith)
        requires
            secs == days * 86400 + t,
            0 <= t < 86400,
    ;
    assert(t / 3600 == h && (t % 3600) / 60 == mi && t % 60 == sec) by (nonlinear_arith)
        requires
            t == h * 3600 + mi * 60 + sec,
            0 <= h < 24,
            0 <= mi < 60,
            0 <= sec < 60,
    ;
    lemma_civil_date(y, m, d);
}

} // verus!
