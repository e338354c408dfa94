//! Input validation at the boundary: dates, wing/room/agent names, drawer
//! content, and search queries polluted by pasted system prompts.
use vstd::prelude::*;
use crate::numparse::{
    all_digits, digit_value, digits_value, parse_i32, parse_signed, parse_u32, parse_unsigned,
};
use crate::fmt::{dec, dec_usize, hex4, hex4_u32};
use crate::text::{
    append_chars, append_str, blen, char_width_exec, chars_of, contains, contains_char,
    contains_str, eq_chars, has_char, is_control, is_control_exec, is_digit, is_ws, join, join_chars,
    line_scan, trim_end, trim_start,
    lemma_blen_concat, lemma_blen_is_utf8_len, lemma_trimmed_idempotent, lines, lines_of, prefix,
    string_of, take_chars, trim_chars, trimmed, views,
};

verus! {

/// Which check a date string failed.
#[derive(Debug, Clone, Copy, PartialEq, Eq, Structural)]
pub enum DateFault {
    Malformed,
    Year,
    YearRange,
    Month,
    MonthRange,
    Day,
    DayRange,
    Hour,
    HourRange,
    Minute,
    MinuteRange,
    Second,
    SecondRange,
    TooManyComponents,
}

/// Why an input was rejected.
#[derive(Debug)]
pub enum ValidationError {
    /// A date that is not `YYYY[-MM[-DD[ HH[:MM[:SS]]]]]`; `input` is the trimmed text.
    Date { fault: DateFault, input: String },
    EmptyName { field: String },
    NameTooLong { field: String },
    NameNullByte { field: String },
    /// `position` is the byte offset of the offending character.
    NameControlChar { field: String, code: u32, position: usize },
    ContentNullByte,
    ContentTooLarge { len: usize },
}

/// The words around the offending date in the message of each fault.
pub open spec fn fault_words(f: DateFault) -> (Seq<char>, Seq<char>) {
    match f {
        DateFault::Malformed => (
            "Invalid date: '"@,
            "' \u{2014} expected ISO (YYYY, YYYY-MM, YYYY-MM-DD, YYYY-MM-DD HH:MM:SS)"@,
        ),
        DateFault::Year => ("Invalid year in date: '"@, "'"@),
        DateFault::YearRange => ("Year out of range (1970\u{2013}2099): '"@, "'"@),
        DateFault::Month => ("Invalid month in date: '"@, "'"@),
        DateFault::MonthRange => ("Month out of range (1\u{2013}12): '"@, "'"@),
        DateFault::Day => ("Invalid day in date: '"@, "'"@),
        DateFault::DayRange => ("Day out of range (1\u{2013}31): '"@, "'"@),
        DateFault::Hour => ("Invalid hour in date: '"@, "'"@),
        DateFault::HourRange => ("Hour out of range (0\u{2013}23): '"@, "'"@),
        DateFault::Minute => ("Invalid minute in date: '"@, "'"@),
        DateFault::MinuteRange => ("Minute out of range (0\u{2013}59): '"@, "'"@),
        DateFault::Second => ("Invalid second in date: '"@, "'"@),
        DateFault::SecondRange => ("Second out of range (0\u{2013}59): '"@, "'"@),
        DateFault::TooManyComponents => ("Too many date components in: '"@, "'"@),
    }
}

fn fault_words_exec(f: DateFault) -> (r: (&'static str, &'static str))
    ensures
        (r.0@, r.1@) == fault_words(f),
{
    match f {
        DateFault::Malformed => (
            "Invalid date: '",
            "' \u{2014} expected ISO (YYYY, YYYY-MM, YYYY-MM-DD, YYYY-MM-DD HH:MM:SS)",
        ),
        DateFault::Year => ("Invalid year in date: '", "'"),
        DateFault::YearRange => ("Year out of range (1970\u{2013}2099): '", "'"),
        DateFault::Month => ("Invalid month in date: '", "'"),
        DateFault::MonthRange => ("Month out of range (1\u{2013}12): '", "'"),
        DateFault::Day => ("Invalid day in date: '", "'"),
        DateFault::DayRange => ("Day out of range (1\u{2013}31): '", "'"),
        DateFault::Hour => ("Invalid hour in date: '", "'"),
        DateFault::HourRange => ("Hour out of range (0\u{2013}23): '", "'"),
        DateFault::Minute => ("Invalid minute in date: '", "'"),
        DateFault::MinuteRange => ("Minute out of range (0\u{2013}59): '", "'"),
        DateFault::Second => ("Invalid second in date: '", "'"),
        DateFault::SecondRange => ("Second out of range (0\u{2013}59): '", "'"),
        DateFault::TooManyComponents => ("Too many date components in: '", "'"),
    }
}

impl ValidationError {
    pub open spec fn text(&self) -> Seq<char> {
        match self {
            ValidationError::Date { fault, input } => fault_words(*fault).0 + input@ + fault_words(
                *fault,
            ).1,
            ValidationError::EmptyName { field } => field@ + " must not be empty"@,
            ValidationError::NameTooLong { field } => field@ + " exceeds 256 character limit"@,
            ValidationError::NameNullByte { field } => field@ + " contains null byte"@,
            ValidationError::NameControlChar { field, code, position } => field@
                + " contains control character U+"@ + hex4(*code as nat) + " at position "@ + dec(
                *position as nat,
            ),
            ValidationError::ContentNullByte => "content contains null byte"@,
            ValidationError::ContentTooLarge { len } => "content exceeds 100,000 character limit ("@
                + dec(*len as nat) + ")"@,
        }
    }

    /// The error as a sentence naming the field and the problem.
    pub fn message(&self) -> (r: String)
        ensures
            r@ == self.text(),
    {
        let mut c: Vec<char> = Vec::new();
        match self {
            ValidationError::Date { fault, input } => {
                let (head, tail) = fault_words_exec(*fault);
                append_str(&mut c, head);
                append_str(&mut c, input.as_str());
                append_str(&mut c, tail);
            },
            ValidationError::EmptyName { field } => {
                append_str(&mut c, field.as_str());
                append_str(&mut c, " must not be empty");
            },
            ValidationError::NameTooLong { field } => {
                append_str(&mut c, field.as_str());
                append_str(&mut c, " exceeds 256 character limit");
            },
            ValidationError::NameNullByte { field } => {
                append_str(&mut c, field.as_str());
                append_str(&mut c, " contains null byte");
            },
            ValidationError::NameControlChar { field, code, position } => {
                append_str(&mut c, field.as_str());
                append_str(&mut c, " contains control character U+");
                append_chars(&mut c, &hex4_u32(*code));
                append_str(&mut c, " at position ");
                append_chars(&mut c, &dec_usize(*position));
            },
            ValidationError::ContentNullByte => {
                append_str(&mut c, "content contains null byte");
            },
            ValidationError::ContentTooLarge { len } => {
                append_str(&mut c, "content exceeds 100,000 character limit (");
                append_chars(&mut c, &dec_usize(*len));
                append_str(&mut c, ")");
            },
        }
        string_of(&c)
    }
}

// ── dates ───────────────────────────────────────────────────────────────────
pub open spec fn is_date_sep(c: char) -> bool {
    c == ' ' || c == '-' || c == ':' || c == 'T'
}

/// The pieces between date separators, empty pieces included; there is
/// always at least one piece (`str::split` on `[' ', '-', ':', 'T']`).
pub open spec fn date_parts(s: Seq<char>) -> Seq<Seq<char>>
    decreases s.len(),
{
    if s.len() == 0 {
        seq![Seq::<char>::empty()]
    } else {
        let p = date_parts(s.drop_last());
        if is_date_sep(s.last()) {
            p.push(Seq::<char>::empty())
        } else {
            p.update(p.len() - 1, p.last().push(s.last()))
        }
    }
}

pub proof fn lemma_date_parts_nonempty(s: Seq<char>)
    ensures
        date_parts(s).len() >= 1,
    decreases s.len(),
{
    if s.len() > 0 {
        lemma_date_parts_nonempty(s.drop_last());
    }
}

/// Component `idx` (when present) must parse as a `u32` within `lo..=hi`.
pub open spec fn field_fault(
    p: Seq<Seq<char>>,
    idx: int,
    lo: nat,
    hi: nat,
    bad: DateFault,
    range: DateFault,
) -> Option<DateFault> {
    if p.len() > idx {
        match parse_unsigned(p[idx], u32::MAX as nat) {
            None => Some(bad),
            Some(v) => if lo <= v <= hi {
                None
            } else {
                Some(range)
            },
        }
    } else {
        None
    }
}

/// The first check that the trimmed, non-empty date `t` fails, if any.
pub open spec fn date_fault(t: Seq<char>) -> Option<DateFault> {
    if !(t.len() >= 4 && all_digits(t.take(4))) {
        Some(DateFault::Malformed)
    } else {
        let p = date_parts(t);
        match parse_signed(p[0], i32::MAX as nat) {
            None => Some(DateFault::Year),
            Some(y) => if !(1970 <= y <= 2099) {
                Some(DateFault::YearRange)
            } else {
                let m = field_fault(p, 1, 1, 12, DateFault::Month, DateFault::MonthRange);
                let d = field_fault(p, 2, 1, 31, DateFault::Day, DateFault::DayRange);
                let h = field_fault(p, 3, 0, 23, DateFault::Hour, DateFault::HourRange);
                let mi = field_fault(p, 4, 0, 59, DateFault::Minute, DateFault::MinuteRange);
                let se = field_fault(p, 5, 0, 59, DateFault::Second, DateFault::SecondRange);
                if m is Some {
                    m
                } else if d is Some {
                    d
                } else if h is Some {
                    h
                } else if mi is Some {
                    mi
                } else if se is Some {
                    se
                } else if p.len() > 6 {
                    Some(DateFault::TooManyComponents)
                } else {
                    None
                }
            },
        }
    }
}

/// What `sanitize_iso_date` answers: `Ok(None)` for an absent or blank
/// value, the trimmed value when it is an acceptable date, else the fault.
pub open spec fn iso_date_outcome(val: Option<Seq<char>>) -> Result<Option<Seq<char>>, DateFault> {
    match val {
        None => Ok(None),
        Some(s) => {
            let t = trimmed(s);
            if t.len() == 0 {
                Ok(None)
            } else {
                match date_fault(t) {
                    Some(f) => Err(f),
                    None => Ok(Some(t)),
                }
            }
        },
    }
}

pub open spec fn opt_view(val: Option<&str>) -> Option<Seq<char>> {
    match val {
        None => None,
        Some(s) => Some(s@),
    }
}

pub fn split_date_parts(t: &[char]) -> (parts: Vec<Vec<char>>)
    ensures
        views(parts@) == date_parts(t@),
{
    let mut done: Vec<Vec<char>> = Vec::new();
    let mut cur: Vec<char> = Vec::new();
    assert(t@.take(0) =~= Seq::<char>::empty());
    assert(views(done@).push(cur@) =~= seq![Seq::<char>::empty()]);
    for i in 0..t.len()
        invariant
            views(done@).push(cur@) == date_parts(t@.take(i as int)),
    {
        let c = t[i];
        let ghost prev = views(done@).push(cur@);
        assert(t@.take(i + 1).drop_last() =~= t@.take(i as int));
        assert(t@.take(i + 1).last() == c);
        if c == ' ' || c == '-' || c == ':' || c == 'T' {
            done.push(cur);
            cur = Vec::new();
            assert(views(done@).push(cur@) =~= prev.push(Seq::<char>::empty()));
        } else {
            cur.push(c);
            assert(views(done@).push(cur@) =~= prev.update(prev.len() - 1, prev.last().push(c)));
        }
    }
    assert(t@.take(t.len() as int) =~= t@);
    done.push(cur);
    done
}

fn field_fault_exec(
    parts: &Vec<Vec<char>>,
    idx: usize,
    lo: u32,
    hi: u32,
    bad: DateFault,
    range: DateFault,
) -> (r: Option<DateFault>)
    ensures
        r == field_fault(views(parts@), idx as int, lo as nat, hi as nat, bad, range),
{
    if parts.len() > idx {
        assert(views(parts@)[idx as int] == parts@[idx as int]@);
        match parse_u32(&parts[idx]) {
            None => Some(bad),
            Some(v) => if lo <= v && v <= hi {
                None
            } else {
                Some(range)
            },
        }
    } else {
        None
    }
}

fn date_fault_exec(t: &[char]) -> (r: Option<DateFault>)
    ensures
        r == date_fault(t@),
{
    if t.len() < 4 {
        return Some(DateFault::Malformed);
    }
    for i in 0..4
        invariant
            t.len() >= 4,
            forall|j: int| 0 <= j < i ==> crate::text::is_digit(t@[j]),
    {
        if !('0' <= t[i] && t[i] <= '9') {
            assert(t@.take(4)[i as int] == t@[i as int]);
            return Some(DateFault::Malformed);
        }
    }
    assert(all_digits(t@.take(4)));
    let parts = split_date_parts(t);
    proof {
        lemma_date_parts_nonempty(t@);
    }
    assert(views(parts@)[0] == parts@[0]@);
    match parse_i32(&parts[0]) {
        None => Some(DateFault::Year),
        Some(y) => {
            if !(1970 <= y && y <= 2099) {
                return Some(DateFault::YearRange);
            }
            let m = field_fault_exec(&parts, 1, 1, 12, DateFault::Month, DateFault::MonthRange);
            if m.is_some() {
                return m;
            }
            let d = field_fault_exec(&parts, 2, 1, 31, DateFault::Day, DateFault::DayRange);
            if d.is_some() {
                return d;
            }
            let h = field_fault_exec(&parts, 3, 0, 23, DateFault::Hour, DateFault::HourRange);
            if h.is_some() {
                return h;
            }
            let mi = field_fault_exec(
                &parts,
                4,
                0,
                59,
                DateFault::Minute,
                DateFault::MinuteRange,
            );
            if mi.is_some() {
                return mi;
            }
            let se = field_fault_exec(
                &parts,
                5,
                0,
                59,
                DateFault::Second,
                DateFault::SecondRange,
            );
            if se.is_some() {
                return se;
            }
            if parts.len() > 6 {
                Some(DateFault::TooManyComponents)
            } else {
                None
            }
        },
    }
}

/// Validate an ISO-ish date: `YYYY`, `YYYY-MM`, `YYYY-MM-DD` or
/// `YYYY-MM-DD HH:MM:SS` (a `T` may separate date and time). Blank or absent
/// values are `Ok(None)`; an accepted value comes back trimmed.
pub fn sanitize_iso_date<'a>(val: Option<&'a str>) -> (r: Result<Option<&'a str>, ValidationError>)
    ensures
        match r {
            Ok(None) => iso_date_outcome(opt_view(val)) == Ok::<Option<Seq<char>>, DateFault>(
                None,
            ),
            Ok(Some(s)) => iso_date_outcome(opt_view(val)) == Ok::<Option<Seq<char>>, DateFault>(
                Some(s@),
            ),
            Err(ValidationError::Date { fault, input }) => iso_date_outcome(opt_view(val))
                == Err::<Option<Seq<char>>, DateFault>(fault) && input@ == trimmed(
                opt_view(val)->0,
            ),
            Err(_) => false,
        },
{
    let s = match val {
        None => {
            return Ok(None);
        },
        Some(s) => s,
    };
    if s.is_empty() {
        assert(s@ =~= Seq::<char>::empty());
        assert(trimmed(s@) =~= Seq::<char>::empty());
        return Ok(None);
    }
    let s = s.trim();
    if s.is_empty() {
        return Ok(None);
    }
    let t = chars_of(s);
    match date_fault_exec(&t) {
        Some(f) => Err(ValidationError::Date { fault: f, input: string_of(&t) }),
        None => Ok(Some(s)),
    }
}

// ── names ───────────────────────────────────────────────────────────────────
/// No character of `s` is a control character.
pub open spec fn no_control(s: Seq<char>) -> bool {
    forall|i: int| 0 <= i < s.len() ==> !is_control(#[trigger] s[i])
}

/// `k` is the index of the first control character of `s`.
pub open spec fn first_control_at(s: Seq<char>, k: int) -> bool {
    0 <= k < s.len() && is_control(s[k]) && no_control(s.take(k))
}

pub proof fn lemma_blen_prefix_le(s: Seq<char>, k: int)
    requires
        0 <= k <= s.len(),
    ensures
        blen(s.take(k)) <= blen(s),
{
    assert(s =~= s.take(k) + s.skip(k));
    lemma_blen_concat(s.take(k), s.skip(k));
}

fn validate_name_str(s: &str, field: &str) -> (r: Result<(), ValidationError>)
    ensures
        match r {
            Ok(()) => blen(s@) <= 256 && !contains_char(s@, '\0') && no_control(s@),
            Err(ValidationError::NameTooLong { field: f }) => f@ == field@ && blen(s@) > 256,
            Err(ValidationError::NameNullByte { field: f }) => f@ == field@ && blen(s@) <= 256
                && contains_char(s@, '\0'),
            Err(ValidationError::NameControlChar { field: f, code, position }) => f@ == field@
                && blen(s@) <= 256 && !contains_char(s@, '\0') && exists|k: int|
                first_control_at(s@, k) && code == s@[k] as u32 && position == blen(
                    #[trigger] s@.take(k),
                ),
            Err(_) => false,
        },
{
    proof {
        lemma_blen_is_utf8_len(s@);
    }
    if s.as_bytes().len() > 256 {
        return Err(ValidationError::NameTooLong { field: string_of(&chars_of(field)) });
    }
    let v = chars_of(s);
    if has_char(&v, '\0') {
        return Err(ValidationError::NameNullByte { field: string_of(&chars_of(field)) });
    }
    let mut pos: usize = 0;
    for i in 0..v.len()
        invariant
            v@ == s@,
            blen(s@) <= 256,
            !contains_char(s@, '\0'),
            no_control(v@.take(i as int)),
            pos == blen(v@.take(i as int)),
    {
        let c = v[i];
        proof {
            lemma_blen_prefix_le(v@, i as int);
        }
        if is_control_exec(c) {
            assert(first_control_at(s@, i as int) && c as u32 == s@[i as int] as u32 && pos
                == blen(s@.take(i as int)));
            return Err(
                ValidationError::NameControlChar {
                    field: string_of(&chars_of(field)),
                    code: c as u32,
                    position: pos,
                },
            );
        }
        assert(v@.take(i + 1).drop_last() =~= v@.take(i as int));
        assert(no_control(v@.take(i + 1)));
        proof {
            lemma_blen_prefix_le(v@, i + 1);
        }
        pos = pos + char_width_exec(c);
    }
    assert(v@.take(v.len() as int) =~= v@);
    Ok(())
}

/// Validate an optional wing/room/agent name: absent or empty is `Ok(None)`.
pub fn sanitize_name<'a>(val: Option<&'a str>, field_name: &str) -> (r: Result<
    Option<&'a str>,
    ValidationError,
>)
    ensures
        match r {
            Ok(None) => val is None || val->0@.len() == 0,
            Ok(Some(s)) => val == Some(s) && s@.len() > 0 && blen(s@) <= 256 && !contains_char(
                s@,
                '\0',
            ) && no_control(s@),
            Err(ValidationError::NameTooLong { field: f }) => val is Some && f@ == field_name@
                && blen(val->0@) > 256,
            Err(ValidationError::NameNullByte { field: f }) => val is Some && f@ == field_name@
                && blen(val->0@) <= 256 && contains_char(val->0@, '\0'),
            Err(ValidationError::NameControlChar { field: f, code, position }) => val is Some
                && f@ == field_name@ && blen(val->0@) <= 256 && !contains_char(val->0@, '\0')
                && exists|k: int|
                first_control_at(val->0@, k) && code == val->0@[k] as u32 && position == blen(
                    #[trigger] val->0@.take(k),
                ),
            Err(_) => false,
        },
{
    let s = match val {
        None => {
            return Ok(None);
        },
        Some(s) => s,
    };
    if s.is_empty() {
        return Ok(None);
    }
    match validate_name_str(s, field_name) {
        Ok(()) => Ok(Some(s)),
        Err(e) => Err(e),
    }
}

/// Validate a required name: the empty string is rejected too.
pub fn sanitize_name_required<'a>(val: &'a str, field_name: &str) -> (r: Result<
    &'a str,
    ValidationError,
>)
    ensures
        match r {
            Ok(s) => s == val && val@.len() > 0 && blen(val@) <= 256 && !contains_char(
                val@,
                '\0',
            ) && no_control(val@),
            Err(ValidationError::EmptyName { field: f }) => f@ == field_name@ && val@.len() == 0,
            Err(ValidationError::NameTooLong { field: f }) => f@ == field_name@ && val@.len() > 0
                && blen(val@) > 256,
            Err(ValidationError::NameNullByte { field: f }) => f@ == field_name@ && val@.len() > 0
                && blen(val@) <= 256 && contains_char(val@, '\0'),
            Err(ValidationError::NameControlChar { field: f, code, position }) => f@
                == field_name@ && val@.len() > 0 && blen(val@) <= 256 && !contains_char(
                val@,
                '\0',
            ) && exists|k: int|
                first_control_at(val@, k) && code == val@[k] as u32 && position == blen(
                    #[trigger] val@.take(k),
                ),
            Err(_) => false,
        },
{
    if val.is_empty() {
        return Err(ValidationError::EmptyName { field: string_of(&chars_of(field_name)) });
    }
    match validate_name_str(val, field_name) {
        Ok(()) => Ok(val),
        Err(e) => Err(e),
    }
}

// ── content ─────────────────────────────────────────────────────────────────
pub const CONTENT_MAX_BYTES: usize = 100_000;

/// Validate drawer content: no NUL character and at most 100,000 bytes.
pub fn sanitize_content<'a>(val: &'a str) -> (r: Result<&'a str, ValidationError>)
    ensures
        match r {
            Ok(s) => s == val && !contains_char(val@, '\0') && blen(val@) <= 100_000,
            Err(ValidationError::ContentNullByte) => contains_char(val@, '\0'),
            Err(ValidationError::ContentTooLarge { len }) => !contains_char(val@, '\0') && len
                == blen(val@) && len > 100_000,
            Err(_) => false,
        },
{
    proof {
        lemma_blen_is_utf8_len(val@);
    }
    let v = chars_of(val);
    if has_char(&v, '\0') {
        return Err(ValidationError::ContentNullByte);
    }
    let len = val.as_bytes().len();
    if len > CONTENT_MAX_BYTES {
        return Err(ValidationError::ContentTooLarge { len });
    }
    Ok(val)
}

} // verus!

verus! {

// ── search queries ──────────────────────────────────────────────────────────
pub const SEARCH_QUERY_MAX_CHARS: usize = 250;

/// Phrases that only occur in the memory protocol text that agents paste
/// into their queries.
pub open spec fn markers() -> Seq<Seq<char>> {
    seq![
        "MemPalace Memory Protocol"@,
        "AAAK is a compressed memory dialect"@,
        "ON WAKE-UP:"@,
        "BEFORE RESPONDING"@,
        "AFTER EACH SESSION:"@,
        "WHEN FACTS CHANGE:"@,
        "This protocol ensures"@,
        "Storage is not memory"@,
        "Call mempalace_status"@,
        "call mempalace_kg_query"@,
        "call mempalace_diary_write"@,
        "call mempalace_kg_invalidate"@,
    ]
}

fn marker_list() -> (v: Vec<&'static str>)
    ensures
        v@.len() == markers().len(),
        forall|i: int| 0 <= i < v@.len() ==> (#[trigger] v@[i])@ == markers()[i],
{
    vec![
        "MemPalace Memory Protocol",
        "AAAK is a compressed memory dialect",
        "ON WAKE-UP:",
        "BEFORE RESPONDING",
        "AFTER EACH SESSION:",
        "WHEN FACTS CHANGE:",
        "This protocol ensures",
        "Storage is not memory",
        "Call mempalace_status",
        "call mempalace_kg_query",
        "call mempalace_diary_write",
        "call mempalace_kg_invalidate",
    ]
}


/// The query contains one of the protocol phrases.
pub open spec fn has_marker(t: Seq<char>) -> bool {
    exists|i: int| 0 <= i < markers().len() && contains(t, #[trigger] markers()[i])
}

/// A line that is blank or belongs to the protocol text.
pub open spec fn is_boilerplate(line: Seq<char>) -> bool {
    let t = trimmed(line);
    t.len() == 0 || has_marker(t)
}

/// The trimmed lines that are not boilerplate, in order.
pub open spec fn kept_lines(ls: Seq<Seq<char>>) -> Seq<Seq<char>>
    decreases ls.len(),
{
    if ls.len() == 0 {
        Seq::empty()
    } else {
        let k = kept_lines(ls.drop_last());
        let t = trimmed(ls.last());
        if is_boilerplate(t) {
            k
        } else {
            k.push(t)
        }
    }
}

/// The cleaned query: protocol lines dropped (unless nothing would be left),
/// kept lines joined by single spaces, and at most 250 characters.
pub open spec fn clean_query(q: Seq<char>) -> Seq<char> {
    let base = if has_marker(q) {
        let k = kept_lines(lines(q));
        if k.len() == 0 {
            trimmed(q)
        } else {
            join(k, seq![' '])
        }
    } else {
        trimmed(q)
    };
    prefix(base, SEARCH_QUERY_MAX_CHARS as int)
}

fn has_marker_exec(v: &[char]) -> (r: bool)
    ensures
        r == has_marker(v@),
{
    let ms = marker_list();
    for i in 0..ms.len()
        invariant
            ms@.len() == markers().len(),
            forall|j: int| 0 <= j < ms@.len() ==> (#[trigger] ms@[j])@ == markers()[j],
            forall|j: int| 0 <= j < i ==> !contains(v@, #[trigger] markers()[j]),
    {
        assert(ms@[i as int]@ == markers()[i as int]);
        if contains_str(v, ms[i]) {
            return true;
        }
    }
    false
}

fn is_boilerplate_line(line: &[char]) -> (r: bool)
    ensures
        r == is_boilerplate(line@),
{
    let t = trim_chars(line);
    t.len() == 0 || has_marker_exec(&t)
}

/// Result of stripping pasted protocol text from a search query.
#[derive(Debug, PartialEq, Eq)]
pub struct SanitizedQuery {
    pub clean: String,
    pub was_sanitized: bool,
    pub original_length: usize,
    pub clean_length: usize,
}

/// Strip system-prompt dumps from a search query and cap it at 250
/// characters. When stripping would leave nothing, the trimmed query is
/// kept (then clipped).
pub fn sanitize_search_query(query: &str) -> (r: SanitizedQuery)
    ensures
        r.clean@ == clean_query(query@),
        r.original_length == query@.len(),
        r.clean_length == r.clean@.len(),
        r.was_sanitized == (r.clean@ != query@),
{
    let q = chars_of(query);
    let base: Vec<char> = if has_marker_exec(&q) {
        let ls = lines_of(&q);
        let mut kept: Vec<Vec<char>> = Vec::new();
        let ghost lv = views(ls@);
        assert(lv.take(0) =~= Seq::<Seq<char>>::empty());
        assert(views(kept@) =~= Seq::<Seq<char>>::empty());
        for i in 0..ls.len()
            invariant
                lv == views(ls@),
                lv == lines(q@),
                views(kept@) == kept_lines(lv.take(i as int)),
        {
            assert(lv.take(i + 1).drop_last() =~= lv.take(i as int));
            assert(lv.take(i + 1).last() == ls@[i as int]@);
            let t = trim_chars(&ls[i]);
            if !is_boilerplate_line(&t) {
                let ghost k0 = views(kept@);
                kept.push(t);
                assert(views(kept@) =~= k0.push(trimmed(ls@[i as int]@)));
            }
        }
        assert(lv.take(ls.len() as int) =~= lv);
        if kept.len() == 0 {
            trim_chars(&q)
        } else {
            let sep: Vec<char> = vec![' '];
            assert(sep@ =~= seq![' ']);
            join_chars(&kept, &sep)
        }
    } else {
        trim_chars(&q)
    };
    let clean_chars = take_chars(&base, SEARCH_QUERY_MAX_CHARS);
    let was_sanitized = !eq_chars(&clean_chars, &q);
    let clean_length = clean_chars.len();
    SanitizedQuery {
        clean: string_of(&clean_chars),
        was_sanitized,
        original_length: q.len(),
        clean_length,
    }
}


/// An accepted date comes back trimmed, and that text is accepted again
/// unchanged.
pub proof fn law_iso_date_idempotent(s: Seq<char>)
    requires
        iso_date_outcome(Some(s)) matches Ok(Some(_)),
    ensures
        ({
            let t = iso_date_outcome(Some(s))->Ok_0->0;
            iso_date_outcome(Some(t)) == Ok::<Option<Seq<char>>, DateFault>(Some(t))
        }),
{
    lemma_trimmed_idempotent(s);
}

/// A cleaned query never exceeds 250 characters.
pub proof fn law_clean_query_bounded(q: Seq<char>)
    ensures
        clean_query(q).len() <= SEARCH_QUERY_MAX_CHARS,
{
}

/// A short query with no protocol text and no surrounding whitespace is
/// passed through unchanged (so it is not reported as sanitized).
pub proof fn law_plain_query_passes_through(q: Seq<char>)
    requires
        !has_marker(q),
        trimmed(q) == q,
        q.len() <= SEARCH_QUERY_MAX_CHARS,
    ensures
        clean_query(q) == q,
{
}
// ── laws on dates ───────────────────────────────────────────────────────────
proof fn lemma_date_parts_piece(a: Seq<char>, b: Seq<char>)
    requires
        forall|i: int| 0 <= i < b.len() ==> !is_date_sep(#[trigger] b[i]),
    ensures
        date_parts(a + b) == date_parts(a).update(
            date_parts(a).len() - 1,
            date_parts(a).last() + b,
        ),
    decreases b.len(),
{
    lemma_date_parts_nonempty(a);
    if b.len() == 0 {
        assert(a + b =~= a);
        assert(date_parts(a).last() + b =~= date_parts(a).last());
        assert(date_parts(a).update(date_parts(a).len() - 1, date_parts(a).last()) =~= date_parts(a));
    } else {
        let b0 = b.drop_last();
        lemma_date_parts_piece(a, b0);
        assert((a + b).drop_last() =~= a + b0);
        assert((a + b).last() == b.last());
        assert(date_parts(a).last() + b0 + seq![b.last()] =~= date_parts(a).last() + b);
        let p = date_parts(a + b0);
        let q = date_parts(a);
        assert(p.len() == q.len());
        assert(p.last() == q.last() + b0);
        assert(p.last().push(b.last()) =~= q.last() + b);
        assert(p.update(p.len() - 1, p.last().push(b.last())) =~= date_parts(a).update(
            date_parts(a).len() - 1,
            date_parts(a).last() + b,
        ));
    }
}

proof fn lemma_date_parts_sep(a: Seq<char>, c: char)
    requires
        is_date_sep(c),
    ensures
        date_parts(a + seq![c]) == date_parts(a).push(Seq::<char>::empty()),
{
    assert((a + seq![c]).drop_last() =~= a);
}

proof fn lemma_not_ws_digit(c: char)
    requires
        is_digit(c),
    ensures
        !is_ws(c),
        !is_date_sep(c),
{
}

/// The value of two or four decimal digits.
proof fn lemma_digits2(a: char, b: char)
    ensures
        digits_value(seq![a, b]) == digit_value(a) * 10 + digit_value(b),
{
    assert(seq![a, b].drop_last() =~= seq![a]);
    assert(seq![a].drop_last() =~= Seq::<char>::empty());
    assert(digits_value(Seq::<char>::empty()) == 0);
    assert(digits_value(seq![a]) == digit_value(a));
}

proof fn lemma_digits4(a: char, b: char, c: char, d: char)
    ensures
        digits_value(seq![a, b, c, d]) == digit_value(a) * 1000 + digit_value(b) * 100
            + digit_value(c) * 10 + digit_value(d),
{
    assert(seq![a, b, c, d].drop_last() =~= seq![a, b, c]);
    assert(seq![a, b, c].drop_last() =~= seq![a, b]);
    lemma_digits2(a, b);
    assert(digits_value(seq![a, b, c]) == digits_value(seq![a, b]) * 10 + digit_value(c));
    assert(digits_value(seq![a, b, c, d]) == digits_value(seq![a, b, c]) * 10 + digit_value(d));
}

/// The text `YYYY-MM-DD` of eight digits, and its components.
pub open spec fn ymd_text(y: Seq<char>, m: Seq<char>, d: Seq<char>) -> Seq<char> {
    y + seq!['-'] + m + seq!['-'] + d
}

proof fn lemma_ymd_parts(y: Seq<char>, m: Seq<char>, d: Seq<char>)
    requires
        y.len() == 4,
        m.len() == 2,
        d.len() == 2,
        all_digits(y),
        all_digits(m),
        all_digits(d),
    ensures
        date_parts(ymd_text(y, m, d)) == seq![y, m, d],
        trimmed(ymd_text(y, m, d)) == ymd_text(y, m, d),
{
    assert forall|i: int| 0 <= i < y.len() implies !is_date_sep(#[trigger] y[i]) by {
        lemma_not_ws_digit(y[i]);
    }
    assert forall|i: int| 0 <= i < m.len() implies !is_date_sep(#[trigger] m[i]) by {
        lemma_not_ws_digit(m[i]);
    }
    assert forall|i: int| 0 <= i < d.len() implies !is_date_sep(#[trigger] d[i]) by {
        lemma_not_ws_digit(d[i]);
    }
    let e = Seq::<char>::empty();
    lemma_date_parts_piece(e, y);
    assert(e + y =~= y);
    assert(date_parts(y) =~= seq![y]);
    lemma_date_parts_sep(y, '-');
    lemma_date_parts_piece(y + seq!['-'], m);
    assert(date_parts(y + seq!['-'] + m) =~= seq![y, m]);
    lemma_date_parts_sep(y + seq!['-'] + m, '-');
    lemma_date_parts_piece(y + seq!['-'] + m + seq!['-'], d);
    assert(date_parts(ymd_text(y, m, d)) =~= seq![y, m, d]);
    let t = ymd_text(y, m, d);
    assert(t[0] == y[0]);
    lemma_not_ws_digit(y[0]);
    assert(trim_start(t) == t);
    assert(t.last() == d[1]);
    lemma_not_ws_digit(d[1]);
    assert(trim_end(t) == t);
}

/// Every calendar-shaped date `YYYY-MM-DD` with a year in 1970..=2099, a
/// month in 1..=12 and a day in 1..=31 is accepted as it is.
pub proof fn law_dates_in_range_accepted(y: Seq<char>, m: Seq<char>, d: Seq<char>)
    requires
        y.len() == 4,
        m.len() == 2,
        d.len() == 2,
        all_digits(y),
        all_digits(m),
        all_digits(d),
        1970 <= digit_value(y[0]) * 1000 + digit_value(y[1]) * 100 + digit_value(y[2]) * 10
            + digit_value(y[3]) <= 2099,
        1 <= digit_value(m[0]) * 10 + digit_value(m[1]) <= 12,
        1 <= digit_value(d[0]) * 10 + digit_value(d[1]) <= 31,
    ensures
        iso_date_outcome(Some(ymd_text(y, m, d))) == Ok::<Option<Seq<char>>, DateFault>(
            Some(ymd_text(y, m, d)),
        ),
{
    lemma_ymd_parts(y, m, d);
    lemma_digits4(y[0], y[1], y[2], y[3]);
    assert(y =~= seq![y[0], y[1], y[2], y[3]]);
    lemma_digits2(m[0], m[1]);
    assert(m =~= seq![m[0], m[1]]);
    lemma_digits2(d[0], d[1]);
    assert(d =~= seq![d[0], d[1]]);
    let t = ymd_text(y, m, d);
    assert(t.take(4) =~= y);
    assert(y[0] != '-' && y[0] != '+');
    assert(m[0] != '+' && d[0] != '+');
}

/// A day of 0 or above 31 is refused as out of range, whatever the
/// (acceptable) year and month.
pub proof fn law_day_out_of_range_refused(y: Seq<char>, m: Seq<char>, d: Seq<char>)
    requires
        y.len() == 4,
        m.len() == 2,
        d.len() == 2,
        all_digits(y),
        all_digits(m),
        all_digits(d),
        1970 <= digit_value(y[0]) * 1000 + digit_value(y[1]) * 100 + digit_value(y[2]) * 10
            + digit_value(y[3]) <= 2099,
        1 <= digit_value(m[0]) * 10 + digit_value(m[1]) <= 12,
        digit_value(d[0]) * 10 + digit_value(d[1]) == 0 || digit_value(d[0]) * 10 + digit_value(
            d[1],
        ) > 31,
    ensures
        iso_date_outcome(Some(ymd_text(y, m, d))) == Err::<Option<Seq<char>>, DateFault>(
            DateFault::DayRange,
        ),
{
    lemma_ymd_parts(y, m, d);
    lemma_digits4(y[0], y[1], y[2], y[3]);
    assert(y =~= seq![y[0], y[1], y[2], y[3]]);
    lemma_digits2(m[0], m[1]);
    assert(m =~= seq![m[0], m[1]]);
    lemma_digits2(d[0], d[1]);
    assert(d =~= seq![d[0], d[1]]);
    let t = ymd_text(y, m, d);
    assert(t.take(4) =~= y);
    assert(y[0] != '-' && y[0] != '+');
    assert(m[0] != '+' && d[0] != '+');
}

// ── laws on search queries ──────────────────────────────────────────────────
proof fn lemma_line_scan_plain(x: Seq<char>, y: Seq<char>)
    requires
        !contains_char(y, '\n'),
    ensures
        line_scan(x + y) == (line_scan(x).0, line_scan(x).1 + y),
    decreases y.len(),
{
    if y.len() == 0 {
        assert(x + y =~= x);
        assert(line_scan(x).1 + y =~= line_scan(x).1);
    } else {
        let y0 = y.drop_last();
        assert(!contains_char(y0, '\n')) by {
            if contains_char(y0, '\n') {
                let k = choose|k: int| 0 <= k < y0.len() && y0[k] == '\n';
                assert(y[k] == '\n');
            }
        }
        lemma_line_scan_plain(x, y0);
        assert((x + y).drop_last() =~= x + y0);
        assert(y.last() == y[y.len() - 1]);
        assert((line_scan(x).1 + y0).push(y.last()) =~= line_scan(x).1 + y);
    }
}

/// The lines of `x + y`, where `x` ends a line and `y` is one line.
proof fn lemma_lines_last(x: Seq<char>, y: Seq<char>)
    requires
        x.len() > 0,
        x.last() == '\n',
        y.len() > 0,
        !contains_char(y, '\n'),
    ensures
        lines(x + y) == lines(x).push(y),
{
    assert(line_scan(x).1 == Seq::<char>::empty());
    lemma_line_scan_plain(x, y);
    assert(Seq::<char>::empty() + y =~= y);
}

proof fn lemma_kept_none(ls: Seq<Seq<char>>)
    requires
        forall|i: int| 0 <= i < ls.len() ==> is_boilerplate(#[trigger] ls[i]),
    ensures
        kept_lines(ls) == Seq::<Seq<char>>::empty(),
    decreases ls.len(),
{
    if ls.len() > 0 {
        lemma_kept_none(ls.drop_last());
        lemma_trimmed_idempotent(ls.last());
        assert(is_boilerplate(ls[ls.len() - 1]));
    }
}

proof fn lemma_contains_extend(p: Seq<char>, z: Seq<char>, m: Seq<char>)
    requires
        contains(p, m),
    ensures
        contains(p + z, m),
{
    let i = choose|i: int| crate::text::occurs_at(p, m, i);
    assert((p + z).subrange(i, i + m.len()) =~= p.subrange(i, i + m.len()));
    assert(crate::text::occurs_at(p + z, m, i));
}

/// Protocol text pasted before a question never costs the question: when
/// every line of `p` is boilerplate and the last line `q2` is a short,
/// trimmed question without protocol phrases, the cleaned query is `q2`,
/// however long `p` is.
pub proof fn law_question_survives_boilerplate(p: Seq<char>, q2: Seq<char>)
    requires
        has_marker(p),
        forall|i: int| 0 <= i < lines(p + seq!['\n']).len() ==> is_boilerplate(
            #[trigger] lines(p + seq!['\n'])[i],
        ),
        0 < q2.len() <= SEARCH_QUERY_MAX_CHARS,
        trimmed(q2) == q2,
        !has_marker(q2),
        !contains_char(q2, '\n'),
    ensures
        clean_query(p + seq!['\n'] + q2) == q2,
{
    let x = p + seq!['\n'];
    let q = x + q2;
    lemma_lines_last(x, q2);
    let i = choose|i: int| 0 <= i < markers().len() && contains(p, #[trigger] markers()[i]);
    lemma_contains_extend(p, seq!['\n'] + q2, markers()[i]);
    assert(p + (seq!['\n'] + q2) =~= q);
    assert(has_marker(q));
    lemma_kept_none(lines(x));
    assert(lines(q).drop_last() =~= lines(x));
    assert(!is_boilerplate(trimmed(q2)));
    assert(kept_lines(lines(q)) =~= seq![q2]);
    assert(join(seq![q2], seq![' ']) == q2);
}

} // verus!
