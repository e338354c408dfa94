//! Turning coding-agent sessions (OpenCode, Codex, Grok, Zcode) into drawers:
//! room slugs, byte-bounded prefixes, bounded session bodies, and the text
//! of each session.
use vstd::prelude::*;
use crate::fmt::{padded, padded_i64};
use crate::timefmt::{millis_text, millis_to_dt};
use crate::text::{
    append_chars, append_str, blen, blen_exec, char_width, char_width_exec, chars_of, eq_chars,
    is_digit, is_lower, is_upper, join, join_chars, lemma_blen_concat, lemma_len_le_blen, lower, lower_exec, prefix,
    string_of, strs, sub_chars, take_chars, trim_chars, trimmed, views,
};

verus! {

/// A normalized session ready for the shared import pipeline.
#[derive(Clone)]
pub struct RawSession {
    pub id: String,
    pub title: String,
    /// Unix milliseconds of last update; drives incremental sync and filed_at.
    pub updated_at_ms: i64,
    /// Fully composed drawer body text.
    pub content: String,
}

// ── slugs ───────────────────────────────────────────────────────────────────
pub open spec fn slug_char(c: char) -> char {
    if is_lower(c) || is_digit(c) {
        c
    } else if is_upper(c) {
        lower(c)
    } else {
        '-'
    }
}

/// Runs of dashes collapsed to one, leading dashes dropped: the text so far
/// and whether the last character kept was a dash (or nothing is kept yet).
pub open spec fn collapse_scan(s: Seq<char>) -> (Seq<char>, bool)
    decreases s.len(),
{
    if s.len() == 0 {
        (Seq::empty(), true)
    } else {
        let (out, last_dash) = collapse_scan(s.drop_last());
        if s.last() == '-' {
            if !last_dash {
                (out.push('-'), true)
            } else {
                (out, true)
            }
        } else {
            (out.push(s.last()), false)
        }
    }
}

pub open spec fn trim_dash_start(s: Seq<char>) -> Seq<char>
    decreases s.len(),
{
    if s.len() > 0 && s[0] == '-' {
        trim_dash_start(s.drop_first())
    } else {
        s
    }
}

pub open spec fn trim_dash_end(s: Seq<char>) -> Seq<char>
    decreases s.len(),
{
    if s.len() > 0 && s.last() == '-' {
        trim_dash_end(s.drop_last())
    } else {
        s
    }
}

pub open spec fn session_word() -> Seq<char> {
    seq!['s', 'e', 's', 's', 'i', 'o', 'n']
}

pub const SLUG_MAX_CHARS: usize = 64;

/// Lower-case letters and digits kept, every other character a dash, dash
/// runs collapsed, dashes trimmed from both ends, at most 64 characters;
/// "session" when nothing is left.
pub open spec fn slug(s: Seq<char>) -> Seq<char> {
    let t = trim_dash_end(trim_dash_start(collapse_scan(s.map_values(|c: char| slug_char(c))).0));
    if t.len() == 0 {
        session_word()
    } else {
        prefix(t, SLUG_MAX_CHARS as int)
    }
}

fn slug_char_exec(c: char) -> (r: char)
    ensures
        r == slug_char(c),
{
    if ('a' <= c && c <= 'z') || ('0' <= c && c <= '9') {
        c
    } else if 'A' <= c && c <= 'Z' {
        lower_exec(c)
    } else {
        '-'
    }
}

pub(crate) fn trim_dashes(v: &[char]) -> (r: Vec<char>)
    ensures
        r@ == trim_dash_end(trim_dash_start(v@)),
{
    let n = v.len();
    let mut a: usize = 0;
    assert(v@.subrange(0, n as int) =~= v@);
    while a < n && v[a] == '-'
        invariant
            a <= n == v.len(),
            trim_dash_start(v@) == trim_dash_start(v@.subrange(a as int, n as int)),
        decreases n - a,
    {
        assert(v@.subrange(a as int, n as int).drop_first() =~= v@.subrange(a + 1, n as int));
        a = a + 1;
    }
    let mut b: usize = n;
    while b > a && v[b - 1] == '-'
        invariant
            a <= b <= n == v.len(),
            trim_dash_end(trim_dash_start(v@)) == trim_dash_end(v@.subrange(a as int, b as int)),
        decreases b,
    {
        assert(v@.subrange(a as int, b as int).drop_last() =~= v@.subrange(a as int, b - 1));
        b = b - 1;
    }
    sub_chars(v, a, b)
}

/// Turn a title into a room slug.
pub fn slugify(s: &str) -> (r: String)
    ensures
        r@ == slug(s@),
{
    let v = chars_of(s);
    let ghost mapped = v@.map_values(|c: char| slug_char(c));
    let mut out: Vec<char> = Vec::new();
    let mut last_dash = true;
    for i in 0..v.len()
        invariant
            mapped == v@.map_values(|c: char| slug_char(c)),
            (out@, last_dash) == collapse_scan(mapped.take(i as int)),
    {
        let c = slug_char_exec(v[i]);
        assert(mapped.take(i + 1).drop_last() =~= mapped.take(i as int));
        assert(mapped.take(i + 1).last() == c);
        if c == '-' {
            if !last_dash {
                out.push('-');
                last_dash = true;
            }
        } else {
            out.push(c);
            last_dash = false;
        }
    }
    assert(mapped.take(v.len() as int) =~= mapped);
    let t = trim_dashes(&out);
    if t.len() == 0 {
        let w = chars_of("session");
        proof {
            reveal_strlit("session");
        }
        assert(w@ =~= session_word());
        string_of(&w)
    } else {
        string_of(&take_chars(&t, SLUG_MAX_CHARS))
    }
}

/// A character that may appear in a slug.
pub open spec fn slug_alphabet(c: char) -> bool {
    is_lower(c) || is_digit(c) || c == '-'
}

/// A well-formed slug body: slug characters only, no dash first, never two
/// dashes in a row.
pub open spec fn slug_shaped(t: Seq<char>) -> bool {
    &&& forall|i: int| 0 <= i < t.len() ==> slug_alphabet(#[trigger] t[i])
    &&& t.len() > 0 ==> t[0] != '-'
    &&& forall|i: int| 0 <= i < t.len() - 1 ==> !(#[trigger] t[i] == '-' && t[i + 1] == '-')
}

proof fn lemma_collapse_shape(s: Seq<char>)
    requires
        forall|i: int| 0 <= i < s.len() ==> slug_alphabet(#[trigger] s[i]),
    ensures
        slug_shaped(collapse_scan(s).0),
        collapse_scan(s).1 == (collapse_scan(s).0.len() == 0 || collapse_scan(s).0.last() == '-'),
    decreases s.len(),
{
    if s.len() > 0 {
        assert forall|i: int| 0 <= i < s.drop_last().len() implies slug_alphabet(
            #[trigger] s.drop_last()[i],
        ) by {
            assert(s.drop_last()[i] == s[i]);
        }
        lemma_collapse_shape(s.drop_last());
        assert(slug_alphabet(s[s.len() - 1]));
    }
}

proof fn lemma_prefix_shape(t: Seq<char>, n: int)
    requires
        slug_shaped(t),
        0 <= n <= t.len(),
    ensures
        slug_shaped(t.take(n)),
{
    assert forall|i: int| 0 <= i < t.take(n).len() - 1 implies !(#[trigger] t.take(n)[i] == '-' && t.take(n)[i
        + 1] == '-') by {
        assert(t.take(n)[i] == t[i]);
        assert(t.take(n)[i + 1] == t[i + 1]);
    }
}

proof fn lemma_trim_dash_end_shape(t: Seq<char>)
    requires
        slug_shaped(t),
    ensures
        slug_shaped(trim_dash_end(t)),
        trim_dash_end(t).len() <= t.len(),
        trim_dash_end(t) == t.take(trim_dash_end(t).len() as int),
    decreases t.len(),
{
    if t.len() > 0 && t.last() == '-' {
        lemma_prefix_shape(t, t.len() - 1);
        assert(t.drop_last() =~= t.take(t.len() - 1));
        lemma_trim_dash_end_shape(t.drop_last());
        assert(t.drop_last().take(trim_dash_end(t).len() as int) =~= t.take(trim_dash_end(t).len() as int));
    } else {
        assert(t.take(t.len() as int) =~= t);
    }
}

/// Every room slug is a non-empty run of lower-case letters, digits and
/// single dashes, at most 64 characters long, that does not start with a
/// dash.
pub proof fn law_slug_shape(s: Seq<char>)
    ensures
        slug(s).len() > 0,
        slug(s).len() <= SLUG_MAX_CHARS,
        slug_shaped(slug(s)),
{
    let m = s.map_values(|c: char| slug_char(c));
    assert forall|i: int| 0 <= i < m.len() implies slug_alphabet(#[trigger] m[i]) by {
        let c = s[i];
        if is_upper(c) {
            assert(lower(c) == ((c as u32) + 32) as char);
        }
    }
    lemma_collapse_shape(m);
    let out = collapse_scan(m).0;
    assert(trim_dash_start(out) == out);
    lemma_trim_dash_end_shape(out);
    let t = trim_dash_end(out);
    if t.len() == 0 {
        assert(slug(s) == session_word());
    } else if t.len() > SLUG_MAX_CHARS {
        lemma_prefix_shape(t, SLUG_MAX_CHARS as int);
    }
}

// ── byte-bounded prefixes ───────────────────────────────────────────────────
/// Slicing `s` at byte `n` is possible: `s` is at most `n` bytes long, or a
/// character ends exactly at byte `n`.
pub open spec fn byte_cut_ok(s: Seq<char>, n: nat) -> bool {
    blen(s) <= n || exists|k: int| 0 <= k <= s.len() && #[trigger] blen(s.take(k)) == n
}

/// `&s[..s.len().min(n)]`: the characters making up the first `n` bytes.
pub open spec fn byte_prefix(s: Seq<char>, n: nat) -> Seq<char> {
    if blen(s) <= n {
        s
    } else {
        s.take(choose|k: int| 0 <= k <= s.len() && #[trigger] blen(s.take(k)) == n)
    }
}

pub proof fn lemma_blen_take_step(s: Seq<char>, k: int)
    requires
        0 <= k < s.len(),
    ensures
        blen(s.take(k + 1)) == blen(s.take(k)) + char_width(s[k]),
{
    assert(s.take(k + 1).drop_last() =~= s.take(k));
}

pub proof fn lemma_blen_take_mono(s: Seq<char>, j: int, k: int)
    requires
        0 <= j <= k <= s.len(),
    ensures
        blen(s.take(j)) <= blen(s.take(k)),
        j < k ==> blen(s.take(j)) < blen(s.take(k)),
    decreases k - j,
{
    if j < k {
        lemma_blen_take_step(s, k - 1);
        lemma_blen_take_mono(s, j, k - 1);
    }
}

/// Whether `&s[..s.len().min(n)]` can be taken: see `byte_cut_ok`.
pub fn byte_cut_allowed(s: &str, n: usize) -> (b: bool)
    ensures
        b == byte_cut_ok(s@, n as nat),
{
    let v = chars_of(s);
    let mut w: u128 = 0;
    let mut k: usize = 0;
    assert(v@.take(0) =~= Seq::<char>::empty());
    while k < v.len() && w < n as u128
        invariant
            k <= v.len(),
            w == blen(v@.take(k as int)),
            w <= n + 4,
            k > 0 ==> blen(v@.take(k - 1)) < n,
        decreases v.len() - k,
    {
        proof {
            lemma_blen_take_step(v@, k as int);
        }
        w = w + char_width_exec(v[k]) as u128;
        k = k + 1;
    }
    if k == v.len() && w <= n as u128 {
        assert(v@.take(k as int) =~= v@);
        return true;
    }
    if w == n as u128 {
        return true;
    }
    proof {
        // w > n: no character ends exactly at byte n
        assert(v@.take(v@.len() as int) =~= v@);
        lemma_blen_take_mono(v@, k as int, v@.len() as int);
        assert forall|kk: int| 0 <= kk <= v@.len() implies #[trigger] blen(v@.take(kk)) != n by {
            if kk < k {
                lemma_blen_take_mono(v@, kk, k - 1);
            }
            if kk > k {
                lemma_blen_take_mono(v@, k as int, kk);
            }
        }
    }
    false
}

/// The characters that make up the first `n` bytes of `v` (all of `v` when
/// it is shorter).
pub fn byte_prefix_chars(v: &[char], n: usize) -> (r: Vec<char>)
    requires
        byte_cut_ok(v@, n as nat),
    ensures
        r@ == byte_prefix(v@, n as nat),
{
    let mut w: u128 = 0;
    let mut k: usize = 0;
    assert(v@.take(0) =~= Seq::<char>::empty());
    while k < v.len() && w < n as u128
        invariant
            k <= v.len(),
            w == blen(v@.take(k as int)),
            w <= n + 4,
            k > 0 ==> blen(v@.take(k - 1)) < n,
        decreases v.len() - k,
    {
        proof {
            lemma_blen_take_step(v@, k as int);
        }
        w = w + char_width_exec(v[k]) as u128;
        k = k + 1;
    }
    if w <= n as u128 && k == v.len() {
        assert(v@.take(k as int) =~= v@);
        let r = sub_chars(v, 0, k);
        assert(r@ =~= v@);
        return r;
    }
    // w >= n: a character ends exactly at byte n (the cut is allowed), so w == n
    proof {
        if blen(v@) > n {
            let kk = choose|kk: int| 0 <= kk <= v@.len() && #[trigger] blen(v@.take(kk)) == n;
            if kk < k {
                lemma_blen_take_mono(v@, kk, k - 1);
            }
            if kk > k {
                lemma_blen_take_mono(v@, k as int, kk);
            }
            assert(kk == k);
        } else {
            assert(v@.take(v@.len() as int) =~= v@);
            lemma_blen_take_mono(v@, k as int, v@.len() as int);
        }
    }
    let r = sub_chars(v, 0, k);
    assert(r@ =~= v@.take(k as int));
    r
}


// ── bounded session bodies ──────────────────────────────────────────────────

/// Texts taken from the front while fewer than `half` bytes are gathered,
/// each cut to the characters still allowed, separated by newlines.
pub open spec fn head_from(ts: Seq<Seq<char>>, i: int, half: nat, head: Seq<char>) -> Seq<char>
    decreases ts.len() - i,
{
    if i < 0 || i >= ts.len() || blen(head) >= half {
        head
    } else {
        let h1 = if head.len() > 0 {
            head.push('\n')
        } else {
            head
        };
        head_from(ts, i + 1, half, h1 + prefix(ts[i], half - blen(h1)))
    }
}

/// The same from the back: each earlier text is put in front.
pub open spec fn tail_from(ts: Seq<Seq<char>>, i: int, half: nat, tail: Seq<char>) -> Seq<char>
    decreases ts.len() - i,
{
    if i < 0 || i >= ts.len() || blen(tail) >= half {
        tail
    } else {
        let chunk = prefix(ts[ts.len() - 1 - i], half - blen(tail));
        let t1 = if tail.len() > 0 {
            seq!['\n'] + tail
        } else {
            tail
        };
        tail_from(ts, i + 1, half, chunk + t1)
    }
}

pub open spec fn ellipsis_line() -> Seq<char> {
    seq!['\n', '.', '.', '.', '\n']
}

/// A body of about `max` bytes: half from the first texts (the topic), half
/// from the last ones (the outcome), joined by an ellipsis line unless the
/// two halves are the same text or the whole fits without one.
pub open spec fn head_tail(ts: Seq<Seq<char>>, max: nat) -> Seq<char> {
    if ts.len() == 0 {
        Seq::empty()
    } else {
        let half = max / 2;
        let head = head_from(ts, 0, half, Seq::empty());
        let tail = tail_from(ts, 0, half, Seq::empty());
        let joined = head + ellipsis_line() + tail;
        if blen(head) + blen(tail) <= max {
            if trimmed(tail) == trimmed(head) || tail.len() == 0 {
                head
            } else {
                joined
            }
        } else {
            joined
        }
    }
}

proof fn lemma_head_from_len(ts: Seq<Seq<char>>, i: int, half: nat, head: Seq<char>)
    requires
        head.len() <= half,
    ensures
        head_from(ts, i, half, head).len() <= half,
    decreases ts.len() - i,
{
    if !(i < 0 || i >= ts.len() || blen(head) >= half) {
        let h1 = if head.len() > 0 {
            head.push('\n')
        } else {
            head
        };
        assert(blen(h1) <= blen(head) + 1) by {
            if head.len() > 0 {
                assert(h1.drop_last() =~= head);
            }
        }
        lemma_len_le_blen(h1);
        let next = h1 + prefix(ts[i], half - blen(h1));
        assert(next.len() <= half);
        lemma_head_from_len(ts, i + 1, half, next);
    }
}

proof fn lemma_tail_from_len(ts: Seq<Seq<char>>, i: int, half: nat, tail: Seq<char>)
    requires
        tail.len() <= half + 1,
    ensures
        tail_from(ts, i, half, tail).len() <= half + 1,
    decreases ts.len() - i,
{
    if !(i < 0 || i >= ts.len() || blen(tail) >= half) {
        let chunk = prefix(ts[ts.len() - 1 - i], half - blen(tail));
        let t1 = if tail.len() > 0 {
            seq!['\n'] + tail
        } else {
            tail
        };
        lemma_len_le_blen(tail);
        assert((chunk + t1).len() <= half + 1);
        lemma_tail_from_len(ts, i + 1, half, chunk + t1);
    }
}

/// A session body never has more than `max` characters, besides the
/// ellipsis line and one newline: about half from the head, half from the
/// tail.
pub proof fn law_head_tail_bounded(ts: Seq<Seq<char>>, max: nat)
    ensures
        head_tail(ts, max).len() <= max + 6,
{
    if ts.len() > 0 {
        lemma_head_from_len(ts, 0, max / 2, Seq::empty());
        lemma_tail_from_len(ts, 0, max / 2, Seq::empty());
    }
}

fn head_exec(texts: &[String], half: usize) -> (r: Vec<char>)
    requires
        half <= usize::MAX / 2,
    ensures
        r@ == head_from(strs(texts@), 0, half as nat, Seq::empty()),
        blen(r@) <= 5 * (half as int),
{
    let ghost ts = strs(texts@);
    let mut head: Vec<char> = Vec::new();
    let mut hb: u128 = 0;
    let mut i: usize = 0;
    while i < texts.len()
        invariant
            ts == strs(texts@),
            i <= texts.len(),
            hb == blen(head@),
            hb <= 5 * (half as int),
            head_from(ts, 0, half as nat, Seq::empty()) == head_from(ts, i as int, half as nat, head@),
        ensures
            i == texts.len() || hb >= half,
            hb == blen(head@),
            head_from(ts, 0, half as nat, Seq::empty()) == head_from(ts, i as int, half as nat, head@),
        decreases texts.len() - i,
    {
        if hb >= half as u128 {
            break;
        }
        let ghost h0 = head@;
        if head.len() > 0 {
            head.push('\n');
            proof {
                assert(head@.drop_last() =~= h0);
            }
            hb = hb + 1;
        }
        let remaining = half - hb as usize;
        let t = chars_of(texts[i].as_str());
        assert(ts[i as int] == t@);
        let chunk = take_chars(&t, remaining);
        let cb = blen_exec(&chunk);
        proof {
            lemma_blen_concat(head@, chunk@);
        }
        append_chars(&mut head, &chunk);
        hb = hb + cb;
        i = i + 1;
    }
    head
}

fn tail_exec(texts: &[String], half: usize) -> (r: Vec<char>)
    requires
        half <= usize::MAX / 2,
    ensures
        r@ == tail_from(strs(texts@), 0, half as nat, Seq::empty()),
        blen(r@) <= 5 * (half as int),
{
    let ghost ts = strs(texts@);
    let mut tail: Vec<char> = Vec::new();
    let mut tb: u128 = 0;
    let mut i: usize = 0;
    while i < texts.len()
        invariant
            ts == strs(texts@),
            i <= texts.len(),
            tb == blen(tail@),
            tb <= 5 * (half as int),
            tail_from(ts, 0, half as nat, Seq::empty()) == tail_from(ts, i as int, half as nat, tail@),
        ensures
            i == texts.len() || tb >= half,
            tb == blen(tail@),
            tail_from(ts, 0, half as nat, Seq::empty()) == tail_from(ts, i as int, half as nat, tail@),
        decreases texts.len() - i,
    {
        if tb >= half as u128 {
            break;
        }
        let remaining = half - tb as usize;
        let t = chars_of(texts[texts.len() - 1 - i].as_str());
        assert(ts[ts.len() - 1 - i] == t@);
        let chunk = take_chars(&t, remaining);
        let cb = blen_exec(&chunk);
        let mut next: Vec<char> = Vec::new();
        append_chars(&mut next, &chunk);
        let mut extra: u128 = 0;
        if tail.len() > 0 {
            next.push('\n');
            extra = 1;
        }
        let ghost sep = if tail@.len() > 0 {
            seq!['\n']
        } else {
            Seq::<char>::empty()
        };
        assert(next@ =~= chunk@ + sep);
        append_chars(&mut next, &tail);
        assert(next@ =~= chunk@ + (sep + tail@));
        proof {
            lemma_blen_concat(chunk@, sep);
            lemma_blen_concat(chunk@ + sep, tail@);
            assert(blen(seq!['\n']) == 1) by {
                assert(seq!['\n'].drop_last() =~= Seq::<char>::empty());
            }
            assert(blen(Seq::<char>::empty()) == 0);
        }
        tb = cb + extra + tb;
        tail = next;
        i = i + 1;
    }
    tail
}

/// Compose a bounded body from ordered text snippets: about half of
/// `max_chars` bytes from the head, about half from the tail, joined by an
/// ellipsis when both are present.
pub fn head_tail_texts(texts: &[String], max_chars: usize) -> (r: String)
    ensures
        r@ == head_tail(strs(texts@), max_chars as nat),
{
    if texts.len() == 0 {
        return String::new();
    }
    let half = max_chars / 2;
    let head = head_exec(texts, half);
    let tail = tail_exec(texts, half);
    let hb = blen_exec(&head);
    let tb = blen_exec(&tail);
    let mut joined = head.clone();
    append_str(&mut joined, "\n...\n");
    proof {
        reveal_strlit("\n...\n");
    }
    append_chars(&mut joined, &tail);
    assert(joined@ =~= head@ + ellipsis_line() + tail@);
    if hb + tb <= max_chars as u128 {
        let th = trim_chars(&head);
        let tt = trim_chars(&tail);
        if eq_chars(&tt, &th) || tail.len() == 0 {
            string_of(&head)
        } else {
            string_of(&joined)
        }
    } else {
        string_of(&joined)
    }
}


// ── session text ────────────────────────────────────────────────────────────
/// The trimmed texts that are not empty, in order.
pub open spec fn cleaned(ts: Seq<Seq<char>>) -> Seq<Seq<char>>
    decreases ts.len(),
{
    if ts.len() == 0 {
        Seq::empty()
    } else {
        let c = cleaned(ts.drop_last());
        let t = trimmed(ts.last());
        if t.len() > 0 {
            c.push(t)
        } else {
            c
        }
    }
}

/// Keep the trimmed, non-empty texts.
pub fn clean_texts(texts: &[String]) -> (r: Vec<String>)
    ensures
        strs(r@) == cleaned(strs(texts@)),
{
    let ghost ts = strs(texts@);
    let mut r: Vec<String> = Vec::new();
    assert(ts.take(0) =~= Seq::<Seq<char>>::empty());
    assert(strs(r@) =~= Seq::<Seq<char>>::empty());
    for i in 0..texts.len()
        invariant
            ts == strs(texts@),
            strs(r@) == cleaned(ts.take(i as int)),
    {
        assert(ts.take(i + 1).drop_last() =~= ts.take(i as int));
        assert(ts.take(i + 1).last() == texts@[i as int]@);
        let t = trim_chars(&chars_of(texts[i].as_str()));
        if t.len() > 0 {
            let ghost r0 = strs(r@);
            r.push(string_of(&t));
            assert(strs(r@) =~= r0.push(t@));
        }
    }
    assert(ts.take(texts.len() as int) =~= ts);
    r
}

pub const SESSION_ID_TITLE_BYTES: usize = 16;

pub const FIRST_MESSAGE_CHARS: usize = 200;

/// "Session: <title>", or the first 16 bytes of the id when there is no
/// title.
pub open spec fn title_line(id: Seq<char>, title: Seq<char>) -> Seq<char> {
    "Session: "@ + if title.len() == 0 {
        byte_prefix(id, SESSION_ID_TITLE_BYTES as nat)
    } else {
        title
    }
}

pub open spec fn opt_line(show: bool, line: Seq<char>) -> Seq<char> {
    if show {
        line
    } else {
        Seq::empty()
    }
}

/// The drawer text of a session: title, date, then, when present, the
/// directory, the tools used, the first user message (200 characters at
/// most), the message/part counts, and a bounded body of assistant text.
pub open spec fn session_text(
    id: Seq<char>,
    title: Seq<char>,
    updated_at_ms: int,
    directory: Seq<char>,
    tools: Seq<Seq<char>>,
    first_user: Option<Seq<char>>,
    counts: (int, int),
    texts: Seq<Seq<char>>,
    max: nat,
) -> Seq<char> {
    let first = match first_user {
        Some(u) => trimmed(u),
        None => Seq::empty(),
    };
    let body = head_tail(texts, max);
    title_line(id, title) + "\nDate: "@ + millis_text(updated_at_ms) + opt_line(
        directory.len() > 0,
        "\nDirectory: "@ + directory,
    ) + opt_line(tools.len() > 0, "\nUsed tools: "@ + join(tools, ", "@)) + opt_line(
        first.len() > 0,
        "\nFirst message: "@ + prefix(first, FIRST_MESSAGE_CHARS as int),
    ) + opt_line(
        counts != (0int, 0int),
        "\nMessages: "@ + padded(counts.0, 0) + ", Parts: "@ + padded(counts.1, 0),
    ) + opt_line(body.len() > 0, "\n"@ + body)
}

/// The drawer text of a session whose first user message is not blank
/// holds the line "First message: " with (the start of) that message.
pub proof fn law_session_text_first_message(
    id: Seq<char>,
    title: Seq<char>,
    updated_at_ms: int,
    directory: Seq<char>,
    tools: Seq<Seq<char>>,
    u: Seq<char>,
    counts: (int, int),
    texts: Seq<Seq<char>>,
    max: nat,
)
    requires
        trimmed(u).len() > 0,
    ensures
        crate::text::contains(
            session_text(id, title, updated_at_ms, directory, tools, Some(u), counts, texts, max),
            "\nFirst message: "@ + prefix(trimmed(u), FIRST_MESSAGE_CHARS as int),
        ),
{
    let line = "\nFirst message: "@ + prefix(trimmed(u), FIRST_MESSAGE_CHARS as int);
    let a = title_line(id, title) + "\nDate: "@ + crate::timefmt::millis_text(updated_at_ms)
        + opt_line(directory.len() > 0, "\nDirectory: "@ + directory) + opt_line(
        tools.len() > 0,
        "\nUsed tools: "@ + join(tools, ", "@),
    );
    let b = opt_line(
        counts != (0int, 0int),
        "\nMessages: "@ + crate::fmt::padded(counts.0, 0) + ", Parts: "@ + crate::fmt::padded(
            counts.1,
            0,
        ),
    ) + opt_line(head_tail(texts, max).len() > 0, "\n"@ + head_tail(texts, max));
    let full = session_text(id, title, updated_at_ms, directory, tools, Some(u), counts, texts, max);
    assert(full =~= a + line + b);
    assert(full.subrange(a.len() as int, (a.len() + line.len()) as int) =~= line);
    assert(crate::text::occurs_at(full, line, a.len() as int));
}

/// Append `label` and `value` when `show` holds.
fn push_opt_line(c: &mut Vec<char>, show: bool, label: &str, value: &[char])
    ensures
        final(c)@ == old(c)@ + opt_line(show, label@ + value@),
{
    let ghost c0 = c@;
    if show {
        append_str(c, label);
        append_chars(c, value);
        assert(c@ =~= c0 + (label@ + value@));
    } else {
        assert(c@ =~= c0 + Seq::<char>::empty());
    }
}

/// "Session: <title or id prefix>\nDate: <date>".
fn title_date_chars(id: &str, title: &str, updated_at_ms: i64) -> (c: Vec<char>)
    requires
        title@.len() == 0 ==> byte_cut_ok(id@, SESSION_ID_TITLE_BYTES as nat),
    ensures
        c@ == title_line(id@, title@) + "\nDate: "@ + millis_text(updated_at_ms as int),
{
    let mut c: Vec<char> = Vec::new();
    append_str(&mut c, "Session: ");
    let tv = chars_of(title);
    if tv.len() == 0 {
        let iv = chars_of(id);
        append_chars(&mut c, &byte_prefix_chars(&iv, SESSION_ID_TITLE_BYTES));
    } else {
        append_chars(&mut c, &tv);
    }
    append_str(&mut c, "\nDate: ");
    append_str(&mut c, millis_to_dt(updated_at_ms).as_str());
    c
}

/// The tool names joined by ", ".
fn joined_tools(tools: &[String]) -> (r: Vec<char>)
    ensures
        r@ == join(strs(tools@), ", "@),
{
    let mut names: Vec<Vec<char>> = Vec::new();
    for i in 0..tools.len()
        invariant
            names@.len() == i,
            forall|j: int| 0 <= j < i ==> names@[j]@ == tools@[j]@,
    {
        names.push(chars_of(tools[i].as_str()));
    }
    assert(views(names@) =~= strs(tools@));
    let sep = chars_of(", ");
    join_chars(&names, &sep)
}

/// "<messages>, Parts: <parts>".
fn counts_chars(counts: (i64, i64)) -> (r: Vec<char>)
    ensures
        r@ == padded(counts.0 as int, 0) + ", Parts: "@ + padded(counts.1 as int, 0),
{
    let mut r = padded_i64(counts.0, 0);
    append_str(&mut r, ", Parts: ");
    append_chars(&mut r, &padded_i64(counts.1, 0));
    r
}

/// Compose the drawer text of a session (see `session_text`).
pub fn session_content(
    id: &str,
    title: &str,
    updated_at_ms: i64,
    directory: &str,
    tools: &[String],
    first_user: Option<&str>,
    counts: (i64, i64),
    texts: &[String],
    max_chars: usize,
) -> (r: String)
    requires
        title@.len() == 0 ==> byte_cut_ok(id@, SESSION_ID_TITLE_BYTES as nat),
    ensures
        r@ == session_text(
            id@,
            title@,
            updated_at_ms as int,
            directory@,
            strs(tools@),
            match first_user {
                Some(u) => Some(u@),
                None => None,
            },
            (counts.0 as int, counts.1 as int),
            strs(texts@),
            max_chars as nat,
        ),
{
    let mut c = title_date_chars(id, title, updated_at_ms);
    let dv = chars_of(directory);
    push_opt_line(&mut c, dv.len() > 0, "\nDirectory: ", &dv);
    let tv = joined_tools(tools);
    push_opt_line(&mut c, tools.len() > 0, "\nUsed tools: ", &tv);
    let first: Vec<char> = match first_user {
        Some(u) => trim_chars(&chars_of(u)),
        None => Vec::new(),
    };
    let fv = take_chars(&first, FIRST_MESSAGE_CHARS);
    push_opt_line(&mut c, first.len() > 0, "\nFirst message: ", &fv);
    let cv = counts_chars(counts);
    push_opt_line(&mut c, !(counts.0 == 0 && counts.1 == 0), "\nMessages: ", &cv);
    let body = chars_of(head_tail_texts(texts, max_chars).as_str());
    push_opt_line(&mut c, body.len() > 0, "\n", &body);
    proof {
        let ghost cs: (int, int) = (counts.0 as int, counts.1 as int);
        assert((cs != (0int, 0int)) == !(counts.0 == 0 && counts.1 == 0));
        assert("\nMessages: "@ + cv@ =~= "\nMessages: "@ + padded(counts.0 as int, 0) + ", Parts: "@
            + padded(counts.1 as int, 0));
    }
    string_of(&c)
}

} // verus!
