//! Character-level building blocks shared by every module: conversions between
//! `str`/`String` and character vectors, Unicode whitespace, trimming, ASCII
//! case folding, and substring search.
use vstd::prelude::*;

verus! {

// ── character classes ───────────────────────────────────────────────────────
/// The Unicode `White_Space` property (what `char::is_whitespace` tests).
pub open spec fn is_ws(c: char) -> bool {
    let u = c as u32;
    ||| 0x09 <= u <= 0x0D
    ||| u == 0x20 || u == 0x85 || u == 0xA0 || u == 0x1680
    ||| 0x2000 <= u <= 0x200A
    ||| u == 0x2028 || u == 0x2029 || u == 0x202F || u == 0x205F || u == 0x3000
}

/// General category `Cc` (what `char::is_control` tests).
pub open spec fn is_control(c: char) -> bool {
    let u = c as u32;
    u <= 0x1F || (0x7F <= u <= 0x9F)
}

pub open spec fn is_digit(c: char) -> bool {
    '0' <= c <= '9'
}

pub open spec fn is_upper(c: char) -> bool {
    'A' <= c <= 'Z'
}

pub open spec fn is_lower(c: char) -> bool {
    'a' <= c <= 'z'
}

pub open spec fn is_alnum(c: char) -> bool {
    is_digit(c) || is_upper(c) || is_lower(c)
}

/// ASCII lower-casing of one character (`char::to_ascii_lowercase`).
pub open spec fn lower(c: char) -> char {
    if is_upper(c) {
        ((c as u32) + 32) as char
    } else {
        c
    }
}

pub open spec fn lower_seq(s: Seq<char>) -> Seq<char> {
    s.map_values(|c: char| lower(c))
}

pub fn is_ws_exec(c: char) -> (b: bool)
    ensures
        b == is_ws(c),
{
    let u = c as u32;
    (0x09 <= u && u <= 0x0D) || u == 0x20 || u == 0x85 || u == 0xA0 || u == 0x1680 || (0x2000
        <= u && u <= 0x200A) || u == 0x2028 || u == 0x2029 || u == 0x202F || u == 0x205F || u
        == 0x3000
}

pub fn is_control_exec(c: char) -> (b: bool)
    ensures
        b == is_control(c),
{
    let u = c as u32;
    u <= 0x1F || (0x7F <= u && u <= 0x9F)
}

pub fn lower_exec(c: char) -> (r: char)
    ensures
        r == lower(c),
{
    if 'A' <= c && c <= 'Z' {
        ((c as u8) + 32) as char
    } else {
        c
    }
}

pub fn lower_chars(v: &[char]) -> (r: Vec<char>)
    ensures
        r@ == lower_seq(v@),
{
    let mut r: Vec<char> = Vec::new();
    for i in 0..v.len()
        invariant
            r@ == lower_seq(v@.take(i as int)),
    {
        r.push(lower_exec(v[i]));
        assert(lower_seq(v@.take(i + 1)) =~= lower_seq(v@.take(i as int)).push(lower(v@[i as int])));
    }
    assert(v@.take(v.len() as int) =~= v@);
    r
}

// ── conversions ─────────────────────────────────────────────────────────────
pub fn chars_of(s: &str) -> (v: Vec<char>)
    ensures
        v@ == s@,
{
    let mut v: Vec<char> = Vec::new();
    for c in it: s.chars()
        invariant
            v@ == it.seq().take(it.index() as int),
            it.seq() == s@,
    {
        v.push(c);
    }
    v
}

/// `String::push`.
#[verifier::external_body]
fn push_char(s: &mut String, c: char)
    ensures
        final(s)@ == old(s)@.push(c),
{
    s.push(c);
}

pub fn string_of(v: &[char]) -> (s: String)
    ensures
        s@ == v@,
{
    let mut s = String::new();
    for i in 0..v.len()
        invariant
            s@ == v@.take(i as int),
    {
        push_char(&mut s, v[i]);
        assert(v@.take(i + 1) =~= v@.take(i as int).push(v@[i as int]));
    }
    assert(v@.take(v.len() as int) =~= v@);
    s
}

pub fn append_chars(dst: &mut Vec<char>, src: &[char])
    ensures
        final(dst)@ == old(dst)@ + src@,
{
    let ghost start = dst@;
    for i in 0..src.len()
        invariant
            dst@ == start + src@.take(i as int),
    {
        dst.push(src[i]);
        assert(src@.take(i + 1) =~= src@.take(i as int).push(src@[i as int]));
        assert(start + src@.take(i + 1) =~= (start + src@.take(i as int)).push(src@[i as int]));
    }
    assert(src@.take(src.len() as int) =~= src@);
}

pub fn append_str(dst: &mut Vec<char>, src: &str)
    ensures
        final(dst)@ == old(dst)@ + src@,
{
    let v = chars_of(src);
    append_chars(dst, &v);
}

pub fn sub_chars(v: &[char], a: usize, b: usize) -> (r: Vec<char>)
    requires
        a <= b <= v.len(),
    ensures
        r@ == v@.subrange(a as int, b as int),
{
    let mut r: Vec<char> = Vec::new();
    let mut i = a;
    while i < b
        invariant
            a <= i <= b <= v.len(),
            r@ == v@.subrange(a as int, i as int),
        decreases b - i,
    {
        r.push(v[i]);
        assert(v@.subrange(a as int, i + 1) =~= v@.subrange(a as int, i as int).push(v@[i as int]));
        i = i + 1;
    }
    r
}

pub fn eq_chars(a: &[char], b: &[char]) -> (r: bool)
    ensures
        r == (a@ == b@),
{
    if a.len() != b.len() {
        return false;
    }
    for i in 0..a.len()
        invariant
            a.len() == b.len(),
            forall|j: int| 0 <= j < i ==> a@[j] == b@[j],
    {
        if a[i] != b[i] {
            return false;
        }
    }
    assert(a@ =~= b@);
    true
}

pub fn eq_str(a: &[char], lit: &str) -> (r: bool)
    ensures
        r == (a@ == lit@),
{
    let b = chars_of(lit);
    eq_chars(a, &b)
}

// ── prefixes and trimming ───────────────────────────────────────────────────
/// The first `n` characters of `s`, or all of it when it is shorter
/// (`s.chars().take(n)`).
pub open spec fn prefix(s: Seq<char>, n: int) -> Seq<char> {
    if n < s.len() {
        s.take(n)
    } else {
        s
    }
}

pub fn take_chars(v: &[char], n: usize) -> (r: Vec<char>)
    ensures
        r@ == prefix(v@, n as int),
{
    if n < v.len() {
        sub_chars(v, 0, n)
    } else {
        let r = sub_chars(v, 0, v.len());
        assert(v@.subrange(0, v.len() as int) =~= v@);
        r
    }
}

pub open spec fn trim_start(s: Seq<char>) -> Seq<char>
    decreases s.len(),
{
    if s.len() > 0 && is_ws(s[0]) {
        trim_start(s.drop_first())
    } else {
        s
    }
}

pub open spec fn trim_end(s: Seq<char>) -> Seq<char>
    decreases s.len(),
{
    if s.len() > 0 && is_ws(s.last()) {
        trim_end(s.drop_last())
    } else {
        s
    }
}

/// `str::trim`: leading and trailing whitespace removed.
pub open spec fn trimmed(s: Seq<char>) -> Seq<char> {
    trim_end(trim_start(s))
}

pub proof fn lemma_trim_start_idempotent(s: Seq<char>)
    ensures
        trim_start(trim_start(s)) == trim_start(s),
        trim_start(s).len() == 0 || !is_ws(trim_start(s)[0]),
    decreases s.len(),
{
    if s.len() > 0 && is_ws(s[0]) {
        lemma_trim_start_idempotent(s.drop_first());
    }
}

pub proof fn lemma_trim_end_keeps_start(s: Seq<char>)
    requires
        s.len() == 0 || !is_ws(s[0]),
    ensures
        trim_start(trim_end(s)) == trim_end(s),
        trim_end(trim_end(s)) == trim_end(s),
        trim_end(s).len() == 0 || !is_ws(trim_end(s).last()),
    decreases s.len(),
{
    if s.len() > 0 && is_ws(s.last()) {
        if s.len() > 1 {
            assert(s.drop_last()[0] == s[0]);
        }
        lemma_trim_end_keeps_start(s.drop_last());
    }
}

/// Trimming an already trimmed string changes nothing.
pub proof fn lemma_trimmed_idempotent(s: Seq<char>)
    ensures
        trimmed(trimmed(s)) == trimmed(s),
{
    lemma_trim_start_idempotent(s);
    lemma_trim_end_keeps_start(trim_start(s));
}

pub fn trim_chars(v: &[char]) -> (r: Vec<char>)
    ensures
        r@ == trimmed(v@),
{
    let n = v.len();
    let mut a: usize = 0;
    assert(v@.subrange(0, n as int) =~= v@);
    while a < n && is_ws_exec(v[a])
        invariant
            a <= n == v.len(),
            trim_start(v@) == trim_start(v@.subrange(a as int, n as int)),
        decreases n - a,
    {
        assert(v@.subrange(a as int, n as int).drop_first() =~= v@.subrange(a + 1, n as int));
        a = a + 1;
    }
    assert(trim_start(v@.subrange(a as int, n as int)) == v@.subrange(a as int, n as int));
    let mut b: usize = n;
    while b > a && is_ws_exec(v[b - 1])
        invariant
            a <= b <= n == v.len(),
            trimmed(v@) == trim_end(v@.subrange(a as int, b as int)),
        decreases b,
    {
        assert(v@.subrange(a as int, b as int).drop_last() =~= v@.subrange(a as int, b - 1));
        b = b - 1;
    }
    sub_chars(v, a, b)
}

// ── substring search ────────────────────────────────────────────────────────
pub open spec fn occurs_at(s: Seq<char>, p: Seq<char>, i: int) -> bool {
    0 <= i && i + p.len() <= s.len() && s.subrange(i, i + p.len()) == p
}

pub open spec fn contains(s: Seq<char>, p: Seq<char>) -> bool {
    exists|i: int| occurs_at(s, p, i)
}

pub open spec fn starts_with(s: Seq<char>, p: Seq<char>) -> bool {
    occurs_at(s, p, 0)
}

pub open spec fn contains_char(s: Seq<char>, c: char) -> bool {
    exists|i: int| 0 <= i < s.len() && s[i] == c
}

pub fn matches_at(v: &[char], p: &[char], i: usize) -> (r: bool)
    ensures
        r == occurs_at(v@, p@, i as int),
{
    if i > v.len() || p.len() > v.len() - i {
        return false;
    }
    for j in 0..p.len()
        invariant
            i + p.len() <= v.len(),
            forall|k: int| 0 <= k < j ==> v@[i + k] == p@[k],
    {
        if v[i + j] != p[j] {
            assert(v@.subrange(i as int, i + p.len())[j as int] != p@[j as int]);
            return false;
        }
    }
    assert(v@.subrange(i as int, i + p.len()) =~= p@);
    true
}

/// First occurrence of `p` in `v` at or after `from`.
pub fn find_from(v: &[char], p: &[char], from: usize) -> (r: Option<usize>)
    ensures
        match r {
            Some(i) => from <= i && occurs_at(v@, p@, i as int) && forall|j: int|
                from <= j < i ==> !occurs_at(v@, p@, j),
            None => forall|j: int| from <= j ==> !occurs_at(v@, p@, j),
        },
{
    let mut i = from;
    while i < v.len()
        invariant
            from <= i,
            forall|j: int| from <= j < i ==> !occurs_at(v@, p@, j),
        decreases v.len() - i,
    {
        if matches_at(v, p, i) {
            return Some(i);
        }
        i = i + 1;
    }
    if i == v.len() && matches_at(v, p, i) {
        return Some(i);
    }
    None
}

pub fn contains_chars(v: &[char], p: &[char]) -> (r: bool)
    ensures
        r == contains(v@, p@),
{
    match find_from(v, p, 0) {
        Some(i) => true,
        None => {
            assert forall|j: int| !occurs_at(v@, p@, j) by {
                if j < 0 {
                }
            }
            false
        },
    }
}

pub fn contains_str(v: &[char], lit: &str) -> (r: bool)
    ensures
        r == contains(v@, lit@),
{
    let p = chars_of(lit);
    contains_chars(v, &p)
}

pub fn has_char(v: &[char], c: char) -> (r: bool)
    ensures
        r == contains_char(v@, c),
{
    for i in 0..v.len()
        invariant
            forall|j: int| 0 <= j < i ==> v@[j] != c,
    {
        if v[i] == c {
            return true;
        }
    }
    false
}

pub fn starts_with_str(v: &[char], lit: &str) -> (r: bool)
    ensures
        r == starts_with(v@, lit@),
{
    let p = chars_of(lit);
    matches_at(v, &p, 0)
}


// ── lines, joins ────────────────────────────────────────────────────────────
/// The texts of a list of strings.
pub open spec fn strs(v: Seq<String>) -> Seq<Seq<char>> {
    v.map_values(|x: String| x@)
}

pub open spec fn views(v: Seq<Vec<char>>) -> Seq<Seq<char>> {
    v.map_values(|x: Vec<char>| x@)
}

pub open spec fn strip_cr(s: Seq<char>) -> Seq<char> {
    if s.len() > 0 && s.last() == '\r' {
        s.drop_last()
    } else {
        s
    }
}

/// Lines completed so far and the line in progress, after reading `s`.
pub open spec fn line_scan(s: Seq<char>) -> (Seq<Seq<char>>, Seq<char>)
    decreases s.len(),
{
    if s.len() == 0 {
        (Seq::empty(), Seq::empty())
    } else {
        let (done, cur) = line_scan(s.drop_last());
        if s.last() == '\n' {
            (done.push(strip_cr(cur)), Seq::empty())
        } else {
            (done, cur.push(s.last()))
        }
    }
}

/// `str::lines`: split at `\n` (a `\r` before it is dropped too); a final
/// line ending adds no empty line.
pub open spec fn lines(s: Seq<char>) -> Seq<Seq<char>> {
    let (done, cur) = line_scan(s);
    if cur.len() > 0 {
        done.push(cur)
    } else {
        done
    }
}

pub fn lines_of(v: &[char]) -> (r: Vec<Vec<char>>)
    ensures
        views(r@) == lines(v@),
{
    let mut done: Vec<Vec<char>> = Vec::new();
    let mut cur: Vec<char> = Vec::new();
    assert(v@.take(0) =~= Seq::<char>::empty());
    assert(views(done@) =~= Seq::<Seq<char>>::empty());
    for i in 0..v.len()
        invariant
            (views(done@), cur@) == line_scan(v@.take(i as int)),
    {
        let c = v[i];
        let ghost d0 = views(done@);
        let ghost c0 = cur@;
        assert(v@.take(i + 1).drop_last() =~= v@.take(i as int));
        assert(v@.take(i + 1).last() == c);
        if c == '\n' {
            if cur.len() > 0 && cur[cur.len() - 1] == '\r' {
                cur.pop();
            }
            assert(cur@ == strip_cr(c0));
            done.push(cur);
            cur = Vec::new();
            assert(views(done@) =~= d0.push(strip_cr(c0)));
        } else {
            cur.push(c);
        }
    }
    assert(v@.take(v.len() as int) =~= v@);
    if cur.len() > 0 {
        let ghost d0 = views(done@);
        let ghost c0 = cur@;
        done.push(cur);
        assert(views(done@) =~= d0.push(c0));
    }
    done
}

/// Words completed so far and the word in progress, after reading `s`.
pub open spec fn word_scan(s: Seq<char>) -> (Seq<Seq<char>>, Seq<char>)
    decreases s.len(),
{
    if s.len() == 0 {
        (Seq::empty(), Seq::empty())
    } else {
        let (done, cur) = word_scan(s.drop_last());
        if is_ws(s.last()) {
            if cur.len() > 0 {
                (done.push(cur), Seq::empty())
            } else {
                (done, cur)
            }
        } else {
            (done, cur.push(s.last()))
        }
    }
}

/// `str::split_whitespace`: the maximal runs of non-whitespace characters.
pub open spec fn words(s: Seq<char>) -> Seq<Seq<char>> {
    let (done, cur) = word_scan(s);
    if cur.len() > 0 {
        done.push(cur)
    } else {
        done
    }
}

/// One step of `word_scan`: read character `c` in state `st`.
pub open spec fn word_step(st: (Seq<Seq<char>>, Seq<char>), c: char) -> (Seq<Seq<char>>, Seq<char>) {
    if is_ws(c) {
        if st.1.len() > 0 {
            (st.0.push(st.1), Seq::empty())
        } else {
            st
        }
    } else {
        (st.0, st.1.push(c))
    }
}

/// `word_scan` continued from state `st` over `y`.
pub open spec fn scan_from(st: (Seq<Seq<char>>, Seq<char>), y: Seq<char>) -> (Seq<Seq<char>>, Seq<char>)
    decreases y.len(),
{
    if y.len() == 0 {
        st
    } else {
        word_step(scan_from(st, y.drop_last()), y.last())
    }
}

proof fn lemma_scan_concat(x: Seq<char>, y: Seq<char>)
    ensures
        word_scan(x + y) == scan_from(word_scan(x), y),
    decreases y.len(),
{
    if y.len() == 0 {
        assert(x + y =~= x);
    } else {
        assert((x + y).drop_last() =~= x + y.drop_last());
        assert((x + y).last() == y.last());
        lemma_scan_concat(x, y.drop_last());
    }
}

proof fn lemma_scan_from_fresh(d: Seq<Seq<char>>, y: Seq<char>)
    ensures
        scan_from((d, Seq::empty()), y) == (d + word_scan(y).0, word_scan(y).1),
    decreases y.len(),
{
    if y.len() == 0 {
        assert(d + Seq::<Seq<char>>::empty() =~= d);
    } else {
        lemma_scan_from_fresh(d, y.drop_last());
        let (done, cur) = word_scan(y.drop_last());
        assert((d + done).push(cur) =~= d + done.push(cur));
    }
}

/// The words of two texts joined by a space are the words of the first
/// followed by the words of the second.
pub proof fn lemma_words_join(a: Seq<char>, b: Seq<char>)
    ensures
        words(a + seq![' '] + b) == words(a) + words(b),
{
    let a1 = a + seq![' '];
    assert(a1.drop_last() =~= a);
    assert(is_ws(' '));
    assert(word_scan(a1) == (words(a), Seq::<char>::empty()));
    lemma_scan_concat(a1, b);
    lemma_scan_from_fresh(words(a), b);
    let (done, cur) = word_scan(b);
    assert((words(a) + done).push(cur) =~= words(a) + done.push(cur));
}

pub fn words_of(v: &[char]) -> (r: Vec<Vec<char>>)
    ensures
        views(r@) == words(v@),
{
    let mut done: Vec<Vec<char>> = Vec::new();
    let mut cur: Vec<char> = Vec::new();
    assert(v@.take(0) =~= Seq::<char>::empty());
    assert(views(done@) =~= Seq::<Seq<char>>::empty());
    for i in 0..v.len()
        invariant
            (views(done@), cur@) == word_scan(v@.take(i as int)),
    {
        let c = v[i];
        let ghost d0 = views(done@);
        let ghost c0 = cur@;
        assert(v@.take(i + 1).drop_last() =~= v@.take(i as int));
        assert(v@.take(i + 1).last() == c);
        if is_ws_exec(c) {
            if cur.len() > 0 {
                done.push(cur);
                cur = Vec::new();
                assert(views(done@) =~= d0.push(c0));
            }
        } else {
            cur.push(c);
        }
    }
    assert(v@.take(v.len() as int) =~= v@);
    if cur.len() > 0 {
        let ghost d0 = views(done@);
        let ghost c0 = cur@;
        done.push(cur);
        assert(views(done@) =~= d0.push(c0));
    }
    done
}

/// The parts with `sep` between consecutive ones (`[&str]::join`).
pub open spec fn join(parts: Seq<Seq<char>>, sep: Seq<char>) -> Seq<char>
    decreases parts.len(),
{
    if parts.len() == 0 {
        Seq::empty()
    } else if parts.len() == 1 {
        parts[0]
    } else {
        join(parts.drop_last(), sep) + sep + parts.last()
    }
}

pub fn join_chars(parts: &Vec<Vec<char>>, sep: &[char]) -> (r: Vec<char>)
    ensures
        r@ == join(views(parts@), sep@),
{
    let mut r: Vec<char> = Vec::new();
    let ghost ps = views(parts@);
    assert(ps.take(0) =~= Seq::<Seq<char>>::empty());
    for i in 0..parts.len()
        invariant
            ps == views(parts@),
            r@ == join(ps.take(i as int), sep@),
    {
        assert(ps.take(i + 1).drop_last() =~= ps.take(i as int));
        assert(ps.take(i + 1).last() == parts@[i as int]@);
        if i > 0 {
            append_chars(&mut r, sep);
        } else {
            assert(ps.take(1)[0] == parts@[0]@);
        }
        append_chars(&mut r, &parts[i]);
    }
    assert(ps.take(parts.len() as int) =~= ps);
    r
}

// ── lexicographic order ─────────────────────────────────────────────────────
/// Lexicographic order by code point; for UTF-8 strings this is the order
/// of `str`'s `Ord` (byte order).
pub open spec fn lex_lt(a: Seq<char>, b: Seq<char>) -> bool
    decreases a.len(),
{
    if a.len() == 0 {
        b.len() > 0
    } else if b.len() == 0 {
        false
    } else if a[0] != b[0] {
        a[0] < b[0]
    } else {
        lex_lt(a.drop_first(), b.drop_first())
    }
}

pub proof fn lemma_lex_transitive(a: Seq<char>, b: Seq<char>, c: Seq<char>)
    requires
        lex_lt(a, b),
        lex_lt(b, c),
    ensures
        lex_lt(a, c),
    decreases a.len(),
{
    if a.len() > 0 && b.len() > 0 && c.len() > 0 && a[0] == b[0] && b[0] == c[0] {
        lemma_lex_transitive(a.drop_first(), b.drop_first(), c.drop_first());
    }
}

pub proof fn lemma_lex_irreflexive(a: Seq<char>)
    ensures
        !lex_lt(a, a),
    decreases a.len(),
{
    if a.len() > 0 {
        lemma_lex_irreflexive(a.drop_first());
    }
}

pub proof fn lemma_lex_total(a: Seq<char>, b: Seq<char>)
    ensures
        a == b || lex_lt(a, b) || lex_lt(b, a),
    decreases a.len(),
{
    if a.len() > 0 && b.len() > 0 && a[0] == b[0] {
        lemma_lex_total(a.drop_first(), b.drop_first());
        if a.drop_first() == b.drop_first() {
            assert(a =~= seq![a[0]] + a.drop_first());
            assert(b =~= seq![b[0]] + b.drop_first());
        }
    } else if a.len() == 0 && b.len() == 0 {
        assert(a =~= b);
    }
}

pub fn lex_less(a: &[char], b: &[char]) -> (r: bool)
    ensures
        r == lex_lt(a@, b@),
{
    let mut i: usize = 0;
    assert(a@.skip(0) =~= a@);
    assert(b@.skip(0) =~= b@);
    while i < a.len() && i < b.len() && a[i] == b[i]
        invariant
            i <= a.len(),
            i <= b.len(),
            lex_lt(a@, b@) == lex_lt(a@.skip(i as int), b@.skip(i as int)),
        decreases a.len() - i,
    {
        assert(a@.skip(i as int).drop_first() =~= a@.skip(i + 1));
        assert(b@.skip(i as int).drop_first() =~= b@.skip(i + 1));
        i = i + 1;
    }
    if i == a.len() {
        i < b.len()
    } else if i == b.len() {
        false
    } else {
        a[i] < b[i]
    }
}

// ── splitting on one character ──────────────────────────────────────────────
/// `str::split(c)`: the pieces between occurrences of `c`, empty pieces
/// included; there is always at least one piece.
pub open spec fn pieces(s: Seq<char>, c: char) -> Seq<Seq<char>>
    decreases s.len(),
{
    if s.len() == 0 {
        seq![Seq::<char>::empty()]
    } else {
        let p = pieces(s.drop_last(), c);
        if s.last() == c {
            p.push(Seq::<char>::empty())
        } else {
            p.update(p.len() - 1, p.last().push(s.last()))
        }
    }
}

pub fn split_char(v: &[char], c: char) -> (parts: Vec<Vec<char>>)
    ensures
        views(parts@) == pieces(v@, c),
{
    let mut done: Vec<Vec<char>> = Vec::new();
    let mut cur: Vec<char> = Vec::new();
    assert(v@.take(0) =~= Seq::<char>::empty());
    assert(views(done@).push(cur@) =~= seq![Seq::<char>::empty()]);
    for i in 0..v.len()
        invariant
            views(done@).push(cur@) == pieces(v@.take(i as int), c),
    {
        let x = v[i];
        let ghost prev = views(done@).push(cur@);
        assert(v@.take(i + 1).drop_last() =~= v@.take(i as int));
        assert(v@.take(i + 1).last() == x);
        if x == c {
            done.push(cur);
            cur = Vec::new();
            assert(views(done@).push(cur@) =~= prev.push(Seq::<char>::empty()));
        } else {
            cur.push(x);
            assert(views(done@).push(cur@) =~= prev.update(prev.len() - 1, prev.last().push(x)));
        }
    }
    assert(v@.take(v.len() as int) =~= v@);
    done.push(cur);
    done
}

/// Index of the first `c` in `s`.
pub open spec fn first_index(s: Seq<char>, c: char) -> Option<int> {
    if contains_char(s, c) {
        Some(choose|i: int| 0 <= i < s.len() && s[i] == c && forall|j: int| 0 <= j < i ==> s[j] != c)
    } else {
        None
    }
}

pub fn find_char(v: &[char], c: char) -> (r: Option<usize>)
    ensures
        match r {
            Some(i) => first_index(v@, c) == Some(i as int) && i < v.len() && v@[i as int] == c
                && forall|j: int| 0 <= j < i ==> v@[j] != c,
            None => first_index(v@, c) is None,
        },
{
    for i in 0..v.len()
        invariant
            forall|j: int| 0 <= j < i ==> v@[j] != c,
    {
        if v[i] == c {
            let ghost k = choose|k: int| 0 <= k < v@.len() && v@[k] == c && forall|j: int| 0 <= j < k ==> v@[j] != c;
            assert(0 <= i < v@.len() && v@[i as int] == c && forall|j: int| 0 <= j < i ==> v@[j] != c);
            assert(k == i) by {
                if k < i {
                    assert(v@[k] != c);
                }
                if k > i {
                    assert(v@[i as int] != c);
                }
            }
            return Some(i);
        }
    }
    None
}

// ── UTF-8 byte lengths ──────────────────────────────────────────────────────
/// Number of bytes in the UTF-8 encoding of `c` (`char::len_utf8`).
pub open spec fn char_width(c: char) -> nat {
    let u = c as u32;
    if u < 0x80 {
        1
    } else if u < 0x800 {
        2
    } else if u < 0x10000 {
        3
    } else {
        4
    }
}

/// Number of bytes in the UTF-8 encoding of `s` (what `str::len` returns).
pub open spec fn blen(s: Seq<char>) -> nat
    decreases s.len(),
{
    if s.len() == 0 {
        0
    } else {
        blen(s.drop_last()) + char_width(s.last())
    }
}

/// Every character takes at least one byte.
pub proof fn lemma_len_le_blen(s: Seq<char>)
    ensures
        s.len() <= blen(s),
    decreases s.len(),
{
    if s.len() > 0 {
        lemma_len_le_blen(s.drop_last());
    }
}

pub proof fn lemma_blen_concat(a: Seq<char>, b: Seq<char>)
    ensures
        blen(a + b) == blen(a) + blen(b),
    decreases b.len(),
{
    if b.len() == 0 {
        assert(a + b =~= a);
    } else {
        assert((a + b).drop_last() =~= a + b.drop_last());
        lemma_blen_concat(a, b.drop_last());
    }
}

pub proof fn lemma_blen_first(s: Seq<char>)
    requires
        s.len() > 0,
    ensures
        blen(s) == char_width(s[0]) + blen(s.drop_first()),
{
    assert(s =~= seq![s[0]] + s.drop_first());
    lemma_blen_concat(seq![s[0]], s.drop_first());
    assert(seq![s[0]].drop_last() =~= Seq::<char>::empty());
    assert(blen(Seq::<char>::empty()) == 0);
    assert(blen(seq![s[0]]) == char_width(s[0]));
}

pub proof fn lemma_char_width_encoding(c: char)
    ensures
        vstd::utf8::encode_scalar(c as u32).len() == char_width(c),
{
    broadcast use vstd::utf8::char_is_scalar;
}

/// `blen` agrees with the length of the standard UTF-8 encoding.
pub proof fn lemma_blen_is_utf8_len(s: Seq<char>)
    ensures
        vstd::utf8::encode_utf8(s).len() == blen(s),
    decreases s.len(),
{
    if s.len() > 0 {
        lemma_blen_is_utf8_len(s.drop_first());
        lemma_blen_first(s);
        lemma_char_width_encoding(s[0]);
    }
}

pub fn blen_exec(v: &[char]) -> (n: u128)
    ensures
        n == blen(v@),
        n <= 4 * v@.len(),
{
    let mut n: u128 = 0;
    assert(v@.take(0) =~= Seq::<char>::empty());
    for i in 0..v.len()
        invariant
            n == blen(v@.take(i as int)),
            n <= 4 * i,
    {
        assert(v@.take(i + 1).drop_last() =~= v@.take(i as int));
        n = n + char_width_exec(v[i]) as u128;
    }
    assert(v@.take(v.len() as int) =~= v@);
    n
}

pub fn char_width_exec(c: char) -> (w: usize)
    ensures
        w == char_width(c),
{
    let u = c as u32;
    if u < 0x80 {
        1
    } else if u < 0x800 {
        2
    } else if u < 0x10000 {
        3
    } else {
        4
    }
}

/// `str::trim`: the documentation defines whitespace as the Unicode
/// `White_Space` property, which is `is_ws`.
pub assume_specification[ str::trim ](s: &str) -> (r: &str)
    ensures
        r@ == trimmed(s@),
;

} // verus!
