//! Hallways: the structural entities a drawer mentions (URLs, paths,
//! qualified identifiers, CamelCase names) and the pairs of them that occur
//! together in a wing.
use vstd::prelude::*;
use crate::text::{
    append_str, blen, blen_exec, chars_of, contains, contains_char, contains_str, eq_chars, eq_str,
    has_char, is_alnum, is_lower, is_upper, lemma_lex_irreflexive, lemma_lex_total,
    lemma_lex_transitive, lemma_words_join, lex_less, lex_lt,
    lower_chars, lower_seq, prefix, starts_with, starts_with_str, string_of, strs, sub_chars,
    take_chars, views, words, words_of,
};

verus! {

/// Short words that are never entities.
pub const ENTITY_STOP: [&'static str; 19] = [
    "a",
    "an",
    "the",
    "tmp",
    "and",
    "or",
    "for",
    "to",
    "of",
    "in",
    "on",
    "at",
    "by",
    "is",
    "it",
    "this",
    "that",
    "with",
    "from",
];

pub open spec fn is_stop_word(e: Seq<char>) -> bool {
    exists|i: int| 0 <= i < 19 && e == #[trigger] ENTITY_STOP[i]@
}

fn is_stop_word_exec(e: &[char]) -> (b: bool)
    ensures
        b == is_stop_word(e@),
{
    let mut i: usize = 0;
    while i < 19
        invariant
            i <= 19,
            forall|j: int| 0 <= j < i ==> e@ != #[trigger] ENTITY_STOP[j]@,
        decreases 19 - i,
    {
        if eq_str(e, ENTITY_STOP[i]) {
            return true;
        }
        i = i + 1;
    }
    false
}

// ── tokens ──────────────────────────────────────────────────────────────────
/// Punctuation trimmed off both ends of a token.
pub open spec fn is_punct(c: char) -> bool {
    c == ',' || c == '.' || c == ';' || c == ':' || c == ')' || c == '(' || c == '[' || c == ']'
        || c == '"' || c == '\''
}

pub open spec fn trim_punct_start(s: Seq<char>) -> Seq<char>
    decreases s.len(),
{
    if s.len() > 0 && is_punct(s[0]) {
        trim_punct_start(s.drop_first())
    } else {
        s
    }
}

pub open spec fn trim_punct_end(s: Seq<char>) -> Seq<char>
    decreases s.len(),
{
    if s.len() > 0 && is_punct(s.last()) {
        trim_punct_end(s.drop_last())
    } else {
        s
    }
}

pub open spec fn trim_punct(s: Seq<char>) -> Seq<char> {
    trim_punct_end(trim_punct_start(s))
}

fn is_punct_exec(c: char) -> (b: bool)
    ensures
        b == is_punct(c),
{
    c == ',' || c == '.' || c == ';' || c == ':' || c == ')' || c == '(' || c == '[' || c == ']'
        || c == '"' || c == '\''
}

fn trim_punct_chars(v: &[char]) -> (r: Vec<char>)
    ensures
        r@ == trim_punct(v@),
{
    let mut a: usize = 0;
    assert(v@.skip(0) =~= v@);
    while a < v.len() && is_punct_exec(v[a])
        invariant
            a <= v.len(),
            trim_punct_start(v@) == trim_punct_start(v@.skip(a as int)),
        decreases v.len() - a,
    {
        assert(v@.skip(a as int).drop_first() =~= v@.skip(a + 1));
        a = a + 1;
    }
    let mut b: usize = v.len();
    assert(v@.subrange(a as int, b as int) =~= v@.skip(a as int));
    while b > a && is_punct_exec(v[b - 1])
        invariant
            a <= b <= v.len(),
            trim_punct_start(v@) == v@.skip(a as int),
            trim_punct(v@) == trim_punct_end(v@.subrange(a as int, b as int)),
        decreases b,
    {
        assert(v@.subrange(a as int, b as int).drop_last() =~= v@.subrange(a as int, b - 1));
        b = b - 1;
    }
    sub_chars(v, a, b)
}

pub open spec fn any_upper(s: Seq<char>) -> bool {
    exists|i: int| 0 <= i < s.len() && is_upper(s[i])
}

pub open spec fn any_lower(s: Seq<char>) -> bool {
    exists|i: int| 0 <= i < s.len() && is_lower(s[i])
}

pub open spec fn all_alnum(s: Seq<char>) -> bool {
    forall|i: int| 0 <= i < s.len() ==> is_alnum(s[i])
}

/// A URL: starts with http:// or https://, in any case.
pub open spec fn is_url(t: Seq<char>) -> bool {
    starts_with(lower_seq(t), "http://"@) || starts_with(lower_seq(t), "https://"@)
}

/// A path: at least 4 bytes, and rooted, under src/ or ./, or holding both
/// a slash and a dot.
pub open spec fn looks_like_path_text(t: Seq<char>) -> bool {
    blen(t) >= 4 && (starts_with(t, "/"@) || starts_with(t, "src/"@) || starts_with(t, "./"@) || (
    contains_char(t, '/') && contains_char(t, '.')))
}

/// A qualified name: `a::b`, or dotted with a capital letter; 4 bytes at
/// least.
pub open spec fn looks_like_qualified_text(t: Seq<char>) -> bool {
    (contains(t, "::"@) || (contains_char(t, '.') && any_upper(t))) && blen(t) >= 4
}

/// CamelCase: at least 4 bytes, ASCII letters and digits only, both cases.
pub open spec fn looks_like_camel_text(t: Seq<char>) -> bool {
    blen(t) >= 4 && all_alnum(t) && any_upper(t) && any_lower(t)
}

/// The entity a raw mention stands for: its first 64 characters in ASCII
/// lower case, unless that is under 3 bytes or a stop word.
pub open spec fn entity_from(raw: Seq<char>) -> Option<Seq<char>> {
    let e = lower_seq(prefix(raw, 64));
    if blen(e) < 3 || is_stop_word(e) {
        None
    } else {
        Some(e)
    }
}

/// The entity a whitespace-separated token gives, if any.
pub open spec fn token_entity(token: Seq<char>) -> Option<Seq<char>> {
    let t = trim_punct(token);
    if t.len() > 0 && (is_url(t) || looks_like_path_text(t) || looks_like_qualified_text(t)
        || looks_like_camel_text(t)) {
        entity_from(t)
    } else {
        None
    }
}

/// Whether `e` is the entity of one of the tokens of `content`.
pub open spec fn mentions(content: Seq<char>, e: Seq<char>) -> bool {
    exists|i: int| 0 <= i < words(content).len() && token_entity(#[trigger] words(content)[i]) == Some(e)
}

pub open spec fn strictly_sorted(s: Seq<Seq<char>>) -> bool {
    forall|i: int, j: int| 0 <= i < j < s.len() ==> lex_lt(#[trigger] s[i], #[trigger] s[j])
}

fn url_exec(t: &[char]) -> (b: bool)
    ensures
        b == is_url(t@),
{
    let l = lower_chars(t);
    starts_with_str(&l, "http://") || starts_with_str(&l, "https://")
}

fn looks_like_path(t: &[char]) -> (b: bool)
    ensures
        b == looks_like_path_text(t@),
{
    if blen_exec(t) < 4 {
        return false;
    }
    starts_with_str(t, "/") || starts_with_str(t, "src/") || starts_with_str(t, "./") || (has_char(
        t,
        '/',
    ) && has_char(t, '.'))
}

fn any_upper_exec(t: &[char]) -> (b: bool)
    ensures
        b == any_upper(t@),
{
    for i in 0..t.len()
        invariant
            forall|j: int| 0 <= j < i ==> !is_upper(t@[j]),
    {
        if 'A' <= t[i] && t[i] <= 'Z' {
            return true;
        }
    }
    false
}

fn looks_like_qualified(t: &[char]) -> (b: bool)
    ensures
        b == looks_like_qualified_text(t@),
{
    (contains_str(t, "::") || (has_char(t, '.') && any_upper_exec(t))) && blen_exec(t) >= 4
}

fn looks_like_camel(t: &[char]) -> (b: bool)
    ensures
        b == looks_like_camel_text(t@),
{
    if blen_exec(t) < 4 {
        return false;
    }
    let mut has_upper = false;
    let mut has_lower = false;
    for i in 0..t.len()
        invariant
            forall|j: int| 0 <= j < i ==> is_alnum(t@[j]),
            has_upper == exists|j: int| 0 <= j < i && is_upper(t@[j]),
            has_lower == exists|j: int| 0 <= j < i && is_lower(t@[j]),
    {
        let c = t[i];
        let alnum = ('0' <= c && c <= '9') || ('A' <= c && c <= 'Z') || ('a' <= c && c <= 'z');
        if !alnum {
            return false;
        }
        if 'A' <= c && c <= 'Z' {
            has_upper = true;
        }
        if 'a' <= c && c <= 'z' {
            has_lower = true;
        }
    }
    has_upper && has_lower
}

fn push_entity(raw: &[char]) -> (r: Option<Vec<char>>)
    ensures
        match r {
            Some(e) => entity_from(raw@) == Some(e@),
            None => entity_from(raw@) is None,
        },
{
    let e = lower_chars(&take_chars(raw, 64));
    if blen_exec(&e) < 3 || is_stop_word_exec(&e) {
        None
    } else {
        Some(e)
    }
}

fn token_entity_exec(token: &[char]) -> (r: Option<Vec<char>>)
    ensures
        match r {
            Some(e) => token_entity(token@) == Some(e@),
            None => token_entity(token@) is None,
        },
{
    let t = trim_punct_chars(token);
    if t.len() == 0 {
        return None;
    }
    if url_exec(&t) || looks_like_path(&t) || looks_like_qualified(&t) || looks_like_camel(&t) {
        push_entity(&t)
    } else {
        None
    }
}

/// `a` holds what `b` holds and `e`, and nothing else.
pub open spec fn adds_member(a: Seq<Seq<char>>, b: Seq<Seq<char>>, e: Seq<char>) -> bool {
    forall|x: Seq<char>| a.contains(x) <==> (b.contains(x) || x == e)
}

/// Put `e` in its place in a strictly sorted list, unless it is there.
fn insert_sorted(r0: Vec<Vec<char>>, e: &Vec<char>) -> (r: Vec<Vec<char>>)
    requires
        strictly_sorted(views(r0@)),
    ensures
        strictly_sorted(views(r@)),
        adds_member(views(r@), views(r0@), e@),
{
    let mut r = r0;
    let ghost old_v = views(r@);
    let mut k: usize = 0;
    while k < r.len() && lex_less(&r[k], e)
        invariant
            k <= r.len(),
            views(r@) == old_v,
            forall|i: int| 0 <= i < k ==> lex_lt(#[trigger] old_v[i], e@),
        decreases r.len() - k,
    {
        k = k + 1;
    }
    assert(old_v == views(r0@));
    if k < r.len() && eq_chars(&r[k], e) {
        assert(views(r@) == old_v);
        assert(old_v[k as int] == e@);
        assert forall|x: Seq<char>| views(r@).contains(x) <==> (old_v.contains(x) || x == e@) by {
            if x == e@ {
                assert(old_v[k as int] == x);
            }
        }
        assert(adds_member(views(r@), old_v, e@));
    } else {
        proof {
            if k < old_v.len() {
                lemma_lex_total(old_v[k as int], e@);
                assert(lex_lt(e@, old_v[k as int]));
                assert forall|j: int| k <= j < old_v.len() implies lex_lt(e@, #[trigger] old_v[j]) by {
                    if j > k {
                        lemma_lex_transitive(e@, old_v[k as int], old_v[j]);
                    }
                }
            }
        }
        let ghost ev = e@;
        let copy = sub_chars(e, 0, e.len());
        assert(copy@ =~= ev);
        r.insert(k, copy);
        assert(views(r@) =~= old_v.insert(k as int, ev));
        assert forall|x: Seq<char>| views(r@).contains(x) <==> (old_v.contains(x) || x == ev) by {
            if old_v.contains(x) {
                let i = choose|i: int| 0 <= i < old_v.len() && old_v[i] == x;
                if i < k {
                    assert(views(r@)[i] == x);
                } else {
                    assert(views(r@)[i + 1] == x);
                }
            }
            if x == ev {
                assert(views(r@)[k as int] == x);
            }
            if views(r@).contains(x) {
                let i = choose|i: int| 0 <= i < views(r@).len() && views(r@)[i] == x;
                if i < k {
                    assert(old_v[i] == x);
                } else if i > k {
                    assert(old_v[i - 1] == x);
                }
            }
        }
        assert(adds_member(views(r@), old_v, ev));
    }
    r
}

/// Extract the structural entities of `content`: URLs, paths, qualified
/// identifiers and CamelCase names, cut to 64 characters and lower-cased,
/// without duplicates, in order.
pub fn extract_entities(content: &str) -> (r: Vec<String>)
    ensures
        strictly_sorted(strs(r@)),
        forall|e: Seq<char>|
            strs(r@).contains(e) <==> mentions(content@, e),
{
    let ws = words_of(&chars_of(content));
    let ghost wv = words(content@);
    let mut out: Vec<Vec<char>> = Vec::new();
    assert(views(out@) =~= Seq::<Seq<char>>::empty());
    for i in 0..ws.len()
        invariant
            views(ws@) == wv,
            wv == words(content@),
            strictly_sorted(views(out@)),
            forall|e: Seq<char>|
                views(out@).contains(e) <==> exists|j: int|
                    0 <= j < i && token_entity(#[trigger] wv[j]) == Some(e),
    {
        assert(wv[i as int] == ws@[i as int]@);
        match token_entity_exec(&ws[i]) {
            Some(e) => {
                let ghost ev = e@;
                let ghost o0 = views(out@);
                out = insert_sorted(out, &e);
                assert(adds_member(views(out@), o0, ev));
                assert forall|x: Seq<char>|
                    views(out@).contains(x) <==> exists|j: int|
                        0 <= j < i + 1 && token_entity(#[trigger] wv[j]) == Some(x) by {
                    if x == ev {
                        assert(token_entity(wv[i as int]) == Some(x));
                    }
                }
            },
            None => {
                assert forall|x: Seq<char>|
                    views(out@).contains(x) <==> exists|j: int|
                        0 <= j < i + 1 && token_entity(#[trigger] wv[j]) == Some(x) by {
                    if exists|j: int| 0 <= j < i + 1 && token_entity(#[trigger] wv[j]) == Some(x) {
                        let j = choose|j: int| 0 <= j < i + 1 && token_entity(#[trigger] wv[j]) == Some(x);
                        assert(j != i);
                    }
                }
            },
        }
    }
    let mut r: Vec<String> = Vec::new();
    for i in 0..out.len()
        invariant
            r@.len() == i,
            forall|j: int| 0 <= j < i ==> #[trigger] r@[j]@ == out@[j]@,
    {
        r.push(string_of(&out[i]));
    }
    assert(strs(r@) =~= views(out@));
    r
}

// ── hallways ────────────────────────────────────────────────────────────────
/// Two entities, the smaller first.
pub open spec fn ordered_pair(x: Seq<char>, y: Seq<char>) -> (Seq<char>, Seq<char>) {
    if lex_lt(x, y) {
        (x, y)
    } else {
        (y, x)
    }
}

/// Every pair of entities at different places in the list, in the order
/// (0,1), (0,2), ..., (1,2), ...
pub open spec fn pairs_of(s: Seq<Seq<char>>) -> Seq<(Seq<char>, Seq<char>)>
    decreases s.len(),
{
    if s.len() == 0 {
        Seq::empty()
    } else {
        let rest = s.drop_first();
        rest.map_values(|y: Seq<char>| ordered_pair(s[0], y)) + pairs_of(rest)
    }
}

pub open spec fn pair_views(v: Seq<(String, String)>) -> Seq<(Seq<char>, Seq<char>)> {
    v.map_values(|p: (String, String)| (p.0@, p.1@))
}

/// The pairs of entities that a drawer links in its wing (see `pairs_of`).
pub fn entity_pairs(entities: &[String]) -> (r: Vec<(String, String)>)
    ensures
        pair_views(r@) == pairs_of(strs(entities@)),
{
    let ghost es = strs(entities@);
    let mut r: Vec<(String, String)> = Vec::new();
    let n = entities.len();
    let mut i: usize = 0;
    assert(es.skip(0) =~= es);
    assert(pair_views(r@) =~= Seq::<(Seq<char>, Seq<char>)>::empty());
    while i < n
        invariant
            n == entities.len(),
            es == strs(entities@),
            i <= n,
            pairs_of(es) == pair_views(r@) + pairs_of(es.skip(i as int)),
        decreases n - i,
    {
        let ghost rest = es.skip(i as int);
        assert(rest.drop_first() =~= es.skip(i + 1));
        assert(rest[0] == entities@[i as int]@);
        let ghost row = rest.drop_first().map_values(|y: Seq<char>| ordered_pair(rest[0], y));
        let ghost r0 = pair_views(r@);
        let a = chars_of(entities[i].as_str());
        let mut j: usize = i + 1;
        while j < n
            invariant
                n == entities.len(),
                es == strs(entities@),
                i < n,
                i + 1 <= j <= n,
                a@ == es[i as int],
                rest == es.skip(i as int),
                row == rest.drop_first().map_values(|y: Seq<char>| ordered_pair(rest[0], y)),
                pair_views(r@) == r0 + row.take(j - i - 1),
            decreases n - j,
        {
            let b = chars_of(entities[j].as_str());
            assert(b@ == es[j as int]);
            assert(row[j - i - 1] == ordered_pair(es[i as int], es[j as int]));
            let ghost before = pair_views(r@);
            if lex_less(&a, &b) {
                r.push((string_of(&a), string_of(&b)));
            } else {
                r.push((string_of(&b), string_of(&a)));
            }
            assert(pair_views(r@) =~= before.push(ordered_pair(es[i as int], es[j as int])));
            assert(row.take(j - i) =~= row.take(j - i - 1).push(row[j - i - 1]));
            j = j + 1;
        }
        assert(row.take(n - i - 1) =~= row);
        i = i + 1;
    }
    assert(es.skip(n as int) =~= Seq::<Seq<char>>::empty());
    assert(pair_views(r@) + Seq::<(Seq<char>, Seq<char>)>::empty() =~= pair_views(r@));
    r
}

/// "hall_{wing}_{a}_{b}".
pub fn hallway_id(wing: &str, a: &str, b: &str) -> (r: String)
    ensures
        r@ == "hall_"@ + wing@ + "_"@ + a@ + "_"@ + b@,
{
    let mut c: Vec<char> = Vec::new();
    append_str(&mut c, "hall_");
    append_str(&mut c, wing);
    append_str(&mut c, "_");
    append_str(&mut c, a);
    append_str(&mut c, "_");
    append_str(&mut c, b);
    string_of(&c)
}

/// The rooms of a hallway after it is seen again in `room`: a new room is
/// added at the end, a known one changes nothing.
pub fn merge_room(rooms: &[String], room: &str) -> (r: Vec<String>)
    ensures
        strs(r@) == if strs(rooms@).contains(room@) {
            strs(rooms@)
        } else {
            strs(rooms@).push(room@)
        },
{
    let ghost rs = strs(rooms@);
    let rv = chars_of(room);
    let mut r: Vec<String> = Vec::new();
    let mut found = false;
    for i in 0..rooms.len()
        invariant
            rs == strs(rooms@),
            rv@ == room@,
            strs(r@) == rs.take(i as int),
            found == exists|j: int| 0 <= j < i && rs[j] == room@,
    {
        let x = chars_of(rooms[i].as_str());
        assert(x@ == rs[i as int]);
        if eq_chars(&x, &rv) {
            found = true;
        }
        let ghost r0 = strs(r@);
        r.push(string_of(&x));
        assert(strs(r@) =~= r0.push(rs[i as int]));
        assert(rs.take(i + 1) =~= rs.take(i as int).push(rs[i as int]));
    }
    assert(rs.take(rooms.len() as int) =~= rs);
    if !found {
        let ghost r0 = strs(r@);
        r.push(string_of(&rv));
        assert(strs(r@) =~= r0.push(room@));
    }
    r
}

/// The room a cross-wing tunnel leads to: the first room of the other
/// wing's hallway, or "general".
pub fn tunnel_room(rooms: &[String]) -> (r: String)
    ensures
        r@ == if rooms@.len() > 0 {
            rooms@[0]@
        } else {
            "general"@
        },
{
    if rooms.len() > 0 {
        string_of(&chars_of(rooms[0].as_str()))
    } else {
        string_of(&chars_of("general"))
    }
}


/// When the entities are in order, every pair links a smaller entity to a
/// larger one, and the pairs are exactly the pairs of positions.
pub proof fn law_pairs_of_sorted(s: Seq<Seq<char>>)
    requires
        strictly_sorted(s),
    ensures
        forall|k: int| 0 <= k < pairs_of(s).len() ==> lex_lt(#[trigger] pairs_of(s)[k].0, pairs_of(s)[k].1),
    decreases s.len(),
{
    if s.len() > 0 {
        let rest = s.drop_first();
        let row = rest.map_values(|y: Seq<char>| ordered_pair(s[0], y));
        assert forall|j: int| 0 <= j < rest.len() implies lex_lt(#[trigger] row[j].0, row[j].1) by {
            assert(rest[j] == s[j + 1]);
            assert(lex_lt(s[0], s[j + 1]));
        }
        assert forall|i: int, j: int| 0 <= i < j < rest.len() implies lex_lt(#[trigger] rest[i], #[trigger] rest[j]) by {
            assert(rest[i] == s[i + 1] && rest[j] == s[j + 1]);
        }
        law_pairs_of_sorted(rest);
        let p = pairs_of(s);
        assert(p == row + pairs_of(rest));
        assert forall|k: int| 0 <= k < p.len() implies lex_lt(#[trigger] p[k].0, p[k].1) by {
            if k < row.len() {
                assert(p[k] == row[k]);
            } else {
                assert(p[k] == pairs_of(rest)[k - row.len()]);
            }
        }
    }
}
/// The entities of two texts joined by a space are those of the first
/// and those of the second.
pub proof fn law_entities_of_joined_text(a: Seq<char>, b: Seq<char>, e: Seq<char>)
    ensures
        mentions(a + seq![' '] + b, e) <==> (mentions(a, e) || mentions(b, e)),
{
    lemma_words_join(a, b);
    let w = words(a + seq![' '] + b);
    let wa = words(a);
    let wb = words(b);
    assert(w == wa + wb);
    if mentions(a + seq![' '] + b, e) {
        let i = choose|i: int| 0 <= i < w.len() && token_entity(#[trigger] w[i]) == Some(e);
        if i < wa.len() {
            assert(w[i] == wa[i]);
            assert(mentions(a, e));
        } else {
            assert(w[i] == wb[i - wa.len()]);
            assert(mentions(b, e));
        }
    }
    if mentions(a, e) {
        let i = choose|i: int| 0 <= i < wa.len() && token_entity(#[trigger] wa[i]) == Some(e);
        assert(w[i] == wa[i]);
    }
    if mentions(b, e) {
        let i = choose|i: int| 0 <= i < wb.len() && token_entity(#[trigger] wb[i]) == Some(e);
        assert(w[i + wa.len()] == wb[i]);
    }
}

/// Two strictly sorted lists of entities with the same members are the same
/// list: the entities of a text determine what `extract_entities` returns.
pub proof fn law_sorted_members_determine_list(s: Seq<Seq<char>>, t: Seq<Seq<char>>)
    requires
        strictly_sorted(s),
        strictly_sorted(t),
        forall|e: Seq<char>| s.contains(e) <==> t.contains(e),
    ensures
        s == t,
    decreases s.len(),
{
    if s.len() == 0 {
        if t.len() > 0 {
            assert(t.contains(t[0]));
        }
        assert(s =~= t);
    } else {
        assert(s.contains(s[0]));
        if t.len() == 0 {
            assert(false);
        }
        assert(t.contains(t[0]));
        let j = choose|j: int| 0 <= j < t.len() && t[j] == s[0];
        let i = choose|i: int| 0 <= i < s.len() && s[i] == t[0];
        if s[0] != t[0] {
            assert(lex_lt(t[0], t[j]));
            assert(lex_lt(s[0], s[i]));
            lemma_lex_transitive(s[0], t[0], s[0]);
            lemma_lex_irreflexive(s[0]);
        }
        let s1 = s.drop_first();
        let t1 = t.drop_first();
        assert forall|e: Seq<char>| s1.contains(e) <==> t1.contains(e) by {
            if s1.contains(e) {
                let k = choose|k: int| 0 <= k < s1.len() && s1[k] == e;
                assert(s[k + 1] == e);
                assert(lex_lt(s[0], s[k + 1]));
                lemma_lex_irreflexive(e);
                assert(t.contains(e));
                let m = choose|m: int| 0 <= m < t.len() && t[m] == e;
                assert(m != 0);
                assert(t1[m - 1] == e);
            }
            if t1.contains(e) {
                let k = choose|k: int| 0 <= k < t1.len() && t1[k] == e;
                assert(t[k + 1] == e);
                assert(lex_lt(t[0], t[k + 1]));
                lemma_lex_irreflexive(e);
                assert(s.contains(e));
                let m = choose|m: int| 0 <= m < s.len() && s[m] == e;
                assert(m != 0);
                assert(s1[m - 1] == e);
            }
        }
        assert(strictly_sorted(s1)) by {
            assert forall|a: int, b: int| 0 <= a < b < s1.len() implies lex_lt(
                #[trigger] s1[a],
                #[trigger] s1[b],
            ) by {
                assert(s1[a] == s[a + 1] && s1[b] == s[b + 1]);
            }
        }
        assert(strictly_sorted(t1)) by {
            assert forall|a: int, b: int| 0 <= a < b < t1.len() implies lex_lt(
                #[trigger] t1[a],
                #[trigger] t1[b],
            ) by {
                assert(t1[a] == t[a + 1] && t1[b] == t[b + 1]);
            }
        }
        law_sorted_members_determine_list(s1, t1);
        assert(s =~= seq![s[0]] + s1);
        assert(t =~= seq![t[0]] + t1);
    }
}

/// A token of lower-case letters and digits alone is no URL, path or
/// qualified name, and no CamelCase name either (that needs a capital), so
/// it is never an entity: plain words are not entities.
pub proof fn law_plain_words_are_not_entities(t: Seq<char>)
    requires
        forall|i: int| 0 <= i < t.len() ==> is_lower(#[trigger] t[i]) || crate::text::is_digit(t[i]),
    ensures
        token_entity(t) == None::<Seq<char>>,
{
    if t.len() > 0 {
        assert(!is_punct(t[0]));
        assert(!is_punct(t.last()));
    }
    assert(trim_punct_start(t) == t);
    assert(trim_punct(t) == t);
    assert(lower_seq(t) =~= t) by {
        assert forall|i: int| 0 <= i < t.len() implies lower_seq(t)[i] == t[i] by {
            assert(!is_upper(t[i]));
        }
    }
    reveal_strlit("http://");
    reveal_strlit("https://");
    reveal_strlit("/");
    reveal_strlit("src/");
    reveal_strlit("./");
    reveal_strlit("::");
    if starts_with(t, "http://"@) {
        assert(t.subrange(0, 7)[4] == t[4]);
    }
    if starts_with(t, "https://"@) {
        assert(t.subrange(0, 8)[5] == t[5]);
    }
    if starts_with(t, "/"@) {
        assert(t.subrange(0, 1)[0] == t[0]);
    }
    if starts_with(t, "src/"@) {
        assert(t.subrange(0, 4)[3] == t[3]);
    }
    if starts_with(t, "./"@) {
        assert(t.subrange(0, 2)[0] == t[0]);
    }
    if contains(t, "::"@) {
        let k = choose|k: int| crate::text::occurs_at(t, "::"@, k);
        assert(t.subrange(k, k + 2)[0] == t[k]);
    }
    assert(!contains_char(t, '/'));
    assert(!contains_char(t, '.'));
    assert(!any_upper(t));
}

} // verus!
