//! The rules of the drawer store that do not touch the database itself:
//! full-text query rewriting, deterministic drawer ids, diary entries and
//! find-and-replace.
use vstd::prelude::*;
use crate::import_sessions::{byte_cut_ok, byte_prefix, byte_prefix_chars};
use crate::text::{
    append_chars, append_str, chars_of, contains, contains_char, contains_chars, find_from,
    has_char, join, join_chars, matches_at, occurs_at, string_of, sub_chars, words, words_of,
};

verus! {

/// The query already uses FTS5 syntax: quotes, `*`, parentheses, `+`, or
/// one of the operators AND, OR, NOT between spaces.
pub open spec fn has_fts_syntax(q: Seq<char>) -> bool {
    ||| contains_char(q, '"')
    ||| contains_char(q, '*')
    ||| contains_char(q, '(')
    ||| contains_char(q, ')')
    ||| contains_char(q, '+')
    ||| contains(q, " AND "@)
    ||| contains(q, " OR "@)
    ||| contains(q, " NOT "@)
}

/// A plain query of several words becomes their OR; anything else is kept.
pub open spec fn fts_query(q: Seq<char>) -> Seq<char> {
    if has_fts_syntax(q) || words(q).len() <= 1 {
        q
    } else {
        join(words(q), " OR "@)
    }
}

/// A query that already uses FTS5 syntax (a double quote, `*`, a
/// parenthesis, `+`, or AND / OR / NOT between spaces) is passed through
/// unchanged.
pub proof fn law_fts_syntax_passes_through(q: Seq<char>)
    requires
        contains_char(q, '"') || contains_char(q, '*') || contains_char(q, '(') || contains_char(
            q,
            ')',
        ) || contains_char(q, '+') || contains(q, " AND "@) || contains(q, " OR "@) || contains(
            q,
            " NOT "@,
        ),
    ensures
        fts_query(q) == q,
{
}

/// A plain query (no FTS5 syntax) of at most one word is passed through
/// unchanged; one of several words becomes its words joined by " OR ".
pub proof fn law_fts_plain_words(q: Seq<char>)
    requires
        !contains_char(q, '"'),
        !contains_char(q, '*'),
        !contains_char(q, '('),
        !contains_char(q, ')'),
        !contains_char(q, '+'),
        !contains(q, " AND "@),
        !contains(q, " OR "@),
        !contains(q, " NOT "@),
    ensures
        words(q).len() <= 1 ==> fts_query(q) == q,
        words(q).len() > 1 ==> fts_query(q) == join(words(q), " OR "@),
{
}

/// Rewrite a search query for FTS5 (see `fts_query`).
pub fn sanitize_fts_query(query: &str) -> (r: String)
    ensures
        r@ == fts_query(query@),
{
    let v = chars_of(query);
    let syntax = has_char(&v, '"') || has_char(&v, '*') || has_char(&v, '(') || has_char(&v, ')')
        || has_char(&v, '+') || contains_chars(&v, &chars_of(" AND ")) || contains_chars(
        &v,
        &chars_of(" OR "),
    ) || contains_chars(&v, &chars_of(" NOT "));
    if syntax {
        return string_of(&v);
    }
    let ws = words_of(&v);
    if ws.len() <= 1 {
        string_of(&v)
    } else {
        string_of(&join_chars(&ws, &chars_of(" OR ")))
    }
}

// ── find and replace ────────────────────────────────────────────────────────
/// `str::replace`: every occurrence of `p`, taken leftmost first and
/// without overlap, replaced by `r`; an empty `p` matches before every
/// character and at the end.
pub open spec fn replaced(s: Seq<char>, p: Seq<char>, r: Seq<char>) -> Seq<char>
    decreases s.len(),
{
    if p.len() == 0 {
        if s.len() == 0 {
            r
        } else {
            r + seq![s[0]] + replaced(s.drop_first(), p, r)
        }
    } else if s.len() == 0 {
        Seq::empty()
    } else if occurs_at(s, p, 0) {
        r + replaced(s.skip(p.len() as int), p, r)
    } else {
        seq![s[0]] + replaced(s.drop_first(), p, r)
    }
}

proof fn lemma_occurs_skip(v: Seq<char>, p: Seq<char>, i: int)
    requires
        0 <= i <= v.len(),
    ensures
        occurs_at(v.skip(i), p, 0) == occurs_at(v, p, i),
{
    if i + p.len() <= v.len() {
        assert(v.skip(i).subrange(0, p.len() as int) =~= v.subrange(i, i + p.len()));
    }
}

/// Replace every occurrence of `find` in `s` by `rep` (see `replaced`).
pub fn replace_all(s: &str, find: &str, rep: &str) -> (r: String)
    ensures
        r@ == replaced(s@, find@, rep@),
{
    let v = chars_of(s);
    let p = chars_of(find);
    let rv = chars_of(rep);
    let mut out: Vec<char> = Vec::new();
    let mut i: usize = 0;
    assert(v@.skip(0) =~= v@);
    while i < v.len()
        invariant
            i <= v.len(),
            replaced(v@, p@, rv@) == out@ + replaced(v@.skip(i as int), p@, rv@),
        decreases v.len() - i,
    {
        let ghost rest = v@.skip(i as int);
        assert(rest.len() > 0);
        assert(rest[0] == v@[i as int]);
        assert(rest.drop_first() =~= v@.skip(i + 1));
        if p.len() == 0 {
            let ghost o0 = out@;
            append_chars(&mut out, &rv);
            out.push(v[i]);
            assert(out@ =~= o0 + (rv@ + seq![rest[0]]));
            i = i + 1;
        } else if matches_at(&v, &p, i) {
            proof {
                lemma_occurs_skip(v@, p@, i as int);
                assert(rest.skip(p@.len() as int) =~= v@.skip(i + p@.len()));
            }
            append_chars(&mut out, &rv);
            i = i + p.len();
        } else {
            proof {
                lemma_occurs_skip(v@, p@, i as int);
            }
            let ghost o0 = out@;
            out.push(v[i]);
            assert(out@ =~= o0 + seq![rest[0]]);
            i = i + 1;
        }
    }
    assert(v@.skip(i as int) =~= Seq::<char>::empty());
    if p.len() == 0 {
        append_chars(&mut out, &rv);
    } else {
        assert(out@ + Seq::<char>::empty() =~= out@);
    }
    string_of(&out)
}

/// Replacing a text that does not occur changes nothing.
pub proof fn law_replace_absent_is_identity(s: Seq<char>, p: Seq<char>, r: Seq<char>)
    requires
        p.len() > 0,
        !contains(s, p),
    ensures
        replaced(s, p, r) == s,
    decreases s.len(),
{
    if s.len() > 0 {
        assert(!occurs_at(s, p, 0));
        assert forall|i: int| !occurs_at(s.drop_first(), p, i) by {
            if occurs_at(s.drop_first(), p, i) {
                assert(s.subrange(i + 1, i + 1 + p.len()) =~= s.drop_first().subrange(i, i + p.len()));
                assert(occurs_at(s, p, i + 1));
            }
        }
        law_replace_absent_is_identity(s.drop_first(), p, r);
        assert(seq![s[0]] + s.drop_first() =~= s);
    }
}

// ── diary entries ───────────────────────────────────────────────────────────
/// The first place where `p` occurs in `s`.
pub open spec fn first_occurrence(s: Seq<char>, p: Seq<char>) -> Option<int> {
    if contains(s, p) {
        Some(choose|i: int| occurs_at(s, p, i) && forall|j: int| 0 <= j < i ==> !occurs_at(s, p, j))
    } else {
        None
    }
}

/// A diary entry is stored as "[topic] text"; without that shape its topic
/// is "general" and the whole content is its text.
pub open spec fn diary_parts(content: Seq<char>) -> (Seq<char>, Seq<char>) {
    if content.len() > 0 && content[0] == '[' {
        let rest = content.drop_first();
        match first_occurrence(rest, "] "@) {
            Some(j) => (rest.take(j), rest.skip(j + 2)),
            None => ("general"@, content),
        }
    } else {
        ("general"@, content)
    }
}

/// A diary entry as it is read back.
pub struct DiaryEntry {
    /// The first 10 bytes of the filing time (the date).
    pub date: String,
    pub timestamp: String,
    pub topic: String,
    pub content: String,
}

/// The stored text of a diary entry.
pub open spec fn diary_text(topic: Seq<char>, entry: Seq<char>) -> Seq<char> {
    "["@ + topic + "] "@ + entry
}

/// Compose the stored text of a diary entry: "[topic] entry".
pub fn diary_content(topic: &str, entry: &str) -> (r: String)
    ensures
        r@ == diary_text(topic@, entry@),
{
    let mut c: Vec<char> = Vec::new();
    append_str(&mut c, "[");
    append_str(&mut c, topic);
    append_str(&mut c, "] ");
    append_str(&mut c, entry);
    string_of(&c)
}

/// Read back a stored diary entry and its filing time.
pub fn diary_entry(content: &str, filed_at: &str) -> (e: DiaryEntry)
    requires
        byte_cut_ok(filed_at@, 10),
    ensures
        e.date@ == byte_prefix(filed_at@, 10),
        e.timestamp@ == filed_at@,
        (e.topic@, e.content@) == diary_parts(content@),
{
    let v = chars_of(content);
    let ts = chars_of(filed_at);
    let date = string_of(&byte_prefix_chars(&ts, 10));
    let mut topic = chars_of("general");
    let mut body = sub_chars(&v, 0, v.len());
    assert(body@ =~= v@);
    if v.len() > 0 && v[0] == '[' {
        let rest = sub_chars(&v, 1, v.len());
        assert(rest@ =~= v@.drop_first());
        let sep = chars_of("] ");
        match find_from(&rest, &sep, 0) {
            Some(j) => {
                proof {
                    reveal_strlit("] ");
                    let k = choose|i: int|
                        occurs_at(rest@, sep@, i) && forall|jj: int|
                            0 <= jj < i ==> !occurs_at(rest@, sep@, jj);
                    assert(occurs_at(rest@, sep@, j as int));
                    if k < j {
                        assert(!occurs_at(rest@, sep@, k));
                    }
                    if j < k {
                        assert(!occurs_at(rest@, sep@, j as int));
                    }
                    assert(k == j);
                }
                topic = sub_chars(&rest, 0, j);
                body = sub_chars(&rest, j + 2, rest.len());
                assert(topic@ =~= rest@.take(j as int));
                assert(body@ =~= rest@.skip(j + 2));
            },
            None => {
                assert(!contains(rest@, sep@));
            },
        }
    }
    DiaryEntry { date, timestamp: string_of(&ts), topic: string_of(&topic), content: string_of(&body) }
}

/// What a diary write stores is read back as its topic and text, for any
/// topic that does not itself contain "] ".
pub proof fn law_diary_round_trip(topic: Seq<char>, entry: Seq<char>)
    requires
        !contains(topic, "] "@),
    ensures
        diary_parts(diary_text(topic, entry)) == (topic, entry),
{
    reveal_strlit("] ");
    reveal_strlit("[");
    let c = diary_text(topic, entry);
    let rest = c.drop_first();
    assert(rest =~= topic + "] "@ + entry);
    let n = topic.len() as int;
    assert(occurs_at(rest, "] "@, n)) by {
        assert(rest.subrange(n, n + 2) =~= "] "@);
    }
    assert forall|j: int| 0 <= j < n implies !occurs_at(rest, "] "@, j) by {
        if occurs_at(rest, "] "@, j) {
            if j + 2 <= n {
                assert(topic.subrange(j, j + 2) =~= rest.subrange(j, j + 2));
                assert(occurs_at(topic, "] "@, j));
            } else {
                // j == n - 1: the second character would be the ']' that follows
                assert(rest[j + 1] == ']');
                assert(rest.subrange(j, j + 2)[1] == ' ');
            }
        }
    }
    let k = choose|i: int| occurs_at(rest, "] "@, i) && forall|jj: int| 0 <= jj < i ==> !occurs_at(rest, "] "@, jj);
    assert(contains(rest, "] "@));
    if k > n {
        assert(!occurs_at(rest, "] "@, n));
    }
    assert(k == n);
    assert(rest.take(n) =~= topic);
    assert(rest.skip(n + 2) =~= entry);
}

} // verus!
