//! The Codex and Grok session stores: what their JSON lines say, folded
//! into one session each. The JSON itself is read elsewhere; these types
//! hold the fields that the import looks at.
use vstd::prelude::*;
use crate::import_sessions::{
    byte_cut_ok, clean_texts, cleaned, law_session_text_first_message, session_content,
    session_text, RawSession, FIRST_MESSAGE_CHARS, SESSION_ID_TITLE_BYTES,
};
use crate::text::{chars_of, contains, eq_str, prefix, string_of, strs, trimmed};
use crate::timefmt::{fields_ms, parse_rfc3339_ms, rfc3339_computable, rfc3339_fields};

verus! {

/// The instant an RFC 3339 timestamp denotes, in Unix milliseconds.
pub open spec fn rfc3339_ms(s: Seq<char>) -> Option<int> {
    match rfc3339_fields(s) {
        Some(f) => Some(fields_ms(f)),
        None => None,
    }
}

pub open spec fn opt_text(o: Option<String>) -> Seq<char> {
    match o {
        Some(s) => s@,
        None => Seq::empty(),
    }
}

pub open spec fn is_word(o: Option<String>, w: Seq<char>) -> bool {
    o matches Some(k) && k@ == w
}

pub open spec fn ts_of(o: Option<String>) -> Option<int> {
    match o {
        Some(s) => rfc3339_ms(s@),
        None => None,
    }
}

pub open spec fn ts_ok(o: Option<String>) -> bool {
    match o {
        Some(s) => rfc3339_computable(s@),
        None => true,
    }
}

pub open spec fn opt_i64(o: Option<i64>) -> Option<int> {
    match o {
        Some(x) => Some(x as int),
        None => None,
    }
}

fn opt_text_exec(o: &Option<String>) -> (r: Vec<char>)
    ensures
        r@ == opt_text(*o),
{
    match o {
        Some(s) => chars_of(s.as_str()),
        None => Vec::new(),
    }
}

fn is_word_exec(o: &Option<String>, w: &str) -> (b: bool)
    ensures
        b == is_word(*o, w@),
{
    match o {
        Some(k) => eq_str(&chars_of(k.as_str()), w),
        None => false,
    }
}

fn parse_ts(o: &Option<String>) -> (r: Option<i64>)
    requires
        ts_ok(*o),
    ensures
        opt_i64(r) == ts_of(*o),
{
    match o {
        Some(s) => parse_rfc3339_ms(s.as_str()),
        None => None,
    }
}

fn push_cleaned(bucket: &mut Vec<String>, texts: &[String])
    ensures
        strs(final(bucket)@) == strs(old(bucket)@) + cleaned(strs(texts@)),
{
    let c = clean_texts(texts);
    let ghost b0 = strs(bucket@);
    for i in 0..c.len()
        invariant
            strs(bucket@) == b0 + strs(c@).take(i as int),
    {
        let ghost b1 = strs(bucket@);
        bucket.push(string_of(&chars_of(c[i].as_str())));
        assert(strs(bucket@) =~= b1.push(c@[i as int]@));
        assert(strs(c@).take(i + 1) =~= strs(c@).take(i as int).push(c@[i as int]@));
    }
    assert(strs(c@).take(c.len() as int) =~= strs(c@));
}

/// The texts gathered for one session: the user's turns and the
/// assistant's, each trimmed, empty ones dropped.
pub struct Turns {
    pub user: Vec<String>,
    pub assistant: Vec<String>,
}

/// The first user turn, when there is one.
pub open spec fn first_turn(user: Seq<Seq<char>>) -> Option<Seq<char>> {
    if user.len() > 0 {
        Some(user[0])
    } else {
        None
    }
}

fn first_turn_exec(user: &Vec<String>) -> (r: Option<&str>)
    ensures
        opt_view(r) == first_turn(strs(user@)),
{
    if user.len() > 0 {
        Some(user[0].as_str())
    } else {
        None
    }
}

pub open spec fn opt_view(o: Option<&str>) -> Option<Seq<char>> {
    match o {
        Some(s) => Some(s@),
        None => None,
    }
}

// ── Codex ───────────────────────────────────────────────────────────────────
/// One line of a Codex rollout file: `type`, and from `payload` the fields
/// `id`, `cwd`, `timestamp`, `type`, `role`, and the `text` strings of the
/// items of `content`.
pub struct CodexLine {
    pub kind: Option<String>,
    pub id: Option<String>,
    pub cwd: Option<String>,
    pub timestamp: Option<String>,
    pub payload_kind: Option<String>,
    pub role: Option<String>,
    pub texts: Vec<String>,
}

/// A rollout file read line by line: the session's id, directory and start
/// time (from its last `session_meta` line) and its conversation turns.
pub struct CodexFold {
    pub id: String,
    pub cwd: String,
    pub meta_ts: Option<i64>,
    pub turns: Turns,
}

pub open spec fn codex_state(lines: Seq<CodexLine>) -> (
    Seq<char>,
    Seq<char>,
    Option<int>,
    Seq<Seq<char>>,
    Seq<Seq<char>>,
)
    decreases lines.len(),
{
    if lines.len() == 0 {
        (Seq::empty(), Seq::empty(), None, Seq::empty(), Seq::empty())
    } else {
        let (id, cwd, ts, user, asst) = codex_state(lines.drop_last());
        let l = lines.last();
        if is_word(l.kind, "session_meta"@) {
            (opt_text(l.id), opt_text(l.cwd), ts_of(l.timestamp), user, asst)
        } else if is_word(l.kind, "response_item"@) && is_word(l.payload_kind, "message"@) {
            if is_word(l.role, "user"@) {
                (id, cwd, ts, user + cleaned(strs(l.texts@)), asst)
            } else if is_word(l.role, "assistant"@) {
                (id, cwd, ts, user, asst + cleaned(strs(l.texts@)))
            } else {
                (id, cwd, ts, user, asst)
            }
        } else {
            (id, cwd, ts, user, asst)
        }
    }
}

/// Every `session_meta` timestamp can be read without overflow.
pub open spec fn codex_lines_ok(lines: Seq<CodexLine>) -> bool {
    forall|i: int|
        0 <= i < lines.len() && is_word(#[trigger] lines[i].kind, "session_meta"@) ==> ts_ok(
            lines[i].timestamp,
        )
}

pub open spec fn fold_view(f: CodexFold) -> (
    Seq<char>,
    Seq<char>,
    Option<int>,
    Seq<Seq<char>>,
    Seq<Seq<char>>,
) {
    (f.id@, f.cwd@, opt_i64(f.meta_ts), strs(f.turns.user@), strs(f.turns.assistant@))
}

/// Read a rollout file's lines in order; developer and system turns are
/// never kept.
pub fn codex_fold(lines: &[CodexLine]) -> (f: CodexFold)
    requires
        codex_lines_ok(lines@),
    ensures
        fold_view(f) == codex_state(lines@),
{
    let mut f = CodexFold {
        id: String::new(),
        cwd: String::new(),
        meta_ts: None,
        turns: Turns { user: Vec::new(), assistant: Vec::new() },
    };
    assert(strs(f.turns.user@) =~= Seq::<Seq<char>>::empty());
    assert(strs(f.turns.assistant@) =~= Seq::<Seq<char>>::empty());
    assert(lines@.take(0) =~= Seq::<CodexLine>::empty());
    for i in 0..lines.len()
        invariant
            codex_lines_ok(lines@),
            fold_view(f) == codex_state(lines@.take(i as int)),
    {
        assert(lines@.take(i + 1).drop_last() =~= lines@.take(i as int));
        assert(lines@.take(i + 1).last() == lines@[i as int]);
        let l = &lines[i];
        if is_word_exec(&l.kind, "session_meta") {
            assert(is_word(lines@[i as int].kind, "session_meta"@));
            f.id = string_of(&opt_text_exec(&l.id));
            f.cwd = string_of(&opt_text_exec(&l.cwd));
            f.meta_ts = parse_ts(&l.timestamp);
        } else if is_word_exec(&l.kind, "response_item") && is_word_exec(&l.payload_kind, "message") {
            if is_word_exec(&l.role, "user") {
                push_cleaned(&mut f.turns.user, &l.texts);
            } else if is_word_exec(&l.role, "assistant") {
                push_cleaned(&mut f.turns.assistant, &l.texts);
            }
        }
    }
    assert(lines@.take(lines.len() as int) =~= lines@);
    f
}

/// One line of `session_index.jsonl`: `id`, `thread_name`, `updated_at`.
pub struct CodexIndexEntry {
    pub id: Option<String>,
    pub thread_name: Option<String>,
    pub updated_at: Option<String>,
}

/// The title and update time that the index gives `id`: the last entry for
/// it wins; no entry gives no title and no time.
pub open spec fn index_lookup(index: Seq<CodexIndexEntry>, id: Seq<char>) -> (Seq<char>, Option<int>)
    decreases index.len(),
{
    if index.len() == 0 {
        (Seq::empty(), None)
    } else if is_word(index.last().id, id) {
        (opt_text(index.last().thread_name), ts_of(index.last().updated_at))
    } else {
        index_lookup(index.drop_last(), id)
    }
}

/// Every update time of an entry with an id can be read without overflow.
pub open spec fn index_ok(index: Seq<CodexIndexEntry>) -> bool {
    forall|i: int| 0 <= i < index.len() && (#[trigger] index[i]).id is Some ==> ts_ok(index[i].updated_at)
}

/// Look up the title and update time of session `id` in the index.
pub fn codex_index_lookup(index: &[CodexIndexEntry], id: &str) -> (r: (String, Option<i64>))
    requires
        index_ok(index@),
    ensures
        r.0@ == index_lookup(index@, id@).0,
        opt_i64(r.1) == index_lookup(index@, id@).1,
{
    let mut k = index.len();
    assert(index@.take(index.len() as int) =~= index@);
    while k > 0
        invariant
            k <= index.len(),
            index_ok(index@),
            index_lookup(index@, id@) == index_lookup(index@.take(k as int), id@),
        decreases k,
    {
        assert(index@.take(k as int).drop_last() =~= index@.take(k - 1));
        assert(index@.take(k as int).last() == index@[k - 1]);
        let e = &index[k - 1];
        if is_word_exec(&e.id, id) {
            return (string_of(&opt_text_exec(&e.thread_name)), parse_ts(&e.updated_at));
        }
        k = k - 1;
    }
    (String::new(), None)
}

/// The drawer text of a Codex session, or `None` when no `session_meta`
/// line named it. The index's time wins over the `session_meta` one; with
/// neither the time is 0.
pub open spec fn codex_session_text(
    f: (Seq<char>, Seq<char>, Option<int>, Seq<Seq<char>>, Seq<Seq<char>>),
    index: Seq<CodexIndexEntry>,
    max: nat,
) -> Option<(Seq<char>, int, Seq<char>)> {
    let (id, cwd, meta_ts, user, asst) = f;
    if id.len() == 0 {
        None
    } else {
        let (title, upd) = index_lookup(index, id);
        let when = match upd {
            Some(t) => t,
            None => match meta_ts {
                Some(t) => t,
                None => 0,
            },
        };
        Some(
            (
                title,
                when,
                session_text(id, title, when, cwd, Seq::empty(), first_turn(user), (0, 0), asst, max),
            ),
        )
    }
}

/// Turn a folded rollout file into a session (see `codex_session_text`).
pub fn codex_session(f: &CodexFold, index: &[CodexIndexEntry], max_chars: usize) -> (r: Option<
    RawSession,
>)
    requires
        index_ok(index@),
        index_lookup(index@, f.id@).0.len() == 0 ==> byte_cut_ok(
            f.id@,
            SESSION_ID_TITLE_BYTES as nat,
        ),
    ensures
        match (r, codex_session_text(fold_view(*f), index@, max_chars as nat)) {
            (None, None) => true,
            (Some(s), Some((title, when, text))) => s.id@ == f.id@ && s.title@ == title
                && s.updated_at_ms == when && s.content@ == text,
            _ => false,
        },
{
    if chars_of(f.id.as_str()).len() == 0 {
        return None;
    }
    let (title, upd) = codex_index_lookup(index, f.id.as_str());
    let when: i64 = match upd {
        Some(t) => t,
        None => match f.meta_ts {
            Some(t) => t,
            None => 0,
        },
    };
    let no_tools: Vec<String> = Vec::new();
    assert(strs(no_tools@) =~= Seq::<Seq<char>>::empty());
    let content = session_content(
        f.id.as_str(),
        title.as_str(),
        when,
        f.cwd.as_str(),
        &no_tools,
        first_turn_exec(&f.turns.user),
        (0, 0),
        &f.turns.assistant,
        max_chars,
    );
    Some(
        RawSession {
            id: string_of(&chars_of(f.id.as_str())),
            title,
            updated_at_ms: when,
            content,
        },
    )
}

// ── Grok ────────────────────────────────────────────────────────────────────
/// What `summary.json` says of a Grok session: `info.id`, `info.cwd`,
/// `updated_at` and `num_chat_messages`.
pub struct GrokSummary {
    pub id: Option<String>,
    pub cwd: Option<String>,
    pub updated_at: Option<String>,
    pub num_chat_messages: Option<i64>,
}

/// One item of an array `content`: its `type` and `text`.
pub struct GrokItem {
    pub kind: Option<String>,
    pub text: Option<String>,
}

/// The `content` of a chat line: a string, an array of items, or anything
/// else (absent included).
pub enum GrokContent {
    Text(String),
    Items(Vec<GrokItem>),
    Other,
}

/// One line of `chat_history.jsonl`: its `type` (the role) and `content`.
pub struct GrokChatLine {
    pub kind: Option<String>,
    pub content: GrokContent,
}

/// The texts of the items whose `type` is "text".
pub open spec fn item_texts(items: Seq<GrokItem>) -> Seq<Seq<char>>
    decreases items.len(),
{
    if items.len() == 0 {
        Seq::empty()
    } else {
        let rest = item_texts(items.drop_last());
        let it = items.last();
        if is_word(it.kind, "text"@) && it.text is Some {
            rest.push(it.text->0@)
        } else {
            rest
        }
    }
}

pub open spec fn content_texts(c: GrokContent) -> Seq<Seq<char>> {
    match c {
        GrokContent::Text(s) => cleaned(seq![s@]),
        GrokContent::Items(items) => cleaned(item_texts(items@)),
        GrokContent::Other => Seq::empty(),
    }
}

pub open spec fn grok_turns(lines: Seq<GrokChatLine>) -> (Seq<Seq<char>>, Seq<Seq<char>>)
    decreases lines.len(),
{
    if lines.len() == 0 {
        (Seq::empty(), Seq::empty())
    } else {
        let (user, asst) = grok_turns(lines.drop_last());
        let l = lines.last();
        if is_word(l.kind, "user"@) {
            (user + content_texts(l.content), asst)
        } else if is_word(l.kind, "assistant"@) {
            (user, asst + content_texts(l.content))
        } else {
            (user, asst)
        }
    }
}

fn item_texts_exec(items: &Vec<GrokItem>) -> (r: Vec<String>)
    ensures
        strs(r@) == item_texts(items@),
{
    let mut r: Vec<String> = Vec::new();
    assert(items@.take(0) =~= Seq::<GrokItem>::empty());
    assert(strs(r@) =~= Seq::<Seq<char>>::empty());
    for i in 0..items.len()
        invariant
            strs(r@) == item_texts(items@.take(i as int)),
    {
        assert(items@.take(i + 1).drop_last() =~= items@.take(i as int));
        assert(items@.take(i + 1).last() == items@[i as int]);
        let it = &items[i];
        if is_word_exec(&it.kind, "text") {
            match &it.text {
                Some(t) => {
                    let ghost r0 = strs(r@);
                    r.push(string_of(&chars_of(t.as_str())));
                    assert(strs(r@) =~= r0.push(t@));
                },
                None => {},
            }
        }
    }
    assert(items@.take(items.len() as int) =~= items@);
    r
}

fn content_texts_exec(c: &GrokContent) -> (r: Vec<String>)
    ensures
        strs(r@) == content_texts(*c),
{
    let mut r: Vec<String> = Vec::new();
    assert(strs(r@) =~= Seq::<Seq<char>>::empty());
    match c {
        GrokContent::Text(s) => {
            let one: Vec<String> = vec![string_of(&chars_of(s.as_str()))];
            assert(strs(one@) =~= seq![s@]);
            push_cleaned(&mut r, &one);
            assert(strs(r@) =~= cleaned(seq![s@]));
        },
        GrokContent::Items(items) => {
            let ts = item_texts_exec(items);
            push_cleaned(&mut r, &ts);
            assert(strs(r@) =~= cleaned(item_texts(items@)));
        },
        GrokContent::Other => {},
    }
    r
}

/// Gather the user's and the assistant's turns of a chat history; system
/// lines are never kept.
pub fn grok_fold(lines: &[GrokChatLine]) -> (t: Turns)
    ensures
        (strs(t.user@), strs(t.assistant@)) == grok_turns(lines@),
{
    let mut t = Turns { user: Vec::new(), assistant: Vec::new() };
    assert(strs(t.user@) =~= Seq::<Seq<char>>::empty());
    assert(strs(t.assistant@) =~= Seq::<Seq<char>>::empty());
    assert(lines@.take(0) =~= Seq::<GrokChatLine>::empty());
    for i in 0..lines.len()
        invariant
            (strs(t.user@), strs(t.assistant@)) == grok_turns(lines@.take(i as int)),
    {
        assert(lines@.take(i + 1).drop_last() =~= lines@.take(i as int));
        assert(lines@.take(i + 1).last() == lines@[i as int]);
        let l = &lines[i];
        if is_word_exec(&l.kind, "user") {
            let ts = content_texts_exec(&l.content);
            let ghost u0 = strs(t.user@);
            for j in 0..ts.len()
                invariant
                    strs(t.user@) == u0 + strs(ts@).take(j as int),
                    strs(t.assistant@) == grok_turns(lines@.take(i as int)).1,
            {
                let ghost u1 = strs(t.user@);
                t.user.push(string_of(&chars_of(ts[j].as_str())));
                assert(strs(t.user@) =~= u1.push(ts@[j as int]@));
                assert(strs(ts@).take(j + 1) =~= strs(ts@).take(j as int).push(ts@[j as int]@));
            }
            assert(strs(ts@).take(ts.len() as int) =~= strs(ts@));
        } else if is_word_exec(&l.kind, "assistant") {
            let ts = content_texts_exec(&l.content);
            let ghost a0 = strs(t.assistant@);
            for j in 0..ts.len()
                invariant
                    strs(t.assistant@) == a0 + strs(ts@).take(j as int),
                    strs(t.user@) == grok_turns(lines@.take(i as int)).0,
            {
                let ghost a1 = strs(t.assistant@);
                t.assistant.push(string_of(&chars_of(ts[j].as_str())));
                assert(strs(t.assistant@) =~= a1.push(ts@[j as int]@));
                assert(strs(ts@).take(j + 1) =~= strs(ts@).take(j as int).push(ts@[j as int]@));
            }
            assert(strs(ts@).take(ts.len() as int) =~= strs(ts@));
        }
    }
    assert(lines@.take(lines.len() as int) =~= lines@);
    t
}

/// The drawer text of a Grok session, or `None` for a summary without an
/// id or with no chat messages. Grok sessions carry no title: the id names
/// them.
pub open spec fn grok_session_text(
    s: GrokSummary,
    turns: (Seq<Seq<char>>, Seq<Seq<char>>),
    max: nat,
) -> Option<(int, Seq<char>)> {
    let id = opt_text(s.id);
    let num = match s.num_chat_messages {
        Some(n) => n as int,
        None => 0,
    };
    if id.len() == 0 || num == 0 {
        None
    } else {
        let when = match ts_of(s.updated_at) {
            Some(t) => t,
            None => 0,
        };
        Some(
            (
                when,
                session_text(
                    id,
                    Seq::empty(),
                    when,
                    opt_text(s.cwd),
                    Seq::empty(),
                    first_turn(turns.0),
                    (0, 0),
                    turns.1,
                    max,
                ),
            ),
        )
    }
}

/// A summary that will be imported: it has an id and messages.
pub open spec fn grok_wanted(s: GrokSummary) -> bool {
    opt_text(s.id).len() > 0 && !(s.num_chat_messages is None || s.num_chat_messages == Some(0i64))
}

/// Turn a Grok session directory (its summary and chat turns) into a
/// session (see `grok_session_text`).
pub fn grok_session(s: &GrokSummary, turns: &Turns, max_chars: usize) -> (r: Option<RawSession>)
    requires
        grok_wanted(*s) ==> byte_cut_ok(opt_text(s.id), SESSION_ID_TITLE_BYTES as nat) && ts_ok(
            s.updated_at,
        ),
    ensures
        match (r, grok_session_text(*s, (strs(turns.user@), strs(turns.assistant@)), max_chars as nat)) {
            (None, None) => true,
            (Some(x), Some((when, text))) => x.id@ == opt_text(s.id) && x.title@.len() == 0
                && x.updated_at_ms == when && x.content@ == text,
            _ => false,
        },
{
    let id = opt_text_exec(&s.id);
    let num: i64 = match s.num_chat_messages {
        Some(n) => n,
        None => 0,
    };
    if id.len() == 0 || num == 0 {
        return None;
    }
    let when: i64 = match parse_ts(&s.updated_at) {
        Some(t) => t,
        None => 0,
    };
    let no_tools: Vec<String> = Vec::new();
    assert(strs(no_tools@) =~= Seq::<Seq<char>>::empty());
    let ids = string_of(&id);
    let cwd = string_of(&opt_text_exec(&s.cwd));
    let content = session_content(
        ids.as_str(),
        "",
        when,
        cwd.as_str(),
        &no_tools,
        first_turn_exec(&turns.user),
        (0, 0),
        &turns.assistant,
        max_chars,
    );
    proof {
        reveal_strlit("");
    }
    Some(RawSession { id: ids, title: String::new(), updated_at_ms: when, content })
}


/// A Codex turn that is neither the user's nor the assistant's (developer
/// or system prompts) changes nothing that is imported.
pub proof fn law_codex_other_roles_ignored(lines: Seq<CodexLine>, l: CodexLine)
    requires
        !is_word(l.kind, "session_meta"@),
        !is_word(l.role, "user"@),
        !is_word(l.role, "assistant"@),
    ensures
        codex_state(lines.push(l)) == codex_state(lines),
{
    assert(lines.push(l).drop_last() =~= lines);
}

/// A Grok chat line that is neither the user's nor the assistant's (system
/// prompts) changes nothing that is imported.
pub proof fn law_grok_other_roles_ignored(lines: Seq<GrokChatLine>, l: GrokChatLine)
    requires
        !is_word(l.kind, "user"@),
        !is_word(l.kind, "assistant"@),
    ensures
        grok_turns(lines.push(l)) == grok_turns(lines),
{
    assert(lines.push(l).drop_last() =~= lines);
}
/// A Grok session's "First message" is its first user turn: user turns
/// after the first change nothing in the session.
pub proof fn law_grok_first_user_turn_only(
    s: GrokSummary,
    user: Seq<Seq<char>>,
    later: Seq<Seq<char>>,
    assistant: Seq<Seq<char>>,
    max: nat,
)
    requires
        user.len() > 0,
    ensures
        grok_session_text(s, (user + later, assistant), max) == grok_session_text(
            s,
            (user, assistant),
            max,
        ),
{
    assert((user + later)[0] == user[0]);
}

/// The text of a Grok session holds "First message: " and the start of the
/// first user turn, when that turn is not blank.
pub proof fn law_grok_first_message_line(
    s: GrokSummary,
    turns: (Seq<Seq<char>>, Seq<Seq<char>>),
    max: nat,
)
    requires
        turns.0.len() > 0,
        trimmed(turns.0[0]).len() > 0,
    ensures
        grok_session_text(s, turns, max) matches Some((_, text)) ==> contains(
            text,
            "\nFirst message: "@ + prefix(trimmed(turns.0[0]), FIRST_MESSAGE_CHARS as int),
        ),
{
    let id = opt_text(s.id);
    let when = match ts_of(s.updated_at) {
        Some(t) => t,
        None => 0,
    };
    law_session_text_first_message(
        id,
        Seq::empty(),
        when,
        opt_text(s.cwd),
        Seq::empty(),
        turns.0[0],
        (0, 0),
        turns.1,
        max,
    );
}

/// The same for Codex: later user turns change nothing, and the first one
/// is the "First message".
pub proof fn law_codex_first_user_turn_only(
    f: (Seq<char>, Seq<char>, Option<int>, Seq<Seq<char>>, Seq<Seq<char>>),
    later: Seq<Seq<char>>,
    index: Seq<CodexIndexEntry>,
    max: nat,
)
    requires
        f.3.len() > 0,
    ensures
        codex_session_text((f.0, f.1, f.2, f.3 + later, f.4), index, max) == codex_session_text(
            f,
            index,
            max,
        ),
{
    assert((f.3 + later)[0] == f.3[0]);
}

} // verus!
