//! Which session stores exist, where they live, and the bookkeeping of an
//! incremental import run.
use vstd::prelude::*;
use crate::import_sessions::{byte_cut_ok, byte_prefix, byte_prefix_chars, slug, slugify};
use crate::numparse::{parse_unsigned, parse_usize};
use crate::text::{append_chars, append_str, chars_of, eq_str, string_of};

verus! {

/// The session stores that can be imported, in the order `auto` visits them.
pub const SOURCE_NAMES: [&'static str; 4] = ["opencode", "codex", "grok", "zcode"];

pub open spec fn is_source_name(s: Seq<char>) -> bool {
    s == "opencode"@ || s == "codex"@ || s == "grok"@ || s == "zcode"@
}

/// The names listed in `SOURCE_NAMES` are exactly the store names that
/// are accepted.
pub proof fn law_listed_sources_are_accepted(s: Seq<char>)
    ensures
        is_source_name(s) <==> exists|i: int| 0 <= i < 4 && s == #[trigger] SOURCE_NAMES[i]@,
{
    if is_source_name(s) {
        if s == "opencode"@ {
            assert(s == SOURCE_NAMES[0]@);
        } else if s == "codex"@ {
            assert(s == SOURCE_NAMES[1]@);
        } else if s == "grok"@ {
            assert(s == SOURCE_NAMES[2]@);
        } else {
            assert(s == SOURCE_NAMES[3]@);
        }
    }
}

/// The four store names (and "auto") are different words.
proof fn lemma_source_literals_distinct()
    ensures
        "opencode"@ != "codex"@,
        "opencode"@ != "grok"@,
        "opencode"@ != "zcode"@,
        "codex"@ != "grok"@,
        "codex"@ != "zcode"@,
        "grok"@ != "zcode"@,
        !is_source_name("auto"@),
{
    reveal_strlit("opencode");
    reveal_strlit("codex");
    reveal_strlit("grok");
    reveal_strlit("zcode");
    reveal_strlit("auto");
    assert("opencode"@.len() == 8 && "opencode"@[0] == 'o');
    assert("codex"@.len() == 5 && "codex"@[0] == 'c');
    assert("grok"@.len() == 4 && "grok"@[0] == 'g');
    assert("zcode"@.len() == 5 && "zcode"@[0] == 'z');
    assert("auto"@.len() == 4 && "auto"@[0] == 'a');
}

fn is_source_name_exec(v: &[char]) -> (b: bool)
    ensures
        b == is_source_name(v@),
{
    eq_str(v, "opencode") || eq_str(v, "codex") || eq_str(v, "grok") || eq_str(v, "zcode")
}

/// Why a session source was refused.
#[derive(Debug, Clone, PartialEq, Eq)]
pub enum SourceError {
    /// Not one of the known stores; `with_auto` tells whether "auto" was an
    /// allowed answer where the name was given.
    InvalidSource { given: String, with_auto: bool },
    /// A known store that is missing on this machine.
    SourceNotFound { source: String },
}

pub open spec fn invalid_source_text(given: Seq<char>, with_auto: bool) -> Seq<char> {
    "InvalidSource: unknown session source '"@ + given + "' (expected one of: "@ + (if with_auto {
        "auto, "@
    } else {
        Seq::empty()
    }) + "opencode, codex, grok, zcode)"@
}

pub open spec fn not_found_text(source: Seq<char>) -> Seq<char> {
    "SourceNotFound: no '"@ + source + "' session store found on this machine"@
}

impl SourceError {
    pub open spec fn text(&self) -> Seq<char> {
        match self {
            SourceError::InvalidSource { given, with_auto } => invalid_source_text(given@, *with_auto),
            SourceError::SourceNotFound { source } => not_found_text(source@),
        }
    }

    /// The error as a sentence that names its kind first.
    pub fn message(&self) -> (r: String)
        ensures
            r@ == self.text(),
    {
        let mut c: Vec<char> = Vec::new();
        match self {
            SourceError::InvalidSource { given, with_auto } => {
                append_str(&mut c, "InvalidSource: unknown session source '");
                append_str(&mut c, given.as_str());
                append_str(&mut c, "' (expected one of: ");
                let ghost c0 = c@;
                if *with_auto {
                    append_str(&mut c, "auto, ");
                } else {
                    assert(c@ =~= c0 + Seq::<char>::empty());
                }
                append_str(&mut c, "opencode, codex, grok, zcode)");
            },
            SourceError::SourceNotFound { source } => {
                append_str(&mut c, "SourceNotFound: no '");
                append_str(&mut c, source.as_str());
                append_str(&mut c, "' session store found on this machine");
            },
        }
        string_of(&c)
    }
}

pub open spec fn source_arg(raw: Option<Seq<char>>) -> Seq<char> {
    match raw {
        Some(s) => s,
        None => "auto"@,
    }
}

pub open spec fn opt_str_view(raw: Option<&str>) -> Option<Seq<char>> {
    match raw {
        Some(s) => Some(s@),
        None => None,
    }
}

/// Validate an `index-sessions --source` value; no value means "auto".
pub fn normalize_source_arg(raw: Option<&str>) -> (r: Result<String, SourceError>)
    ensures
        ({
            let s = source_arg(opt_str_view(raw));
            match r {
                Ok(v) => (is_source_name(s) || s == "auto"@) && v@ == s,
                Err(e) => !(is_source_name(s) || s == "auto"@) && e == (SourceError::InvalidSource {
                    given: e->given,
                    with_auto: true,
                }) && e->given@ == s,
            }
        }),
{
    let s: &str = match raw {
        Some(s) => s,
        None => "auto",
    };
    let v = chars_of(s);
    if is_source_name_exec(&v) || eq_str(&v, "auto") {
        Ok(string_of(&v))
    } else {
        Err(SourceError::InvalidSource { given: string_of(&v), with_auto: true })
    }
}

/// Refuse an unknown source name, then a known store that is not present.
pub fn check_source(source: &str, present: bool) -> (r: Result<(), SourceError>)
    ensures
        match r {
            Ok(()) => is_source_name(source@) && present,
            Err(SourceError::InvalidSource { given, with_auto }) => !is_source_name(source@)
                && given@ == source@ && !with_auto,
            Err(SourceError::SourceNotFound { source: s }) => is_source_name(source@) && !present
                && s@ == source@,
        },
{
    let v = chars_of(source);
    if !is_source_name_exec(&v) {
        Err(SourceError::InvalidSource { given: string_of(&v), with_auto: false })
    } else if !present {
        Err(SourceError::SourceNotFound { source: string_of(&v) })
    } else {
        Ok(())
    }
}

// ── store locations ─────────────────────────────────────────────────────────
/// Where every known session store lives.
pub struct SourcePaths {
    pub opencode_db: String,
    pub codex_home: String,
    pub grok_home: String,
    pub zcode_db: String,
}

/// An override when it is set and not empty, else the default.
pub open spec fn override_or(value: Option<Seq<char>>, default: Seq<char>) -> Seq<char> {
    match value {
        Some(v) => if v.len() > 0 {
            v
        } else {
            default
        },
        None => default,
    }
}

fn override_or_exec(value: Option<&str>, home: &str, suffix: &str) -> (r: String)
    ensures
        r@ == override_or(opt_str_view(value), home@ + suffix@),
{
    match value {
        Some(v) => {
            let vv = chars_of(v);
            if vv.len() > 0 {
                return string_of(&vv);
            }
        },
        None => {},
    }
    let mut c = chars_of(home);
    append_str(&mut c, suffix);
    string_of(&c)
}

/// `base` joined with a relative `name`, as `Path::join` does it.
pub open spec fn join_path(base: Seq<char>, name: Seq<char>) -> Seq<char> {
    if base.len() == 0 {
        name
    } else if base.last() == '/' {
        base + name
    } else {
        base + seq!['/'] + name
    }
}

pub(crate) fn join_path_exec(base: &str, name: &str) -> (r: String)
    ensures
        r@ == join_path(base@, name@),
{
    let mut c = chars_of(base);
    if c.len() > 0 && c[c.len() - 1] != '/' {
        c.push('/');
    }
    append_str(&mut c, name);
    string_of(&c)
}

/// What to look for on disk to know that a store exists.
pub struct StoreProbe {
    pub path: String,
    /// A directory is looked for; otherwise a regular file.
    pub is_dir: bool,
}

impl SourcePaths {
    /// Store locations from the home directory and the optional overrides
    /// (MEMPALACE_OPENCODE_DB, MEMPALACE_CODEX_HOME, MEMPALACE_GROK_HOME,
    /// MEMPALACE_ZCODE_DB).
    pub fn resolve_with(
        home: &str,
        opencode_db: Option<&str>,
        codex_home: Option<&str>,
        grok_home: Option<&str>,
        zcode_db: Option<&str>,
    ) -> (p: SourcePaths)
        ensures
            p.opencode_db@ == override_or(
                opt_str_view(opencode_db),
                home@ + "/.local/share/opencode/opencode.db"@,
            ),
            p.codex_home@ == override_or(opt_str_view(codex_home), home@ + "/.codex"@),
            p.grok_home@ == override_or(opt_str_view(grok_home), home@ + "/.grok"@),
            p.zcode_db@ == override_or(opt_str_view(zcode_db), home@ + "/.zcode/cli/db/db.sqlite"@),
    {
        SourcePaths {
            opencode_db: override_or_exec(opencode_db, home, "/.local/share/opencode/opencode.db"),
            codex_home: override_or_exec(codex_home, home, "/.codex"),
            grok_home: override_or_exec(grok_home, home, "/.grok"),
            zcode_db: override_or_exec(zcode_db, home, "/.zcode/cli/db/db.sqlite"),
        }
    }

    /// What must exist on disk for `source` to count as present: the
    /// database file of OpenCode and Zcode, the `sessions` directory of
    /// Codex and Grok; nothing for an unknown name.
    pub fn store_probe(&self, source: &str) -> (r: Option<StoreProbe>)
        ensures
            source@ == "opencode"@ ==> (r matches Some(p) && p.path@ == self.opencode_db@ && !p.is_dir),
            source@ == "codex"@ ==> (r matches Some(p) && p.path@ == join_path(
                self.codex_home@,
                "sessions"@,
            ) && p.is_dir),
            source@ == "grok"@ ==> (r matches Some(p) && p.path@ == join_path(self.grok_home@, "sessions"@)
                && p.is_dir),
            source@ == "zcode"@ ==> (r matches Some(p) && p.path@ == self.zcode_db@ && !p.is_dir),
            !is_source_name(source@) ==> r is None,
    {
        proof {
            lemma_source_literals_distinct();
        }
        let v = chars_of(source);
        if eq_str(&v, "opencode") {
            Some(StoreProbe { path: string_of(&chars_of(self.opencode_db.as_str())), is_dir: false })
        } else if eq_str(&v, "codex") {
            Some(StoreProbe { path: join_path_exec(self.codex_home.as_str(), "sessions"), is_dir: true })
        } else if eq_str(&v, "grok") {
            Some(StoreProbe { path: join_path_exec(self.grok_home.as_str(), "sessions"), is_dir: true })
        } else if eq_str(&v, "zcode") {
            Some(StoreProbe { path: string_of(&chars_of(self.zcode_db.as_str())), is_dir: false })
        } else {
            None
        }
    }
}

// ── incremental import ──────────────────────────────────────────────────────
/// The progress of one import run over a list of sessions: the sync state
/// it started from (none for a full run), the latest update time seen, and
/// how many drawers were written.
pub struct SyncCursor {
    pub since: Option<i64>,
    pub max_ts: i64,
    pub imported: usize,
}

pub open spec fn floor_of(since: Option<i64>) -> i64 {
    match since {
        Some(c) => c,
        None => 0,
    }
}

pub open spec fn max_i64(a: i64, b: i64) -> i64 {
    if b > a {
        b
    } else {
        a
    }
}

/// The cursor a run starts with: a full run, or a store never synced
/// (state 0 or less), has no cut-off.
pub open spec fn start_cursor(full: bool, last: i64) -> SyncCursor {
    let since = if full {
        None
    } else if last > 0 {
        Some(last)
    } else {
        None
    };
    SyncCursor { since, max_ts: floor_of(since), imported: 0 }
}

impl SyncCursor {
    pub open spec fn wf(&self) -> bool {
        &&& self.max_ts >= floor_of(self.since)
        &&& floor_of(self.since) >= 0
    }

    /// A session is looked at only when it changed after the cut-off.
    pub open spec fn admits(&self, ts: i64) -> bool {
        match self.since {
            Some(cut) => ts > cut,
            None => true,
        }
    }

    /// The sync state to record at the end: the latest update time, when it
    /// moved past the starting state.
    pub open spec fn next_state(&self) -> Option<i64> {
        if self.max_ts > floor_of(self.since) {
            Some(self.max_ts)
        } else {
            None
        }
    }

    /// Start a run; `last` is the recorded sync state of the store.
    pub fn start(full: bool, last: i64) -> (c: SyncCursor)
        ensures
            c == start_cursor(full, last),
            c.wf(),
    {
        let since = if full {
            None
        } else if last > 0 {
            Some(last)
        } else {
            None
        };
        let floor = match since {
            Some(c) => c,
            None => 0,
        };
        SyncCursor { since, max_ts: floor, imported: 0 }
    }

    /// Whether the session updated at `ts` is to be looked at.
    pub fn wants(&self, ts: i64) -> (b: bool)
        ensures
            b == self.admits(ts),
    {
        match self.since {
            Some(cut) => ts > cut,
            None => true,
        }
    }

    /// A session whose stored text was already identical.
    pub fn note_unchanged(&mut self, ts: i64)
        requires
            old(self).wf(),
        ensures
            final(self).wf(),
            final(self).since == old(self).since,
            final(self).imported == old(self).imported,
            final(self).max_ts == max_i64(old(self).max_ts, ts),
    {
        if ts > self.max_ts {
            self.max_ts = ts;
        }
    }

    /// A session that was written (`stored`) or whose write failed.
    pub fn note_written(&mut self, stored: bool, ts: i64)
        requires
            old(self).wf(),
            old(self).imported < usize::MAX,
        ensures
            final(self).wf(),
            final(self).since == old(self).since,
            final(self).imported == old(self).imported + if stored {
                1int
            } else {
                0int
            },
            final(self).max_ts == max_i64(old(self).max_ts, ts),
    {
        if stored {
            self.imported = self.imported + 1;
        }
        if ts > self.max_ts {
            self.max_ts = ts;
        }
    }

    /// The sync state to record when the run is over (see `next_state`).
    pub fn state_to_record(&self) -> (r: Option<i64>)
        ensures
            r == self.next_state(),
    {
        let floor = match self.since {
            Some(c) => c,
            None => 0,
        };
        if self.max_ts > floor {
            Some(self.max_ts)
        } else {
            None
        }
    }
}

/// After a run that recorded a sync state, the next incremental run skips
/// every session that has not changed since the latest one seen.
pub proof fn law_resume_skips_seen(c: SyncCursor, ts: i64)
    requires
        c.wf(),
        c.next_state() is Some,
        ts <= c.next_state()->0,
    ensures
        !start_cursor(false, c.next_state()->0).admits(ts),
{
}

/// A run only moves the sync state forward: what it records is later than
/// where it started and no earlier than any session it looked at.
pub proof fn law_recorded_state_is_latest(c: SyncCursor, seen: Seq<i64>)
    requires
        c.wf(),
        forall|i: int| 0 <= i < seen.len() ==> seen[i] <= c.max_ts,
    ensures
        c.next_state() matches Some(m) ==> m > floor_of(c.since) && forall|i: int|
            0 <= i < seen.len() ==> seen[i] <= m,
        c.next_state() is None ==> c.max_ts == floor_of(c.since),
{
}

/// The latest of `base` and the times `tss`.
pub open spec fn latest(base: i64, tss: Seq<i64>) -> i64
    decreases tss.len(),
{
    if tss.len() == 0 {
        base
    } else {
        max_i64(latest(base, tss.drop_last()), tss.last())
    }
}

/// The latest update time a run starting from cursor `c` has seen after the
/// sessions updated at `tss`: every session it looks at (`admits`) moves it
/// forward (`note_unchanged`, `note_written`); skipped ones do not.
pub open spec fn run_max(c: SyncCursor, tss: Seq<i64>) -> i64
    decreases tss.len(),
{
    if tss.len() == 0 {
        c.max_ts
    } else {
        let m = run_max(c, tss.drop_last());
        if c.admits(tss.last()) {
            max_i64(m, tss.last())
        } else {
            m
        }
    }
}

/// The sync state a store has after a run from cursor `c` over `tss`,
/// `last` being the state it had before.
pub open spec fn state_after(c: SyncCursor, tss: Seq<i64>, last: i64) -> i64 {
    match (SyncCursor { max_ts: run_max(c, tss), ..c }).next_state() {
        Some(m) => m,
        None => last,
    }
}

proof fn lemma_run_max_incremental(last: i64, tss: Seq<i64>)
    requires
        last > 0,
    ensures
        run_max(start_cursor(false, last), tss) == latest(last, tss),
        latest(last, tss) >= last,
    decreases tss.len(),
{
    if tss.len() > 0 {
        lemma_run_max_incremental(last, tss.drop_last());
    }
}

proof fn lemma_run_max_full(last: i64, tss: Seq<i64>)
    ensures
        run_max(start_cursor(true, last), tss) == latest(0, tss),
        latest(0, tss) >= 0,
    decreases tss.len(),
{
    if tss.len() > 0 {
        lemma_run_max_full(last, tss.drop_last());
    }
}

/// A whole incremental run over sessions updated at `tss`, on a store
/// synced up to `last`, leaves the store synced up to the latest of `last`
/// and every update time; sessions updated no later than `last` are never
/// looked at.
pub proof fn law_run_records_latest(last: i64, tss: Seq<i64>)
    requires
        last > 0,
    ensures
        state_after(start_cursor(false, last), tss, last) == latest(last, tss),
        forall|i: int| 0 <= i < tss.len() && tss[i] <= last ==> !start_cursor(false, last).admits(
            #[trigger] tss[i],
        ),
{
    lemma_run_max_incremental(last, tss);
}

/// A full run records the latest update time of all its sessions, when
/// there is one after the epoch.
pub proof fn law_full_run_records_latest(last: i64, tss: Seq<i64>)
    ensures
        latest(0, tss) > 0 ==> state_after(start_cursor(true, last), tss, last) == latest(0, tss),
        latest(0, tss) == 0 ==> state_after(start_cursor(true, last), tss, last) == last,
{
    lemma_run_max_full(last, tss);
}

/// A full run looks at every session.
pub proof fn law_full_run_admits_all(last: i64, ts: i64)
    ensures
        start_cursor(true, last).admits(ts),
{
}

// ── rooms and ids ───────────────────────────────────────────────────────────
/// The room of a session: its slugified title, or "session-" and the first
/// 8 bytes of its id when it has no title.
pub open spec fn session_room_text(title: Seq<char>, id: Seq<char>) -> Seq<char> {
    if title.len() == 0 {
        "session-"@ + byte_prefix(id, 8)
    } else {
        slug(title)
    }
}

pub fn session_room(title: &str, id: &str) -> (r: String)
    requires
        title@.len() == 0 ==> byte_cut_ok(id@, 8),
    ensures
        r@ == session_room_text(title@, id@),
{
    let tv = chars_of(title);
    if tv.len() == 0 {
        let mut c: Vec<char> = Vec::new();
        append_str(&mut c, "session-");
        append_chars(&mut c, &byte_prefix_chars(&chars_of(id), 8));
        string_of(&c)
    } else {
        slugify(title)
    }
}

/// The stable drawer id of a session: the source's prefix and its id.
pub fn session_drawer_id(prefix: &str, id: &str) -> (r: String)
    ensures
        r@ == prefix@ + id@,
{
    let mut c = chars_of(prefix);
    append_str(&mut c, id);
    string_of(&c)
}

pub const DEFAULT_SESSION_MAX_CHARS: usize = 3000;

/// The body budget of a session: MEMPALACE_SESSION_MAX_CHARS when it reads
/// as a number, else 3000.
pub fn session_max_chars(raw: Option<&str>) -> (r: usize)
    ensures
        ({
            let parsed = match raw {
                Some(s) => parse_unsigned(s@, usize::MAX as nat),
                None => None,
            };
            r == match parsed {
                Some(n) => n,
                None => DEFAULT_SESSION_MAX_CHARS as nat,
            }
        }),
{
    match raw {
        Some(s) => match parse_usize(&chars_of(s)) {
            Some(n) => n,
            None => DEFAULT_SESSION_MAX_CHARS,
        },
        None => DEFAULT_SESSION_MAX_CHARS,
    }
}


/// The stores an `auto` run imports: those present, in `SOURCE_NAMES`
/// order.
pub open spec fn present_sources(present: Seq<bool>) -> Seq<Seq<char>>
    decreases present.len(),
{
    if present.len() == 0 || present.len() > 4 {
        Seq::empty()
    } else {
        let k = present.len() - 1;
        let rest = present_sources(present.drop_last());
        if present[k] {
            rest.push(SOURCE_NAMES[k]@)
        } else {
            rest
        }
    }
}

/// Pick the stores to import in `auto` mode; `present[i]` tells whether
/// the store `SOURCE_NAMES[i]` exists. A missing store is skipped, never an
/// error.
pub fn auto_sources(present: &[bool; 4]) -> (r: Vec<&'static str>)
    ensures
        r@.map_values(|n: &str| n@) == present_sources(present@),
{
    let mut r: Vec<&'static str> = Vec::new();
    assert(present@.take(0) =~= Seq::<bool>::empty());
    assert(r@.map_values(|n: &str| n@) =~= Seq::<Seq<char>>::empty());
    for i in 0..4
        invariant
            r@.map_values(|n: &str| n@) == present_sources(present@.take(i as int)),
    {
        assert(present@.take(i + 1).drop_last() =~= present@.take(i as int));
        assert(present@.take(i + 1)[i as int] == present@[i as int]);
        if present[i] {
            let ghost r0 = r@.map_values(|n: &str| n@);
            r.push(SOURCE_NAMES[i]);
            assert(r@.map_values(|n: &str| n@) =~= r0.push(SOURCE_NAMES[i as int]@));
        }
    }
    assert(present@.take(4) =~= present@);
    r
}

/// What the import does with one session.
#[derive(Debug, Clone, Copy, PartialEq, Eq, Structural)]
pub enum SessionStep {
    /// Not changed since the last recorded sync: not looked at.
    Skip,
    /// The stored drawer already holds exactly this text: nothing written.
    Unchanged,
    /// The drawer is written (created or replaced).
    Write,
}

pub open spec fn step_of(c: SyncCursor, ts: i64, stored: Option<Seq<char>>, content: Seq<char>) -> SessionStep {
    if !c.admits(ts) {
        SessionStep::Skip
    } else if stored == Some(content) {
        SessionStep::Unchanged
    } else {
        SessionStep::Write
    }
}

impl SyncCursor {
    /// Decide what happens to a session updated at `ts` whose drawer
    /// currently holds `stored` (if it exists).
    pub fn step(&self, ts: i64, stored: Option<&str>, content: &str) -> (r: SessionStep)
        ensures
            r == step_of(*self, ts, opt_str_view(stored), content@),
    {
        if !self.wants(ts) {
            return SessionStep::Skip;
        }
        match stored {
            Some(s) => if crate::text::eq_chars(&chars_of(s), &chars_of(content)) {
                SessionStep::Unchanged
            } else {
                SessionStep::Write
            },
            None => SessionStep::Write,
        }
    }
}

/// A session whose drawer already holds exactly its text is not written
/// again.
pub proof fn law_identical_content_not_rewritten(c: SyncCursor, ts: i64, content: Seq<char>)
    requires
        c.admits(ts),
    ensures
        step_of(c, ts, Some(content), content) == SessionStep::Unchanged,
{
}
} // verus!
