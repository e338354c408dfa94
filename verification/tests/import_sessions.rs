use mempalace::import_sessions::{byte_cut_allowed, head_tail_texts, session_content, slugify};
use mempalace::mcp::TOOLS_JSON;
use mempalace::sources::{
    auto_sources, check_source, normalize_source_arg, session_drawer_id, session_max_chars,
    session_room, SessionStep, SourceError, SourcePaths, SyncCursor, SOURCE_NAMES,
};
use mempalace::timefmt::millis_to_dt;

#[test]
fn test_slugify_replaces_spaces_with_dashes() {
    assert_eq!(slugify("Hello World"), "hello-world");
}

#[test]
fn test_slugify_collapses_multiple_dashes() {
    assert_eq!(slugify("a--b"), "a-b");
}

#[test]
fn test_slugify_max_64_chars() {
    let long = "a".repeat(100);
    let result = slugify(&long);
    assert!(result.len() <= 64);
    assert!(result.chars().all(|c| c == 'a'));
}

#[test]
fn test_slugify_empty_string() {
    assert_eq!(slugify(""), "session");
}

#[test]
fn test_slugify_special_chars() {
    assert_eq!(slugify("Session: Memory?"), "session-memory");
}

#[test]
fn test_slugify_dots_become_dashes() {
    assert_eq!(slugify("2026-04-07T16:08:41.328Z"), "2026-04-07t16-08-41-328z");
}

#[test]
fn test_slugify_leading_trailing_dashes_trimmed() {
    assert_eq!(slugify("-hello-"), "hello");
}

#[test]
fn test_slugify_mixed_case_and_numbers() {
    assert_eq!(slugify("TestRoom42"), "testroom42");
}

#[test]
fn test_millis_to_dt_basic() {
    let dt = millis_to_dt(1777975686000);
    assert!(dt.starts_with("2026-05-"));
    assert!(dt.contains(":"));
}

#[test]
fn test_millis_to_dt_epoch() {
    let dt = millis_to_dt(0);
    assert_eq!(dt, "1970-01-01 00:00:00");
}

#[test]
fn test_tools_json_import_sessions_documents_sources() {
    let tools = TOOLS_JSON;
    assert!(tools.contains("\"mempalace_import_sessions\""));
    assert!(tools.contains("\"source\""));
    for s in SOURCE_NAMES {
        assert!(tools.contains(s), "TOOLS_JSON missing source name {s}");
    }
    assert!(tools.contains("\"auto\""));
}

#[test]
fn test_cli_index_sessions_source_flag() {
    assert_eq!(normalize_source_arg(None).unwrap(), "auto");
    for s in SOURCE_NAMES {
        assert_eq!(normalize_source_arg(Some(s)).unwrap(), *s);
    }
    let err = normalize_source_arg(Some("cursor")).unwrap_err();
    assert!(err.message().contains("InvalidSource"), "got: {}", err.message());
}

// ── further cases ───────────────────────────────────────────────────────────

#[test]
fn slug_is_cut_after_collapsing() {
    let s = slugify(&format!("{}--{}", "x".repeat(63), "y"));
    assert_eq!(s.len(), 64);
    assert!(s.ends_with('-'));
    assert!(!s.contains("--"));
}

#[test]
fn millis_to_dt_exact_values() {
    assert_eq!(millis_to_dt(1777975686000), "2026-05-05 10:08:06");
    assert_eq!(millis_to_dt(951782400000), "2000-02-29 00:00:00");
    assert_eq!(millis_to_dt(-1000), "1970-01-01 00:00:-1");
    assert_eq!(millis_to_dt(31_536_000_000), "1971-01-01 00:00:00");
    assert_eq!(millis_to_dt(63_072_000_000), "1972-01-01 00:00:00");
    assert_eq!(millis_to_dt(1_798_761_600_000), "2027-01-01 00:00:00");
    assert_eq!(millis_to_dt(4_107_542_400_000), "2100-03-01 00:00:00");
}

#[test]
fn source_errors() {
    let e = normalize_source_arg(Some("cursor")).unwrap_err();
    assert_eq!(
        e.message(),
        "InvalidSource: unknown session source 'cursor' (expected one of: auto, opencode, codex, grok, zcode)"
    );
    assert_eq!(
        check_source("bogus", true).unwrap_err().message(),
        "InvalidSource: unknown session source 'bogus' (expected one of: opencode, codex, grok, zcode)"
    );
    match check_source("codex", false) {
        Err(e @ SourceError::SourceNotFound { .. }) => assert_eq!(
            e.message(),
            "SourceNotFound: no 'codex' session store found on this machine"
        ),
        other => panic!("{other:?}"),
    }
    assert!(check_source("grok", true).is_ok());
    assert!(check_source("auto", true).is_err());
}

#[test]
fn store_locations() {
    let p = SourcePaths::resolve_with("/home/u", None, Some(""), Some("/g"), None);
    assert_eq!(p.opencode_db, "/home/u/.local/share/opencode/opencode.db");
    assert_eq!(p.codex_home, "/home/u/.codex");
    assert_eq!(p.grok_home, "/g");
    assert_eq!(p.zcode_db, "/home/u/.zcode/cli/db/db.sqlite");
    let probe = p.store_probe("codex").unwrap();
    assert_eq!(probe.path, "/home/u/.codex/sessions");
    assert!(probe.is_dir);
    let probe = p.store_probe("zcode").unwrap();
    assert_eq!(probe.path, "/home/u/.zcode/cli/db/db.sqlite");
    assert!(!probe.is_dir);
    assert!(p.store_probe("cursor").is_none());
    let q = SourcePaths::resolve_with("/h", None, Some("/c/"), None, None);
    assert_eq!(q.store_probe("codex").unwrap().path, "/c/sessions");
}

#[test]
fn incremental_runs_skip_what_was_seen() {
    let mut c = SyncCursor::start(false, 0);
    assert!(c.wants(5));
    c.note_written(true, 10);
    c.note_unchanged(20);
    c.note_written(false, 15);
    assert_eq!(c.imported, 1);
    let state = c.state_to_record().unwrap();
    assert_eq!(state, 20);
    let next = SyncCursor::start(false, state);
    assert!(!next.wants(20));
    assert!(next.wants(21));
    assert_eq!(next.state_to_record(), None);
    let full = SyncCursor::start(true, state);
    assert!(full.wants(1));
}

#[test]
fn rooms_ids_and_budget() {
    assert_eq!(session_room("", "abcdef0123456789"), "session-abcdef01");
    assert_eq!(session_room("My Title!", "x"), "my-title");
    assert_eq!(session_drawer_id("codex_", "42"), "codex_42");
    assert_eq!(session_max_chars(None), 3000);
    assert_eq!(session_max_chars(Some("1000")), 1000);
    assert_eq!(session_max_chars(Some("lots")), 3000);
}

#[test]
fn byte_cuts() {
    assert!(byte_cut_allowed("abc", 16));
    assert!(byte_cut_allowed("aé", 3));
    assert!(!byte_cut_allowed("aé", 2));
}

fn strings(v: &[&str]) -> Vec<String> {
    v.iter().map(|s| s.to_string()).collect()
}

#[test]
fn head_tail_bodies() {
    assert_eq!(head_tail_texts(&[], 100), "");
    assert_eq!(head_tail_texts(&strings(&["one"]), 100), "one");
    assert_eq!(head_tail_texts(&strings(&["aaaa", "bbbb", "cccc"]), 8), "aaaa\n...\ncccc");
    assert_eq!(head_tail_texts(&strings(&["ab", "cd"]), 100), "ab\ncd");
}

#[test]
fn session_text_layout() {
    let texts = strings(&["did it"]);
    let tools = strings(&["bash", "edit"]);
    let c = session_content("id1", "Title", 0, "/d", &tools, Some("  hi  "), (2, 3), &texts, 3000);
    assert_eq!(
        c,
        "Session: Title\nDate: 1970-01-01 00:00:00\nDirectory: /d\nUsed tools: bash, edit\nFirst message: hi\nMessages: 2, Parts: 3\ndid it"
    );
    let c = session_content("0123456789abcdefXYZ", "", 0, "", &[], None, (0, 0), &[], 3000);
    assert_eq!(c, "Session: 0123456789abcdef\nDate: 1970-01-01 00:00:00");
}

#[test]
fn auto_mode_takes_present_stores_in_order() {
    assert_eq!(auto_sources(&[false, true, false, true]), vec!["codex", "zcode"]);
    assert!(auto_sources(&[false; 4]).is_empty());
    assert_eq!(auto_sources(&[true; 4]), SOURCE_NAMES.to_vec());
}

#[test]
fn session_steps() {
    let c = SyncCursor::start(false, 100);
    assert_eq!(c.step(50, Some("x"), "y"), SessionStep::Skip);
    assert_eq!(c.step(150, Some("same"), "same"), SessionStep::Unchanged);
    assert_eq!(c.step(150, Some("old"), "new"), SessionStep::Write);
    assert_eq!(c.step(150, None, "new"), SessionStep::Write);
}

#[test]
fn test_session_max_chars() {
    // The environment variable MEMPALACE_SESSION_MAX_CHARS, unset and set.
    assert_eq!(session_max_chars(None), 3000);
    assert_eq!(session_max_chars(Some("1000")), 1000);
}

#[test]
fn whole_run_records_latest_time() {
    // A store synced up to 100; sessions updated at 50, 150, 120 and 90.
    let mut c = SyncCursor::start(false, 100);
    for ts in [50i64, 150, 120, 90] {
        if c.wants(ts) {
            c.note_written(true, ts);
        }
    }
    assert_eq!(c.imported, 2);
    assert_eq!(c.state_to_record(), Some(150));
    // Nothing newer: the state stays where it was.
    let mut c = SyncCursor::start(false, 100);
    for ts in [50i64, 100] {
        if c.wants(ts) {
            c.note_written(true, ts);
        }
    }
    assert_eq!(c.state_to_record(), None);
}

#[test]
fn session_bodies_stay_within_budget() {
    let long: Vec<String> = (0..20).map(|i| format!("turn {i} {}", "é".repeat(300))).collect();
    for max in [0usize, 1, 7, 100, 3000] {
        let body = head_tail_texts(&long, max);
        assert!(body.chars().count() <= max + 6, "max {max}: {}", body.chars().count());
    }
}
