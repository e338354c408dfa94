use mempalace::digest::{drawer_id, drawer_id_from_digest, triple_id, triple_id_from_digest};
use mempalace::store::{diary_content, diary_entry, replace_all, sanitize_fts_query};

#[test]
fn test_sanitize_fts_query_multi_word() {
    assert_eq!(sanitize_fts_query("hello world"), "hello OR world".to_string());
}

#[test]
fn test_sanitize_fts_query_single_word() {
    assert_eq!(sanitize_fts_query("hello"), "hello".to_string());
}

#[test]
fn test_sanitize_fts_query_three_words() {
    assert_eq!(sanitize_fts_query("a b c"), "a OR b OR c".to_string());
}

#[test]
fn test_sanitize_fts_query_empty() {
    assert_eq!(sanitize_fts_query(""), "".to_string());
}

#[test]
fn test_sanitize_fts_query_already_has_quotes() {
    let q = r#""exact phrase""#;
    assert_eq!(sanitize_fts_query(q), q.to_string());
}

#[test]
fn test_sanitize_fts_query_already_has_wildcard() {
    let q = "prefix*";
    assert_eq!(sanitize_fts_query(q), q.to_string());
}

#[test]
fn test_sanitize_fts_query_already_has_and() {
    let q = "foo AND bar";
    assert_eq!(sanitize_fts_query(q), q.to_string());
}

#[test]
fn test_sanitize_fts_query_already_has_or() {
    let q = "foo OR bar";
    assert_eq!(sanitize_fts_query(q), q.to_string());
}

#[test]
fn test_sanitize_fts_query_already_has_parentheses() {
    let q = "(hello world)";
    assert_eq!(sanitize_fts_query(q), q.to_string());
}

#[test]
fn test_sanitize_fts_query_whitespace_only() {
    assert_eq!(sanitize_fts_query("   "), "   ".to_string());
}

// ── further cases ───────────────────────────────────────────────────────────

#[test]
fn fts_query_collapses_whitespace_runs() {
    assert_eq!(sanitize_fts_query("  rust \t importer\n"), "rust OR importer");
    assert_eq!(sanitize_fts_query("c++ code"), "c++ code");
    assert_eq!(sanitize_fts_query("this NOT that"), "this NOT that");
}

#[test]
fn replace_like_str_replace() {
    assert_eq!(replace_all("hello old world old", "old", "new"), "hello new world new");
    assert_eq!(replace_all("aaa", "aa", "b"), "ba");
    assert_eq!(replace_all("abc", "", "-"), "-a-b-c-");
    assert_eq!(replace_all("abc", "x", "y"), "abc");
    assert_eq!(replace_all("say \"hi\"", "\"", "\\\""), "say \\\"hi\\\"");
}

#[test]
fn diary_entries_read_back() {
    let stored = diary_content("debug", "fixed a crash");
    assert_eq!(stored, "[debug] fixed a crash");
    let e = diary_entry(&stored, "2026-05-06 18:30:00");
    assert_eq!(e.topic, "debug");
    assert_eq!(e.content, "fixed a crash");
    assert_eq!(e.date, "2026-05-06");
    assert_eq!(e.timestamp, "2026-05-06 18:30:00");
    let e = diary_entry("no topic here", "2026");
    assert_eq!(e.topic, "general");
    assert_eq!(e.content, "no topic here");
    assert_eq!(e.date, "2026");
    let e = diary_entry("[unclosed topic", "2026-05-06");
    assert_eq!(e.topic, "general");
    assert_eq!(e.content, "[unclosed topic");
    let e = diary_entry("[a] b] c", "x");
    assert_eq!(e.topic, "a");
    assert_eq!(e.content, "b] c");
}

#[test]
fn drawer_ids_hash_content_wing_and_room() {
    assert_eq!(drawer_id("code", "notes", "hello world"), "drawer_code_notes_ffc174e33dc21921");
    assert_eq!(
        drawer_id("wing_agent", "diary", "[general] logged something"),
        "drawer_wing_agent_diary_b1cf9bc54f2b03f5"
    );
    assert_eq!(drawer_id("w", "r", "x"), drawer_id("w", "r", "x"));
    assert_ne!(drawer_id("w", "r", "x"), drawer_id("w", "r", "y"));
    let digest = [0xab; 16];
    assert_eq!(drawer_id_from_digest("w", "r", &digest), "drawer_w_r_abababababababab");
}

#[test]
fn triple_ids_hash_fact_and_time() {
    assert_eq!(triple_id("alice", "knows", "bob", 1700000000000), "triple_a41deb41a4796d0c");
    let digest = [0x01, 0x23, 0x45, 0x67, 0x89, 0xab, 0xcd, 0xef, 0, 0, 0, 0, 0, 0, 0, 0];
    assert_eq!(triple_id_from_digest(&digest), "triple_0123456789abcdef");
}
