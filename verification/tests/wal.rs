use mempalace::timefmt::format_ts;
use mempalace::wal::{newest_first, redaction};

#[test]
fn test_format_ts() {
    let ts = format_ts(0);
    assert_eq!(ts, "1970-01-01 00:00:00");
}

// ── further cases ───────────────────────────────────────────────────────────

#[test]
fn format_ts_exact_values() {
    assert_eq!(format_ts(1777975686), "2026-05-05 10:08:06");
    assert_eq!(format_ts(951868799), "2000-02-29 23:59:59");
    assert_eq!(format_ts(4102444800), "2100-01-01 00:00:00");
    assert_eq!(format_ts(31536000), "1971-01-01 00:00:00");
    assert_eq!(format_ts(31535999), "1970-12-31 23:59:59");
}

#[test]
fn redacted_parameters() {
    assert_eq!(redaction("wing", Some("w")), None);
    assert_eq!(redaction("content", Some("secret")), Some("[REDACTED 6 chars]".to_string()));
    assert_eq!(redaction("query", Some("café")), Some("[REDACTED 5 chars]".to_string()));
    assert_eq!(redaction("text", None), Some("[REDACTED]".to_string()));
    for k in ["content", "query", "entry", "text", "document", "content_preview"] {
        assert!(redaction(k, Some("x")).is_some());
    }
}

#[test]
fn newest_entries_first() {
    assert_eq!(newest_first(vec![1, 2, 3, 4], 2), vec![4, 3]);
    assert_eq!(newest_first(vec![1, 2], 10), vec![2, 1]);
    assert_eq!(newest_first(Vec::<i32>::new(), 3), Vec::<i32>::new());
}

/// Apply the per-key redaction to each (key, text) pair of a parameter map:
/// the redacted text where the key is redacted, the value itself otherwise.
fn redact_pairs(params: &[(&str, &str)]) -> Vec<(String, String)> {
    params
        .iter()
        .map(|(k, v)| {
            let shown = redaction(k, Some(v)).unwrap_or_else(|| v.to_string());
            (k.to_string(), shown)
        })
        .collect()
}

fn value_of(pairs: &[(String, String)], key: &str) -> String {
    pairs.iter().find(|(k, _)| k == key).map(|(_, v)| v.clone()).unwrap()
}

#[test]
fn test_redact_params_basic() {
    let result = redact_pairs(&[("wing", "w"), ("room", "r"), ("content", "secret")]);
    assert_eq!(value_of(&result, "wing"), "w");
    assert_eq!(value_of(&result, "room"), "r");
    assert!(value_of(&result, "content").contains("REDACTED"));
}

#[test]
fn test_redact_params_query() {
    let result = redact_pairs(&[("query", "confidential"), ("wing", "w")]);
    assert!(value_of(&result, "query").contains("REDACTED"));
    assert_eq!(value_of(&result, "wing"), "w");
}

#[test]
fn test_redact_params_multiple_keys() {
    let result = redact_pairs(&[
        ("content", "a"),
        ("query", "b"),
        ("text", "c"),
        ("entry", "d"),
        ("document", "e"),
        ("wing", "f"),
    ]);
    assert!(value_of(&result, "content").contains("REDACTED"));
    assert!(value_of(&result, "query").contains("REDACTED"));
    assert!(value_of(&result, "text").contains("REDACTED"));
    assert!(value_of(&result, "entry").contains("REDACTED"));
    assert!(value_of(&result, "document").contains("REDACTED"));
    assert_eq!(value_of(&result, "wing"), "f");
}
