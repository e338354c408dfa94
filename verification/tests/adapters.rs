use mempalace::adapters::{
    codex_fold, codex_index_lookup, codex_session, grok_fold, grok_session, CodexIndexEntry,
    CodexLine, GrokChatLine, GrokContent, GrokItem, GrokSummary,
};
use mempalace::timefmt::{days_from_civil, parse_rfc3339_ms, rfc3339_in_range};

fn o(s: &str) -> Option<String> {
    Some(s.to_string())
}

fn meta(id: &str, cwd: &str, ts: &str) -> CodexLine {
    CodexLine {
        kind: o("session_meta"),
        id: o(id),
        cwd: o(cwd),
        timestamp: o(ts),
        payload_kind: None,
        role: None,
        texts: vec![],
    }
}

fn msg(role: &str, texts: &[&str]) -> CodexLine {
    CodexLine {
        kind: o("response_item"),
        id: None,
        cwd: None,
        timestamp: None,
        payload_kind: o("message"),
        role: o(role),
        texts: texts.iter().map(|t| t.to_string()).collect(),
    }
}

#[test]
fn codex_rollout_becomes_a_session() {
    let lines = vec![
        meta("abc-123", "/proj", "2026-08-04T09:59:24.241258Z"),
        msg("developer", &["system boilerplate"]),
        msg("user", &["  first question  ", ""]),
        msg("assistant", &["answer one"]),
        msg("user", &["second"]),
        msg("assistant", &["answer two"]),
    ];
    let f = codex_fold(&lines);
    assert_eq!(f.id, "abc-123");
    assert_eq!(f.cwd, "/proj");
    assert_eq!(f.turns.user, vec!["first question".to_string(), "second".to_string()]);
    assert_eq!(f.turns.assistant.len(), 2);
    let index = vec![
        CodexIndexEntry { id: o("abc-123"), thread_name: o("Old name"), updated_at: None },
        CodexIndexEntry {
            id: o("abc-123"),
            thread_name: o("Fix login"),
            updated_at: o("2026-08-05T00:00:00Z"),
        },
    ];
    let s = codex_session(&f, &index, 3000).unwrap();
    assert_eq!(s.id, "abc-123");
    assert_eq!(s.title, "Fix login");
    assert_eq!(s.updated_at_ms, parse_rfc3339_ms("2026-08-05T00:00:00Z").unwrap());
    assert_eq!(
        s.content,
        "Session: Fix login\nDate: 2026-08-05 00:00:00\nDirectory: /proj\nFirst message: first question\nanswer one\nanswer two"
    );
    assert!(!s.content.contains("boilerplate"));
}

#[test]
fn codex_without_meta_or_index() {
    let f = codex_fold(&[msg("user", &["hi"])]);
    assert!(codex_session(&f, &[], 3000).is_none());
    let f = codex_fold(&[meta("0123456789abcdefXYZ", "", "2026-08-04T00:00:00Z")]);
    let (title, upd) = codex_index_lookup(&[], &f.id);
    assert_eq!(title, "");
    assert_eq!(upd, None);
    let s = codex_session(&f, &[], 3000).unwrap();
    assert_eq!(s.title, "");
    assert_eq!(s.content, "Session: 0123456789abcdef\nDate: 2026-08-04 00:00:00");
}

#[test]
fn grok_sessions() {
    let summary = GrokSummary {
        id: o("88880000-0000-0000-0000-000000000005"),
        cwd: o("/work"),
        updated_at: o("2026-08-01T10:00:00.000Z"),
        num_chat_messages: Some(2),
    };
    let chat = vec![
        GrokChatLine { kind: o("system"), content: GrokContent::Text("rules".to_string()) },
        GrokChatLine { kind: o("user"), content: GrokContent::Text(" route grok ".to_string()) },
        GrokChatLine {
            kind: o("assistant"),
            content: GrokContent::Items(vec![
                GrokItem { kind: o("text"), text: o("done") },
                GrokItem { kind: o("image"), text: o("ignored") },
            ]),
        },
        GrokChatLine { kind: o("assistant"), content: GrokContent::Other },
    ];
    let turns = grok_fold(&chat);
    assert_eq!(turns.user, vec!["route grok".to_string()]);
    assert_eq!(turns.assistant, vec!["done".to_string()]);
    let s = grok_session(&summary, &turns, 3000).unwrap();
    assert_eq!(s.title, "");
    assert_eq!(
        s.content,
        "Session: 88880000-0000-00\nDate: 2026-08-01 10:00:00\nDirectory: /work\nFirst message: route grok\ndone"
    );
    let empty = GrokSummary { num_chat_messages: Some(0), ..summary };
    assert!(grok_session(&empty, &turns, 3000).is_none());
}

#[test]
fn rfc3339_parsing() {
    assert_eq!(parse_rfc3339_ms("1970-01-01T00:00:00Z"), Some(0));
    assert_eq!(parse_rfc3339_ms("2026-08-04T09:59:24.241258Z"), Some(1785837564241));
    assert_eq!(parse_rfc3339_ms(" 2026-08-04T09:59:24.5+00:00 "), Some(1785837564500));
    assert_eq!(parse_rfc3339_ms("2026-08-04"), None);
    assert!(rfc3339_in_range("2026-08-04T09:59:24Z"));
    assert!(!rfc3339_in_range("99999999999999999-01-01T00:00:00Z"));
    assert_eq!(days_from_civil(1970, 1, 1), 0);
    assert_eq!(days_from_civil(2000, 3, 1), 11017);
}

fn other_line(kind: Option<&str>, payload_kind: Option<&str>) -> CodexLine {
    CodexLine {
        kind: kind.map(|k| k.to_string()),
        id: None,
        cwd: None,
        timestamp: None,
        payload_kind: payload_kind.map(|k| k.to_string()),
        role: None,
        texts: vec![],
    }
}

#[test]
fn test_codex_parse_rollout_yields_session() {
    let id = "11111111-2222-3333-4444-555555555555";
    let lines = vec![
        meta(id, "/proj/api", "2026-08-01T10:00:00.000Z"),
        msg("user", &["fix the login bug"]),
        msg("assistant", &["I traced it to the token refresh path."]),
    ];
    let index = vec![CodexIndexEntry {
        id: o(id),
        thread_name: o("Fix login bug"),
        updated_at: o("2026-08-01T10:05:00.000000Z"),
    }];
    let f = codex_fold(&lines);
    let s = codex_session(&f, &index, 3000).unwrap();
    assert_eq!(s.id, id);
    assert_eq!(s.title, "Fix login bug");
    assert!(s.content.contains("Directory: /proj/api"));
    assert!(s.content.contains("Session: Fix login bug"));
    assert!(s.content.contains("First message: fix the login bug"));
    assert!(s.content.contains("token refresh path"));
    assert_eq!(s.updated_at_ms, 1_785_578_700_000);
}

#[test]
fn test_codex_skips_malformed_lines() {
    // A line that is not JSON is dropped while reading; the others arrive.
    let lines = vec![
        other_line(None, None),
        meta("aaaaaaaa-bbbb-cccc-dddd-eeeeeeeeeeee", "/x", "2026-08-01T09:00:00.000Z"),
        other_line(Some("response_item"), Some("function_call")),
        msg("user", &["still works"]),
    ];
    let f = codex_fold(&lines);
    let s = codex_session(&f, &[], 3000).unwrap();
    assert!(s.content.contains("still works"));
}

#[test]
fn test_codex_developer_role_excluded() {
    let lines = vec![
        meta("11112222-3333-4444-5555-666666666666", "/p", "2026-08-01T10:00:00.000Z"),
        msg("developer", &["<permissions instructions> SECRET BOILERPLATE"]),
        msg("system", &["You are Codex SECRET BOILERPLATE"]),
        msg("user", &["real question"]),
    ];
    let f = codex_fold(&lines);
    let s = codex_session(&f, &[], 3000).unwrap();
    assert!(!s.content.contains("BOILERPLATE"));
    assert!(s.content.contains("real question"));
}

fn grok_summary(id: &str, num_msgs: i64) -> GrokSummary {
    GrokSummary {
        id: o(id),
        cwd: o("/Users/vds"),
        updated_at: o("2026-08-08T12:31:00.000000Z"),
        num_chat_messages: Some(num_msgs),
    }
}

fn grok_items(role: &str, text: &str) -> GrokChatLine {
    GrokChatLine {
        kind: o(role),
        content: GrokContent::Items(vec![GrokItem { kind: o("text"), text: o(text) }]),
    }
}

fn grok_text(role: &str, text: &str) -> GrokChatLine {
    GrokChatLine { kind: o(role), content: GrokContent::Text(text.to_string()) }
}

#[test]
fn test_grok_parse_summary_and_chat_history() {
    let id = "019fe159-db8e-7f82-a5cc-c7c1ba2786c9";
    let chat = vec![
        grok_items("user", "profile the rust binary"),
        grok_items("assistant", "Used instruments for sampling."),
    ];
    let s = grok_session(&grok_summary(id, 2), &grok_fold(&chat), 3000).unwrap();
    assert_eq!(s.id, id);
    assert!(s.content.contains("Directory: /Users/vds"));
    assert_eq!(s.updated_at_ms, 1_786_192_260_000);
    assert!(s.content.contains("First message: profile the rust binary"));
    assert!(s.content.contains("instruments for sampling"));
}

#[test]
fn test_grok_handles_string_and_array_content() {
    let chat = vec![
        grok_text("user", "plain string question"),
        grok_text("assistant", "plain string answer"),
    ];
    let summary = grok_summary("aaaa0000-0000-0000-0000-000000000001", 2);
    let s = grok_session(&summary, &grok_fold(&chat), 3000).unwrap();
    assert!(s.content.contains("plain string answer"));
    assert!(s.content.contains("plain string question"));
}

#[test]
fn test_grok_system_role_excluded() {
    let chat = vec![
        grok_text("system", "You are Grok SECRET BOILERPLATE"),
        grok_text("user", "visible question"),
    ];
    let summary = grok_summary("bbbb0000-0000-0000-0000-000000000002", 2);
    let s = grok_session(&summary, &grok_fold(&chat), 3000).unwrap();
    assert!(!s.content.contains("BOILERPLATE"));
    assert!(s.content.contains("visible question"));
}

#[test]
fn test_grok_skips_zero_message_sessions() {
    let summary = grok_summary("cccc0000-0000-0000-0000-000000000003", 0);
    assert!(grok_session(&summary, &grok_fold(&[]), 3000).is_none());
}
