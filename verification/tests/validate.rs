use mempalace::validate::{
    sanitize_content, sanitize_iso_date, sanitize_name, sanitize_name_required,
    sanitize_search_query, DateFault, ValidationError,
};

#[test]
fn test_accepts_full_iso() {
    assert!(sanitize_iso_date(Some("2026-05-06 18:30:00")).is_ok());
    assert!(sanitize_iso_date(Some("2026-05-06T18:30:00")).is_ok());
}

#[test]
fn test_accepts_date_only() {
    assert!(sanitize_iso_date(Some("2026-05-06")).is_ok());
}

#[test]
fn test_accepts_month_only() {
    assert!(sanitize_iso_date(Some("2026-05")).is_ok());
}

#[test]
fn test_accepts_year_only() {
    assert!(sanitize_iso_date(Some("2026")).is_ok());
}

#[test]
fn test_accepts_empty() {
    assert!(sanitize_iso_date(None).unwrap().is_none());
    assert!(sanitize_iso_date(Some("")).unwrap().is_none());
    assert!(sanitize_iso_date(Some("  ")).unwrap().is_none());
}

#[test]
fn test_rejects_natural_language() {
    assert!(sanitize_iso_date(Some("yesterday")).is_err());
    assert!(sanitize_iso_date(Some("March 2026")).is_err());
}

#[test]
fn test_rejects_garbage() {
    assert!(sanitize_iso_date(Some("not a date")).is_err());
}

#[test]
fn test_rejects_out_of_range_month() {
    assert!(sanitize_iso_date(Some("2026-13-01")).is_err());
}

#[test]
fn test_rejects_out_of_range_day() {
    assert!(sanitize_iso_date(Some("2026-01-32")).is_err());
}

#[test]
fn test_rejects_year_out_of_range() {
    assert!(sanitize_iso_date(Some("1800-01-01")).is_err());
}

#[test]
fn test_rejects_null_byte_in_name() {
    assert!(sanitize_name(Some("hello\0world"), "wing").is_err());
}

#[test]
fn test_rejects_empty_required() {
    assert!(sanitize_name_required("", "wing").is_err());
}

#[test]
fn test_accepts_empty_optional() {
    assert!(sanitize_name(None, "wing").unwrap().is_none());
    assert!(sanitize_name(Some(""), "wing").unwrap().is_none());
}

#[test]
fn test_rejects_over_256_chars() {
    let long = "a".repeat(257);
    assert!(sanitize_name(Some(&long), "wing").is_err());
}

#[test]
fn test_accepts_256_chars() {
    let max = "a".repeat(256);
    assert!(sanitize_name(Some(&max), "wing").is_ok());
}

#[test]
fn test_rejects_control_chars() {
    assert!(sanitize_name(Some("hello\nworld"), "wing").is_err());
    assert!(sanitize_name(Some("hello\x07world"), "agent").is_err());
}

#[test]
fn test_accepts_unicode() {
    assert!(sanitize_name(Some("café"), "wing").is_ok());
    assert!(sanitize_name(Some("東京"), "room").is_ok());
}

#[test]
fn test_rejects_null_byte_in_content() {
    assert!(sanitize_content("hi\0bye").is_err());
}

#[test]
fn test_accepts_normal_content() {
    assert!(sanitize_content("hello world").is_ok());
}

#[test]
fn test_rejects_oversize_content() {
    let big = "x".repeat(100_001);
    assert!(sanitize_content(&big).is_err());
}

#[test]
fn test_accepts_100k_content() {
    let max = "x".repeat(100_000);
    assert!(sanitize_content(&max).is_ok());
}

#[test]
fn test_sanitize_query_strips_system_prompt_boilerplate() {
    let q = "IMPORTANT — MemPalace Memory Protocol:\n1. ON WAKE-UP: Call mempalace_status to load palace overview + AAAK spec.\nThis protocol ensures the AI KNOWS before it speaks. Storage is not memory — but storage + this protocol = memory.\n\nwhy graphql";
    let s = sanitize_search_query(q);
    assert_eq!(s.clean, "why graphql");
    assert!(s.was_sanitized);
    assert!(s.original_length > s.clean_length);
}

#[test]
fn test_sanitize_query_passthrough_short() {
    let s = sanitize_search_query("why graphql");
    assert_eq!(s.clean, "why graphql");
    assert!(!s.was_sanitized);
}

#[test]
fn test_sanitize_query_truncates_over_250() {
    let q: String = "q".repeat(1000);
    let s = sanitize_search_query(&q);
    assert_eq!(s.clean.chars().count(), 250);
    assert!(s.was_sanitized);
    assert_eq!(s.original_length, 1000);
    assert_eq!(s.clean_length, 250);
}

#[test]
fn test_sanitize_query_empty_after_strip_returns_original() {
    let q = "IMPORTANT — MemPalace Memory Protocol:\n1. ON WAKE-UP: Call mempalace_status to load palace overview + AAAK spec.\nThis protocol ensures the AI KNOWS.\nStorage is not memory";
    let s = sanitize_search_query(q);
    assert!(!s.clean.is_empty());
    assert!(s.clean.chars().count() <= 250);
}

// ── further cases ───────────────────────────────────────────────────────────

#[test]
fn accepted_date_is_trimmed_and_accepted_again() {
    let first = sanitize_iso_date(Some("  2026-05-06 18:30:00 ")).unwrap().unwrap();
    assert_eq!(first, "2026-05-06 18:30:00");
    assert_eq!(sanitize_iso_date(Some(first)).unwrap(), Some(first));
}

fn date_fault(s: &str) -> DateFault {
    match sanitize_iso_date(Some(s)) {
        Err(ValidationError::Date { fault, .. }) => fault,
        other => panic!("expected a date error, got {other:?}"),
    }
}

#[test]
fn every_date_fault_has_an_input() {
    assert_eq!(date_fault("20x6"), DateFault::Malformed);
    assert_eq!(date_fault("99999999999"), DateFault::Year);
    assert_eq!(date_fault("1969"), DateFault::YearRange);
    assert_eq!(date_fault("2026-xx"), DateFault::Month);
    assert_eq!(date_fault("2026-00"), DateFault::MonthRange);
    assert_eq!(date_fault("2026-05-x"), DateFault::Day);
    assert_eq!(date_fault("2026-05-00"), DateFault::DayRange);
    assert_eq!(date_fault("2026-05-06 x"), DateFault::Hour);
    assert_eq!(date_fault("2026-05-06 24"), DateFault::HourRange);
    assert_eq!(date_fault("2026-05-06 10:x"), DateFault::Minute);
    assert_eq!(date_fault("2026-05-06 10:60"), DateFault::MinuteRange);
    assert_eq!(date_fault("2026-05-06 10:30:x"), DateFault::Second);
    assert_eq!(date_fault("2026-05-06 10:30:60"), DateFault::SecondRange);
    assert_eq!(date_fault("2026-05-06 10:30:00:01"), DateFault::TooManyComponents);
}

#[test]
fn date_error_messages() {
    let e = sanitize_iso_date(Some(" yesterday ")).unwrap_err();
    assert_eq!(
        e.message(),
        "Invalid date: 'yesterday' \u{2014} expected ISO (YYYY, YYYY-MM, YYYY-MM-DD, YYYY-MM-DD HH:MM:SS)"
    );
    let e = sanitize_iso_date(Some("1800-01-01")).unwrap_err();
    assert_eq!(e.message(), "Year out of range (1970\u{2013}2099): '1800-01-01'");
    let e = sanitize_iso_date(Some("2026-13-01")).unwrap_err();
    assert_eq!(e.message(), "Month out of range (1\u{2013}12): '2026-13-01'");
}

#[test]
fn name_error_variants_and_messages() {
    match sanitize_name_required("", "wing") {
        Err(e @ ValidationError::EmptyName { .. }) => assert_eq!(e.message(), "wing must not be empty"),
        other => panic!("{other:?}"),
    }
    let long = "a".repeat(257);
    match sanitize_name(Some(&long), "room") {
        Err(e @ ValidationError::NameTooLong { .. }) => {
            assert_eq!(e.message(), "room exceeds 256 character limit")
        }
        other => panic!("{other:?}"),
    }
    match sanitize_name(Some("a\0b"), "wing") {
        Err(e @ ValidationError::NameNullByte { .. }) => assert_eq!(e.message(), "wing contains null byte"),
        other => panic!("{other:?}"),
    }
    match sanitize_name(Some("é\u{7}x"), "agent") {
        Err(ValidationError::NameControlChar { field, code, position }) => {
            assert_eq!(field, "agent");
            assert_eq!(code, 7);
            // byte offset: 'é' takes two bytes
            assert_eq!(position, 2);
            let e = ValidationError::NameControlChar { field, code, position };
            assert_eq!(e.message(), "agent contains control character U+0007 at position 2");
        }
        other => panic!("{other:?}"),
    }
}

#[test]
fn content_error_variants_and_messages() {
    match sanitize_content("hi\0bye") {
        Err(e @ ValidationError::ContentNullByte) => assert_eq!(e.message(), "content contains null byte"),
        other => panic!("{other:?}"),
    }
    let big = "é".repeat(50_001);
    match sanitize_content(&big) {
        Err(ValidationError::ContentTooLarge { len }) => {
            assert_eq!(len, 100_002);
            let e = ValidationError::ContentTooLarge { len };
            assert_eq!(e.message(), "content exceeds 100,000 character limit (100002)");
        }
        other => panic!("{other:?}"),
    }
}

#[test]
fn query_lines_are_joined_with_spaces() {
    let q = "Storage is not memory\n  first part  \nCall mempalace_status now\nsecond part";
    let s = sanitize_search_query(q);
    assert_eq!(s.clean, "first part second part");
    assert_eq!(s.clean_length, 22);
}

#[test]
fn plain_query_is_only_trimmed() {
    let s = sanitize_search_query("  spaced  ");
    assert_eq!(s.clean, "spaced");
    assert!(s.was_sanitized);
    assert_eq!(s.original_length, 10);
}

#[test]
fn non_ascii_in_the_year_is_malformed() {
    assert_eq!(date_fault("202é"), DateFault::Malformed);
    assert_eq!(date_fault("éé"), DateFault::Malformed);
    assert_eq!(date_fault(" 1é99-01-01 "), DateFault::Malformed);
}
