use mempalace::kg::{check_supersede, check_window, direction_of, fact_text, missing_fact, Direction, KgError};

#[test]
fn time_windows() {
    assert!(check_window(Some("2026-01-01"), Some("2026-02-01")).is_ok());
    assert!(check_window(Some("2026-01-01"), Some("2026-01-01")).is_ok());
    assert!(check_window(None, Some("2020-01-01")).is_ok());
    let e = check_window(Some("2026-02-01"), Some("2026-01-01")).unwrap_err();
    assert_eq!(
        e.message(),
        "Invalid date range: valid_to (2026-01-01) precedes valid_from (2026-02-01)"
    );
}

#[test]
fn supersede_rules() {
    assert_eq!(check_supersede("a", "a"), Err(KgError::SameObject));
    assert!(check_supersede("a", "b").is_ok());
    assert_eq!(
        KgError::SameObject.message(),
        "InvalidArgument: old_object and new_object must differ"
    );
    assert_eq!(missing_fact(true), KgError::FactAlreadyEnded);
    assert_eq!(missing_fact(false).message(), "FactNotFound");
    assert_eq!(KgError::FactAlreadyEnded.message(), "FactAlreadyEnded");
}

#[test]
fn facts_and_directions() {
    assert_eq!(fact_text("Max", "loves", "chess"), "Max \u{2192} loves \u{2192} chess");
    assert_eq!(direction_of("outgoing"), Direction::Outgoing);
    assert_eq!(direction_of("incoming"), Direction::Incoming);
    assert_eq!(direction_of("both"), Direction::Both);
    assert_eq!(direction_of("sideways"), Direction::Both);
}

#[test]
fn test_add_triple_rejects_inverted_interval() {
    let result = check_window(Some("2024-12-31"), Some("2020-01-01"));
    assert!(result.is_err());
    assert!(result.unwrap_err().message().contains("precedes"));
}

#[test]
fn test_supersede_same_object_rejected() {
    let err = check_supersede("Boston", "Boston").unwrap_err();
    assert!(err.message().contains("must differ"));
}

#[test]
fn test_supersede_missing_old_errors() {
    // No fact (subject, predicate, old object) was ever recorded.
    assert!(check_supersede("Boston", "Austin").is_ok());
    let err = missing_fact(false);
    assert!(err.message().contains("FactNotFound"));
}

#[test]
fn test_supersede_already_ended_errors() {
    // The fact was recorded and then invalidated, so no open one is left.
    assert!(check_supersede("Boston", "Austin").is_ok());
    let err = missing_fact(true);
    assert!(err.message().contains("FactAlreadyEnded"));
}
