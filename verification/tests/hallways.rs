use mempalace::hallways::{entity_pairs, extract_entities, hallway_id, merge_room, tunnel_room};

#[test]
fn test_extract_urls() {
    let e = extract_entities("see https://example.com/a for docs");
    assert!(e.iter().any(|x| x.contains("example.com")));
}

#[test]
fn test_extract_paths() {
    let e = extract_entities("edit src/db.rs please");
    assert!(e.iter().any(|x| x.contains("src/db.rs") || x.contains("src/db")));
}

#[test]
fn test_extract_qualified_idents() {
    let e = extract_entities("call foo::bar and com.example.Foo");
    assert!(e.iter().any(|x| x.contains("foo::bar") || x.contains("foo::")));
    assert!(e.iter().any(|x| x.contains("com.example.foo")));
}

#[test]
fn test_extract_ignores_short_noise() {
    let e = extract_entities("a the tmp is it");
    assert!(e.is_empty());
}

// ── further cases ───────────────────────────────────────────────────────────

#[test]
fn entities_are_sorted_unique_and_lower_case() {
    let e = extract_entities("HashMap (src/db.rs), HashMap; https://Example.com/A \"MyType\" x::y::z");
    assert_eq!(
        e,
        vec![
            "hashmap".to_string(),
            "https://example.com/a".to_string(),
            "mytype".to_string(),
            "src/db.rs".to_string(),
            "x::y::z".to_string(),
        ]
    );
}

#[test]
fn entities_are_cut_to_64_characters() {
    let long = format!("/{}", "p".repeat(100));
    let e = extract_entities(&long);
    assert_eq!(e.len(), 1);
    assert_eq!(e[0].chars().count(), 64);
}

#[test]
fn hallway_pairs_and_rooms() {
    let ents = vec!["a1".to_string(), "b2".to_string(), "c3".to_string()];
    let pairs = entity_pairs(&ents);
    let expect: Vec<(String, String)> = vec![
        ("a1".into(), "b2".into()),
        ("a1".into(), "c3".into()),
        ("b2".into(), "c3".into()),
    ];
    assert_eq!(pairs, expect);
    let swapped = entity_pairs(&["zz".to_string(), "aa".to_string()]);
    assert_eq!(swapped, vec![("aa".to_string(), "zz".to_string())]);
    assert_eq!(hallway_id("code", "a", "b"), "hall_code_a_b");
    let rooms = vec!["r1".to_string()];
    assert_eq!(merge_room(&rooms, "r1"), rooms);
    assert_eq!(merge_room(&rooms, "r2"), vec!["r1".to_string(), "r2".to_string()]);
    assert_eq!(tunnel_room(&[]), "general");
    assert_eq!(tunnel_room(&rooms), "r1");
}

#[test]
fn test_hallway_pair_is_canonical_order() {
    // The pair that a drawer with this content records.
    let pairs = entity_pairs(&extract_entities("https://z.com src/a.rs"));
    let (a, b) = &pairs[0];
    assert!(a <= b);
}

#[test]
fn entities_of_joined_texts() {
    let a = "see https://a.com/x and FooBar";
    let b = "edit src/db.rs and FooBar";
    let joined = extract_entities(&format!("{a} {b}"));
    let mut both: Vec<String> = extract_entities(a);
    both.extend(extract_entities(b));
    both.sort();
    both.dedup();
    assert_eq!(joined, both);
}
