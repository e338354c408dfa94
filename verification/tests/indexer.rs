use mempalace::indexer::{
    active_extensions, extensions_from_lowered, has_extension, is_text_file, is_text_name, size_ok,
    skip_dir, skip_dir_lowered, skip_file, skip_file_lowered, slugify_path, stored_content,
    wing_from_lowered, wing_name, DEFAULT_TEXT_EXTENSIONS, SKIP_DIRS, SKIP_FILES,
};

#[test]
fn test_skip_dirs_are_lowercase() {
    for d in SKIP_DIRS {
        assert_eq!(d, d.to_lowercase(), "SKIP_DIRS entry '{d}' must be lowercase");
    }
}

#[test]
fn test_skip_files_are_lowercase() {
    for f in SKIP_FILES {
        assert_eq!(f, f.to_lowercase(), "SKIP_FILES must be lowercase");
    }
}

#[test]
fn test_slugify_path_simple() {
    assert_eq!(slugify_path("src/db.rs"), "src-db-rs");
}

#[test]
fn test_slugify_path_complex() {
    assert_eq!(slugify_path("projects/nested/deep/file.go"), "projects-nested-deep-file-go");
}

#[test]
fn test_slugify_path_extensionless() {
    assert_eq!(slugify_path("Makefile"), "makefile");
}

#[test]
fn test_slugify_path_hidden_file() {
    assert_eq!(slugify_path(".gitignore"), "gitignore");
}

#[test]
fn test_active_extensions_default() {
    let exts = active_extensions(None);
    assert!(exts.contains(&"rs".to_string()));
    assert!(exts.contains(&"py".to_string()));
    assert!(exts.contains(&"go".to_string()));
    assert!(exts.contains(&"md".to_string()));
    assert!(exts.contains(&"js".to_string()));
    assert!(exts.contains(&"txt".to_string()));
}

#[test]
fn test_active_extensions_env_override() {
    let exts = active_extensions(Some("go,py"));
    assert_eq!(exts, vec!["go".to_string(), "py".to_string()]);
}

#[test]
fn test_active_extensions_empty_env_uses_default() {
    let exts = active_extensions(Some(""));
    assert!(exts.len() > 5);
}

// ── further cases ───────────────────────────────────────────────────────────

#[test]
fn extension_list_is_trimmed_and_lowered() {
    assert_eq!(active_extensions(Some(" RS , ,Md")), vec!["rs".to_string(), "md".to_string()]);
    assert_eq!(active_extensions(Some(" , ")).len(), DEFAULT_TEXT_EXTENSIONS.len());
}

#[test]
fn skipped_directories_and_files() {
    assert!(skip_dir(".git"));
    assert!(skip_dir("Node_Modules"));
    assert!(skip_dir("TARGET"));
    assert!(!skip_dir("src"));
    assert!(skip_file(".env"));
    assert!(skip_file("Cargo.lock"));
    assert!(!skip_file("main.rs"));
}

#[test]
fn text_files_and_sizes() {
    let exts = active_extensions(None);
    assert!(is_text_file("main.RS", Some("RS"), &exts));
    assert!(!is_text_file("image.png", Some("png"), &exts));
    assert!(is_text_file("Makefile", None, &exts));
    assert!(!is_text_file("binary", None, &exts));
    assert!(size_ok(1));
    assert!(size_ok(512000));
    assert!(!size_ok(512001));
    assert!(!size_ok(0));
}

#[test]
fn stored_text_and_wing() {
    assert_eq!(stored_content("/p/a.rs", "fn main() {}").unwrap(), "FILE: /p/a.rs\n\nfn main() {}");
    assert!(stored_content("/p/a.rs", " \n\t ").is_none());
    let big = "é".repeat(5000);
    let s = stored_content("x", &big).unwrap();
    assert_eq!(s.chars().count(), "FILE: x\n\n".len() + 4000);
    assert_eq!(wing_name(Some("My Project")), "my_project");
    assert_eq!(wing_name(None), "files");
}

#[test]
fn decisions_on_lowered_names() {
    assert!(skip_dir_lowered("Target", "target"));
    assert!(!skip_dir_lowered("Target", "Target"));
    assert!(skip_dir_lowered(".cache", "whatever"));
    assert!(skip_file_lowered("Yarn.lock", "yarn.lock"));
    assert!(!skip_file_lowered("notes.md", "notes.md"));
    let exts = vec!["rs".to_string(), "md".to_string()];
    assert!(has_extension("md", &exts));
    assert!(!has_extension("MD", &exts));
    assert!(is_text_name("readme"));
    assert!(!is_text_name("README"));
    assert_eq!(wing_from_lowered("my big project"), "my_big_project");
    let parts = vec!["".to_string(), "go".to_string(), "".to_string()];
    assert_eq!(extensions_from_lowered(&parts), vec!["go".to_string()]);
    assert_eq!(extensions_from_lowered(&[]).len(), DEFAULT_TEXT_EXTENSIONS.len());
}
