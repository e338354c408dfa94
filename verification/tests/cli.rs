use mempalace::cli::{parse_command, parse_search_args, Command};

fn s(v: &str) -> String {
    v.to_string()
}

#[test]
fn test_cli_search_flag_parsing() {
    let args = vec![
        s("rust importer"),
        s("--limit"),
        s("10"),
        s("--wing"),
        s("codex"),
        s("--room"),
        s("backend"),
        s("--source"),
        s("/tmp/x.md"),
    ];
    let opts = parse_search_args(&args).unwrap();
    assert_eq!(opts.query, "rust importer");
    assert_eq!(opts.limit, 10);
    assert_eq!(opts.wing.as_deref(), Some("codex"));
    assert_eq!(opts.room.as_deref(), Some("backend"));
    assert_eq!(opts.source_file.as_deref(), Some("/tmp/x.md"));

    // Defaults and clamping.
    let opts = parse_search_args(&[s("q")]).unwrap();
    assert_eq!(opts.limit, 5);
    let opts = parse_search_args(&[s("q"), s("--limit"), s("500")]).unwrap();
    assert_eq!(opts.limit, 100);

    // Missing query → usage error.
    assert!(parse_search_args(&[]).is_err());
    // Unknown flag → error.
    assert!(parse_search_args(&[s("q"), s("--bogus")]).is_err());
}

// ── further cases ───────────────────────────────────────────────────────────

fn err(args: &[&str]) -> String {
    let v: Vec<String> = args.iter().map(|a| a.to_string()).collect();
    match parse_search_args(&v) {
        Err(e) => e,
        Ok(_) => panic!("expected an error for {args:?}"),
    }
}

#[test]
fn search_argument_errors() {
    assert_eq!(err(&["q", "--bogus"]), "Unknown flag: --bogus");
    assert_eq!(err(&["q", "--limit"]), "--limit requires a number");
    assert_eq!(err(&["q", "--limit", "ten"]), "--limit requires a number");
    assert_eq!(err(&["q", "--wing"]), "--wing requires a value");
    assert_eq!(err(&["q", "--room"]), "--room requires a value");
    assert_eq!(err(&["q", "--source"]), "--source requires a value");
    assert_eq!(err(&["q", "r"]), "Only one query argument allowed");
    assert_eq!(
        err(&[]),
        "Usage: mempalace search <query> [--limit N] [--wing W] [--room R] [--source FILE]"
    );
}

#[test]
fn search_argument_edges() {
    let o = parse_search_args(&[s("--limit"), s("0"), s("-")]).unwrap();
    assert_eq!(o.query, "-");
    assert_eq!(o.limit, 1);
    let o = parse_search_args(&[s("--wing"), s("--room"), s("q")]).unwrap();
    assert_eq!(o.wing.as_deref(), Some("--room"));
    assert_eq!(o.query, "q");
}

fn cmd(args: &[&str]) -> Command {
    let v: Vec<String> = args.iter().map(|a| a.to_string()).collect();
    parse_command(&v)
}

#[test]
fn subcommands() {
    assert!(matches!(cmd(&["mempalace", "info"]), Command::Info));
    assert!(matches!(cmd(&["mempalace", "--info"]), Command::Info));
    assert!(matches!(cmd(&["mempalace", "reindex"]), Command::Reindex));
    assert!(matches!(cmd(&["mempalace"]), Command::Serve));
    assert!(matches!(cmd(&["mempalace", "serve-please"]), Command::Serve));
    match cmd(&["mempalace", "index", "/tmp/x"]) {
        Command::Index { dir } => assert_eq!(dir.as_deref(), Some("/tmp/x")),
        _ => panic!("index"),
    }
    match cmd(&["mempalace", "index"]) {
        Command::Index { dir } => assert_eq!(dir, None),
        _ => panic!("index"),
    }
    match cmd(&["mempalace", "import-palace", "old.db"]) {
        Command::ImportPalace { path } => assert_eq!(path.as_deref(), Some("old.db")),
        _ => panic!("import-palace"),
    }
    match cmd(&["mempalace", "search", "q", "--limit", "3"]) {
        Command::Search { args } => assert_eq!(args, vec![s("q"), s("--limit"), s("3")]),
        _ => panic!("search"),
    }
}

#[test]
fn index_sessions_flags() {
    match cmd(&["mempalace", "index-sessions", "--source", "codex", "--full", "--db", "/x.db"]) {
        Command::IndexSessions { source, full, db } => {
            assert_eq!(source.as_deref(), Some("codex"));
            assert!(full);
            assert_eq!(db, Some(Some(s("/x.db"))));
        }
        _ => panic!("index-sessions"),
    }
    match cmd(&["mempalace", "index-sessions", "--db"]) {
        Command::IndexSessions { source, full, db } => {
            assert_eq!(source, None);
            assert!(!full);
            assert_eq!(db, Some(None));
        }
        _ => panic!("index-sessions"),
    }
    match cmd(&["mempalace", "index-sessions"]) {
        Command::IndexSessions { db, .. } => assert_eq!(db, None),
        _ => panic!("index-sessions"),
    }
}
