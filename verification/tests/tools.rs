use mempalace::sources::SourceError;
use mempalace::tools::{resolve_tool_call, ArgValue, ToolCall, ToolError};

fn args(v: &[(&str, ArgValue)]) -> Vec<(String, ArgValue)> {
    v.iter()
        .map(|(k, a)| {
            let a = match a {
                ArgValue::Str(s) => ArgValue::Str(s.clone()),
                ArgValue::Int(n) => ArgValue::Int(*n),
                ArgValue::Bool(b) => ArgValue::Bool(*b),
                ArgValue::Other => ArgValue::Other,
            };
            (k.to_string(), a)
        })
        .collect()
}

fn s(v: &str) -> ArgValue {
    ArgValue::Str(v.to_string())
}

#[test]
fn tools_without_arguments() {
    assert!(matches!(resolve_tool_call("mempalace_status", &[]), Ok(ToolCall::Status)));
    assert!(matches!(resolve_tool_call("mempalace_kg_stats", &[]), Ok(ToolCall::KgStats)));
    match resolve_tool_call("mempalace_list_rooms", &[]) {
        Ok(ToolCall::ListRooms { wing: None }) => {}
        _ => panic!("list_rooms"),
    }
}

#[test]
fn required_arguments_in_order() {
    let e = resolve_tool_call("mempalace_kg_add", &args(&[("object", s("o"))])).err().unwrap();
    assert_eq!(e, ToolError::MissingRequiredArg { name: "subject".to_string() });
    assert_eq!(e.message(), "MissingRequiredArg: subject");
    let e = resolve_tool_call(
        "mempalace_kg_add",
        &args(&[("subject", s("a")), ("predicate", ArgValue::Int(3)), ("object", s("o"))]),
    )
    .err()
    .unwrap();
    assert_eq!(e, ToolError::MissingRequiredArg { name: "predicate".to_string() });
}

#[test]
fn defaults_are_filled_in() {
    match resolve_tool_call("mempalace_kg_query", &args(&[("entity", s("Max"))])) {
        Ok(ToolCall::KgQuery { entity, as_of: None, direction }) => {
            assert_eq!(entity, "Max");
            assert_eq!(direction, "both");
        }
        _ => panic!("kg_query"),
    }
    match resolve_tool_call("mempalace_search", &args(&[("query", s("q")), ("limit", s("7"))])) {
        Ok(ToolCall::Search { query, limit, wing: None, room: None }) => {
            assert_eq!(query, "q");
            assert_eq!(limit, 5);
        }
        _ => panic!("search"),
    }
    match resolve_tool_call("mempalace_diary_write", &args(&[("agent_name", s("Bot")), ("entry", s("e"))])) {
        Ok(ToolCall::DiaryWrite { topic, .. }) => assert_eq!(topic, "general"),
        _ => panic!("diary_write"),
    }
    match resolve_tool_call("mempalace_diary_read", &args(&[("agent_name", s("Bot")), ("last_n", ArgValue::Int(3))])) {
        Ok(ToolCall::DiaryRead { last_n, .. }) => assert_eq!(last_n, 3),
        _ => panic!("diary_read"),
    }
    match resolve_tool_call(
        "mempalace_add_drawer",
        &args(&[("wing", s("w")), ("room", s("r")), ("content", s("c"))]),
    ) {
        Ok(ToolCall::AddDrawer { added_by, source_file: None, .. }) => assert_eq!(added_by, "mcp"),
        _ => panic!("add_drawer"),
    }
}

#[test]
fn import_sessions_sources() {
    match resolve_tool_call("mempalace_import_sessions", &[]) {
        Ok(ToolCall::ImportSessions { source, full }) => {
            assert_eq!(source, "auto");
            assert!(!full);
        }
        _ => panic!("import default"),
    }
    match resolve_tool_call(
        "mempalace_import_sessions",
        &args(&[("source", s("codex")), ("full", ArgValue::Bool(true))]),
    ) {
        Ok(ToolCall::ImportSessions { source, full }) => {
            assert_eq!(source, "codex");
            assert!(full);
        }
        _ => panic!("import codex"),
    }
    match resolve_tool_call("mempalace_import_sessions", &args(&[("source", s("cursor"))])) {
        Err(e @ ToolError::Source { error: SourceError::InvalidSource { .. } }) => {
            assert!(e.message().starts_with("InvalidSource: unknown session source 'cursor'"))
        }
        _ => panic!("import cursor"),
    }
}

#[test]
fn unknown_tools() {
    let e = resolve_tool_call("mempalace_nope", &[]).err().unwrap();
    assert_eq!(e.message(), "UnknownTool: mempalace_nope");
}

#[test]
fn graph_tools_resolve() {
    match resolve_tool_call("mempalace_traverse", &[]) {
        Err(e) => assert_eq!(e.message(), "MissingRequiredArg: start_room"),
        _ => panic!("traverse without start_room"),
    }
    match resolve_tool_call("mempalace_traverse", &args(&[("start_room", s("setup"))])) {
        Ok(ToolCall::Traverse { start_room, max_hops }) => {
            assert_eq!(start_room, "setup");
            assert_eq!(max_hops, 2);
        }
        _ => panic!("traverse"),
    }
    match resolve_tool_call(
        "mempalace_traverse",
        &args(&[("start_room", s("setup")), ("max_hops", ArgValue::Int(4))]),
    ) {
        Ok(ToolCall::Traverse { max_hops, .. }) => assert_eq!(max_hops, 4),
        _ => panic!("traverse hops"),
    }
    match resolve_tool_call("mempalace_find_tunnels", &args(&[("wing_a", s("code"))])) {
        Ok(ToolCall::FindTunnels { wing_a, wing_b }) => {
            assert_eq!(wing_a.as_deref(), Some("code"));
            assert_eq!(wing_b, None);
        }
        _ => panic!("find_tunnels"),
    }
    assert!(matches!(resolve_tool_call("mempalace_graph_stats", &[]), Ok(ToolCall::GraphStats)));
}
