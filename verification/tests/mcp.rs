use mempalace::mcp::{
    clamp_limit, diary_wing, id_json, initialize_response, method_not_found_response,
    drawer_not_found_reply, normalize_agent_name, parse_error_response, plan_reply, route, tool_call_response,
    tools_list_response, Incoming, Plan, RequestId, Route, TOOLS_JSON,
};

#[test]
fn routes() {
    assert_eq!(route("initialize"), Route::Initialize);
    assert_eq!(route("initialized"), Route::Notification);
    assert_eq!(route("notifications/initialized"), Route::Notification);
    assert_eq!(route("tools/list"), Route::ToolsList);
    assert_eq!(route("tools/call"), Route::ToolsCall);
    assert_eq!(route("resources/list"), Route::Unknown);
}

#[test]
fn request_ids() {
    assert_eq!(id_json(&RequestId::Null), "null");
    assert_eq!(id_json(&RequestId::Bool(true)), "true");
    assert_eq!(id_json(&RequestId::Number("7".to_string())), "7");
    assert_eq!(id_json(&RequestId::Str("a\"b".to_string())), "\"a\\\"b\"");
    assert_eq!(id_json(&RequestId::Other), "null");
}

#[test]
fn responses() {
    assert_eq!(
        parse_error_response(),
        r#"{"jsonrpc":"2.0","id":null,"error":{"code":-32700,"message":"Parse error"}}"#
    );
    assert_eq!(
        initialize_response("1"),
        r#"{"jsonrpc":"2.0","id":1,"result":{"protocolVersion":"2024-11-05","capabilities":{"tools":{}},"serverInfo":{"name":"mempalace","version":"3.0.0"}}}"#
    );
    assert_eq!(
        method_not_found_response("2"),
        r#"{"jsonrpc":"2.0","id":2,"error":{"code":-32601,"message":"Method not found"}}"#
    );
    let list = tools_list_response("3");
    assert!(list.starts_with(r#"{"jsonrpc":"2.0","id":3,"result":{"tools":[{"name":"mempalace_status""#));
    assert!(list.ends_with("]}}"));
    assert_eq!(list.len(), TOOLS_JSON.len() + r#"{"jsonrpc":"2.0","id":3,"result":{"tools":}}"#.len());
}

#[test]
fn tool_call_responses_quote_the_text() {
    assert_eq!(
        tool_call_response("4", &Ok("say \"hi\"\n".to_string())),
        r#"{"jsonrpc":"2.0","id":4,"result":{"content":[{"type":"text","text":"say \"hi\"\n"}]}}"#
    );
    assert_eq!(
        tool_call_response("5", &Err("UnknownTool: x".to_string())),
        r#"{"jsonrpc":"2.0","id":5,"result":{"content":[{"type":"text","text":"UnknownTool: x"}],"isError":true}}"#
    );
}

#[test]
fn tools_json_is_valid_json() {
    let v: serde_json::Value = serde_json::from_str(TOOLS_JSON).unwrap();
    let names: Vec<&str> = v
        .as_array()
        .unwrap()
        .iter()
        .map(|t| t["name"].as_str().unwrap())
        .collect();
    assert!(names.contains(&"mempalace_diary_write"));
    assert!(names.contains(&"mempalace_import_sessions"));
}

#[test]
fn agent_names_and_arguments() {
    assert_eq!(normalize_agent_name("My Agent X"), "my_agent_x");
    assert_eq!(normalize_agent_name("Ünï Bot"), "Ünï_bot");
    assert_eq!(diary_wing("Cursor Agent"), "wing_cursor_agent");
    assert_eq!(clamp_limit(0, 1, 50), 1);
    assert_eq!(clamp_limit(75, 1, 50), 50);
    assert_eq!(clamp_limit(7, 1, 50), 7);
}

fn obj(id: Option<RequestId>, method: Option<&str>) -> Incoming {
    Incoming::Object { id, method: method.map(|m| m.to_string()) }
}

fn reply_of(p: Plan) -> Option<String> {
    match p {
        Plan::Reply(t) => Some(t),
        _ => None,
    }
}

#[test]
fn requests_are_answered_by_route() {
    assert_eq!(reply_of(plan_reply(&Incoming::Unparsable)), Some(parse_error_response()));
    assert!(matches!(plan_reply(&Incoming::NotObject), Plan::Silent));
    let num = || Some(RequestId::Number("1".to_string()));
    assert_eq!(
        reply_of(plan_reply(&obj(num(), Some("initialize")))),
        Some(initialize_response("1"))
    );
    assert_eq!(
        reply_of(plan_reply(&obj(num(), Some("tools/list")))),
        Some(tools_list_response("1"))
    );
    assert_eq!(
        reply_of(plan_reply(&obj(Some(RequestId::Str("q".to_string())), Some("bogus")))),
        Some(method_not_found_response("\"q\""))
    );
    match plan_reply(&obj(Some(RequestId::Str("a\"b".to_string())), Some("tools/call"))) {
        Plan::CallTool { id } => assert_eq!(id, "\"a\\\"b\""),
        _ => panic!("tools/call must run the tool"),
    }
}

#[test]
fn notifications_get_no_answer() {
    assert!(matches!(plan_reply(&obj(None, Some("tools/list"))), Plan::Silent));
    assert!(matches!(plan_reply(&obj(None, Some("initialize"))), Plan::Silent));
    assert!(matches!(
        plan_reply(&obj(Some(RequestId::Null), Some("notifications/initialized"))),
        Plan::Silent
    ));
    assert!(matches!(plan_reply(&obj(Some(RequestId::Null), None)), Plan::Silent));
}

#[test]
fn missing_drawer_replies() {
    assert_eq!(
        drawer_not_found_reply("drawer_x", "DrawerNotFound: drawer_x"),
        Some("Drawer not found: drawer_x".to_string())
    );
    assert_eq!(drawer_not_found_reply("drawer_x", "database is locked"), None);
}

#[test]
fn tool_text_escapes_controls() {
    assert_eq!(
        tool_call_response("6", &Ok("a\u{1}\u{1f}\t\\/é\u{8}\u{c}\r".to_string())),
        r#"{"jsonrpc":"2.0","id":6,"result":{"content":[{"type":"text","text":"a\u0001\u001f\t\\/é\b\f\r"}]}}"#
    );
}
