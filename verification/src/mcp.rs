//! The MCP server's protocol rules: the tool catalogue, how a JSON-RPC
//! request is routed, and the exact text of every response. Reading
//! requests and running tools against the database happen elsewhere.
use vstd::prelude::*;
use crate::store::{replace_all, replaced};
use crate::text::{append_str, chars_of, contains, contains_str, eq_str, lower, string_of};

verus! {

/// The tools the server offers, as the JSON array that `tools/list` returns.
pub const TOOLS_JSON: &'static str = r#"[{"name":"mempalace_status","description":"Palace overview \u2014 total drawers, wing and room counts","inputSchema":{"type":"object","properties":{}}},{"name":"mempalace_list_wings","description":"List all wings with drawer counts","inputSchema":{"type":"object","properties":{}}},{"name":"mempalace_list_rooms","description":"List rooms within a wing (or all rooms if no wing given)","inputSchema":{"type":"object","properties":{"wing":{"type":"string","description":"Wing to list rooms for (optional)"}}}},{"name":"mempalace_get_taxonomy","description":"Full taxonomy: wing \u2192 room \u2192 drawer count","inputSchema":{"type":"object","properties":{}}},{"name":"mempalace_get_aaak_spec","description":"Get the AAAK dialect specification \u2014 the compressed memory format MemPalace uses. Call this if you need to read or write AAAK-compressed memories.","inputSchema":{"type":"object","properties":{}}},{"name":"mempalace_kg_query","description":"Query the knowledge graph for an entity's relationships. Returns typed facts with temporal validity. E.g. 'Max' \u2192 child_of Alice, loves chess, does swimming. Filter by date with as_of to see what was true at a point in time.","inputSchema":{"type":"object","properties":{"entity":{"type":"string","description":"Entity to query (e.g. 'Max', 'MyProject', 'Alice')"},"as_of":{"type":"string","description":"Date filter \u2014 only facts valid at this date (YYYY-MM-DD, optional)"},"direction":{"type":"string","description":"outgoing (entity\u2192?), incoming (?\u2192entity), or both (default: both)"}},"required":["entity"]}},{"name":"mempalace_kg_add","description":"Add a fact to the knowledge graph. Subject \u2192 predicate \u2192 object with optional time window. E.g. ('Max', 'started_school', 'Year 7', valid_from='2026-09-01').","inputSchema":{"type":"object","properties":{"subject":{"type":"string","description":"The entity doing/being something"},"predicate":{"type":"string","description":"The relationship type (e.g. 'loves', 'works_on', 'daughter_of')"},"object":{"type":"string","description":"The entity being connected to"},"valid_from":{"type":"string","description":"When this became true (YYYY-MM-DD, optional)"},"source_closet":{"type":"string","description":"Closet ID where this fact appears (optional)"}},"required":["subject","predicate","object"]}},{"name":"mempalace_kg_invalidate","description":"Mark a fact as no longer true. E.g. ankle injury resolved, job ended, moved house.","inputSchema":{"type":"object","properties":{"subject":{"type":"string","description":"Entity"},"predicate":{"type":"string","description":"Relationship"},"object":{"type":"string","description":"Connected entity"},"ended":{"type":"string","description":"When it stopped being true (YYYY-MM-DD, default: today)"}},"required":["subject","predicate","object"]}},{"name":"mempalace_kg_timeline","description":"Chronological timeline of facts. Shows the story of an entity (or everything) in order.","inputSchema":{"type":"object","properties":{"entity":{"type":"string","description":"Entity to get timeline for (optional \u2014 omit for full timeline)"}}}},{"name":"mempalace_kg_stats","description":"Knowledge graph overview: entities, triples, current vs expired facts, relationship types.","inputSchema":{"type":"object","properties":{}}},{"name":"mempalace_traverse","description":"Walk the palace graph from a room. Shows connected ideas across wings \u2014 the tunnels. Like following a thread through the palace: start at 'chromadb-setup' in wing_code, discover it connects to wing_myproject (planning) and wing_user (feelings about it).","inputSchema":{"type":"object","properties":{"start_room":{"type":"string","description":"Room to start from (e.g. 'chromadb-setup', 'riley-school')"},"max_hops":{"type":"integer","description":"How many connections to follow (default: 2)"}},"required":["start_room"]}},{"name":"mempalace_find_tunnels","description":"Find rooms that bridge two wings \u2014 the hallways connecting different domains. E.g. what topics connect wing_code to wing_team?","inputSchema":{"type":"object","properties":{"wing_a":{"type":"string","description":"First wing (optional)"},"wing_b":{"type":"string","description":"Second wing (optional)"}}}},{"name":"mempalace_graph_stats","description":"Palace graph overview: total rooms, tunnel connections, edges between wings.","inputSchema":{"type":"object","properties":{}}},{"name":"mempalace_search","description":"Semantic search. Returns verbatim drawer content with similarity scores.","inputSchema":{"type":"object","properties":{"query":{"type":"string","description":"What to search for"},"limit":{"type":"integer","description":"Max results (default 5)"},"wing":{"type":"string","description":"Filter by wing (optional)"},"room":{"type":"string","description":"Filter by room (optional)"}},"required":["query"]}},{"name":"mempalace_check_duplicate","description":"Check if content already exists in the palace before filing","inputSchema":{"type":"object","properties":{"content":{"type":"string","description":"Content to check"},"threshold":{"type":"number","description":"Similarity threshold 0-1 (default 0.9)"}},"required":["content"]}},{"name":"mempalace_add_drawer","description":"File verbatim content into the palace. Checks for duplicates first.","inputSchema":{"type":"object","properties":{"wing":{"type":"string","description":"Wing (project name)"},"room":{"type":"string","description":"Room (aspect: backend, decisions, meetings...)"},"content":{"type":"string","description":"Verbatim content to store \u2014 exact words, never summarized"},"source_file":{"type":"string","description":"Where this came from (optional)"},"added_by":{"type":"string","description":"Who is filing this (default: mcp)"}},"required":["wing","room","content"]}},{"name":"mempalace_delete_drawer","description":"Delete a drawer by ID. Irreversible.","inputSchema":{"type":"object","properties":{"drawer_id":{"type":"string","description":"ID of the drawer to delete"}},"required":["drawer_id"]}},{"name":"mempalace_update_drawer","description":"Update the content (and optionally wing/room) of an existing drawer by ID. Re-embeds and re-indexes automatically. Use this to correct facts, update paths, or revise stored text without deleting and re-adding.","inputSchema":{"type":"object","properties":{"drawer_id":{"type":"string","description":"ID of the drawer to update"},"content":{"type":"string","description":"New content to store"},"wing":{"type":"string","description":"New wing (optional — keeps existing if omitted)"},"room":{"type":"string","description":"New room (optional — keeps existing if omitted)"}},"required":["drawer_id","content"]}},{"name":"mempalace_bulk_replace","description":"Find-and-replace a string across ALL drawer content in the palace. Returns count of updated drawers. Useful for bulk corrections like renamed paths, people, or projects.","inputSchema":{"type":"object","properties":{"find":{"type":"string","description":"Exact string to find"},"replace":{"type":"string","description":"String to replace it with"},"wing":{"type":"string","description":"Limit to this wing only (optional)"}},"required":["find","replace"]}},{"name":"mempalace_diary_write","description":"Write to your personal agent diary in AAAK format. Your observations, thoughts, what you worked on, what matters. Each agent has their own diary with full history. Write in AAAK for compression \u2014 e.g. 'SESSION:2026-04-04|built.palace.graph+diary.tools|ALC.req:agent.diaries.in.aaak|\u2605\u2605\u2605'. Use entity codes from the AAAK spec.","inputSchema":{"type":"object","properties":{"agent_name":{"type":"string","description":"Your name \u2014 each agent gets their own diary wing"},"entry":{"type":"string","description":"Your diary entry in AAAK format \u2014 compressed, entity-coded, emotion-marked"},"topic":{"type":"string","description":"Topic tag (optional, default: general)"}},"required":["agent_name","entry"]}},{"name":"mempalace_diary_read","description":"Read your recent diary entries (in AAAK). See what past versions of yourself recorded \u2014 your journal across sessions.","inputSchema":{"type":"object","properties":{"agent_name":{"type":"string","description":"Your name \u2014 each agent gets their own diary wing"},"last_n":{"type":"integer","description":"Number of recent entries to read (default: 10)"}},"required":["agent_name"]}},{"name":"mempalace_import_sessions","description":"Import coding-agent sessions into the palace, one drawer per session (incremental: only new or changed sessions unless full is set). Stores that are not installed are skipped in auto mode.","inputSchema":{"type":"object","properties":{"source":{"type":"string","enum":["auto","opencode","codex","grok","zcode"],"description":"Which session store to import: auto (every store found on this machine), opencode, codex, grok or zcode (default: auto)"},"full":{"type":"boolean","description":"Re-import every session, not only new or changed ones (default: false)"}}}}]"#;

// ── routing ─────────────────────────────────────────────────────────────────
/// What the server does with a request's method.
#[derive(Debug, Clone, Copy, PartialEq, Eq, Structural)]
pub enum Route {
    Initialize,
    /// A notification: never answered.
    Notification,
    ToolsList,
    ToolsCall,
    Unknown,
}

pub open spec fn route_of(method: Seq<char>) -> Route {
    if method == "initialize"@ {
        Route::Initialize
    } else if method == "initialized"@ || method == "notifications/initialized"@ {
        Route::Notification
    } else if method == "tools/list"@ {
        Route::ToolsList
    } else if method == "tools/call"@ {
        Route::ToolsCall
    } else {
        Route::Unknown
    }
}

pub fn route(method: &str) -> (r: Route)
    ensures
        r == route_of(method@),
{
    let m = chars_of(method);
    if eq_str(&m, "initialize") {
        Route::Initialize
    } else if eq_str(&m, "initialized") || eq_str(&m, "notifications/initialized") {
        Route::Notification
    } else if eq_str(&m, "tools/list") {
        Route::ToolsList
    } else if eq_str(&m, "tools/call") {
        Route::ToolsCall
    } else {
        Route::Unknown
    }
}

// ── responses ───────────────────────────────────────────────────────────────
/// A request id as the request gave it: `null`, a boolean, a number (in
/// the text the JSON reader prints for it), a string, or anything else.
pub enum RequestId {
    Null,
    Bool(bool),
    Number(String),
    Str(String),
    Other,
}

/// The id written back into a response: strings are quoted with their
/// double quotes escaped; anything that is not a scalar becomes null.
pub open spec fn id_text(id: RequestId) -> Seq<char> {
    match id {
        RequestId::Null => "null"@,
        RequestId::Bool(b) => if b {
            "true"@
        } else {
            "false"@
        },
        RequestId::Number(n) => n@,
        RequestId::Str(s) => "\""@ + replaced(s@, "\""@, "\\\""@) + "\""@,
        RequestId::Other => "null"@,
    }
}

pub fn id_json(id: &RequestId) -> (r: String)
    ensures
        r@ == id_text(*id),
{
    match id {
        RequestId::Null => string_of(&chars_of("null")),
        RequestId::Bool(b) => if *b {
            string_of(&chars_of("true"))
        } else {
            string_of(&chars_of("false"))
        },
        RequestId::Number(n) => string_of(&chars_of(n.as_str())),
        RequestId::Str(s) => {
            let mut c = chars_of("\"");
            append_str(&mut c, replace_all(s.as_str(), "\"", "\\\"").as_str());
            append_str(&mut c, "\"");
            string_of(&c)
        },
        RequestId::Other => string_of(&chars_of("null")),
    }
}

/// The answer to a line that is not JSON.
pub open spec fn parse_error_text() -> Seq<char> {
    "{\"jsonrpc\":\"2.0\",\"id\":null,\"error\":{\"code\":-32700,\"message\":\"Parse error\"}}"@
}

pub fn parse_error_response() -> (r: String)
    ensures
        r@ == parse_error_text(),
{
    string_of(&chars_of("{\"jsonrpc\":\"2.0\",\"id\":null,\"error\":{\"code\":-32700,\"message\":\"Parse error\"}}"))
}

pub open spec fn initialize_text(id: Seq<char>) -> Seq<char> {
    "{\"jsonrpc\":\"2.0\",\"id\":"@ + id
        + ",\"result\":{\"protocolVersion\":\"2024-11-05\",\"capabilities\":{\"tools\":{}},\"serverInfo\":{\"name\":\"mempalace\",\"version\":\"3.0.0\"}}}"@
}

pub fn initialize_response(id: &str) -> (r: String)
    ensures
        r@ == initialize_text(id@),
{
    let mut c = chars_of("{\"jsonrpc\":\"2.0\",\"id\":");
    append_str(&mut c, id);
    append_str(
        &mut c,
        ",\"result\":{\"protocolVersion\":\"2024-11-05\",\"capabilities\":{\"tools\":{}},\"serverInfo\":{\"name\":\"mempalace\",\"version\":\"3.0.0\"}}}",
    );
    string_of(&c)
}

pub open spec fn tools_list_text(id: Seq<char>) -> Seq<char> {
    "{\"jsonrpc\":\"2.0\",\"id\":"@ + id + ",\"result\":{\"tools\":"@ + TOOLS_JSON@ + "}}"@
}

pub fn tools_list_response(id: &str) -> (r: String)
    ensures
        r@ == tools_list_text(id@),
{
    let mut c = chars_of("{\"jsonrpc\":\"2.0\",\"id\":");
    append_str(&mut c, id);
    append_str(&mut c, ",\"result\":{\"tools\":");
    append_str(&mut c, TOOLS_JSON);
    append_str(&mut c, "}}");
    string_of(&c)
}

pub open spec fn method_not_found_text(id: Seq<char>) -> Seq<char> {
    "{\"jsonrpc\":\"2.0\",\"id\":"@ + id + ",\"error\":{\"code\":-32601,\"message\":\"Method not found\"}}"@
}

pub fn method_not_found_response(id: &str) -> (r: String)
    ensures
        r@ == method_not_found_text(id@),
{
    let mut c = chars_of("{\"jsonrpc\":\"2.0\",\"id\":");
    append_str(&mut c, id);
    append_str(&mut c, ",\"error\":{\"code\":-32601,\"message\":\"Method not found\"}}");
    string_of(&c)
}

/// A lower-case hexadecimal digit.
pub open spec fn hex_lower(n: int) -> char {
    if n < 10 {
        (n + 48) as char
    } else {
        (n + 87) as char
    }
}

/// How one character is written inside a JSON string: `"` and `\` behind a
/// backslash; backspace, form feed, line feed, carriage return and tab as
/// `\b \f \n \r \t`; the other characters below U+0020 as `\u00XX` (lower-case
/// hex); every other character as itself.
pub open spec fn json_char(c: char) -> Seq<char> {
    if c == '"' {
        seq!['\\', '"']
    } else if c == '\\' {
        seq!['\\', '\\']
    } else if c == '\u{8}' {
        seq!['\\', 'b']
    } else if c == '\u{c}' {
        seq!['\\', 'f']
    } else if c == '\n' {
        seq!['\\', 'n']
    } else if c == '\r' {
        seq!['\\', 'r']
    } else if c == '\t' {
        seq!['\\', 't']
    } else if (c as u32) < 0x20 {
        seq!['\\', 'u', '0', '0', hex_lower((c as int) / 16), hex_lower((c as int) % 16)]
    } else {
        seq![c]
    }
}

/// The characters of `s`, each written as `json_char` writes it.
pub open spec fn json_escaped(s: Seq<char>) -> Seq<char>
    decreases s.len(),
{
    if s.len() == 0 {
        Seq::empty()
    } else {
        json_escaped(s.drop_last()) + json_char(s.last())
    }
}

/// The text of `s` as a JSON string literal: between double quotes, each
/// character escaped by `json_char`.
pub open spec fn json_quoted(s: Seq<char>) -> Seq<char> {
    seq!['"'] + json_escaped(s) + seq!['"']
}

/// `serde_json::to_string` on a string: the quoted JSON literal, escaped
/// as its `ESCAPE` table and `write_char_escape` do (see `json_char`).
/// Serialising a `str` cannot fail; the empty text stands for a failure
/// that does not happen.
#[verifier::external_body]
fn json_quote(s: &str) -> (r: String)
    ensures
        r@ == json_quoted(s@),
{
    match serde_json::to_string(s) {
        Ok(t) => t,
        Err(_) => String::new(),
    }
}

/// The answer to `tools/call`, the tool's text being already quoted.
pub open spec fn tool_call_text(id: Seq<char>, quoted: Seq<char>, is_error: bool) -> Seq<char> {
    "{\"jsonrpc\":\"2.0\",\"id\":"@ + id + ",\"result\":{\"content\":[{\"type\":\"text\",\"text\":"@ + quoted
        + "}]"@ + (if is_error {
        ",\"isError\":true"@
    } else {
        Seq::empty()
    }) + "}}"@
}

pub fn tool_call_response_quoted(id: &str, quoted: &str, is_error: bool) -> (r: String)
    ensures
        r@ == tool_call_text(id@, quoted@, is_error),
{
    let mut c = chars_of("{\"jsonrpc\":\"2.0\",\"id\":");
    append_str(&mut c, id);
    append_str(&mut c, ",\"result\":{\"content\":[{\"type\":\"text\",\"text\":");
    append_str(&mut c, quoted);
    append_str(&mut c, "}]");
    let ghost c0 = c@;
    if is_error {
        append_str(&mut c, ",\"isError\":true");
    } else {
        assert(c@ =~= c0 + Seq::<char>::empty());
    }
    append_str(&mut c, "}}");
    string_of(&c)
}

/// The answer to `tools/call`: the tool's text, or its error's message
/// flagged as an error.
pub fn tool_call_response(id: &str, outcome: &Result<String, String>) -> (r: String)
    ensures
        match outcome {
            Ok(t) => r@ == tool_call_text(id@, json_quoted(t@), false),
            Err(m) => r@ == tool_call_text(id@, json_quoted(m@), true),
        },
{
    match outcome {
        Ok(t) => tool_call_response_quoted(id, json_quote(t.as_str()).as_str(), false),
        Err(m) => tool_call_response_quoted(id, json_quote(m.as_str()).as_str(), true),
    }
}

// ── tool arguments ──────────────────────────────────────────────────────────
/// An agent's name as used in its diary wing: spaces become underscores,
/// ASCII letters lower case.
pub open spec fn agent_key(name: Seq<char>) -> Seq<char> {
    name.map_values(|c: char| if c == ' ' {
        '_'
    } else {
        lower(c)
    })
}

pub fn normalize_agent_name(name: &str) -> (r: String)
    ensures
        r@ == agent_key(name@),
{
    let v = chars_of(name);
    let mut c: Vec<char> = Vec::new();
    for i in 0..v.len()
        invariant
            c@ == v@.take(i as int).map_values(|c: char| if c == ' ' {
                '_'
            } else {
                lower(c)
            }),
    {
        let x = v[i];
        let y = if x == ' ' {
            '_'
        } else {
            crate::text::lower_exec(x)
        };
        c.push(y);
        assert(v@.take(i + 1).map_values(|c: char| if c == ' ' {
            '_'
        } else {
            lower(c)
        }) =~= v@.take(i as int).map_values(|c: char| if c == ' ' {
            '_'
        } else {
            lower(c)
        }).push(y));
    }
    assert(v@.take(v.len() as int) =~= v@);
    string_of(&c)
}

/// The error text that a drawer update or delete reports for a drawer
/// that does not exist: when the store's error names `DrawerNotFound`, the
/// reply is "Drawer not found: <id>"; any other error is passed on.
pub fn drawer_not_found_reply(drawer_id: &str, error: &str) -> (r: Option<String>)
    ensures
        r is Some <==> contains(error@, "DrawerNotFound"@),
        r matches Some(t) ==> t@ == "Drawer not found: "@ + drawer_id@,
{
    if contains_str(&chars_of(error), "DrawerNotFound") {
        let mut c = chars_of("Drawer not found: ");
        append_str(&mut c, drawer_id);
        Some(string_of(&c))
    } else {
        None
    }
}

/// The wing that holds an agent's diary: "wing_" and its normalized name.
pub fn diary_wing(agent_name: &str) -> (r: String)
    ensures
        r@ == "wing_"@ + agent_key(agent_name@),
{
    let mut c = chars_of("wing_");
    append_str(&mut c, normalize_agent_name(agent_name).as_str());
    string_of(&c)
}

/// A result limit kept within `lo..=hi`.
pub fn clamp_limit(n: usize, lo: usize, hi: usize) -> (r: usize)
    requires
        lo <= hi,
    ensures
        r == if n < lo {
            lo
        } else if n > hi {
            hi
        } else {
            n
        },
{
    if n < lo {
        lo
    } else if n > hi {
        hi
    } else {
        n
    }
}


// ── answering a request ─────────────────────────────────────────────────────
/// A request line as read: not JSON, JSON but not an object, or an object
/// with its `id` (when present) and its `method` (when it is a string).
pub enum Incoming {
    Unparsable,
    NotObject,
    Object { id: Option<RequestId>, method: Option<String> },
}

/// What to do with a request.
pub enum Plan {
    /// Send nothing back.
    Silent,
    /// Send this line back.
    Reply(String),
    /// Run the tool call and answer it under this id.
    CallTool { id: String },
}

/// The answer to each request: a parse error for a line that is not JSON;
/// nothing for anything but an object, for a notification (no id), or when
/// the method is missing; otherwise by route.
pub open spec fn plan_of(m: Incoming) -> Option<Result<Seq<char>, Seq<char>>> {
    match m {
        Incoming::Unparsable => Some(Ok(parse_error_text())),
        Incoming::NotObject => None,
        Incoming::Object { id, method } => match (id, method) {
            (Some(i), Some(meth)) => {
                let idt = id_text(i);
                match route_of(meth@) {
                    Route::Initialize => Some(Ok(initialize_text(idt))),
                    Route::Notification => None,
                    Route::ToolsList => Some(Ok(tools_list_text(idt))),
                    Route::ToolsCall => Some(Err(idt)),
                    Route::Unknown => Some(Ok(method_not_found_text(idt))),
                }
            },
            _ => None,
        },
    }
}

/// Decide how to answer a request (see `plan_of`: `Ok` is a reply, `Err`
/// the id under which a tool call is answered).
pub fn plan_reply(m: &Incoming) -> (p: Plan)
    ensures
        match p {
            Plan::Silent => plan_of(*m) is None,
            Plan::Reply(t) => plan_of(*m) == Some(Ok::<Seq<char>, Seq<char>>(t@)),
            Plan::CallTool { id } => plan_of(*m) == Some(Err::<Seq<char>, Seq<char>>(id@)),
        },
{
    match m {
        Incoming::Unparsable => Plan::Reply(parse_error_response()),
        Incoming::NotObject => Plan::Silent,
        Incoming::Object { id, method } => match (id, method) {
            (Some(i), Some(meth)) => {
                let idt = id_json(i);
                match route(meth.as_str()) {
                    Route::Initialize => Plan::Reply(initialize_response(idt.as_str())),
                    Route::Notification => Plan::Silent,
                    Route::ToolsList => Plan::Reply(tools_list_response(idt.as_str())),
                    Route::ToolsCall => Plan::CallTool { id: idt },
                    Route::Unknown => Plan::Reply(method_not_found_response(idt.as_str())),
                }
            },
            _ => Plan::Silent,
        },
    }
}

/// Notifications (requests without an id) and JSON that is not an object
/// are never answered.
pub proof fn law_notifications_unanswered(method: Option<String>)
    ensures
        plan_of(Incoming::Object { id: None, method }) is None,
        plan_of(Incoming::NotObject) is None,
{
}
} // verus!
