//! The MCP tool calls: which tools exist, which arguments each requires,
//! and the defaults of the others. Running a call against the palace
//! happens elsewhere.
use vstd::prelude::*;
use crate::sources::{is_source_name, normalize_source_arg, source_arg, SourceError};
use crate::text::{chars_of, eq_str, string_of};

verus! {

/// A tool argument as the request gave it (numbers only when integral).
pub enum ArgValue {
    Str(String),
    Int(i64),
    Bool(bool),
    Other,
}

/// The arguments of a call, by name.
pub type ToolArgs = Vec<(String, ArgValue)>;

/// The first argument called `key`.
pub open spec fn arg_of(args: Seq<(String, ArgValue)>, key: Seq<char>) -> Option<ArgValue>
    decreases args.len(),
{
    if args.len() == 0 {
        None
    } else if args[0].0@ == key {
        Some(args[0].1)
    } else {
        arg_of(args.drop_first(), key)
    }
}

pub open spec fn str_arg(args: Seq<(String, ArgValue)>, key: Seq<char>) -> Option<Seq<char>> {
    match arg_of(args, key) {
        Some(ArgValue::Str(s)) => Some(s@),
        _ => None,
    }
}

pub open spec fn int_arg(args: Seq<(String, ArgValue)>, key: Seq<char>) -> Option<i64> {
    match arg_of(args, key) {
        Some(ArgValue::Int(n)) => Some(n),
        _ => None,
    }
}

pub open spec fn bool_arg(args: Seq<(String, ArgValue)>, key: Seq<char>) -> Option<bool> {
    match arg_of(args, key) {
        Some(ArgValue::Bool(b)) => Some(b),
        _ => None,
    }
}

fn find_arg<'a>(args: &'a [(String, ArgValue)], key: &str) -> (r: Option<&'a ArgValue>)
    ensures
        match r {
            Some(v) => arg_of(args@, key@) == Some(*v),
            None => arg_of(args@, key@) is None,
        },
{
    let mut i: usize = 0;
    assert(args@.skip(0) =~= args@);
    while i < args.len()
        invariant
            i <= args.len(),
            arg_of(args@, key@) == arg_of(args@.skip(i as int), key@),
        decreases args.len() - i,
    {
        assert(args@.skip(i as int)[0] == args@[i as int]);
        assert(args@.skip(i as int).drop_first() =~= args@.skip(i + 1));
        if eq_str(&chars_of(args[i].0.as_str()), key) {
            return Some(&args[i].1);
        }
        i = i + 1;
    }
    None
}

fn get_str(args: &[(String, ArgValue)], key: &str) -> (r: Option<String>)
    ensures
        opt_view(r) == str_arg(args@, key@),
{
    match find_arg(args, key) {
        Some(ArgValue::Str(s)) => Some(string_of(&chars_of(s.as_str()))),
        _ => None,
    }
}

fn get_int(args: &[(String, ArgValue)], key: &str) -> (r: Option<i64>)
    ensures
        r == int_arg(args@, key@),
{
    match find_arg(args, key) {
        Some(ArgValue::Int(n)) => Some(*n),
        _ => None,
    }
}

fn get_bool(args: &[(String, ArgValue)], key: &str) -> (r: Option<bool>)
    ensures
        r == bool_arg(args@, key@),
{
    match find_arg(args, key) {
        Some(ArgValue::Bool(b)) => Some(*b),
        _ => None,
    }
}

pub open spec fn opt_view(o: Option<String>) -> Option<Seq<char>> {
    match o {
        Some(s) => Some(s@),
        None => None,
    }
}

/// A tool call with its arguments resolved: required ones present,
/// defaults filled in. `S` is the text type.
pub enum ToolCall<S> {
    Status,
    ListWings,
    ListRooms { wing: Option<S> },
    Taxonomy,
    AaakSpec,
    KgQuery { entity: S, as_of: Option<S>, direction: S },
    KgAdd { subject: S, predicate: S, object: S, valid_from: Option<S>, source_closet: Option<S> },
    KgInvalidate { subject: S, predicate: S, object: S, ended: Option<S> },
    KgTimeline { entity: Option<S> },
    KgStats,
    Traverse { start_room: S, max_hops: i64 },
    FindTunnels { wing_a: Option<S>, wing_b: Option<S> },
    GraphStats,
    Search { query: S, limit: i64, wing: Option<S>, room: Option<S> },
    CheckDuplicate { content: S },
    AddDrawer { wing: S, room: S, content: S, source_file: Option<S>, added_by: S },
    DeleteDrawer { drawer_id: S },
    UpdateDrawer { drawer_id: S, content: S, wing: Option<S>, room: Option<S> },
    BulkReplace { find: S, replace: S, wing: Option<S> },
    DiaryWrite { agent_name: S, entry: S, topic: S },
    DiaryRead { agent_name: S, last_n: i64 },
    ImportSessions { source: S, full: bool },
}

/// Why a tool call could not be made.
pub enum CallFault {
    MissingRequiredArg(Seq<char>),
    UnknownTool(Seq<char>),
    InvalidSource(Seq<char>),
}

/// Why a tool call was refused before it ran.
#[derive(Debug, Clone, PartialEq, Eq)]
pub enum ToolError {
    MissingRequiredArg { name: String },
    UnknownTool { name: String },
    Source { error: SourceError },
}

impl ToolError {
    pub open spec fn fault(&self) -> CallFault {
        match self {
            ToolError::MissingRequiredArg { name } => CallFault::MissingRequiredArg(name@),
            ToolError::UnknownTool { name } => CallFault::UnknownTool(name@),
            ToolError::Source { error } => CallFault::InvalidSource(
                match error {
                    SourceError::InvalidSource { given, .. } => given@,
                    SourceError::SourceNotFound { source } => source@,
                },
            ),
        }
    }

    pub open spec fn text(&self) -> Seq<char> {
        match self {
            ToolError::MissingRequiredArg { name } => "MissingRequiredArg: "@ + name@,
            ToolError::UnknownTool { name } => "UnknownTool: "@ + name@,
            ToolError::Source { error } => error.text(),
        }
    }

    pub fn message(&self) -> (r: String)
        ensures
            r@ == self.text(),
    {
        match self {
            ToolError::MissingRequiredArg { name } => {
                let mut c = chars_of("MissingRequiredArg: ");
                crate::text::append_str(&mut c, name.as_str());
                string_of(&c)
            },
            ToolError::UnknownTool { name } => {
                let mut c = chars_of("UnknownTool: ");
                crate::text::append_str(&mut c, name.as_str());
                string_of(&c)
            },
            ToolError::Source { error } => error.message(),
        }
    }
}

pub open spec fn opt_seq(o: Option<String>) -> Option<Seq<char>> {
    opt_view(o)
}

pub open spec fn call_view(c: ToolCall<String>) -> ToolCall<Seq<char>> {
    match c {
        ToolCall::Status => ToolCall::Status,
        ToolCall::ListWings => ToolCall::ListWings,
        ToolCall::ListRooms { wing } => ToolCall::ListRooms { wing: opt_seq(wing) },
        ToolCall::Taxonomy => ToolCall::Taxonomy,
        ToolCall::AaakSpec => ToolCall::AaakSpec,
        ToolCall::KgQuery { entity, as_of, direction } => ToolCall::KgQuery {
            entity: entity@,
            as_of: opt_seq(as_of),
            direction: direction@,
        },
        ToolCall::KgAdd { subject, predicate, object, valid_from, source_closet } => ToolCall::KgAdd {
            subject: subject@,
            predicate: predicate@,
            object: object@,
            valid_from: opt_seq(valid_from),
            source_closet: opt_seq(source_closet),
        },
        ToolCall::KgInvalidate { subject, predicate, object, ended } => ToolCall::KgInvalidate {
            subject: subject@,
            predicate: predicate@,
            object: object@,
            ended: opt_seq(ended),
        },
        ToolCall::KgTimeline { entity } => ToolCall::KgTimeline { entity: opt_seq(entity) },
        ToolCall::KgStats => ToolCall::KgStats,
        ToolCall::Traverse { start_room, max_hops } => ToolCall::Traverse {
            start_room: start_room@,
            max_hops,
        },
        ToolCall::FindTunnels { wing_a, wing_b } => ToolCall::FindTunnels {
            wing_a: opt_seq(wing_a),
            wing_b: opt_seq(wing_b),
        },
        ToolCall::GraphStats => ToolCall::GraphStats,
        ToolCall::Search { query, limit, wing, room } => ToolCall::Search {
            query: query@,
            limit,
            wing: opt_seq(wing),
            room: opt_seq(room),
        },
        ToolCall::CheckDuplicate { content } => ToolCall::CheckDuplicate { content: content@ },
        ToolCall::AddDrawer { wing, room, content, source_file, added_by } => ToolCall::AddDrawer {
            wing: wing@,
            room: room@,
            content: content@,
            source_file: opt_seq(source_file),
            added_by: added_by@,
        },
        ToolCall::DeleteDrawer { drawer_id } => ToolCall::DeleteDrawer { drawer_id: drawer_id@ },
        ToolCall::UpdateDrawer { drawer_id, content, wing, room } => ToolCall::UpdateDrawer {
            drawer_id: drawer_id@,
            content: content@,
            wing: opt_seq(wing),
            room: opt_seq(room),
        },
        ToolCall::BulkReplace { find, replace, wing } => ToolCall::BulkReplace {
            find: find@,
            replace: replace@,
            wing: opt_seq(wing),
        },
        ToolCall::DiaryWrite { agent_name, entry, topic } => ToolCall::DiaryWrite {
            agent_name: agent_name@,
            entry: entry@,
            topic: topic@,
        },
        ToolCall::DiaryRead { agent_name, last_n } => ToolCall::DiaryRead {
            agent_name: agent_name@,
            last_n,
        },
        ToolCall::ImportSessions { source, full } => ToolCall::ImportSessions { source: source@, full },
    }
}

/// `Some(v)`, or `d` when absent.
pub open spec fn or_default<T>(o: Option<T>, d: T) -> T {
    match o {
        Some(v) => v,
        None => d,
    }
}

/// The first of the required arguments `keys` that is missing.
pub open spec fn first_missing(args: Seq<(String, ArgValue)>, keys: Seq<Seq<char>>) -> Option<Seq<char>>
    decreases keys.len(),
{
    if keys.len() == 0 {
        None
    } else if str_arg(args, keys[0]) is None {
        Some(keys[0])
    } else {
        first_missing(args, keys.drop_first())
    }
}

/// What a call to tool `name` with `args` resolves to.
pub open spec fn resolve_call(name: Seq<char>, args: Seq<(String, ArgValue)>) -> Result<
    ToolCall<Seq<char>>,
    CallFault,
> {
    let s = |k: Seq<char>| str_arg(args, k);
    let req = |ks: Seq<Seq<char>>| first_missing(args, ks);
    if name == "mempalace_status"@ {
        Ok(ToolCall::Status)
    } else if name == "mempalace_list_wings"@ {
        Ok(ToolCall::ListWings)
    } else if name == "mempalace_list_rooms"@ {
        Ok(ToolCall::ListRooms { wing: s("wing"@) })
    } else if name == "mempalace_get_taxonomy"@ {
        Ok(ToolCall::Taxonomy)
    } else if name == "mempalace_get_aaak_spec"@ {
        Ok(ToolCall::AaakSpec)
    } else if name == "mempalace_kg_query"@ {
        match req(seq!["entity"@]) {
            Some(m) => Err(CallFault::MissingRequiredArg(m)),
            None => Ok(
                ToolCall::KgQuery {
                    entity: s("entity"@)->0,
                    as_of: s("as_of"@),
                    direction: or_default(s("direction"@), "both"@),
                },
            ),
        }
    } else if name == "mempalace_kg_add"@ {
        match req(seq!["subject"@, "predicate"@, "object"@]) {
            Some(m) => Err(CallFault::MissingRequiredArg(m)),
            None => Ok(
                ToolCall::KgAdd {
                    subject: s("subject"@)->0,
                    predicate: s("predicate"@)->0,
                    object: s("object"@)->0,
                    valid_from: s("valid_from"@),
                    source_closet: s("source_closet"@),
                },
            ),
        }
    } else if name == "mempalace_kg_invalidate"@ {
        match req(seq!["subject"@, "predicate"@, "object"@]) {
            Some(m) => Err(CallFault::MissingRequiredArg(m)),
            None => Ok(
                ToolCall::KgInvalidate {
                    subject: s("subject"@)->0,
                    predicate: s("predicate"@)->0,
                    object: s("object"@)->0,
                    ended: s("ended"@),
                },
            ),
        }
    } else if name == "mempalace_kg_timeline"@ {
        Ok(ToolCall::KgTimeline { entity: s("entity"@) })
    } else if name == "mempalace_kg_stats"@ {
        Ok(ToolCall::KgStats)
    } else if name == "mempalace_traverse"@ {
        match req(seq!["start_room"@]) {
            Some(m) => Err(CallFault::MissingRequiredArg(m)),
            None => Ok(
                ToolCall::Traverse {
                    start_room: s("start_room"@)->0,
                    max_hops: or_default(int_arg(args, "max_hops"@), 2),
                },
            ),
        }
    } else if name == "mempalace_find_tunnels"@ {
        Ok(ToolCall::FindTunnels { wing_a: s("wing_a"@), wing_b: s("wing_b"@) })
    } else if name == "mempalace_graph_stats"@ {
        Ok(ToolCall::GraphStats)
    } else if name == "mempalace_search"@ {
        match req(seq!["query"@]) {
            Some(m) => Err(CallFault::MissingRequiredArg(m)),
            None => Ok(
                ToolCall::Search {
                    query: s("query"@)->0,
                    limit: or_default(int_arg(args, "limit"@), 5),
                    wing: s("wing"@),
                    room: s("room"@),
                },
            ),
        }
    } else if name == "mempalace_check_duplicate"@ {
        match req(seq!["content"@]) {
            Some(m) => Err(CallFault::MissingRequiredArg(m)),
            None => Ok(ToolCall::CheckDuplicate { content: s("content"@)->0 }),
        }
    } else if name == "mempalace_add_drawer"@ {
        match req(seq!["wing"@, "room"@, "content"@]) {
            Some(m) => Err(CallFault::MissingRequiredArg(m)),
            None => Ok(
                ToolCall::AddDrawer {
                    wing: s("wing"@)->0,
                    room: s("room"@)->0,
                    content: s("content"@)->0,
                    source_file: s("source_file"@),
                    added_by: or_default(s("added_by"@), "mcp"@),
                },
            ),
        }
    } else if name == "mempalace_delete_drawer"@ {
        match req(seq!["drawer_id"@]) {
            Some(m) => Err(CallFault::MissingRequiredArg(m)),
            None => Ok(ToolCall::DeleteDrawer { drawer_id: s("drawer_id"@)->0 }),
        }
    } else if name == "mempalace_update_drawer"@ {
        match req(seq!["drawer_id"@, "content"@]) {
            Some(m) => Err(CallFault::MissingRequiredArg(m)),
            None => Ok(
                ToolCall::UpdateDrawer {
                    drawer_id: s("drawer_id"@)->0,
                    content: s("content"@)->0,
                    wing: s("wing"@),
                    room: s("room"@),
                },
            ),
        }
    } else if name == "mempalace_bulk_replace"@ {
        match req(seq!["find"@, "replace"@]) {
            Some(m) => Err(CallFault::MissingRequiredArg(m)),
            None => Ok(
                ToolCall::BulkReplace {
                    find: s("find"@)->0,
                    replace: s("replace"@)->0,
                    wing: s("wing"@),
                },
            ),
        }
    } else if name == "mempalace_diary_write"@ {
        match req(seq!["agent_name"@, "entry"@]) {
            Some(m) => Err(CallFault::MissingRequiredArg(m)),
            None => Ok(
                ToolCall::DiaryWrite {
                    agent_name: s("agent_name"@)->0,
                    entry: s("entry"@)->0,
                    topic: or_default(s("topic"@), "general"@),
                },
            ),
        }
    } else if name == "mempalace_diary_read"@ {
        match req(seq!["agent_name"@]) {
            Some(m) => Err(CallFault::MissingRequiredArg(m)),
            None => Ok(
                ToolCall::DiaryRead {
                    agent_name: s("agent_name"@)->0,
                    last_n: or_default(int_arg(args, "last_n"@), 10),
                },
            ),
        }
    } else if name == "mempalace_import_sessions"@ {
        let src = source_arg(s("source"@));
        if is_source_name(src) || src == "auto"@ {
            Ok(
                ToolCall::ImportSessions {
                    source: src,
                    full: or_default(bool_arg(args, "full"@), false),
                },
            )
        } else {
            Err(CallFault::InvalidSource(src))
        }
    } else {
        Err(CallFault::UnknownTool(name))
    }
}


fn missing(key: &str) -> (e: ToolError)
    ensures
        e.fault() == CallFault::MissingRequiredArg(key@),
{
    ToolError::MissingRequiredArg { name: string_of(&chars_of(key)) }
}

fn need1(args: &[(String, ArgValue)], a: &str) -> (r: Result<String, ToolError>)
    ensures
        match r {
            Ok(x) => first_missing(args@, seq![a@]) is None && str_arg(args@, a@) == Some(x@),
            Err(e) => first_missing(args@, seq![a@]) == Some(a@) && e.fault()
                == CallFault::MissingRequiredArg(a@),
        },
{
    reveal_with_fuel(first_missing, 2);
    assert(seq![a@].drop_first() =~= Seq::<Seq<char>>::empty());
    match get_str(args, a) {
        Some(x) => Ok(x),
        None => Err(missing(a)),
    }
}

fn need2(args: &[(String, ArgValue)], a: &str, b: &str) -> (r: Result<(String, String), ToolError>)
    ensures
        match r {
            Ok((x, y)) => first_missing(args@, seq![a@, b@]) is None && str_arg(args@, a@) == Some(x@)
                && str_arg(args@, b@) == Some(y@),
            Err(e) => first_missing(args@, seq![a@, b@]) matches Some(m) && e.fault()
                == CallFault::MissingRequiredArg(m),
        },
{
    reveal_with_fuel(first_missing, 3);
    assert(seq![a@, b@].drop_first() =~= seq![b@]);
    assert(seq![b@].drop_first() =~= Seq::<Seq<char>>::empty());
    let x = match get_str(args, a) {
        Some(x) => x,
        None => {
            return Err(missing(a));
        },
    };
    match get_str(args, b) {
        Some(y) => Ok((x, y)),
        None => Err(missing(b)),
    }
}

fn need3(args: &[(String, ArgValue)], a: &str, b: &str, c: &str) -> (r: Result<
    (String, String, String),
    ToolError,
>)
    ensures
        match r {
            Ok((x, y, z)) => first_missing(args@, seq![a@, b@, c@]) is None && str_arg(args@, a@)
                == Some(x@) && str_arg(args@, b@) == Some(y@) && str_arg(args@, c@) == Some(z@),
            Err(e) => first_missing(args@, seq![a@, b@, c@]) matches Some(m) && e.fault()
                == CallFault::MissingRequiredArg(m),
        },
{
    reveal_with_fuel(first_missing, 4);
    assert(seq![a@, b@, c@].drop_first() =~= seq![b@, c@]);
    assert(seq![b@, c@].drop_first() =~= seq![c@]);
    assert(seq![c@].drop_first() =~= Seq::<Seq<char>>::empty());
    let x = match get_str(args, a) {
        Some(x) => x,
        None => {
            return Err(missing(a));
        },
    };
    let y = match get_str(args, b) {
        Some(y) => y,
        None => {
            return Err(missing(b));
        },
    };
    match get_str(args, c) {
        Some(z) => Ok((x, y, z)),
        None => Err(missing(c)),
    }
}

fn str_or(o: Option<String>, d: &str) -> (r: String)
    ensures
        r@ == or_default(opt_view(o), d@),
{
    match o {
        Some(x) => x,
        None => string_of(&chars_of(d)),
    }
}

/// Resolve a tool call: the tool by its name, required arguments checked in
/// order, defaults filled in (see `resolve_call`).
#[verifier::rlimit(40)]
pub fn resolve_tool_call(name: &str, args: &[(String, ArgValue)]) -> (r: Result<ToolCall<String>, ToolError>)
    ensures
        match r {
            Ok(c) => resolve_call(name@, args@) == Ok::<ToolCall<Seq<char>>, CallFault>(call_view(c)),
            Err(e) => resolve_call(name@, args@) == Err::<ToolCall<Seq<char>>, CallFault>(e.fault()),
        },
{
    let n = chars_of(name);
    if eq_str(&n, "mempalace_status") {
        Ok(ToolCall::Status)
    } else if eq_str(&n, "mempalace_list_wings") {
        Ok(ToolCall::ListWings)
    } else if eq_str(&n, "mempalace_list_rooms") {
        Ok(ToolCall::ListRooms { wing: get_str(args, "wing") })
    } else if eq_str(&n, "mempalace_get_taxonomy") {
        Ok(ToolCall::Taxonomy)
    } else if eq_str(&n, "mempalace_get_aaak_spec") {
        Ok(ToolCall::AaakSpec)
    } else if eq_str(&n, "mempalace_kg_query") {
        let entity = need1(args, "entity")?;
        Ok(
            ToolCall::KgQuery {
                entity,
                as_of: get_str(args, "as_of"),
                direction: str_or(get_str(args, "direction"), "both"),
            },
        )
    } else if eq_str(&n, "mempalace_kg_add") {
        let (subject, predicate, object) = need3(args, "subject", "predicate", "object")?;
        Ok(
            ToolCall::KgAdd {
                subject,
                predicate,
                object,
                valid_from: get_str(args, "valid_from"),
                source_closet: get_str(args, "source_closet"),
            },
        )
    } else if eq_str(&n, "mempalace_kg_invalidate") {
        let (subject, predicate, object) = need3(args, "subject", "predicate", "object")?;
        Ok(ToolCall::KgInvalidate { subject, predicate, object, ended: get_str(args, "ended") })
    } else if eq_str(&n, "mempalace_kg_timeline") {
        Ok(ToolCall::KgTimeline { entity: get_str(args, "entity") })
    } else if eq_str(&n, "mempalace_kg_stats") {
        Ok(ToolCall::KgStats)
    } else if eq_str(&n, "mempalace_traverse") {
        let start_room = need1(args, "start_room")?;
        let max_hops = match get_int(args, "max_hops") {
            Some(h) => h,
            None => 2,
        };
        Ok(ToolCall::Traverse { start_room, max_hops })
    } else if eq_str(&n, "mempalace_find_tunnels") {
        Ok(ToolCall::FindTunnels { wing_a: get_str(args, "wing_a"), wing_b: get_str(args, "wing_b") })
    } else if eq_str(&n, "mempalace_graph_stats") {
        Ok(ToolCall::GraphStats)
    } else if eq_str(&n, "mempalace_search") {
        let query = need1(args, "query")?;
        let limit = match get_int(args, "limit") {
            Some(l) => l,
            None => 5,
        };
        Ok(ToolCall::Search { query, limit, wing: get_str(args, "wing"), room: get_str(args, "room") })
    } else if eq_str(&n, "mempalace_check_duplicate") {
        let content = need1(args, "content")?;
        Ok(ToolCall::CheckDuplicate { content })
    } else if eq_str(&n, "mempalace_add_drawer") {
        let (wing, room, content) = need3(args, "wing", "room", "content")?;
        Ok(
            ToolCall::AddDrawer {
                wing,
                room,
                content,
                source_file: get_str(args, "source_file"),
                added_by: str_or(get_str(args, "added_by"), "mcp"),
            },
        )
    } else if eq_str(&n, "mempalace_delete_drawer") {
        let drawer_id = need1(args, "drawer_id")?;
        Ok(ToolCall::DeleteDrawer { drawer_id })
    } else if eq_str(&n, "mempalace_update_drawer") {
        let (drawer_id, content) = need2(args, "drawer_id", "content")?;
        Ok(
            ToolCall::UpdateDrawer {
                drawer_id,
                content,
                wing: get_str(args, "wing"),
                room: get_str(args, "room"),
            },
        )
    } else if eq_str(&n, "mempalace_bulk_replace") {
        let (find, replace) = need2(args, "find", "replace")?;
        Ok(ToolCall::BulkReplace { find, replace, wing: get_str(args, "wing") })
    } else if eq_str(&n, "mempalace_diary_write") {
        let (agent_name, entry) = need2(args, "agent_name", "entry")?;
        Ok(ToolCall::DiaryWrite { agent_name, entry, topic: str_or(get_str(args, "topic"), "general") })
    } else if eq_str(&n, "mempalace_diary_read") {
        let agent_name = need1(args, "agent_name")?;
        let last_n = match get_int(args, "last_n") {
            Some(l) => l,
            None => 10,
        };
        Ok(ToolCall::DiaryRead { agent_name, last_n })
    } else if eq_str(&n, "mempalace_import_sessions") {
        let src = get_str(args, "source");
        let full = match get_bool(args, "full") {
            Some(b) => b,
            None => false,
        };
        let raw: Option<&str> = match &src {
            Some(s) => Some(s.as_str()),
            None => None,
        };
        match normalize_source_arg(raw) {
            Ok(source) => Ok(ToolCall::ImportSessions { source, full }),
            Err(error) => Err(ToolError::Source { error }),
        }
    } else {
        Err(ToolError::UnknownTool { name: string_of(&n) })
    }
}
} // verus!
