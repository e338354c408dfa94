//! Command-line argument rules of the `search` subcommand.
use vstd::prelude::*;
use crate::numparse::{parse_unsigned, parse_usize};
use crate::text::{chars_of, eq_str, starts_with, starts_with_str, string_of, strs};

verus! {

/// The options of `mempalace search`.
pub struct SearchOpts {
    pub query: String,
    pub limit: usize,
    pub wing: Option<String>,
    pub room: Option<String>,
    pub source_file: Option<String>,
}

/// What has been read of the arguments so far: the query, the limit, and
/// the wing, room and source filters.
pub type ArgState = (Option<Seq<char>>, nat, Option<Seq<char>>, Option<Seq<char>>, Option<Seq<char>>);

pub open spec fn usage_text() -> Seq<char> {
    "Usage: mempalace search <query> [--limit N] [--wing W] [--room R] [--source FILE]"@
}

/// Read the arguments from position `i` on.
pub open spec fn scan_args(args: Seq<Seq<char>>, i: int, st: ArgState) -> Result<ArgState, Seq<char>>
    decreases args.len() - i,
{
    if i < 0 || i >= args.len() {
        Ok(st)
    } else {
        let a = args[i];
        let (q, limit, wing, room, source) = st;
        let has_value = i + 1 < args.len();
        if a == "--limit"@ {
            if !has_value {
                Err("--limit requires a number"@)
            } else {
                match parse_unsigned(args[i + 1], usize::MAX as nat) {
                    Some(n) => scan_args(args, i + 2, (q, n, wing, room, source)),
                    None => Err("--limit requires a number"@),
                }
            }
        } else if a == "--wing"@ {
            if has_value {
                scan_args(args, i + 2, (q, limit, Some(args[i + 1]), room, source))
            } else {
                Err("--wing requires a value"@)
            }
        } else if a == "--room"@ {
            if has_value {
                scan_args(args, i + 2, (q, limit, wing, Some(args[i + 1]), source))
            } else {
                Err("--room requires a value"@)
            }
        } else if a == "--source"@ {
            if has_value {
                scan_args(args, i + 2, (q, limit, wing, room, Some(args[i + 1])))
            } else {
                Err("--source requires a value"@)
            }
        } else if starts_with(a, "-"@) && a != "-"@ {
            Err("Unknown flag: "@ + a)
        } else if q is Some {
            Err("Only one query argument allowed"@)
        } else {
            scan_args(args, i + 1, (Some(a), limit, wing, room, source))
        }
    }
}

pub open spec fn clamp(n: nat, lo: nat, hi: nat) -> nat {
    if n < lo {
        lo
    } else if n > hi {
        hi
    } else {
        n
    }
}

/// The outcome of reading the arguments: the options (the limit clamped to
/// 1..=100, 5 when not given), or the message of the first problem.
pub open spec fn search_args(args: Seq<Seq<char>>) -> Result<ArgState, Seq<char>> {
    match scan_args(args, 0, (None, 5, None, None, None)) {
        Err(e) => Err(e),
        Ok((q, limit, wing, room, source)) => match q {
            None => Err(usage_text()),
            Some(query) => Ok((Some(query), clamp(limit, 1, 100), wing, room, source)),
        },
    }
}

pub open spec fn opt_string_view(o: Option<String>) -> Option<Seq<char>> {
    match o {
        Some(s) => Some(s@),
        None => None,
    }
}

pub open spec fn opts_view(o: SearchOpts) -> ArgState {
    (Some(o.query@), o.limit as nat, opt_string_view(o.wing), opt_string_view(o.room), opt_string_view(o.source_file))
}

fn copy_string(s: &String) -> (r: String)
    ensures
        r@ == s@,
{
    string_of(&chars_of(s.as_str()))
}

fn err_text(lit: &str) -> (r: String)
    ensures
        r@ == lit@,
{
    string_of(&chars_of(lit))
}

/// Parse the arguments of `search`: one query, then --limit N, --wing W,
/// --room R and --source FILE in any order (see `search_args`).
pub fn parse_search_args(args: &[String]) -> (r: Result<SearchOpts, String>)
    ensures
        match (r, search_args(strs(args@))) {
            (Ok(o), Ok(st)) => opts_view(o) == st,
            (Err(e), Err(m)) => e@ == m,
            _ => false,
        },
{
    let ghost av = strs(args@);
    let mut query: Option<String> = None;
    let mut limit: usize = 5;
    let mut wing: Option<String> = None;
    let mut room: Option<String> = None;
    let mut source_file: Option<String> = None;
    let mut i: usize = 0;
    while i < args.len()
        invariant
            av == strs(args@),
            i <= args.len() + 1,
            scan_args(av, 0, (None, 5, None, None, None)) == scan_args(
                av,
                i as int,
                (
                    opt_string_view(query),
                    limit as nat,
                    opt_string_view(wing),
                    opt_string_view(room),
                    opt_string_view(source_file),
                ),
            ),
        decreases args.len() + 1 - i,
    {
        let a = chars_of(args[i].as_str());
        assert(a@ == av[i as int]);
        let has_value = i + 1 < args.len();
        if eq_str(&a, "--limit") {
            if !has_value {
                return Err(err_text("--limit requires a number"));
            }
            assert(av[i + 1] == args@[i + 1]@);
            match parse_usize(&chars_of(args[i + 1].as_str())) {
                Some(n) => {
                    limit = n;
                },
                None => {
                    return Err(err_text("--limit requires a number"));
                },
            }
            i = i + 2;
        } else if eq_str(&a, "--wing") {
            if !has_value {
                return Err(err_text("--wing requires a value"));
            }
            assert(av[i + 1] == args@[i + 1]@);
            wing = Some(copy_string(&args[i + 1]));
            i = i + 2;
        } else if eq_str(&a, "--room") {
            if !has_value {
                return Err(err_text("--room requires a value"));
            }
            assert(av[i + 1] == args@[i + 1]@);
            room = Some(copy_string(&args[i + 1]));
            i = i + 2;
        } else if eq_str(&a, "--source") {
            if !has_value {
                return Err(err_text("--source requires a value"));
            }
            assert(av[i + 1] == args@[i + 1]@);
            source_file = Some(copy_string(&args[i + 1]));
            i = i + 2;
        } else if starts_with_str(&a, "-") && !eq_str(&a, "-") {
            let mut m = chars_of("Unknown flag: ");
            crate::text::append_chars(&mut m, &a);
            return Err(string_of(&m));
        } else if query.is_some() {
            return Err(err_text("Only one query argument allowed"));
        } else {
            query = Some(copy_string(&args[i]));
            i = i + 1;
        }
    }
    match query {
        None => Err(
            err_text("Usage: mempalace search <query> [--limit N] [--wing W] [--room R] [--source FILE]"),
        ),
        Some(q) => {
            let clamped = if limit < 1 {
                1
            } else if limit > 100 {
                100
            } else {
                limit
            };
            Ok(SearchOpts { query: q, limit: clamped, wing, room, source_file })
        },
    }
}


/// Parsed options always carry a query and a limit within 1..=100.
pub proof fn law_search_limit_in_range(args: Seq<Seq<char>>)
    ensures
        search_args(args) matches Ok(st) ==> st.0 is Some && 1 <= st.1 <= 100,
{
}

// ── subcommands ─────────────────────────────────────────────────────────────
/// A command line: the subcommand and what it was given.
pub enum Command {
    Info,
    /// `index <directory>`; the directory when given.
    Index { dir: Option<String> },
    /// `index-sessions [--source S] [--full] [--db PATH]`: the source when
    /// given, whether `--full` appears, and `--db` (absent, or present with
    /// its path when one follows).
    IndexSessions { source: Option<String>, full: bool, db: Option<Option<String>> },
    /// `search ...`: the arguments after the subcommand.
    Search { args: Vec<String> },
    /// `import-palace <path>`; the path when given.
    ImportPalace { path: Option<String> },
    Reindex,
    /// Anything else: serve MCP over stdio.
    Serve,
}

/// The first place where `w` appears.
pub open spec fn first_pos(args: Seq<Seq<char>>, w: Seq<char>) -> Option<int>
    decreases args.len(),
{
    if args.len() == 0 {
        None
    } else if args[0] == w {
        Some(0)
    } else {
        match first_pos(args.drop_first(), w) {
            Some(p) => Some(p + 1),
            None => None,
        }
    }
}

/// The argument after the first `w`, when there is one.
pub open spec fn value_after(args: Seq<Seq<char>>, w: Seq<char>) -> Option<Seq<char>> {
    match first_pos(args, w) {
        Some(p) => if p + 1 < args.len() {
            Some(args[p + 1])
        } else {
            None
        },
        None => None,
    }
}

pub open spec fn arg_at(args: Seq<Seq<char>>, i: int) -> Option<Seq<char>> {
    if 0 <= i < args.len() {
        Some(args[i])
    } else {
        None
    }
}

pub open spec fn command_view(c: Command) -> (int, Option<Seq<char>>, bool, Option<Option<Seq<char>>>, Seq<Seq<char>>) {
    match c {
        Command::Info => (0, None, false, None, Seq::empty()),
        Command::Index { dir } => (1, opt_string_view(dir), false, None, Seq::empty()),
        Command::IndexSessions { source, full, db } => (
            2,
            opt_string_view(source),
            full,
            match db {
                Some(d) => Some(opt_string_view(d)),
                None => None,
            },
            Seq::empty(),
        ),
        Command::Search { args } => (3, None, false, None, strs(args@)),
        Command::ImportPalace { path } => (4, opt_string_view(path), false, None, Seq::empty()),
        Command::Reindex => (5, None, false, None, Seq::empty()),
        Command::Serve => (6, None, false, None, Seq::empty()),
    }
}

/// What a command line asks for (arguments counted from the program name).
pub open spec fn command_of(args: Seq<Seq<char>>) -> (int, Option<Seq<char>>, bool, Option<Option<Seq<char>>>, Seq<Seq<char>>) {
    let sub = match arg_at(args, 1) {
        Some(s) => s,
        None => Seq::empty(),
    };
    if sub == "--info"@ || sub == "info"@ {
        (0, None, false, None, Seq::empty())
    } else if sub == "index"@ {
        (1, arg_at(args, 2), false, None, Seq::empty())
    } else if sub == "index-sessions"@ {
        (
            2,
            value_after(args, "--source"@),
            first_pos(args, "--full"@) is Some,
            if first_pos(args, "--db"@) is Some {
                Some(value_after(args, "--db"@))
            } else {
                None
            },
            Seq::empty(),
        )
    } else if sub == "search"@ {
        (3, None, false, None, args.skip(2))
    } else if sub == "import-palace"@ {
        (4, arg_at(args, 2), false, None, Seq::empty())
    } else if sub == "reindex"@ {
        (5, None, false, None, Seq::empty())
    } else {
        (6, None, false, None, Seq::empty())
    }
}

fn find_word(args: &[String], w: &str) -> (r: Option<usize>)
    ensures
        match r {
            Some(p) => first_pos(strs(args@), w@) == Some(p as int) && p < args.len(),
            None => first_pos(strs(args@), w@) is None,
        },
{
    let ghost av = strs(args@);
    let mut i: usize = 0;
    assert(av.skip(0) =~= av);
    while i < args.len()
        invariant
            av == strs(args@),
            i <= args.len(),
            first_pos(av, w@) == match first_pos(av.skip(i as int), w@) {
                Some(p) => Some(p + i),
                None => None,
            },
        decreases args.len() - i,
    {
        assert(av.skip(i as int)[0] == args@[i as int]@);
        assert(av.skip(i as int).drop_first() =~= av.skip(i + 1));
        if eq_str(&chars_of(args[i].as_str()), w) {
            return Some(i);
        }
        i = i + 1;
    }
    assert(av.skip(i as int) =~= Seq::<Seq<char>>::empty());
    None
}

fn after_word(args: &[String], w: &str) -> (r: Option<String>)
    ensures
        opt_string_view(r) == value_after(strs(args@), w@),
{
    match find_word(args, w) {
        Some(p) => if p + 1 < args.len() {
            assert(strs(args@)[p + 1] == args@[p + 1]@);
            Some(copy_string(&args[p + 1]))
        } else {
            None
        },
        None => None,
    }
}

fn arg_at_exec(args: &[String], i: usize) -> (r: Option<String>)
    ensures
        opt_string_view(r) == arg_at(strs(args@), i as int),
{
    if i < args.len() {
        assert(strs(args@)[i as int] == args@[i as int]@);
        Some(copy_string(&args[i]))
    } else {
        None
    }
}

/// Read the command line (see `command_of`).
pub fn parse_command(args: &[String]) -> (c: Command)
    ensures
        command_view(c) == command_of(strs(args@)),
{
    let sub = match arg_at_exec(args, 1) {
        Some(s) => chars_of(s.as_str()),
        None => Vec::new(),
    };
    if eq_str(&sub, "--info") || eq_str(&sub, "info") {
        Command::Info
    } else if eq_str(&sub, "index") {
        Command::Index { dir: arg_at_exec(args, 2) }
    } else if eq_str(&sub, "index-sessions") {
        let db = match find_word(args, "--db") {
            Some(_) => Some(after_word(args, "--db")),
            None => None,
        };
        Command::IndexSessions {
            source: after_word(args, "--source"),
            full: find_word(args, "--full").is_some(),
            db,
        }
    } else if eq_str(&sub, "search") {
        proof {
            reveal_strlit("search");
            assert("search"@.len() == 6);
        }
        let mut rest: Vec<String> = Vec::new();
        let mut i: usize = 2;
        while i < args.len()
            invariant
                2 <= i <= args.len(),
                rest@.len() == i - 2,
                forall|j: int| 0 <= j < rest@.len() ==> #[trigger] rest@[j]@ == args@[j + 2]@,
            decreases args.len() - i,
        {
            rest.push(copy_string(&args[i]));
            i = i + 1;
        }
        assert forall|j: int| 0 <= j < strs(rest@).len() implies #[trigger] strs(rest@)[j] == strs(
            args@,
        ).skip(2)[j] by {
            assert(rest@[j]@ == args@[j + 2]@);
        }
        assert(strs(rest@) =~= strs(args@).skip(2));
        Command::Search { args: rest }
    } else if eq_str(&sub, "import-palace") {
        Command::ImportPalace { path: arg_at_exec(args, 2) }
    } else if eq_str(&sub, "reindex") {
        Command::Reindex
    } else {
        Command::Serve
    }
}
} // verus!
