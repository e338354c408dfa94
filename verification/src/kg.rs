//! The rules of the knowledge graph that sit in front of the database:
//! valid time windows, superseding a fact, and how a fact is written.
use vstd::prelude::*;
use crate::text::{append_str, chars_of, eq_chars, eq_str, lex_less, lex_lt, string_of};

verus! {

/// Why a knowledge-graph change was refused.
#[derive(Debug, Clone, PartialEq, Eq)]
pub enum KgError {
    /// `valid_to` comes before `valid_from`.
    InvertedRange { valid_to: String, valid_from: String },
    /// The old and the new object of a supersede are the same.
    SameObject,
    /// The fact to supersede exists but has already ended.
    FactAlreadyEnded,
    /// There is no such fact to supersede.
    FactNotFound,
}

impl KgError {
    pub open spec fn text(&self) -> Seq<char> {
        match self {
            KgError::InvertedRange { valid_to, valid_from } => "Invalid date range: valid_to ("@
                + valid_to@ + ") precedes valid_from ("@ + valid_from@ + ")"@,
            KgError::SameObject => "InvalidArgument: old_object and new_object must differ"@,
            KgError::FactAlreadyEnded => "FactAlreadyEnded"@,
            KgError::FactNotFound => "FactNotFound"@,
        }
    }

    /// The error as a sentence.
    pub fn message(&self) -> (r: String)
        ensures
            r@ == self.text(),
    {
        let mut c: Vec<char> = Vec::new();
        match self {
            KgError::InvertedRange { valid_to, valid_from } => {
                append_str(&mut c, "Invalid date range: valid_to (");
                append_str(&mut c, valid_to.as_str());
                append_str(&mut c, ") precedes valid_from (");
                append_str(&mut c, valid_from.as_str());
                append_str(&mut c, ")");
            },
            KgError::SameObject => {
                append_str(&mut c, "InvalidArgument: old_object and new_object must differ");
            },
            KgError::FactAlreadyEnded => {
                append_str(&mut c, "FactAlreadyEnded");
            },
            KgError::FactNotFound => {
                append_str(&mut c, "FactNotFound");
            },
        }
        string_of(&c)
    }
}

/// A time window is refused only when both ends are given and the end
/// sorts before the start (dates compare as text).
pub open spec fn window_ok(valid_from: Option<Seq<char>>, valid_to: Option<Seq<char>>) -> bool {
    match (valid_from, valid_to) {
        (Some(vf), Some(vt)) => !lex_lt(vt, vf),
        _ => true,
    }
}

pub open spec fn opt_view(o: Option<&str>) -> Option<Seq<char>> {
    match o {
        Some(s) => Some(s@),
        None => None,
    }
}

/// Check the valid time window of a new fact.
pub fn check_window(valid_from: Option<&str>, valid_to: Option<&str>) -> (r: Result<(), KgError>)
    ensures
        r is Ok <==> window_ok(opt_view(valid_from), opt_view(valid_to)),
        r matches Err(e) ==> (e matches KgError::InvertedRange { valid_to: t, valid_from: f }
            && Some(t@) == opt_view(valid_to) && Some(f@) == opt_view(valid_from)),
{
    match (valid_from, valid_to) {
        (Some(vf), Some(vt)) => {
            let f = chars_of(vf);
            let t = chars_of(vt);
            if lex_less(&t, &f) {
                Err(KgError::InvertedRange { valid_to: string_of(&t), valid_from: string_of(&f) })
            } else {
                Ok(())
            }
        },
        _ => Ok(()),
    }
}

/// A fact can only be superseded by a different object.
pub fn check_supersede(old_object: &str, new_object: &str) -> (r: Result<(), KgError>)
    ensures
        r is Ok <==> old_object@ != new_object@,
        r matches Err(e) ==> e == KgError::SameObject,
{
    if eq_chars(&chars_of(old_object), &chars_of(new_object)) {
        Err(KgError::SameObject)
    } else {
        Ok(())
    }
}

/// Why a supersede found no open fact: it existed and ended, or it never
/// existed.
pub fn missing_fact(ever_existed: bool) -> (e: KgError)
    ensures
        ever_existed ==> e == KgError::FactAlreadyEnded,
        !ever_existed ==> e == KgError::FactNotFound,
{
    if ever_existed {
        KgError::FactAlreadyEnded
    } else {
        KgError::FactNotFound
    }
}

/// "subject → predicate → object".
pub open spec fn fact_line(subject: Seq<char>, predicate: Seq<char>, object: Seq<char>) -> Seq<char> {
    subject + " \u{2192} "@ + predicate + " \u{2192} "@ + object
}

pub fn fact_text(subject: &str, predicate: &str, object: &str) -> (r: String)
    ensures
        r@ == fact_line(subject@, predicate@, object@),
{
    let mut c = chars_of(subject);
    append_str(&mut c, " \u{2192} ");
    append_str(&mut c, predicate);
    append_str(&mut c, " \u{2192} ");
    append_str(&mut c, object);
    string_of(&c)
}

/// Which facts of an entity a query returns.
#[derive(Debug, Clone, Copy, PartialEq, Eq, Structural)]
pub enum Direction {
    /// Facts whose subject is the entity.
    Outgoing,
    /// Facts whose object is the entity.
    Incoming,
    /// Both.
    Both,
}

/// "outgoing" and "incoming" select one side; anything else means both.
pub fn direction_of(s: &str) -> (d: Direction)
    ensures
        s@ == "outgoing"@ ==> d == Direction::Outgoing,
        s@ == "incoming"@ ==> d == Direction::Incoming,
        s@ != "outgoing"@ && s@ != "incoming"@ ==> d == Direction::Both,
{
    proof {
        reveal_strlit("outgoing");
        reveal_strlit("incoming");
        assert("outgoing"@[0] != "incoming"@[0]);
    }
    let v = chars_of(s);
    if eq_str(&v, "outgoing") {
        Direction::Outgoing
    } else if eq_str(&v, "incoming") {
        Direction::Incoming
    } else {
        Direction::Both
    }
}

} // verus!
