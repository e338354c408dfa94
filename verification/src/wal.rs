//! The write-ahead log's rules: which parameters are redacted before a
//! write is logged, and which entries a read returns.
use vstd::prelude::*;
use crate::fmt::{dec, dec_usize};
use crate::text::{append_chars, append_str, chars_of, eq_str, string_of};

verus! {

/// Parameters whose text never reaches the log.
pub const REDACT_KEYS: [&'static str; 6] = ["content", "query", "entry", "text", "document", "content_preview"];

pub open spec fn is_redacted_key(k: Seq<char>) -> bool {
    exists|i: int| 0 <= i < 6 && k == #[trigger] REDACT_KEYS[i]@
}

/// What a parameter is logged as: `None` keeps it; a redacted text shows
/// only its length in bytes, any other redacted value nothing at all.
pub open spec fn redaction_text(key: Seq<char>, text: Option<Seq<char>>) -> Option<Seq<char>> {
    if !is_redacted_key(key) {
        None
    } else {
        match text {
            Some(s) => Some("[REDACTED "@ + dec(vstd::utf8::encode_utf8(s).len()) + " chars]"@),
            None => Some("[REDACTED]"@),
        }
    }
}

/// How to log the parameter `key`; `text` is its value when that is a
/// string.
pub fn redaction(key: &str, text: Option<&str>) -> (r: Option<String>)
    ensures
        match r {
            Some(s) => redaction_text(
                key@,
                match text {
                    Some(t) => Some(t@),
                    None => None,
                },
            ) == Some(s@),
            None => redaction_text(
                key@,
                match text {
                    Some(t) => Some(t@),
                    None => None,
                },
            ) is None,
        },
{
    let k = chars_of(key);
    let mut found = false;
    let mut i: usize = 0;
    while i < 6
        invariant
            i <= 6,
            k@ == key@,
            found == exists|j: int| 0 <= j < i && k@ == #[trigger] REDACT_KEYS[j]@,
        decreases 6 - i,
    {
        if eq_str(&k, REDACT_KEYS[i]) {
            found = true;
        }
        i = i + 1;
    }
    if !found {
        return None;
    }
    match text {
        Some(t) => {
            let mut c: Vec<char> = Vec::new();
            append_str(&mut c, "[REDACTED ");
            append_chars(&mut c, &dec_usize(t.as_bytes().len()));
            append_str(&mut c, " chars]");
            Some(string_of(&c))
        },
        None => Some(string_of(&chars_of("[REDACTED]"))),
    }
}

/// The last `limit` entries, newest first.
pub fn newest_first<T>(entries: Vec<T>, limit: usize) -> (r: Vec<T>)
    ensures
        r@ == entries@.reverse().take(if limit < entries@.len() {
            limit as int
        } else {
            entries@.len() as int
        }),
{
    let mut e = entries;
    let ghost all = e@;
    let mut r: Vec<T> = Vec::new();
    while r.len() < limit && e.len() > 0
        invariant
            e@ == all.take(all.len() - r@.len()),
            r@ == all.reverse().take(r@.len() as int),
            r@.len() <= all.len(),
            r@.len() <= limit,
            all == entries@,
        decreases e.len(),
    {
        let ghost n: int = r@.len() as int;
        let x = e.pop().unwrap();
        r.push(x);
        assert(all.reverse().take(n + 1) =~= all.reverse().take(n).push(all[all.len() - 1 - n]));
        assert(e@ =~= all.take(all.len() - (n + 1)));
    }
    r
}

} // verus!
