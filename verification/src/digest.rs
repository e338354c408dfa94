//! Deterministic ids: the MD5 digest (computed by the `md5` crate) of a
//! drawer's or a fact's text, written in lower-case hex.
use vstd::prelude::*;
use crate::fmt::{dec, dec_u128};
use crate::text::{append_chars, append_str, chars_of, string_of};

verus! {

/// The MD5 digest of `data`, as the `md5` crate computes it.
pub uninterp spec fn md5_of(data: Seq<u8>) -> Seq<u8>;

/// `md5::compute`: the 16 bytes of the MD5 digest of `data`. The contract
/// only names the digest (`md5_of`); what MD5 computes is not restated.
#[verifier::external_body]
fn md5_digest(data: &[u8]) -> (d: [u8; 16])
    ensures
        d@ == md5_of(data@),
{
    md5::compute(data).0
}

pub open spec fn hex_digit(n: nat) -> char {
    if n < 10 {
        ((n + 48) as u32) as char
    } else {
        ((n + 87) as u32) as char
    }
}

/// Lower-case hex, two digits per byte (what `{:x}` prints for a digest).
pub open spec fn hex(bytes: Seq<u8>) -> Seq<char>
    decreases bytes.len(),
{
    if bytes.len() == 0 {
        Seq::empty()
    } else {
        hex(bytes.drop_last()) + seq![
            hex_digit((bytes.last() / 16) as nat),
            hex_digit((bytes.last() % 16) as nat),
        ]
    }
}

fn hex_digit_exec(n: u8) -> (c: char)
    requires
        n < 16,
    ensures
        c == hex_digit(n as nat),
{
    if n < 10 {
        (n + 48) as char
    } else {
        (n + 87) as char
    }
}

pub fn hex_of(bytes: &[u8]) -> (r: Vec<char>)
    ensures
        r@ == hex(bytes@),
{
    let mut r: Vec<char> = Vec::new();
    assert(bytes@.take(0) =~= Seq::<u8>::empty());
    for i in 0..bytes.len()
        invariant
            r@ == hex(bytes@.take(i as int)),
    {
        assert(bytes@.take(i + 1).drop_last() =~= bytes@.take(i as int));
        assert(bytes@.take(i + 1).last() == bytes[i as int]);
        let b = bytes[i];
        r.push(hex_digit_exec(b / 16));
        r.push(hex_digit_exec(b % 16));
    }
    assert(bytes@.take(bytes.len() as int) =~= bytes@);
    r
}

proof fn lemma_hex_len(bytes: Seq<u8>)
    ensures
        hex(bytes).len() == 2 * bytes.len(),
    decreases bytes.len(),
{
    if bytes.len() > 0 {
        lemma_hex_len(bytes.drop_last());
    }
}

fn append_bytes(dst: &mut Vec<u8>, src: &[u8])
    ensures
        final(dst)@ == old(dst)@ + src@,
{
    let ghost start = dst@;
    for i in 0..src.len()
        invariant
            dst@ == start + src@.take(i as int),
    {
        dst.push(src[i]);
        assert(src@.take(i + 1) =~= src@.take(i as int).push(src@[i as int]));
    }
    assert(src@.take(src.len() as int) =~= src@);
}

/// The UTF-8 bytes of a string.
pub open spec fn utf8(s: Seq<char>) -> Seq<u8> {
    vstd::utf8::encode_utf8(s)
}

/// The first 16 hex digits of a digest (its first 8 bytes).
pub open spec fn short_hex(digest: Seq<u8>) -> Seq<char> {
    hex(digest).take(16)
}

fn short_hex_exec(digest: &[u8; 16]) -> (r: Vec<char>)
    ensures
        r@ == short_hex(digest@),
{
    let h = hex_of(digest);
    proof {
        lemma_hex_len(digest@);
    }
    let mut r: Vec<char> = Vec::new();
    for i in 0..16
        invariant
            h@ == hex(digest@),
            h@.len() == 32,
            r@ == h@.take(i as int),
    {
        r.push(h[i]);
        assert(h@.take(i + 1) =~= h@.take(i as int).push(h@[i as int]));
    }
    r
}

/// "drawer_{wing}_{room}_" and the short hex of the digest.
pub open spec fn drawer_id_text(wing: Seq<char>, room: Seq<char>, digest: Seq<u8>) -> Seq<char> {
    "drawer_"@ + wing + "_"@ + room + "_"@ + short_hex(digest)
}

/// The id of a drawer whose content, wing and room hash to `digest`.
pub fn drawer_id_from_digest(wing: &str, room: &str, digest: &[u8; 16]) -> (r: String)
    ensures
        r@ == drawer_id_text(wing@, room@, digest@),
{
    let mut c: Vec<char> = Vec::new();
    append_str(&mut c, "drawer_");
    append_str(&mut c, wing);
    append_str(&mut c, "_");
    append_str(&mut c, room);
    append_str(&mut c, "_");
    append_chars(&mut c, &short_hex_exec(digest));
    string_of(&c)
}

/// The deterministic id of a drawer: the same content in the same wing and
/// room always gets the same id.
pub fn drawer_id(wing: &str, room: &str, content: &str) -> (r: String)
    ensures
        r@ == drawer_id_text(wing@, room@, md5_of(utf8(content@) + utf8(wing@) + utf8(room@))),
{
    let mut data: Vec<u8> = Vec::new();
    append_bytes(&mut data, content.as_bytes());
    append_bytes(&mut data, wing.as_bytes());
    append_bytes(&mut data, room.as_bytes());
    let d = md5_digest(data.as_slice());
    drawer_id_from_digest(wing, room, &d)
}

/// "triple_" and the short hex of the digest.
pub open spec fn triple_id_text(digest: Seq<u8>) -> Seq<char> {
    "triple_"@ + short_hex(digest)
}

pub fn triple_id_from_digest(digest: &[u8; 16]) -> (r: String)
    ensures
        r@ == triple_id_text(digest@),
{
    let mut c: Vec<char> = Vec::new();
    append_str(&mut c, "triple_");
    append_chars(&mut c, &short_hex_exec(digest));
    string_of(&c)
}

/// The id of a new fact: the digest of subject, predicate, object and the
/// time of its creation in milliseconds.
pub fn triple_id(subject: &str, predicate: &str, object: &str, now_ms: u128) -> (r: String)
    ensures
        r@ == triple_id_text(md5_of(utf8(subject@ + predicate@ + object@ + dec(now_ms as nat)))),
{
    let mut c = chars_of(subject);
    append_str(&mut c, predicate);
    append_str(&mut c, object);
    append_chars(&mut c, &dec_u128(now_ms));
    let s = string_of(&c);
    let d = md5_digest(s.as_str().as_bytes());
    triple_id_from_digest(&d)
}

} // verus!
