//! Where the palace keeps its files, and where an embedding model is looked
//! for, from the environment's values.
use vstd::prelude::*;
use crate::sources::{join_path, join_path_exec};
use crate::text::{append_str, chars_of, string_of, strs};

verus! {

/// The palace directory: MEMPALACE_PALACE_PATH when set (even empty), else
/// `$HOME/.local/share/mempalace`.
pub open spec fn palace_dir_text(palace_path: Option<Seq<char>>, home: Seq<char>) -> Seq<char> {
    match palace_path {
        Some(p) => p,
        None => home + "/.local/share/mempalace"@,
    }
}

pub fn palace_dir(palace_path: Option<&str>, home: &str) -> (r: String)
    ensures
        r@ == palace_dir_text(
            match palace_path {
                Some(p) => Some(p@),
                None => None,
            },
            home@,
        ),
{
    match palace_path {
        Some(p) => string_of(&chars_of(p)),
        None => {
            let mut c = chars_of(home);
            append_str(&mut c, "/.local/share/mempalace");
            string_of(&c)
        },
    }
}

/// The file of the write-ahead log.
pub open spec fn wal_file_text(home: Seq<char>) -> Seq<char> {
    join_path(home + "/.local/share/mempalace/wal"@, "write_log.jsonl"@)
}

pub fn wal_file(home: &str) -> (r: String)
    ensures
        r@ == wal_file_text(home@),
{
    let mut c = chars_of(home);
    append_str(&mut c, "/.local/share/mempalace/wal");
    let dir = string_of(&c);
    join_path_exec(dir.as_str(), "write_log.jsonl")
}

/// The directories an embedding model is loaded from, in the order they
/// are tried: MEMPALACE_MODEL_DIR, the `models/all-MiniLM-L6-v2` sibling
/// of the palace, and ChromaDB's cache under the home directory.
pub open spec fn model_dirs(
    model_dir: Option<Seq<char>>,
    palace_path: Option<Seq<char>>,
    home: Option<Seq<char>>,
) -> Seq<Seq<char>> {
    let a: Seq<Seq<char>> = match model_dir {
        Some(d) => seq![d],
        None => Seq::empty(),
    };
    let b: Seq<Seq<char>> = match palace_path {
        Some(p) => seq![
            join_path(join_path(join_path(p, ".."@), "models"@), "all-MiniLM-L6-v2"@),
        ],
        None => Seq::empty(),
    };
    let c: Seq<Seq<char>> = match home {
        Some(h) => seq![
            join_path(
                join_path(
                    join_path(join_path(join_path(h, ".cache"@), "chroma"@), "onnx_models"@),
                    "all-MiniLM-L6-v2"@,
                ),
                "onnx"@,
            ),
        ],
        None => Seq::empty(),
    };
    a + b + c
}

pub fn model_dir_candidates(model_dir: Option<&str>, palace_path: Option<&str>, home: Option<&str>) -> (r: Vec<
    String,
>)
    ensures
        strs(r@) == model_dirs(
            match model_dir {
                Some(d) => Some(d@),
                None => None,
            },
            match palace_path {
                Some(p) => Some(p@),
                None => None,
            },
            match home {
                Some(h) => Some(h@),
                None => None,
            },
        ),
{
    let mut r: Vec<String> = Vec::new();
    let ghost r0 = strs(r@);
    assert(r0 =~= Seq::<Seq<char>>::empty());
    match model_dir {
        Some(d) => {
            r.push(string_of(&chars_of(d)));
        },
        None => {},
    }
    let ghost r1 = strs(r@);
    match palace_path {
        Some(p) => {
            let x = join_path_exec(p, "..");
            let y = join_path_exec(x.as_str(), "models");
            r.push(join_path_exec(y.as_str(), "all-MiniLM-L6-v2"));
            assert(strs(r@) =~= r1.push(
                join_path(join_path(join_path(p@, ".."@), "models"@), "all-MiniLM-L6-v2"@),
            ));
        },
        None => {},
    }
    let ghost r2 = strs(r@);
    match home {
        Some(h) => {
            let x = join_path_exec(h, ".cache");
            let y = join_path_exec(x.as_str(), "chroma");
            let z = join_path_exec(y.as_str(), "onnx_models");
            let w = join_path_exec(z.as_str(), "all-MiniLM-L6-v2");
            r.push(join_path_exec(w.as_str(), "onnx"));
            assert(strs(r@) =~= r2.push(
                join_path(
                    join_path(
                        join_path(join_path(join_path(h@, ".cache"@), "chroma"@), "onnx_models"@),
                        "all-MiniLM-L6-v2"@,
                    ),
                    "onnx"@,
                ),
            ));
        },
        None => {},
    }
    assert(strs(r@) =~= model_dirs(
        match model_dir {
            Some(d) => Some(d@),
            None => None,
        },
        match palace_path {
            Some(p) => Some(p@),
            None => None,
        },
        match home {
            Some(h) => Some(h@),
            None => None,
        },
    ));
    r
}

} // verus!
