use mempalace::paths::{model_dir_candidates, palace_dir, wal_file};

#[test]
fn palace_and_log_locations() {
    assert_eq!(palace_dir(None, "/home/u"), "/home/u/.local/share/mempalace");
    assert_eq!(palace_dir(Some("/p"), "/home/u"), "/p");
    assert_eq!(wal_file("/home/u"), "/home/u/.local/share/mempalace/wal/write_log.jsonl");
}

#[test]
fn model_search_order() {
    let c = model_dir_candidates(Some("/m"), Some("/pal"), Some("/h"));
    assert_eq!(
        c,
        vec![
            "/m".to_string(),
            "/pal/../models/all-MiniLM-L6-v2".to_string(),
            "/h/.cache/chroma/onnx_models/all-MiniLM-L6-v2/onnx".to_string(),
        ]
    );
    assert!(model_dir_candidates(None, None, None).is_empty());
}
