[package]
name = "mempalace"
version = "3.1.0"
edition = "2021"
publish = false

[dependencies]
md5 = "0.7"
anyhow = "1"
serde_json = "1"
rusqlite = { version = "*", features = ["bundled"] }
sqlite-vec = "*"
tokenizers = "*"
tract-onnx = "*"
walkdir = "2"
libc = "0.2"
