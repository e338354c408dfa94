//! A memory palace: validated drawers of verbatim text, hallways between the
//! entities they mention, and the parsers and formatters around them.
pub mod text;
pub mod numparse;
pub mod validate;
pub mod fmt;
pub mod timefmt;
pub mod import_sessions;
pub mod sources;
pub mod adapters;
pub mod store;
pub mod digest;
pub mod hallways;
pub mod indexer;
pub mod cli;
pub mod kg;
pub mod wal;
pub mod mcp;
pub mod paths;
pub mod tools;
