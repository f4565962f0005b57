//! A hierarchical content store: a tree of named files and directories,
//! files reassembled from chunks, a content hash per file, and an
//! authenticated path index from which responses are certified.

pub mod assets;
pub mod certification;
pub mod checks;
pub mod chunks;
pub mod delivery;
pub mod directories;
pub mod files;
pub mod forest;
pub mod http;
pub mod laws;
pub mod manifests;
pub mod models;
pub mod paths;
pub mod seqs;
pub mod store;
pub mod text;
pub mod tree;
