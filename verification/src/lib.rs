//! Finds Cargo and npm projects in a directory tree and measures the build
//! and cache directories that can be reclaimed from them.
//!
//! `utils` holds the kinds of project and their target directories, `find`
//! decides what a scanned directory is and measures its targets, `tree`
//! models what a scan read from disk, `text` holds string helpers, `outside`
//! the calls into other crates, and `laws` the properties proved of them.

pub mod find;
pub mod laws;
pub mod outside;
pub mod text;
pub mod tree;
pub mod utils;
