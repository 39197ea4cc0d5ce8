//! Structural diff of parsed configuration documents.
//!
//! The crate models a parsed document as a [`tree::Node`] value tree,
//! compares two trees with [`diff::compute_diff`] under a
//! [`diff::DiffConfig`], and renders the resulting [`diff::Diff`] with
//! [`output::format_diff`].  [`parser::parse_file`] builds a tree from
//! document text, and [`git`] holds the pure parts of the git
//! diff-driver integration.

pub mod diff;
pub mod error;
pub mod git;
pub mod laws;
pub mod output;
pub mod parser;
pub mod tree;
