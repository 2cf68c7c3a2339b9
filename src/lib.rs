//! Bulk literal substitution over a tree of text files.
//!
//! The verified part of the tool: matching and replacing a literal byte
//! string within a line, the per-file line rewriter that counts changed
//! lines, the choice of which physical file a tree entry stands for, and
//! the reading of the command-line arguments.
pub mod config;
pub mod entry;
pub mod failure;
pub mod rewrite;
pub mod text;
