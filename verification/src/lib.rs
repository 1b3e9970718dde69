//! Persistence rules of a note-taking application.
//!
//! Notes live in a two-level hierarchy (category, optional sub-category,
//! note) that is laid out as a plain directory tree. This library holds the
//! rules of that layout: how a note is identified, how a listing of the tree
//! becomes the records shown to a user, and which step on the tree each
//! operation asks for. It never touches the disk itself: a caller hands it
//! what was observed and carries out the step it returns.

pub mod categories;
pub mod codec;
pub mod error;
pub mod history;
pub mod mutate;
pub mod order;
pub mod plan;
pub mod record_io;
pub mod records;
pub mod scan;
pub mod tree;
