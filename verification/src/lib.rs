//! Synchronizes issues from an issue tracker into a folder of Markdown notes
//! and a grouped Kanban board view.
//!
//! The verified core covers: linearizing a tracker's rich-text description
//! tree into plain text, rewriting tracker markup into Markdown, the
//! sentinel-based merge that preserves user-authored note tails across
//! re-syncs, and the deterministic grouping and ordering that renders the
//! board. Network retrieval and file I/O live outside the library.

pub mod board;
pub mod client;
pub mod config;
pub mod issue;
pub mod markup;
pub mod notes;
pub mod richtext;
pub mod text;
