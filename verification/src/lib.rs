//! Snekdown: a parser and HTML renderer for an extended Markdown-like
//! document language.
//!
//! A source text is parsed by a backtracking, character-level parser with a
//! reversible cursor into a typed document tree (blocks, lines, inlines).
//! Imports are recorded as anchors and published after parsing. The tree
//! is then serialized to HTML by a deterministic renderer with an escape
//! discipline for text and attribute positions.

pub mod block;
pub mod document;
pub mod elements;
pub mod escape;
pub mod highlight;
pub mod inline;
pub mod laws;
pub mod numfmt;
pub mod parser;
pub mod render;
