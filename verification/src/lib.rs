//! A memo link graph with rename propagation.
//!
//! Memos hold rich-text documents that link to other memos by slug. The
//! library models the three tables the application keeps — workspaces,
//! memos, and directed link edges — answers forward, backward and
//! two-hop link queries over them, and, on a rename, rewrites every
//! referring document's link target and auto-generated anchor text in
//! one all-or-nothing step.

pub mod commands;
pub mod doc;
pub mod laws;
pub mod models;
pub mod rewrite;
pub mod store;
