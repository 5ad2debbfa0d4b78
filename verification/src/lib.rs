//! Verified core of a clipboard-history manager.
//!
//! The library models the three concerns that carry the engineering risk of
//! such a tool: a content store with at-most-one-row-per-distinct-text
//! semantics, ordered retrieval and age-based eviction that spares pinned
//! rows; a polling change detector that skips unchanged or blank clipboard
//! readings; and a focus coordinator that remembers the previously focused
//! application and hands focus back after a paste.  All decisions are made by
//! verified functions over plain values; the host process performs the OS
//! calls (clipboard, window, keystroke, persistence) and feeds the results in.

pub mod manager;
pub mod migrations;
pub mod models;
pub mod monitor;
pub mod paste;
pub mod store;
pub mod text;
pub mod time;
pub mod types;
