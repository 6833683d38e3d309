//! A verified core for a note indexer: it turns filesystem change
//! notifications into canonical add/remove events, reconciles the on-disk
//! state with the indexed state at startup, and applies events through a
//! staged pipeline that keeps file, note and link records consistent.

pub mod indexer;
pub mod link_index;
pub mod markdown_index;
pub mod note;
pub mod store;
pub mod text;
pub mod watcher;
pub mod wikilink_parser;
