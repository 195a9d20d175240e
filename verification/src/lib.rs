//! The post-lifecycle core of an imageboard.
//!
//! The crate turns a validated submission into a durably numbered post while
//! enforcing moderation policy, and keeps the derived aggregates — thread
//! bump order, reply counts, board capacity — consistent:
//!
//! - [`site`] holds the entities: boards, originals, replies, bans.
//! - [`db`] defines the entity store interface, its abstract state, the
//!   store invariant, and the laws the transition contracts yield.
//! - [`memdb`] is the verified in-memory entity store.
//! - [`fsdb`] is the flat-file store's verified board table.
//! - [`fr`] is the file rack interface with a verified in-memory rack.
//! - [`actions`] is the submission pipeline, the moderation cache, and the
//!   deletion and capacity policies.
//! - [`counting`] and [`util`] hold the small shared pieces.

pub mod actions;
pub mod counting;
pub mod db;
pub mod format;
pub mod fr;
pub mod fsdb;
pub mod memdb;
pub mod state;
pub mod site;
pub mod util;
