//! A feed reader's core: the store of subscribed feeds and their items, the
//! rules for naming and finding feeds, the refresh of stale feeds under a
//! ceiling on concurrent fetches, and the cap on the history of each feed.
//!
//! The library decides and computes; reading the network and the disk, and
//! printing, are the caller's part.

pub mod batch;
pub mod cli;
pub mod commands;
pub mod config;
pub mod fetch;
pub mod listing;
pub mod order;
pub mod refresh;
pub mod retention;
pub mod seq_lemmas;
pub mod state;
pub mod text;
pub mod time;
