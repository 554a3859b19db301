//! What the user asked for on the command line.

use vstd::prelude::*;

use crate::config::Config;

verus! {

/// The arguments of one run.
#[derive(Debug, Clone, PartialEq, Eq)]
pub struct Cli {
    /// How many items to show at most; overrides the settings.
    pub limit: Option<usize>,
    /// The command; without one, the recent items of all feeds are shown.
    pub command: Option<Cmd>,
}

/// A command.
#[derive(Debug, Clone, PartialEq, Eq)]
#[allow(inconsistent_fields)]
pub enum Cmd {
    /// Subscribe to a feed.
    Sub { url: String, alias: Option<String> },
    /// Unsubscribe from the feeds that answer to a key.
    Unsub { id_or_url: String },
    /// List the feeds.
    List,
    /// Show the items of one feed.
    Feed { id_or_url: String },
    /// Refresh the feeds that answer to the keys, or all feeds where no
    /// key is given.
    Refresh { ids_or_urls: Vec<String> },
    /// Give a feed a new alias.
    Rename { key: String, alias: String },
}

/// The limit on the command line, else the one of the settings.
pub open spec fn limit_for(given: Option<usize>, default_limit: usize) -> usize {
    match given {
        Some(n) => n,
        None => default_limit,
    }
}

impl Cli {
    /// How many items a listing shows in this run.
    pub fn effective_limit(&self, cfg: &Config) -> (n: usize)
        ensures
            n == limit_for(self.limit, cfg.default_limit),
    {
        match self.limit {
            Some(n) => n,
            None => cfg.default_limit,
        }
    }
}

} // verus!
