//! The settings of the program, and how the ones that the user left out
//! are filled in.

use vstd::prelude::*;

use crate::state::text_of;

verus! {

/// How many items are shown where the settings do not say.
pub const DEFAULT_LIMIT: usize = 20;

/// After how many minutes a feed is fetched again where the settings do
/// not say.
pub const DEFAULT_REFRESH_AGE_MINS: u64 = 60;

/// How many items of a feed are kept where the settings do not say.
pub const DEFAULT_MAX_HISTORY_PER_FEED: usize = 100;

/// The settings as the user wrote them: every one of them may be missing.
#[derive(Debug, Clone, PartialEq, Eq)]
pub struct RawConfig {
    pub default_limit: Option<usize>,
    pub refresh_age_mins: Option<u64>,
    pub new_line_between_items: Option<bool>,
    pub state_file: Option<String>,
    pub max_history_per_feed: Option<usize>,
}

/// The settings that the program works with.
#[derive(Debug, Clone, PartialEq, Eq)]
pub struct Config {
    /// How many items a listing shows.
    pub default_limit: usize,
    /// After how many minutes a feed is fetched again.
    pub refresh_age_mins: u64,
    /// Whether an empty line follows each item of a listing.
    pub new_line_between_items: bool,
    /// Where the store is kept between runs.
    pub state_path: String,
    /// How many items of one feed the store keeps.
    pub max_history_per_feed: usize,
}

/// The settings as a mathematical value.
#[verifier::ext_equal]
pub struct ConfigView {
    pub default_limit: usize,
    pub refresh_age_mins: u64,
    pub new_line_between_items: bool,
    pub state_path: Seq<char>,
    pub max_history_per_feed: usize,
}

/// The user's settings as a mathematical value.
#[verifier::ext_equal]
pub struct RawConfigView {
    pub default_limit: Option<usize>,
    pub refresh_age_mins: Option<u64>,
    pub new_line_between_items: Option<bool>,
    pub state_file: Option<Seq<char>>,
    pub max_history_per_feed: Option<usize>,
}

impl View for Config {
    type V = ConfigView;

    open spec fn view(&self) -> ConfigView {
        ConfigView {
            default_limit: self.default_limit,
            refresh_age_mins: self.refresh_age_mins,
            new_line_between_items: self.new_line_between_items,
            state_path: self.state_path@,
            max_history_per_feed: self.max_history_per_feed,
        }
    }
}

impl View for RawConfig {
    type V = RawConfigView;

    open spec fn view(&self) -> RawConfigView {
        RawConfigView {
            default_limit: self.default_limit,
            refresh_age_mins: self.refresh_age_mins,
            new_line_between_items: self.new_line_between_items,
            state_file: text_of(self.state_file),
            max_history_per_feed: self.max_history_per_feed,
        }
    }
}

/// The user's settings as a mathematical value, where there are any.
pub open spec fn raw_view(raw: Option<RawConfig>) -> Option<RawConfigView> {
    match raw {
        Some(r) => Some(r@),
        None => None,
    }
}

/// A setting, or the value that stands in for a missing one.
pub open spec fn or_default<T>(given: Option<T>, default: T) -> T {
    match given {
        Some(v) => v,
        None => default,
    }
}

/// The settings that the program works with, given what the user wrote, if
/// anything, and the place where the store is kept by default.
pub open spec fn resolved(raw: Option<RawConfigView>, default_state_path: Seq<char>) -> ConfigView {
    match raw {
        None => ConfigView {
            default_limit: DEFAULT_LIMIT,
            refresh_age_mins: DEFAULT_REFRESH_AGE_MINS,
            new_line_between_items: false,
            state_path: default_state_path,
            max_history_per_feed: DEFAULT_MAX_HISTORY_PER_FEED,
        },
        Some(r) => ConfigView {
            default_limit: or_default(r.default_limit, DEFAULT_LIMIT),
            refresh_age_mins: or_default(r.refresh_age_mins, DEFAULT_REFRESH_AGE_MINS),
            new_line_between_items: or_default(r.new_line_between_items, false),
            state_path: or_default(r.state_file, default_state_path),
            max_history_per_feed: or_default(r.max_history_per_feed, DEFAULT_MAX_HISTORY_PER_FEED),
        },
    }
}

/// Fills in the settings that the user left out. `raw` is what the user
/// wrote, if there is a settings file at all; `default_state_path` is where
/// the store is kept unless the user names another place.
pub fn resolve_config(raw: Option<RawConfig>, default_state_path: String) -> (cfg: Config)
    ensures
        cfg@ == resolved(raw_view(raw), default_state_path@),
{
    match raw {
        None => Config {
            default_limit: DEFAULT_LIMIT,
            refresh_age_mins: DEFAULT_REFRESH_AGE_MINS,
            new_line_between_items: false,
            state_path: default_state_path,
            max_history_per_feed: DEFAULT_MAX_HISTORY_PER_FEED,
        },
        Some(r) => {
            let RawConfig {
                default_limit,
                refresh_age_mins,
                new_line_between_items,
                state_file,
                max_history_per_feed,
            } = r;
            Config {
                default_limit: match default_limit {
                    Some(v) => v,
                    None => DEFAULT_LIMIT,
                },
                refresh_age_mins: match refresh_age_mins {
                    Some(v) => v,
                    None => DEFAULT_REFRESH_AGE_MINS,
                },
                new_line_between_items: match new_line_between_items {
                    Some(v) => v,
                    None => false,
                },
                state_path: match state_file {
                    Some(v) => v,
                    None => default_state_path,
                },
                max_history_per_feed: match max_history_per_feed {
                    Some(v) => v,
                    None => DEFAULT_MAX_HISTORY_PER_FEED,
                },
            }
        },
    }
}

} // verus!
