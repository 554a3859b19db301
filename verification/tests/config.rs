use rsso::cli::{Cli, Cmd};
use rsso::commands::{run_command, Action};
use rsso::config::{
    resolve_config, Config, RawConfig, DEFAULT_LIMIT, DEFAULT_MAX_HISTORY_PER_FEED,
    DEFAULT_REFRESH_AGE_MINS,
};
use rsso::state::{Feed, Item, State, StoreError};
use rsso::time::Timestamp;

fn feed(id: &str, title: Option<&str>) -> Feed {
    Feed {
        id: id.to_string(),
        url: format!("http://{}", id),
        alias: None,
        title: title.map(|t| t.to_string()),
        added_at: Timestamp { secs: 1, nanos: 0 },
        last_fetched_at: None,
        last_error: None,
    }
}

fn cfg() -> Config {
    resolve_config(None, "/data/rsso/state.json".to_string())
}

fn run(command: Option<Cmd>, limit: Option<usize>, state: &mut State) -> Result<Action, StoreError> {
    run_command(Cli { limit, command }, cfg().default_limit, state)
}

#[test]
fn without_a_settings_file_the_defaults_hold() {
    let c = cfg();
    assert_eq!(c.default_limit, 20);
    assert_eq!(c.refresh_age_mins, 60);
    assert!(!c.new_line_between_items);
    assert_eq!(c.state_path, "/data/rsso/state.json");
    assert_eq!(c.max_history_per_feed, DEFAULT_MAX_HISTORY_PER_FEED);
    assert_eq!(DEFAULT_LIMIT, 20);
    assert_eq!(DEFAULT_REFRESH_AGE_MINS, 60);
}

#[test]
fn each_missing_setting_gets_its_default() {
    let raw = RawConfig {
        default_limit: None,
        refresh_age_mins: Some(5),
        new_line_between_items: None,
        state_file: None,
        max_history_per_feed: Some(7),
    };
    let c = resolve_config(Some(raw), "/d/state.json".to_string());
    assert_eq!(
        c,
        Config {
            default_limit: 20,
            refresh_age_mins: 5,
            new_line_between_items: false,
            state_path: "/d/state.json".to_string(),
            max_history_per_feed: 7,
        }
    );
}

#[test]
fn settings_that_are_given_win() {
    let raw = RawConfig {
        default_limit: Some(0),
        refresh_age_mins: Some(0),
        new_line_between_items: Some(true),
        state_file: Some("/custom/path.json".to_string()),
        max_history_per_feed: Some(0),
    };
    let c = resolve_config(Some(raw), "/d/state.json".to_string());
    assert_eq!(
        c,
        Config {
            default_limit: 0,
            refresh_age_mins: 0,
            new_line_between_items: true,
            state_path: "/custom/path.json".to_string(),
            max_history_per_feed: 0,
        }
    );
}

#[test]
fn the_limit_of_the_command_line_overrides_the_settings() {
    let c = cfg();
    assert_eq!(Cli { limit: None, command: None }.effective_limit(&c), 20);
    assert_eq!(Cli { limit: Some(3), command: Some(Cmd::List) }.effective_limit(&c), 3);
    assert_eq!(Cli { limit: Some(0), command: None }.effective_limit(&c), 0);
}

#[test]
fn no_command_shows_all_feeds() {
    let mut state = State::new();
    assert_eq!(run(None, None, &mut state), Ok(Action::NoFeeds { refreshing: false }));
    state.feeds.push(feed("a", None));
    assert_eq!(run(None, None, &mut state), Ok(Action::ShowAll { limit: 20 }));
    assert_eq!(run(None, Some(4), &mut state), Ok(Action::ShowAll { limit: 4 }));
}

#[test]
fn list_and_refresh_of_an_empty_store_give_a_notice() {
    let mut state = State::new();
    assert_eq!(run(Some(Cmd::List), None, &mut state), Ok(Action::NoFeeds { refreshing: false }));
    assert_eq!(
        run(Some(Cmd::Refresh { ids_or_urls: vec!["a".to_string()] }), None, &mut state),
        Ok(Action::NoFeeds { refreshing: true })
    );
    state.feeds.push(feed("a", None));
    assert_eq!(run(Some(Cmd::List), None, &mut state), Ok(Action::ListFeeds));
    assert_eq!(run(Some(Cmd::Refresh { ids_or_urls: vec![] }), None, &mut state), Ok(Action::RefreshAll));
    assert_eq!(
        run(Some(Cmd::Refresh { ids_or_urls: vec!["a".to_string(), "zz".to_string()] }), None, &mut state),
        Ok(Action::RefreshKeys { keys: vec!["a".to_string(), "zz".to_string()] })
    );
}

#[test]
fn showing_a_feed_needs_a_key_that_a_feed_answers_to() {
    let mut state = State::new();
    state.feeds.push(feed("a", None));
    state.feeds.push(feed("b", Some("Bee")));
    assert_eq!(
        run(Some(Cmd::Feed { id_or_url: "bee".to_string() }), Some(2), &mut state),
        Ok(Action::ShowFeed { index: 1, limit: 2 })
    );
    assert_eq!(
        run(Some(Cmd::Feed { id_or_url: "cee".to_string() }), None, &mut state),
        Err(StoreError::NotFound)
    );
}

#[test]
fn the_store_commands_change_the_store() {
    let mut state = State::new();
    let sub = Cmd::Sub { url: "http://a.com/rss".to_string(), alias: None };
    assert_eq!(
        run(Some(sub.clone()), None, &mut state),
        Ok(Action::Subscribed { url: "http://a.com/rss".to_string() })
    );
    assert_eq!(state.feeds.len(), 1);
    assert_eq!(state.feeds[0].id, "a.com-rss");
    assert_eq!(run(Some(sub), None, &mut state), Err(StoreError::DuplicateFeed));
    state.items.push(Item {
        feed_id: "a.com-rss".to_string(),
        title: "t".to_string(),
        link: String::new(),
        published_at: None,
        updated_at: None,
        summary: None,
        first_seen_at: Timestamp { secs: 2, nanos: 0 },
    });
    let rename = Cmd::Rename { key: "a.com-rss".to_string(), alias: " foo ".to_string() };
    assert_eq!(
        run(Some(rename), None, &mut state),
        Ok(Action::Renamed { key: "a.com-rss".to_string(), alias: "foo".to_string() })
    );
    assert_eq!(state.feeds[0].id, "foo");
    assert_eq!(state.items[0].feed_id, "foo");
    let empty = Cmd::Rename { key: "foo".to_string(), alias: "  ".to_string() };
    assert_eq!(run(Some(empty), None, &mut state), Err(StoreError::EmptyAlias));
    assert_eq!(
        run(Some(Cmd::Unsub { id_or_url: "nope".to_string() }), None, &mut state),
        Err(StoreError::NotFound)
    );
    assert_eq!(
        run(Some(Cmd::Unsub { id_or_url: "FOO".to_string() }), None, &mut state),
        Ok(Action::Unsubscribed { key: "FOO".to_string() })
    );
    assert!(state.feeds.is_empty());
    assert!(state.items.is_empty());
}
