use rsso::commands::{
    cmd_rename, cmd_sub, cmd_sub_at, cmd_unsub, derive_feed_id, next_refresh_step, rename_to,
    RefreshStep,
};
use rsso::state::{Feed, Item, MatchBy, State, StoreError};
use rsso::time::Timestamp;

fn at(secs: i64) -> Timestamp {
    Timestamp { secs, nanos: 0 }
}

fn feed(id: &str, url: &str, alias: Option<&str>, title: Option<&str>) -> Feed {
    Feed {
        id: id.to_string(),
        url: url.to_string(),
        alias: alias.map(|a| a.to_string()),
        title: title.map(|t| t.to_string()),
        added_at: at(1),
        last_fetched_at: None,
        last_error: None,
    }
}

fn item(feed_id: &str, title: &str, seen: i64) -> Item {
    Item {
        feed_id: feed_id.to_string(),
        title: title.to_string(),
        link: format!("http://example.org/{}", title),
        published_at: None,
        updated_at: None,
        summary: None,
        first_seen_at: at(seen),
    }
}

fn ids(state: &State) -> Vec<String> {
    state.feeds.iter().map(|f| f.id.clone()).collect()
}

fn owners(state: &State) -> Vec<String> {
    state.items.iter().map(|i| i.feed_id.clone()).collect()
}

fn consistent(state: &State) -> bool {
    let mut seen_ids: Vec<&String> = Vec::new();
    let mut seen_urls: Vec<&String> = Vec::new();
    for f in &state.feeds {
        if seen_ids.contains(&&f.id) || seen_urls.contains(&&f.url) {
            return false;
        }
        seen_ids.push(&f.id);
        seen_urls.push(&f.url);
    }
    state.items.iter().all(|i| seen_ids.contains(&&i.feed_id))
}

#[test]
fn subscribe_derives_id_from_url() {
    let mut state = State::new();
    assert_eq!(cmd_sub_at(&mut state, "http://a.com/rss", None, at(10)), Ok(()));
    assert_eq!(state.feeds.len(), 1);
    assert_eq!(state.feeds[0].id, "a.com-rss");
    assert_eq!(state.feeds[0].url, "http://a.com/rss");
    assert_eq!(state.feeds[0].alias, None);
    assert_eq!(state.feeds[0].title, None);
    assert_eq!(state.feeds[0].added_at, at(10));
    assert_eq!(state.feeds[0].last_fetched_at, None);
    assert_eq!(state.feeds[0].last_error, None);
    assert_eq!(
        cmd_sub_at(&mut state, "http://a.com/rss", None, at(11)),
        Err(StoreError::DuplicateFeed)
    );
    assert_eq!(state.feeds.len(), 1);
    assert_eq!(state.feeds[0].added_at, at(10));
}

#[test]
fn subscribe_with_alias_takes_the_alias_as_id() {
    let mut state = State::new();
    let alias = Some("news".to_string());
    assert_eq!(cmd_sub_at(&mut state, "https://b.org/feed.xml", alias, at(3)), Ok(()));
    assert_eq!(state.feeds[0].id, "news");
    assert_eq!(state.feeds[0].alias, Some("news".to_string()));
}

#[test]
fn subscribe_refuses_a_known_id_under_another_url() {
    let mut state = State::new();
    assert_eq!(cmd_sub_at(&mut state, "http://a.com/rss", None, at(1)), Ok(()));
    // the same slug, reached through the other scheme
    assert_eq!(
        cmd_sub_at(&mut state, "https://a.com/rss", None, at(2)),
        Err(StoreError::DuplicateFeed)
    );
    assert_eq!(
        cmd_sub_at(&mut state, "http://c.com/x", Some("a.com-rss".to_string()), at(2)),
        Err(StoreError::DuplicateFeed)
    );
    assert_eq!(ids(&state), vec!["a.com-rss".to_string()]);
}

#[test]
fn subscribe_by_the_clock_stamps_a_present_time() {
    let mut state = State::new();
    assert_eq!(cmd_sub(&mut state, "http://a.com/rss", None), Ok(()));
    assert_eq!(state.feeds[0].id, "a.com-rss");
    assert!(state.feeds[0].added_at.secs > 1_600_000_000);
    assert!(state.feeds[0].added_at.nanos < 1_000_000_000);
    assert_eq!(cmd_sub(&mut state, "http://a.com/rss", None), Err(StoreError::DuplicateFeed));
}

#[test]
fn feed_id_is_alias_or_slug() {
    assert_eq!(derive_feed_id("https://x.io/a/b/", &None), "x.io-a-b");
    assert_eq!(derive_feed_id("https://x.io/a/b/", &Some("mine".to_string())), "mine");
}

#[test]
fn add_feed_checks_exact_url_and_id() {
    let mut state = State::new();
    assert_eq!(state.add_feed(feed("a", "http://a", None, None)), Ok(()));
    assert_eq!(state.add_feed(feed("b", "http://a", None, None)), Err(StoreError::DuplicateFeed));
    assert_eq!(state.add_feed(feed("a", "http://b", None, None)), Err(StoreError::DuplicateFeed));
    // letter case tells ids and urls apart
    assert_eq!(state.add_feed(feed("A", "HTTP://A", None, None)), Ok(()));
    assert_eq!(ids(&state), vec!["a".to_string(), "A".to_string()]);
}

#[test]
fn resolve_by_alias_title_id_and_url() {
    let mut state = State::new();
    state.feeds.push(feed("one", "http://one/rss", Some("One"), Some("First Feed")));
    state.feeds.push(feed("two.org-feed", "http://two.org/feed", None, Some("Second")));
    state.feeds.push(feed("three", "http://three", None, None));
    assert_eq!(state.find_feed_index("oNE"), Some(0));
    assert_eq!(state.find_feed_index("first feed"), Some(0));
    assert_eq!(state.find_feed_index("SECOND"), Some(1));
    assert_eq!(state.find_feed_index("two.org-feed"), Some(1));
    assert_eq!(state.find_feed_index("http://two.org/feed"), Some(1));
    assert_eq!(state.find_feed_index("three"), Some(2));
    // ids and urls are matched exactly
    assert_eq!(state.find_feed_index("THREE"), None);
    assert_eq!(state.find_feed_index("HTTP://three"), None);
    assert_eq!(state.find_feed_index("nothing"), None);
}

#[test]
fn resolve_prefers_an_alias_to_a_title_wherever_it_stands() {
    let mut state = State::new();
    state.feeds.push(feed("x", "http://x", None, Some("shared")));
    state.feeds.push(feed("y", "http://y", Some("shared"), None));
    assert_eq!(state.find_feed_index("Shared"), Some(1));
    assert_eq!(state.first_match(MatchBy::Alias, "Shared"), Some(1));
    assert_eq!(state.first_match(MatchBy::Title, "Shared"), Some(0));
    assert_eq!(state.first_match(MatchBy::Id, "Shared"), None);
    assert!(State::feed_matches(&state.feeds[1], "SHARED"));
    assert!(!State::feed_matches(&state.feeds[1], "x"));
}

#[test]
fn resolve_goes_by_rank_before_position() {
    let mut state = State::new();
    state.feeds.push(feed("a", "http://a", None, Some("news")));
    state.feeds.push(feed("b", "http://b", Some("News"), None));
    assert_eq!(state.find_feed_index("news"), Some(1));

    // a title wins over an id, an id over a URL
    let mut state = State::new();
    state.feeds.push(feed("http://t", "http://u", None, None));
    state.feeds.push(feed("key", "http://k", None, None));
    state.feeds.push(feed("c", "http://c", None, Some("KEY")));
    state.feeds.push(feed("d", "http://t", None, None));
    assert_eq!(state.find_feed_index("key"), Some(2));
    assert_eq!(state.find_feed_index("http://t"), Some(0));
    assert_eq!(state.find_feed_index("http://u"), Some(0));
    assert_eq!(state.find_feed_index("Key"), Some(2));
    assert_eq!(state.find_feed_index("KEy "), None);

    // among feeds that answer in the same way the first one is taken
    let mut state = State::new();
    state.feeds.push(feed("a", "http://a", None, Some("Same")));
    state.feeds.push(feed("b", "http://b", None, Some("same")));
    assert_eq!(state.find_feed_index("SAME"), Some(0));
}

#[test]
fn remove_feed_takes_the_items_along() {
    let mut state = State::new();
    state.feeds.push(feed("a", "http://a", None, None));
    state.feeds.push(feed("b", "http://b", None, None));
    state.items.push(item("a", "a1", 1));
    state.items.push(item("b", "b1", 2));
    state.items.push(item("a", "a2", 3));
    assert_eq!(state.remove_feed("a"), 1);
    assert_eq!(ids(&state), vec!["b".to_string()]);
    assert_eq!(owners(&state), vec!["b".to_string()]);
    assert_eq!(state.remove_feed("a"), 0);
    assert_eq!(state.items.len(), 1);
}

#[test]
fn remove_feed_removes_every_feed_that_answers() {
    let mut state = State::new();
    state.feeds.push(feed("a", "http://a", None, Some("Daily")));
    state.feeds.push(feed("b", "http://b", None, Some("Weekly")));
    state.feeds.push(feed("c", "http://c", Some("daily"), None));
    state.items.push(item("c", "c1", 1));
    state.items.push(item("b", "b1", 2));
    state.items.push(item("a", "a1", 3));
    assert_eq!(state.remove_feed("DAILY"), 2);
    assert_eq!(ids(&state), vec!["b".to_string()]);
    assert_eq!(owners(&state), vec!["b".to_string()]);
}

#[test]
fn unsubscribe_unknown_key_is_not_found() {
    let mut state = State::new();
    state.feeds.push(feed("a", "http://a", None, None));
    state.items.push(item("a", "a1", 1));
    assert_eq!(cmd_unsub(&mut state, "zzz"), Err(StoreError::NotFound));
    assert_eq!(state.feeds.len(), 1);
    assert_eq!(state.items.len(), 1);
    assert_eq!(cmd_unsub(&mut state, "a"), Ok(()));
    assert!(state.feeds.is_empty());
    assert!(state.items.is_empty());
}

#[test]
fn rename_moves_every_item_to_the_new_id() {
    let mut state = State::new();
    state.feeds.push(feed("a.com-rss", "http://a.com/rss", None, None));
    state.feeds.push(feed("b", "http://b", None, None));
    state.items.push(item("a.com-rss", "a1", 1));
    state.items.push(item("b", "b1", 2));
    state.items.push(item("a.com-rss", "a2", 3));
    assert_eq!(cmd_rename(&mut state, "http://a.com/rss", "  foo \t"), Ok(()));
    assert_eq!(state.feeds[0].id, "foo");
    assert_eq!(state.feeds[0].alias, Some("foo".to_string()));
    assert_eq!(state.feeds[0].url, "http://a.com/rss");
    assert_eq!(owners(&state), vec!["foo".to_string(), "b".to_string(), "foo".to_string()]);
    assert_eq!(state.items[0].title, "a1");
    assert_eq!(state.items[2].title, "a2");
    assert!(state.items.iter().all(|i| i.feed_id != "a.com-rss"));
    assert_eq!(state.feeds[1], feed("b", "http://b", None, None));
}

#[test]
fn rename_refuses_an_empty_alias_first() {
    let mut state = State::new();
    state.feeds.push(feed("a", "http://a", None, None));
    assert_eq!(cmd_rename(&mut state, "a", "   "), Err(StoreError::EmptyAlias));
    assert_eq!(cmd_rename(&mut state, "a", ""), Err(StoreError::EmptyAlias));
    assert_eq!(cmd_rename(&mut state, "nobody", " \n"), Err(StoreError::EmptyAlias));
    assert_eq!(state.feeds[0], feed("a", "http://a", None, None));
}

#[test]
fn rename_refuses_an_alias_of_another_feed() {
    let mut state = State::new();
    state.feeds.push(feed("a", "http://a", None, None));
    state.feeds.push(feed("news", "http://b", Some("News"), None));
    state.items.push(item("a", "a1", 1));
    assert_eq!(cmd_rename(&mut state, "a", "NEWS"), Err(StoreError::AliasInUse));
    // the alias in use comes before the unknown key
    assert_eq!(cmd_rename(&mut state, "nobody", "news"), Err(StoreError::AliasInUse));
    assert_eq!(cmd_rename(&mut state, "nobody", "fresh"), Err(StoreError::NotFound));
    assert_eq!(state.feeds[0].id, "a");
    assert_eq!(state.feeds[0].alias, None);
    assert_eq!(owners(&state), vec!["a".to_string()]);
}

#[test]
fn rename_may_change_the_case_of_the_own_alias() {
    let mut state = State::new();
    state.feeds.push(feed("news", "http://b", Some("news"), None));
    state.items.push(item("news", "n1", 1));
    assert_eq!(cmd_rename(&mut state, "news", "News"), Ok(()));
    assert_eq!(state.feeds[0].id, "News");
    assert_eq!(state.feeds[0].alias, Some("News".to_string()));
    assert_eq!(owners(&state), vec!["News".to_string()]);
}

#[test]
fn store_stays_consistent_over_a_run_of_commands() {
    let mut state = State::new();
    assert_eq!(cmd_sub_at(&mut state, "http://a.com/rss", None, at(1)), Ok(()));
    assert_eq!(cmd_sub_at(&mut state, "http://b.com/rss", Some("bee".to_string()), at(2)), Ok(()));
    assert_eq!(cmd_sub_at(&mut state, "http://c.com/", None, at(3)), Ok(()));
    state.items.push(item("a.com-rss", "a1", 4));
    state.items.push(item("bee", "b1", 5));
    state.items.push(item("c.com", "c1", 6));
    assert!(consistent(&state));
    assert_eq!(cmd_rename(&mut state, "bee", "wasp"), Ok(()));
    assert!(consistent(&state));
    assert_eq!(cmd_unsub(&mut state, "a.com-rss"), Ok(()));
    assert!(consistent(&state));
    assert_eq!(cmd_sub_at(&mut state, "http://a.com/rss", None, at(7)), Ok(()));
    assert!(consistent(&state));
    assert_eq!(cmd_unsub(&mut state, "WASP"), Ok(()));
    assert!(consistent(&state));
    assert_eq!(ids(&state), vec!["c.com".to_string(), "a.com-rss".to_string()]);
    assert_eq!(owners(&state), vec!["c.com".to_string()]);
}

#[test]
fn rename_refuses_the_id_of_another_feed() {
    let mut state = State::new();
    state.feeds.push(feed("a.com-rss", "http://a.com/rss", None, None));
    state.feeds.push(feed("b", "http://b", None, None));
    state.items.push(item("b", "b1", 1));
    let before = state.clone();
    assert_eq!(cmd_rename(&mut state, "b", "a.com-rss"), Err(StoreError::AliasInUse));
    assert_eq!(cmd_rename(&mut state, "b", "  a.com-rss "), Err(StoreError::AliasInUse));
    assert_eq!(state, before);
    assert!(consistent(&state));
    // ids are told apart by their exact spelling
    assert_eq!(cmd_rename(&mut state, "b", "A.com-rss"), Ok(()));
    assert_eq!(ids(&state), vec!["a.com-rss".to_string(), "A.com-rss".to_string()]);
    assert_eq!(owners(&state), vec!["A.com-rss".to_string()]);
    assert!(consistent(&state));
}

#[test]
fn rename_with_an_unknown_key_is_not_found_though_the_alias_is_an_id() {
    let mut state = State::new();
    state.feeds.push(feed("a", "http://a", None, None));
    state.items.push(item("a", "a1", 1));
    let before = state.clone();
    assert_eq!(cmd_rename(&mut state, "zzz", "a"), Err(StoreError::NotFound));
    assert_eq!(cmd_rename(&mut state, "zzz", " a "), Err(StoreError::NotFound));
    assert_eq!(cmd_rename(&mut state, "zzz", "   "), Err(StoreError::EmptyAlias));
    assert_eq!(state, before);

    // an alias in use is reported before the unknown key, an id after it
    state.feeds.push(feed("b", "http://b", Some("Bee"), None));
    let before = state.clone();
    assert_eq!(cmd_rename(&mut state, "zzz", "bee"), Err(StoreError::AliasInUse));
    assert_eq!(cmd_rename(&mut state, "zzz", "b"), Err(StoreError::NotFound));
    assert_eq!(cmd_rename(&mut state, "a", "b"), Err(StoreError::AliasInUse));
    assert_eq!(state, before);
}

#[test]
fn rename_to_its_own_id_is_accepted() {
    let mut state = State::new();
    state.feeds.push(feed("a", "http://a", None, None));
    state.feeds.push(feed("b", "http://b", None, None));
    state.items.push(item("a", "a1", 1));
    assert_eq!(cmd_rename(&mut state, "a", "a"), Ok(()));
    assert_eq!(state.feeds[0].id, "a");
    assert_eq!(state.feeds[0].alias, Some("a".to_string()));
    assert_eq!(owners(&state), vec!["a".to_string()]);
    assert!(consistent(&state));
}

#[test]
fn rename_to_takes_the_alias_as_it_stands() {
    let mut state = State::new();
    state.feeds.push(feed("a", "http://a", None, None));
    state.feeds.push(feed("b", "http://b", Some("Bee"), None));
    state.items.push(item("a", "a1", 1));
    state.items.push(item("b", "b1", 2));
    assert_eq!(rename_to(&mut state, "a", ""), Err(StoreError::EmptyAlias));
    assert_eq!(rename_to(&mut state, "nobody", ""), Err(StoreError::EmptyAlias));
    assert_eq!(rename_to(&mut state, "a", "bee"), Err(StoreError::AliasInUse));
    assert_eq!(rename_to(&mut state, "a", "b"), Err(StoreError::AliasInUse));
    assert_eq!(rename_to(&mut state, "nobody", "bee"), Err(StoreError::AliasInUse));
    assert_eq!(rename_to(&mut state, "nobody", "free"), Err(StoreError::NotFound));
    // an id stands in the way only once the feed to rename is found
    assert_eq!(rename_to(&mut state, "nobody", "b"), Err(StoreError::NotFound));
    assert_eq!(rename_to(&mut state, "nobody", "a"), Err(StoreError::NotFound));
    assert_eq!(rename_to(&mut state, "a", " x "), Ok(()));
    assert_eq!(state.feeds[0].id, " x ");
    assert_eq!(state.feeds[0].alias, Some(" x ".to_string()));
    assert_eq!(owners(&state), vec![" x ".to_string(), "b".to_string()]);
    assert!(consistent(&state));
}

#[test]
fn a_refresh_by_keys_stops_at_the_first_unknown_key() {
    let mut state = State::new();
    state.feeds.push(feed("a", "http://a", None, Some("news")));
    state.feeds.push(feed("b", "http://b", Some("News"), None));
    let keys = vec!["a".to_string(), "news".to_string(), "nobody".to_string(), "b".to_string()];
    assert_eq!(next_refresh_step(&state, &keys, 0), Ok(RefreshStep::Refresh { index: 0 }));
    assert_eq!(next_refresh_step(&state, &keys, 1), Ok(RefreshStep::Refresh { index: 1 }));
    assert_eq!(next_refresh_step(&state, &keys, 2), Err(StoreError::NotFound));
    assert_eq!(next_refresh_step(&state, &keys, 3), Ok(RefreshStep::Refresh { index: 1 }));
    assert_eq!(next_refresh_step(&state, &keys, 4), Ok(RefreshStep::Done));
    assert_eq!(next_refresh_step(&state, &keys, usize::MAX), Ok(RefreshStep::Done));
    assert_eq!(next_refresh_step(&state, &Vec::new(), 0), Ok(RefreshStep::Done));
}

#[test]
fn a_refresh_by_keys_sees_the_store_as_it_is_at_each_step() {
    let mut state = State::new();
    state.feeds.push(feed("a", "http://a", None, None));
    state.feeds.push(feed("b", "http://b", None, None));
    let keys = vec!["a".to_string(), "Fresh Title".to_string()];
    assert_eq!(next_refresh_step(&state, &keys, 1), Err(StoreError::NotFound));
    state.feeds[1].title = Some("fresh title".to_string());
    assert_eq!(next_refresh_step(&state, &keys, 1), Ok(RefreshStep::Refresh { index: 1 }));
}

#[test]
fn all_indices_counts_the_feeds() {
    let mut state = State::default();
    assert_eq!(state.all_indices(), Vec::<usize>::new());
    state.feeds.push(feed("a", "http://a", None, None));
    state.feeds.push(feed("b", "http://b", None, None));
    assert_eq!(state.all_indices(), vec![0, 1]);
}
