use rsso::listing::recent_items_of;
use rsso::refresh::{needs_refresh, FetchedEntry, FetchedFeed};
use rsso::state::{Feed, Item, State};
use rsso::time::Timestamp;

fn ts(secs: i64) -> Timestamp {
    Timestamp { secs, nanos: 0 }
}

fn feed(id: &str, url: &str) -> Feed {
    Feed {
        id: id.to_string(),
        url: url.to_string(),
        alias: None,
        title: None,
        added_at: ts(1),
        last_fetched_at: None,
        last_error: None,
    }
}

fn item(feed_id: &str, title: &str, published: i64) -> Item {
    Item {
        feed_id: feed_id.to_string(),
        title: title.to_string(),
        link: format!("http://x/{}", title),
        published_at: Some(ts(published)),
        updated_at: None,
        summary: None,
        first_seen_at: ts(0),
    }
}

fn fetched(title: &str, published: Option<i64>) -> FetchedEntry {
    FetchedEntry {
        title: title.to_string(),
        link: format!("http://x/{}", title),
        published_at: published.map(ts),
        updated_at: None,
        summary: Some(format!("about {}", title)),
    }
}

fn titles_of(state: &State, feed_id: &str) -> Vec<String> {
    state.items.iter().filter(|i| i.feed_id == feed_id).map(|i| i.title.clone()).collect()
}

fn two_feeds() -> State {
    let mut state = State::new();
    state.feeds.push(feed("a", "http://a"));
    state.feeds.push(feed("b", "http://b"));
    state.items.push(item("a", "old-a1", 100));
    state.items.push(item("b", "b1", 50));
    state.items.push(item("a", "old-a2", 200));
    state.items.push(item("b", "b2", 60));
    state
}

#[test]
fn a_feed_is_stale_when_never_fetched_or_old_enough() {
    let mut f = feed("a", "http://a");
    assert!(needs_refresh(&f, &ts(0), 60));
    assert!(needs_refresh(&f, &ts(0), u64::MAX));
    f.last_fetched_at = Some(ts(1_000));
    assert!(!needs_refresh(&f, &ts(1_000 + 3_599), 60));
    assert!(needs_refresh(&f, &ts(1_000 + 3_600), 60));
    assert!(needs_refresh(&f, &ts(1_000), 0));
    assert!(!needs_refresh(&f, &ts(999), 0));
}

#[test]
fn success_keeps_the_ten_newest_of_fifteen_and_leaves_others_alone() {
    let mut state = two_feeds();
    let b_before: Vec<Item> = state.items.iter().filter(|i| i.feed_id == "b").cloned().collect();
    let b_feed_before = state.feeds[1].clone();
    let entries: Vec<FetchedEntry> =
        (1..=15).map(|n| fetched(&format!("n{}", n), Some(1_000 + n))).collect();
    let outcome = Ok(FetchedFeed { title: Some("Feed A".to_string()), entries });
    state.apply_fetch(0, outcome, ts(5_000), ts(5_001), 10);
    let expected: Vec<String> = (6..=15).map(|n| format!("n{}", n)).collect();
    assert_eq!(titles_of(&state, "a"), expected);
    let b_after: Vec<Item> = state.items.iter().filter(|i| i.feed_id == "b").cloned().collect();
    assert_eq!(b_after, b_before);
    assert_eq!(state.feeds[1], b_feed_before);
    assert_eq!(state.feeds[0].title, Some("Feed A".to_string()));
    assert_eq!(state.feeds[0].last_fetched_at, Some(ts(5_000)));
    assert_eq!(state.feeds[0].last_error, None);
    assert!(state.items.iter().filter(|i| i.feed_id == "a").all(|i| i.first_seen_at == ts(5_001)));
    let a6 = state.items.iter().find(|i| i.title == "n6").unwrap();
    assert_eq!(a6.link, "http://x/n6");
    assert_eq!(a6.summary, Some("about n6".to_string()));
    assert_eq!(a6.published_at, Some(ts(1_006)));
}

#[test]
fn success_replaces_every_old_item_even_an_equal_one() {
    let mut state = two_feeds();
    // the payload repeats an article that the store holds already
    let same = FetchedEntry {
        title: "old-a1".to_string(),
        link: "http://x/old-a1".to_string(),
        published_at: Some(ts(100)),
        updated_at: None,
        summary: None,
    };
    let outcome = Ok(FetchedFeed { title: None, entries: vec![same, fetched("new", Some(300))] });
    state.apply_fetch(0, outcome, ts(900), ts(901), 10);
    assert_eq!(titles_of(&state, "a"), vec!["old-a1", "new"]);
    // the item that is there now is the fetched one: it was first seen at the merge
    assert!(state.items.iter().filter(|i| i.feed_id == "a").all(|i| i.first_seen_at == ts(901)));
    assert_eq!(titles_of(&state, "b"), vec!["b1", "b2"]);
    // others first, in their order, then the fetched ones
    let all: Vec<String> = state.items.iter().map(|i| i.title.clone()).collect();
    assert_eq!(all, vec!["b1", "b2", "old-a1", "new"]);
}

#[test]
fn success_without_a_title_keeps_the_old_title_and_clears_the_error() {
    let mut state = two_feeds();
    state.feeds[0].title = Some("Known".to_string());
    state.feeds[0].last_error = Some("timed out".to_string());
    state.apply_fetch(0, Ok(FetchedFeed { title: None, entries: vec![] }), ts(7), ts(8), 10);
    assert_eq!(state.feeds[0].title, Some("Known".to_string()));
    assert_eq!(state.feeds[0].last_error, None);
    assert_eq!(state.feeds[0].last_fetched_at, Some(ts(7)));
    assert_eq!(titles_of(&state, "a"), Vec::<String>::new());
    assert_eq!(titles_of(&state, "b"), vec!["b1", "b2"]);
}

#[test]
fn failure_sets_only_the_last_error() {
    let mut state = two_feeds();
    state.feeds[0].title = Some("Known".to_string());
    state.feeds[0].last_fetched_at = Some(ts(42));
    let items_before = state.items.clone();
    let mut expected = state.feeds[0].clone();
    expected.last_error = Some("timed out".to_string());
    let other = state.feeds[1].clone();
    state.apply_fetch(0, Err("timed out".to_string()), ts(5_000), ts(5_001), 1);
    assert_eq!(state.feeds[0], expected);
    assert_eq!(state.feeds[1], other);
    assert_eq!(state.items, items_before);
}

#[test]
fn after_a_timeout_the_cached_items_are_still_shown() {
    let mut state = two_feeds();
    state.apply_fetch(0, Err("operation timed out".to_string()), ts(5_000), ts(5_001), 10);
    let shown: Vec<String> =
        recent_items_of(&state, 0, 20).iter().map(|i| i.title.clone()).collect();
    assert_eq!(shown, vec!["old-a2", "old-a1"]);
    assert_eq!(state.feeds[0].last_error, Some("operation timed out".to_string()));
}

#[test]
fn retention_ranks_by_effective_date() {
    let mut state = two_feeds();
    let mut by_update = fetched("updated", None);
    by_update.updated_at = Some(ts(10_000));
    let entries = vec![fetched("p1", Some(10)), by_update, fetched("seen", None), fetched("p2", Some(20))];
    // "seen" has no date of its own: it counts as of the merge, at 500
    state.apply_fetch(0, Ok(FetchedFeed { title: None, entries }), ts(400), ts(500), 2);
    assert_eq!(titles_of(&state, "a"), vec!["updated", "seen"]);
}
