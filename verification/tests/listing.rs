use rsso::listing::{
    cmd_list, failing_feeds, feed_label, feed_status, item_label, recent_items, recent_items_of,
    FeedRow, FeedStatus,
};
use rsso::state::{Feed, Item, State};
use rsso::time::Timestamp;

fn ts(secs: i64) -> Timestamp {
    Timestamp { secs, nanos: 0 }
}

fn feed(id: &str, alias: Option<&str>, title: Option<&str>) -> Feed {
    Feed {
        id: id.to_string(),
        url: format!("http://{}/rss", id),
        alias: alias.map(|a| a.to_string()),
        title: title.map(|t| t.to_string()),
        added_at: ts(1),
        last_fetched_at: None,
        last_error: None,
    }
}

fn item(feed_id: &str, title: &str, published: Option<i64>, seen: i64) -> Item {
    Item {
        feed_id: feed_id.to_string(),
        title: title.to_string(),
        link: String::new(),
        published_at: published.map(ts),
        updated_at: None,
        summary: None,
        first_seen_at: ts(seen),
    }
}

fn sample() -> State {
    let mut state = State::new();
    state.feeds.push(feed("a", Some("Alpha"), Some("The A Feed")));
    state.feeds.push(feed("b", None, Some("The B Feed")));
    state.feeds.push(feed("c", None, None));
    state.items.push(item("a", "a-old", Some(10), 500));
    state.items.push(item("b", "b-mid", Some(30), 500));
    state.items.push(item("a", "a-new", Some(50), 500));
    state.items.push(item("c", "c-undated", None, 40));
    state.items.push(item("b", "b-tie", Some(30), 500));
    state
}

fn titles(items: &[&Item]) -> Vec<String> {
    items.iter().map(|i| i.title.clone()).collect()
}

#[test]
fn the_listing_is_newest_first_across_all_feeds() {
    let state = sample();
    let all = recent_items(&state, 100);
    assert_eq!(titles(&all), vec!["a-new", "c-undated", "b-mid", "b-tie", "a-old"]);
    for pair in all.windows(2) {
        assert!(pair[0].effective_date().is_at_or_after(&pair[1].effective_date()));
    }
}

#[test]
fn the_listing_stops_at_the_limit() {
    let state = sample();
    assert_eq!(titles(&recent_items(&state, 2)), vec!["a-new", "c-undated"]);
    assert_eq!(titles(&recent_items(&state, 5)).len(), 5);
    assert_eq!(titles(&recent_items(&state, 0)), Vec::<String>::new());
    assert_eq!(titles(&recent_items(&State::new(), 3)), Vec::<String>::new());
}

#[test]
fn the_listing_of_one_feed_shows_only_its_items() {
    let state = sample();
    assert_eq!(titles(&recent_items_of(&state, 0, 10)), vec!["a-new", "a-old"]);
    assert_eq!(titles(&recent_items_of(&state, 1, 10)), vec!["b-mid", "b-tie"]);
    assert_eq!(titles(&recent_items_of(&state, 1, 1)), vec!["b-mid"]);
    assert_eq!(titles(&recent_items_of(&state, 2, 10)), vec!["c-undated"]);
}

#[test]
fn the_listing_does_not_change_the_store() {
    let state = sample();
    let before = state.clone();
    let _ = recent_items(&state, 3);
    let _ = recent_items_of(&state, 0, 3);
    assert_eq!(state, before);
}

#[test]
fn a_label_is_alias_then_title_then_id() {
    let state = sample();
    assert_eq!(feed_label(&state.feeds[0]), "Alpha");
    assert_eq!(feed_label(&state.feeds[1]), "The B Feed");
    assert_eq!(feed_label(&state.feeds[2]), "c");
    assert_eq!(item_label(&state, &"a".to_string()), "Alpha");
    assert_eq!(item_label(&state, &"b".to_string()), "The B Feed");
    assert_eq!(item_label(&state, &"c".to_string()), "c");
    assert_eq!(item_label(&state, &"orphan".to_string()), "orphan");
}

#[test]
fn of_two_feeds_with_one_id_the_last_gives_the_label() {
    let mut state = sample();
    state.feeds.push(feed("a", Some("Second A"), None));
    assert_eq!(item_label(&state, &"a".to_string()), "Second A");
}

#[test]
fn failing_feeds_are_those_with_an_error() {
    let mut state = sample();
    assert_eq!(failing_feeds(&state), Vec::<usize>::new());
    state.feeds[2].last_error = Some("timeout".to_string());
    state.feeds[0].last_error = Some("HTTP error 404".to_string());
    assert_eq!(failing_feeds(&state), vec![0, 2]);
}

#[test]
fn status_is_error_before_fetched_before_never() {
    let mut f = feed("a", None, None);
    assert_eq!(feed_status(&f), FeedStatus::NeverFetched);
    f.last_fetched_at = Some(ts(77));
    assert_eq!(feed_status(&f), FeedStatus::Fetched(ts(77)));
    f.last_error = Some("boom".to_string());
    assert_eq!(feed_status(&f), FeedStatus::Failed("boom".to_string()));
}

#[test]
fn the_list_of_feeds_has_a_line_for_each_feed() {
    let mut state = sample();
    state.feeds[1].last_fetched_at = Some(ts(9));
    state.feeds[2].last_error = Some("bad".to_string());
    let rows = cmd_list(&state);
    assert_eq!(
        rows,
        vec![
            FeedRow {
                id: "a".to_string(),
                name: "The A Feed".to_string(),
                url: "http://a/rss".to_string(),
                status: FeedStatus::NeverFetched,
            },
            FeedRow {
                id: "b".to_string(),
                name: "The B Feed".to_string(),
                url: "http://b/rss".to_string(),
                status: FeedStatus::Fetched(ts(9)),
            },
            FeedRow {
                id: "c".to_string(),
                name: "http://c/rss".to_string(),
                url: "http://c/rss".to_string(),
                status: FeedStatus::Failed("bad".to_string()),
            },
        ]
    );
    assert!(cmd_list(&State::new()).is_empty());
}
