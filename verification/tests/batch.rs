use rsso::batch::{RefreshBatch, DEFAULT_FETCH_CEILING};
use rsso::refresh::{FetchedEntry, FetchedFeed};
use rsso::state::{Feed, Item, State};
use rsso::time::Timestamp;

fn ts(secs: i64) -> Timestamp {
    Timestamp { secs, nanos: 0 }
}

fn feed(n: usize, last_fetched: Option<i64>) -> Feed {
    Feed {
        id: format!("f{}", n),
        url: format!("http://feed/{}", n),
        alias: None,
        title: None,
        added_at: ts(1),
        last_fetched_at: last_fetched.map(ts),
        last_error: None,
    }
}

fn store(fetched: &[Option<i64>]) -> State {
    let mut state = State::new();
    for (n, last) in fetched.iter().enumerate() {
        state.feeds.push(feed(n, *last));
        state.items.push(Item {
            feed_id: format!("f{}", n),
            title: format!("cached{}", n),
            link: String::new(),
            published_at: Some(ts(10)),
            updated_at: None,
            summary: None,
            first_seen_at: ts(10),
        });
    }
    state
}

fn payload(title: &str) -> Result<FetchedFeed, String> {
    Ok(FetchedFeed {
        title: Some(title.to_uppercase()),
        entries: vec![FetchedEntry {
            title: title.to_string(),
            link: String::new(),
            published_at: Some(ts(99)),
            updated_at: None,
            summary: None,
        }],
    })
}

fn item_titles(state: &State) -> Vec<String> {
    state.items.iter().map(|i| i.title.clone()).collect()
}

#[test]
fn the_default_ceiling_is_twenty() {
    assert_eq!(DEFAULT_FETCH_CEILING, 20);
}

#[test]
fn plan_takes_the_stale_candidates_in_order() {
    // now is 10000 s; a feed is stale after 60 minutes
    let state = store(&[None, Some(9_000), Some(6_400), Some(6_401), None]);
    let indices = vec![4, 3, 2, 1, 0];
    let mut batch = RefreshBatch::plan_at(&state, &indices, ts(10_000), 60, 10);
    assert_eq!(batch.job_count(), 3);
    assert_eq!(batch.feed_count(), 5);
    assert_eq!(batch.ceiling(), 10);
    assert_eq!(batch.planned_at(), ts(10_000));
    assert_eq!(batch.in_flight(), 0);
    assert!(!batch.is_finished());
    let mut got = Vec::new();
    while let Some(job) = batch.next_job() {
        got.push((job.ticket, job.index, job.url));
    }
    assert_eq!(
        got,
        vec![
            (0, 4, "http://feed/4".to_string()),
            (1, 2, "http://feed/2".to_string()),
            (2, 0, "http://feed/0".to_string()),
        ]
    );
}

#[test]
fn plan_passes_over_positions_without_a_feed() {
    let state = store(&[None, None]);
    let mut batch = RefreshBatch::plan_at(&state, &vec![7, 1, 2], ts(5), 60, 3);
    assert_eq!(batch.job_count(), 1);
    assert_eq!(batch.next_job().map(|j| j.index), Some(1));
}

#[test]
fn a_batch_without_stale_feeds_is_finished_at_once() {
    let mut state = store(&[Some(100), Some(200)]);
    let before = state.clone();
    let mut batch = RefreshBatch::plan_at(&state, &state.all_indices(), ts(300), 60, 20);
    assert_eq!(batch.job_count(), 0);
    assert!(batch.next_job().is_none());
    assert!(batch.is_finished());
    batch.apply_at(&mut state, ts(301), 10);
    assert_eq!(state, before);
}

#[test]
fn no_more_fetches_run_than_the_ceiling_allows() {
    let state = store(&vec![None; 50]);
    let mut batch = RefreshBatch::plan_at(&state, &state.all_indices(), ts(1), 60, 4);
    let mut running: Vec<usize> = Vec::new();
    let mut done = 0;
    let mut x: u64 = 99;
    let mut peak = 0;
    while !batch.is_finished() {
        while let Some(job) = batch.next_job() {
            running.push(job.ticket);
            assert!(batch.in_flight() <= 4);
        }
        assert_eq!(batch.in_flight(), running.len());
        peak = peak.max(running.len());
        assert!(!running.is_empty());
        // any of the running fetches may end next
        x = x.wrapping_mul(6364136223846793005).wrapping_add(1442695040888963407);
        let pick = ((x >> 33) as usize) % running.len();
        let ticket = running.remove(pick);
        assert!(batch.complete(ticket, Err("down".to_string())));
        done += 1;
        assert_eq!(batch.in_flight(), running.len());
    }
    assert_eq!(done, 50);
    assert_eq!(peak, 4);
}

#[test]
fn a_ceiling_of_one_fetches_one_by_one() {
    let state = store(&[None, None, None]);
    let mut batch = RefreshBatch::plan_at(&state, &state.all_indices(), ts(1), 60, 1);
    let first = batch.next_job().unwrap();
    assert!(batch.next_job().is_none());
    assert_eq!(batch.in_flight(), 1);
    assert!(batch.complete(first.ticket, payload("a")));
    let second = batch.next_job().unwrap();
    assert_eq!(second.ticket, 1);
    assert!(batch.next_job().is_none());
}

#[test]
fn a_ceiling_of_zero_starts_nothing() {
    let state = store(&[None]);
    let mut batch = RefreshBatch::plan_at(&state, &state.all_indices(), ts(1), 60, 0);
    assert!(batch.next_job().is_none());
    assert!(!batch.is_finished());
}

#[test]
fn complete_takes_only_tickets_that_run() {
    let state = store(&[None, None]);
    let mut batch = RefreshBatch::plan_at(&state, &state.all_indices(), ts(1), 60, 5);
    assert!(!batch.complete(0, payload("early")));
    let job = batch.next_job().unwrap();
    assert!(!batch.complete(1, payload("not yet handed out")));
    assert!(!batch.complete(17, payload("unknown")));
    assert_eq!(batch.in_flight(), 1);
    assert!(batch.complete(job.ticket, payload("ok")));
    assert!(!batch.complete(job.ticket, payload("twice")));
    assert_eq!(batch.in_flight(), 0);
    assert!(!batch.is_finished());
}

#[test]
fn results_are_applied_in_the_order_in_which_they_came_back() {
    let mut state = store(&[None, Some(9_990), None, None]);
    let fresh_before = state.feeds[1].clone();
    let mut batch = RefreshBatch::plan_at(&state, &state.all_indices(), ts(10_000), 60, 20);
    let a = batch.next_job().unwrap();
    let b = batch.next_job().unwrap();
    let c = batch.next_job().unwrap();
    assert_eq!((a.index, b.index, c.index), (0, 2, 3));
    assert!(batch.next_job().is_none());
    assert!(batch.complete(c.ticket, payload("three")));
    assert!(batch.complete(a.ticket, Err("no route".to_string())));
    assert!(batch.complete(b.ticket, payload("two")));
    assert!(batch.is_finished());
    batch.apply_at(&mut state, ts(10_005), 10);
    // the feed that was fresh is untouched
    assert_eq!(state.feeds[1], fresh_before);
    // the failed one keeps its cache
    assert_eq!(state.feeds[0].last_error, Some("no route".to_string()));
    assert_eq!(state.feeds[0].last_fetched_at, None);
    assert_eq!(state.feeds[2].title, Some("TWO".to_string()));
    assert_eq!(state.feeds[2].last_fetched_at, Some(ts(10_000)));
    assert_eq!(state.feeds[3].title, Some("THREE".to_string()));
    assert_eq!(item_titles(&state), vec!["cached0", "cached1", "three", "two"]);
    assert_eq!(state.items[2].first_seen_at, ts(10_005));
    assert_eq!(state.items[2].feed_id, "f3");
    assert_eq!(state.items[3].feed_id, "f2");
}

#[test]
fn a_candidate_named_twice_is_fetched_twice() {
    let mut state = store(&[None]);
    let mut batch = RefreshBatch::plan_at(&state, &vec![0, 0], ts(1), 60, 20);
    let a = batch.next_job().unwrap();
    let b = batch.next_job().unwrap();
    assert_eq!((a.index, b.index), (0, 0));
    assert!(batch.complete(b.ticket, payload("second")));
    assert!(batch.complete(a.ticket, payload("first")));
    batch.apply_at(&mut state, ts(2), 10);
    assert_eq!(item_titles(&state), vec!["first"]);
    assert_eq!(state.feeds[0].title, Some("FIRST".to_string()));
}

#[test]
fn plan_and_apply_by_the_clock() {
    let mut state = store(&[None, Some(1_000)]);
    let mut batch = RefreshBatch::plan(&state, &state.all_indices(), 60, 20);
    assert!(batch.planned_at().secs > 1_600_000_000);
    // both are stale by now
    assert_eq!(batch.job_count(), 2);
    let a = batch.next_job().unwrap();
    let b = batch.next_job().unwrap();
    assert!(batch.complete(a.ticket, payload("x")));
    assert!(batch.complete(b.ticket, Err("gone".to_string())));
    let planned_at = batch.planned_at();
    batch.apply(&mut state, 10);
    assert_eq!(state.feeds[0].last_fetched_at, Some(planned_at));
    assert_eq!(state.feeds[1].last_fetched_at, Some(ts(1_000)));
    assert_eq!(state.feeds[1].last_error, Some("gone".to_string()));
    let fresh = state.items.iter().find(|i| i.title == "x").unwrap();
    assert!(fresh.first_seen_at.secs >= planned_at.secs);
    assert_eq!(item_titles(&state), vec!["cached1", "x"]);
}

fn entries(n: usize) -> Vec<FetchedEntry> {
    (0..n)
        .map(|k| FetchedEntry {
            title: format!("e{}", k),
            link: String::new(),
            published_at: Some(ts(100 + k as i64)),
            updated_at: None,
            summary: None,
        })
        .collect()
}

#[test]
fn in_a_batch_a_failure_touches_only_the_last_error() {
    let mut state = store(&[None, Some(5), None]);
    state.feeds[1].title = Some("Kept".to_string());
    let before = state.clone();
    let mut batch = RefreshBatch::plan_at(&state, &state.all_indices(), ts(10_000), 60, 20);
    let a = batch.next_job().unwrap();
    let b = batch.next_job().unwrap();
    let c = batch.next_job().unwrap();
    assert_eq!((a.index, b.index, c.index), (0, 1, 2));
    assert!(batch.complete(b.ticket, Err("timed out".to_string())));
    assert!(batch.complete(c.ticket, payload("late")));
    assert!(batch.complete(a.ticket, payload("early")));
    batch.apply_at(&mut state, ts(10_001), 10);
    let mut expected = before.feeds[1].clone();
    expected.last_error = Some("timed out".to_string());
    assert_eq!(state.feeds[1], expected);
    let own: Vec<&Item> = state.items.iter().filter(|i| i.feed_id == "f1").collect();
    let own_before: Vec<&Item> = before.items.iter().filter(|i| i.feed_id == "f1").collect();
    assert_eq!(own, own_before);
}

#[test]
fn in_a_batch_a_success_replaces_the_items_and_caps_them() {
    let mut state = store(&[None, None]);
    for k in 0..3 {
        let mut old = state.items[0].clone();
        old.title = format!("old{}", k);
        old.published_at = Some(ts(1_000_000 + k));
        state.items.push(old);
    }
    let others_before: Vec<Item> =
        state.items.iter().filter(|i| i.feed_id == "f1").cloned().collect();
    let mut batch = RefreshBatch::plan_at(&state, &vec![0], ts(10_000), 60, 20);
    let a = batch.next_job().unwrap();
    assert!(batch.next_job().is_none());
    assert!(batch.complete(a.ticket, Ok(FetchedFeed { title: None, entries: entries(15) })));
    batch.apply_at(&mut state, ts(10_001), 10);
    let own: Vec<String> =
        state.items.iter().filter(|i| i.feed_id == "f0").map(|i| i.title.clone()).collect();
    // the ten newest of the fifteen, in the order in which they came
    let expected: Vec<String> = (5..15).map(|k| format!("e{}", k)).collect();
    assert_eq!(own, expected);
    let others: Vec<Item> = state.items.iter().filter(|i| i.feed_id == "f1").cloned().collect();
    assert_eq!(others, others_before);
    assert_eq!(state.feeds[0].last_fetched_at, Some(ts(10_000)));
    assert_eq!(state.feeds[0].last_error, None);
    assert_eq!(state.feeds[0].title, None);
    assert_eq!(state.feeds[1].last_fetched_at, None);
}

#[test]
fn a_failure_after_a_success_leaves_the_feed_within_its_cap() {
    let mut state = store(&[None]);
    let mut batch = RefreshBatch::plan_at(&state, &vec![0, 0], ts(10_000), 60, 20);
    let a = batch.next_job().unwrap();
    let b = batch.next_job().unwrap();
    assert!(batch.complete(a.ticket, Ok(FetchedFeed { title: None, entries: entries(7) })));
    assert!(batch.complete(b.ticket, Err("reset".to_string())));
    batch.apply_at(&mut state, ts(10_001), 4);
    assert_eq!(item_titles(&state), vec!["e3", "e4", "e5", "e6"]);
    assert_eq!(state.feeds[0].last_error, Some("reset".to_string()));
    assert_eq!(state.feeds[0].last_fetched_at, Some(ts(10_000)));
}
