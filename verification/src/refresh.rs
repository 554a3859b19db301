//! Refreshing a feed: when it is due, and what the result of a fetch does
//! to the store.

use vstd::prelude::*;

use crate::retention::{
    count_of, lemma_trimmed_history, of_feed, of_other_feeds, trim_history, trimmed_history,
};
use crate::seq_lemmas::{
    lemma_filter_all, lemma_filter_disjoint, lemma_filter_none, lemma_filter_twice,
};
use crate::state::{item_views, text_of, Feed, FeedView, Item, ItemView, State, StateView};
use crate::time::{have_minutes_passed, minutes_passed, Timestamp};

verus! {

/// An article as a fetch returns it.
#[derive(Debug, Clone, PartialEq, Eq)]
pub struct FetchedEntry {
    pub title: String,
    pub link: String,
    pub published_at: Option<Timestamp>,
    pub updated_at: Option<Timestamp>,
    pub summary: Option<String>,
}

/// What a successful fetch returns: the feed's title, if it has one, and
/// its articles.
#[derive(Debug, Clone, PartialEq, Eq)]
pub struct FetchedFeed {
    pub title: Option<String>,
    pub entries: Vec<FetchedEntry>,
}

/// A fetched article as a mathematical value.
#[verifier::ext_equal]
pub struct FetchedEntryView {
    pub title: Seq<char>,
    pub link: Seq<char>,
    pub published_at: Option<Timestamp>,
    pub updated_at: Option<Timestamp>,
    pub summary: Option<Seq<char>>,
}

/// A fetched feed as a mathematical value.
#[verifier::ext_equal]
pub struct FetchedFeedView {
    pub title: Option<Seq<char>>,
    pub entries: Seq<FetchedEntryView>,
}

impl View for FetchedEntry {
    type V = FetchedEntryView;

    open spec fn view(&self) -> FetchedEntryView {
        FetchedEntryView {
            title: self.title@,
            link: self.link@,
            published_at: self.published_at,
            updated_at: self.updated_at,
            summary: text_of(self.summary),
        }
    }
}

/// The views of a sequence of fetched articles.
pub open spec fn entry_views(entries: Seq<FetchedEntry>) -> Seq<FetchedEntryView> {
    Seq::new(entries.len(), |i: int| entries[i]@)
}

impl View for FetchedFeed {
    type V = FetchedFeedView;

    open spec fn view(&self) -> FetchedFeedView {
        FetchedFeedView { title: text_of(self.title), entries: entry_views(self.entries@) }
    }
}

/// The result of a fetch as a mathematical value: the feed, or the
/// description of what went wrong.
pub open spec fn outcome_view(outcome: Result<FetchedFeed, String>) -> Result<
    FetchedFeedView,
    Seq<char>,
> {
    match outcome {
        Ok(feed) => Ok(feed@),
        Err(e) => Err(e@),
    }
}

impl FeedView {
    /// The feed is due for a refresh at `now`: it was never fetched, or at
    /// least `refresh_age_mins` minutes have passed since it was.
    pub open spec fn is_stale(self, now: Timestamp, refresh_age_mins: u64) -> bool {
        match self.last_fetched_at {
            None => true,
            Some(last) => minutes_passed(last, now, refresh_age_mins),
        }
    }

    /// The feed after a fetch at `now` that succeeded with the title
    /// `title`: a title that came replaces the old one, and the last error
    /// is gone.
    pub open spec fn fetched(self, title: Option<Seq<char>>, now: Timestamp) -> FeedView {
        FeedView {
            title: match title {
                Some(t) => Some(t),
                None => self.title,
            },
            last_fetched_at: Some(now),
            last_error: None,
            ..self
        }
    }

    /// The feed after a fetch that failed with `error`: only the last
    /// error changes.
    pub open spec fn failed(self, error: Seq<char>) -> FeedView {
        FeedView { last_error: Some(error), ..self }
    }
}

/// The item that the article `e` becomes in the feed `id` when it enters
/// the store at `seen_at`.
pub open spec fn stamped(e: FetchedEntryView, id: Seq<char>, seen_at: Timestamp) -> ItemView {
    ItemView {
        feed_id: id,
        title: e.title,
        link: e.link,
        published_at: e.published_at,
        updated_at: e.updated_at,
        summary: e.summary,
        first_seen_at: seen_at,
    }
}

/// The items that the articles `entries` become in the feed `id`.
pub open spec fn stamped_all(entries: Seq<FetchedEntryView>, id: Seq<char>, seen_at: Timestamp) -> Seq<
    ItemView,
> {
    Seq::new(entries.len(), |i: int| stamped(entries[i], id, seen_at))
}

/// The items once the feed `id` has lost every item that it had and has
/// got `fresh` in their place, cut down to the `max` newest: the items of
/// the other feeds in their order, then what is left of `fresh`.
#[verifier::opaque]
pub open spec fn replaced(items: Seq<ItemView>, id: Seq<char>, fresh: Seq<ItemView>, max: nat) -> Seq<
    ItemView,
> {
    items.filter(of_other_feeds(id)) + trimmed_history(fresh, id, max)
}

impl StateView {
    /// The store after a fetch of the feed at `idx` succeeded. The feed's
    /// old items are all gone; the fetched ones, cut down to the `max`
    /// newest, stand at the end. The other feeds and their items are as
    /// they were.
    pub open spec fn after_success(
        self,
        idx: int,
        fetched: FetchedFeedView,
        now: Timestamp,
        seen_at: Timestamp,
        max: nat,
    ) -> StateView {
        let id = self.feeds[idx].id;
        StateView {
            feeds: self.feeds.update(idx, self.feeds[idx].fetched(fetched.title, now)),
            items: replaced(self.items, id, stamped_all(fetched.entries, id, seen_at), max),
        }
    }

    /// The store after a fetch of the feed at `idx` failed.
    pub open spec fn after_failure(self, idx: int, error: Seq<char>) -> StateView {
        StateView { feeds: self.feeds.update(idx, self.feeds[idx].failed(error)), items: self.items }
    }

    /// The store after the fetch of the feed at `idx` ended in `outcome`.
    pub open spec fn after_fetch(
        self,
        idx: int,
        outcome: Result<FetchedFeedView, Seq<char>>,
        now: Timestamp,
        seen_at: Timestamp,
        max: nat,
    ) -> StateView {
        match outcome {
            Ok(fetched) => self.after_success(idx, fetched, now, seen_at, max),
            Err(error) => self.after_failure(idx, error),
        }
    }
}

/// Whether `feed` is due for a refresh at `now`.
pub fn needs_refresh(feed: &Feed, now: &Timestamp, refresh_age_mins: u64) -> (b: bool)
    ensures
        b == feed@.is_stale(*now, refresh_age_mins),
{
    match &feed.last_fetched_at {
        None => true,
        Some(last) => have_minutes_passed(last, now, refresh_age_mins),
    }
}

/// Removes the items of the feed `id`.
fn drop_items_of(items: &mut Vec<Item>, id: &String)
    ensures
        item_views(final(items)@) == item_views(old(items)@).filter(of_other_feeds(id@)),
{
    let mut all: Vec<Item> = Vec::new();
    std::mem::swap(&mut all, items);
    let ghost before = all@;
    proof {
        assert(item_views(before.take(0)) =~= Seq::<ItemView>::empty());
        assert(item_views(items@) =~= Seq::<ItemView>::empty());
        reveal(Seq::filter);
    }
    for item in it: all
        invariant
            it.seq() == before,
            item_views(items@) == item_views(before.take(it.index())).filter(of_other_feeds(id@)),
    {
        let ghost seen = item_views(before.take(it.index()));
        proof {
            assert(item_views(before.take(it.index() + 1)) =~= seen.push(item@));
            seen.lemma_filter_push(item@, of_other_feeds(id@));
        }
        if item.feed_id != *id {
            let ghost kept = items@;
            items.push(item);
            proof {
                assert(item_views(items@) =~= item_views(kept).push(item@));
            }
        }
    }
    proof {
        assert(before.take(before.len() as int) == before);
    }
}

/// The fetched articles as items of the feed `id`, first seen at `seen_at`.
fn stamp_entries(entries: Vec<FetchedEntry>, id: &String, seen_at: Timestamp) -> (items: Vec<Item>)
    ensures
        item_views(items@) == stamped_all(entry_views(entries@), id@, seen_at),
{
    let mut items: Vec<Item> = Vec::new();
    let ghost all = entries@;
    proof {
        assert(stamped_all(entry_views(all.take(0)), id@, seen_at) =~= Seq::<ItemView>::empty());
        assert(item_views(items@) =~= Seq::<ItemView>::empty());
    }
    for e in it: entries
        invariant
            it.seq() == all,
            item_views(items@) == stamped_all(entry_views(all.take(it.index())), id@, seen_at),
    {
        let ghost so_far = items@;
        let ghost ev = e@;
        let item = Item {
            feed_id: id.clone(),
            title: e.title,
            link: e.link,
            published_at: e.published_at,
            updated_at: e.updated_at,
            summary: e.summary,
            first_seen_at: seen_at,
        };
        proof {
            assert(item@ =~= stamped(ev, id@, seen_at));
        }
        items.push(item);
        proof {
            assert(item_views(items@) =~= item_views(so_far).push(stamped(ev, id@, seen_at)));
            assert(stamped_all(entry_views(all.take(it.index() + 1)), id@, seen_at)
                =~= stamped_all(entry_views(all.take(it.index())), id@, seen_at).push(
                stamped(ev, id@, seen_at),
            ));
        }
    }
    proof {
        assert(all.take(all.len() as int) == all);
    }
    items
}

impl State {
    /// Records what the fetch of the feed at `idx` ended in. `now` is the
    /// time of the refresh and `seen_at` the time at which the fetched
    /// items enter the store.
    ///
    /// A success sets the title if one came, sets the time of the last
    /// fetch to `now`, clears the last error, replaces every item of the
    /// feed by the fetched ones, and cuts the feed down to `max_history`
    /// items. A failure records the error and leaves the rest alone.
    pub fn apply_fetch(
        &mut self,
        idx: usize,
        outcome: Result<FetchedFeed, String>,
        now: Timestamp,
        seen_at: Timestamp,
        max_history: usize,
    )
        requires
            idx < old(self).feeds.len(),
        ensures
            final(self)@ == old(self)@.after_fetch(
                idx as int,
                outcome_view(outcome),
                now,
                seen_at,
                max_history as nat,
            ),
            final(self).feeds.len() == old(self).feeds.len(),
            old(self)@.wf() ==> final(self)@.wf(),
            outcome is Ok ==> count_of(final(self)@.items, old(self)@.feeds[idx as int].id)
                <= max_history,
    {
        let ghost before = self@;
        let ghost result = outcome_view(outcome);
        match outcome {
            Ok(fetched) => self.record_success(idx, fetched, now, seen_at, max_history),
            Err(error) => self.record_failure(idx, error),
        }
        let ghost after = before.after_fetch(idx as int, result, now, seen_at, max_history as nat);
        assert(self@ == after);
        assert(before.wf() ==> after.wf()) by {
            if before.wf() {
                lemma_after_fetch_wf(before, idx as int, result, now, seen_at, max_history as nat);
            }
        }
        assert(result is Ok ==> count_of(after.items, before.feeds[idx as int].id) <= max_history) by {
            if let Ok(fetched) = result {
                lemma_success_replaces(before, idx as int, fetched, now, seen_at, max_history as nat);
            }
        }
    }

    /// Records a fetch that succeeded.
    fn record_success(
        &mut self,
        idx: usize,
        fetched: FetchedFeed,
        now: Timestamp,
        seen_at: Timestamp,
        max_history: usize,
    )
        requires
            idx < old(self).feeds.len(),
        ensures
            final(self)@ == old(self)@.after_success(
                idx as int,
                fetched@,
                now,
                seen_at,
                max_history as nat,
            ),
            final(self).feeds.len() == old(self).feeds.len(),
    {
        let ghost before = self@;
        let ghost fv = fetched@;
        let FetchedFeed { title, entries } = fetched;
        if let Some(t) = title {
            self.feeds[idx].title = Some(t);
        }
        self.feeds[idx].last_fetched_at = Some(now);
        self.feeds[idx].last_error = None;
        let feed_id = self.feeds[idx].id.clone();
        proof {
            assert(self@.feeds =~= before.feeds.update(
                idx as int,
                before.feeds[idx as int].fetched(fv.title, now),
            ));
        }
        drop_items_of(&mut self.items, &feed_id);
        let mut fresh = stamp_entries(entries, &feed_id, seen_at);
        trim_history(&mut fresh, &feed_id, max_history);
        let ghost kept = self.items@;
        let ghost added = fresh@;
        self.items.append(&mut fresh);
        proof {
            reveal(replaced);
            assert(item_views(self.items@) =~= item_views(kept) + item_views(added));
        }
    }

    /// Records a fetch that failed.
    fn record_failure(&mut self, idx: usize, error: String)
        requires
            idx < old(self).feeds.len(),
        ensures
            final(self)@ == old(self)@.after_failure(idx as int, error@),
            final(self).feeds.len() == old(self).feeds.len(),
    {
        let ghost before = self@;
        let ghost ev = error@;
        self.feeds[idx].last_error = Some(error);
        proof {
            assert(self@.feeds =~= before.feeds.update(
                idx as int,
                before.feeds[idx as int].failed(ev),
            ));
        }
    }
}

/// A failed fetch is kept apart from the cache: the feed's title, the time
/// of its last fetch and every item stay as they were; only the last error
/// of that one feed is set.
pub proof fn lemma_failure_keeps_cache(s: StateView, idx: int, error: Seq<char>)
    requires
        0 <= idx < s.feeds.len(),
    ensures
        s.after_failure(idx, error).items == s.items,
        s.after_failure(idx, error).feeds.len() == s.feeds.len(),
        s.after_failure(idx, error).feeds[idx] == (FeedView {
            last_error: Some(error),
            ..s.feeds[idx]
        }),
        s.after_failure(idx, error).feeds[idx].title == s.feeds[idx].title,
        s.after_failure(idx, error).feeds[idx].last_fetched_at == s.feeds[idx].last_fetched_at,
        forall|j: int|
            0 <= j < s.feeds.len() && j != idx ==> #[trigger] s.after_failure(idx, error).feeds[j]
                == s.feeds[j],
{
}

/// A successful fetch replaces the feed's items in full: what the feed
/// holds afterwards is made of the fetched articles alone, so no item that
/// was there before has survived, whether or not the fetch brought an
/// equal one. The feed then holds at most `max` items: all the fetched
/// ones where they are no more than `max`, else `max` of them.
pub proof fn lemma_success_replaces(
    s: StateView,
    idx: int,
    fetched: FetchedFeedView,
    now: Timestamp,
    seen_at: Timestamp,
    max: nat,
)
    requires
        0 <= idx < s.feeds.len(),
    ensures
        s.after_success(idx, fetched, now, seen_at, max).items.filter(of_feed(s.feeds[idx].id))
            == trimmed_history(
            stamped_all(fetched.entries, s.feeds[idx].id, seen_at),
            s.feeds[idx].id,
            max,
        ),
        count_of(s.after_success(idx, fetched, now, seen_at, max).items, s.feeds[idx].id) <= max,
        count_of(s.after_success(idx, fetched, now, seen_at, max).items, s.feeds[idx].id) == if fetched.entries.len()
            <= max {
            fetched.entries.len()
        } else {
            max
        },
        s.after_success(idx, fetched, now, seen_at, max).items.filter(
            of_other_feeds(s.feeds[idx].id),
        ) == s.items.filter(of_other_feeds(s.feeds[idx].id)),
{
    reveal(replaced);
    let id = s.feeds[idx].id;
    let fresh = stamped_all(fetched.entries, id, seen_at);
    let kept = trimmed_history(fresh, id, max);
    let others = s.items.filter(of_other_feeds(id));
    lemma_trimmed_history(fresh, id, max);
    lemma_filter_all(fresh, of_feed(id));
    assert forall|k: int| 0 <= k < kept.len() implies (of_feed(id))(#[trigger] kept[k]) && !(
    of_other_feeds(id))(kept[k]) by {
        assert(fresh.contains(kept[k]));
    }
    lemma_filter_all(kept, of_feed(id));
    lemma_filter_none(kept, of_other_feeds(id));
    lemma_filter_disjoint(s.items, of_other_feeds(id), of_feed(id));
    lemma_filter_twice(s.items, of_other_feeds(id), of_other_feeds(id));
    assert(others.filter(of_feed(id)) + kept =~= kept);
    assert(others + Seq::<ItemView>::empty() =~= others);
}

/// A fetch of one feed leaves every other feed as it was, and the items of
/// every other id as they were.
pub proof fn lemma_fetch_leaves_others(
    s: StateView,
    idx: int,
    outcome: Result<FetchedFeedView, Seq<char>>,
    now: Timestamp,
    seen_at: Timestamp,
    max: nat,
)
    requires
        0 <= idx < s.feeds.len(),
    ensures
        s.after_fetch(idx, outcome, now, seen_at, max).feeds.len() == s.feeds.len(),
        forall|j: int|
            0 <= j < s.feeds.len() && j != idx ==> #[trigger] s.after_fetch(
                idx,
                outcome,
                now,
                seen_at,
                max,
            ).feeds[j] == s.feeds[j],
        forall|other: Seq<char>|
            other != s.feeds[idx].id ==> #[trigger] s.after_fetch(
                idx,
                outcome,
                now,
                seen_at,
                max,
            ).items.filter(of_feed(other)) == s.items.filter(of_feed(other)),
{
    reveal(replaced);
    let id = s.feeds[idx].id;
    match outcome {
        Ok(fetched) => {
            let fresh = stamped_all(fetched.entries, id, seen_at);
            let kept = trimmed_history(fresh, id, max);
            lemma_trimmed_history(fresh, id, max);
            assert forall|other: Seq<char>| other != id implies #[trigger] s.after_fetch(
                idx,
                outcome,
                now,
                seen_at,
                max,
            ).items.filter(of_feed(other)) == s.items.filter(of_feed(other)) by {
                assert forall|k: int| 0 <= k < kept.len() implies !(of_feed(other))(
                    #[trigger] kept[k],
                ) by {
                    assert(fresh.contains(kept[k]));
                }
                lemma_filter_none(kept, of_feed(other));
                lemma_filter_twice(s.items, of_other_feeds(id), of_feed(other));
                assert(s.items.filter(of_feed(other)) + Seq::<ItemView>::empty() =~= s.items.filter(
                    of_feed(other),
                ));
            }
        },
        Err(_) => {},
    }
}

/// A fetch keeps the store consistent, whatever it ended in.
pub proof fn lemma_after_fetch_wf(
    s: StateView,
    idx: int,
    outcome: Result<FetchedFeedView, Seq<char>>,
    now: Timestamp,
    seen_at: Timestamp,
    max: nat,
)
    requires
        s.wf(),
        0 <= idx < s.feeds.len(),
    ensures
        s.after_fetch(idx, outcome, now, seen_at, max).wf(),
{
    reveal(replaced);
    let t = s.after_fetch(idx, outcome, now, seen_at, max);
    let id = s.feeds[idx].id;
    assert forall|j: int| 0 <= j < s.feeds.len() implies (#[trigger] t.feeds[j]).id
        == s.feeds[j].id && t.feeds[j].url == s.feeds[j].url by {}
    assert forall|k: int| 0 <= k < t.items.len() implies t.has_feed_id(
        #[trigger] t.items[k].feed_id,
    ) by {
        let owner = t.items[k].feed_id;
        match outcome {
            Ok(fetched) => {
                let fresh = stamped_all(fetched.entries, id, seen_at);
                let kept = trimmed_history(fresh, id, max);
                let others = s.items.filter(of_other_feeds(id));
                lemma_trimmed_history(fresh, id, max);
                if k < others.len() {
                    assert(t.items[k] == others[k]);
                    s.items.lemma_filter_contains_rev(of_other_feeds(id), others[k]);
                    let m = choose|m: int| 0 <= m < s.items.len() && s.items[m] == others[k];
                    assert(s.has_feed_id(s.items[m].feed_id));
                } else {
                    assert(t.items[k] == kept[k - others.len()]);
                    assert(fresh.contains(kept[k - others.len()]));
                    assert(owner == id);
                    assert(t.feeds[idx].id == owner);
                }
            },
            Err(_) => {
                assert(s.has_feed_id(s.items[k].feed_id));
            },
        }
        if owner != id || outcome is Err {
            let i = choose|i: int| 0 <= i < s.feeds.len() && #[trigger] s.feeds[i].id == owner;
            assert(t.feeds[i].id == owner);
        }
    }
}

} // verus!
