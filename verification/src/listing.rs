//! What the program shows: the recent items, the feeds and their state,
//! and the feeds whose last fetch failed. Nothing here changes the store.

use vstd::prelude::*;

use crate::order::{is_newest_first, lemma_newest_first, newest_first, sort_items_newest_first, views_of};
use crate::retention::of_feed;
use crate::state::{Feed, FeedView, Item, ItemView, State};
use crate::time::Timestamp;

verus! {

impl FeedView {
    /// The name under which a feed is shown beside its items: its alias,
    /// else its title, else its id.
    pub open spec fn label(self) -> Seq<char> {
        match self.alias {
            Some(a) => a,
            None => match self.title {
                Some(t) => t,
                None => self.id,
            },
        }
    }

    /// The name under which a feed is listed: its title, else its URL.
    pub open spec fn display_name(self) -> Seq<char> {
        match self.title {
            Some(t) => t,
            None => self.url,
        }
    }

    /// The state of a feed: failed, where its last fetch failed; else
    /// fetched, where it ever was; else never fetched.
    pub open spec fn status(self) -> FeedStatusView {
        match self.last_error {
            Some(e) => FeedStatusView::Failed(e),
            None => match self.last_fetched_at {
                Some(t) => FeedStatusView::Fetched(t),
                None => FeedStatusView::NeverFetched,
            },
        }
    }

    /// The line of a feed in the list of feeds.
    pub open spec fn row(self) -> FeedRowView {
        FeedRowView { id: self.id, name: self.display_name(), url: self.url, status: self.status() }
    }
}

/// The state of a feed.
#[derive(Debug, Clone, PartialEq, Eq)]
pub enum FeedStatus {
    /// The last fetch failed with this description.
    Failed(String),
    /// The last fetch succeeded at this time.
    Fetched(Timestamp),
    NeverFetched,
}

/// The state of a feed as a mathematical value.
#[verifier::ext_equal]
pub enum FeedStatusView {
    Failed(Seq<char>),
    Fetched(Timestamp),
    NeverFetched,
}

impl View for FeedStatus {
    type V = FeedStatusView;

    open spec fn view(&self) -> FeedStatusView {
        match self {
            FeedStatus::Failed(e) => FeedStatusView::Failed(e@),
            FeedStatus::Fetched(t) => FeedStatusView::Fetched(*t),
            FeedStatus::NeverFetched => FeedStatusView::NeverFetched,
        }
    }
}

/// The line of a feed in the list of feeds.
#[derive(Debug, Clone, PartialEq, Eq)]
pub struct FeedRow {
    pub id: String,
    pub name: String,
    pub url: String,
    pub status: FeedStatus,
}

/// A line of the list of feeds as a mathematical value.
#[verifier::ext_equal]
pub struct FeedRowView {
    pub id: Seq<char>,
    pub name: Seq<char>,
    pub url: Seq<char>,
    pub status: FeedStatusView,
}

impl View for FeedRow {
    type V = FeedRowView;

    open spec fn view(&self) -> FeedRowView {
        FeedRowView { id: self.id@, name: self.name@, url: self.url@, status: self.status@ }
    }
}

/// The smaller of two numbers.
pub open spec fn at_most(n: nat, limit: nat) -> nat {
    if n <= limit {
        n
    } else {
        limit
    }
}

/// The `limit` newest of `items`, newest first.
pub open spec fn shown(items: Seq<ItemView>, limit: nat) -> Seq<ItemView> {
    newest_first(items).take(at_most(items.len(), limit) as int)
}

/// The label beside the items of the feed `id`: the label of the last feed
/// that has this id, or the id itself where no feed has it.
pub open spec fn label_for(feeds: Seq<FeedView>, id: Seq<char>) -> Seq<char>
    decreases feeds.len(),
{
    if feeds.len() == 0 {
        id
    } else if feeds.last().id == id {
        feeds.last().label()
    } else {
        label_for(feeds.drop_last(), id)
    }
}

/// The positions below `n` of the feeds whose last fetch failed, in order.
pub open spec fn failing(feeds: Seq<FeedView>, n: int) -> Seq<usize>
    decreases n,
{
    if n <= 0 {
        Seq::empty()
    } else if feeds[n - 1].last_error is Some {
        failing(feeds, n - 1).push((n - 1) as usize)
    } else {
        failing(feeds, n - 1)
    }
}

/// The name under which `feed` is shown beside its items.
pub fn feed_label<'a>(feed: &'a Feed) -> (label: &'a str)
    ensures
        label@ == feed@.label(),
{
    match &feed.alias {
        Some(a) => a.as_str(),
        None => match &feed.title {
            Some(t) => t.as_str(),
            None => feed.id.as_str(),
        },
    }
}

/// The label beside the items that carry the feed id `id`.
pub fn item_label(state: &State, id: &String) -> (label: String)
    ensures
        label@ == label_for(state@.feeds, id@),
{
    let mut i: usize = state.feeds.len();
    proof {
        assert(state@.feeds.take(i as int) == state@.feeds);
    }
    while i > 0
        invariant
            i <= state.feeds.len(),
            label_for(state@.feeds, id@) == label_for(state@.feeds.take(i as int), id@),
        decreases i,
    {
        proof {
            let cur = state@.feeds.take(i as int);
            assert(cur.last() == state@.feeds[i - 1]);
            assert(cur.drop_last() == state@.feeds.take(i - 1));
        }
        if state.feeds[i - 1].id == *id {
            return feed_label(&state.feeds[i - 1]).to_owned();
        }
        i -= 1;
    }
    id.clone()
}

/// Borrows the items of the feed `id`, or every item where no id is given,
/// in order.
fn pick<'a>(items: &'a Vec<Item>, id: Option<&String>) -> (picked: Vec<&'a Item>)
    ensures
        views_of(picked@) == match id {
            Some(id) => crate::state::item_views(items@).filter(of_feed(id@)),
            None => crate::state::item_views(items@),
        },
{
    let mut picked: Vec<&'a Item> = Vec::new();
    let mut i: usize = 0;
    let ghost all = crate::state::item_views(items@);
    proof {
        if let Some(id) = id {
            assert(all.take(0).filter(of_feed(id@)) =~= Seq::<ItemView>::empty()) by {
                reveal(Seq::filter);
            }
        }
        assert(views_of(picked@) =~= all.take(0));
    }
    while i < items.len()
        invariant
            i <= items.len(),
            all == crate::state::item_views(items@),
            views_of(picked@) == match id {
                Some(id) => all.take(i as int).filter(of_feed(id@)),
                None => all.take(i as int),
            },
        decreases items.len() - i,
    {
        let item = &items[i];
        let ghost before = picked@;
        proof {
            assert(all.take(i + 1) =~= all.take(i as int).push(item@));
            if let Some(id) = id {
                all.take(i as int).lemma_filter_push(item@, of_feed(id@));
            }
        }
        let wanted = match id {
            Some(id) => item.feed_id == *id,
            None => true,
        };
        if wanted {
            picked.push(item);
            proof {
                assert(views_of(picked@) =~= views_of(before).push(item@));
            }
        }
        i += 1;
    }
    proof {
        assert(all.take(i as int) == all);
    }
    picked
}

/// The first `limit` of `items` once they are sorted newest first.
fn newest<'a>(items: Vec<&'a Item>, limit: usize) -> (r: Vec<&'a Item>)
    ensures
        views_of(r@) == shown(views_of(items@), limit as nat),
        is_newest_first(views_of(r@)),
        r.len() == at_most(items.len() as nat, limit as nat),
{
    let mut sorted = items;
    sort_items_newest_first(&mut sorted);
    let ghost full = sorted@;
    sorted.truncate(limit);
    proof {
        lemma_newest_first(views_of(items@));
        let n = at_most(items.len() as nat, limit as nat) as int;
        assert(views_of(sorted@) =~= views_of(full).take(n));
        assert forall|i: int, j: int| 0 <= i < j < sorted.len() implies views_of(
            sorted@,
        )[i].effective_date().at_or_after(views_of(sorted@)[j].effective_date()) by {
            assert(views_of(sorted@)[i] == views_of(full)[i]);
            assert(views_of(sorted@)[j] == views_of(full)[j]);
        }
    }
    sorted
}

/// The `limit` newest items of all feeds, newest first by effective date;
/// items of one date stand in the order in which the store has them.
pub fn recent_items<'a>(state: &'a State, limit: usize) -> (r: Vec<&'a Item>)
    ensures
        views_of(r@) == shown(state@.items, limit as nat),
        is_newest_first(views_of(r@)),
        r.len() == at_most(state@.items.len(), limit as nat),
{
    let all = pick(&state.items, None);
    newest(all, limit)
}

/// The `limit` newest items of the feed at `index`, newest first.
pub fn recent_items_of<'a>(state: &'a State, index: usize, limit: usize) -> (r: Vec<&'a Item>)
    requires
        index < state.feeds.len(),
    ensures
        views_of(r@) == shown(
            state@.items.filter(of_feed(state@.feeds[index as int].id)),
            limit as nat,
        ),
        is_newest_first(views_of(r@)),
{
    let own = pick(&state.items, Some(&state.feeds[index].id));
    newest(own, limit)
}

/// The positions of the feeds whose last fetch failed, in order.
pub fn failing_feeds(state: &State) -> (r: Vec<usize>)
    ensures
        r@ == failing(state@.feeds, state@.feeds.len() as int),
        forall|k: int|
            0 <= k < r.len() ==> r[k] < state.feeds.len() && state@.feeds[r[k] as int].last_error is Some,
{
    let mut r: Vec<usize> = Vec::new();
    let mut i: usize = 0;
    while i < state.feeds.len()
        invariant
            i <= state.feeds.len(),
            r@ == failing(state@.feeds, i as int),
            forall|k: int|
                0 <= k < r.len() ==> r[k] < i && state@.feeds[r[k] as int].last_error is Some,
        decreases state.feeds.len() - i,
    {
        if state.feeds[i].last_error.is_some() {
            r.push(i);
        }
        i += 1;
    }
    r
}

/// The state of `feed`.
pub fn feed_status(feed: &Feed) -> (s: FeedStatus)
    ensures
        s@ == feed@.status(),
{
    match &feed.last_error {
        Some(e) => FeedStatus::Failed(e.clone()),
        None => match feed.last_fetched_at {
            Some(t) => FeedStatus::Fetched(t),
            None => FeedStatus::NeverFetched,
        },
    }
}

/// The list of feeds: for each feed its id, its title or else its URL, its
/// URL and its state, in the order of the store.
pub fn cmd_list(state: &State) -> (rows: Vec<FeedRow>)
    ensures
        rows.len() == state.feeds.len(),
        forall|i: int| 0 <= i < rows.len() ==> (#[trigger] rows[i])@ == state@.feeds[i].row(),
{
    let mut rows: Vec<FeedRow> = Vec::new();
    let mut i: usize = 0;
    while i < state.feeds.len()
        invariant
            i <= state.feeds.len(),
            rows.len() == i,
            forall|j: int| 0 <= j < rows.len() ==> (#[trigger] rows[j])@ == state@.feeds[j].row(),
        decreases state.feeds.len() - i,
    {
        let f = &state.feeds[i];
        let name = match &f.title {
            Some(t) => t.clone(),
            None => f.url.clone(),
        };
        let row = FeedRow { id: f.id.clone(), name, url: f.url.clone(), status: feed_status(f) };
        proof {
            assert(row@ =~= state@.feeds[i as int].row());
        }
        rows.push(row);
        i += 1;
    }
    rows
}

} // verus!
