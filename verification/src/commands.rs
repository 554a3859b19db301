//! The commands: what each of them does to the store, and what it leaves
//! for the caller to do.

use vstd::prelude::*;

use crate::state::{
    lemma_with_feed_wf, lemma_without_key_wf, Feed, FeedView, ItemView, State, StateView,
    StoreError,
};
use crate::text::{slug, slug_of, trim, trimmed};
use crate::cli::{limit_for, Cli, Cmd};
use crate::retention::{count_of, of_feed};
use crate::seq_lemmas::lemma_filter_none;
use crate::time::{now, Timestamp};

verus! {

/// The id of a new feed: its alias if it has one, else the slug of its URL.
pub open spec fn feed_id_for(url: Seq<char>, alias: Option<Seq<char>>) -> Seq<char> {
    match alias {
        Some(a) => a,
        None => slug_of(url),
    }
}

/// The feed that a subscription at time `now` creates.
pub open spec fn new_feed(url: Seq<char>, alias: Option<Seq<char>>, now: Timestamp) -> FeedView {
    FeedView {
        id: feed_id_for(url, alias),
        url,
        alias,
        title: None,
        added_at: now,
        last_fetched_at: None,
        last_error: None,
    }
}

/// What subscribing at time `now` does to the store `s`.
pub open spec fn subscribed(
    s: StateView,
    url: Seq<char>,
    alias: Option<Seq<char>>,
    now: Timestamp,
) -> Result<StateView, StoreError> {
    let feed = new_feed(url, alias, now);
    if s.has_clash(feed) {
        Err(StoreError::DuplicateFeed)
    } else {
        Ok(s.with_feed(feed))
    }
}

/// The state after a command: the new one where it succeeded, the old one
/// where it failed.
pub open spec fn state_after(before: StateView, outcome: Result<StateView, StoreError>) -> StateView {
    match outcome {
        Ok(after) => after,
        Err(_) => before,
    }
}

/// The answer that a command gives for an outcome.
pub open spec fn answer_for(outcome: Result<StateView, StoreError>) -> Result<(), StoreError> {
    match outcome {
        Ok(_) => Ok(()),
        Err(e) => Err(e),
    }
}

impl StateView {
    /// A feed other than the one at `except` has the alias `alias`, letter
    /// case aside.
    pub open spec fn alias_taken(self, alias: Seq<char>, except: Option<int>) -> bool {
        exists|i: int|
            0 <= i < self.feeds.len() && Some(i) != except && (#[trigger] self.feeds[i]).has_alias(
                alias,
            )
    }

    /// A feed other than the one at `except` has the id `id`.
    pub open spec fn id_taken(self, id: Seq<char>, except: Option<int>) -> bool {
        exists|i: int|
            0 <= i < self.feeds.len() && Some(i) != except && (#[trigger] self.feeds[i]).id == id
    }

    /// The store after the feed at `idx` got `alias` as its alias and its
    /// id, and each item of its old id got the new one.
    pub open spec fn renamed(self, idx: int, alias: Seq<char>) -> StateView {
        let old_id = self.feeds[idx].id;
        StateView {
            feeds: self.feeds.update(
                idx,
                FeedView { id: alias, alias: Some(alias), ..self.feeds[idx] },
            ),
            items: repointed(self.items, old_id, alias),
        }
    }

    /// What giving the feed that answers to `key` the alias `alias` does;
    /// the alias is taken as it stands. An empty alias is refused before
    /// anything else; then an alias that another feed has as its alias,
    /// letter case aside; then a key that no feed answers to; and last an
    /// alias that another feed has as its id, since the alias becomes the
    /// id of the feed.
    pub open spec fn rename_to_outcome(self, key: Seq<char>, alias: Seq<char>) -> Result<
        StateView,
        StoreError,
    > {
        let target = self.resolve(key);
        if alias.len() == 0 {
            Err(StoreError::EmptyAlias)
        } else if self.alias_taken(alias, target) {
            Err(StoreError::AliasInUse)
        } else {
            match target {
                None => Err(StoreError::NotFound),
                Some(idx) => if self.id_taken(alias, Some(idx)) {
                    Err(StoreError::AliasInUse)
                } else {
                    Ok(self.renamed(idx, alias))
                },
            }
        }
    }

    /// What renaming the feed that answers to `key` does: the new alias is
    /// trimmed, and the feed is given what is left.
    pub open spec fn rename_outcome(self, key: Seq<char>, new_alias: Seq<char>) -> Result<
        StateView,
        StoreError,
    > {
        self.rename_to_outcome(key, trimmed(new_alias))
    }

    /// What unsubscribing from `key` does.
    pub open spec fn unsubscribe_outcome(self, key: Seq<char>) -> Result<StateView, StoreError> {
        if self.resolve(key) is None {
            Err(StoreError::NotFound)
        } else {
            Ok(self.without_key(key))
        }
    }
}

/// The id of a new feed: the alias if there is one, else the slug of the
/// URL.
pub fn derive_feed_id(url: &str, alias: &Option<String>) -> (id: String)
    ensures
        id@ == feed_id_for(url@, crate::state::text_of(*alias)),
{
    match alias {
        Some(a) => a.clone(),
        None => slug(url),
    }
}

/// Subscribes to `url` at time `now`. The new feed has no title and was
/// never fetched. Fails, and changes nothing, where a feed with the same
/// URL or the same id is there already.
pub fn cmd_sub_at(state: &mut State, url: &str, alias: Option<String>, now: Timestamp) -> (r:
    Result<(), StoreError>)
    ensures
        r == answer_for(subscribed(old(state)@, url@, crate::state::text_of(alias), now)),
        final(state)@ == state_after(
            old(state)@,
            subscribed(old(state)@, url@, crate::state::text_of(alias), now),
        ),
        old(state)@.wf() ==> final(state)@.wf(),
{
    let id = derive_feed_id(url, &alias);
    let feed = Feed {
        id,
        url: url.to_owned(),
        alias,
        title: None,
        added_at: now,
        last_fetched_at: None,
        last_error: None,
    };
    proof {
        assert(feed@ =~= new_feed(url@, crate::state::text_of(alias), now));
    }
    let r = state.add_feed(feed);
    r
}

/// Subscribes to `url` at the time that the system clock gives.
pub fn cmd_sub(state: &mut State, url: &str, alias: Option<String>) -> (r: Result<(), StoreError>)
    ensures
        exists|t: Timestamp|
            {
                let outcome = #[trigger] subscribed(
                    old(state)@,
                    url@,
                    crate::state::text_of(alias),
                    t,
                );
                r == answer_for(outcome) && final(state)@ == state_after(old(state)@, outcome)
            },
        old(state)@.wf() ==> final(state)@.wf(),
{
    let t = now();
    cmd_sub_at(state, url, alias, t)
}

/// Unsubscribes from every feed that answers to `key` and drops the items
/// of those feeds. Fails, and changes nothing, where no feed answers.
pub fn cmd_unsub(state: &mut State, key: &str) -> (r: Result<(), StoreError>)
    ensures
        r == answer_for(old(state)@.unsubscribe_outcome(key@)),
        final(state)@ == state_after(old(state)@, old(state)@.unsubscribe_outcome(key@)),
        old(state)@.wf() ==> final(state)@.wf(),
{
    if state.find_feed_index(key).is_none() {
        return Err(StoreError::NotFound);
    }
    state.remove_feed(key);
    Ok(())
}

/// Whether a feed other than the one at `except` has the alias `alias`,
/// letter case aside.
fn alias_in_use(state: &State, alias: &str, except: Option<usize>) -> (b: bool)
    ensures
        b == state@.alias_taken(
            alias@,
            match except {
                Some(i) => Some(i as int),
                None => None,
            },
        ),
{
    let ghost ex: Option<int> = match except {
        Some(i) => Some(i as int),
        None => None,
    };
    let lower = alias.to_lowercase();
    let mut i: usize = 0;
    while i < state.feeds.len()
        invariant
            i <= state.feeds.len(),
            lower@ == crate::text::lowercase(alias@),
            ex == match except {
                Some(i) => Some(i as int),
                None => None,
            },
            forall|j: int|
                0 <= j < i && Some(j) != ex ==> !(#[trigger] state@.feeds[j]).has_alias(alias@),
        decreases state.feeds.len() - i,
    {
        let is_target = match except {
            Some(t) => t == i,
            None => false,
        };
        if !is_target {
            if let Some(a) = &state.feeds[i].alias {
                if a.to_lowercase() == lower {
                    assert(state@.feeds[i as int].has_alias(alias@));
                    return true;
                }
            }
        }
        i += 1;
    }
    false
}

/// Whether a feed other than the one at `idx` has the id `id`.
fn id_in_use(state: &State, id: &str, idx: usize) -> (b: bool)
    ensures
        b == state@.id_taken(id@, Some(idx as int)),
{
    let exact = id.to_owned();
    let mut i: usize = 0;
    while i < state.feeds.len()
        invariant
            i <= state.feeds.len(),
            exact@ == id@,
            forall|j: int| 0 <= j < i && j != idx ==> (#[trigger] state@.feeds[j]).id != id@,
        decreases state.feeds.len() - i,
    {
        if i != idx && state.feeds[i].id == exact {
            assert(state@.feeds[i as int].id == id@);
            return true;
        }
        i += 1;
    }
    false
}

/// Gives the feed that answers to `key` the alias `alias`, as it stands, as
/// its alias and its id, and moves its items to the new id. Fails, and
/// changes nothing, where the alias is empty; where another feed has that
/// alias, letter case aside; where no feed answers to `key`; or where
/// another feed has the alias as its id.
pub fn rename_to(state: &mut State, key: &str, alias: &str) -> (r: Result<(), StoreError>)
    ensures
        r == answer_for(old(state)@.rename_to_outcome(key@, alias@)),
        final(state)@ == state_after(old(state)@, old(state)@.rename_to_outcome(key@, alias@)),
        old(state)@.wf() ==> final(state)@.wf(),
{
    if alias.is_empty() {
        return Err(StoreError::EmptyAlias);
    }
    let target = state.find_feed_index(key);
    if alias_in_use(state, alias, target) {
        return Err(StoreError::AliasInUse);
    }
    let idx = match target {
        Some(i) => i,
        None => {
            return Err(StoreError::NotFound);
        },
    };
    if id_in_use(state, alias, idx) {
        return Err(StoreError::AliasInUse);
    }
    let ghost before = state@;
    proof {
        if before.wf() {
            lemma_rename_wf(before, idx as int, alias@);
        }
    }
    let old_id = state.feeds[idx].id.clone();
    state.feeds[idx].alias = Some(alias.to_owned());
    state.feeds[idx].id = alias.to_owned();
    proof {
        assert(state@.feeds =~= before.renamed(idx as int, alias@).feeds);
    }
    let mut k: usize = 0;
    while k < state.items.len()
        invariant
            k <= state.items.len(),
            state.items.len() == before.items.len(),
            idx < before.feeds.len(),
            state@.feeds == before.renamed(idx as int, alias@).feeds,
            old_id@ == before.feeds[idx as int].id,
            forall|j: int|
                0 <= j < k ==> (#[trigger] state.items@[j])@ == before.renamed(
                    idx as int,
                    alias@,
                ).items[j],
            forall|j: int|
                k <= j < state.items.len() ==> (#[trigger] state.items@[j])@ == before.items[j],
        decreases state.items.len() - k,
    {
        if state.items[k].feed_id == old_id {
            state.items[k].feed_id = alias.to_owned();
        }
        proof {
            assert(state.items@[k as int]@ =~= before.renamed(idx as int, alias@).items[k as int]);
        }
        k += 1;
    }
    proof {
        assert(state@.items =~= before.renamed(idx as int, alias@).items);
    }
    Ok(())
}

/// Gives the feed that answers to `key` the alias `new_alias`, trimmed, as
/// its alias and its id, and moves its items to the new id. Fails, and
/// changes nothing, where the trimmed alias is empty; where another feed
/// has that alias, letter case aside; where no feed answers to `key`; or
/// where another feed has the trimmed alias as its id.
pub fn cmd_rename(state: &mut State, key: &str, new_alias: &str) -> (r: Result<(), StoreError>)
    ensures
        r == answer_for(old(state)@.rename_outcome(key@, new_alias@)),
        final(state)@ == state_after(old(state)@, old(state)@.rename_outcome(key@, new_alias@)),
        old(state)@.wf() ==> final(state)@.wf(),
{
    let alias = trim(new_alias);
    rename_to(state, key, alias.as_str())
}

/// What is next in a refresh of the feeds that a list of keys names.
#[derive(Debug, Clone, Copy, PartialEq, Eq)]
pub enum RefreshStep {
    /// Refresh the feed at `index`, if it is due; then ask again with the
    /// next position.
    Refresh { index: usize },
    /// Every key was dealt with.
    Done,
}

/// What a refresh by keys does once it has come to `position`: nothing
/// more, where the keys are used up; a refresh of the feed that the key at
/// `position` stands for; or nothing more and a failure, where no feed
/// answers to that key.
pub open spec fn refresh_step_for(s: StateView, keys: Seq<Seq<char>>, position: int) -> Result<
    RefreshStep,
    StoreError,
> {
    if position < 0 || position >= keys.len() {
        Ok(RefreshStep::Done)
    } else {
        match s.resolve(keys[position]) {
            Some(i) => Ok(RefreshStep::Refresh { index: i as usize }),
            None => Err(StoreError::NotFound),
        }
    }
}

/// Decides the next step of a refresh by keys. The keys are taken one
/// after the other, each against the store as it then is; the first key
/// that no feed answers to ends the refresh with `NotFound`, and what was
/// refreshed before it stays refreshed.
pub fn next_refresh_step(state: &State, keys: &Vec<String>, position: usize) -> (r: Result<
    RefreshStep,
    StoreError,
>)
    ensures
        r == refresh_step_for(state@, texts(keys@), position as int),
        r matches Ok(RefreshStep::Refresh { index }) ==> index < state.feeds.len(),
{
    if position >= keys.len() {
        return Ok(RefreshStep::Done);
    }
    match state.find_feed_index(keys[position].as_str()) {
        Some(index) => Ok(RefreshStep::Refresh { index }),
        None => Err(StoreError::NotFound),
    }
}

/// A refresh by keys goes on as long as there are keys and each stands for
/// a feed: it is over exactly where the keys are used up, it fails exactly
/// at a key that no feed answers to, and the feed that it refreshes
/// answers to the key.
pub proof fn lemma_refresh_step(s: StateView, keys: Seq<Seq<char>>, position: int)
    requires
        s.feeds.len() <= usize::MAX,
    ensures
        refresh_step_for(s, keys, position) == Ok::<RefreshStep, StoreError>(RefreshStep::Done)
            <==> !(0 <= position < keys.len()),
        refresh_step_for(s, keys, position) is Err <==> 0 <= position < keys.len() && forall|j: int|
            0 <= j < s.feeds.len() ==> !(#[trigger] s.feeds[j]).matches(keys[position]),
        refresh_step_for(s, keys, position) matches Ok(RefreshStep::Refresh { index }) ==> index
            < s.feeds.len() && s.feeds[index as int].matches(keys[position]) && s.resolve(
            keys[position],
        ) == Some(index as int),
{
    if 0 <= position < keys.len() {
        crate::state::lemma_resolve(s, keys[position]);
    }
}

/// What the caller has to do once a command was taken.
#[derive(Debug, Clone, PartialEq, Eq)]
pub enum Action {
    /// Say that the feed at `url` was subscribed to.
    Subscribed { url: String },
    /// Say that the feeds that answer to `key` are gone.
    Unsubscribed { key: String },
    /// Say that the feed that answers to `key` now has the alias `alias`.
    Renamed { key: String, alias: String },
    /// Show the list of feeds.
    ListFeeds,
    /// Refresh every feed that is due, then show the `limit` newest items
    /// of all feeds.
    ShowAll { limit: usize },
    /// Refresh the feed at `index` if it is due, then show its `limit`
    /// newest items.
    ShowFeed { index: usize, limit: usize },
    /// Refresh every feed that is due.
    RefreshAll,
    /// Refresh the feeds that the keys name, one key after the other, as
    /// `next_refresh_step` says.
    RefreshKeys { keys: Vec<String> },
    /// Say that no feed is subscribed to; `refreshing` tells whether a
    /// refresh was asked for.
    NoFeeds { refreshing: bool },
}

/// The views of a sequence of strings.
pub open spec fn texts(v: Seq<String>) -> Seq<Seq<char>> {
    Seq::new(v.len(), |i: int| v[i]@)
}

/// Takes one command: changes the store where the command is one that
/// changes it (subscribe, unsubscribe, rename), and tells the caller what
/// is left to do. A command that fails changes nothing.
///
/// Without a command the recent items of all feeds are to be shown. The
/// limit of a listing is the one of the command line, else `default_limit`.
/// A listing or a refresh of a store without feeds comes to nothing but a
/// notice. A feed to show must answer to the key. A refresh by keys is
/// left to the caller key by key: `next_refresh_step` decides each step,
/// and fails at the first key that no feed answers to.
pub fn run_command(cli: Cli, default_limit: usize, state: &mut State) -> (r: Result<
    Action,
    StoreError,
>)
    ensures
        match cli.command {
            None => final(state)@ == old(state)@ && r == Ok::<Action, StoreError>(
                if old(state)@.feeds.len() == 0 {
                    Action::NoFeeds { refreshing: false }
                } else {
                    Action::ShowAll { limit: limit_for(cli.limit, default_limit) }
                },
            ),
            Some(Cmd::List) => final(state)@ == old(state)@ && r == Ok::<Action, StoreError>(
                if old(state)@.feeds.len() == 0 {
                    Action::NoFeeds { refreshing: false }
                } else {
                    Action::ListFeeds
                },
            ),
            Some(Cmd::Feed { id_or_url }) => final(state)@ == old(state)@ && r == (match old(state)@.resolve(id_or_url@) {
                Some(i) => Ok::<Action, StoreError>(
                    Action::ShowFeed {
                        index: i as usize,
                        limit: limit_for(cli.limit, default_limit),
                    },
                ),
                None => Err::<Action, StoreError>(StoreError::NotFound),
            }),
            Some(Cmd::Refresh { ids_or_urls }) => final(state)@ == old(state)@ && (
            if old(state)@.feeds.len() == 0 {
                r == Ok::<Action, StoreError>(Action::NoFeeds { refreshing: true })
            } else if ids_or_urls@.len() == 0 {
                r == Ok::<Action, StoreError>(Action::RefreshAll)
            } else {
                r matches Ok(Action::RefreshKeys { keys }) && texts(keys@) == texts(ids_or_urls@)
            }),
            Some(Cmd::Sub { url, alias }) => exists|t: Timestamp|
                {
                    let outcome = #[trigger] subscribed(
                        old(state)@,
                        url@,
                        crate::state::text_of(alias),
                        t,
                    );
                    &&& final(state)@ == state_after(old(state)@, outcome)
                    &&& match outcome {
                        Ok(_) => r matches Ok(Action::Subscribed { url: u }) && u@ == url@,
                        Err(e) => r == Err::<Action, StoreError>(e),
                    }
                },
            Some(Cmd::Unsub { id_or_url }) => {
                let outcome = old(state)@.unsubscribe_outcome(id_or_url@);
                &&& final(state)@ == state_after(old(state)@, outcome)
                &&& match outcome {
                    Ok(_) => r matches Ok(Action::Unsubscribed { key }) && key@ == id_or_url@,
                    Err(e) => r == Err::<Action, StoreError>(e),
                }
            },
            Some(Cmd::Rename { key, alias }) => {
                let outcome = old(state)@.rename_outcome(key@, alias@);
                &&& final(state)@ == state_after(old(state)@, outcome)
                &&& match outcome {
                    Ok(_) => r matches Ok(Action::Renamed { key: k, alias: a }) && k@ == key@
                        && a@ == trimmed(alias@),
                    Err(e) => r == Err::<Action, StoreError>(e),
                }
            },
        },
        old(state)@.wf() ==> final(state)@.wf(),
{
    let limit = match cli.limit {
        Some(n) => n,
        None => default_limit,
    };
    match cli.command {
        None => {
            if state.feeds.len() == 0 {
                Ok(Action::NoFeeds { refreshing: false })
            } else {
                Ok(Action::ShowAll { limit })
            }
        },
        Some(Cmd::List) => {
            if state.feeds.len() == 0 {
                Ok(Action::NoFeeds { refreshing: false })
            } else {
                Ok(Action::ListFeeds)
            }
        },
        Some(Cmd::Feed { id_or_url }) => {
            match state.find_feed_index(id_or_url.as_str()) {
                Some(index) => Ok(Action::ShowFeed { index, limit }),
                None => Err(StoreError::NotFound),
            }
        },
        Some(Cmd::Refresh { ids_or_urls }) => {
            if state.feeds.len() == 0 {
                Ok(Action::NoFeeds { refreshing: true })
            } else if ids_or_urls.len() == 0 {
                Ok(Action::RefreshAll)
            } else {
                Ok(Action::RefreshKeys { keys: ids_or_urls })
            }
        },
        Some(Cmd::Sub { url, alias }) => {
            match cmd_sub(state, url.as_str(), alias) {
                Ok(()) => Ok(Action::Subscribed { url }),
                Err(e) => Err(e),
            }
        },
        Some(Cmd::Unsub { id_or_url }) => {
            match cmd_unsub(state, id_or_url.as_str()) {
                Ok(()) => Ok(Action::Unsubscribed { key: id_or_url }),
                Err(e) => Err(e),
            }
        },
        Some(Cmd::Rename { key, alias }) => {
            match cmd_rename(state, key.as_str(), alias.as_str()) {
                Ok(()) => Ok(Action::Renamed { key, alias: trim(alias.as_str()) }),
                Err(e) => Err(e),
            }
        },
    }
}

/// A command that changes the store, as a mathematical value.
pub enum StoreCommand {
    Subscribe { url: Seq<char>, alias: Option<Seq<char>>, at: Timestamp },
    Unsubscribe { key: Seq<char> },
    Rename { key: Seq<char>, new_alias: Seq<char> },
}

impl StoreCommand {
    /// What the command does to the store `s`.
    pub open spec fn outcome(self, s: StateView) -> Result<StateView, StoreError> {
        match self {
            StoreCommand::Subscribe { url, alias, at } => subscribed(s, url, alias, at),
            StoreCommand::Unsubscribe { key } => s.unsubscribe_outcome(key),
            StoreCommand::Rename { key, new_alias } => s.rename_outcome(key, new_alias),
        }
    }
}

/// The store after the commands `cs` were taken one after the other; a
/// command that fails changes nothing.
pub open spec fn after_commands(s: StateView, cs: Seq<StoreCommand>) -> StateView
    decreases cs.len(),
{
    if cs.len() == 0 {
        s
    } else {
        let before = after_commands(s, cs.drop_last());
        state_after(before, cs.last().outcome(before))
    }
}

/// A rename moves the items of the feed as one: afterwards the feed has
/// the new alias as its alias and its id; every item that had the old id
/// has the new one and is otherwise as it was; every other item is as it
/// was; and, where the new id differs from the old, no item has the old id
/// any more.
pub proof fn lemma_rename_moves_items(s: StateView, idx: int, alias: Seq<char>)
    requires
        0 <= idx < s.feeds.len(),
    ensures
        s.renamed(idx, alias).feeds[idx].id == alias,
        s.renamed(idx, alias).feeds[idx].alias == Some(alias),
        s.renamed(idx, alias).items.len() == s.items.len(),
        forall|k: int|
            0 <= k < s.items.len() && (#[trigger] s.items[k]).feed_id == s.feeds[idx].id
                ==> s.renamed(idx, alias).items[k] == (ItemView { feed_id: alias, ..s.items[k] }),
        forall|k: int|
            0 <= k < s.items.len() && (#[trigger] s.items[k]).feed_id != s.feeds[idx].id
                ==> s.renamed(idx, alias).items[k] == s.items[k],
        alias != s.feeds[idx].id ==> forall|k: int|
            0 <= k < s.items.len() ==> (#[trigger] s.renamed(idx, alias).items[k]).feed_id
                != s.feeds[idx].id,
        alias != s.feeds[idx].id ==> count_of(s.renamed(idx, alias).items, s.feeds[idx].id) == 0,
        count_of(s.renamed(idx, alias).items, alias) == count_of(s.items, alias) + (if alias
            == s.feeds[idx].id {
            0
        } else {
            count_of(s.items, s.feeds[idx].id) as int
        }),
{
    let t = s.renamed(idx, alias);
    let old_id = s.feeds[idx].id;
    if alias != old_id {
        lemma_filter_none(t.items, of_feed(old_id));
    }
    lemma_renamed_count(s.items, old_id, alias, s.items.len() as int);
    assert(s.items.take(s.items.len() as int) == s.items);
    assert(t.items.take(s.items.len() as int) == t.items);
}

/// The items of `items` with the old id repointed to the new one.
pub open spec fn repointed(items: Seq<ItemView>, old_id: Seq<char>, new_id: Seq<char>) -> Seq<
    ItemView,
> {
    Seq::new(
        items.len(),
        |k: int|
            if items[k].feed_id == old_id {
                ItemView { feed_id: new_id, ..items[k] }
            } else {
                items[k]
            },
    )
}

/// Among the first `n` items, the new id has after the repointing the
/// items that it had and those of the old id.
proof fn lemma_renamed_count(items: Seq<ItemView>, old_id: Seq<char>, new_id: Seq<char>, n: int)
    requires
        0 <= n <= items.len(),
    ensures
        count_of(repointed(items, old_id, new_id).take(n), new_id) == count_of(
            items.take(n),
            new_id,
        ) + (if new_id == old_id {
            0
        } else {
            count_of(items.take(n), old_id) as int
        }),
    decreases n,
{
    broadcast use Seq::lemma_filter_push;

    let r = repointed(items, old_id, new_id);
    if n == 0 {
        reveal(Seq::filter);
        assert(r.take(0) =~= Seq::<ItemView>::empty());
        assert(items.take(0) =~= Seq::<ItemView>::empty());
    } else {
        lemma_renamed_count(items, old_id, new_id, n - 1);
        assert(r.take(n) =~= r.take(n - 1).push(r[n - 1]));
        assert(items.take(n) =~= items.take(n - 1).push(items[n - 1]));
    }
}

/// A rename that gives the feed an id that no other feed has keeps the
/// store consistent.
pub proof fn lemma_rename_wf(s: StateView, idx: int, alias: Seq<char>)
    requires
        s.wf(),
        0 <= idx < s.feeds.len(),
        !s.id_taken(alias, Some(idx)),
    ensures
        s.renamed(idx, alias).wf(),
{
    let t = s.renamed(idx, alias);
    let old_id = s.feeds[idx].id;
    assert forall|i: int, j: int| 0 <= i < j < t.feeds.len() implies t.feeds[i].id
        != t.feeds[j].id && t.feeds[i].url != t.feeds[j].url by {
        if i == idx {
            assert(s.feeds[j].id != alias);
        }
        if j == idx {
            assert(s.feeds[i].id != alias);
        }
    }
    assert forall|k: int| 0 <= k < t.items.len() implies t.has_feed_id(
        #[trigger] t.items[k].feed_id,
    ) by {
        if s.items[k].feed_id == old_id {
            assert(t.feeds[idx].id == t.items[k].feed_id);
        } else {
            assert(s.has_feed_id(s.items[k].feed_id));
            let i = choose|i: int|
                0 <= i < s.feeds.len() && #[trigger] s.feeds[i].id == s.items[k].feed_id;
            assert(t.feeds[i].id == t.items[k].feed_id);
        }
    }
}

/// A rename succeeds only where no other feed has the new id, and then
/// only the feed that the key stands for changes its id.
pub proof fn lemma_rename_keeps_ids_apart(s: StateView, key: Seq<char>, new_alias: Seq<char>)
    requires
        s.rename_outcome(key, new_alias) is Ok,
    ensures
        s.resolve(key) matches Some(idx) && 0 <= idx < s.feeds.len() && forall|i: int|
            0 <= i < s.feeds.len() && i != idx ==> (#[trigger] s.feeds[i]).id != trimmed(new_alias)
                && s.rename_outcome(key, new_alias)->Ok_0.feeds[i] == s.feeds[i],
{
    crate::state::lemma_resolve(s, key);
    let idx = s.resolve(key)->0;
    assert forall|i: int| 0 <= i < s.feeds.len() && i != idx implies (#[trigger] s.feeds[i]).id
        != trimmed(new_alias) by {
        if s.feeds[i].id == trimmed(new_alias) {
            assert(s.id_taken(trimmed(new_alias), Some(idx)));
        }
    }
}

/// One command keeps the store consistent: its ids and its URLs stay
/// unique and every item belongs to a feed that is there. This holds of
/// every subscription, every removal and every rename, whether the command
/// succeeds or fails.
pub proof fn lemma_command_keeps_wf(s: StateView, c: StoreCommand)
    requires
        s.wf(),
    ensures
        state_after(s, c.outcome(s)).wf(),
{
    match c {
        StoreCommand::Subscribe { url, alias, at } => {
            if !s.has_clash(new_feed(url, alias, at)) {
                lemma_with_feed_wf(s, new_feed(url, alias, at));
            }
        },
        StoreCommand::Unsubscribe { key } => {
            lemma_without_key_wf(s, key);
        },
        StoreCommand::Rename { key, new_alias } => {
            if s.rename_outcome(key, new_alias) is Ok {
                crate::state::lemma_resolve(s, key);
                lemma_rename_wf(s, s.resolve(key)->0, trimmed(new_alias));
            }
        },
    }
}

/// Whatever commands are taken, in whatever order, the store stays
/// consistent: no two feeds share an id or a URL, and every item belongs
/// to a feed that is there.
pub proof fn lemma_commands_keep_wf(s: StateView, cs: Seq<StoreCommand>)
    requires
        s.wf(),
    ensures
        after_commands(s, cs).wf(),
    decreases cs.len(),
{
    if cs.len() > 0 {
        lemma_commands_keep_wf(s, cs.drop_last());
        lemma_command_keeps_wf(after_commands(s, cs.drop_last()), cs.last());
    }
}

} // verus!
