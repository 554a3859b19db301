//! The store: the list of subscribed feeds and the items that belong to
//! them, with the rules that keep the two consistent.

use vstd::prelude::*;

use crate::seq_lemmas::lemma_filter_positions;
use crate::text::same_ignoring_case;
use crate::time::Timestamp;

verus! {

/// A subscribed feed.
#[derive(Debug, Clone, PartialEq, Eq)]
pub struct Feed {
    /// The alias if one was given, else a slug of the URL.
    pub id: String,
    pub url: String,
    pub alias: Option<String>,
    /// Known once the feed has been fetched.
    pub title: Option<String>,
    pub added_at: Timestamp,
    pub last_fetched_at: Option<Timestamp>,
    /// What went wrong at the last fetch, if it failed.
    pub last_error: Option<String>,
}

/// An article of a feed.
#[derive(Debug, Clone, PartialEq, Eq)]
pub struct Item {
    /// The id of the feed that the item belongs to.
    pub feed_id: String,
    pub title: String,
    pub link: String,
    pub published_at: Option<Timestamp>,
    pub updated_at: Option<Timestamp>,
    pub summary: Option<String>,
    /// When the item entered the store.
    pub first_seen_at: Timestamp,
}

/// Everything the program remembers between runs.
#[derive(Debug, Clone, PartialEq, Eq)]
pub struct State {
    pub feeds: Vec<Feed>,
    pub items: Vec<Item>,
}

/// Why the store refused a change.
#[derive(Clone, Copy, Debug, PartialEq, Eq, Structural)]
pub enum StoreError {
    /// A feed with that URL or that id is there already.
    DuplicateFeed,
    /// No feed answers to the key.
    NotFound,
    /// The new alias is empty once trimmed.
    EmptyAlias,
    /// Another feed has the new alias as its alias, letter case aside; or
    /// the feed to rename was found and another feed has the new alias as
    /// its id.
    AliasInUse,
}

/// The ways in which a feed can answer to a key, in the order of their
/// rank: a way further up wins over every way further down.
#[derive(Clone, Copy, Debug, PartialEq, Eq, Structural)]
pub enum MatchBy {
    /// The alias is the key, letter case aside.
    Alias,
    /// The title is the key, letter case aside.
    Title,
    /// The id is exactly the key.
    Id,
    /// The URL is exactly the key.
    Url,
}

/// A feed as a mathematical value.
#[verifier::ext_equal]
pub struct FeedView {
    pub id: Seq<char>,
    pub url: Seq<char>,
    pub alias: Option<Seq<char>>,
    pub title: Option<Seq<char>>,
    pub added_at: Timestamp,
    pub last_fetched_at: Option<Timestamp>,
    pub last_error: Option<Seq<char>>,
}

/// An item as a mathematical value.
#[verifier::ext_equal]
pub struct ItemView {
    pub feed_id: Seq<char>,
    pub title: Seq<char>,
    pub link: Seq<char>,
    pub published_at: Option<Timestamp>,
    pub updated_at: Option<Timestamp>,
    pub summary: Option<Seq<char>>,
    pub first_seen_at: Timestamp,
}

/// The store as a mathematical value.
#[verifier::ext_equal]
pub struct StateView {
    pub feeds: Seq<FeedView>,
    pub items: Seq<ItemView>,
}

/// The characters of an optional string.
pub open spec fn text_of(s: Option<String>) -> Option<Seq<char>> {
    match s {
        Some(t) => Some(t@),
        None => None,
    }
}

impl View for Feed {
    type V = FeedView;

    open spec fn view(&self) -> FeedView {
        FeedView {
            id: self.id@,
            url: self.url@,
            alias: text_of(self.alias),
            title: text_of(self.title),
            added_at: self.added_at,
            last_fetched_at: self.last_fetched_at,
            last_error: text_of(self.last_error),
        }
    }
}

impl View for Item {
    type V = ItemView;

    open spec fn view(&self) -> ItemView {
        ItemView {
            feed_id: self.feed_id@,
            title: self.title@,
            link: self.link@,
            published_at: self.published_at,
            updated_at: self.updated_at,
            summary: text_of(self.summary),
            first_seen_at: self.first_seen_at,
        }
    }
}

/// The views of a sequence of feeds.
pub open spec fn feed_views(feeds: Seq<Feed>) -> Seq<FeedView> {
    Seq::new(feeds.len(), |i: int| feeds[i]@)
}

/// The views of a sequence of items.
pub open spec fn item_views(items: Seq<Item>) -> Seq<ItemView> {
    Seq::new(items.len(), |i: int| items[i]@)
}

impl View for State {
    type V = StateView;

    open spec fn view(&self) -> StateView {
        StateView { feeds: feed_views(self.feeds@), items: item_views(self.items@) }
    }
}

impl FeedView {
    /// The feed answers to `key` in the way `by`.
    pub open spec fn answers_by(self, by: MatchBy, key: Seq<char>) -> bool {
        match by {
            MatchBy::Alias => self.alias matches Some(a) && same_ignoring_case(a, key),
            MatchBy::Title => self.title matches Some(t) && same_ignoring_case(t, key),
            MatchBy::Id => self.id == key,
            MatchBy::Url => self.url == key,
        }
    }

    /// How well the feed answers to `key`: 0 where it answers by its alias,
    /// 1 by its title, 2 by its id, 3 by its URL, and 4 where it does not
    /// answer at all. The smaller number is the better rank.
    pub open spec fn rank(self, key: Seq<char>) -> int {
        if self.answers_by(MatchBy::Alias, key) {
            0
        } else if self.answers_by(MatchBy::Title, key) {
            1
        } else if self.answers_by(MatchBy::Id, key) {
            2
        } else if self.answers_by(MatchBy::Url, key) {
            3
        } else {
            4
        }
    }

    /// The feed answers to `key` in some way: by its alias or its title,
    /// letter case aside, or by its exact id or URL.
    pub open spec fn matches(self, key: Seq<char>) -> bool {
        ||| self.answers_by(MatchBy::Alias, key)
        ||| self.answers_by(MatchBy::Title, key)
        ||| self.answers_by(MatchBy::Id, key)
        ||| self.answers_by(MatchBy::Url, key)
    }

    /// The feed has the alias `alias`, letter case aside.
    pub open spec fn has_alias(self, alias: Seq<char>) -> bool {
        self.alias matches Some(a) && same_ignoring_case(a, alias)
    }

    /// The feed stands in the way of adding `other`: same URL or same id.
    pub open spec fn clashes_with(self, other: FeedView) -> bool {
        self.url == other.url || self.id == other.id
    }
}

impl StateView {
    /// No two feeds share an id.
    pub open spec fn ids_unique(self) -> bool {
        forall|i: int, j: int|
            0 <= i < j < self.feeds.len() ==> self.feeds[i].id != self.feeds[j].id
    }

    /// No two feeds share a URL.
    pub open spec fn urls_unique(self) -> bool {
        forall|i: int, j: int|
            0 <= i < j < self.feeds.len() ==> self.feeds[i].url != self.feeds[j].url
    }

    /// Some feed has the id `id`.
    pub open spec fn has_feed_id(self, id: Seq<char>) -> bool {
        exists|i: int| 0 <= i < self.feeds.len() && #[trigger] self.feeds[i].id == id
    }

    /// Every item belongs to a feed of the store.
    pub open spec fn items_owned(self) -> bool {
        forall|k: int|
            0 <= k < self.items.len() ==> self.has_feed_id(#[trigger] self.items[k].feed_id)
    }

    /// The store is consistent: ids and URLs are unique, and every item
    /// belongs to a feed that is there.
    pub open spec fn wf(self) -> bool {
        &&& self.ids_unique()
        &&& self.urls_unique()
        &&& self.items_owned()
    }

    /// The first feed at or after position `from` that answers to `key` in
    /// the way `by`.
    pub open spec fn first_from(self, by: MatchBy, key: Seq<char>, from: int) -> Option<int>
        decreases self.feeds.len() - from,
    {
        if from < 0 || from >= self.feeds.len() {
            None
        } else if self.feeds[from].answers_by(by, key) {
            Some(from)
        } else {
            self.first_from(by, key, from + 1)
        }
    }

    /// The first feed that answers to `key` in the way `by`.
    pub open spec fn first_by(self, by: MatchBy, key: Seq<char>) -> Option<int> {
        self.first_from(by, key, 0)
    }

    /// The feed that `key` stands for: the first feed whose alias is the
    /// key; where there is none, the first whose title is the key; then the
    /// first whose id is; then the first whose URL is. A match of higher
    /// rank wins wherever in the list it stands.
    pub open spec fn resolve(self, key: Seq<char>) -> Option<int> {
        if self.first_by(MatchBy::Alias, key) is Some {
            self.first_by(MatchBy::Alias, key)
        } else if self.first_by(MatchBy::Title, key) is Some {
            self.first_by(MatchBy::Title, key)
        } else if self.first_by(MatchBy::Id, key) is Some {
            self.first_by(MatchBy::Id, key)
        } else {
            self.first_by(MatchBy::Url, key)
        }
    }

    /// Some feed stands in the way of adding `feed`.
    pub open spec fn has_clash(self, feed: FeedView) -> bool {
        exists|i: int| 0 <= i < self.feeds.len() && #[trigger] self.feeds[i].clashes_with(feed)
    }

    /// The store with `feed` added at the end.
    pub open spec fn with_feed(self, feed: FeedView) -> StateView {
        StateView { feeds: self.feeds.push(feed), items: self.items }
    }

    /// Some feed that answers to `key` has the id `id`.
    pub open spec fn key_covers_id(self, key: Seq<char>, id: Seq<char>) -> bool {
        exists|i: int|
            0 <= i < self.feeds.len() && (#[trigger] self.feeds[i]).matches(key)
                && self.feeds[i].id == id
    }

    /// The store without the feeds that answer to `key` and without the
    /// items of those feeds. What stays keeps its order.
    pub open spec fn without_key(self, key: Seq<char>) -> StateView {
        StateView {
            feeds: self.feeds.filter(passes_by(key)),
            items: self.items.filter(outlives(self, key)),
        }
    }
}

/// Holds of the feeds that do not answer to `key`.
pub open spec fn passes_by(key: Seq<char>) -> spec_fn(FeedView) -> bool {
    |f: FeedView| !f.matches(key)
}

/// Holds of the items whose feed does not answer to `key`.
pub open spec fn outlives(s: StateView, key: Seq<char>) -> spec_fn(ItemView) -> bool {
    |it: ItemView| !s.key_covers_id(key, it.feed_id)
}

/// `first_from` finds the first feed at or after `from` that answers in the
/// given way, and finds none only where there is none.
pub proof fn lemma_first_from(s: StateView, by: MatchBy, key: Seq<char>, from: int)
    requires
        0 <= from <= s.feeds.len(),
    ensures
        match s.first_from(by, key, from) {
            Some(i) => {
                &&& from <= i < s.feeds.len()
                &&& s.feeds[i].answers_by(by, key)
                &&& forall|j: int| from <= j < i ==> !(#[trigger] s.feeds[j]).answers_by(by, key)
            },
            None => forall|j: int|
                from <= j < s.feeds.len() ==> !(#[trigger] s.feeds[j]).answers_by(by, key),
        },
    decreases s.feeds.len() - from,
{
    if from < s.feeds.len() && !s.feeds[from].answers_by(by, key) {
        lemma_first_from(s, by, key, from + 1);
    }
}

/// A key stands for the feed that answers best, and for the first of those
/// that answer equally well: an alias goes before a title, a title before
/// an id, an id before a URL, wherever in the list the feeds stand. A key
/// stands for no feed exactly where no feed answers to it.
pub proof fn lemma_resolve(s: StateView, key: Seq<char>)
    ensures
        match s.resolve(key) {
            Some(i) => {
                &&& 0 <= i < s.feeds.len()
                &&& s.feeds[i].matches(key)
                &&& forall|j: int|
                    0 <= j < s.feeds.len() ==> s.feeds[i].rank(key) <= (#[trigger] s.feeds[j]).rank(
                        key,
                    ) && (s.feeds[j].rank(key) == s.feeds[i].rank(key) ==> i <= j)
            },
            None => forall|j: int| 0 <= j < s.feeds.len() ==> !(#[trigger] s.feeds[j]).matches(key),
        },
{
    lemma_first_from(s, MatchBy::Alias, key, 0);
    lemma_first_from(s, MatchBy::Title, key, 0);
    lemma_first_from(s, MatchBy::Id, key, 0);
    lemma_first_from(s, MatchBy::Url, key, 0);
}

impl Default for State {
    /// An empty store.
    fn default() -> (s: State)
        ensures
            s@.feeds.len() == 0,
            s@.items.len() == 0,
    {
        State { feeds: Vec::new(), items: Vec::new() }
    }
}

impl State {
    /// An empty store.
    pub fn new() -> (s: State)
        ensures
            s@.feeds.len() == 0,
            s@.items.len() == 0,
            s@.wf(),
    {
        State { feeds: Vec::new(), items: Vec::new() }
    }

    /// The positions of all feeds, in order.
    pub fn all_indices(&self) -> (r: Vec<usize>)
        ensures
            r.len() == self.feeds.len(),
            forall|i: int| 0 <= i < r.len() ==> r[i] == i,
    {
        let mut r: Vec<usize> = Vec::new();
        let mut i: usize = 0;
        while i < self.feeds.len()
            invariant
                i <= self.feeds.len(),
                r.len() == i,
                forall|j: int| 0 <= j < r.len() ==> r[j] == j,
            decreases self.feeds.len() - i,
        {
            r.push(i);
            i += 1;
        }
        r
    }

    /// Whether `f` answers to `key` in the way `by`. `key_lower` is the key
    /// in lowercase.
    fn feed_answers(f: &Feed, by: MatchBy, key: &String, key_lower: &String) -> (b: bool)
        requires
            key_lower@ == crate::text::lowercase(key@),
        ensures
            b == f@.answers_by(by, key@),
    {
        match by {
            MatchBy::Alias => match &f.alias {
                Some(alias) => alias.to_lowercase() == *key_lower,
                None => false,
            },
            MatchBy::Title => match &f.title {
                Some(title) => title.to_lowercase() == *key_lower,
                None => false,
            },
            MatchBy::Id => f.id == *key,
            MatchBy::Url => f.url == *key,
        }
    }

    /// Whether `f` answers to `key`: by alias or title, letter case aside,
    /// or by exact id or URL.
    pub fn feed_matches(f: &Feed, key: &str) -> (b: bool)
        ensures
            b == f@.matches(key@),
    {
        let key_lower = key.to_lowercase();
        let key_owned = key.to_owned();
        Self::feed_answers(f, MatchBy::Alias, &key_owned, &key_lower) || Self::feed_answers(
            f,
            MatchBy::Title,
            &key_owned,
            &key_lower,
        ) || Self::feed_answers(f, MatchBy::Id, &key_owned, &key_lower) || Self::feed_answers(
            f,
            MatchBy::Url,
            &key_owned,
            &key_lower,
        )
    }

    /// The position of the first feed that answers to `key` in the way
    /// `by`.
    pub fn first_match(&self, by: MatchBy, key: &str) -> (r: Option<usize>)
        ensures
            self@.first_by(by, key@) == match r {
                Some(i) => Some(i as int),
                None => None,
            },
            r matches Some(i) ==> i < self.feeds.len(),
    {
        let key_lower = key.to_lowercase();
        let key_owned = key.to_owned();
        let mut i: usize = 0;
        while i < self.feeds.len()
            invariant
                i <= self.feeds.len(),
                key_lower@ == crate::text::lowercase(key@),
                key_owned@ == key@,
                self@.first_by(by, key@) == self@.first_from(by, key@, i as int),
            decreases self.feeds.len() - i,
        {
            if Self::feed_answers(&self.feeds[i], by, &key_owned, &key_lower) {
                return Some(i);
            }
            i += 1;
        }
        None
    }

    /// The position of the feed that `key` stands for: the first feed whose
    /// alias is the key, letter case aside; else the first whose title is;
    /// else the first whose id is exactly the key; else the first whose URL
    /// is. `None` exactly where no feed answers to the key in any way.
    pub fn find_feed_index(&self, key: &str) -> (r: Option<usize>)
        ensures
            self@.resolve(key@) == match r {
                Some(i) => Some(i as int),
                None => None,
            },
            match r {
                Some(i) => i < self@.feeds.len() && self@.feeds[i as int].matches(key@),
                None => forall|j: int|
                    0 <= j < self@.feeds.len() ==> !(#[trigger] self@.feeds[j]).matches(key@),
            },
    {
        proof {
            lemma_resolve(self@, key@);
        }
        let by_alias = self.first_match(MatchBy::Alias, key);
        if by_alias.is_some() {
            return by_alias;
        }
        let by_title = self.first_match(MatchBy::Title, key);
        if by_title.is_some() {
            return by_title;
        }
        let by_id = self.first_match(MatchBy::Id, key);
        if by_id.is_some() {
            return by_id;
        }
        self.first_match(MatchBy::Url, key)
    }

    /// Adds `feed` at the end, unless a feed with the same URL or the same
    /// id is there already.
    pub fn add_feed(&mut self, feed: Feed) -> (r: Result<(), StoreError>)
        ensures
            !old(self)@.has_clash(feed@) ==> r == Ok::<(), StoreError>(()) && final(self)@ == old(self)@.with_feed(feed@),
            old(self)@.has_clash(feed@) ==> r == Err::<(), StoreError>(StoreError::DuplicateFeed)
                && final(self)@ == old(self)@,
            old(self)@.wf() ==> final(self)@.wf(),
    {
        let mut i: usize = 0;
        while i < self.feeds.len()
            invariant
                i <= self.feeds.len(),
                forall|j: int| 0 <= j < i ==> !(#[trigger] self@.feeds[j]).clashes_with(feed@),
            decreases self.feeds.len() - i,
        {
            let f = &self.feeds[i];
            if f.url == feed.url || f.id == feed.id {
                assert(self@.feeds[i as int].clashes_with(feed@));
                return Err(StoreError::DuplicateFeed);
            }
            i += 1;
        }
        let ghost before = self@;
        let ghost added = feed@;
        self.feeds.push(feed);
        proof {
            assert(self@.feeds =~= before.feeds.push(added));
            assert(self@.items =~= before.items);
            if before.wf() {
                lemma_with_feed_wf(before, added);
            }
        }
        Ok(())
    }

    /// For each feed, whether it answers to `key`.
    fn match_flags(&self, key: &str) -> (flags: Vec<bool>)
        ensures
            flags.len() == self.feeds.len(),
            forall|i: int|
                0 <= i < flags.len() ==> flags[i] == (#[trigger] self@.feeds[i]).matches(key@),
    {
        let mut flags: Vec<bool> = Vec::new();
        let mut i: usize = 0;
        while i < self.feeds.len()
            invariant
                i <= self.feeds.len(),
                flags.len() == i,
                forall|j: int|
                    0 <= j < i ==> flags[j] == (#[trigger] self@.feeds[j]).matches(key@),
            decreases self.feeds.len() - i,
        {
            flags.push(Self::feed_matches(&self.feeds[i], key));
            i += 1;
        }
        flags
    }

    /// Whether a flagged feed has the id `id`.
    fn flagged_id(&self, flags: &Vec<bool>, key: Ghost<Seq<char>>, id: &String) -> (b: bool)
        requires
            flags.len() == self.feeds.len(),
            forall|i: int|
                0 <= i < flags.len() ==> flags[i] == (#[trigger] self@.feeds[i]).matches(key@),
        ensures
            b == self@.key_covers_id(key@, id@),
    {
        let mut i: usize = 0;
        while i < self.feeds.len()
            invariant
                i <= self.feeds.len(),
                flags.len() == self.feeds.len(),
                forall|j: int|
                    0 <= j < flags.len() ==> flags[j] == (#[trigger] self@.feeds[j]).matches(
                        key@,
                    ),
                forall|j: int|
                    0 <= j < i ==> !((#[trigger] self@.feeds[j]).matches(key@)
                        && self@.feeds[j].id == id@),
            decreases self.feeds.len() - i,
        {
            if flags[i] && self.feeds[i].id == *id {
                assert(self@.feeds[i as int].matches(key@) && self@.feeds[i as int].id == id@);
                return true;
            }
            i += 1;
        }
        false
    }

    /// Removes every feed that answers to `key`, and the items of those
    /// feeds. Returns how many feeds were removed.
    pub fn remove_feed(&mut self, key: &str) -> (removed: usize)
        ensures
            final(self)@ == old(self)@.without_key(key@),
            removed == old(self)@.feeds.len() - final(self)@.feeds.len(),
            old(self)@.wf() ==> final(self)@.wf(),
    {
        let ghost before = self@;
        let flags = self.match_flags(key);
        self.drop_items_of_flagged(&flags, Ghost(key@));
        let removed = self.drop_flagged(&flags, Ghost(key@));
        proof {
            if before.wf() {
                lemma_without_key_wf(before, key@);
            }
        }
        removed
    }

    /// Removes the items whose feed is flagged.
    fn drop_items_of_flagged(&mut self, flags: &Vec<bool>, key: Ghost<Seq<char>>)
        requires
            flags.len() == old(self)@.feeds.len(),
            forall|i: int|
                0 <= i < flags.len() ==> flags[i] == (#[trigger] old(self)@.feeds[i]).matches(
                    key@,
                ),
        ensures
            final(self)@.feeds == old(self)@.feeds,
            final(self)@.items == old(self)@.items.filter(outlives(old(self)@, key@)),
    {
        let ghost before = self@;
        let mut items: Vec<Item> = Vec::new();
        std::mem::swap(&mut items, &mut self.items);
        let ghost all_items = items@;
        proof {
            assert(item_views(all_items.take(0)) =~= Seq::<ItemView>::empty());
            assert(item_views(self.items@) =~= Seq::<ItemView>::empty());
            reveal(Seq::filter);
        }
        for item in it: items
            invariant
                it.seq() == all_items,
                self.feeds == old(self).feeds,
                self@.feeds == before.feeds,
                flags.len() == self.feeds.len(),
                forall|i: int|
                    0 <= i < flags.len() ==> flags[i] == (#[trigger] before.feeds[i]).matches(
                        key@,
                    ),
                item_views(self.items@) == item_views(all_items.take(it.index())).filter(
                    outlives(before, key@),
                ),
        {
            let ghost k = it.index();
            let ghost seen = item_views(all_items.take(k));
            proof {
                assert(item_views(all_items.take(k + 1)) =~= seen.push(item@));
                seen.lemma_filter_push(item@, outlives(before, key@));
            }
            let gone = self.flagged_id(flags, key, &item.feed_id);
            proof {
                assert(gone == before.key_covers_id(key@, item@.feed_id));
            }
            if !gone {
                let ghost kept_before = self.items@;
                self.items.push(item);
                proof {
                    assert(item_views(self.items@) =~= item_views(kept_before).push(item@));
                }
            }
        }
        proof {
            assert(all_items.take(all_items.len() as int) == all_items);
            assert(item_views(all_items) == before.items);
        }
    }

    /// Removes the flagged feeds and returns how many they were.
    fn drop_flagged(&mut self, flags: &Vec<bool>, key: Ghost<Seq<char>>) -> (removed: usize)
        requires
            flags.len() == old(self)@.feeds.len(),
            forall|i: int|
                0 <= i < flags.len() ==> flags[i] == (#[trigger] old(self)@.feeds[i]).matches(
                    key@,
                ),
        ensures
            final(self)@.items == old(self)@.items,
            final(self)@.feeds == old(self)@.feeds.filter(passes_by(key@)),
            removed == old(self)@.feeds.len() - final(self)@.feeds.len(),
    {
        let ghost before = self@;
        let mut feeds: Vec<Feed> = Vec::new();
        std::mem::swap(&mut feeds, &mut self.feeds);
        let ghost all_feeds = feeds@;
        let mut removed: usize = 0;
        let mut k: usize = 0;
        proof {
            assert(feed_views(all_feeds.take(0)) =~= Seq::<FeedView>::empty());
            assert(feed_views(self.feeds@) =~= Seq::<FeedView>::empty());
            reveal(Seq::filter);
        }
        for f in it: feeds
            invariant
                it.seq() == all_feeds,
                self.items == old(self).items,
                feed_views(all_feeds) == before.feeds,
                flags.len() == all_feeds.len(),
                k == it.index(),
                forall|i: int|
                    0 <= i < flags.len() ==> flags[i] == (#[trigger] before.feeds[i]).matches(
                        key@,
                    ),
                feed_views(self.feeds@) == feed_views(all_feeds.take(it.index())).filter(
                    passes_by(key@),
                ),
                removed + self.feeds.len() == it.index(),
        {
            let ghost seen = feed_views(all_feeds.take(k as int));
            proof {
                assert(feed_views(all_feeds.take(k + 1)) =~= seen.push(f@));
                seen.lemma_filter_push(f@, passes_by(key@));
                assert(before.feeds[k as int] == f@);
            }
            if flags[k] {
                removed += 1;
            } else {
                let ghost kept_before = self.feeds@;
                self.feeds.push(f);
                proof {
                    assert(feed_views(self.feeds@) =~= feed_views(kept_before).push(f@));
                }
            }
            k += 1;
        }
        proof {
            assert(all_feeds.take(all_feeds.len() as int) == all_feeds);
        }
        removed
    }
}

/// Adding a feed that clashes with none keeps the store consistent.
pub proof fn lemma_with_feed_wf(s: StateView, feed: FeedView)
    requires
        s.wf(),
        !s.has_clash(feed),
    ensures
        s.with_feed(feed).wf(),
{
    let t = s.with_feed(feed);
    assert forall|i: int, j: int| 0 <= i < j < t.feeds.len() implies t.feeds[i].id
        != t.feeds[j].id && t.feeds[i].url != t.feeds[j].url by {
        if j == s.feeds.len() {
            assert(!s.feeds[i].clashes_with(feed));
        }
    }
    assert forall|k: int| 0 <= k < t.items.len() implies t.has_feed_id(
        #[trigger] t.items[k].feed_id,
    ) by {
        assert(s.has_feed_id(s.items[k].feed_id));
        let i = choose|i: int|
            0 <= i < s.feeds.len() && #[trigger] s.feeds[i].id == s.items[k].feed_id;
        assert(t.feeds[i].id == t.items[k].feed_id);
    }
}

/// Removing the feeds that answer to a key, and their items, keeps the
/// store consistent.
pub proof fn lemma_without_key_wf(s: StateView, key: Seq<char>)
    requires
        s.wf(),
    ensures
        s.without_key(key).wf(),
{
    let t = s.without_key(key);
    let pos = lemma_filter_positions(s.feeds, passes_by(key));
    assert forall|i: int, j: int| 0 <= i < j < t.feeds.len() implies t.feeds[i].id
        != t.feeds[j].id && t.feeds[i].url != t.feeds[j].url by {
        assert(pos[i] < pos[j]);
    }
    let ipos = lemma_filter_positions(s.items, outlives(s, key));
    assert forall|k: int| 0 <= k < t.items.len() implies t.has_feed_id(
        #[trigger] t.items[k].feed_id,
    ) by {
        let id = t.items[k].feed_id;
        assert(s.items[ipos[k]] == t.items[k]);
        s.items.lemma_filter_pred(outlives(s, key), k);
        assert(!s.key_covers_id(key, id));
        assert(s.has_feed_id(s.items[ipos[k]].feed_id));
        let i = choose|i: int| 0 <= i < s.feeds.len() && #[trigger] s.feeds[i].id == id;
        assert(!s.feeds[i].matches(key));
        s.feeds.lemma_filter_contains(passes_by(key), i);
        let j = choose|j: int| 0 <= j < t.feeds.len() && t.feeds[j] == s.feeds[i];
        assert(t.feeds[j].id == id);
    }
}

} // verus!
