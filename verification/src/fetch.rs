//! What a fetch brought: a parsed feed document, as the caller hands it in,
//! becomes the title and the articles that the refresh puts into the store.

use vstd::prelude::*;

use crate::refresh::{FetchedEntry, FetchedEntryView, FetchedFeed, FetchedFeedView};
use crate::state::text_of;
use crate::time::Timestamp;

verus! {

/// An article as the document gives it: every part may be missing.
#[derive(Debug, Clone, PartialEq, Eq)]
pub struct RawEntry {
    pub title: Option<String>,
    /// The addresses of the article's links, in the document's order.
    pub links: Vec<String>,
    pub published: Option<Timestamp>,
    pub updated: Option<Timestamp>,
    pub summary: Option<String>,
}

/// A feed document as its parser read it: the title and the articles, in
/// the document's order.
#[derive(Debug, Clone, PartialEq, Eq)]
pub struct RawFeed {
    pub title: Option<String>,
    pub entries: Vec<RawEntry>,
}

/// A parsed article as a mathematical value.
#[verifier::ext_equal]
pub struct RawEntryView {
    pub title: Option<Seq<char>>,
    pub links: Seq<Seq<char>>,
    pub published: Option<Timestamp>,
    pub updated: Option<Timestamp>,
    pub summary: Option<Seq<char>>,
}

/// A parsed feed document as a mathematical value.
#[verifier::ext_equal]
pub struct RawFeedView {
    pub title: Option<Seq<char>>,
    pub entries: Seq<RawEntryView>,
}

impl View for RawEntry {
    type V = RawEntryView;

    open spec fn view(&self) -> RawEntryView {
        RawEntryView {
            title: text_of(self.title),
            links: Seq::new(self.links@.len(), |i: int| self.links@[i]@),
            published: self.published,
            updated: self.updated,
            summary: text_of(self.summary),
        }
    }
}

impl View for RawFeed {
    type V = RawFeedView;

    open spec fn view(&self) -> RawFeedView {
        RawFeedView {
            title: text_of(self.title),
            entries: Seq::new(self.entries@.len(), |i: int| self.entries@[i]@),
        }
    }
}

/// The title of an article that has none.
pub open spec fn no_title() -> Seq<char> {
    "(no title)"@
}

/// The article that the store keeps of a parsed one: an article without a
/// title is called `(no title)`, and the link is the first of the
/// article's links, or empty where it has none.
pub open spec fn entry_of(raw: RawEntryView) -> FetchedEntryView {
    FetchedEntryView {
        title: match raw.title {
            Some(t) => t,
            None => no_title(),
        },
        link: if raw.links.len() > 0 {
            raw.links[0]
        } else {
            Seq::empty()
        },
        published_at: raw.published,
        updated_at: raw.updated,
        summary: raw.summary,
    }
}

/// What the store keeps of a parsed feed.
pub open spec fn fetched_of(raw: RawFeedView) -> FetchedFeedView {
    FetchedFeedView {
        title: raw.title,
        entries: Seq::new(raw.entries.len(), |i: int| entry_of(raw.entries[i])),
    }
}

/// What the store keeps of a parsed article.
fn entry_from(raw: RawEntry) -> (e: FetchedEntry)
    ensures
        e@ == entry_of(raw@),
{
    let ghost rv = raw@;
    let RawEntry { title, links, published, updated, summary } = raw;
    let mut links = links;
    let title = match title {
        Some(t) => t,
        None => "(no title)".to_owned(),
    };
    let link = if links.len() > 0 {
        links.swap_remove(0)
    } else {
        String::new()
    };
    let e = FetchedEntry { title, link, published_at: published, updated_at: updated, summary };
    proof {
        assert(e@ =~= entry_of(rv));
    }
    e
}

/// What the store keeps of a parsed feed: its title and its articles, in
/// the document's order.
pub fn fetched_from(raw: RawFeed) -> (feed: FetchedFeed)
    ensures
        feed@ == fetched_of(raw@),
{
    let ghost rv = raw@;
    let RawFeed { title, entries } = raw;
    let ghost all = entries@;
    let mut out: Vec<FetchedEntry> = Vec::new();
    for e in it: entries
        invariant
            it.seq() == all,
            out.len() == it.index(),
            forall|i: int| 0 <= i < out.len() ==> (#[trigger] out[i])@ == entry_of(all[i]@),
    {
        out.push(entry_from(e));
    }
    let feed = FetchedFeed { title, entries: out };
    proof {
        assert(feed@.entries =~= fetched_of(rv).entries);
        assert(feed@ =~= fetched_of(rv));
    }
    feed
}

} // verus!
