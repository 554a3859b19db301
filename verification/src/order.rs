//! The order in which items are shown: newest first, by effective date.

use vstd::prelude::*;

use crate::state::{Item, ItemView};
use crate::time::Timestamp;

verus! {

impl ItemView {
    /// The date that an item is ranked by: when it was published, else
    /// when it was updated, else when it was first seen.
    pub open spec fn effective_date(self) -> Timestamp {
        match self.published_at {
            Some(t) => t,
            None => match self.updated_at {
                Some(t) => t,
                None => self.first_seen_at,
            },
        }
    }
}

impl Item {
    /// The date that the item is ranked by.
    pub fn effective_date(&self) -> (t: Timestamp)
        ensures
            t == self@.effective_date(),
    {
        match self.published_at {
            Some(t) => t,
            None => match self.updated_at {
                Some(t) => t,
                None => self.first_seen_at,
            },
        }
    }
}

/// The views of a sequence of borrowed items.
pub open spec fn views_of(items: Seq<&Item>) -> Seq<ItemView> {
    Seq::new(items.len(), |i: int| items[i]@)
}

/// No item of `s` is older than an item before it.
pub open spec fn is_newest_first(s: Seq<ItemView>) -> bool {
    forall|i: int, j: int|
        0 <= i < j < s.len() ==> s[i].effective_date().at_or_after(s[j].effective_date())
}

/// Holds of the items whose effective date is `d`.
pub open spec fn dated(d: Timestamp) -> spec_fn(ItemView) -> bool {
    |it: ItemView| it.effective_date() == d
}

/// `s`, which is newest first, with `x` put behind every item that is not
/// older than `x`.
pub open spec fn insert_by_date(s: Seq<ItemView>, x: ItemView) -> Seq<ItemView>
    decreases s.len(),
{
    if s.len() == 0 {
        seq![x]
    } else if s.last().effective_date().at_or_after(x.effective_date()) {
        s.push(x)
    } else {
        insert_by_date(s.drop_last(), x).push(s.last())
    }
}

/// The items of `s` newest first; items of the same date stay in the order
/// in which `s` has them.
pub open spec fn newest_first(s: Seq<ItemView>) -> Seq<ItemView>
    decreases s.len(),
{
    if s.len() == 0 {
        s
    } else {
        insert_by_date(newest_first(s.drop_last()), s.last())
    }
}

/// Inserting keeps every item and adds the new one, and keeps a sequence
/// that is newest first in that order.
pub proof fn lemma_insert_by_date(s: Seq<ItemView>, x: ItemView)
    ensures
        insert_by_date(s, x).len() == s.len() + 1,
        insert_by_date(s, x).to_multiset() == s.to_multiset().insert(x),
        forall|k: int|
            0 <= k < s.len() + 1 ==> (#[trigger] insert_by_date(s, x)[k]) == x || s.contains(
                insert_by_date(s, x)[k],
            ),
        is_newest_first(s) ==> is_newest_first(insert_by_date(s, x)),
    decreases s.len(),
{
    broadcast use vstd::seq_lib::group_to_multiset_ensures;

    let r = insert_by_date(s, x);
    if s.len() == 0 {
        assert(r =~= Seq::<ItemView>::empty().push(x));
        assert(s =~= Seq::<ItemView>::empty());
    } else if s.last().effective_date().at_or_after(x.effective_date()) {
        assert forall|k: int| 0 <= k < s.len() + 1 implies (#[trigger] r[k]) == x || s.contains(
            r[k],
        ) by {
            if k < s.len() {
                assert(s[k] == r[k]);
            }
        }
        if is_newest_first(s) {
            assert forall|i: int, j: int| 0 <= i < j < r.len() implies r[i].effective_date().at_or_after(
                r[j].effective_date(),
            ) by {
                if j == s.len() && i < s.len() - 1 {
                    assert(s[i].effective_date().at_or_after(s[s.len() - 1].effective_date()));
                }
            }
        }
    } else {
        let head = s.drop_last();
        let inner = insert_by_date(head, x);
        lemma_insert_by_date(head, x);
        assert(s =~= head.push(s.last()));
        assert(r.to_multiset() == s.to_multiset().insert(x)) by {
            assert(r.to_multiset() =~= inner.to_multiset().insert(s.last()));
            assert(s.to_multiset() =~= head.to_multiset().insert(s.last()));
            assert(head.to_multiset().insert(x).insert(s.last()) =~= head.to_multiset().insert(
                s.last(),
            ).insert(x));
        }
        assert forall|k: int| 0 <= k < s.len() + 1 implies (#[trigger] r[k]) == x || s.contains(
            r[k],
        ) by {
            if k < inner.len() {
                assert(r[k] == inner[k]);
                if inner[k] != x {
                    assert(head.contains(inner[k]));
                    let m = choose|m: int| 0 <= m < head.len() && head[m] == inner[k];
                    assert(s[m] == r[k]);
                }
            } else {
                assert(s[s.len() - 1] == r[k]);
            }
        }
        if is_newest_first(s) {
            assert(is_newest_first(head)) by {
                assert forall|i: int, j: int| 0 <= i < j < head.len() implies head[i].effective_date().at_or_after(
                    head[j].effective_date(),
                ) by {
                    assert(head[i] == s[i] && head[j] == s[j]);
                }
            }
            assert forall|i: int, j: int| 0 <= i < j < r.len() implies r[i].effective_date().at_or_after(
                r[j].effective_date(),
            ) by {
                if j < inner.len() {
                    assert(r[i] == inner[i] && r[j] == inner[j]);
                } else {
                    assert(r[j] == s.last());
                    assert(r[i] == inner[i]);
                    if inner[i] != x {
                        assert(head.contains(inner[i]));
                        let m = choose|m: int| 0 <= m < head.len() && head[m] == inner[i];
                        assert(s[m] == inner[i]);
                        assert(s[m].effective_date().at_or_after(s[s.len() - 1].effective_date()));
                    }
                }
            }
        }
    }
}

/// Among the items of one date, inserting puts the new item last.
pub proof fn lemma_insert_by_date_filter(s: Seq<ItemView>, x: ItemView, d: Timestamp)
    ensures
        insert_by_date(s, x).filter(dated(d)) == if x.effective_date() == d {
            s.filter(dated(d)).push(x)
        } else {
            s.filter(dated(d))
        },
    decreases s.len(),
{
    broadcast use Seq::lemma_filter_push;

    if s.len() == 0 {
        assert(insert_by_date(s, x) =~= s.push(x));
    } else if s.last().effective_date().at_or_after(x.effective_date()) {
    } else {
        let head = s.drop_last();
        lemma_insert_by_date_filter(head, x, d);
        assert(s =~= head.push(s.last()));
    }
}

/// The newest-first order is newest first, holds the same items as many
/// times, and keeps the items of each date in the order they had.
pub proof fn lemma_newest_first(s: Seq<ItemView>)
    ensures
        is_newest_first(newest_first(s)),
        newest_first(s).len() == s.len(),
        newest_first(s).to_multiset() == s.to_multiset(),
        forall|d: Timestamp| #[trigger] newest_first(s).filter(dated(d)) == s.filter(dated(d)),
    decreases s.len(),
{
    broadcast use vstd::seq_lib::group_to_multiset_ensures;
    broadcast use Seq::lemma_filter_push;

    if s.len() > 0 {
        let head = s.drop_last();
        lemma_newest_first(head);
        lemma_insert_by_date(newest_first(head), s.last());
        assert(s =~= head.push(s.last()));
        assert forall|d: Timestamp| #[trigger]
            newest_first(s).filter(dated(d)) == s.filter(dated(d)) by {
            lemma_insert_by_date_filter(newest_first(head), s.last(), d);
        }
    }
}

/// Sorts `items` newest first by effective date. Items of the same date
/// keep the order they had.
pub fn sort_items_newest_first<'a>(items: &mut Vec<&'a Item>)
    ensures
        views_of(final(items)@) == newest_first(views_of(old(items)@)),
        final(items)@.len() == old(items)@.len(),
        is_newest_first(views_of(final(items)@)),
        forall|d: Timestamp| #[trigger]
            views_of(final(items)@).filter(dated(d)) == views_of(old(items)@).filter(dated(d)),
{
    let mut sorted: Vec<&'a Item> = Vec::new();
    let mut i: usize = 0;
    proof {
        assert(views_of(items@.take(0)) =~= Seq::<ItemView>::empty());
        assert(views_of(sorted@) =~= Seq::<ItemView>::empty());
    }
    while i < items.len()
        invariant
            i <= items.len(),
            items@ == old(items)@,
            views_of(sorted@) == newest_first(views_of(items@.take(i as int))),
        decreases items.len() - i,
    {
        let x: &'a Item = items[i];
        let date = x.effective_date();
        let ghost before = views_of(sorted@);
        let mut p: usize = sorted.len();
        proof {
            assert(sorted@.take(p as int) == sorted@);
            assert(views_of(sorted@.skip(p as int)) =~= Seq::<ItemView>::empty());
            assert(insert_by_date(before, x@) + Seq::<ItemView>::empty() == insert_by_date(
                before,
                x@,
            ));
        }
        while p > 0 && !sorted[p - 1].effective_date().is_at_or_after(&date)
            invariant
                p <= sorted.len(),
                date == x@.effective_date(),
                before == views_of(sorted@),
                insert_by_date(before, x@) == insert_by_date(
                    views_of(sorted@.take(p as int)),
                    x@,
                ) + views_of(sorted@.skip(p as int)),
            decreases p,
        {
            proof {
                let cur = views_of(sorted@.take(p as int));
                assert(cur.last() == sorted@[p - 1]@);
                assert(cur.drop_last() =~= views_of(sorted@.take(p - 1)));
                assert(insert_by_date(cur, x@) == insert_by_date(cur.drop_last(), x@).push(
                    cur.last(),
                ));
                assert(views_of(sorted@.skip(p - 1)) =~= seq![cur.last()] + views_of(
                    sorted@.skip(p as int),
                ));
                assert(insert_by_date(cur.drop_last(), x@).push(cur.last()) + views_of(
                    sorted@.skip(p as int),
                ) =~= insert_by_date(cur.drop_last(), x@) + (seq![cur.last()] + views_of(
                    sorted@.skip(p as int),
                )));
            }
            p -= 1;
        }
        proof {
            let cur = views_of(sorted@.take(p as int));
            if p > 0 {
                assert(cur.last() == sorted@[p - 1]@);
            }
            assert(insert_by_date(cur, x@) == cur.push(x@)) by {
                if p == 0 {
                    assert(cur =~= Seq::<ItemView>::empty());
                    assert(insert_by_date(cur, x@) =~= cur.push(x@));
                }
            }
        }
        sorted.insert(p, x);
        proof {
            assert(views_of(sorted@) =~= insert_by_date(before, x@)) by {
                assert(views_of(sorted@) =~= views_of(sorted@.take(p as int)).push(x@)
                    + views_of(sorted@.skip(p + 1)));
            }
            assert(views_of(items@.take(i + 1)) =~= views_of(items@.take(i as int)).push(x@));
            assert(views_of(items@.take(i + 1)).drop_last() =~= views_of(items@.take(i as int)));
        }
        i += 1;
    }
    proof {
        assert(items@.take(i as int) == items@);
        lemma_newest_first(views_of(old(items)@));
    }
    *items = sorted;
}

} // verus!
