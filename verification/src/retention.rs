//! The cap on how many items the store keeps of one feed.

use vstd::prelude::*;

use crate::seq_lemmas::lemma_filter_remove;
use crate::state::{item_views, Item, ItemView};

verus! {

/// Holds of the items of the feed `id`.
pub open spec fn of_feed(id: Seq<char>) -> spec_fn(ItemView) -> bool {
    |it: ItemView| it.feed_id == id
}

/// Holds of the items of every feed but `id`.
pub open spec fn of_other_feeds(id: Seq<char>) -> spec_fn(ItemView) -> bool {
    |it: ItemView| it.feed_id != id
}

/// How many items of `items` belong to the feed `id`.
pub open spec fn count_of(items: Seq<ItemView>, id: Seq<char>) -> nat {
    items.filter(of_feed(id)).len()
}

/// The position of the item that the feed `id` loses first when it has too
/// many: its oldest item by effective date, and among several of that date
/// the one that stands last. It is -1 where the feed has no item.
pub open spec fn oldest_of(items: Seq<ItemView>, id: Seq<char>) -> int
    decreases items.len(),
{
    if items.len() == 0 {
        -1
    } else {
        let before = oldest_of(items.drop_last(), id);
        let last = items.len() - 1;
        if items[last].feed_id == id && (before < 0 || !items[last].effective_date().after(
            items[before].effective_date(),
        )) {
            last
        } else {
            before
        }
    }
}

/// `items` after the feed `id` has lost its oldest item `n` times.
pub open spec fn drop_oldest(items: Seq<ItemView>, id: Seq<char>, n: nat) -> Seq<ItemView>
    decreases n,
{
    if n == 0 || oldest_of(items, id) < 0 {
        items
    } else {
        drop_oldest(items.remove(oldest_of(items, id)), id, (n - 1) as nat)
    }
}

/// `items` with the feed `id` cut down to its `max` newest items. Where
/// the feed has more, it loses its oldest item until `max` are left; items
/// of one date go in the reverse of the order in which they stand. Nothing
/// else moves.
pub open spec fn trimmed_history(items: Seq<ItemView>, id: Seq<char>, max: nat) -> Seq<ItemView> {
    if count_of(items, id) <= max {
        items
    } else {
        drop_oldest(items, id, (count_of(items, id) - max) as nat)
    }
}

/// What `oldest_of` finds: an item of the feed where the feed has one; no
/// item of the feed is older; and every item of the feed behind it is
/// newer.
pub proof fn lemma_oldest_of(items: Seq<ItemView>, id: Seq<char>)
    ensures
        -1 <= oldest_of(items, id) < items.len(),
        oldest_of(items, id) < 0 <==> count_of(items, id) == 0,
        oldest_of(items, id) >= 0 ==> items[oldest_of(items, id)].feed_id == id,
        forall|q: int|
            0 <= q < items.len() && (#[trigger] items[q]).feed_id == id ==> {
                &&& oldest_of(items, id) >= 0
                &&& items[q].effective_date().at_or_after(
                    items[oldest_of(items, id)].effective_date(),
                )
                &&& q > oldest_of(items, id) ==> items[q].effective_date().after(
                    items[oldest_of(items, id)].effective_date(),
                )
            },
    decreases items.len(),
{
    broadcast use Seq::lemma_filter_push;

    reveal(Seq::filter);
    if items.len() > 0 {
        let head = items.drop_last();
        lemma_oldest_of(head, id);
        assert(items =~= head.push(items.last()));
        let before = oldest_of(head, id);
        let p = oldest_of(items, id);
        let last = items.len() - 1;
        if before >= 0 {
            assert(head[before] == items[before]);
        }
        assert forall|q: int|
            0 <= q < items.len() && (#[trigger] items[q]).feed_id == id implies {
            &&& p >= 0
            &&& items[q].effective_date().at_or_after(items[p].effective_date())
            &&& q > p ==> items[q].effective_date().after(items[p].effective_date())
        } by {
            if q < head.len() {
                assert(head[q] == items[q]);
                assert(before >= 0);
                assert(head[q].effective_date().at_or_after(head[before].effective_date()));
            }
        }
    }
}

/// Losing its oldest items takes from a feed as many items as asked for, as
/// far as it has them, and leaves the other feeds as they were.
pub proof fn lemma_drop_oldest(items: Seq<ItemView>, id: Seq<char>, n: nat)
    ensures
        count_of(drop_oldest(items, id, n), id) == if n <= count_of(items, id) {
            count_of(items, id) - n
        } else {
            0
        },
        drop_oldest(items, id, n).filter(of_other_feeds(id)) == items.filter(of_other_feeds(id)),
        forall|other: Seq<char>|
            other != id ==> #[trigger] drop_oldest(items, id, n).filter(of_feed(other))
                == items.filter(of_feed(other)),
        forall|k: int|
            0 <= k < drop_oldest(items, id, n).len() ==> items.contains(
                #[trigger] drop_oldest(items, id, n)[k],
            ),
    decreases n,
{
    lemma_oldest_of(items, id);
    let p = oldest_of(items, id);
    if n > 0 && p >= 0 {
        let rest = items.remove(p);
        lemma_filter_remove(items, p, of_feed(id));
        lemma_filter_remove(items, p, of_other_feeds(id));
        lemma_drop_oldest(rest, id, (n - 1) as nat);
        let r = drop_oldest(items, id, n);
        assert forall|k: int| 0 <= k < r.len() implies items.contains(#[trigger] r[k]) by {
            assert(rest.contains(r[k]));
            let m = choose|m: int| 0 <= m < rest.len() && rest[m] == r[k];
            if m < p {
                assert(items[m] == r[k]);
            } else {
                assert(items[m + 1] == r[k]);
            }
        }
        assert forall|other: Seq<char>| other != id implies #[trigger] drop_oldest(
            items,
            id,
            n,
        ).filter(of_feed(other)) == items.filter(of_feed(other)) by {
            lemma_filter_remove(items, p, of_feed(other));
        }
    }
}

/// A feed cut down to `max` items has at most `max` items, and no more
/// than it had; the other feeds are as they were.
pub proof fn lemma_trimmed_history(items: Seq<ItemView>, id: Seq<char>, max: nat)
    ensures
        count_of(trimmed_history(items, id, max), id) <= max,
        count_of(trimmed_history(items, id, max), id) == if count_of(items, id) <= max {
            count_of(items, id)
        } else {
            max
        },
        trimmed_history(items, id, max).filter(of_other_feeds(id)) == items.filter(
            of_other_feeds(id),
        ),
        forall|other: Seq<char>|
            other != id ==> #[trigger] trimmed_history(items, id, max).filter(of_feed(other))
                == items.filter(of_feed(other)),
        forall|k: int|
            0 <= k < trimmed_history(items, id, max).len() ==> items.contains(
                #[trigger] trimmed_history(items, id, max)[k],
            ),
{
    if count_of(items, id) > max {
        lemma_drop_oldest(items, id, (count_of(items, id) - max) as nat);
    }
}

/// The items that the feed `id` loses when it loses its oldest item `n`
/// times, in the order in which they go.
pub open spec fn dropped_by(items: Seq<ItemView>, id: Seq<char>, n: nat) -> Seq<ItemView>
    decreases n,
{
    if n == 0 || oldest_of(items, id) < 0 {
        Seq::empty()
    } else {
        seq![items[oldest_of(items, id)]] + dropped_by(
            items.remove(oldest_of(items, id)),
            id,
            (n - 1) as nat,
        )
    }
}

/// What goes is never newer than what stays: every item that the feed
/// loses is one of its items, and no item that the feed keeps is older
/// than an item that it loses.
pub proof fn lemma_drop_oldest_keeps_newest(items: Seq<ItemView>, id: Seq<char>, n: nat)
    ensures
        drop_oldest(items, id, n).len() + dropped_by(items, id, n).len() == items.len(),
        forall|d: int|
            0 <= d < dropped_by(items, id, n).len() ==> (#[trigger] dropped_by(items, id, n)[d]).feed_id
                == id && items.contains(dropped_by(items, id, n)[d]),
        forall|k: int, d: int|
            0 <= k < drop_oldest(items, id, n).len() && (#[trigger] drop_oldest(
                items,
                id,
                n,
            )[k]).feed_id == id && 0 <= d < dropped_by(items, id, n).len()
                ==> drop_oldest(items, id, n)[k].effective_date().at_or_after(
                (#[trigger] dropped_by(items, id, n)[d]).effective_date(),
            ),
    decreases n,
{
    lemma_oldest_of(items, id);
    lemma_drop_oldest(items, id, n);
    let p = oldest_of(items, id);
    let kept = drop_oldest(items, id, n);
    let gone = dropped_by(items, id, n);
    if n > 0 && p >= 0 {
        let rest = items.remove(p);
        lemma_drop_oldest_keeps_newest(rest, id, (n - 1) as nat);
        lemma_drop_oldest(rest, id, (n - 1) as nat);
        let gone_later = dropped_by(rest, id, (n - 1) as nat);
        assert forall|m: int| 0 <= m < rest.len() implies items.contains(#[trigger] rest[m]) by {
            if m < p {
                assert(items[m] == rest[m]);
            } else {
                assert(items[m + 1] == rest[m]);
            }
        }
        assert forall|d: int| 0 <= d < gone.len() implies (#[trigger] gone[d]).feed_id == id
            && items.contains(gone[d]) by {
            if d == 0 {
                assert(gone[0] == items[p]);
            } else {
                assert(gone[d] == gone_later[d - 1]);
                assert(rest.contains(gone_later[d - 1]));
                let m = choose|m: int| 0 <= m < rest.len() && rest[m] == gone_later[d - 1];
                assert(items.contains(rest[m]));
            }
        }
        assert forall|k: int, d: int|
            0 <= k < kept.len() && (#[trigger] kept[k]).feed_id == id && 0 <= d
                < gone.len() implies kept[k].effective_date().at_or_after(
            (#[trigger] gone[d]).effective_date(),
        ) by {
            if d == 0 {
                assert(gone[0] == items[p]);
                assert(rest.contains(kept[k]));
                let m = choose|m: int| 0 <= m < rest.len() && rest[m] == kept[k];
                assert(items.contains(rest[m]));
                let q = choose|q: int| 0 <= q < items.len() && items[q] == kept[k];
                assert(items[q].feed_id == id);
            } else {
                assert(gone[d] == gone_later[d - 1]);
            }
        }
    }
}

/// The feed cut down to `max` items keeps its newest: no item that it
/// keeps is older than an item that it loses.
pub proof fn lemma_trimmed_history_keeps_newest(items: Seq<ItemView>, id: Seq<char>, max: nat)
    requires
        count_of(items, id) > max,
    ensures
        trimmed_history(items, id, max).len() + (count_of(items, id) - max) == items.len(),
        dropped_by(items, id, (count_of(items, id) - max) as nat).len() == count_of(items, id)
            - max,
        forall|k: int, d: int|
            0 <= k < trimmed_history(items, id, max).len() && (#[trigger] trimmed_history(
                items,
                id,
                max,
            )[k]).feed_id == id && 0 <= d < count_of(items, id) - max ==> trimmed_history(
                items,
                id,
                max,
            )[k].effective_date().at_or_after(
                (#[trigger] dropped_by(
                    items,
                    id,
                    (count_of(items, id) - max) as nat,
                )[d]).effective_date(),
            ),
{
    let n = (count_of(items, id) - max) as nat;
    lemma_drop_oldest_keeps_newest(items, id, n);
    lemma_drop_oldest(items, id, n);
    lemma_dropped_len(items, id, n);
}

/// A feed loses as many items as asked for, as far as it has them.
pub proof fn lemma_dropped_len(items: Seq<ItemView>, id: Seq<char>, n: nat)
    ensures
        dropped_by(items, id, n).len() == if n <= count_of(items, id) {
            n
        } else {
            count_of(items, id)
        },
    decreases n,
{
    lemma_oldest_of(items, id);
    let p = oldest_of(items, id);
    if n > 0 && p >= 0 {
        lemma_filter_remove(items, p, of_feed(id));
        lemma_dropped_len(items.remove(p), id, (n - 1) as nat);
    }
}

/// How many items of the feed `id` there are.
pub fn count_items_of(items: &Vec<Item>, id: &String) -> (n: usize)
    ensures
        n == count_of(item_views(items@), id@),
{
    let mut n: usize = 0;
    let mut i: usize = 0;
    proof {
        assert(item_views(items@.take(0)) =~= Seq::<ItemView>::empty());
        reveal(Seq::filter);
    }
    while i < items.len()
        invariant
            i <= items.len(),
            n <= i,
            n == count_of(item_views(items@.take(i as int)), id@),
        decreases items.len() - i,
    {
        proof {
            let seen = item_views(items@.take(i as int));
            assert(item_views(items@.take(i + 1)) =~= seen.push(items@[i as int]@));
            seen.lemma_filter_push(items@[i as int]@, of_feed(id@));
        }
        if items[i].feed_id == *id {
            n += 1;
        }
        i += 1;
    }
    proof {
        assert(items@.take(i as int) == items@);
    }
    n
}

/// The position of the oldest item of the feed `id`, the last of several.
fn find_oldest(items: &Vec<Item>, id: &String) -> (p: usize)
    requires
        count_of(item_views(items@), id@) > 0,
    ensures
        p == oldest_of(item_views(items@), id@),
{
    let mut found: usize = 0;
    let mut any = false;
    let mut i: usize = 0;
    proof {
        assert(item_views(items@.take(0)) =~= Seq::<ItemView>::empty());
    }
    while i < items.len()
        invariant
            i <= items.len(),
            any ==> found < i && found == oldest_of(item_views(items@.take(i as int)), id@),
            !any ==> oldest_of(item_views(items@.take(i as int)), id@) < 0,
        decreases items.len() - i,
    {
        proof {
            let seen = item_views(items@.take(i as int));
            let next = item_views(items@.take(i + 1));
            assert(next.drop_last() =~= seen);
            assert(next[i as int] == items@[i as int]@);
            if any {
                assert(next[found as int] == items@[found as int]@);
            }
        }
        if items[i].feed_id == *id {
            if !any || !items[i].effective_date().is_after(&items[found].effective_date()) {
                found = i;
                any = true;
            }
        }
        i += 1;
    }
    proof {
        assert(items@.take(i as int) == items@);
        lemma_oldest_of(item_views(items@), id@);
    }
    found
}

/// Cuts the feed `id` down to its `max` newest items by effective date.
/// Of several items of one date the ones that stand first stay. The items
/// of other feeds, and the order of what stays, are as they were.
pub fn trim_history(items: &mut Vec<Item>, id: &String, max: usize)
    ensures
        item_views(final(items)@) == trimmed_history(item_views(old(items)@), id@, max as nat),
        count_of(item_views(final(items)@), id@) <= max,
        item_views(final(items)@).filter(of_other_feeds(id@)) == item_views(old(items)@).filter(
            of_other_feeds(id@),
        ),
{
    let mut count = count_items_of(items, id);
    proof {
        lemma_trimmed_history(item_views(items@), id@, max as nat);
    }
    while count > max
        invariant
            count == count_of(item_views(items@), id@),
            count_of(item_views(old(items)@), id@) > max ==> count >= max && trimmed_history(
                item_views(old(items)@),
                id@,
                max as nat,
            ) == drop_oldest(item_views(items@), id@, (count - max) as nat),
            count_of(item_views(old(items)@), id@) <= max ==> items@ == old(items)@,
        decreases count,
    {
        let ghost cur = item_views(items@);
        proof {
            lemma_oldest_of(cur, id@);
        }
        let p = find_oldest(items, id);
        items.remove(p);
        proof {
            assert(item_views(items@) =~= cur.remove(p as int));
            lemma_filter_remove(cur, p as int, of_feed(id@));
        }
        count -= 1;
    }
}

} // verus!
