//! Facts about filtered sequences that the store's proofs share.

use vstd::prelude::*;

verus! {

/// Every element of a filtered sequence comes from the sequence, and
/// elements keep their order.
pub proof fn lemma_filter_positions<A>(s: Seq<A>, pred: spec_fn(A) -> bool) -> (pos: Seq<int>)
    ensures
        pos.len() == s.filter(pred).len(),
        forall|i: int|
            0 <= i < pos.len() ==> 0 <= #[trigger] pos[i] < s.len() && s[pos[i]] == s.filter(
                pred,
            )[i],
        forall|i: int, j: int| 0 <= i < j < pos.len() ==> pos[i] < pos[j],
    decreases s.len(),
{
    reveal(Seq::filter);
    if s.len() == 0 {
        Seq::empty()
    } else {
        let rest = lemma_filter_positions(s.drop_last(), pred);
        if pred(s.last()) {
            rest.push(s.len() - 1)
        } else {
            rest
        }
    }
}

/// Filtering a sequence with one element taken out.
pub proof fn lemma_filter_remove<A>(s: Seq<A>, p: int, pred: spec_fn(A) -> bool)
    requires
        0 <= p < s.len(),
    ensures
        !pred(s[p]) ==> s.remove(p).filter(pred) == s.filter(pred),
        pred(s[p]) ==> s.remove(p).filter(pred).len() + 1 == s.filter(pred).len(),
{
    broadcast use Seq::filter_distributes_over_add;
    broadcast use Seq::lemma_filter_push;

    let a = s.take(p);
    let b = s.skip(p + 1);
    let one = Seq::<A>::empty().push(s[p]);
    assert(s =~= a + one + b);
    assert(s.remove(p) =~= a + b);
    assert(Seq::<A>::empty().filter(pred) =~= Seq::<A>::empty()) by {
        reveal(Seq::filter);
    }
    assert(s.filter(pred) == a.filter(pred) + one.filter(pred) + b.filter(pred));
    if !pred(s[p]) {
        assert(a.filter(pred) + one.filter(pred) + b.filter(pred) =~= a.filter(pred) + b.filter(
            pred,
        ));
    }
}

/// A filter that every element passes changes nothing.
pub proof fn lemma_filter_all<A>(s: Seq<A>, pred: spec_fn(A) -> bool)
    requires
        forall|i: int| 0 <= i < s.len() ==> pred(#[trigger] s[i]),
    ensures
        s.filter(pred) == s,
    decreases s.len(),
{
    broadcast use Seq::lemma_filter_push;

    reveal(Seq::filter);
    if s.len() > 0 {
        let head = s.drop_last();
        assert forall|i: int| 0 <= i < head.len() implies pred(#[trigger] head[i]) by {
            assert(head[i] == s[i]);
        }
        lemma_filter_all(head, pred);
        assert(s =~= head.push(s.last()));
    }
}

/// A filter that no element passes leaves nothing.
pub proof fn lemma_filter_none<A>(s: Seq<A>, pred: spec_fn(A) -> bool)
    requires
        forall|i: int| 0 <= i < s.len() ==> !pred(#[trigger] s[i]),
    ensures
        s.filter(pred) == Seq::<A>::empty(),
    decreases s.len(),
{
    broadcast use Seq::lemma_filter_push;

    reveal(Seq::filter);
    if s.len() > 0 {
        let head = s.drop_last();
        assert forall|i: int| 0 <= i < head.len() implies !pred(#[trigger] head[i]) by {
            assert(head[i] == s[i]);
        }
        lemma_filter_none(head, pred);
        assert(s =~= head.push(s.last()));
    }
}

/// Filtering twice, the second time by a condition that implies the first,
/// is filtering by the second alone.
pub proof fn lemma_filter_twice<A>(s: Seq<A>, first: spec_fn(A) -> bool, second: spec_fn(A) -> bool)
    requires
        forall|x: A| #[trigger] second(x) ==> first(x),
    ensures
        s.filter(first).filter(second) == s.filter(second),
    decreases s.len(),
{
    broadcast use Seq::lemma_filter_push;

    reveal(Seq::filter);
    if s.len() > 0 {
        let head = s.drop_last();
        lemma_filter_twice(head, first, second);
        assert(s =~= head.push(s.last()));
    }
}

/// Filtering by a condition and then by one that excludes it leaves
/// nothing.
pub proof fn lemma_filter_disjoint<A>(
    s: Seq<A>,
    first: spec_fn(A) -> bool,
    second: spec_fn(A) -> bool,
)
    requires
        forall|x: A| #[trigger] first(x) ==> !second(x),
    ensures
        s.filter(first).filter(second) == Seq::<A>::empty(),
{
    let f = s.filter(first);
    assert forall|i: int| 0 <= i < f.len() implies !second(#[trigger] f[i]) by {
        s.lemma_filter_pred(first, i);
    }
    lemma_filter_none(f, second);
}

} // verus!
