//! Ordering by round: a stable selection, so that what has the same round keeps its
//! order.

use vstd::prelude::*;

verus! {

/// Where the first item with the lowest round stands among the first `n` items.
pub open spec fn first_lowest<T>(items: Seq<T>, round: spec_fn(T) -> u64, n: int) -> int
    decreases n,
{
    if n <= 1 {
        0
    } else {
        let m = first_lowest(items, round, n - 1);
        if round(items[n - 1]) < round(items[m]) {
            n - 1
        } else {
            m
        }
    }
}

/// The items in the order of their rounds; items of the same round keep their order.
pub open spec fn ordered_by<T>(items: Seq<T>, round: spec_fn(T) -> u64) -> Seq<T>
    decreases items.len(),
{
    if items.len() == 0 {
        Seq::empty()
    } else {
        let m = first_lowest(items, round, items.len() as int);
        if 0 <= m < items.len() {
            seq![items[m]] + ordered_by(items.remove(m), round)
        } else {
            Seq::empty()
        }
    }
}

/// The first item with the lowest round is one of the items; none before it has a
/// round as low, and none at all has a lower one.
pub proof fn lemma_first_lowest<T>(items: Seq<T>, round: spec_fn(T) -> u64, n: int)
    requires
        1 <= n <= items.len(),
    ensures
        0 <= first_lowest(items, round, n) < n,
        forall|j: int|
            0 <= j < n ==> round(items[first_lowest(items, round, n)]) <= round(
                #[trigger] items[j],
            ),
        forall|j: int|
            0 <= j < first_lowest(items, round, n) ==> round(
                items[first_lowest(items, round, n)],
            ) < round(#[trigger] items[j]),
    decreases n,
{
    if n > 1 {
        lemma_first_lowest(items, round, n - 1);
    }
}

/// Ordering keeps every item: the result is as long as the input, and begins with
/// the first item of the lowest round.
pub proof fn lemma_ordered_by<T>(items: Seq<T>, round: spec_fn(T) -> u64)
    ensures
        ordered_by(items, round).len() == items.len(),
        items.len() > 0 ==> {
            let m = first_lowest(items, round, items.len() as int);
            &&& 0 <= m < items.len()
            &&& ordered_by(items, round) == seq![items[m]] + ordered_by(items.remove(m), round)
        },
    decreases items.len(),
{
    if items.len() > 0 {
        lemma_first_lowest(items, round, items.len() as int);
        let m = first_lowest(items, round, items.len() as int);
        lemma_ordered_by(items.remove(m), round);
    }
}

/// Ordering by round loses no item and adds none.
pub proof fn law_order_permutes<T>(items: Seq<T>, round: spec_fn(T) -> u64)
    ensures
        ordered_by(items, round).to_multiset() == items.to_multiset(),
    decreases items.len(),
{
    if items.len() == 0 {
        assert(ordered_by(items, round) =~= items);
    } else {
        lemma_ordered_by(items, round);
        let m = first_lowest(items, round, items.len() as int);
        let x = items[m];
        let rest = items.remove(m);
        let ordered = ordered_by(items, round);
        let tail = ordered_by(rest, round);
        law_order_permutes(rest, round);
        assert(ordered.remove(0) =~= tail);
        ordered.to_multiset_ensures();
        items.to_multiset_ensures();
        assert(ordered.to_multiset() =~= tail.to_multiset().insert(x));
    }
}

/// After ordering by round, no item stands before one of a lower round.
pub proof fn law_order_is_ordered<T>(items: Seq<T>, round: spec_fn(T) -> u64)
    ensures
        forall|i: int, j: int|
            0 <= i < j < ordered_by(items, round).len() ==> round(
                #[trigger] ordered_by(items, round)[i],
            ) <= round(#[trigger] ordered_by(items, round)[j]),
    decreases items.len(),
{
    if items.len() > 0 {
        let n = items.len() as int;
        lemma_ordered_by(items, round);
        lemma_first_lowest(items, round, n);
        let m = first_lowest(items, round, n);
        let rest = items.remove(m);
        let ordered = ordered_by(items, round);
        let tail = ordered_by(rest, round);
        law_order_is_ordered(rest, round);
        law_order_permutes(rest, round);
        tail.to_multiset_ensures();
        rest.to_multiset_ensures();
        assert forall|i: int, j: int| 0 <= i < j < ordered.len() implies round(#[trigger] ordered[i])
            <= round(#[trigger] ordered[j]) by {
            assert(ordered[j] == tail[j - 1]);
            if i == 0 {
                assert(tail.to_multiset().count(tail[j - 1]) > 0);
                assert(rest.contains(tail[j - 1]));
                let k = choose|k: int| 0 <= k < rest.len() && rest[k] == tail[j - 1];
                if k < m {
                    assert(rest[k] == items[k]);
                } else {
                    assert(rest[k] == items[k + 1]);
                }
            } else {
                assert(ordered[i] == tail[i - 1]);
            }
        }
    }
}

/// Items that come in the order of their rounds stay as they are.
pub proof fn law_ordered_stays<T>(items: Seq<T>, round: spec_fn(T) -> u64)
    requires
        forall|i: int, j: int|
            0 <= i < j < items.len() ==> round(#[trigger] items[i]) <= round(#[trigger] items[j]),
    ensures
        ordered_by(items, round) == items,
    decreases items.len(),
{
    if items.len() > 0 {
        let n = items.len() as int;
        lemma_first_lowest(items, round, n);
        let m = first_lowest(items, round, n);
        if m > 0 {
            assert(round(items[0]) <= round(items[m]));
        }
        assert(m == 0);
        let rest = items.remove(0);
        assert forall|i: int, j: int| 0 <= i < j < rest.len() implies round(#[trigger] rest[i])
            <= round(#[trigger] rest[j]) by {
            assert(rest[i] == items[i + 1] && rest[j] == items[j + 1]);
        }
        law_ordered_stays(rest, round);
        lemma_ordered_by(items, round);
        assert(seq![items[0]] + rest =~= items);
    }
}

} // verus!
