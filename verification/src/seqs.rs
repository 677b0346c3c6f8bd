//! Facts about filtered sequences that loops over them rest on.
use vstd::prelude::*;

verus! {

/// How a filtered prefix grows by one item.
pub proof fn lemma_filter_step<A>(items: Seq<A>, keep: spec_fn(A) -> bool, i: int)
    requires
        0 <= i < items.len(),
    ensures
        items.take(i + 1).filter(keep) == if keep(items[i]) {
            items.take(i).filter(keep).push(items[i])
        } else {
            items.take(i).filter(keep)
        },
{
    reveal(Seq::filter);
    assert(items.take(i + 1).drop_last() =~= items.take(i));
}

/// A whole prefix is the sequence.
pub proof fn lemma_take_all<A>(items: Seq<A>)
    ensures
        items.take(items.len() as int) == items,
        items.take(0) == Seq::<A>::empty(),
{
    assert(items.take(items.len() as int) =~= items);
    assert(items.take(0) =~= Seq::<A>::empty());
}

/// What a prefix holds that is longer by one item.
pub proof fn lemma_take_holds<A>(items: Seq<A>, i: int)
    requires
        0 <= i < items.len(),
    ensures
        forall|x: A| #[trigger]
            items.take(i + 1).contains(x) <==> items.take(i).contains(x) || x == items[i],
{
    let shorter = items.take(i);
    let longer = items.take(i + 1);
    assert(longer =~= shorter.push(items[i]));
    assert forall|x: A| #[trigger] longer.contains(x) <==> shorter.contains(x) || x == items[i] by {
        if shorter.contains(x) {
            let k = choose|k: int| 0 <= k < shorter.len() && shorter[k] == x;
            assert(longer[k] == x);
        }
        if x == items[i] {
            assert(longer[i] == x);
        }
    }
}

/// What a filtered sequence holds.
pub proof fn lemma_filter_holds<A>(items: Seq<A>, keep: spec_fn(A) -> bool)
    ensures
        forall|x: A| #[trigger] items.filter(keep).contains(x) <==> items.contains(x) && keep(x),
{
    broadcast use vstd::seq_lib::group_filter_ensures;

    assert forall|x: A| #[trigger] items.filter(keep).contains(x) <==> items.contains(x) && keep(
        x,
    ) by {
        if items.filter(keep).contains(x) {
            items.lemma_filter_contains_rev(keep, x);
            let k = choose|k: int| 0 <= k < items.filter(keep).len() && items.filter(keep)[k] == x;
            assert(keep(items.filter(keep)[k]));
        }
        if items.contains(x) && keep(x) {
            let k = choose|k: int| 0 <= k < items.len() && items[k] == x;
            assert(items.filter(keep).contains(items[k]));
        }
    }
}

/// A relation between every two items, the earlier first, survives a filter.
pub proof fn lemma_filter_keeps_order<A>(
    items: Seq<A>,
    keep: spec_fn(A) -> bool,
    related: spec_fn(A, A) -> bool,
)
    requires
        forall|i: int, j: int|
            0 <= i < j < items.len() ==> #[trigger] related(items[i], items[j]),
    ensures
        forall|i: int, j: int|
            0 <= i < j < items.filter(keep).len() ==> #[trigger] related(
                items.filter(keep)[i],
                items.filter(keep)[j],
            ),
    decreases items.len(),
{
    reveal(Seq::filter);
    if items.len() > 0 {
        let front = items.drop_last();
        assert forall|i: int, j: int| 0 <= i < j < front.len() implies #[trigger] related(
            front[i],
            front[j],
        ) by {
            assert(related(items[i], items[j]));
        }
        lemma_filter_keeps_order(front, keep, related);
        let kept = front.filter(keep);
        if keep(items.last()) {
            assert forall|i: int, j: int|
                0 <= i < j < items.filter(keep).len() implies #[trigger] related(
                items.filter(keep)[i],
                items.filter(keep)[j],
            ) by {
                if j == kept.len() {
                    lemma_filter_holds(front, keep);
                    assert(kept.contains(kept[i]));
                    let k = choose|k: int| 0 <= k < front.len() && front[k] == kept[i];
                    assert(related(items[k], items[items.len() - 1]));
                } else {
                    assert(related(kept[i], kept[j]));
                }
            }
        }
    }
}

} // verus!
