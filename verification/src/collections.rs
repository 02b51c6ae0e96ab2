//! Removing the items of a vector that satisfy a predicate.

use vstd::prelude::*;

verus! {

broadcast use {vstd::seq_lib::group_to_multiset_ensures, vstd::multiset::group_multiset_properties};

/// Removing the element at `i` by moving the last element into its place
/// leaves exactly the other elements, as a multiset.
proof fn lemma_swap_remove_multiset<T>(s: Seq<T>, i: int)
    requires
        0 <= i < s.len(),
    ensures
        s.update(i, s.last()).drop_last().to_multiset().insert(s[i]) =~= s.to_multiset(),
{
    let t = s.update(i, s.last());
    let m = s.to_multiset();
    assert(t =~= t.drop_last().push(t.last()));
    vstd::seq_lib::to_multiset_build(t.drop_last(), t.last());
    vstd::seq_lib::to_multiset_update(s, i, s.last());
    assert(m.count(s[i]) > 0) by {
        vstd::seq_lib::to_multiset_contains(s, s[i]);
        assert(s.contains(s[i]));
    }
    let d = t.drop_last().to_multiset();
    assert(d.insert(s.last()) == m.insert(s.last()).remove(s[i]));
    assert forall|v: T| #[trigger] d.insert(s[i]).count(v) == m.count(v) by {
        assert(d.insert(s.last()).count(v) == m.insert(s.last()).remove(s[i]).count(v));
    }
    assert(d.insert(s[i]) =~= m);
}

/// The ways in which scanning `s` from position `i` can end, with `kept`
/// left in place and `drained` taken out in order: an item on which the
/// predicate holds is taken out and the last item moved into its place (and
/// examined next); an item on which it does not hold is passed over.
///
/// Where the predicate gives one answer per item, exactly one pair `(kept,
/// drained)` satisfies this; the relation also covers predicates whose answer
/// may change from one call to the next.
pub open spec fn swap_drains<T, P: Fn(&T) -> bool>(
    predicate: P,
    s: Seq<T>,
    i: nat,
    kept: Seq<T>,
    drained: Seq<T>,
) -> bool
    decreases 2 * s.len() - i,
{
    if i >= s.len() {
        kept == s && drained.len() == 0
    } else {
        ||| call_ensures(predicate, (&s[i as int],), true) && drained.len() > 0 && drained[0] == s[i as int]
            && swap_drains(predicate, s.update(i as int, s.last()).drop_last(), i, kept, drained.drop_first())
        ||| call_ensures(predicate, (&s[i as int],), false) && swap_drains(predicate, s, i + 1, kept, drained)
    }
}

/// One step of `swap_drains`, spelled out (for predicates given as closures,
/// whose definition Verus does not unfold by itself).
pub proof fn lemma_swap_drains_unfold<T, P: Fn(&T) -> bool>(
    predicate: P,
    s: Seq<T>,
    i: nat,
    kept: Seq<T>,
    drained: Seq<T>,
)
    ensures
        i >= s.len() ==> (swap_drains(predicate, s, i, kept, drained) == (kept == s && drained.len()
            == 0)),
        i < s.len() ==> (swap_drains(predicate, s, i, kept, drained) == ((call_ensures(
            predicate,
            (&s[i as int],),
            true,
        ) && drained.len() > 0 && drained[0] == s[i as int] && swap_drains(
            predicate,
            s.update(i as int, s.last()).drop_last(),
            i,
            kept,
            drained.drop_first(),
        )) || (call_ensures(predicate, (&s[i as int],), false) && swap_drains(
            predicate,
            s,
            i + 1,
            kept,
            drained,
        )))),
{
}

/// Moves every item of `items` on which `predicate` holds into the returned
/// vector; the items on which it does not hold stay in `items`.
///
/// An item is taken out by moving the last item into its place, which is then
/// examined next; the order of both vectors is the one `swap_drains` gives.
/// Together they hold exactly the initial items.
pub fn drain_filter<T, P>(items: &mut Vec<T>, predicate: P) -> (drained: Vec<T>)
    where
        P: Fn(&T) -> bool,
    requires
        forall|i: int| 0 <= i < old(items).len() ==> call_requires(predicate, (&old(items)[i],)),
    ensures
        final(items)@.to_multiset().add(drained@.to_multiset()) =~= old(items)@.to_multiset(),
        forall|i: int|
            0 <= i < drained.len() ==> call_ensures(predicate, (&drained[i],), true),
        forall|i: int|
            0 <= i < final(items).len() ==> call_ensures(predicate, (&final(items)[i],), false),
        swap_drains(predicate, old(items)@, 0, final(items)@, drained@),
{
    let ghost initial = items@;
    let mut drained_values: Vec<T> = Vec::new();
    let mut i: usize = 0;
    while i < items.len()
        invariant
            i <= items.len(),
            items@.to_multiset().add(drained_values@.to_multiset()) =~= initial.to_multiset(),
            forall|j: int| 0 <= j < items.len() ==> call_requires(predicate, (&items[j],)),
            forall|j: int|
                0 <= j < drained_values.len() ==> call_ensures(
                    predicate,
                    (&drained_values[j],),
                    true,
                ),
            forall|j: int| 0 <= j < i ==> call_ensures(predicate, (&items[j],), false),
            forall|kept: Seq<T>, rest: Seq<T>|
                #[trigger] swap_drains(predicate, items@, i as nat, kept, rest) ==> swap_drains(
                    predicate,
                    initial,
                    0,
                    kept,
                    drained_values@ + rest,
                ),
        decreases items.len() - i,
    {
        if predicate(&items[i]) {
            let ghost before = items@;
            let ghost before_drained = drained_values@;
            let x = items.swap_remove(i);
            proof {
                lemma_swap_remove_multiset(before, i as int);
                assert(before.update(i as int, before.last()).drop_last() == items@);
            }
            drained_values.push(x);
            proof {
                assert(drained_values@ == before_drained.push(x));
                assert forall|kept: Seq<T>, rest: Seq<T>|
                    #[trigger] swap_drains(predicate, items@, i as nat, kept, rest) implies swap_drains(
                        predicate,
                        initial,
                        0,
                        kept,
                        drained_values@ + rest,
                    ) by {
                    let longer = seq![x] + rest;
                    assert(longer.drop_first() =~= rest);
                    assert(swap_drains(predicate, before, i as nat, kept, longer));
                    assert(before_drained + longer =~= drained_values@ + rest);
                }
                assert(items@.to_multiset().add(drained_values@.to_multiset()) =~= before.to_multiset().add(
                    before_drained.to_multiset(),
                ));
            }
        } else {
            i += 1;
            proof {
                assert forall|kept: Seq<T>, rest: Seq<T>|
                    #[trigger] swap_drains(predicate, items@, i as nat, kept, rest) implies swap_drains(
                        predicate,
                        initial,
                        0,
                        kept,
                        drained_values@ + rest,
                    ) by {
                    let j: nat = (i - 1) as nat;
                    assert(j + 1 == i as nat);
                    assert(call_ensures(predicate, (&items@[j as int],), false));
                    assert(swap_drains(predicate, items@, j, kept, rest));
                }
            }
        }
    }
    proof {
        assert(swap_drains(predicate, items@, i as nat, items@, Seq::<T>::empty()));
        assert(drained_values@ + Seq::<T>::empty() =~= drained_values@);
    }
    drained_values
}

} // verus!
