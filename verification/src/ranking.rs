//! Putting things in order, with equals left as they were found.
use vstd::prelude::*;

verus! {

/// Things of which one may come before another.
pub trait Ranked: Sized {
    spec fn better(self, other: Self) -> bool;

    /// Whether this one comes first.
    fn is_better(&self, other: &Self) -> (r: bool)
        ensures
            r == self.better(*other),
    ;

    /// Coming first is an order: nothing comes before itself, and what comes
    /// first comes before all that the second does not follow.
    proof fn lemma_is_an_order(a: Self, b: Self, c: Self)
        ensures
            !a.better(a),
            a.better(b) ==> !b.better(a),
            a.better(b) && !c.better(b) ==> a.better(c),
    ;
}

/// Nothing comes behind what it is better than.
pub open spec fn ranked<T: Ranked>(list: Seq<T>) -> bool {
    forall|i: int, j: int|
        0 <= i < j < list.len() ==> !(#[trigger] list[j]).better(#[trigger] list[i])
}

/// A thing in its place among ranked ones: behind every one that it is not
/// better than.
pub open spec fn placed<T: Ranked>(list: Seq<T>, next: T) -> Seq<T>
    decreases list.len(),
{
    if list.len() > 0 && next.better(list.last()) {
        placed(list.drop_last(), next).push(list.last())
    } else {
        list.push(next)
    }
}

/// Things in order: the best first, and equals as they were found.
pub open spec fn in_order<T: Ranked>(found: Seq<T>) -> Seq<T>
    decreases found.len(),
{
    if found.len() == 0 {
        Seq::empty()
    } else {
        placed(in_order(found.drop_last()), found.last())
    }
}

/// Put things in order.
pub fn rank<T: Ranked>(found: Vec<T>) -> (r: Vec<T>)
    ensures
        r@ == in_order(found@),
        ranked(r@),
        r@.to_multiset() == found@.to_multiset(),
{
    let mut list: Vec<T> = Vec::new();
    let mut rest = found;
    let ghost all = rest@;
    proof {
        assert(list@ + rest@ =~= all);
        assert(all.take(0) =~= Seq::empty());
    }
    while rest.len() > 0
        invariant
            rest@.len() <= all.len(),
            rest@ == all.skip(all.len() - rest@.len()),
            list@ == in_order(all.take(all.len() - rest@.len())),
            ranked(list@),
            (list@ + rest@).to_multiset() == all.to_multiset(),
        decreases rest@.len(),
    {
        let ghost rest0 = rest@;
        let ghost list0 = list@;
        let next = rest.remove(0);
        let mut at: usize = list.len();
        proof {
            assert(list0.take(at as int) =~= list0);
            assert(placed(list0, next) =~= placed(list0.take(at as int), next) + list0.skip(
                at as int,
            ));
        }
        while at > 0 && next.is_better(&list[at - 1])
            invariant
                at <= list@.len(),
                list@ == list0,
                ranked(list0),
                placed(list0, next) == placed(list0.take(at as int), next) + list0.skip(at as int),
                forall|i: int| at <= i < list@.len() ==> next.better(#[trigger] list@[i]),
            decreases at,
        {
            at -= 1;
            proof {
                let shorter = list0.take(at as int);
                let longer = list0.take(at + 1);
                assert(longer.drop_last() =~= shorter);
                assert(longer.last() == list0[at as int]);
                assert(placed(longer, next) + list0.skip(at + 1) =~= placed(shorter, next)
                    + list0.skip(at as int));
            }
        }
        list.insert(at, next);
        proof {
            assert(list0.take(at as int).len() > 0 ==> list0.take(at as int).last() == list0[at
                - 1]);
            assert(placed(list0.take(at as int), next) == list0.take(at as int).push(next));
            assert(list@ =~= placed(list0, next));
            let done = all.len() - rest@.len();
            assert(all.take(done).drop_last() =~= all.take(done - 1));
            assert(all.take(done).last() == next);
            assert(rest@ =~= all.skip(done));
            lemma_inserted(list0, at as int, next);
            assert(list@ =~= list0.insert(at as int, next));
            broadcast use vstd::seq_lib::group_to_multiset_ensures;

            assert(rest0 =~= seq![next] + rest@);
            vstd::seq_lib::lemma_multiset_commutative(list0, rest0);
            vstd::seq_lib::lemma_multiset_commutative(list@, rest@);
            vstd::seq_lib::lemma_multiset_commutative(seq![next], rest@);
            assert(list@.to_multiset() =~= list0.to_multiset().insert(next));
            assert(rest0.to_multiset() =~= rest@.to_multiset().insert(next)) by {
                assert(rest0.remove(0) =~= rest@);
            }
            assert((list@ + rest@).to_multiset() =~= (list0 + rest0).to_multiset());
        }
    }
    assert(list@ + rest@ =~= list@);
    assert(all.take(all.len() as int) =~= all);
    list
}

proof fn lemma_inserted<T: Ranked>(list: Seq<T>, at: int, next: T)
    requires
        ranked(list),
        0 <= at <= list.len(),
        forall|i: int| at <= i < list.len() ==> next.better(#[trigger] list[i]),
        at > 0 ==> !next.better(list[at - 1]),
    ensures
        ranked(list.insert(at, next)),
{
    let grown = list.insert(at, next);
    assert forall|i: int, j: int| 0 <= i < j < grown.len() implies !(#[trigger] grown[j]).better(
        #[trigger] grown[i],
    ) by {
        if j == at {
            assert(grown[i] == list[i]);
            if i < at - 1 {
                assert(!list[at - 1].better(list[i]));
                T::lemma_is_an_order(next, list[i], list[at - 1]);
            }
        } else if i == at {
            assert(grown[j] == list[j - 1]);
            T::lemma_is_an_order(next, list[j - 1], next);
        } else {
            let a = if i < at {
                i
            } else {
                i - 1
            };
            let b = if j < at {
                j
            } else {
                j - 1
            };
            assert(grown[i] == list[a] && grown[j] == list[b]);
        }
    }
}

/// An item that comes next is placed behind those that it is not better than,
/// from the end, and before the others.
pub proof fn law_items_are_placed_behind_their_betters<T: Ranked>(list: Seq<T>, next: T, last: T)
    ensures
        placed(Seq::empty(), next) == seq![next],
        next.better(last) ==> placed(list.push(last), next) == placed(list, next).push(last),
        !next.better(last) ==> placed(list.push(last), next) == list.push(last).push(next),
        in_order(Seq::<T>::empty()) == Seq::<T>::empty(),
        in_order(list.push(next)) == placed(in_order(list), next),
{
    assert(list.push(last).drop_last() =~= list);
    assert(list.push(next).drop_last() =~= list);
    assert(placed(Seq::empty(), next) =~= seq![next]);
}

} // verus!
