//! Sorting by rank that keeps items of the same rank in their order.

use vstd::prelude::*;

use crate::ordered::{
    lemma_precedes_irreflexive, lemma_precedes_transitive, precedes, relate, Relation,
};

verus! {

/// An item with a rank by which lists of such items are sorted.
pub trait Ranked: Sized {
    /// The rank of this item.
    spec fn rank(&self) -> Seq<u32>;

    /// Returns the rank of this item.
    fn rank_codes(&self) -> (codes: Vec<u32>)
        ensures
            codes@ == self.rank(),
    ;
}

/// The place, from `at` on, of the first item whose rank stands after `rank`.
pub open spec fn rank_place<T: Ranked>(list: Seq<T>, rank: Seq<u32>, at: int) -> int
    decreases list.len() - at,
{
    if at >= list.len() || precedes(rank, list[at].rank()) {
        at
    } else {
        rank_place(list, rank, at + 1)
    }
}

/// The first `count` items sorted by rank; items of the same rank stay in their order.
pub open spec fn ranked<T: Ranked>(list: Seq<T>, count: int) -> Seq<T>
    decreases count,
{
    if count <= 0 {
        Seq::empty()
    } else {
        let before = ranked(list, count - 1);
        before.insert(rank_place(before, list[count - 1].rank(), 0), list[count - 1])
    }
}

/// Whether no item stands after an item of a higher rank.
pub open spec fn is_ranked<T: Ranked>(list: Seq<T>) -> bool {
    forall|i: int, j: int|
        0 <= i < j < list.len() ==> !precedes(
            (#[trigger] list[j]).rank(),
            (#[trigger] list[i]).rank(),
        )
}

proof fn lemma_rank_place<T: Ranked>(list: Seq<T>, rank: Seq<u32>, at: int)
    requires
        0 <= at <= list.len(),
    ensures
        at <= rank_place(list, rank, at) <= list.len(),
        forall|i: int|
            at <= i < rank_place(list, rank, at) ==> !precedes(rank, (#[trigger] list[i]).rank()),
        rank_place(list, rank, at) < list.len() ==> precedes(
            rank,
            list[rank_place(list, rank, at)].rank(),
        ),
    decreases list.len() - at,
{
    if at < list.len() && !precedes(rank, list[at].rank()) {
        lemma_rank_place(list, rank, at + 1);
    }
}

/// Sorting gives the same items, in the order of their ranks.
pub proof fn lemma_ranked<T: Ranked>(list: Seq<T>, count: int)
    requires
        0 <= count <= list.len(),
    ensures
        ranked(list, count).len() == count,
        is_ranked(ranked(list, count)),
        ranked(list, count).to_multiset() == list.take(count).to_multiset(),
    decreases count,
{
    broadcast use vstd::seq_lib::group_to_multiset_ensures;

    if count > 0 {
        lemma_ranked(list, count - 1);
        let before = ranked(list, count - 1);
        let item = list[count - 1];
        lemma_rank_place(before, item.rank(), 0);
        let place = rank_place(before, item.rank(), 0);
        let after = before.insert(place, item);
        assert forall|i: int, j: int| 0 <= i < j < after.len() implies !precedes(
            (#[trigger] after[j]).rank(),
            (#[trigger] after[i]).rank(),
        ) by {
            if j < place {
                assert(after[i] == before[i] && after[j] == before[j]);
            } else if j == place {
                assert(after[i] == before[i]);
            } else if i < place {
                assert(after[i] == before[i] && after[j] == before[j - 1]);
            } else if i == place {
                assert(after[j] == before[j - 1]);
                if precedes(after[j].rank(), item.rank()) {
                    lemma_precedes_transitive(after[j].rank(), item.rank(), before[place].rank());
                    if j - 1 == place {
                        lemma_precedes_irreflexive(before[place].rank());
                    }
                }
            } else {
                assert(after[i] == before[i - 1] && after[j] == before[j - 1]);
            }
        }
        assert(list.take(count) =~= list.take(count - 1).push(item));
        vstd::seq_lib::to_multiset_insert(before, place, item);
    } else {
        assert(list.take(0) =~= Seq::<T>::empty());
    }
}

/// The place, from `at` on, of the first value whose rank stands after `rank`.
pub open spec fn value_place<M>(
    list: Seq<M>,
    rank_of: spec_fn(M) -> Seq<u32>,
    rank: Seq<u32>,
    at: int,
) -> int
    decreases list.len() - at,
{
    if at >= list.len() || precedes(rank, rank_of(list[at])) {
        at
    } else {
        value_place(list, rank_of, rank, at + 1)
    }
}

/// The first `count` values sorted by rank; values of the same rank stay in their order.
pub open spec fn arranged<M>(list: Seq<M>, rank_of: spec_fn(M) -> Seq<u32>, count: int) -> Seq<M>
    decreases count,
{
    if count <= 0 {
        Seq::empty()
    } else {
        let before = arranged(list, rank_of, count - 1);
        before.insert(
            value_place(before, rank_of, rank_of(list[count - 1]), 0),
            list[count - 1],
        )
    }
}

proof fn lemma_value_place<T: Ranked, M>(
    list: Seq<T>,
    view: spec_fn(T) -> M,
    rank_of: spec_fn(M) -> Seq<u32>,
    rank: Seq<u32>,
    at: int,
)
    requires
        0 <= at <= list.len(),
        forall|item: T| rank_of(#[trigger] view(item)) == item.rank(),
    ensures
        value_place(list.map_values(view), rank_of, rank, at) == rank_place(list, rank, at),
    decreases list.len() - at,
{
    if at < list.len() {
        assert(list.map_values(view)[at] == view(list[at]));
        if !precedes(rank, list[at].rank()) {
            lemma_value_place(list, view, rank_of, rank, at + 1);
        }
    }
}

/// Sorting items sorts their values.
pub proof fn lemma_arranged<T: Ranked, M>(
    list: Seq<T>,
    view: spec_fn(T) -> M,
    rank_of: spec_fn(M) -> Seq<u32>,
    count: int,
)
    requires
        0 <= count <= list.len(),
        forall|item: T| rank_of(#[trigger] view(item)) == item.rank(),
    ensures
        ranked(list, count).map_values(view) == arranged(list.map_values(view), rank_of, count),
    decreases count,
{
    if count > 0 {
        lemma_arranged(list, view, rank_of, count - 1);
        let before = ranked(list, count - 1);
        let item = list[count - 1];
        lemma_value_place(before, view, rank_of, item.rank(), 0);
        lemma_rank_place(before, item.rank(), 0);
        assert(list.map_values(view)[count - 1] == view(item));
        let place = rank_place(before, item.rank(), 0);
        assert(before.insert(place, item).map_values(view) =~= before.map_values(view).insert(
            place,
            view(item),
        ));
    } else {
        assert(ranked(list, count).map_values(view) =~= Seq::<M>::empty());
    }
}

/// Sorts a list by rank; items of the same rank stay in their order.
pub fn sort_ranked<T: Ranked>(list: Vec<T>) -> (sorted: Vec<T>)
    ensures
        sorted@ == ranked(list@, list@.len() as int),
{
    let ghost all = list@;
    let total: usize = list.len();
    let mut rest = list;
    let mut sorted: Vec<T> = Vec::new();
    let mut count: usize = 0;
    assert(all.skip(0) =~= all);
    while rest.len() > 0
        invariant
            total == all.len(),
            count <= all.len(),
            rest@ == all.skip(count as int),
            sorted@ == ranked(all, count as int),
        decreases rest@.len(),
    {
        let item = rest.remove(0);
        proof {
            assert(item == all[count as int]);
            assert(rest@ =~= all.skip(count + 1));
        }
        let rank = item.rank_codes();
        let mut place: usize = 0;
        let mut found = false;
        while place < sorted.len() && !found
            invariant
                rank@ == item.rank(),
                place <= sorted@.len(),
                rank_place(sorted@, item.rank(), 0) == rank_place(
                    sorted@,
                    item.rank(),
                    place as int,
                ),
                found ==> rank_place(sorted@, item.rank(), 0) == place,
            decreases sorted@.len() - place + (if found {
                0int
            } else {
                1int
            }),
        {
            let other = sorted[place].rank_codes();
            if let Relation::Before = relate(&rank, &other) {
                found = true;
            } else {
                place += 1;
            }
        }
        assert(rank_place(sorted@, item.rank(), 0) == place);
        sorted.insert(place, item);
        proof {
            assert(all.skip(count as int).len() > 0);
        }
        count += 1;
    }
    assert(count == all.len());
    sorted
}

} // verus!
