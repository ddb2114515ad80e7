//! The first finding of a check that runs over a sequence.

use vstd::prelude::*;

verus! {

/// What `check` finds on the earliest item on which it finds anything.
pub open spec fn first_finding<A, D>(items: Seq<A>, check: spec_fn(A) -> Option<D>) -> Option<D>
    decreases items.len(),
{
    if items.len() == 0 {
        None
    } else {
        match first_finding(items.drop_last(), check) {
            Some(finding) => Some(finding),
            None => check(items.last()),
        }
    }
}

/// What the first of two checks finds, or else what the second finds.
pub open spec fn or_else<D>(first: Option<D>, second: Option<D>) -> Option<D> {
    match first {
        Some(finding) => Some(finding),
        None => second,
    }
}

/// Extending a prefix by one item adds that item's finding.
pub proof fn lemma_finding_step<A, D>(
    items: Seq<A>,
    index: int,
    check: spec_fn(A) -> Option<D>,
)
    requires
        0 <= index < items.len(),
    ensures
        first_finding(items.take(index + 1), check) == or_else(
            first_finding(items.take(index), check),
            check(items[index]),
        ),
{
    assert(items.take(index + 1).drop_last() =~= items.take(index));
    assert(items.take(index + 1).last() == items[index]);
}

/// A finding in a prefix is the finding of the whole.
pub proof fn lemma_finding_prefix<A, D>(
    items: Seq<A>,
    length: int,
    check: spec_fn(A) -> Option<D>,
)
    requires
        0 <= length <= items.len(),
        first_finding(items.take(length), check) is Some,
    ensures
        first_finding(items, check) == first_finding(items.take(length), check),
    decreases items.len() - length,
{
    if length == items.len() {
        assert(items.take(length) =~= items);
    } else {
        lemma_finding_step(items, length, check);
        lemma_finding_prefix(items, length + 1, check);
    }
}

/// Nothing is found exactly where the check finds nothing on any item.
pub proof fn lemma_no_finding<A, D>(items: Seq<A>, check: spec_fn(A) -> Option<D>)
    ensures
        first_finding(items, check) is None <==> (forall|i: int|
            0 <= i < items.len() ==> check(#[trigger] items[i]) is None),
    decreases items.len(),
{
    if items.len() > 0 {
        lemma_no_finding(items.drop_last(), check);
        let rest = items.drop_last();
        if first_finding(items, check) is None {
            assert forall|i: int| 0 <= i < items.len() implies check(
                #[trigger] items[i],
            ) is None by {
                if i < rest.len() {
                    assert(rest[i] == items[i]);
                }
            }
        }
        if forall|i: int| 0 <= i < items.len() ==> check(#[trigger] items[i]) is None {
            assert forall|i: int| 0 <= i < rest.len() implies check(#[trigger] rest[i]) is None by {
                assert(rest[i] == items[i]);
            }
            assert(items.last() == items[items.len() - 1]);
        }
    }
}

} // verus!
