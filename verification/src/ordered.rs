//! Sorted collections without repetition.
//!
//! Items are ordered by a key, a sequence of codes compared from its beginning. A string's key
//! is the sequence of its code points, so strings stand in their usual order.

use vstd::prelude::*;
use vstd::utf8::char_u32_cast;

use crate::text::chars_of;

verus! {

/// Whether `left` stands before `right` in dictionary order.
pub open spec fn precedes(left: Seq<u32>, right: Seq<u32>) -> bool
    decreases left.len(),
{
    if right.len() == 0 {
        false
    } else if left.len() == 0 {
        true
    } else if left[0] != right[0] {
        left[0] < right[0]
    } else {
        precedes(left.drop_first(), right.drop_first())
    }
}

/// No key stands before itself.
pub proof fn lemma_precedes_irreflexive(key: Seq<u32>)
    ensures
        !precedes(key, key),
    decreases key.len(),
{
    if key.len() > 0 {
        lemma_precedes_irreflexive(key.drop_first());
    }
}

/// Dictionary order is transitive.
pub proof fn lemma_precedes_transitive(a: Seq<u32>, b: Seq<u32>, c: Seq<u32>)
    requires
        precedes(a, b),
        precedes(b, c),
    ensures
        precedes(a, c),
    decreases a.len(),
{
    if a.len() > 0 && a[0] == b[0] && b[0] == c[0] {
        lemma_precedes_transitive(a.drop_first(), b.drop_first(), c.drop_first());
    }
}

/// Of two different keys one stands before the other.
pub proof fn lemma_precedes_total(a: Seq<u32>, b: Seq<u32>)
    ensures
        precedes(a, b) || precedes(b, a) || a == b,
    decreases a.len(),
{
    if a.len() > 0 && b.len() > 0 && a[0] == b[0] {
        lemma_precedes_total(a.drop_first(), b.drop_first());
        if a.drop_first() == b.drop_first() {
            assert(a =~= seq![a[0]] + a.drop_first());
            assert(b =~= seq![b[0]] + b.drop_first());
        }
    } else if a.len() == 0 && b.len() == 0 {
        assert(a =~= b);
    }
}

/// Dictionary order depends on the first place where two keys differ.
proof fn lemma_precedes_at(left: Seq<u32>, right: Seq<u32>, at: int)
    requires
        0 <= at <= left.len(),
        at <= right.len(),
        left.take(at) == right.take(at),
    ensures
        precedes(left, right) == precedes(left.skip(at), right.skip(at)),
    decreases at,
{
    if at == 0 {
        assert(left.skip(0) =~= left);
        assert(right.skip(0) =~= right);
    } else {
        assert(left.take(at)[0] == left[0] && right.take(at)[0] == right[0]);
        assert(left.drop_first().take(at - 1) =~= left.take(at).drop_first());
        assert(right.drop_first().take(at - 1) =~= right.take(at).drop_first());
        lemma_precedes_at(left.drop_first(), right.drop_first(), at - 1);
        assert(left.drop_first().skip(at - 1) =~= left.skip(at));
        assert(right.drop_first().skip(at - 1) =~= right.skip(at));
    }
}

/// How two keys compare.
#[derive(Clone, Copy, Debug, PartialEq, Eq, Structural)]
pub enum Relation {
    /// The first key stands before the second.
    Before,
    /// The keys are equal.
    Same,
    /// The first key stands after the second.
    After,
}

/// Compares two keys in dictionary order.
pub fn relate(left: &Vec<u32>, right: &Vec<u32>) -> (relation: Relation)
    ensures
        relation == Relation::Before <==> precedes(left@, right@),
        relation == Relation::After <==> precedes(right@, left@),
        relation == Relation::Same <==> left@ == right@,
{
    let mut index: usize = 0;
    proof {
        lemma_precedes_irreflexive(left@);
        lemma_precedes_irreflexive(right@);
        if precedes(left@, right@) && precedes(right@, left@) {
            lemma_precedes_transitive(left@, right@, left@);
        }
    }
    while index < left.len() && index < right.len()
        invariant
            index <= left@.len(),
            index <= right@.len(),
            left@.take(index as int) == right@.take(index as int),
            !precedes(left@, left@),
            !precedes(right@, right@),
            !(precedes(left@, right@) && precedes(right@, left@)),
        decreases left@.len() - index,
    {
        if left[index] != right[index] {
            proof {
                lemma_precedes_at(left@, right@, index as int);
                lemma_precedes_at(right@, left@, index as int);
            }
            if left[index] < right[index] {
                return Relation::Before;
            }
            return Relation::After;
        }
        index += 1;
        assert(left@.take(index as int) =~= left@.take(index - 1).push(left@[index - 1]));
        assert(right@.take(index as int) =~= right@.take(index - 1).push(right@[index - 1]));
    }
    proof {
        lemma_precedes_at(left@, right@, index as int);
        lemma_precedes_at(right@, left@, index as int);
    }
    if left.len() == right.len() {
        assert(left@.take(index as int) =~= left@);
        assert(right@.take(index as int) =~= right@);
        Relation::Same
    } else if left.len() < right.len() {
        Relation::Before
    } else {
        Relation::After
    }
}

/// The code points of a string.
pub open spec fn codes(text: Seq<char>) -> Seq<u32> {
    text.map_values(|character: char| character as u32)
}

/// Strings with the same code points are the same.
pub proof fn lemma_codes_injective(left: Seq<char>, right: Seq<char>)
    requires
        codes(left) == codes(right),
    ensures
        left == right,
{
    assert(left.len() == codes(left).len());
    assert(right.len() == codes(right).len());
    assert forall|i: int| 0 <= i < left.len() implies left[i] == right[i] by {
        assert(codes(left)[i] == left[i] as u32);
        assert(codes(right)[i] == right[i] as u32);
        char_u32_cast(left[i], codes(left)[i]);
        char_u32_cast(right[i], codes(right)[i]);
    }
    assert(left =~= right);
}

/// Returns the code points of a string.
pub fn codes_of(text: &str) -> (result: Vec<u32>)
    ensures
        result@ == codes(text@),
{
    let chars = chars_of(text);
    let mut result: Vec<u32> = Vec::new();
    let mut index: usize = 0;
    while index < chars.len()
        invariant
            chars@ == text@,
            index <= chars@.len(),
            result@ == codes(text@).take(index as int),
        decreases chars@.len() - index,
    {
        result.push(chars[index] as u32);
        index += 1;
        assert(result@ =~= codes(text@).take(index as int));
    }
    assert(codes(text@).take(index as int) =~= codes(text@));
    result
}

/// An item that a sorted collection can hold.
pub trait Keyed: Sized {
    /// The mathematical value of an item.
    type Model;

    /// The value of this item.
    spec fn model(&self) -> Self::Model;

    /// The key by which a value is ordered and found.
    spec fn key(model: Self::Model) -> Seq<u32>;

    /// Returns the key of this item.
    fn key_codes(&self) -> (result: Vec<u32>)
        ensures
            result@ == Self::key(self.model()),
    ;

    /// Returns an item of the same value.
    fn duplicate(&self) -> (copy: Self)
        ensures
            copy.model() == self.model(),
    ;
}

impl Keyed for String {
    type Model = Seq<char>;

    open spec fn model(&self) -> Seq<char> {
        self@
    }

    open spec fn key(model: Seq<char>) -> Seq<u32> {
        codes(model)
    }

    fn key_codes(&self) -> (result: Vec<u32>) {
        codes_of(self.as_str())
    }

    fn duplicate(&self) -> (copy: Self) {
        self.clone()
    }
}

/// The values of a sequence of items.
pub open spec fn models<T: Keyed>(items: Seq<T>) -> Seq<T::Model> {
    items.map_values(|item: T| item.model())
}

/// Whether each value's key stands before the keys of all later values.
pub open spec fn ascending<T: Keyed>(values: Seq<T::Model>) -> bool {
    forall|i: int, j: int|
        0 <= i < j < values.len() ==> precedes(
            T::key(#[trigger] values[i]),
            T::key(#[trigger] values[j]),
        )
}

/// Whether a value with key `key` is among `values`.
pub open spec fn holds_key<T: Keyed>(values: Seq<T::Model>, key: Seq<u32>) -> bool {
    exists|i: int| 0 <= i < values.len() && T::key(#[trigger] values[i]) == key
}

/// A collection sorted by key, with at most one item of each key.
#[derive(Debug, PartialEq, Eq)]
pub struct Sorted<T: Keyed> {
    items: Vec<T>,
}

impl<T: Keyed> Sorted<T> {
    #[verifier::type_invariant]
    pub closed spec fn in_order(self) -> bool {
        ascending::<T>(models(self.items@))
    }

    /// The values in order.
    pub closed spec fn view(&self) -> Seq<T::Model> {
        models(self.items@)
    }

    /// Creates an empty collection.
    pub fn new() -> (result: Self)
        ensures
            result@ == Seq::<T::Model>::empty(),
    {
        let result = Sorted { items: Vec::new() };
        assert(result@ =~= Seq::<T::Model>::empty());
        result
    }

    /// The values of a collection are in ascending order.
    pub fn use_order(&self)
        ensures
            ascending::<T>(self@),
    {
        proof {
            use_type_invariant(self);
        }
    }

    /// Returns the number of items.
    pub fn len(&self) -> (length: usize)
        ensures
            length == self@.len(),
    {
        self.items.len()
    }

    /// Returns whether the collection holds nothing.
    pub fn is_empty(&self) -> (empty: bool)
        ensures
            empty == (self@.len() == 0),
    {
        self.items.len() == 0
    }

    /// Returns the item at `index`.
    pub fn at(&self, index: usize) -> (item: &T)
        requires
            index < self@.len(),
        ensures
            item.model() == self@[index as int],
    {
        &self.items[index]
    }

    /// Returns the items in order.
    pub fn items(&self) -> (items: &Vec<T>)
        ensures
            models(items@) == self@,
            ascending::<T>(self@),
    {
        proof {
            use_type_invariant(self);
        }
        &self.items
    }

    /// Finds the item whose key is `key`.
    pub fn find(&self, key: &Vec<u32>) -> (found: Option<usize>)
        ensures
            match found {
                Some(index) => index < self@.len() && T::key(self@[index as int]) == key@,
                None => !holds_key::<T>(self@, key@),
            },
    {
        let mut index: usize = 0;
        while index < self.items.len()
            invariant
                index <= self@.len(),
                self@.len() == self.items@.len(),
                forall|i: int| 0 <= i < index ==> T::key(#[trigger] self@[i]) != key@,
            decreases self.items@.len() - index,
        {
            let codes = self.items[index].key_codes();
            assert(self@[index as int] == self.items@[index as int].model());
            if let Relation::Same = relate(&codes, key) {
                return Some(index);
            }
            index += 1;
        }
        None
    }

    /// Returns whether an item has the key `key`.
    pub fn contains_key(&self, key: &Vec<u32>) -> (found: bool)
        ensures
            found == holds_key::<T>(self@, key@),
    {
        self.find(key).is_some()
    }

    /// Adds `item` at its place unless an item with its key is there; returns whether it was
    /// added.
    pub fn insert(&mut self, item: T) -> (added: bool)
        ensures
            added == !holds_key::<T>(old(self)@, T::key(item.model())),
            ascending::<T>(final(self)@),
            !added ==> final(self)@ == old(self)@,
            added ==> exists|at: int|
                0 <= at <= old(self)@.len() && final(self)@ == #[trigger] old(self)@.insert(
                    at,
                    item.model(),
                ),
            forall|value: T::Model| #[trigger]
                final(self)@.contains(value) <==> old(self)@.contains(value) || (added && value
                    == item.model()),
    {
        proof {
            use_type_invariant(&*self);
        }
        let key = item.key_codes();
        let ghost before = self@;
        let mut at: usize = 0;
        let mut present = false;
        while at < self.items.len() && !present
            invariant
                self@ == before,
                self@ == models(self.items@),
                at <= self.items@.len(),
                before.len() == self.items@.len(),
                key@ == T::key(item.model()),
                forall|i: int| 0 <= i < at ==> precedes(T::key(#[trigger] before[i]), key@),
                present ==> at < before.len() && T::key(before[at as int]) == key@,
                ascending::<T>(before),
            ensures
                present || at == before.len() || precedes(key@, T::key(before[at as int])),
            decreases self.items@.len() - at + (if present {
                0int
            } else {
                1int
            }),
        {
            let codes = self.items[at].key_codes();
            assert(before[at as int] == self.items@[at as int].model());
            match relate(&codes, &key) {
                Relation::Before => {
                    at += 1;
                },
                Relation::Same => {
                    present = true;
                },
                Relation::After => {
                    break;
                },
            }
        }
        if present {
            return false;
        }
        proof {
            assert forall|i: int| 0 <= i < before.len() implies T::key(#[trigger] before[i])
                != key@ by {
                if i < at {
                    lemma_precedes_irreflexive(key@);
                } else if i == at {
                    lemma_precedes_irreflexive(key@);
                } else {
                    lemma_precedes_transitive(
                        key@,
                        T::key(before[at as int]),
                        T::key(before[i]),
                    );
                    lemma_precedes_irreflexive(key@);
                }
            }
        }
        let ghost value = item.model();
        let ghost items = self.items@;
        proof {
            let after = before.insert(at as int, value);
            assert forall|i: int, j: int| 0 <= i < j < after.len() implies precedes(
                T::key(#[trigger] after[i]),
                T::key(#[trigger] after[j]),
            ) by {
                if j < at {
                    assert(after[i] == before[i] && after[j] == before[j]);
                } else if j == at {
                    assert(after[i] == before[i]);
                } else if i < at {
                    assert(after[i] == before[i] && after[j] == before[j - 1]);
                } else if i == at {
                    assert(after[j] == before[j - 1]);
                    if j - 1 > at {
                        lemma_precedes_transitive(
                            key@,
                            T::key(before[at as int]),
                            T::key(before[j - 1]),
                        );
                    }
                } else {
                    assert(after[i] == before[i - 1] && after[j] == before[j - 1]);
                }
            }
            assert(models(items.insert(at as int, item)) =~= after);
            assert forall|other: T::Model| #[trigger]
                after.contains(other) <==> before.contains(other) || other == value by {
                if before.contains(other) {
                    let k = choose|k: int| 0 <= k < before.len() && before[k] == other;
                    if k < at {
                        assert(after[k] == other);
                    } else {
                        assert(after[k + 1] == other);
                    }
                }
                if other == value {
                    assert(after[at as int] == value);
                }
                if after.contains(other) {
                    let k = choose|k: int| 0 <= k < after.len() && after[k] == other;
                    if k < at {
                        assert(before[k] == other);
                    } else if k > at {
                        assert(before[k - 1] == other);
                    }
                }
            }
        }
        let mut grown: Vec<T> = Vec::new();
        assert(ascending::<T>(models(grown@)));
        core::mem::swap(&mut self.items, &mut grown);
        grown.insert(at, item);
        self.items = grown;
        true
    }

    /// Returns a collection of the same values.
    pub fn duplicate(&self) -> (copy: Self)
        ensures
            copy@ == self@,
    {
        proof {
            use_type_invariant(self);
        }
        let mut items: Vec<T> = Vec::new();
        let mut index: usize = 0;
        while index < self.items.len()
            invariant
                index <= self.items@.len(),
                items@.len() == index,
                forall|i: int|
                    0 <= i < index ==> (#[trigger] items@[i]).model() == self.items@[i].model(),
            decreases self.items@.len() - index,
        {
            items.push(self.items[index].duplicate());
            index += 1;
        }
        assert(models(items@) =~= models(self.items@));
        Sorted { items }
    }
}

/// In an ascending sequence different places have different keys.
pub proof fn lemma_ascending_distinct<T: Keyed>(values: Seq<T::Model>)
    requires
        ascending::<T>(values),
    ensures
        forall|i: int, j: int|
            0 <= i < values.len() && 0 <= j < values.len() && i != j ==> T::key(
                #[trigger] values[i],
            ) != T::key(#[trigger] values[j]),
{
    assert forall|i: int, j: int|
        0 <= i < values.len() && 0 <= j < values.len() && i != j implies T::key(
        #[trigger] values[i],
    ) != T::key(#[trigger] values[j]) by {
        lemma_precedes_irreflexive(T::key(values[i]));
        lemma_precedes_irreflexive(T::key(values[j]));
        if i < j {
            assert(precedes(T::key(values[i]), T::key(values[j])));
        } else {
            assert(precedes(T::key(values[j]), T::key(values[i])));
        }
    }
}

/// Two ascending sequences that hold the same values are equal.
pub proof fn lemma_ascending_extensional<T: Keyed>(left: Seq<T::Model>, right: Seq<T::Model>)
    requires
        ascending::<T>(left),
        ascending::<T>(right),
        forall|value: T::Model| left.contains(value) <==> right.contains(value),
    ensures
        left == right,
    decreases left.len(),
{
    if left.len() == 0 {
        if right.len() > 0 {
            assert(right.contains(right[0]));
            assert(left.contains(right[0]));
        }
        assert(left =~= right);
    } else {
        assert(left.contains(left.last()));
        assert(right.contains(left.last()));
        assert(right.len() > 0);
        assert(right.contains(right.last()));
        assert(left.contains(right.last()));
        lemma_ascending_distinct::<T>(left);
        lemma_ascending_distinct::<T>(right);
        let i = choose|i: int| 0 <= i < left.len() && left[i] == right.last();
        let j = choose|j: int| 0 <= j < right.len() && right[j] == left.last();
        if left.last() != right.last() {
            assert(i < left.len() - 1);
            assert(j < right.len() - 1);
            assert(precedes(T::key(left[i]), T::key(left[left.len() - 1])));
            assert(precedes(T::key(right[j]), T::key(right[right.len() - 1])));
            lemma_precedes_transitive(
                T::key(left.last()),
                T::key(right.last()),
                T::key(left.last()),
            );
            lemma_precedes_irreflexive(T::key(left.last()));
        }
        let shorter_left = left.drop_last();
        let shorter_right = right.drop_last();
        assert(ascending::<T>(shorter_left)) by {
            assert forall|i: int, j: int| 0 <= i < j < shorter_left.len() implies precedes(
                T::key(#[trigger] shorter_left[i]),
                T::key(#[trigger] shorter_left[j]),
            ) by {
                assert(shorter_left[i] == left[i] && shorter_left[j] == left[j]);
            }
        }
        assert(ascending::<T>(shorter_right)) by {
            assert forall|i: int, j: int| 0 <= i < j < shorter_right.len() implies precedes(
                T::key(#[trigger] shorter_right[i]),
                T::key(#[trigger] shorter_right[j]),
            ) by {
                assert(shorter_right[i] == right[i] && shorter_right[j] == right[j]);
            }
        }
        assert forall|value: T::Model| shorter_left.contains(value) <==> shorter_right.contains(
            value,
        ) by {
            if shorter_left.contains(value) {
                let k = choose|k: int| 0 <= k < shorter_left.len() && shorter_left[k] == value;
                assert(left[k] == value);
                assert(left.contains(value));
                assert(right.contains(value));
                let m = choose|m: int| 0 <= m < right.len() && right[m] == value;
                if m == right.len() - 1 {
                    assert(left[k] == left[left.len() - 1]);
                    assert(false);
                }
                assert(shorter_right[m] == value);
            }
            if shorter_right.contains(value) {
                let k = choose|k: int| 0 <= k < shorter_right.len() && shorter_right[k] == value;
                assert(right[k] == value);
                assert(right.contains(value));
                assert(left.contains(value));
                let m = choose|m: int| 0 <= m < left.len() && left[m] == value;
                if m == left.len() - 1 {
                    assert(right[k] == right[right.len() - 1]);
                    assert(false);
                }
                assert(shorter_left[m] == value);
            }
        }
        lemma_ascending_extensional::<T>(shorter_left, shorter_right);
        assert(left =~= shorter_left.push(left.last()));
        assert(right =~= shorter_right.push(right.last()));
    }
}

/// An item whose key determines its value.
pub trait Distinct: Keyed {
    /// Values with the same key are the same.
    proof fn key_injective(left: Self::Model, right: Self::Model)
        requires
            Self::key(left) == Self::key(right),
        ensures
            left == right,
    ;
}

impl Distinct for String {
    proof fn key_injective(left: Seq<char>, right: Seq<char>) {
        lemma_codes_injective(left, right);
    }
}

/// Where keys determine values, holding a key is holding its value.
pub proof fn lemma_holds_value<T: Distinct>(values: Seq<T::Model>, value: T::Model)
    ensures
        holds_key::<T>(values, T::key(value)) == values.contains(value),
{
    if holds_key::<T>(values, T::key(value)) {
        let i = choose|i: int|
            0 <= i < values.len() && T::key(#[trigger] values[i]) == T::key(value);
        T::key_injective(values[i], value);
    }
    if values.contains(value) {
        let i = choose|i: int| 0 <= i < values.len() && values[i] == value;
        assert(T::key(values[i]) == T::key(value));
    }
}

/// Whether `sorted` lists exactly the values of `values`, in order and without repetition.
pub open spec fn is_sorted_listing<T: Keyed>(
    sorted: Seq<T::Model>,
    values: Seq<T::Model>,
) -> bool {
    &&& ascending::<T>(sorted)
    &&& forall|value: T::Model| #[trigger] sorted.contains(value) <==> values.contains(value)
}

/// The values of `values` in order and without repetition.
pub open spec fn sorted_listing<T: Keyed>(values: Seq<T::Model>) -> Seq<T::Model> {
    choose|sorted: Seq<T::Model>| is_sorted_listing::<T>(sorted, values)
}

/// There is at most one sorted listing.
pub proof fn lemma_sorted_listing<T: Keyed>(sorted: Seq<T::Model>, values: Seq<T::Model>)
    requires
        is_sorted_listing::<T>(sorted, values),
    ensures
        sorted_listing::<T>(values) == sorted,
{
    let other = sorted_listing::<T>(values);
    assert(is_sorted_listing::<T>(other, values));
    assert forall|value: T::Model| other.contains(value) <==> sorted.contains(value) by {
        assert(other.contains(value) <==> values.contains(value));
        assert(sorted.contains(value) <==> values.contains(value));
    }
    lemma_ascending_extensional::<T>(other, sorted);
}

/// Sorts `items` and drops repetitions.
pub fn sort_unique<T: Distinct>(items: Vec<T>) -> (sorted: Sorted<T>)
    ensures
        is_sorted_listing::<T>(sorted@, models(items@)),
        sorted@ == sorted_listing::<T>(models(items@)),
{
    let mut sorted: Sorted<T> = Sorted::new();
    let ghost all = models(items@);
    let mut index: usize = 0;
    sorted.use_order();
    assert(is_sorted_listing::<T>(sorted@, all.take(0)));
    while index < items.len()
        invariant
            all == models(items@),
            index <= items@.len(),
            is_sorted_listing::<T>(sorted@, all.take(index as int)),
        decreases items@.len() - index,
    {
        let item = items[index].duplicate();
        let ghost before = sorted@;
        proof {
            lemma_holds_value::<T>(sorted@, item.model());
        }
        sorted.insert(item);
        proof {
            let seen = all.take(index as int);
            let more = all.take(index + 1);
            assert(more =~= seen.push(item.model()));
            assert forall|value: T::Model| #[trigger]
                sorted@.contains(value) <==> more.contains(value) by {
                assert(before.contains(value) <==> seen.contains(value));
                if seen.contains(value) {
                    let k = choose|k: int| 0 <= k < seen.len() && seen[k] == value;
                    assert(more[k] == value);
                }
                if value == item.model() {
                    assert(more[index as int] == value);
                }
                if more.contains(value) {
                    let k = choose|k: int| 0 <= k < more.len() && more[k] == value;
                    if k < index {
                        assert(seen[k] == value);
                    }
                }
            }
        }
        index += 1;
    }
    assert(all.take(index as int) =~= all);
    proof {
        lemma_sorted_listing::<T>(sorted@, all);
    }
    sorted
}

/// The number of values at the beginning of `values` whose keys stand before `key`.
pub open spec fn key_place<T: Keyed>(values: Seq<T::Model>, key: Seq<u32>, at: int) -> int
    decreases values.len() - at,
{
    if at >= values.len() || !precedes(T::key(values[at]), key) {
        at
    } else {
        key_place::<T>(values, key, at + 1)
    }
}

proof fn lemma_key_place<T: Keyed>(values: Seq<T::Model>, key: Seq<u32>, at: int)
    requires
        0 <= at <= values.len(),
    ensures
        at <= key_place::<T>(values, key, at) <= values.len(),
        forall|i: int|
            at <= i < key_place::<T>(values, key, at) ==> precedes(
                T::key(#[trigger] values[i]),
                key,
            ),
        key_place::<T>(values, key, at) < values.len() ==> !precedes(
            T::key(values[key_place::<T>(values, key, at)]),
            key,
        ),
    decreases values.len() - at,
{
    if at < values.len() && precedes(T::key(values[at]), key) {
        lemma_key_place::<T>(values, key, at + 1);
    }
}

/// A value with a new key can be put into a list in order.
proof fn lemma_put_in_order<T: Keyed>(values: Seq<T::Model>, value: T::Model) -> (more: Seq<
    T::Model,
>)
    requires
        ascending::<T>(values),
        forall|i: int| 0 <= i < values.len() ==> T::key(#[trigger] values[i]) != T::key(value),
    ensures
        ascending::<T>(more),
        forall|other: T::Model| #[trigger]
            more.contains(other) <==> values.contains(other) || other == value,
{
    let key = T::key(value);
    lemma_key_place::<T>(values, key, 0);
    let place = key_place::<T>(values, key, 0);
    let more = values.insert(place, value);
    if place < values.len() {
        lemma_precedes_total(T::key(values[place]), key);
    }
    assert forall|i: int, j: int| 0 <= i < j < more.len() implies precedes(
        T::key(#[trigger] more[i]),
        T::key(#[trigger] more[j]),
    ) by {
        if j < place {
            assert(more[i] == values[i] && more[j] == values[j]);
        } else if j == place {
            assert(more[i] == values[i]);
        } else if i < place {
            assert(more[i] == values[i] && more[j] == values[j - 1]);
        } else if i == place {
            assert(more[j] == values[j - 1]);
            if j - 1 > place {
                lemma_precedes_transitive(key, T::key(values[place]), T::key(values[j - 1]));
            }
        } else {
            assert(more[i] == values[i - 1] && more[j] == values[j - 1]);
        }
    }
    assert forall|other: T::Model| #[trigger]
        more.contains(other) <==> values.contains(other) || other == value by {
        if values.contains(other) {
            let k = choose|k: int| 0 <= k < values.len() && values[k] == other;
            if k < place {
                assert(more[k] == other);
            } else {
                assert(more[k + 1] == other);
            }
        }
        if other == value {
            assert(more[place] == other);
        }
        if more.contains(other) {
            let k = choose|k: int| 0 <= k < more.len() && more[k] == other;
            if k < place {
                assert(values[k] == other);
            } else if k > place {
                assert(values[k - 1] == other);
            }
        }
    }
    more
}

/// Every list of values has a sorted listing.
pub proof fn lemma_listing_exists<T: Distinct>(values: Seq<T::Model>)
    ensures
        is_sorted_listing::<T>(sorted_listing::<T>(values), values),
    decreases values.len(),
{
    if values.len() == 0 {
        assert(is_sorted_listing::<T>(Seq::<T::Model>::empty(), values));
    } else {
        lemma_listing_exists::<T>(values.drop_last());
        let before = sorted_listing::<T>(values.drop_last());
        let more = if before.contains(values.last()) {
            before
        } else {
            assert forall|i: int| 0 <= i < before.len() implies T::key(#[trigger] before[i])
                != T::key(values.last()) by {
                if T::key(before[i]) == T::key(values.last()) {
                    T::key_injective(before[i], values.last());
                }
            }
            lemma_put_in_order::<T>(before, values.last())
        };
        assert forall|value: T::Model| #[trigger]
            more.contains(value) <==> values.contains(value) by {
            assert(before.contains(value) <==> values.drop_last().contains(value));
            assert(values =~= values.drop_last().push(values.last()));
            if values.contains(value) {
                let k = choose|k: int| 0 <= k < values.len() && values[k] == value;
                if k < values.len() - 1 {
                    assert(values.drop_last()[k] == value);
                }
            }
            if values.drop_last().contains(value) {
                let k = choose|k: int|
                    0 <= k < values.drop_last().len() && values.drop_last()[k] == value;
                assert(values[k] == value);
            }
            if value == values.last() {
                assert(values[values.len() - 1] == value);
            }
        }
        assert(is_sorted_listing::<T>(more, values));
    }
}

/// Every list of values with different keys has a sorted listing.
pub proof fn lemma_keyed_listing_exists<T: Keyed>(values: Seq<T::Model>)
    requires
        forall|i: int, j: int|
            0 <= i < j < values.len() ==> T::key(#[trigger] values[i]) != T::key(
                #[trigger] values[j],
            ),
    ensures
        is_sorted_listing::<T>(sorted_listing::<T>(values), values),
    decreases values.len(),
{
    if values.len() == 0 {
        assert(is_sorted_listing::<T>(Seq::<T::Model>::empty(), values));
    } else {
        lemma_keyed_listing_exists::<T>(values.drop_last());
        let before = sorted_listing::<T>(values.drop_last());
        assert forall|i: int| 0 <= i < before.len() implies T::key(#[trigger] before[i]) != T::key(
            values.last(),
        ) by {
            assert(before.contains(before[i]));
            assert(values.drop_last().contains(before[i]));
            let k = choose|k: int|
                0 <= k < values.drop_last().len() && values.drop_last()[k] == before[i];
            assert(values[k] == before[i]);
        }
        let more = lemma_put_in_order::<T>(before, values.last());
        assert forall|value: T::Model| #[trigger]
            more.contains(value) <==> values.contains(value) by {
            assert(before.contains(value) <==> values.drop_last().contains(value));
            assert(values =~= values.drop_last().push(values.last()));
            if values.contains(value) {
                let k = choose|k: int| 0 <= k < values.len() && values[k] == value;
                if k < values.len() - 1 {
                    assert(values.drop_last()[k] == value);
                }
            }
            if values.drop_last().contains(value) {
                let k = choose|k: int|
                    0 <= k < values.drop_last().len() && values.drop_last()[k] == value;
                assert(values[k] == value);
            }
            if value == values.last() {
                assert(values[values.len() - 1] == value);
            }
        }
        assert(is_sorted_listing::<T>(more, values));
    }
}

/// Whether `result` lists the values of `left` that `right` does not hold.
pub open spec fn is_difference<T: Keyed>(
    result: Seq<T::Model>,
    left: Seq<T::Model>,
    right: Seq<T::Model>,
) -> bool {
    &&& ascending::<T>(result)
    &&& forall|value: T::Model| #[trigger]
        result.contains(value) <==> left.contains(value) && !right.contains(value)
}

/// Returns the items of `left` that `right` does not hold.
pub fn difference<T: Distinct>(left: &Sorted<T>, right: &Sorted<T>) -> (result: Sorted<T>)
    ensures
        is_difference::<T>(result@, left@, right@),
{
    let mut result: Sorted<T> = Sorted::new();
    let mut index: usize = 0;
    result.use_order();
    while index < left.len()
        invariant
            index <= left@.len(),
            is_difference::<T>(result@, left@.take(index as int), right@),
        decreases left@.len() - index,
    {
        let item = left.at(index).duplicate();
        let key = item.key_codes();
        let ghost before = result@;
        proof {
            lemma_holds_value::<T>(right@, item.model());
            lemma_holds_value::<T>(result@, item.model());
        }
        let ghost value_here = item.model();
        if !right.contains_key(&key) {
            result.insert(item);
        } else {
            result.use_order();
        }
        proof {
            let seen = left@.take(index as int);
            let more = left@.take(index + 1);
            assert(more =~= seen.push(value_here));
            assert forall|value: T::Model| #[trigger]
                result@.contains(value) <==> more.contains(value) && !right@.contains(value) by {
                assert(before.contains(value) <==> seen.contains(value) && !right@.contains(value));
                if seen.contains(value) {
                    let k = choose|k: int| 0 <= k < seen.len() && seen[k] == value;
                    assert(more[k] == value);
                }
                if value == value_here {
                    assert(more[index as int] == value);
                }
                if more.contains(value) {
                    let k = choose|k: int| 0 <= k < more.len() && more[k] == value;
                    if k < index {
                        assert(seen[k] == value);
                    }
                }
            }
        }
        index += 1;
    }
    assert(left@.take(index as int) =~= left@);
    result
}

/// A sorted set of strings.
pub type TextSet = Sorted<String>;

/// A set of strings holds a key exactly when it holds the string of that key.
pub proof fn lemma_text_key(values: Seq<Seq<char>>, text: Seq<char>)
    ensures
        holds_key::<String>(values, codes(text)) == values.contains(text),
{
    if holds_key::<String>(values, codes(text)) {
        let i = choose|i: int|
            0 <= i < values.len() && <String as Keyed>::key(#[trigger] values[i]) == codes(text);
        lemma_codes_injective(values[i], text);
    }
    if values.contains(text) {
        let i = choose|i: int| 0 <= i < values.len() && values[i] == text;
        assert(<String as Keyed>::key(values[i]) == codes(text));
    }
}

/// Returns whether a set of strings holds `text`.
pub fn set_holds(set: &TextSet, text: &str) -> (found: bool)
    ensures
        found == set@.contains(text@),
{
    let key = codes_of(text);
    proof {
        lemma_text_key(set@, text@);
    }
    set.contains_key(&key)
}

/// Adds `text` to a set of strings; returns whether it was not there before.
pub fn set_add(set: &mut TextSet, text: &str) -> (added: bool)
    ensures
        added == !old(set)@.contains(text@),
        ascending::<String>(final(set)@),
        !added ==> final(set)@ == old(set)@,
        forall|value: Seq<char>| #[trigger]
            final(set)@.contains(value) <==> old(set)@.contains(value) || value == text@,
        final(set)@.len() == old(set)@.len() + (if added {
            1int
        } else {
            0int
        }),
{
    proof {
        lemma_text_key(set@, text@);
    }
    set.insert(text.to_owned())
}

/// Returns whether two sets of strings hold the same strings.
pub fn same_set(left: &TextSet, right: &TextSet) -> (same: bool)
    ensures
        same == (left@ == right@),
{
    if left.len() != right.len() {
        return false;
    }
    let mut index: usize = 0;
    while index < left.len()
        invariant
            index <= left@.len(),
            left@.len() == right@.len(),
            forall|i: int| 0 <= i < index ==> left@[i] == right@[i],
        decreases left@.len() - index,
    {
        if !crate::text::same_text(left.at(index).as_str(), right.at(index).as_str()) {
            return false;
        }
        index += 1;
    }
    assert(left@ =~= right@);
    true
}

} // verus!
