//! What a bloom filter is, mathematically: an array length, a hash count, the
//! set of positions whose bit is set, and a function from items to the
//! positions they hash to. Insertion adds an item's positions to the set;
//! a membership check asks whether all of them are in it.
//!
//! The laws at the end are the reasons to use such a filter: no inserted
//! item is ever reported absent, nothing that was reported present is later
//! reported absent, and inserting many items at once is the same as
//! inserting them one by one, in any order.

use vstd::prelude::*;

verus! {

/// The state of a bloom filter.
#[verifier::ext_equal]
pub struct FilterState {
    /// The length of the bit array.
    pub bit_count: nat,
    /// The number of positions derived per item, repeats counted.
    pub hash_count: nat,
    /// The positions of the bits that are set.
    pub bits: Set<int>,
    /// The positions that each item hashes to.
    pub positions: spec_fn(Seq<char>) -> Set<int>,
}

/// What holds of the positions of any one item: there are between one and
/// `hash_count` of them, and each indexes an array of `bit_count` bits.
pub open spec fn positions_fit(positions: Set<int>, bit_count: nat, hash_count: nat) -> bool {
    &&& positions.finite()
    &&& 1 <= positions.len() <= hash_count
    &&& forall|p: int| positions.contains(p) ==> 0 <= p < bit_count
}

impl FilterState {
    /// The array is not empty, there is at least one hash per item, the
    /// positions of every item fit, and only bits inside the array are set.
    pub open spec fn wf(self) -> bool {
        &&& self.bit_count > 0
        &&& self.hash_count >= 1
        &&& forall|item: Seq<char>|
            positions_fit(#[trigger] (self.positions)(item), self.bit_count, self.hash_count)
        &&& forall|p: int| #[trigger] self.bits.contains(p) ==> 0 <= p < self.bit_count
    }

    /// No bit is set.
    pub open spec fn is_empty(self) -> bool {
        self.bits == Set::<int>::empty()
    }

    /// The answer of a membership check: every position of the item is set.
    pub open spec fn has(self, item: Seq<char>) -> bool {
        (self.positions)(item).subset_of(self.bits)
    }

    /// The state after one insertion: the item's positions are set as well.
    pub open spec fn add(self, item: Seq<char>) -> FilterState {
        FilterState { bits: self.bits.union((self.positions)(item)), ..self }
    }

    /// The positions that some item of the sequence hashes to.
    pub open spec fn marks(self, items: Seq<Seq<char>>) -> Set<int> {
        Set::new(
            |p: int|
                exists|i: int|
                    0 <= i < items.len() && #[trigger] (self.positions)(items[i]).contains(p),
        )
    }

    /// The state after a bulk insertion: the positions of every item of the
    /// sequence are set as well.
    pub open spec fn add_all(self, items: Seq<Seq<char>>) -> FilterState {
        FilterState { bits: self.bits.union(self.marks(items)), ..self }
    }

    /// The state after inserting the items of the sequence one by one, first
    /// to last.
    pub open spec fn add_each(self, items: Seq<Seq<char>>) -> FilterState
        decreases items.len(),
    {
        if items.len() == 0 {
            self
        } else {
            self.add_each(items.drop_last()).add(items.last())
        }
    }

    /// This state is one that `earlier` can grow into: the same array length,
    /// hash count and hashing, and every bit of `earlier` still set.
    pub open spec fn extends(self, earlier: FilterState) -> bool {
        &&& self.bit_count == earlier.bit_count
        &&& self.hash_count == earlier.hash_count
        &&& self.positions == earlier.positions
        &&& earlier.bits.subset_of(self.bits)
    }
}

/// A filter with no bit set reports every item absent, since every item
/// hashes to at least one position.
pub proof fn lemma_empty_filter_has_nothing(state: FilterState, item: Seq<char>)
    requires
        state.wf(),
        state.is_empty(),
    ensures
        !state.has(item),
{
    let positions = (state.positions)(item);
    if positions.subset_of(state.bits) {
        assert(positions =~= Set::<int>::empty());
    }
}

/// An item that was inserted is found, now and in every state that the filter
/// grows into: there are no false negatives.
pub proof fn lemma_inserted_item_is_found(
    before: FilterState,
    item: Seq<char>,
    later: FilterState,
)
    requires
        later.extends(before.add(item)),
    ensures
        before.add(item).has(item),
        later.has(item),
{
}

/// Bits are only ever set: an insertion, single or bulk, gives a state that
/// extends the one before, and a well-formed state stays well-formed.
pub proof fn lemma_insertion_extends(state: FilterState, item: Seq<char>, items: Seq<Seq<char>>)
    ensures
        state.add(item).extends(state),
        state.add_all(items).extends(state),
        state.wf() ==> state.add(item).wf() && state.add_all(items).wf(),
{
}

/// Insertions do not interfere: inserting an item twice is inserting it once,
/// and two insertions give the same state in either order.
pub proof fn lemma_insertion_is_idempotent_and_commutes(
    state: FilterState,
    item: Seq<char>,
    other: Seq<char>,
)
    ensures
        state.add(item).add(item) == state.add(item),
        state.add(item).add(other) == state.add(other).add(item),
{
    assert(state.add(item).add(item) =~= state.add(item));
    assert(state.add(item).add(other) =~= state.add(other).add(item));
}

/// Growing is reflexive and transitive, so it relates a state to every later
/// one, however many insertions lie between them.
pub proof fn lemma_extends_is_a_preorder(a: FilterState, b: FilterState, c: FilterState)
    ensures
        a.extends(a),
        c.extends(b) && b.extends(a) ==> c.extends(a),
{
}

/// An item that a check reports present is reported present in every state
/// that the filter grows into.
pub proof fn lemma_found_stays_found(earlier: FilterState, later: FilterState, item: Seq<char>)
    requires
        later.extends(earlier),
        earlier.has(item),
    ensures
        later.has(item),
{
}

/// A bulk insertion leaves the filter in the state that inserting its items
/// one by one leaves it in.
pub proof fn lemma_bulk_is_one_by_one(state: FilterState, items: Seq<Seq<char>>)
    ensures
        state.add_all(items) == state.add_each(items),
    decreases items.len(),
{
    if items.len() == 0 {
        assert(state.marks(items) =~= Set::<int>::empty());
        assert(state.add_all(items) =~= state);
    } else {
        let front = items.drop_last();
        lemma_bulk_is_one_by_one(state, front);
        let step = state.add_all(front).add(items.last());
        assert forall|p: int| state.add_all(items).bits.contains(p) implies step.bits.contains(
            p,
        ) by {
            if !state.bits.contains(p) {
                let i = choose|i: int|
                    0 <= i < items.len() && #[trigger] (state.positions)(items[i]).contains(p);
                if i < front.len() {
                    assert(front[i] == items[i]);
                }
            }
        }
        assert forall|p: int| step.bits.contains(p) implies state.add_all(items).bits.contains(
            p,
        ) by {
            if (state.positions)(items.last()).contains(p) {
                assert(items[items.len() - 1] == items.last());
            } else if !state.bits.contains(p) {
                let i = choose|i: int|
                    0 <= i < front.len() && #[trigger] (state.positions)(front[i]).contains(p);
                assert(items[i] == front[i]);
            }
        }
        assert(state.add_all(items) =~= step);
    }
}

/// The state after a bulk insertion depends on which items were inserted, not
/// on their order nor on how often each occurs.
pub proof fn lemma_bulk_ignores_order(
    state: FilterState,
    items: Seq<Seq<char>>,
    others: Seq<Seq<char>>,
)
    requires
        items.to_set() == others.to_set(),
    ensures
        state.add_all(items) == state.add_all(others),
        state.add_each(items) == state.add_each(others),
{
    assert forall|p: int| state.marks(items).contains(p) implies state.marks(others).contains(
        p,
    ) by {
        let i = choose|i: int|
            0 <= i < items.len() && #[trigger] (state.positions)(items[i]).contains(p);
        lemma_same_item_elsewhere(items, others, i);
    }
    assert forall|p: int| state.marks(others).contains(p) implies state.marks(items).contains(
        p,
    ) by {
        let i = choose|i: int|
            0 <= i < others.len() && #[trigger] (state.positions)(others[i]).contains(p);
        lemma_same_item_elsewhere(others, items, i);
    }
    assert(state.marks(items) =~= state.marks(others));
    lemma_bulk_is_one_by_one(state, items);
    lemma_bulk_is_one_by_one(state, others);
}

/// An item of one sequence occurs in any sequence with the same set of items.
proof fn lemma_same_item_elsewhere(items: Seq<Seq<char>>, others: Seq<Seq<char>>, i: int)
    requires
        items.to_set() == others.to_set(),
        0 <= i < items.len(),
    ensures
        exists|j: int| 0 <= j < others.len() && others[j] == items[i],
{
    assert(items.contains(items[i]));
    assert(items.to_set().contains(items[i]));
    assert(others.to_set().contains(items[i]));
    assert(others.contains(items[i]));
}

} // verus!
