//! The bloom filter and its four operations: construction, insertion,
//! membership check and bulk insertion.

use crate::engine::engine_bit_count;
use crate::engine::engine_bits;
use crate::engine::engine_contains;
use crate::engine::engine_hash_count;
use crate::engine::engine_insert;
use crate::engine::engine_new;
use crate::engine::engine_num_bits;
use crate::engine::engine_num_hashes;
use crate::engine::engine_positions;
use crate::engine::optimal_hash_count;
use crate::engine::whole_words;
use crate::engine::Engine;
use crate::number::Number;
use crate::state::lemma_bulk_is_one_by_one;
use crate::state::lemma_insertion_extends;
use crate::state::FilterState;
use vstd::prelude::*;

verus! {

/// Why a filter could not be constructed.
#[derive(Clone, Copy, Debug, PartialEq, Eq, Structural)]
pub enum ConstructionError {
    /// The capacity is not strictly greater than zero.
    InvalidCapacity,
    /// The false-positive rate is not strictly between zero and one.
    InvalidFalsePositiveRate,
}

/// The error that construction reports for these parameters, if any. The
/// capacity is judged first, so a bad capacity is reported whatever the rate
/// is.
pub open spec fn rejection(capacity: Number, false_positive_rate: Number) -> Option<
    ConstructionError,
> {
    if !capacity.spec_is_positive() {
        Some(ConstructionError::InvalidCapacity)
    } else if !(false_positive_rate.spec_is_positive() && false_positive_rate.spec_is_below_one()) {
        Some(ConstructionError::InvalidFalsePositiveRate)
    } else {
        None
    }
}

/// The number of items that a capacity stands for: the capacity rounded
/// toward zero and brought into the range of `usize`, and one item where
/// that leaves none.
pub open spec fn item_count(capacity: Number) -> usize {
    if capacity.spec_truncate() == 0 {
        1
    } else {
        capacity.spec_truncate()
    }
}

/// Checks the two parameters of a filter and gives the number of items to
/// size it for.
pub fn expected_items(capacity: Number, false_positive_rate: Number) -> (r: Result<
    usize,
    ConstructionError,
>)
    ensures
        r == match rejection(capacity, false_positive_rate) {
            Some(error) => Err::<usize, ConstructionError>(error),
            None => Ok(item_count(capacity)),
        },
{
    if !capacity.is_positive() {
        return Err(ConstructionError::InvalidCapacity);
    }
    if !(false_positive_rate.is_positive() && false_positive_rate.is_below_one()) {
        return Err(ConstructionError::InvalidFalsePositiveRate);
    }
    let items: usize = capacity.truncate();
    if items == 0 {
        Ok(1)
    } else {
        Ok(items)
    }
}

/// A bloom filter over strings: a set that may report an item it never got,
/// and never misses one it did get.
pub struct BloomFilter {
    engine: Engine,
}

/// The state that an engine is in.
spec fn engine_state(engine: Engine) -> FilterState {
    FilterState {
        bit_count: engine_bit_count(engine) as nat,
        hash_count: engine_hash_count(engine) as nat,
        bits: engine_bits(engine),
        positions: |item: Seq<char>| engine_positions(engine, item),
    }
}

/// Inserts one item into an engine.
fn insert(engine: &mut Engine, item: &str)
    requires
        engine_state(*old(engine)).wf(),
    ensures
        engine_state(*final(engine)) == engine_state(*old(engine)).add(item@),
        engine_state(*final(engine)).wf(),
    no_unwind
{
    engine_insert(engine, item);
    proof {
        let before: FilterState = engine_state(*old(engine));
        assert(engine_state(*engine).positions =~= before.positions);
        assert(engine_state(*engine) =~= before.add(item@));
        lemma_insertion_extends(before, item@, Seq::empty());
    }
}

impl View for BloomFilter {
    type V = FilterState;

    closed spec fn view(&self) -> FilterState {
        engine_state(self.engine)
    }
}

impl BloomFilter {
    #[verifier::type_invariant]
    spec fn well_formed(&self) -> bool {
        self@.wf()
    }

    /// Constructs an empty filter for the given capacity and false-positive
    /// rate, with an array of `bit_count` bits rounded up to whole 64-bit
    /// words.
    ///
    /// `bit_count` is the array length that suits the capacity and the rate.
    /// Finding it takes a logarithm of the rate, which is the caller's part;
    /// the filter is correct with any length, and as accurate as the length
    /// allows.
    pub fn new(capacity: Number, false_positive_rate: Number, bit_count: usize) -> (r: Result<
        BloomFilter,
        ConstructionError,
    >)
        requires
            0 < bit_count <= usize::MAX - 64,
        ensures
            match r {
                Ok(filter) => {
                    &&& rejection(capacity, false_positive_rate) is None
                    &&& filter@.wf()
                    &&& filter@.is_empty()
                    &&& filter@.bit_count == whole_words(bit_count as nat)
                    &&& filter@.hash_count == optimal_hash_count(
                        whole_words(bit_count as nat) as usize,
                        item_count(capacity),
                    )
                },
                Err(error) => rejection(capacity, false_positive_rate) == Some(error),
            },
    {
        match expected_items(capacity, false_positive_rate) {
            Ok(items) => {
                let engine = engine_new(bit_count, items);
                Ok(BloomFilter { engine })
            },
            Err(error) => Err(error),
        }
    }

    /// The length of the bit array.
    pub fn bit_count(&self) -> (count: usize)
        ensures
            count == self@.bit_count,
            count > 0,
            self@.wf(),
    {
        proof {
            use_type_invariant(self);
        }
        engine_num_bits(&self.engine)
    }

    /// The number of positions derived per item.
    pub fn hash_count(&self) -> (count: u32)
        ensures
            count == self@.hash_count,
            count >= 1,
            self@.wf(),
    {
        proof {
            use_type_invariant(self);
        }
        engine_num_hashes(&self.engine)
    }

    /// Inserts an item: sets the bit at each of its positions.
    pub fn add(&mut self, item: String)
        ensures
            final(self)@ == old(self)@.add(item@),
            final(self)@.wf(),
            final(self)@.extends(old(self)@),
            final(self)@.has(item@),
    {
        proof {
            use_type_invariant(&*self);
        }
        insert(&mut self.engine, item.as_str());
    }

    /// Checks an item: whether the bit at each of its positions is set.
    pub fn has(&self, item: String) -> (found: bool)
        ensures
            found == self@.has(item@),
            self@.wf(),
    {
        proof {
            use_type_invariant(self);
        }
        engine_contains(&self.engine, item.as_str())
    }

    /// Inserts every item of the sequence.
    pub fn bulk_add(&mut self, items: Vec<String>)
        ensures
            final(self)@ == old(self)@.add_all(items.deep_view()),
            final(self)@ == old(self)@.add_each(items.deep_view()),
            final(self)@.wf(),
            final(self)@.extends(old(self)@),
            forall|i: int| 0 <= i < items.len() ==> final(self)@.has(#[trigger] items[i]@),
    {
        let ghost all: Seq<Seq<char>> = items.deep_view();
        let ghost start: FilterState = self@;
        proof {
            lemma_bulk_is_one_by_one(start, all.take(0));
        }
        let mut done: usize = 0;
        while done < items.len()
            invariant
                done <= items.len(),
                all == items.deep_view(),
                self@ == start.add_all(all.take(done as int)),
            decreases items.len() - done,
        {
            proof {
                use_type_invariant(&*self);
            }
            insert(&mut self.engine, items[done].as_str());
            proof {
                let next: Seq<Seq<char>> = all.take(done + 1);
                assert(next.drop_last() =~= all.take(done as int));
                assert(next.last() == items[done as int]@);
                lemma_bulk_is_one_by_one(start, all.take(done as int));
                lemma_bulk_is_one_by_one(start, next);
            }
            done = done + 1;
        }
        proof {
            use_type_invariant(&*self);
            assert(all.take(done as int) =~= all);
            lemma_bulk_is_one_by_one(start, all);
            assert forall|i: int| 0 <= i < items.len() implies self@.has(
                #[trigger] items[i]@,
            ) by {
                assert(all[i] == items[i]@);
                assert((start.positions)(all[i]).subset_of(start.marks(all)));
            }
        }
    }
}

} // verus!
