//! The bit array and its hashing, which the `fastbloom` crate supplies.
//!
//! Nothing in this file is proved. It declares the engine, names what an
//! engine holds, and states for each call what `fastbloom` does to that.
//! Every proof in the rest of the crate rests on these statements.

use crate::state::positions_fit;
use vstd::prelude::*;

verus! {

/// A `fastbloom::AtomicBloomFilter` with its default hasher: a fixed array of
/// bits, a fixed number of hashes per item, and a hasher that was keyed at
/// random when the engine was made.
#[verifier::external_body]
pub struct Engine {
    inner: fastbloom::AtomicBloomFilter,
}

/// The positions of the bits that are set in the engine's array.
pub uninterp spec fn engine_bits(engine: Engine) -> Set<int>;

/// The positions that the engine's hasher derives for an item. They depend on
/// the item, on the key of the hasher and on the two counts below, and on
/// nothing that an insertion changes.
pub uninterp spec fn engine_positions(engine: Engine, item: Seq<char>) -> Set<int>;

/// The length of the engine's array, in bits.
pub uninterp spec fn engine_bit_count(engine: Engine) -> usize;

/// The number of positions that the engine derives per item, repeats counted.
pub uninterp spec fn engine_hash_count(engine: Engine) -> u32;

/// What `fastbloom::optimal_hashes` returns: the number of hashes that keeps
/// false positives rarest in an array of `bit_count` bits holding `items`
/// items, which is `bit_count / items * ln 2` rounded to the nearest whole
/// number in binary64 arithmetic, and at least 1.
pub uninterp spec fn optimal_hash_count(bit_count: usize, items: usize) -> u32;

/// The length of the array that holds `bit_count` bits in whole 64-bit words.
pub open spec fn whole_words(bit_count: nat) -> nat {
    (bit_count + 63) / 64 * 64
}

/// Calls `AtomicBloomFilter::with_num_bits(bit_count)` and then
/// `expected_items(expected_items)` on the builder.
///
/// `with_num_bits` panics on zero and computes `bit_count + 64`, hence the
/// bounds. It allocates `bit_count` bits rounded up to whole 64-bit words,
/// all zero, and draws a fresh random key for the hasher. `expected_items`
/// counts zero items as one and takes the number of hashes from
/// `optimal_hashes`, which never returns zero. Every position that the
/// engine will derive is `(hash * bit_count) >> 64` for a 64-bit `hash` and
/// so below the length of the array; an item gets one position from its hash
/// and one more from each further hash.
///
/// Allocation that fails for want of memory is outside this contract.
#[verifier::external_body]
pub(crate) fn engine_new(bit_count: usize, expected_items: usize) -> (engine: Engine)
    requires
        0 < bit_count <= usize::MAX - 64,
    ensures
        engine_bits(engine) == Set::<int>::empty(),
        engine_bit_count(engine) == whole_words(bit_count as nat),
        engine_hash_count(engine) == optimal_hash_count(
            engine_bit_count(engine),
            if expected_items == 0 { 1 } else { expected_items },
        ),
        engine_hash_count(engine) >= 1,
        forall|item: Seq<char>|
            positions_fit(
                #[trigger] engine_positions(engine, item),
                engine_bit_count(engine) as nat,
                engine_hash_count(engine) as nat,
            ),
{
    Engine {
        inner: fastbloom::AtomicBloomFilter::with_num_bits(bit_count).expected_items(
            expected_items,
        ),
    }
}

/// Calls `AtomicBloomFilter::insert` with the item as a `str`.
///
/// `insert` hashes the item with the engine's hasher and sets the bit at each
/// derived position with an atomic or; it clears nothing, and it changes
/// neither the hasher nor the counts. Its result, whether every one of those
/// bits was set before, is dropped. It never panics: each position is
/// below the length of the array by construction.
#[verifier::external_body]
pub(crate) fn engine_insert(engine: &mut Engine, item: &str)
    ensures
        engine_bits(*final(engine)) == engine_bits(*old(engine)).union(
            engine_positions(*old(engine), item@),
        ),
        engine_bit_count(*final(engine)) == engine_bit_count(*old(engine)),
        engine_hash_count(*final(engine)) == engine_hash_count(*old(engine)),
        forall|other: Seq<char>| #[trigger]
            engine_positions(*final(engine), other) == engine_positions(*old(engine), other),
    no_unwind
{
    engine.inner.insert(item);
}

/// Calls `AtomicBloomFilter::contains` with the item as a `str`.
///
/// `contains` hashes the item as `insert` does and returns whether the bit
/// at every derived position is set.
#[verifier::external_body]
pub(crate) fn engine_contains(engine: &Engine, item: &str) -> (found: bool)
    ensures
        found == engine_positions(*engine, item@).subset_of(engine_bits(*engine)),
{
    engine.inner.contains(item)
}

/// Calls `AtomicBloomFilter::num_bits`: the length of the array, in bits.
#[verifier::external_body]
pub(crate) fn engine_num_bits(engine: &Engine) -> (count: usize)
    ensures
        count == engine_bit_count(*engine),
{
    engine.inner.num_bits()
}

/// Calls `AtomicBloomFilter::num_hashes`: the number of hashes per item.
#[verifier::external_body]
pub(crate) fn engine_num_hashes(engine: &Engine) -> (count: u32)
    ensures
        count == engine_hash_count(*engine),
{
    engine.inner.num_hashes()
}

} // verus!
