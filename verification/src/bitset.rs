//! The frame buffer's bit set, from the `fixedbitset` crate.
//!
//! Nothing of `FixedBitSet` is proved here: each function below makes one
//! call into the crate, and its contract states what the crate's source
//! shows that call does to the bits that the set holds and to the words
//! that hold them.

use vstd::prelude::*;
use fixedbitset::FixedBitSet;

verus! {

#[verifier::external_type_specification]
#[verifier::external_body]
pub struct ExFixedBitSet(FixedBitSet);

/// The bits that a `FixedBitSet` holds, bit `i` at index `i`; the length
/// of the sequence is the set's length in bits (`FixedBitSet::len`).
pub uninterp spec fn bitset_bits(set: FixedBitSet) -> Seq<bool>;

/// The machine words that a `FixedBitSet` keeps its bits in, as
/// `FixedBitSet::as_slice` hands them out.
pub uninterp spec fn bitset_blocks(set: FixedBitSet) -> Seq<usize>;

/// Number of machine words that hold `len` bits.
pub open spec fn words_for(len: nat) -> nat {
    ((len + usize::BITS - 1) / (usize::BITS as int)) as nat
}

/// Bit `i` of a machine word, bit 0 the least significant.
pub open spec fn word_bit_at(word: usize, i: int) -> bool {
    (word >> (i as usize)) & 1usize == 1usize
}

/// Bit `i` of a sequence of machine words, counting from bit 0 of word 0.
pub open spec fn word_bit(words: Seq<usize>, i: int) -> bool {
    word_bit_at(words[i / (usize::BITS as int)], i % (usize::BITS as int))
}

/// `words` holds `bits`: one word per `usize::BITS` bits (the last one
/// possibly partial), bit `i` of the set in bit `i % usize::BITS` of word
/// `i / usize::BITS`.
pub open spec fn words_hold(words: Seq<usize>, bits: Seq<bool>) -> bool {
    &&& words.len() == words_for(bits.len())
    &&& forall|i: int| 0 <= i < bits.len() ==> #[trigger] word_bit(words, i) == bits[i]
}

/// Every bit of `words` from bit `len` on is clear.
pub open spec fn padding_clear(words: Seq<usize>, len: nat) -> bool {
    forall|i: int| len <= i < words.len() * usize::BITS ==> !#[trigger] word_bit(words, i)
}

/// `FixedBitSet::with_capacity`: a set of `bits` bits, all clear, in
/// words that are all zero.
#[verifier::external_body]
pub(crate) fn bitset_with_capacity(bits: usize) -> (set: FixedBitSet)
    ensures
        bitset_bits(set) == Seq::new(bits as nat, |i: int| false),
        padding_clear(bitset_blocks(set), bits as nat),
{
    FixedBitSet::with_capacity(bits)
}

/// `FixedBitSet::insert`: sets bit `bit`; it panics past the length,
/// which `requires` rules out, and does nothing else that can panic.
#[verifier::external_body]
pub(crate) fn bitset_insert(set: &mut FixedBitSet, bit: usize)
    requires
        bit < bitset_bits(*old(set)).len(),
    ensures
        bitset_bits(*final(set)) == bitset_bits(*old(set)).update(bit as int, true),
        padding_clear(bitset_blocks(*old(set)), bitset_bits(*old(set)).len())
            ==> padding_clear(bitset_blocks(*final(set)), bitset_bits(*old(set)).len()),
    no_unwind
{
    set.insert(bit)
}

/// `FixedBitSet::remove`: clears bit `bit`; it panics past the length,
/// which `requires` rules out, and does nothing else that can panic.
#[verifier::external_body]
pub(crate) fn bitset_remove(set: &mut FixedBitSet, bit: usize)
    requires
        bit < bitset_bits(*old(set)).len(),
    ensures
        bitset_bits(*final(set)) == bitset_bits(*old(set)).update(bit as int, false),
        padding_clear(bitset_blocks(*old(set)), bitset_bits(*old(set)).len())
            ==> padding_clear(bitset_blocks(*final(set)), bitset_bits(*old(set)).len()),
    no_unwind
{
    set.remove(bit)
}

/// `FixedBitSet::clear`: clears every bit, the length stays; every word
/// becomes zero. It cannot panic.
#[verifier::external_body]
pub(crate) fn bitset_clear(set: &mut FixedBitSet)
    ensures
        bitset_bits(*final(set)) == Seq::new(bitset_bits(*old(set)).len(), |i: int| false),
        padding_clear(bitset_blocks(*final(set)), bitset_bits(*old(set)).len()),
    no_unwind
{
    set.clear()
}

/// `FixedBitSet::insert_range(..)`: sets every bit, the length stays;
/// the bits of the words past the length are left as they were. With the
/// whole range it cannot panic.
#[verifier::external_body]
pub(crate) fn bitset_insert_all(set: &mut FixedBitSet)
    ensures
        bitset_bits(*final(set)) == Seq::new(bitset_bits(*old(set)).len(), |i: int| true),
        padding_clear(bitset_blocks(*old(set)), bitset_bits(*old(set)).len())
            ==> padding_clear(bitset_blocks(*final(set)), bitset_bits(*old(set)).len()),
    no_unwind
{
    set.insert_range(..)
}

/// `FixedBitSet::as_slice`: the words that hold the bits.
#[verifier::external_body]
pub(crate) fn bitset_words(set: &FixedBitSet) -> (words: &[usize])
    ensures
        words@ == bitset_blocks(*set),
        words_hold(words@, bitset_bits(*set)),
{
    set.as_slice()
}

} // verus!
