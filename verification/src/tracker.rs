//! The occupancy bitmap: one bit per slot, packed into 32-bit words, a set
//! bit meaning that the slot is on loan.

use vstd::prelude::*;
use crate::error::PoolError;

verus! {

/// Number of slots that one word of the bitmap records.
pub const BITS_IN_U32: usize = 32;

/// Whether bit `offset` of `word` is set.
pub open spec fn word_bit(word: u32, offset: u32) -> bool {
    word & (1u32 << offset) != 0
}

/// Whether the bit of slot `index` is set in the bitmap `words`.
pub open spec fn bit_at(words: Seq<u32>, index: int) -> bool
    recommends
        0 <= index < words.len() * 32,
{
    word_bit(words[index / 32], (index % 32) as u32)
}

/// The bitmap as a sequence of booleans, one per slot it can record.
pub open spec fn bits(words: Seq<u32>) -> Seq<bool> {
    Seq::new((words.len() * 32) as nat, |i: int| bit_at(words, i))
}

/// The slots below `limit` that the bitmap records as on loan.
pub open spec fn taken(bitmap: Seq<bool>, limit: int) -> Set<int> {
    Set::new(|i: int| 0 <= i < limit && i < bitmap.len() && bitmap[i])
}

/// `index` is the lowest slot below `limit` that the bitmap records as free.
pub open spec fn is_lowest_free(bitmap: Seq<bool>, limit: int, index: int) -> bool {
    &&& 0 <= index < limit
    &&& index < bitmap.len()
    &&& !bitmap[index]
    &&& forall|j: int| 0 <= j < index ==> bitmap[j]
}

/// Every slot below `limit` that the bitmap can record is on loan.
pub open spec fn all_taken(bitmap: Seq<bool>, limit: int) -> bool {
    forall|j: int| 0 <= j < limit && j < bitmap.len() ==> bitmap[j]
}

/// Some slot below `limit` is on loan.
pub open spec fn any_taken(bitmap: Seq<bool>, limit: int) -> bool {
    exists|j: int| 0 <= j < limit && j < bitmap.len() && bitmap[j]
}

/// Number of words that a bitmap needs to record `slots` slots.
pub open spec fn words_for(slots: int) -> int {
    if slots <= 0 {
        0
    } else {
        1 + (slots - 1) / 32
    }
}

proof fn lemma_word_or(word: u32, offset: u32, other: u32)
    by (bit_vector)
    requires
        offset < 32,
        other < 32,
    ensures
        word_bit(word | (1u32 << offset), other) == (other == offset || word_bit(word, other)),
{
}

proof fn lemma_word_and_not(word: u32, offset: u32, other: u32)
    by (bit_vector)
    requires
        offset < 32,
        other < 32,
    ensures
        word_bit(word & !(1u32 << offset), other) == (other != offset && word_bit(word, other)),
{
}

proof fn lemma_word_full(offset: u32)
    by (bit_vector)
    requires
        offset < 32,
    ensures
        word_bit(0xffff_ffffu32, offset),
{
}

proof fn lemma_word_zero(offset: u32)
    by (bit_vector)
    requires
        offset < 32,
    ensures
        !word_bit(0u32, offset),
{
}

/// Reads the bit of slot `index`.
pub fn value_of_index(values: &[u32], index: usize) -> (res: Result<bool, PoolError>)
    ensures
        index < values@.len() * 32 ==> res == Ok::<bool, PoolError>(bits(values@)[index as int]),
        index >= values@.len() * 32 ==> res == Err::<bool, PoolError>(PoolError::IndexOutOfRange),
{
    let value_index: usize = index / BITS_IN_U32;
    let offset: usize = index % BITS_IN_U32;
    if value_index < values.len() {
        let word: u32 = values[value_index];
        Ok(word & (1u32 << (offset as u32)) != 0)
    } else {
        Err(PoolError::IndexOutOfRange)
    }
}

/// Writes `value` into the bit of slot `index` and leaves every other bit
/// as it was.
pub fn update_index(values: &mut Vec<u32>, index: usize, value: bool) -> (res: Result<(), PoolError>)
    ensures
        index < old(values)@.len() * 32 ==> res.is_ok() && bits(final(values)@) == bits(
            old(values)@,
        ).update(index as int, value),
        index >= old(values)@.len() * 32 ==> res == Err::<(), PoolError>(
            PoolError::IndexOutOfRange,
        ) && final(values)@ == old(values)@,
{
    let value_index: usize = index / BITS_IN_U32;
    let offset: usize = index % BITS_IN_U32;
    if value_index < values.len() {
        let mask: u32 = 1u32 << (offset as u32);
        let word: u32 = values[value_index];
        let ghost before = values@;
        if value {
            values[value_index] = word | mask;
        } else {
            values[value_index] = word & !mask;
        }
        proof {
            let after = values@;
            assert forall|i: int| 0 <= i < before.len() * 32 implies bit_at(after, i) == (if i
                == index {
                value
            } else {
                bit_at(before, i)
            }) by {
                if i / 32 == value_index as int {
                    lemma_word_or(word, offset as u32, (i % 32) as u32);
                    lemma_word_and_not(word, offset as u32, (i % 32) as u32);
                }
            }
            assert(bits(after) =~= bits(before).update(index as int, value));
        }
        Ok(())
    } else {
        Err(PoolError::IndexOutOfRange)
    }
}

/// Finds the lowest free slot below `limit`, scanning upward from slot 0.
/// A word whose 32 slots are all on loan is passed over in one comparison.
pub fn find_free(values: &[u32], limit: usize) -> (res: Option<usize>)
    ensures
        match res {
            Some(index) => is_lowest_free(bits(values@), limit as int, index as int),
            None => all_taken(bits(values@), limit as int),
        },
{
    let mut index: usize = 0;
    while index < limit
        invariant
            index <= limit,
            forall|j: int| 0 <= j < index ==> j < values@.len() * 32 && bit_at(values@, j),
        decreases limit - index,
    {
        let value_index: usize = index / BITS_IN_U32;
        if index % BITS_IN_U32 == 0 && value_index < values.len() && values[value_index]
            == u32::MAX {
            proof {
                assert forall|j: int| index <= j < index + 32 implies bit_at(values@, j) by {
                    lemma_word_full((j % 32) as u32);
                }
            }
            if limit - index <= BITS_IN_U32 {
                return None;
            }
            index += BITS_IN_U32;
        } else {
            match value_of_index(values, index) {
                Ok(false) => {
                    return Some(index);
                },
                Ok(true) => {
                    index += 1;
                },
                Err(_) => {
                    return None;
                },
            }
        }
    }
    None
}

/// Tells whether any slot below `limit` is on loan. A word whose 32 slots
/// are all free is passed over in one comparison.
pub fn any_set(values: &[u32], limit: usize) -> (res: bool)
    ensures
        res == any_taken(bits(values@), limit as int),
{
    let mut index: usize = 0;
    while index < limit
        invariant
            index <= limit,
            forall|j: int| 0 <= j < index ==> j < values@.len() * 32 && !bit_at(values@, j),
        decreases limit - index,
    {
        let value_index: usize = index / BITS_IN_U32;
        if index % BITS_IN_U32 == 0 && value_index < values.len() && values[value_index] == 0 {
            proof {
                assert forall|j: int| index <= j < index + 32 implies !bit_at(values@, j) by {
                    lemma_word_zero((j % 32) as u32);
                }
            }
            if limit - index <= BITS_IN_U32 {
                return false;
            }
            index += BITS_IN_U32;
        } else {
            match value_of_index(values, index) {
                Ok(true) => {
                    assert(bits(values@)[index as int]);
                    return true;
                },
                Ok(false) => {
                    index += 1;
                },
                Err(_) => {
                    return false;
                },
            }
        }
    }
    false
}

/// Appends zero words until the bitmap can record `slots` slots. The bits
/// already there keep their value, the new ones are free, and the bitmap
/// never shrinks.
pub fn grow(values: &mut Vec<u32>, slots: usize)
    ensures
        final(values)@.len() == if words_for(slots as int) > old(values)@.len() {
            words_for(slots as int)
        } else {
            old(values)@.len() as int
        },
        bits(final(values)@) == bits(old(values)@) + Seq::new(
            (bits(final(values)@).len() - bits(old(values)@).len()) as nat,
            |i: int| false,
        ),
{
    let wanted: usize = if slots == 0 {
        0
    } else {
        1 + (slots - 1) / BITS_IN_U32
    };
    let ghost before = values@;
    while values.len() < wanted
        invariant
            wanted == words_for(slots as int),
            values@.len() >= before.len(),
            values@.len() <= wanted || values@ == before,
            values@.subrange(0, before.len() as int) == before,
            forall|k: int| before.len() <= k < values@.len() ==> values@[k] == 0u32,
        decreases wanted - values.len(),
    {
        values.push(0u32);
    }
    proof {
        let after = values@;
        let added = Seq::new((bits(after).len() - bits(before).len()) as nat, |i: int| false);
        assert forall|i: int| 0 <= i < bits(after).len() implies bits(after)[i] == (bits(before)
            + added)[i] by {
            if i / 32 < before.len() {
                assert(after[i / 32] == after.subrange(0, before.len() as int)[i / 32]);
            } else {
                lemma_word_zero((i % 32) as u32);
            }
        }
        assert(bits(after) =~= bits(before) + added);
    }
}

} // verus!
