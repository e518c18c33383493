//! Place masks: one bit for each place of a word, the lowest for the first.

use vstd::prelude::*;

use crate::word::WORD_LEN;

verus! {

/// The mask with only the bit of place `i`.
pub open spec fn position_bit(i: int) -> u16 {
    1u16 << (i as u16)
}

/// Whether the bit of place `i` is set in `mask`.
pub open spec fn mask_has(mask: u16, i: int) -> bool {
    mask & position_bit(i) != 0
}

/// How many of the first `n` places the mask records.
pub open spec fn places(mask: u16, n: int) -> nat
    decreases n,
{
    if n <= 0 {
        0
    } else {
        places(mask, n - 1) + if mask_has(mask, n - 1) {
            1nat
        } else {
            0nat
        }
    }
}

/// A mask as the tables hold it: some place is recorded, and every recorded
/// place is a place of a word.
pub open spec fn is_place_mask(mask: u16) -> bool {
    0 < mask < 32
}

/// The mask with only the bit of place `i`.
pub fn place_bit(i: usize) -> (bit: u16)
    requires
        i < WORD_LEN,
    ensures
        bit == position_bit(i as int),
{
    1u16 << (i as u16)
}

/// Whether the bit of place `i` is set in `mask`.
pub fn mask_contains(mask: u16, i: usize) -> (b: bool)
    requires
        i < WORD_LEN,
    ensures
        b == mask_has(mask, i as int),
{
    mask & place_bit(i) != 0
}

/// Setting bits by `|` sets exactly the bits of either side; a single-place
/// mask has the bit of its place and no other; the empty mask has no bit.
pub proof fn lemma_mask_bits(a: u16, b: u16, i: int, j: int)
    requires
        0 <= i < 16,
        0 <= j < 16,
    ensures
        mask_has(a | b, i) <==> mask_has(a, i) || mask_has(b, i),
        mask_has(position_bit(j), i) <==> i == j,
        !mask_has(0, i),
        a | 0 == a,
        0 | a == a,
{
    let p: u16 = i as u16;
    let q: u16 = j as u16;
    assert(((a | b) & (1u16 << p) != 0) <==> ((a & (1u16 << p) != 0) || (b & (1u16 << p) != 0)))
        by (bit_vector);
    assert(((1u16 << q) & (1u16 << p) != 0) <==> p == q) by (bit_vector)
        requires
            p < 16,
            q < 16,
    ;
    assert(0u16 & (1u16 << p) == 0) by (bit_vector);
    assert(a | 0 == a) by (bit_vector);
    assert(0 | a == a) by (bit_vector);
}

/// Adding a place of a word to a mask that is empty or a place mask gives a
/// place mask, and so does joining a place mask with one that is empty or a
/// place mask.
pub proof fn lemma_place_masks(a: u16, b: u16, i: int)
    requires
        0 <= i < WORD_LEN,
        a < 32,
        b < 32,
    ensures
        is_place_mask(a | position_bit(i)),
        a | b < 32,
        a != 0 ==> a | b != 0,
        b != 0 ==> a | b != 0,
{
    let p: u16 = i as u16;
    assert(0 < (a | (1u16 << p)) < 32) by (bit_vector)
        requires
            p < 5,
            a < 32,
    ;
    assert((a | b) < 32) by (bit_vector)
        requires
            a < 32,
            b < 32,
    ;
    assert(a != 0 ==> a | b != 0) by (bit_vector);
    assert(b != 0 ==> a | b != 0) by (bit_vector);
}

} // verus!
