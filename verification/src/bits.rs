//! Facts that tie the masks and shifts of the codec to arithmetic.

use vstd::prelude::*;
use vstd::arithmetic::mul::{lemma_mul_inequality, lemma_mul_upper_bound};
use vstd::arithmetic::power2::{
    lemma2_to64, lemma2_to64_rest, lemma_pow2_adds, lemma_pow2_pos, lemma_pow2_strictly_increases,
    pow2,
};
use vstd::bits::lemma_u64_shl_is_mul;
use crate::model::{continues, payload, place};

verus! {

/// Each place weighs 128 times the one before it.
pub(crate) proof fn lemma_place_step(index: nat)
    ensures
        place(0) == 1,
        place(index + 1) == 128 * place(index),
        place(index) > 0,
{
    lemma2_to64();
    lemma_pow2_adds(7 * index, 7);
    lemma_pow2_pos(7 * index);
}

/// The two masks that take a byte apart: `0x80` tests the continuation
/// bit, `0x7f` keeps the payload.
pub(crate) proof fn lemma_split_byte(b: u8)
    ensures
        ((b as u64) & 0x80 == 0) <==> !continues(b),
        (b as u64) & 0x7f == payload(b),
{
    let byte: u64 = b as u64;
    assert((byte & 0x80 == 0) <==> byte < 128) by (bit_vector)
        requires
            byte < 256,
    ;
    assert(byte & 0x7f == byte % 128) by (bit_vector);
}

/// Taking the lowest seven bits off a number: the byte that carries them
/// with the continuation bit set, and what is left of the number.
pub(crate) proof fn lemma_split_group(number: u64)
    ensures
        number & 0x7f < 128,
        (((number & 0x7f) as u8) | 0x80u8) == 128 + number % 128,
        number >> 7 == number / 128,
{
    assert(number & 0x7f < 128) by (bit_vector);
    assert((((number & 0x7f) as u8) | 0x80u8) == 128 + number % 128) by (bit_vector);
    assert(number >> 7 == number / 128) by (bit_vector);
}

/// A number of seven bits is its own final byte.
pub(crate) proof fn lemma_final_byte(number: u64)
    requires
        number < 128,
    ensures
        ((number as u8) & 0x7fu8) == number,
{
    assert(((number as u8) & 0x7fu8) == number) by (bit_vector)
        requires
            number < 128,
    ;
}

/// Below the bits that a shifted payload occupies, `|` adds.
proof fn lemma_or_adds(partial: u64, p: u64, shift: u64)
    by (bit_vector)
    requires
        shift < 64,
        partial < (1u64 << shift),
    ensures
        (partial | (p << shift)) == partial + (p << shift),
{
}

/// Shifting by 63 keeps the lowest bit of the payload and no other.
proof fn lemma_shift_top(p: u64)
    by (bit_vector)
    ensures
        p << 63 == (p % 2) * 0x8000_0000_0000_0000,
{
}

/// Merging a payload into the bits read so far adds it at its place; of the
/// tenth payload only what fits in 64 bits is kept.
pub(crate) proof fn lemma_merge(partial: u64, p: u64, index: nat)
    requires
        index < 10,
        partial < place(index),
        p < 128,
    ensures
        (partial | (p << ((7 * index) as u64))) == (partial + p * place(index))
            % 0x1_0000_0000_0000_0000,
        index < 9 ==> partial + p * place(index) < place(index + 1) <= 0x8000_0000_0000_0000,
{
    let shift: u64 = (7 * index) as u64;
    lemma2_to64_rest();
    lemma_place_step(index);
    if shift < 63 {
        lemma_pow2_strictly_increases(shift as nat, 63);
    }
    lemma_u64_shl_is_mul(1, shift);
    lemma_or_adds(partial, p, shift);
    if index < 9 {
        if shift < 56 {
            lemma_pow2_strictly_increases(shift as nat, 56);
        }
        lemma_mul_upper_bound(p as int, 127, pow2(shift as nat) as int, pow2(56) as int);
        lemma_u64_shl_is_mul(p, shift);
        lemma_mul_inequality(p as int, 127, place(index) as int);
    } else {
        lemma_shift_top(p);
    }
}

} // verus!
