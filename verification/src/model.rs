//! The mathematical model of the wire format.

use vstd::prelude::*;
use vstd::arithmetic::power2::pow2;
use crate::error::DecodeError;

verus! {

/// The most bytes that an encoded value occupies, and the most that a
/// decoder reads.
pub const MAX_ENCODED_LEN: usize = 10;

/// Whether the high bit of `b` is set, announcing that another byte follows.
pub open spec fn continues(b: u8) -> bool {
    b >= 128
}

/// The number held in the seven low bits of `b`.
pub open spec fn payload(b: u8) -> nat {
    (b % 128) as nat
}

/// The encoded form of `v`: seven bits per byte, least significant group
/// first, every byte but the last marked with the continuation bit.
pub open spec fn encoding(v: nat) -> Seq<u8>
    decreases v,
{
    if v < 128 {
        seq![v as u8]
    } else {
        seq![(128 + v % 128) as u8] + encoding(v / 128)
    }
}

/// The number of binary digits of `v`; zero has none.
pub open spec fn bit_length(v: nat) -> nat
    decreases v,
{
    if v == 0 {
        0
    } else {
        1 + bit_length(v / 2)
    }
}

/// The length of the encoded form of `v`: one byte for every seven binary
/// digits or part thereof, and one byte for zero.
pub open spec fn encoded_len(v: nat) -> nat {
    let groups = (bit_length(v) + 6) / 7;
    if groups < 1 {
        1
    } else {
        groups
    }
}

/// The number that the payloads of `bytes` spell, the first byte being the
/// least significant group of seven bits. Continuation bits play no part.
pub open spec fn payload_sum(bytes: Seq<u8>) -> nat
    decreases bytes.len(),
{
    if bytes.len() == 0 {
        0
    } else {
        payload(bytes.first()) + 128 * payload_sum(bytes.drop_first())
    }
}

/// How many bytes at the front of `bytes` have their continuation bit set.
pub open spec fn continuation_run(bytes: Seq<u8>) -> nat
    decreases bytes.len(),
{
    if bytes.len() == 0 || !continues(bytes.first()) {
        0
    } else {
        1 + continuation_run(bytes.drop_first())
    }
}

/// What decoding makes of `bytes`.
///
/// The encoded value ends with the first byte whose continuation bit is
/// clear. If that byte is among the first ten, the result is the number that
/// the payloads up to and including it spell, together with how many bytes
/// that took. The tenth payload reaches past bit 63: what does not fit in 64
/// bits is dropped, not rejected. Ten continuation bytes in a row are
/// `TooLong`; input that ends before a final byte is `Io`.
pub open spec fn decoding(bytes: Seq<u8>) -> Result<(nat, nat), DecodeError> {
    let run = continuation_run(bytes);
    if run >= MAX_ENCODED_LEN {
        Err(DecodeError::TooLong)
    } else if run >= bytes.len() {
        Err(DecodeError::Io)
    } else {
        Ok((payload_sum(bytes.take(run + 1 as int)) % 0x1_0000_0000_0000_0000, run + 1))
    }
}

/// The weight of the payload at position `index`: two to the power of seven
/// times the index.
pub open spec fn place(index: nat) -> nat {
    pow2(7 * index)
}

} // verus!
