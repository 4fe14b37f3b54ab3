//! What holds of the encoded form and of decoding, for every value and
//! every input.

use vstd::prelude::*;
use vstd::arithmetic::div_mod::lemma_div_denominator;
use vstd::arithmetic::power2::{lemma2_to64, lemma2_to64_rest, lemma_pow2_unfold, pow2};
use crate::bits::lemma_place_step;
use crate::error::DecodeError;
use crate::model::{
    bit_length, continuation_run, continues, decoding, encoded_len, encoding, payload,
    payload_sum, place, MAX_ENCODED_LEN,
};

verus! {

/// Seven more binary digits than the number without its lowest group of
/// seven bits.
proof fn lemma_bit_length_drop_group(v: nat)
    requires
        v >= 128,
    ensures
        bit_length(v) == 7 + bit_length(v / 128),
{
    reveal_with_fuel(bit_length, 8);
}

/// A number below two to the `n` has at most `n` binary digits.
proof fn lemma_bit_length_bound(v: nat, n: nat)
    requires
        v < pow2(n),
    ensures
        bit_length(v) <= n,
    decreases n,
{
    if v > 0 {
        if n == 0 {
            lemma2_to64();
        } else {
            lemma_pow2_unfold(n);
            lemma_bit_length_bound(v / 2, (n - 1) as nat);
        }
    }
}

/// Minimality: the encoded form of `v` has one byte for every seven binary
/// digits of `v`, or part thereof, and one byte where `v` is zero.
pub proof fn lemma_encoding_len(v: nat)
    ensures
        encoding(v).len() == encoded_len(v),
    decreases v,
{
    if v < 128 {
        reveal_with_fuel(bit_length, 9);
    } else {
        lemma_bit_length_drop_group(v);
        lemma_encoding_len(v / 128);
    }
}

/// Bound: a value of 64 bits takes at most ten bytes.
pub proof fn lemma_encoding_len_bound(v: u64)
    ensures
        1 <= encoding(v as nat).len() <= MAX_ENCODED_LEN,
{
    lemma_encoding_len(v as nat);
    lemma2_to64_rest();
    lemma_bit_length_bound(v as nat, 64);
}

/// A further byte adds its payload at the place after those already there.
pub proof fn lemma_payload_sum_push(bytes: Seq<u8>, b: u8)
    ensures
        payload_sum(bytes.push(b)) == payload_sum(bytes) + payload(b) * place(bytes.len()),
    decreases bytes.len(),
{
    let longer = bytes.push(b);
    if bytes.len() == 0 {
        assert(payload_sum(longer.drop_first()) == 0);
        lemma_place_step(0);
        assert(payload(b) * place(0) == payload(b)) by (nonlinear_arith)
            requires
                place(0) == 1,
        ;
    } else {
        let rest = bytes.drop_first();
        let high = payload(b) * place(rest.len());
        assert(longer.drop_first() =~= rest.push(b));
        lemma_payload_sum_push(rest, b);
        lemma_place_step(rest.len());
        assert(128 * high == payload(b) * place(bytes.len())) by (nonlinear_arith)
            requires
                high == payload(b) * place(rest.len()),
                place(bytes.len()) == 128 * place(rest.len()),
        ;
    }
}

/// The run of continuation bytes at the front of `bytes` is at least as
/// long as any stretch of them that starts there, and ends with the input
/// or before the first byte whose continuation bit is clear.
pub proof fn lemma_continuation_run(bytes: Seq<u8>, n: nat)
    requires
        n <= bytes.len(),
        forall|i: int| 0 <= i < n ==> continues(#[trigger] bytes[i]),
    ensures
        continuation_run(bytes) >= n,
        n == bytes.len() || !continues(bytes[n as int]) ==> continuation_run(bytes) == n,
    decreases n,
{
    if n > 0 {
        let rest = bytes.drop_first();
        assert forall|i: int| 0 <= i < n - 1 implies continues(#[trigger] rest[i]) by {
            assert(rest[i] == bytes[i + 1]);
        }
        lemma_continuation_run(rest, (n - 1) as nat);
    }
}

/// The run of continuation bytes consists of continuation bytes, and the
/// byte after it, if there is one, has its continuation bit clear.
pub proof fn lemma_continuation_run_ends(bytes: Seq<u8>)
    ensures
        continuation_run(bytes) <= bytes.len(),
        forall|i: int| 0 <= i < continuation_run(bytes) ==> continues(#[trigger] bytes[i]),
        continuation_run(bytes) < bytes.len() ==> !continues(
            bytes[continuation_run(bytes) as int],
        ),
    decreases bytes.len(),
{
    if bytes.len() > 0 && continues(bytes.first()) {
        let rest = bytes.drop_first();
        lemma_continuation_run_ends(rest);
        assert forall|i: int| 0 <= i < continuation_run(bytes) implies continues(
            #[trigger] bytes[i],
        ) by {
            if i > 0 {
                assert(bytes[i] == rest[i - 1]);
            }
        }
    }
}

/// Shape of the encoded form: every byte but the last has its continuation
/// bit set, the last has it clear, and the last is zero only where it is
/// the only one. No encoded form ends in a group of seven zero bits that
/// could have been left out.
pub proof fn lemma_encoding_shape(v: nat)
    ensures
        encoding(v).len() >= 1,
        forall|i: int| 0 <= i < encoding(v).len() - 1 ==> continues(#[trigger] encoding(v)[i]),
        !continues(encoding(v).last()),
        encoding(v).len() > 1 ==> encoding(v).last() != 0,
    decreases v,
{
    if v >= 128 {
        let rest = encoding(v / 128);
        lemma_encoding_shape(v / 128);
        assert forall|i: int| 0 <= i < encoding(v).len() - 1 implies continues(
            #[trigger] encoding(v)[i],
        ) by {
            if i > 0 {
                assert(encoding(v)[i] == rest[i - 1]);
            }
        }
    }
}

/// Layout of the encoded form: the byte at position `i` carries the seven
/// bits of `v` that start at bit `7 * i`.
pub proof fn lemma_encoding_groups(v: nat, i: nat)
    requires
        i < encoding(v).len(),
    ensures
        payload(encoding(v)[i as int]) == (v / place(i)) % 128,
    decreases i,
{
    if i == 0 {
        lemma_place_step(0);
        assert(v / 1 == v);
    } else {
        let before = (i - 1) as nat;
        lemma_encoding_groups(v / 128, before);
        lemma_place_step(before);
        lemma_div_denominator(v as int, 128, place(before) as int);
    }
}

/// The payloads of the encoded form of `v` spell `v`.
pub proof fn lemma_encoding_payload_sum(v: nat)
    ensures
        payload_sum(encoding(v)) == v,
    decreases v,
{
    if v < 128 {
        assert(payload_sum(encoding(v).drop_first()) == 0);
    } else {
        lemma_encoding_payload_sum(v / 128);
        assert(encoding(v).drop_first() =~= encoding(v / 128));
    }
}

/// Round trip: decoding the encoded form of `v` gives `v` back and takes
/// exactly the bytes of the encoded form, whatever follows them.
pub proof fn lemma_round_trip(v: u64, rest: Seq<u8>)
    ensures
        decoding(encoding(v as nat)) == Ok::<(nat, nat), DecodeError>(
            (v as nat, encoding(v as nat).len()),
        ),
        decoding(encoding(v as nat) + rest) == Ok::<(nat, nat), DecodeError>(
            (v as nat, encoding(v as nat).len()),
        ),
{
    let encoded = encoding(v as nat);
    let last = (encoded.len() - 1) as nat;
    lemma_encoding_shape(v as nat);
    lemma_encoding_len_bound(v);
    lemma_encoding_payload_sum(v as nat);
    lemma_continuation_run(encoded, last);
    assert(encoded.take(encoded.len() as int) =~= encoded);
    let longer = encoded + rest;
    assert forall|i: int| 0 <= i < last implies continues(#[trigger] longer[i]) by {
        assert(longer[i] == encoded[i]);
    }
    lemma_continuation_run(longer, last);
    assert(longer.take(encoded.len() as int) =~= encoded);
}

/// Bounded decoding, the failure: decoding is `TooLong` exactly where the
/// input begins with ten continuation bytes.
pub proof fn lemma_too_long(bytes: Seq<u8>)
    ensures
        decoding(bytes) == Err::<(nat, nat), DecodeError>(DecodeError::TooLong) <==> {
            &&& bytes.len() >= MAX_ENCODED_LEN
            &&& forall|i: int| 0 <= i < MAX_ENCODED_LEN ==> continues(#[trigger] bytes[i])
        },
{
    lemma_continuation_run_ends(bytes);
}

/// Decoding is `Io` exactly where the input has fewer than ten bytes and
/// all of them are continuation bytes: it ends before the value does.
pub proof fn lemma_input_ends_early(bytes: Seq<u8>)
    ensures
        decoding(bytes) == Err::<(nat, nat), DecodeError>(DecodeError::Io) <==> {
            &&& bytes.len() < MAX_ENCODED_LEN
            &&& forall|i: int| 0 <= i < bytes.len() ==> continues(#[trigger] bytes[i])
        },
{
    lemma_continuation_run_ends(bytes);
}

/// Bounded decoding, the success: where at most nine continuation bytes
/// are followed by a byte whose continuation bit is clear, decoding
/// succeeds. It takes the bytes up to and including that one, and gives
/// the number that their payloads spell, cut to 64 bits.
pub proof fn lemma_terminated_decodes(bytes: Seq<u8>, run: nat)
    requires
        run < MAX_ENCODED_LEN,
        run < bytes.len(),
        forall|i: int| 0 <= i < run ==> continues(#[trigger] bytes[i]),
        !continues(bytes[run as int]),
    ensures
        decoding(bytes) == Ok::<(nat, nat), DecodeError>(
            (payload_sum(bytes.take(run + 1 as int)) % 0x1_0000_0000_0000_0000, run + 1),
        ),
{
    lemma_continuation_run(bytes, run);
}

} // verus!
