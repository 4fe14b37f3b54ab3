//! The codec on whole values: a number to its bytes, and bytes to a number.

use vstd::prelude::*;
use crate::error::DecodeError;
use crate::bits::{lemma_final_byte, lemma_split_group};
use crate::laws::{
    lemma_continuation_run, lemma_encoding_len, lemma_encoding_len_bound, lemma_payload_sum_push,
};
use crate::model::{continues, decoding, encoded_len, encoding, payload_sum, MAX_ENCODED_LEN};
use crate::stream::{DecodeState, ReadEvent, Reading};

verus! {

/// An unsigned 64-bit integer that is written in the variable-length form.
#[derive(Clone, Copy, Debug, PartialEq, Eq)]
pub struct UnsignedVarint(pub u64);

impl View for UnsignedVarint {
    type V = nat;

    /// The number itself.
    open spec fn view(&self) -> nat {
        self.0 as nat
    }
}

impl UnsignedVarint {
    /// The encoded form of the value, in a buffer of its own.
    pub fn encode(&self) -> (bytes: Vec<u8>)
        ensures
            bytes@ == encoding(self@),
            bytes.len() == encoded_len(self@),
            1 <= bytes.len() <= MAX_ENCODED_LEN,
    {
        let mut bytes: Vec<u8> = Vec::new();
        self.write_to(&mut bytes);
        proof {
            lemma_encoding_len(self@);
            lemma_encoding_len_bound(self.0);
        }
        bytes
    }

    /// Appends the encoded form of the value to `sink`.
    ///
    /// The lowest seven bits go out first, with the continuation bit set
    /// as long as higher bits remain; the last byte has it clear.
    pub fn write_to(&self, sink: &mut Vec<u8>)
        ensures
            final(sink)@ == old(sink)@ + encoding(self@),
    {
        let mut number: u64 = self.0;
        while number >= 0x80
            invariant
                sink@ + encoding(number as nat) == old(sink)@ + encoding(self@),
            decreases number,
        {
            let part: u8 = ((number & 0x7f) as u8) | 0x80;
            proof {
                lemma_split_group(number);
            }
            sink.push(part);
            number >>= 7;
        }
        let last: u8 = (number as u8) & 0x7f;
        proof {
            lemma_final_byte(number);
        }
        sink.push(last);
    }

    /// Decodes the value at the front of `bytes` and says how many bytes it
    /// occupied. Bytes after the final byte of the value are not looked at.
    pub fn decode(bytes: &[u8]) -> (r: Result<(UnsignedVarint, usize), DecodeError>)
        ensures
            match r {
                Ok((value, used)) => decoding(bytes@) == Ok::<(nat, nat), DecodeError>(
                    (value@, used as nat),
                ),
                Err(e) => decoding(bytes@) == Err::<(nat, nat), DecodeError>(e),
            },
            r matches Ok((_, used)) ==> 1 <= used <= bytes.len() && used <= MAX_ENCODED_LEN,
    {
        let mut state = Reading::start();
        let mut taken: usize = 0;
        loop
            invariant
                state.wf(),
                taken == state.index(),
                taken <= bytes.len(),
                state.partial() == payload_sum(bytes@.take(taken as int)),
                forall|i: int| 0 <= i < taken ==> continues(#[trigger] bytes[i]),
            decreases MAX_ENCODED_LEN - taken,
        {
            let event = if taken < bytes.len() {
                ReadEvent::Byte(bytes[taken])
            } else {
                ReadEvent::Failure
            };
            proof {
                lemma_continuation_run(bytes@, taken as nat);
                if taken < bytes.len() {
                    let front = bytes@.take(taken as int);
                    lemma_payload_sum_push(front, bytes[taken as int]);
                    assert(front.push(bytes[taken as int]) =~= bytes@.take(taken + 1));
                    if continues(bytes[taken as int]) {
                        lemma_continuation_run(bytes@, (taken + 1) as nat);
                    }
                }
            }
            match state.step(event) {
                DecodeState::Reading(next) => {
                    state = next;
                    taken += 1;
                },
                DecodeState::Done(value) => {
                    return Ok((UnsignedVarint(value), taken + 1));
                },
                DecodeState::Failed(e) => {
                    return Err(e);
                },
            }
        }
    }
}

} // verus!
