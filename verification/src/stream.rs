//! Decoding one byte at a time, for sources that hand over their bytes one
//! by one: the caller asks its source for a byte, tells the decoder what
//! came of it, and learns whether to ask again.

use vstd::prelude::*;
use crate::bits::{lemma_merge, lemma_place_step, lemma_split_byte};
use crate::error::DecodeError;
use crate::model::{continues, payload, place, MAX_ENCODED_LEN};

verus! {

/// What a byte source delivered when it was asked for one byte.
#[derive(Clone, Copy, Debug, PartialEq, Eq)]
pub enum ReadEvent {
    /// The next byte of the input.
    Byte(u8),
    /// No byte: the source failed or is exhausted.
    Failure,
}

/// A decoder that waits for its next byte: how many it has taken in, and
/// the bits they carried.
#[derive(Clone, Copy, Debug, PartialEq, Eq)]
pub struct Reading {
    index: u8,
    partial: u64,
}

/// Where a decoder stands after a byte source has answered.
#[derive(Clone, Copy, Debug, PartialEq, Eq)]
pub enum DecodeState {
    /// More input is needed.
    Reading(Reading),
    /// The final byte came in: the decoded value.
    Done(u64),
    /// Decoding has failed.
    Failed(DecodeError),
}

impl Reading {
    /// The number of bytes taken in so far, all of them continuation bytes.
    pub closed spec fn index(self) -> nat {
        self.index as nat
    }

    /// The number that the payloads taken in so far spell.
    pub closed spec fn partial(self) -> nat {
        self.partial as nat
    }

    /// At most nine bytes are in, and the bits they carried lie below the
    /// place of the next payload.
    #[verifier::type_invariant]
    pub open spec fn wf(self) -> bool {
        &&& self.index() < MAX_ENCODED_LEN
        &&& self.partial() < place(self.index())
    }

    /// The state before any byte has been read.
    pub fn start() -> (r: Reading)
        ensures
            r.wf(),
            r.index() == 0,
            r.partial() == 0,
    {
        proof {
            lemma_place_step(0);
        }
        Reading { index: 0, partial: 0 }
    }

    /// Takes in what the byte source delivered and says how decoding goes
    /// on.
    ///
    /// A failure of the source ends decoding with `Io`. A byte has its
    /// payload added at place `index`. If its continuation bit is clear the
    /// value is complete; of a tenth payload, what does not fit in 64 bits
    /// is dropped. If the bit is set, the decoder reads on, unless this was
    /// the tenth byte: then decoding ends with `TooLong`.
    pub fn step(self, event: ReadEvent) -> (next: DecodeState)
        ensures
            match event {
                ReadEvent::Failure => next == DecodeState::Failed(DecodeError::Io),
                ReadEvent::Byte(b) => {
                    let sum = self.partial() + payload(b) * place(self.index());
                    if !continues(b) {
                        next == DecodeState::Done((sum % 0x1_0000_0000_0000_0000) as u64)
                    } else if self.index() + 1 == MAX_ENCODED_LEN {
                        next == DecodeState::Failed(DecodeError::TooLong)
                    } else {
                        &&& next matches DecodeState::Reading(r)
                        &&& r.wf()
                        &&& r.index() == self.index() + 1
                        &&& r.partial() == sum
                    }
                },
            },
    {
        proof {
            use_type_invariant(&self);
        }
        match event {
            ReadEvent::Failure => DecodeState::Failed(DecodeError::Io),
            ReadEvent::Byte(b) => {
                let byte: u64 = b as u64;
                let is_last_byte = byte & 0x80 == 0;
                let shift: u64 = 7 * (self.index as u64);
                let number: u64 = self.partial | ((byte & 0x7f) << shift);
                proof {
                    lemma_split_byte(b);
                    lemma_merge(self.partial, byte & 0x7f, self.index as nat);
                }
                if is_last_byte {
                    DecodeState::Done(number)
                } else if self.index == 9 {
                    DecodeState::Failed(DecodeError::TooLong)
                } else {
                    DecodeState::Reading(Reading { index: self.index + 1, partial: number })
                }
            },
        }
    }
}

} // verus!
