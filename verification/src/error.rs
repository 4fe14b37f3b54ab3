//! The ways in which decoding can fail.

use vstd::prelude::*;

verus! {

/// Why a value could not be decoded.
#[derive(Clone, Copy, Debug, PartialEq, Eq, Structural)]
pub enum DecodeError {
    /// The byte source failed, or ended, before a final byte was read.
    Io,
    /// Ten bytes were read and every one of them announced a successor.
    TooLong,
}

} // verus!
