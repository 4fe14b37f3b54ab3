//! Variable-length encoding of unsigned 64-bit integers.
//!
//! A value is written as one to ten bytes. Each byte carries seven bits of
//! the value in its low bits, least significant group first, and its high
//! bit says whether another byte follows.

mod bits;
pub mod codec;
pub mod error;
pub mod laws;
pub mod model;
pub mod stream;

pub use codec::UnsignedVarint;
pub use error::DecodeError;
pub use model::MAX_ENCODED_LEN;
pub use stream::{DecodeState, ReadEvent, Reading};
