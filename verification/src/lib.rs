//! A verified variable-length integer (LEB128 varint) codec.
//!
//! Unsigned integers of 8/16/32/64-bit width are converted to and from the
//! compact base-128 wire encoding used by many serialization formats: each
//! byte carries seven value bits, and the high bit of a byte says whether
//! another byte follows.  The decoders work on fixed 16- or 32-byte windows,
//! mirroring a vector-register formulation of the algorithm: a continuation
//! bitmask is taken over the window, varint boundaries are found by scanning
//! that mask, and the surviving 7-bit lanes are gathered back into a scalar.
//!
//! The checked entry points ([`decode`], [`decode_zigzag`], [`decode_len`])
//! accept slices of any length and report [`VarIntDecodeError`] instead of
//! reading out of bounds or silently truncating.  The window-based entry
//! points (`*_unsafe`, named for their place in the API they implement) state
//! their minimum-window preconditions as `requires` clauses and are verified
//! never to read outside the given slice.

use vstd::prelude::*;

pub mod decode;
pub mod encode;
pub mod lanes;
pub mod laws;
pub mod lookup;
pub mod model;
pub mod num;

pub use decode::{
    decode, decode_eight_u8_unsafe, decode_four_unsafe, decode_len, decode_len_unsafe,
    decode_two_unsafe, decode_two_wide_unsafe, decode_unsafe, decode_zigzag,
};
pub use encode::{encode, encode_to_slice, encode_unsafe, encode_zigzag};
pub use num::{SignedVarIntTarget, VarIntTarget};


verus! {

/// Error reported by the checked decoding entry points.
#[derive(Clone, Copy, Debug, PartialEq, Eq, Structural)]
pub enum VarIntDecodeError {
    /// The varint ran to the type's maximum byte count and its final byte
    /// pushed the decoded value past the type's range.
    Overflow,
    /// The input slice is empty, or the varint claims more bytes than the
    /// slice holds.
    NotEnoughBytes,
}

} // verus!
