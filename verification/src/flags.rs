//! Capability flags exchanged in the identify payload.

use vstd::prelude::*;

verus! {

/// Bit of the only capability defined so far: a node that serves every
/// protocol.
pub const FULL_NODE_FLAG: u64 = 0x1;

/// A 64-bit capability bitset. The value 0 is invalid on the wire.
#[derive(Copy, Clone, Debug, Eq, PartialEq, Structural)]
pub struct Flags(pub u64);

impl Flags {
    /// Check whether every bit of `flags` is also set in `self`.
    pub fn contains(self, flags: Flags) -> (r: bool)
        ensures
            r == (self.0 & flags.0 == flags.0),
    {
        (self.0 & flags.0) == flags.0
    }
}

impl Flags {
    /// Wrap a raw bitset read off the wire.
    pub fn from_bits(value: u64) -> (r: Flags)
        ensures
            r.0 == value,
    {
        Flags(value)
    }
}

} // verus!
