//! Types shared by every analysis.

use vstd::prelude::*;

verus! {

/// The order in which the bytes of a multi-byte value lie in memory.
#[derive(Clone, Copy, Debug, PartialEq, Eq, Structural)]
pub enum Endian {
    /// The most significant byte lies at the lowest address.
    Big,
    /// The least significant byte lies at the lowest address.
    Little,
}

} // verus!
