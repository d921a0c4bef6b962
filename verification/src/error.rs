//! The ways in which an operation of an abstract domain can fail.

use vstd::prelude::*;

verus! {

/// Why a lattice operation, a memory access or a control effect was refused.
///
/// Every failure of the framework is one of these kinds; no operation
/// answers with a sentinel value in place of an error.
#[derive(Clone, Copy, Debug, PartialEq, Eq, Structural)]
pub enum Error {
    /// The operands violate a precondition of the lattice, most often
    /// because their bit-widths differ.
    LatticeInconsistency,
    /// A memory model cannot resolve an abstract address precisely
    /// enough to read or write through it.
    AbstractAddressTooImprecise,
    /// A branch condition or a raised value is one that the domain
    /// cannot interpret.
    UnsupportedControlEffect,
}

} // verus!
