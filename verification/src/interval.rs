//! Intervals: an abstraction of machine values by the range they lie in.
//!
//! An interval carries a width, a range of unsigned values, and the origin
//! of the value where that is known: the variable whose content it is, or
//! the test of a variable against a constant whose outcome it is. The
//! origin is what lets a branch narrow a variable.
//!
//! The type is plain data. Its operations are defined on every value of
//! it, and the laws of the lattice hold of every value.

use crate::domain::Value;
use crate::error::Error;
use crate::il::{modulus, Constant};
use vstd::arithmetic::power2::pow2;
use vstd::prelude::*;
use vstd::std_specs::cmp::PartialEqSpecImpl;

verus! {

/// A set of unsigned values: none, or all from `lo` to `hi`.
#[derive(Clone, Copy, Debug, PartialEq, Eq, Structural)]
pub enum Range {
    /// No value.
    Empty,
    /// The values from `lo` to `hi`, both included.
    Span { lo: u64, hi: u64 },
}

/// Where an abstract value comes from. The origins form a flat lattice
/// between `Unbound` and `Unknown`.
#[derive(Clone, Copy, Debug, PartialEq, Eq, Structural)]
pub enum Origin {
    /// Nothing is claimed: the origin of the bottom element.
    Unbound,
    /// The value is the content of the variable with this number.
    Variable(usize),
    /// The value is the outcome of testing whether the variable with this
    /// number equals this constant.
    Equality(usize, u64),
    /// The value is not known to be any of these.
    Unknown,
}

/// An abstract value: the values of `bits` bits that lie in `range`.
#[derive(Clone, Copy, Debug)]
pub struct Interval {
    pub bits: usize,
    pub range: Range,
    pub origin: Origin,
}

impl View for Interval {
    type V = Interval;

    open spec fn view(&self) -> Interval {
        *self
    }
}

impl PartialEq for Interval {
    fn eq(&self, other: &Self) -> (r: bool) {
        self.bits == other.bits && self.range == other.range && self.origin == other.origin
    }
}

impl PartialEqSpecImpl for Interval {
    open spec fn obeys_eq_spec() -> bool {
        true
    }

    open spec fn eq_spec(&self, other: &Self) -> bool {
        self.bits == other.bits && self.range == other.range && self.origin == other.origin
    }
}

impl Eq for Interval {

}

/// The smallest range that holds both `a` and `b`.
pub open spec fn join_ranges(a: Range, b: Range) -> Range {
    match a {
        Range::Empty => b,
        Range::Span { lo: a_lo, hi: a_hi } => match b {
            Range::Empty => a,
            Range::Span { lo: b_lo, hi: b_hi } => Range::Span {
                lo: if a_lo <= b_lo {
                    a_lo
                } else {
                    b_lo
                },
                hi: if a_hi >= b_hi {
                    a_hi
                } else {
                    b_hi
                },
            },
        },
    }
}

/// The join of two origins: the one that says something where the other
/// is `Unbound`, the common one where they agree, and `Unknown` where they
/// disagree.
pub open spec fn join_origins(a: Origin, b: Origin) -> Origin {
    match a {
        Origin::Unbound => b,
        _ => match b {
            Origin::Unbound => a,
            _ => if a == b {
                a
            } else {
                Origin::Unknown
            },
        },
    }
}

impl Interval {
    /// The interval of `bits` bits that holds every value of that width.
    pub open spec fn any_spec(bits: usize) -> Interval {
        Interval {
            bits,
            range: Range::Span { lo: 0, hi: (pow2(bits as nat) - 1) as u64 },
            origin: Origin::Unknown,
        }
    }

    /// The constant that the interval stands for, where its range holds
    /// one value alone.
    pub open spec fn known_spec(self) -> Option<Constant> {
        match self.range {
            Range::Span { lo, hi } => if lo == hi {
                Some(Constant { value: lo, bits: self.bits })
            } else {
                None
            },
            Range::Empty => None,
        }
    }

    /// The interval that holds every value of `bits` bits; `None` when the
    /// width is not between 1 and 64 bits.
    pub fn any(bits: usize) -> (r: Option<Interval>)
        ensures
            1 <= bits <= 64 ==> r == Some(Self::any_spec(bits)),
            !(1 <= bits <= 64) ==> r is None,
    {
        if bits == 0 || bits > 64 {
            return None;
        }
        let hi: u128 = modulus(bits) - 1;
        Some(
            Interval {
                bits,
                range: Range::Span { lo: 0, hi: hi as u64 },
                origin: Origin::Unknown,
            },
        )
    }

    /// The same interval as the content of the variable with the number
    /// `variable`.
    pub fn bound_to(self, variable: usize) -> (r: Interval)
        ensures
            r == (Interval { bits: self.bits, range: self.range, origin: Origin::Variable(variable) }),
    {
        Interval { bits: self.bits, range: self.range, origin: Origin::Variable(variable) }
    }

    /// Whether the interval holds no value.
    pub fn is_empty(&self) -> (r: bool)
        ensures
            r == (self.range is Empty),
    {
        match self.range {
            Range::Empty => true,
            Range::Span { .. } => false,
        }
    }

    /// The constant that the interval stands for, where its range holds
    /// one value alone.
    pub fn known(&self) -> (r: Option<Constant>)
        ensures
            r == self.known_spec(),
    {
        match self.range {
            Range::Span { lo, hi } => if lo == hi {
                Some(Constant { value: lo, bits: self.bits })
            } else {
                None
            },
            Range::Empty => None,
        }
    }
}

impl Value for Interval {
    open spec fn width(v: Interval) -> usize {
        v.bits
    }

    /// Intervals of one width are joined part by part; intervals of
    /// different widths have no join.
    open spec fn join_spec(a: Interval, b: Interval) -> Result<Interval, Error> {
        if a.bits != b.bits {
            Err(Error::LatticeInconsistency)
        } else {
            Ok(
                Interval {
                    bits: a.bits,
                    range: join_ranges(a.range, b.range),
                    origin: join_origins(a.origin, b.origin),
                },
            )
        }
    }

    open spec fn empty_spec(bits: usize) -> Interval {
        Interval { bits, range: Range::Empty, origin: Origin::Unbound }
    }

    open spec fn constant_spec(constant: Constant) -> Interval {
        Interval {
            bits: constant.bits,
            range: Range::Span { lo: constant.value, hi: constant.value },
            origin: Origin::Unknown,
        }
    }

    fn join(&self, other: &Self) -> (r: Result<Self, Error>) {
        if self.bits != other.bits {
            return Err(Error::LatticeInconsistency);
        }
        let range = match self.range {
            Range::Empty => other.range,
            Range::Span { lo: a_lo, hi: a_hi } => match other.range {
                Range::Empty => self.range,
                Range::Span { lo: b_lo, hi: b_hi } => Range::Span {
                    lo: if a_lo <= b_lo {
                        a_lo
                    } else {
                        b_lo
                    },
                    hi: if a_hi >= b_hi {
                        a_hi
                    } else {
                        b_hi
                    },
                },
            },
        };
        let origin = match self.origin {
            Origin::Unbound => other.origin,
            _ => match other.origin {
                Origin::Unbound => self.origin,
                _ => if self.origin == other.origin {
                    self.origin
                } else {
                    Origin::Unknown
                },
            },
        };
        Ok(Interval { bits: self.bits, range, origin })
    }

    fn empty(bits: usize) -> (r: Self) {
        Interval { bits, range: Range::Empty, origin: Origin::Unbound }
    }

    fn constant(constant: Constant) -> (r: Self) {
        Interval {
            bits: constant.bits,
            range: Range::Span { lo: constant.value, hi: constant.value },
            origin: Origin::Unknown,
        }
    }

    proof fn lemma_join_commutative(a: Interval, b: Interval) {
    }

    proof fn lemma_join_idempotent(a: Interval) {
    }

    proof fn lemma_join_empty(a: Interval) {
    }

    proof fn lemma_join_upper_bound(a: Interval, b: Interval) {
    }

    proof fn lemma_join_width(a: Interval, b: Interval) {
    }

    proof fn lemma_empty_width(bits: usize) {
    }

    proof fn lemma_constant_width(constant: Constant) {
    }

    proof fn lemma_clone(a: Self, b: Self) {
    }

    proof fn lemma_eq(a: Self, b: Self) {
    }
}

} // verus!
