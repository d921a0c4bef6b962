//! What the framework takes from the intermediate language: the names of
//! its variables and its immediate constants.

use crate::entries::Key;
use vstd::arithmetic::power2::pow2;
use vstd::prelude::*;
use vstd::std_specs::cmp::PartialEqSpecImpl;

verus! {

/// A variable of the intermediate language: a name and a width in bits.
#[derive(Debug)]
pub struct Scalar {
    pub name: String,
    pub bits: usize,
}

/// The mathematical content of a [`Scalar`]. Two scalars are the same
/// variable exactly when their views are equal.
pub struct ScalarView {
    pub name: Seq<char>,
    pub bits: usize,
}

impl View for Scalar {
    type V = ScalarView;

    open spec fn view(&self) -> ScalarView {
        ScalarView { name: self.name@, bits: self.bits }
    }
}

impl Scalar {
    /// The variable called `name`, `bits` wide.
    pub fn new(name: &str, bits: usize) -> (r: Scalar)
        ensures
            r@ == (ScalarView { name: name@, bits }),
    {
        Scalar { name: name.to_owned(), bits }
    }

    /// The variable's name.
    pub fn name(&self) -> (r: &str)
        ensures
            r@ == self@.name,
    {
        self.name.as_str()
    }

    /// The variable's width in bits.
    pub fn bits(&self) -> (r: usize)
        ensures
            r == self@.bits,
    {
        self.bits
    }
}

impl Clone for Scalar {
    fn clone(&self) -> (r: Self)
        ensures
            r@ == self@,
    {
        Scalar { name: self.name.clone(), bits: self.bits }
    }
}

impl PartialEq for Scalar {
    fn eq(&self, other: &Self) -> (r: bool) {
        self.name == other.name && self.bits == other.bits
    }
}

impl PartialEqSpecImpl for Scalar {
    open spec fn obeys_eq_spec() -> bool {
        true
    }

    open spec fn eq_spec(&self, other: &Self) -> bool {
        self@ == other@
    }
}

impl Eq for Scalar {

}

impl Key for Scalar {
    fn same(&self, other: &Self) -> (r: bool) {
        self.name == other.name && self.bits == other.bits
    }

    fn duplicate(&self) -> (r: Self) {
        Scalar { name: self.name.clone(), bits: self.bits }
    }
}

/// An immediate of the intermediate language: an unsigned value and the
/// width in bits of the operand that holds it.
#[derive(Clone, Copy, Debug, PartialEq, Eq, Structural)]
pub struct Constant {
    pub value: u64,
    pub bits: usize,
}

impl Constant {
    /// A constant is well formed when its width is between 1 and 64 bits
    /// and its value fits that width.
    pub open spec fn wf(self) -> bool {
        1 <= self.bits <= 64 && self.value < pow2(self.bits as nat)
    }

    /// The constant of the given width whose value is `value` reduced to
    /// that width; `None` when the width is not between 1 and 64 bits.
    pub fn new(value: u64, bits: usize) -> (r: Option<Constant>)
        ensures
            1 <= bits <= 64 ==> r == Some(
                Constant { value: (value as nat % pow2(bits as nat)) as u64, bits },
            ),
            !(1 <= bits <= 64) ==> r is None,
            r matches Some(c) ==> c.wf(),
    {
        if bits == 0 || bits > 64 {
            return None;
        }
        let modulus: u128 = modulus(bits);
        let wide: u128 = value as u128;
        let reduced: u128 = wide % modulus;
        Some(Constant { value: reduced as u64, bits })
    }

    /// Whether the constant is well formed.
    pub fn is_wf(&self) -> (r: bool)
        ensures
            r == self.wf(),
    {
        if self.bits == 0 || self.bits > 64 {
            return false;
        }
        let wide: u128 = self.value as u128;
        wide < modulus(self.bits)
    }

    /// The constant's value.
    pub fn value(&self) -> (r: u64)
        ensures
            r == self.value,
    {
        self.value
    }

    /// The constant's width in bits.
    pub fn bits(&self) -> (r: usize)
        ensures
            r == self.bits,
    {
        self.bits
    }
}

/// Two to the power of `bits`, for widths up to 64 bits.
pub(crate) fn modulus(bits: usize) -> (m: u128)
    requires
        bits <= 64,
    ensures
        m == pow2(bits as nat),
        1 <= m <= 0x1_0000_0000_0000_0000,
{
    let mut m: u128 = 1;
    let mut i: usize = 0;
    proof {
        vstd::arithmetic::power2::lemma2_to64();
    }
    while i < bits
        invariant
            i <= bits <= 64,
            m == pow2(i as nat),
            1 <= m <= 0x1_0000_0000_0000_0000,
            pow2(64) == 0x1_0000_0000_0000_0000,
        decreases bits - i,
    {
        proof {
            vstd::arithmetic::power2::lemma_pow2_unfold((i + 1) as nat);
            if i + 1 < 64 {
                vstd::arithmetic::power2::lemma_pow2_strictly_increases((i + 1) as nat, 64);
            }
        }
        m = m * 2;
        i = i + 1;
    }
    m
}

} // verus!
