//! The operators of the intermediate language and what they compute on
//! constants.
//!
//! A constant of `n` bits stands for an integer below two to the `n`, and
//! as a signed operand for the integer of the same residue that lies
//! between minus two to the `n - 1` and two to the `n - 1`. Arithmetic is
//! that of the integers, reduced to the operands' width.

use crate::il::{modulus, Constant};
use vstd::arithmetic::power2::pow2;
use vstd::prelude::*;

verus! {

/// A binary operator of the intermediate language.
#[derive(Clone, Copy, Debug, PartialEq, Eq, Structural)]
pub enum Operator {
    Add,
    Sub,
    Mul,
    Divu,
    Modu,
    Divs,
    Mods,
    And,
    Or,
    Xor,
    Shl,
    Shr,
    Cmpeq,
    Cmpneq,
    Cmpltu,
    Cmplts,
}

/// An operator that changes the width of its operand.
#[derive(Clone, Copy, Debug, PartialEq, Eq, Structural)]
pub enum Extension {
    Zext,
    Sext,
    Trun,
}

/// The integer `x` reduced to `bits` bits: its residue modulo two to the
/// `bits`, which is never negative.
pub open spec fn wrap(x: int, bits: usize) -> int {
    x % (pow2(bits as nat) as int)
}

/// The constant of the given width that holds `x` reduced to that width.
pub open spec fn wrapped(x: int, bits: usize) -> Constant {
    Constant { value: wrap(x, bits) as u64, bits }
}

/// The constant of the given width that holds the low `bits` bits of `x`.
pub open spec fn reduced(x: u64, bits: usize) -> Constant {
    wrapped(x as int, bits)
}

/// The integer that a constant stands for as a signed operand.
pub open spec fn signed(c: Constant) -> int {
    if c.value >= pow2((c.bits - 1) as nat) {
        c.value - pow2(c.bits as nat)
    } else {
        c.value as int
    }
}

/// The distance of an integer from zero.
pub open spec fn magnitude(x: int) -> int {
    if x < 0 {
        -x
    } else {
        x
    }
}

/// The quotient of two integers, rounded toward zero.
pub open spec fn quotient_toward_zero(a: int, b: int) -> int {
    if (a < 0) == (b < 0) {
        magnitude(a) / magnitude(b)
    } else {
        -(magnitude(a) / magnitude(b))
    }
}

/// The remainder that goes with [`quotient_toward_zero`]: it has the sign
/// of the dividend.
pub open spec fn remainder_toward_zero(a: int, b: int) -> int {
    if a < 0 {
        -(magnitude(a) % magnitude(b))
    } else {
        magnitude(a) % magnitude(b)
    }
}

/// The truth value `b` as a constant of one bit.
pub open spec fn truth(b: bool) -> Constant {
    Constant {
        value: if b {
            1
        } else {
            0
        },
        bits: 1,
    }
}

/// `lhs` shifted left by `rhs` bits, in the width of `lhs`. A shift by the
/// width or more leaves nothing.
pub open spec fn shifted_left(lhs: Constant, rhs: Constant) -> Constant {
    if rhs.value >= lhs.bits {
        Constant { value: 0, bits: lhs.bits }
    } else {
        wrapped(lhs.value * pow2(rhs.value as nat), lhs.bits)
    }
}

/// `lhs` shifted right by `rhs` bits. A shift by the width or more leaves
/// nothing.
pub open spec fn shifted_right(lhs: Constant, rhs: Constant) -> Constant {
    if rhs.value >= lhs.bits {
        Constant { value: 0, bits: lhs.bits }
    } else {
        Constant { value: (lhs.value as int / pow2(rhs.value as nat) as int) as u64, bits: lhs.bits }
    }
}

/// The unsigned quotient of two constants.
pub open spec fn unsigned_quotient(lhs: Constant, rhs: Constant) -> Constant {
    Constant { value: (lhs.value as int / rhs.value as int) as u64, bits: lhs.bits }
}

/// The unsigned remainder of two constants.
pub open spec fn unsigned_remainder(lhs: Constant, rhs: Constant) -> Constant {
    Constant { value: (lhs.value as int % rhs.value as int) as u64, bits: lhs.bits }
}

impl Operator {
    /// What the operator computes on two constants.
    ///
    /// It is defined on well-formed constants of one width, and for the
    /// four divisions only where the divisor is not zero. A comparison
    /// gives a constant of one bit, every other operator one of the
    /// operands' width.
    pub open spec fn apply_spec(self, lhs: Constant, rhs: Constant) -> Option<Constant> {
        if !lhs.wf() || !rhs.wf() || lhs.bits != rhs.bits {
            None
        } else {
            match self {
                Operator::Add => Some(wrapped(lhs.value + rhs.value, lhs.bits)),
                Operator::Sub => Some(wrapped(lhs.value - rhs.value, lhs.bits)),
                Operator::Mul => Some(wrapped(lhs.value * rhs.value, lhs.bits)),
                Operator::Divu => if rhs.value == 0 {
                    None
                } else {
                    Some(unsigned_quotient(lhs, rhs))
                },
                Operator::Modu => if rhs.value == 0 {
                    None
                } else {
                    Some(unsigned_remainder(lhs, rhs))
                },
                Operator::Divs => if rhs.value == 0 {
                    None
                } else {
                    Some(wrapped(quotient_toward_zero(signed(lhs), signed(rhs)), lhs.bits))
                },
                Operator::Mods => if rhs.value == 0 {
                    None
                } else {
                    Some(wrapped(remainder_toward_zero(signed(lhs), signed(rhs)), lhs.bits))
                },
                Operator::And => Some(reduced(lhs.value & rhs.value, lhs.bits)),
                Operator::Or => Some(reduced(lhs.value | rhs.value, lhs.bits)),
                Operator::Xor => Some(reduced(lhs.value ^ rhs.value, lhs.bits)),
                Operator::Shl => Some(shifted_left(lhs, rhs)),
                Operator::Shr => Some(shifted_right(lhs, rhs)),
                Operator::Cmpeq => Some(truth(lhs.value == rhs.value)),
                Operator::Cmpneq => Some(truth(lhs.value != rhs.value)),
                Operator::Cmpltu => Some(truth(lhs.value < rhs.value)),
                Operator::Cmplts => Some(truth(signed(lhs) < signed(rhs))),
            }
        }
    }

    /// Apply the operator to two constants.
    pub fn apply(self, lhs: Constant, rhs: Constant) -> (r: Option<Constant>)
        ensures
            r == self.apply_spec(lhs, rhs),
    {
        if !lhs.is_wf() || !rhs.is_wf() || lhs.bits != rhs.bits {
            return None;
        }
        match self {
            Operator::Add => Some(sum_of(lhs, rhs)),
            Operator::Sub => Some(difference_of(lhs, rhs)),
            Operator::Mul => Some(product_of(lhs, rhs)),
            Operator::Divu => if rhs.value == 0 {
                None
            } else {
                Some(Constant { value: lhs.value / rhs.value, bits: lhs.bits })
            },
            Operator::Modu => if rhs.value == 0 {
                None
            } else {
                Some(Constant { value: lhs.value % rhs.value, bits: lhs.bits })
            },
            Operator::Divs => if rhs.value == 0 {
                None
            } else {
                Some(signed_quotient_of(lhs, rhs))
            },
            Operator::Mods => if rhs.value == 0 {
                None
            } else {
                Some(signed_remainder_of(lhs, rhs))
            },
            Operator::And => Some(reduced_of(lhs.value & rhs.value, lhs.bits)),
            Operator::Or => Some(reduced_of(lhs.value | rhs.value, lhs.bits)),
            Operator::Xor => Some(reduced_of(lhs.value ^ rhs.value, lhs.bits)),
            Operator::Shl => Some(shifted_left_of(lhs, rhs)),
            Operator::Shr => Some(shifted_right_of(lhs, rhs)),
            Operator::Cmpeq => Some(truth_of(lhs.value == rhs.value)),
            Operator::Cmpneq => Some(truth_of(lhs.value != rhs.value)),
            Operator::Cmpltu => Some(truth_of(lhs.value < rhs.value)),
            Operator::Cmplts => Some(truth_of(signed_of(lhs) < signed_of(rhs))),
        }
    }
}

impl Extension {
    /// What the operator makes of a constant at the width `bits`.
    ///
    /// An extension is defined on a well-formed constant and a width of
    /// at most 64 bits that is not below the constant's; a truncation on
    /// a well-formed constant and a width of at least one bit that is not
    /// above the constant's.
    pub open spec fn apply_spec(self, bits: usize, operand: Constant) -> Option<Constant> {
        if !operand.wf() {
            None
        } else {
            match self {
                Extension::Zext => if operand.bits <= bits <= 64 {
                    Some(Constant { value: operand.value, bits })
                } else {
                    None
                },
                Extension::Sext => if operand.bits <= bits <= 64 {
                    Some(wrapped(signed(operand), bits))
                } else {
                    None
                },
                Extension::Trun => if 1 <= bits <= operand.bits {
                    Some(reduced(operand.value, bits))
                } else {
                    None
                },
            }
        }
    }

    /// Extend or truncate a constant to `bits` bits.
    pub fn apply(self, bits: usize, operand: Constant) -> (r: Option<Constant>)
        ensures
            r == self.apply_spec(bits, operand),
    {
        if !operand.is_wf() {
            return None;
        }
        match self {
            Extension::Zext => if operand.bits <= bits && bits <= 64 {
                Some(Constant { value: operand.value, bits })
            } else {
                None
            },
            Extension::Sext => if operand.bits <= bits && bits <= 64 {
                Some(Constant { value: reduce_signed(signed_of(operand), bits), bits })
            } else {
                None
            },
            Extension::Trun => if 1 <= bits && bits <= operand.bits {
                Some(reduced_of(operand.value, bits))
            } else {
                None
            },
        }
    }
}

/// `x` reduced to `bits` bits.
fn reduce(x: u128, bits: usize) -> (r: u64)
    requires
        1 <= bits <= 64,
    ensures
        r == wrap(x as int, bits),
{
    let m = modulus(bits);
    let y = x % m;
    y as u64
}

/// `x` reduced to `bits` bits, for an `x` that may be negative.
fn reduce_signed(x: i128, bits: usize) -> (r: u64)
    requires
        1 <= bits <= 64,
        -0x1_0000_0000_0000_0000 <= x <= 0x1_0000_0000_0000_0000,
    ensures
        r == wrap(x as int, bits),
{
    let m = modulus(bits);
    let lifted: i128 = x + 0x1_0000_0000_0000_0000;
    let y = (lifted as u128) % m;
    proof {
        let rest = (64 - bits) as nat;
        vstd::arithmetic::power2::lemma2_to64();
        vstd::arithmetic::power2::lemma_pow2_adds(bits as nat, rest);
        vstd::arithmetic::div_mod::lemma_mod_multiples_vanish(
            pow2(rest) as int,
            x as int,
            pow2(bits as nat) as int,
        );
    }
    y as u64
}

/// The constant of `bits` bits that holds `x` reduced to that width.
fn reduced_of(x: u64, bits: usize) -> (r: Constant)
    requires
        1 <= bits <= 64,
    ensures
        r == reduced(x, bits),
{
    Constant { value: reduce(x as u128, bits), bits }
}

fn sum_of(lhs: Constant, rhs: Constant) -> (r: Constant)
    requires
        1 <= lhs.bits <= 64,
    ensures
        r == wrapped(lhs.value + rhs.value, lhs.bits),
{
    Constant { value: reduce(lhs.value as u128 + rhs.value as u128, lhs.bits), bits: lhs.bits }
}

fn difference_of(lhs: Constant, rhs: Constant) -> (r: Constant)
    requires
        1 <= lhs.bits <= 64,
    ensures
        r == wrapped(lhs.value - rhs.value, lhs.bits),
{
    Constant { value: reduce_signed(lhs.value as i128 - rhs.value as i128, lhs.bits), bits: lhs.bits }
}

fn product_of(lhs: Constant, rhs: Constant) -> (r: Constant)
    requires
        1 <= lhs.bits <= 64,
    ensures
        r == wrapped(lhs.value * rhs.value, lhs.bits),
{
    let a = lhs.value as u128;
    let b = rhs.value as u128;
    assert(a * b <= 0xffff_ffff_ffff_ffff * 0xffff_ffff_ffff_ffff) by (nonlinear_arith)
        requires
            a <= 0xffff_ffff_ffff_ffff,
            b <= 0xffff_ffff_ffff_ffff,
    ;
    Constant { value: reduce(a * b, lhs.bits), bits: lhs.bits }
}

/// The integer that a well-formed constant stands for as a signed operand.
fn signed_of(c: Constant) -> (r: i128)
    requires
        c.wf(),
    ensures
        r == signed(c),
        -0x8000_0000_0000_0000 <= r < 0x8000_0000_0000_0000,
        c.value != 0 ==> r != 0,
{
    let m = modulus(c.bits);
    let half = modulus(c.bits - 1);
    proof {
        vstd::arithmetic::power2::lemma_pow2_unfold(c.bits as nat);
    }
    if (c.value as u128) >= half {
        (c.value as i128) - (m as i128)
    } else {
        c.value as i128
    }
}

/// The distance of `x` from zero.
fn magnitude_of(x: i128) -> (r: u128)
    requires
        -0x8000_0000_0000_0000 <= x < 0x8000_0000_0000_0000,
    ensures
        r == magnitude(x as int),
        r <= 0x8000_0000_0000_0000,
{
    if x < 0 {
        (-x) as u128
    } else {
        x as u128
    }
}

fn signed_quotient_of(lhs: Constant, rhs: Constant) -> (r: Constant)
    requires
        lhs.wf(),
        rhs.wf(),
        rhs.value != 0,
    ensures
        r == wrapped(quotient_toward_zero(signed(lhs), signed(rhs)), lhs.bits),
{
    let a = signed_of(lhs);
    let b = signed_of(rhs);
    let q = magnitude_of(a) / magnitude_of(b);
    let x: i128 = if (a < 0) == (b < 0) {
        q as i128
    } else {
        -(q as i128)
    };
    Constant { value: reduce_signed(x, lhs.bits), bits: lhs.bits }
}

fn signed_remainder_of(lhs: Constant, rhs: Constant) -> (r: Constant)
    requires
        lhs.wf(),
        rhs.wf(),
        rhs.value != 0,
    ensures
        r == wrapped(remainder_toward_zero(signed(lhs), signed(rhs)), lhs.bits),
{
    let a = signed_of(lhs);
    let b = signed_of(rhs);
    let m = magnitude_of(a) % magnitude_of(b);
    let x: i128 = if a < 0 {
        -(m as i128)
    } else {
        m as i128
    };
    Constant { value: reduce_signed(x, lhs.bits), bits: lhs.bits }
}

fn shifted_left_of(lhs: Constant, rhs: Constant) -> (r: Constant)
    requires
        1 <= lhs.bits <= 64,
    ensures
        r == shifted_left(lhs, rhs),
{
    if rhs.value >= lhs.bits as u64 {
        Constant { value: 0, bits: lhs.bits }
    } else {
        let a = lhs.value as u128;
        let b = modulus(rhs.value as usize);
        assert(a * b <= 0xffff_ffff_ffff_ffff * 0x1_0000_0000_0000_0000) by (nonlinear_arith)
            requires
                a <= 0xffff_ffff_ffff_ffff,
                b <= 0x1_0000_0000_0000_0000,
        ;
        Constant { value: reduce(a * b, lhs.bits), bits: lhs.bits }
    }
}

fn shifted_right_of(lhs: Constant, rhs: Constant) -> (r: Constant)
    requires
        1 <= lhs.bits <= 64,
    ensures
        r == shifted_right(lhs, rhs),
{
    if rhs.value >= lhs.bits as u64 {
        Constant { value: 0, bits: lhs.bits }
    } else {
        let a = lhs.value as u128;
        let b = modulus(rhs.value as usize);
        let q = a / b;
        Constant { value: q as u64, bits: lhs.bits }
    }
}

fn truth_of(b: bool) -> (r: Constant)
    ensures
        r == truth(b),
{
    Constant {
        value: if b {
            1
        } else {
            0
        },
        bits: 1,
    }
}

} // verus!
