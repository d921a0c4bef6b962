//! The contracts of an abstract domain: what an abstraction of machine
//! values and an abstraction of memory have to provide, and the laws that
//! they have to obey.
//!
//! Each operation is named by a specification function over the views of
//! its arguments. An implementation says what its operations compute by
//! defining those functions, and proves the laws of them.

use crate::error::Error;
use crate::expression::Expression;
use crate::il::{Constant, ScalarView};
use crate::operator::{Extension, Operator};
use crate::state::{State, StateView};
use crate::types::Endian;
use vstd::arithmetic::power2::pow2;
use vstd::prelude::*;
use vstd::std_specs::cmp::PartialEqSpec;

verus! {

/// An abstract value: an element of a lattice that stands for a set of
/// machine values of one bit-width.
pub trait Value: Sized + Clone + std::fmt::Debug + Eq + PartialEq + View {
    /// The bit-width that an abstract value carries.
    spec fn width(v: Self::V) -> usize;

    /// What [`Value::join`] answers.
    spec fn join_spec(a: Self::V, b: Self::V) -> Result<Self::V, Error>;

    /// What [`Value::empty`] answers.
    spec fn empty_spec(bits: usize) -> Self::V;

    /// What [`Value::constant`] answers.
    spec fn constant_spec(constant: Constant) -> Self::V;

    /// Join this abstract value with another: an upper bound of both.
    fn join(&self, other: &Self) -> (r: Result<Self, Error>)
        ensures
            match r {
                Ok(v) => Self::join_spec(self@, other@) == Ok::<Self::V, Error>(v@),
                Err(e) => Self::join_spec(self@, other@) == Err::<Self::V, Error>(e),
            },
    ;

    /// The bottom element of the given width.
    fn empty(bits: usize) -> (r: Self)
        ensures
            r@ == Self::empty_spec(bits),
    ;

    /// The abstraction of one immediate of the intermediate language.
    fn constant(constant: Constant) -> (r: Self)
        ensures
            r@ == Self::constant_spec(constant),
    ;

    /// Joining two values of one width gives the same answer in either
    /// order.
    proof fn lemma_join_commutative(a: Self::V, b: Self::V)
        requires
            Self::width(a) == Self::width(b),
        ensures
            Self::join_spec(a, b) == Self::join_spec(b, a),
    ;

    /// Joining a value with itself succeeds and gives that value.
    proof fn lemma_join_idempotent(a: Self::V)
        ensures
            Self::join_spec(a, a) == Ok::<Self::V, Error>(a),
    ;

    /// Joining a value with the bottom element of its width succeeds and
    /// gives that value.
    proof fn lemma_join_empty(a: Self::V)
        ensures
            Self::join_spec(a, Self::empty_spec(Self::width(a))) == Ok::<Self::V, Error>(a),
    ;

    /// A join never narrows: what it gives contains both of its operands,
    /// so that joining either into it again changes nothing.
    proof fn lemma_join_upper_bound(a: Self::V, b: Self::V)
        requires
            Self::join_spec(a, b) is Ok,
        ensures
            Self::join_spec(Self::join_spec(a, b)->Ok_0, a) == Self::join_spec(a, b),
            Self::join_spec(Self::join_spec(a, b)->Ok_0, b) == Self::join_spec(a, b),
    ;

    /// A join keeps the width of its operands.
    proof fn lemma_join_width(a: Self::V, b: Self::V)
        requires
            Self::width(a) == Self::width(b),
            Self::join_spec(a, b) is Ok,
        ensures
            Self::width(Self::join_spec(a, b)->Ok_0) == Self::width(a),
    ;

    /// The bottom element of a width has that width.
    proof fn lemma_empty_width(bits: usize)
        ensures
            Self::width(Self::empty_spec(bits)) == bits,
    ;

    /// The abstraction of a constant has the constant's width.
    proof fn lemma_constant_width(constant: Constant)
        requires
            constant.wf(),
        ensures
            Self::width(Self::constant_spec(constant)) == constant.bits,
    ;

    /// A clone of a value has the value's view.
    proof fn lemma_clone(a: Self, b: Self)
        requires
            cloned(a, b),
        ensures
            a@ == b@,
    ;

    /// `==` on values compares their views.
    proof fn lemma_eq(a: Self, b: Self)
        ensures
            Self::obeys_eq_spec(),
            a.eq_spec(&b) == (a@ == b@),
    ;
}

/// `a` contains `b`: joining `b` into `a` succeeds and adds nothing.
pub open spec fn contains<V: Value>(a: V::V, b: V::V) -> bool {
    V::join_spec(a, b) == Ok::<V::V, Error>(a)
}

/// A memory model over abstract values: an abstract store that is read and
/// written at abstract addresses, in one byte order.
pub trait Memory<V: Value>: Sized + Clone + std::fmt::Debug + Eq + PartialEq + View {
    /// The byte order that a memory was made with.
    spec fn endian_spec(m: Self::V) -> Endian;

    /// What [`Memory::new`] answers.
    spec fn new_spec(endian: Endian) -> Self::V;

    /// The memory that [`Memory::store`] leaves behind, or its error.
    spec fn store_spec(m: Self::V, index: V::V, value: V::V) -> Result<Self::V, Error>;

    /// What [`Memory::load`] answers.
    spec fn load_spec(m: Self::V, index: V::V, bits: usize) -> Result<V::V, Error>;

    /// What [`Memory::join`] answers.
    spec fn join_spec(a: Self::V, b: Self::V) -> Result<Self::V, Error>;

    /// Write `value` at the abstract address `index`. Nothing is said of
    /// the memory that a failed store leaves behind.
    fn store(&mut self, index: &V, value: V) -> (r: Result<(), Error>)
        ensures
            match r {
                Ok(_) => Self::store_spec(old(self)@, index@, value@) == Ok::<Self::V, Error>(
                    final(self)@,
                ),
                Err(e) => Self::store_spec(old(self)@, index@, value@) == Err::<Self::V, Error>(e),
            },
    ;

    /// Read a value of `bits` bits at the abstract address `index`.
    fn load(&self, index: &V, bits: usize) -> (r: Result<V, Error>)
        ensures
            match r {
                Ok(v) => Self::load_spec(self@, index@, bits) == Ok::<V::V, Error>(v@),
                Err(e) => Self::load_spec(self@, index@, bits) == Err::<V::V, Error>(e),
            },
    ;

    /// An empty memory in the given byte order.
    fn new(endian: Endian) -> (r: Self)
        ensures
            r@ == Self::new_spec(endian),
    ;

    /// Join this memory with another: a memory that stands for both.
    fn join(self, other: &Self) -> (r: Result<Self, Error>)
        ensures
            match r {
                Ok(m) => Self::join_spec(self@, other@) == Ok::<Self::V, Error>(m@),
                Err(e) => Self::join_spec(self@, other@) == Err::<Self::V, Error>(e),
            },
    ;

    /// A new memory has the byte order it was made with.
    proof fn lemma_new_endian(endian: Endian)
        ensures
            Self::endian_spec(Self::new_spec(endian)) == endian,
    ;

    /// A store does not change the byte order.
    proof fn lemma_store_endian(m: Self::V, index: V::V, value: V::V)
        requires
            Self::store_spec(m, index, value) is Ok,
        ensures
            Self::endian_spec(Self::store_spec(m, index, value)->Ok_0) == Self::endian_spec(m),
    ;

    /// A join has the byte order of the memory that was joined into.
    proof fn lemma_join_endian(a: Self::V, b: Self::V)
        requires
            Self::join_spec(a, b) is Ok,
        ensures
            Self::endian_spec(Self::join_spec(a, b)->Ok_0) == Self::endian_spec(a),
    ;

    /// A join stands for both memories: what is loaded from it contains
    /// what is loaded from either of them at the same address, in the
    /// same width.
    proof fn lemma_join_sound(a: Self::V, b: Self::V, index: V::V, bits: usize)
        requires
            Self::join_spec(a, b) is Ok,
            Self::load_spec(Self::join_spec(a, b)->Ok_0, index, bits) is Ok,
        ensures
            Self::load_spec(a, index, bits) is Ok ==> contains::<V>(
                Self::load_spec(Self::join_spec(a, b)->Ok_0, index, bits)->Ok_0,
                Self::load_spec(a, index, bits)->Ok_0,
            ),
            Self::load_spec(b, index, bits) is Ok ==> contains::<V>(
                Self::load_spec(Self::join_spec(a, b)->Ok_0, index, bits)->Ok_0,
                Self::load_spec(b, index, bits)->Ok_0,
            ),
    ;

    /// Where a store succeeds, a load from its address in the width of
    /// the value stored succeeds too, and what it gives contains that
    /// value.
    proof fn lemma_load_after_store(m: Self::V, index: V::V, value: V::V)
        requires
            Self::store_spec(m, index, value) is Ok,
        ensures
            Self::load_spec(Self::store_spec(m, index, value)->Ok_0, index, V::width(value)) is Ok,
            contains::<V>(
                Self::load_spec(
                    Self::store_spec(m, index, value)->Ok_0,
                    index,
                    V::width(value),
                )->Ok_0,
                value,
            ),
    ;

    /// The bytes of a constant lie in a little-endian memory in the
    /// reverse of their order in a big-endian memory: byte `i` of the one
    /// is byte `n - 1 - i` of the other, for a constant of `n` bytes.
    proof fn lemma_byte_order(address: Constant, constant: Constant, i: nat)
        requires
            address.wf(),
            constant.wf(),
            constant.bits % 8 == 0,
            i < constant.bits / 8,
            address.value + constant.bits / 8 <= pow2(address.bits as nat),
        ensures
            ({
                let little = Self::store_spec(
                    Self::new_spec(Endian::Little),
                    V::constant_spec(address),
                    V::constant_spec(constant),
                );
                let big = Self::store_spec(
                    Self::new_spec(Endian::Big),
                    V::constant_spec(address),
                    V::constant_spec(constant),
                );
                little is Ok && big is Ok ==> Self::load_spec(
                    little->Ok_0,
                    V::constant_spec(byte_address(address, i)),
                    8,
                ) == Self::load_spec(
                    big->Ok_0,
                    V::constant_spec(byte_address(address, (constant.bits / 8 - 1 - i) as nat)),
                    8,
                )
            }),
    ;

    /// A clone of a memory has the memory's view.
    proof fn lemma_clone(a: Self, b: Self)
        requires
            cloned(a, b),
        ensures
            a@ == b@,
    ;

    /// `==` on memories compares their views.
    proof fn lemma_eq(a: Self, b: Self)
        ensures
            Self::obeys_eq_spec(),
            a.eq_spec(&b) == (a@ == b@),
    ;
}

/// An abstract domain, which handles all operations required for the
/// abstract interpreter: it evaluates abstract expressions, applies the
/// effects of control transfers to a state, and makes the state that an
/// analysis starts from.
pub trait Domain<M: Memory<V>, V: Value> {
    /// What [`Domain::eval`] answers.
    spec fn eval_spec(&self, expr: Expression<V::V>) -> Result<V::V, Error>;

    /// What [`Domain::brc`] answers.
    spec fn brc_spec(&self, target: V::V, condition: V::V, state: StateView<M, V>) -> Result<
        StateView<M, V>,
        Error,
    >;

    /// What [`Domain::raise`] answers.
    spec fn raise_spec(&self, expr: V::V, state: StateView<M, V>) -> Result<
        StateView<M, V>,
        Error,
    >;

    /// What [`Domain::endian`] answers.
    spec fn endian_spec(&self) -> Endian;

    /// Evaluate an expression of abstract values.
    fn eval(&self, expr: &Expression<V>) -> (r: Result<V, Error>)
        ensures
            match r {
                Ok(v) => self.eval_spec(expr@) == Ok::<V::V, Error>(v@),
                Err(e) => self.eval_spec(expr@) == Err::<V::V, Error>(e),
            },
    ;

    /// Handle a brc operation: the state on the edge to `target` that is
    /// taken when `condition` holds.
    fn brc(&self, target: &V, condition: &V, state: State<M, V>) -> (r: Result<State<M, V>, Error>)
        ensures
            match r {
                Ok(s) => self.brc_spec(target@, condition@, state@) == Ok::<StateView<M, V>, Error>(
                    s@,
                ),
                Err(e) => self.brc_spec(target@, condition@, state@) == Err::<
                    StateView<M, V>,
                    Error,
                >(e),
            },
    ;

    /// Handle a raise operation: the state after `expr` was raised.
    fn raise(&self, expr: &V, state: State<M, V>) -> (r: Result<State<M, V>, Error>)
        ensures
            match r {
                Ok(s) => self.raise_spec(expr@, state@) == Ok::<StateView<M, V>, Error>(s@),
                Err(e) => self.raise_spec(expr@, state@) == Err::<StateView<M, V>, Error>(e),
            },
    ;

    /// Return the endianness used for analysis.
    fn endian(&self) -> (r: Endian)
        ensures
            r == self.endian_spec(),
    ;

    /// Return an empty state: one without variables, whose memory is a
    /// new one in the domain's byte order.
    fn new_state(&self) -> (r: State<M, V>)
        ensures
            r@.variables == Map::<ScalarView, V::V>::empty(),
            r@.memory == M::new_spec(self.endian_spec()),
    ;

    /// The abstract counterpart of a binary operator is sound on
    /// constants: where the operator is defined on two constants, the
    /// domain evaluates it on their abstractions, and what it gives
    /// contains the abstraction of the operator's result.
    proof fn lemma_operator_sound(&self, operator: Operator, lhs: Constant, rhs: Constant)
        requires
            operator.apply_spec(lhs, rhs) is Some,
        ensures
            ({
                let abstracted = self.eval_spec(
                    Expression::binary(
                        operator,
                        Expression::Value(V::constant_spec(lhs)),
                        Expression::Value(V::constant_spec(rhs)),
                    ),
                );
                abstracted is Ok && contains::<V>(
                    abstracted->Ok_0,
                    V::constant_spec(operator.apply_spec(lhs, rhs)->Some_0),
                )
            }),
    ;

    /// The abstract counterpart of an extension or a truncation is sound
    /// on constants, in the same sense.
    proof fn lemma_extension_sound(&self, extension: Extension, bits: usize, operand: Constant)
        requires
            extension.apply_spec(bits, operand) is Some,
        ensures
            ({
                let abstracted = self.eval_spec(
                    Expression::resized(
                        extension,
                        bits,
                        Expression::Value(V::constant_spec(operand)),
                    ),
                );
                abstracted is Ok && contains::<V>(
                    abstracted->Ok_0,
                    V::constant_spec(extension.apply_spec(bits, operand)->Some_0),
                )
            }),
    ;
}

/// The address `offset` bytes above `address`, in the same width.
pub open spec fn byte_address(address: Constant, offset: nat) -> Constant {
    Constant { value: (address.value + offset) as u64, bits: address.bits }
}

} // verus!
