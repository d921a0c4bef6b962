//! The domain of intervals over a memory of abstract bytes.
//!
//! Operators are evaluated exactly on constants and to the whole range of
//! the result's width otherwise. A branch on the outcome of testing a
//! variable against a constant narrows that variable to the constant.

use crate::domain::{Domain, Memory, Value};
use crate::error::Error;
use crate::expression::Expression;
use crate::il::{Constant, Scalar, ScalarView};
use crate::interval::{Interval, Origin, Range};
use crate::memory::ByteMemory;
use crate::operator::{Extension, Operator};
use crate::state::{State, StateView};
use crate::types::Endian;
use vstd::prelude::*;

verus! {

/// The domain of [`Interval`]s over a [`ByteMemory`].
///
/// The domain numbers the variables that a branch may narrow: the variable
/// with the number `n` is `symbols[n]`. An interval names a variable by
/// that number in its origin.
#[derive(Debug)]
pub struct IntervalDomain {
    pub endian: Endian,
    pub symbols: Vec<Scalar>,
}

/// The width of what an operator gives on operands of `bits` bits: one
/// bit for a comparison, the operands' width otherwise.
pub open spec fn result_bits(operator: Operator, bits: usize) -> usize {
    match operator {
        Operator::Cmpeq | Operator::Cmpneq | Operator::Cmpltu | Operator::Cmplts => 1,
        _ => bits,
    }
}

/// The origin of what an operator gives. Testing the content of a variable
/// for equality with a constant gives the outcome of that test; nothing is
/// known of any other result.
pub open spec fn guard(operator: Operator, lhs: Interval, rhs: Interval) -> Origin {
    match operator {
        Operator::Cmpeq => match lhs.origin {
            Origin::Variable(symbol) if rhs.known_spec() is Some => Origin::Equality(
                symbol,
                rhs.known_spec()->Some_0.value,
            ),
            _ => match rhs.origin {
                Origin::Variable(symbol) if lhs.known_spec() is Some => Origin::Equality(
                    symbol,
                    lhs.known_spec()->Some_0.value,
                ),
                _ => Origin::Unknown,
            },
        },
        _ => Origin::Unknown,
    }
}

/// What an operator gives on two intervals.
///
/// The operands need one width, between 1 and 64 bits. Where an operand
/// holds no value, so does the result. On two constants the result is the
/// constant that the operator computes, or no value where the operator is
/// not defined on them; constants that do not fit their width are refused.
/// Otherwise the result is any value of the result's width.
pub open spec fn fold(operator: Operator, lhs: Interval, rhs: Interval) -> Result<Interval, Error> {
    if lhs.bits != rhs.bits || !(1 <= lhs.bits <= 64) {
        Err(Error::LatticeInconsistency)
    } else if lhs.range is Empty || rhs.range is Empty {
        Ok(Interval::empty_spec(result_bits(operator, lhs.bits)))
    } else if lhs.known_spec() is Some && rhs.known_spec() is Some {
        let a = lhs.known_spec()->Some_0;
        let b = rhs.known_spec()->Some_0;
        if !a.wf() || !b.wf() {
            Err(Error::LatticeInconsistency)
        } else {
            match operator.apply_spec(a, b) {
                Some(k) => Ok(
                    Interval {
                        bits: k.bits,
                        range: Range::Span { lo: k.value, hi: k.value },
                        origin: guard(operator, lhs, rhs),
                    },
                ),
                None => Ok(Interval::empty_spec(result_bits(operator, lhs.bits))),
            }
        }
    } else {
        Ok(
            Interval {
                bits: result_bits(operator, lhs.bits),
                range: Interval::any_spec(result_bits(operator, lhs.bits)).range,
                origin: guard(operator, lhs, rhs),
            },
        )
    }
}

/// Whether an operand of `from` bits can be extended or truncated to
/// `bits` bits.
pub open spec fn resizable(extension: Extension, bits: usize, from: usize) -> bool {
    match extension {
        Extension::Zext | Extension::Sext => from <= bits <= 64,
        Extension::Trun => 1 <= bits <= from,
    }
}

/// What an extension or a truncation to `bits` bits gives on an interval.
///
/// The operand needs a width between 1 and 64 bits that the operator can
/// take to `bits` bits. No value stays no value, a constant becomes the
/// constant that the operator computes, and anything else becomes any
/// value of `bits` bits. A constant that does not fit its width is
/// refused.
pub open spec fn fold_extension(extension: Extension, bits: usize, operand: Interval) -> Result<
    Interval,
    Error,
> {
    if !(1 <= operand.bits <= 64) || !resizable(extension, bits, operand.bits) {
        Err(Error::LatticeInconsistency)
    } else if operand.range is Empty {
        Ok(Interval::empty_spec(bits))
    } else if operand.known_spec() is Some {
        match extension.apply_spec(bits, operand.known_spec()->Some_0) {
            Some(k) => Ok(Interval::constant_spec(k)),
            None => Err(Error::LatticeInconsistency),
        }
    } else {
        Ok(Interval::any_spec(bits))
    }
}

/// A binary node: the first error of its subtrees, left before right, or
/// the operator on what they gave.
pub open spec fn binary_node(
    operator: Operator,
    lhs: Result<Interval, Error>,
    rhs: Result<Interval, Error>,
) -> Result<Interval, Error> {
    match lhs {
        Err(e) => Err(e),
        Ok(a) => match rhs {
            Err(e) => Err(e),
            Ok(b) => fold(operator, a, b),
        },
    }
}

/// A node that changes the width: the error of its subtree, or the
/// operator on what it gave.
pub open spec fn resized_node(extension: Extension, bits: usize, rhs: Result<Interval, Error>) -> Result<
    Interval,
    Error,
> {
    match rhs {
        Err(e) => Err(e),
        Ok(a) => fold_extension(extension, bits, a),
    }
}

/// What the domain evaluates an expression to.
pub open spec fn eval_tree(expr: Expression<Interval>) -> Result<Interval, Error>
    decreases expr,
{
    match expr {
        Expression::Value(v) => Ok(v),
        Expression::Add(l, r) => binary_node(Operator::Add, eval_tree(*l), eval_tree(*r)),
        Expression::Sub(l, r) => binary_node(Operator::Sub, eval_tree(*l), eval_tree(*r)),
        Expression::Mul(l, r) => binary_node(Operator::Mul, eval_tree(*l), eval_tree(*r)),
        Expression::Divu(l, r) => binary_node(Operator::Divu, eval_tree(*l), eval_tree(*r)),
        Expression::Modu(l, r) => binary_node(Operator::Modu, eval_tree(*l), eval_tree(*r)),
        Expression::Divs(l, r) => binary_node(Operator::Divs, eval_tree(*l), eval_tree(*r)),
        Expression::Mods(l, r) => binary_node(Operator::Mods, eval_tree(*l), eval_tree(*r)),
        Expression::And(l, r) => binary_node(Operator::And, eval_tree(*l), eval_tree(*r)),
        Expression::Or(l, r) => binary_node(Operator::Or, eval_tree(*l), eval_tree(*r)),
        Expression::Xor(l, r) => binary_node(Operator::Xor, eval_tree(*l), eval_tree(*r)),
        Expression::Shl(l, r) => binary_node(Operator::Shl, eval_tree(*l), eval_tree(*r)),
        Expression::Shr(l, r) => binary_node(Operator::Shr, eval_tree(*l), eval_tree(*r)),
        Expression::Cmpeq(l, r) => binary_node(Operator::Cmpeq, eval_tree(*l), eval_tree(*r)),
        Expression::Cmpneq(l, r) => binary_node(Operator::Cmpneq, eval_tree(*l), eval_tree(*r)),
        Expression::Cmpltu(l, r) => binary_node(Operator::Cmpltu, eval_tree(*l), eval_tree(*r)),
        Expression::Cmplts(l, r) => binary_node(Operator::Cmplts, eval_tree(*l), eval_tree(*r)),
        Expression::Zext(bits, r) => resized_node(Extension::Zext, bits, eval_tree(*r)),
        Expression::Sext(bits, r) => resized_node(Extension::Sext, bits, eval_tree(*r)),
        Expression::Trun(bits, r) => resized_node(Extension::Trun, bits, eval_tree(*r)),
    }
}

/// What is left of an interval once its value is known to be `constant`:
/// that constant if the interval holds it, and no value if it does not.
pub open spec fn meet(value: Interval, constant: u64) -> Interval {
    match value.range {
        Range::Span { lo, hi } => if lo <= constant <= hi {
            Interval {
                bits: value.bits,
                range: Range::Span { lo: constant, hi: constant },
                origin: Origin::Unknown,
            }
        } else {
            Interval::empty_spec(value.bits)
        },
        Range::Empty => Interval::empty_spec(value.bits),
    }
}

/// The state in which the variable `key` is narrowed to `constant`. A
/// variable that the state does not hold stays unconstrained.
pub open spec fn narrowed(
    state: StateView<ByteMemory, Interval>,
    key: ScalarView,
    constant: u64,
) -> StateView<ByteMemory, Interval> {
    if state.variables.contains_key(key) {
        StateView {
            variables: state.variables.insert(key, meet(state.variables[key], constant)),
            memory: state.memory,
        }
    } else {
        state
    }
}

/// A binary node evaluates to its operator on what its subtrees evaluate
/// to.
proof fn lemma_eval_binary(
    operator: Operator,
    lhs: Expression<Interval>,
    rhs: Expression<Interval>,
)
    ensures
        eval_tree(Expression::binary(operator, lhs, rhs)) == binary_node(
            operator,
            eval_tree(lhs),
            eval_tree(rhs),
        ),
{
    reveal_with_fuel(eval_tree, 2);
}

/// A node that changes the width evaluates to its operator on what its
/// subtree evaluates to.
proof fn lemma_eval_resized(extension: Extension, bits: usize, rhs: Expression<Interval>)
    ensures
        eval_tree(Expression::resized(extension, bits, rhs)) == resized_node(
            extension,
            bits,
            eval_tree(rhs),
        ),
{
    reveal_with_fuel(eval_tree, 2);
}

/// On the abstractions of two constants, an operator gives the
/// abstraction of what it computes on the constants.
proof fn lemma_fold_constants(operator: Operator, lhs: Constant, rhs: Constant)
    requires
        operator.apply_spec(lhs, rhs) is Some,
    ensures
        fold(operator, Interval::constant_spec(lhs), Interval::constant_spec(rhs)) == Ok::<
            Interval,
            Error,
        >(Interval::constant_spec(operator.apply_spec(lhs, rhs)->Some_0)),
{
    let a = Interval::constant_spec(lhs);
    let b = Interval::constant_spec(rhs);
    assert(lhs.wf() && rhs.wf() && lhs.bits == rhs.bits);
    assert(a.known_spec() == Some(lhs));
    assert(b.known_spec() == Some(rhs));
    assert(guard(operator, a, b) == Origin::Unknown);
}

/// An expression over intervals is its own view.
proof fn lemma_view(expr: Expression<Interval>)
    ensures
        expr@ == expr,
    decreases expr,
{
    match expr {
        Expression::Value(v) => {},
        Expression::Add(l, r)
        | Expression::Sub(l, r)
        | Expression::Mul(l, r)
        | Expression::Divu(l, r)
        | Expression::Modu(l, r)
        | Expression::Divs(l, r)
        | Expression::Mods(l, r)
        | Expression::And(l, r)
        | Expression::Or(l, r)
        | Expression::Xor(l, r)
        | Expression::Shl(l, r)
        | Expression::Shr(l, r)
        | Expression::Cmpeq(l, r)
        | Expression::Cmpneq(l, r)
        | Expression::Cmpltu(l, r)
        | Expression::Cmplts(l, r) => {
            lemma_view(*l);
            lemma_view(*r);
        },
        Expression::Zext(_, r) | Expression::Sext(_, r) | Expression::Trun(_, r) => {
            lemma_view(*r);
        },
    }
}

/// The width of what `operator` gives on operands of `bits` bits.
fn result_width(operator: Operator, bits: usize) -> (r: usize)
    ensures
        r == result_bits(operator, bits),
{
    match operator {
        Operator::Cmpeq | Operator::Cmpneq | Operator::Cmpltu | Operator::Cmplts => 1,
        _ => bits,
    }
}

/// The origin of what `operator` gives on two intervals.
fn guard_of(operator: Operator, lhs: &Interval, rhs: &Interval) -> (r: Origin)
    ensures
        r == guard(operator, *lhs, *rhs),
{
    match operator {
        Operator::Cmpeq => {
            match (lhs.origin, rhs.known()) {
                (Origin::Variable(symbol), Some(k)) => {
                    return Origin::Equality(symbol, k.value);
                },
                _ => {},
            }
            match (rhs.origin, lhs.known()) {
                (Origin::Variable(symbol), Some(k)) => Origin::Equality(symbol, k.value),
                _ => Origin::Unknown,
            }
        },
        _ => Origin::Unknown,
    }
}

/// Apply `operator` to two intervals.
fn apply_operator(operator: Operator, lhs: &Interval, rhs: &Interval) -> (r: Result<
    Interval,
    Error,
>)
    ensures
        r == fold(operator, *lhs, *rhs),
{
    if lhs.bits != rhs.bits || lhs.bits < 1 || lhs.bits > 64 {
        return Err(Error::LatticeInconsistency);
    }
    let bits = result_width(operator, lhs.bits);
    if lhs.is_empty() || rhs.is_empty() {
        return Ok(Interval::empty(bits));
    }
    match (lhs.known(), rhs.known()) {
        (Some(a), Some(b)) => {
            if !a.is_wf() || !b.is_wf() {
                return Err(Error::LatticeInconsistency);
            }
            match operator.apply(a, b) {
                Some(k) => Ok(
                    Interval {
                        bits: k.bits,
                        range: Range::Span { lo: k.value, hi: k.value },
                        origin: guard_of(operator, lhs, rhs),
                    },
                ),
                None => Ok(Interval::empty(bits)),
            }
        },
        _ => {
            match Interval::any(bits) {
                Some(whole) => Ok(
                    Interval { bits, range: whole.range, origin: guard_of(operator, lhs, rhs) },
                ),
                None => Err(Error::LatticeInconsistency),
            }
        },
    }
}

/// Extend or truncate an interval to `bits` bits.
fn apply_extension(extension: Extension, bits: usize, operand: &Interval) -> (r: Result<
    Interval,
    Error,
>)
    ensures
        r == fold_extension(extension, bits, *operand),
{
    if operand.bits < 1 || operand.bits > 64 {
        return Err(Error::LatticeInconsistency);
    }
    let possible = match extension {
        Extension::Zext | Extension::Sext => operand.bits <= bits && bits <= 64,
        Extension::Trun => 1 <= bits && bits <= operand.bits,
    };
    if !possible {
        return Err(Error::LatticeInconsistency);
    }
    if operand.is_empty() {
        return Ok(Interval::empty(bits));
    }
    match operand.known() {
        Some(k) => match extension.apply(bits, k) {
            Some(k) => Ok(Interval::constant(k)),
            None => Err(Error::LatticeInconsistency),
        },
        None => match Interval::any(bits) {
            Some(whole) => Ok(whole),
            None => Err(Error::LatticeInconsistency),
        },
    }
}

/// A binary node, from what its subtrees gave.
fn combine(operator: Operator, lhs: Result<Interval, Error>, rhs: Result<Interval, Error>) -> (r:
    Result<Interval, Error>)
    ensures
        r == binary_node(operator, lhs, rhs),
{
    match lhs {
        Err(e) => Err(e),
        Ok(a) => match rhs {
            Err(e) => Err(e),
            Ok(b) => apply_operator(operator, &a, &b),
        },
    }
}

/// A node that changes the width, from what its subtree gave.
fn resize(extension: Extension, bits: usize, rhs: Result<Interval, Error>) -> (r: Result<
    Interval,
    Error,
>)
    ensures
        r == resized_node(extension, bits, rhs),
{
    match rhs {
        Err(e) => Err(e),
        Ok(a) => apply_extension(extension, bits, &a),
    }
}

/// Evaluate an expression over intervals.
fn evaluate(expr: &Expression<Interval>) -> (r: Result<Interval, Error>)
    ensures
        r == eval_tree(*expr),
    decreases *expr,
{
    match expr {
        Expression::Value(v) => Ok(*v),
        Expression::Add(l, r) => combine(Operator::Add, evaluate(&**l), evaluate(&**r)),
        Expression::Sub(l, r) => combine(Operator::Sub, evaluate(&**l), evaluate(&**r)),
        Expression::Mul(l, r) => combine(Operator::Mul, evaluate(&**l), evaluate(&**r)),
        Expression::Divu(l, r) => combine(Operator::Divu, evaluate(&**l), evaluate(&**r)),
        Expression::Modu(l, r) => combine(Operator::Modu, evaluate(&**l), evaluate(&**r)),
        Expression::Divs(l, r) => combine(Operator::Divs, evaluate(&**l), evaluate(&**r)),
        Expression::Mods(l, r) => combine(Operator::Mods, evaluate(&**l), evaluate(&**r)),
        Expression::And(l, r) => combine(Operator::And, evaluate(&**l), evaluate(&**r)),
        Expression::Or(l, r) => combine(Operator::Or, evaluate(&**l), evaluate(&**r)),
        Expression::Xor(l, r) => combine(Operator::Xor, evaluate(&**l), evaluate(&**r)),
        Expression::Shl(l, r) => combine(Operator::Shl, evaluate(&**l), evaluate(&**r)),
        Expression::Shr(l, r) => combine(Operator::Shr, evaluate(&**l), evaluate(&**r)),
        Expression::Cmpeq(l, r) => combine(Operator::Cmpeq, evaluate(&**l), evaluate(&**r)),
        Expression::Cmpneq(l, r) => combine(Operator::Cmpneq, evaluate(&**l), evaluate(&**r)),
        Expression::Cmpltu(l, r) => combine(Operator::Cmpltu, evaluate(&**l), evaluate(&**r)),
        Expression::Cmplts(l, r) => combine(Operator::Cmplts, evaluate(&**l), evaluate(&**r)),
        Expression::Zext(bits, r) => resize(Extension::Zext, *bits, evaluate(&**r)),
        Expression::Sext(bits, r) => resize(Extension::Sext, *bits, evaluate(&**r)),
        Expression::Trun(bits, r) => resize(Extension::Trun, *bits, evaluate(&**r)),
    }
}

/// What is left of `value` once it is known to be `constant`.
fn meet_of(value: &Interval, constant: u64) -> (r: Interval)
    ensures
        r == meet(*value, constant),
{
    match value.range {
        Range::Span { lo, hi } => if lo <= constant && constant <= hi {
            Interval {
                bits: value.bits,
                range: Range::Span { lo: constant, hi: constant },
                origin: Origin::Unknown,
            }
        } else {
            Interval::empty(value.bits)
        },
        Range::Empty => Interval::empty(value.bits),
    }
}

impl IntervalDomain {
    /// The domain with the given byte order, in which the variable with
    /// the number `n` is `symbols[n]`.
    pub fn new(endian: Endian, symbols: Vec<Scalar>) -> (r: IntervalDomain)
        ensures
            r.endian == endian,
            r.symbols == symbols,
    {
        IntervalDomain { endian, symbols }
    }
}

impl Domain<ByteMemory, Interval> for IntervalDomain {
    open spec fn eval_spec(&self, expr: Expression<Interval>) -> Result<Interval, Error> {
        eval_tree(expr)
    }

    /// The condition of a branch is one bit. Where it is the outcome of
    /// testing a variable of the domain against a constant, the variable
    /// is narrowed to that constant on the edge that is taken; any other
    /// condition leaves the state as it is.
    open spec fn brc_spec(
        &self,
        target: Interval,
        condition: Interval,
        state: StateView<ByteMemory, Interval>,
    ) -> Result<StateView<ByteMemory, Interval>, Error> {
        if condition.bits != 1 {
            Err(Error::UnsupportedControlEffect)
        } else {
            match condition.origin {
                Origin::Equality(symbol, constant) => if symbol < self.symbols@.len() {
                    Ok(narrowed(state, self.symbols@[symbol as int]@, constant))
                } else {
                    Err(Error::UnsupportedControlEffect)
                },
                _ => Ok(state),
            }
        }
    }

    /// A raise leaves the state as it is.
    open spec fn raise_spec(&self, expr: Interval, state: StateView<ByteMemory, Interval>)
        -> Result<StateView<ByteMemory, Interval>, Error> {
        Ok(state)
    }

    open spec fn endian_spec(&self) -> Endian {
        self.endian
    }

    fn eval(&self, expr: &Expression<Interval>) -> (r: Result<Interval, Error>) {
        proof {
            lemma_view(*expr);
        }
        evaluate(expr)
    }

    fn brc(&self, target: &Interval, condition: &Interval, state: State<ByteMemory, Interval>)
        -> (r: Result<State<ByteMemory, Interval>, Error>) {
        if condition.bits != 1 {
            return Err(Error::UnsupportedControlEffect);
        }
        match condition.origin {
            Origin::Equality(symbol, constant) => {
                if symbol >= self.symbols.len() {
                    return Err(Error::UnsupportedControlEffect);
                }
                let key = &self.symbols[symbol];
                let mut state = state;
                let narrower = match state.variable(key) {
                    Some(value) => Some(meet_of(value, constant)),
                    None => None,
                };
                match narrower {
                    Some(value) => {
                        state.set_variable(key.clone(), value);
                    },
                    None => {},
                }
                Ok(state)
            },
            _ => Ok(state),
        }
    }

    fn raise(&self, expr: &Interval, state: State<ByteMemory, Interval>) -> (r: Result<
        State<ByteMemory, Interval>,
        Error,
    >) {
        Ok(state)
    }

    fn endian(&self) -> (r: Endian) {
        self.endian
    }

    fn new_state(&self) -> (r: State<ByteMemory, Interval>) {
        State::new(ByteMemory::new(self.endian))
    }

    proof fn lemma_operator_sound(&self, operator: Operator, lhs: Constant, rhs: Constant) {
        let a = Expression::Value(Interval::constant_spec(lhs));
        let b = Expression::Value(Interval::constant_spec(rhs));
        lemma_eval_binary(operator, a, b);
        lemma_fold_constants(operator, lhs, rhs);
        assert(eval_tree(a) == Ok::<Interval, Error>(Interval::constant_spec(lhs)));
        assert(eval_tree(b) == Ok::<Interval, Error>(Interval::constant_spec(rhs)));
        Interval::lemma_join_idempotent(
            Interval::constant_spec(operator.apply_spec(lhs, rhs)->Some_0),
        );
    }

    proof fn lemma_extension_sound(&self, extension: Extension, bits: usize, operand: Constant) {
        let a = Expression::Value(Interval::constant_spec(operand));
        lemma_eval_resized(extension, bits, a);
        assert(eval_tree(a) == Ok::<Interval, Error>(Interval::constant_spec(operand)));
        assert(Interval::constant_spec(operand).known_spec() == Some(operand));
        Interval::lemma_join_idempotent(
            Interval::constant_spec(extension.apply_spec(bits, operand)->Some_0),
        );
    }
}

} // verus!
