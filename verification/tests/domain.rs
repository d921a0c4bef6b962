use abstract_domain::domain::{Domain, Memory, Value};
use abstract_domain::error::Error;
use abstract_domain::expression::Expression;
use abstract_domain::il::{Constant, Scalar};
use abstract_domain::interval::{Interval, Origin, Range};
use abstract_domain::interval_domain::IntervalDomain;
use abstract_domain::memory::ByteMemory;
use abstract_domain::operator::{Extension, Operator};
use abstract_domain::state::State;
use abstract_domain::types::Endian;

type E = Expression<Interval>;

fn constant(value: u64, bits: usize) -> Interval {
    Interval::constant(Constant::new(value, bits).unwrap())
}

fn leaf(value: u64, bits: usize) -> E {
    Expression::value(constant(value, bits))
}

fn span(lo: u64, hi: u64, bits: usize) -> Interval {
    Interval { bits, range: Range::Span { lo, hi }, origin: Origin::Unknown }
}

fn domain() -> IntervalDomain {
    IntervalDomain::new(Endian::Little, vec![Scalar::new("x", 8), Scalar::new("y", 8)])
}

fn binary(operator: Operator, lhs: E, rhs: E) -> E {
    match operator {
        Operator::Add => Expression::add(lhs, rhs),
        Operator::Sub => Expression::sub(lhs, rhs),
        Operator::Mul => Expression::mul(lhs, rhs),
        Operator::Divu => Expression::divu(lhs, rhs),
        Operator::Modu => Expression::modu(lhs, rhs),
        Operator::Divs => Expression::divs(lhs, rhs),
        Operator::Mods => Expression::mods(lhs, rhs),
        Operator::And => Expression::and(lhs, rhs),
        Operator::Or => Expression::or(lhs, rhs),
        Operator::Xor => Expression::xor(lhs, rhs),
        Operator::Shl => Expression::shl(lhs, rhs),
        Operator::Shr => Expression::shr(lhs, rhs),
        Operator::Cmpeq => Expression::cmpeq(lhs, rhs),
        Operator::Cmpneq => Expression::cmpneq(lhs, rhs),
        Operator::Cmpltu => Expression::cmpltu(lhs, rhs),
        Operator::Cmplts => Expression::cmplts(lhs, rhs),
    }
}

const OPERATORS: [Operator; 16] = [
    Operator::Add,
    Operator::Sub,
    Operator::Mul,
    Operator::Divu,
    Operator::Modu,
    Operator::Divs,
    Operator::Mods,
    Operator::And,
    Operator::Or,
    Operator::Xor,
    Operator::Shl,
    Operator::Shr,
    Operator::Cmpeq,
    Operator::Cmpneq,
    Operator::Cmpltu,
    Operator::Cmplts,
];

#[test]
fn a_leaf_evaluates_to_its_value() {
    assert_eq!(domain().eval(&leaf(7, 8)), Ok(constant(7, 8)));
    let named = Interval::any(8).unwrap().bound_to(1);
    assert_eq!(domain().eval(&Expression::value(named)), Ok(named));
}

#[test]
fn constants_are_folded() {
    let d = domain();
    assert_eq!(d.eval(&Expression::add(leaf(2, 8), leaf(3, 8))), Ok(constant(5, 8)));
    assert_eq!(d.eval(&Expression::sub(leaf(2, 8), leaf(3, 8))), Ok(constant(0xff, 8)));
    assert_eq!(d.eval(&Expression::mul(leaf(20, 8), leaf(20, 8))), Ok(constant(144, 8)));
    assert_eq!(d.eval(&Expression::cmpltu(leaf(2, 8), leaf(3, 8))), Ok(constant(1, 1)));
    assert_eq!(d.eval(&Expression::sext(16, leaf(0x80, 8))), Ok(constant(0xff80, 16)));
    assert_eq!(d.eval(&Expression::zext(16, leaf(0x80, 8))), Ok(constant(0x80, 16)));
    assert_eq!(d.eval(&Expression::trun(4, leaf(0x85, 8))), Ok(constant(5, 4)));
}

#[test]
fn nested_expressions_are_folded() {
    let e = Expression::add(
        Expression::mul(leaf(3, 8), leaf(4, 8)),
        Expression::trun(8, Expression::zext(16, leaf(0xf8, 8))),
    );
    assert_eq!(domain().eval(&e), Ok(constant(4, 8)));
}

#[test]
fn every_operator_is_sound_on_constants() {
    let d = domain();
    let values = [0u64, 1, 2, 5, 7, 0x7f, 0x80, 0xfe, 0xff];
    for operator in OPERATORS {
        for a in values {
            for b in values {
                let lhs = Constant::new(a, 8).unwrap();
                let rhs = Constant::new(b, 8).unwrap();
                let abstracted = d
                    .eval(&binary(operator, leaf(a, 8), leaf(b, 8)))
                    .unwrap();
                if let Some(k) = operator.apply(lhs, rhs) {
                    let expected = Interval::constant(k);
                    assert_eq!(abstracted.join(&expected), Ok(abstracted));
                    assert_eq!(abstracted, expected);
                }
            }
        }
    }
}

#[test]
fn every_extension_is_sound_on_constants() {
    let d = domain();
    for a in [0u64, 1, 0x7f, 0x80, 0xff] {
        let k = Constant::new(a, 8).unwrap();
        for (extension, bits, e) in [
            (Extension::Zext, 32usize, Expression::zext(32, leaf(a, 8))),
            (Extension::Sext, 32, Expression::sext(32, leaf(a, 8))),
            (Extension::Trun, 3, Expression::trun(3, leaf(a, 8))),
        ] {
            let abstracted = d.eval(&e).unwrap();
            let expected = Interval::constant(extension.apply(bits, k).unwrap());
            assert_eq!(abstracted.join(&expected), Ok(abstracted));
        }
    }
}

#[test]
fn division_by_zero_gives_no_value() {
    let d = domain();
    assert_eq!(d.eval(&Expression::divu(leaf(2, 8), leaf(0, 8))), Ok(Interval::empty(8)));
    assert_eq!(d.eval(&Expression::mods(leaf(2, 8), leaf(0, 8))), Ok(Interval::empty(8)));
}

#[test]
fn an_operand_without_value_gives_no_value() {
    let d = domain();
    let e = Expression::add(Expression::value(Interval::empty(8)), leaf(1, 8));
    assert_eq!(d.eval(&e), Ok(Interval::empty(8)));
    let e = Expression::cmpeq(leaf(1, 8), Expression::value(Interval::empty(8)));
    assert_eq!(d.eval(&e), Ok(Interval::empty(1)));
    let e = Expression::zext(16, Expression::value(Interval::empty(8)));
    assert_eq!(d.eval(&e), Ok(Interval::empty(16)));
}

#[test]
fn an_imprecise_operand_gives_any_value() {
    let d = domain();
    let some = Expression::value(span(1, 2, 8));
    assert_eq!(d.eval(&Expression::add(some, leaf(1, 8))), Ok(Interval::any(8).unwrap()));
    let some = Expression::value(span(1, 2, 8));
    assert_eq!(d.eval(&Expression::cmpltu(leaf(1, 8), some)), Ok(Interval::any(1).unwrap()));
    let some = Expression::value(span(1, 2, 8));
    assert_eq!(d.eval(&Expression::sext(16, some)), Ok(Interval::any(16).unwrap()));
}

#[test]
fn operands_of_different_widths_are_refused() {
    let d = domain();
    assert_eq!(d.eval(&Expression::add(leaf(2, 8), leaf(3, 16))), Err(Error::LatticeInconsistency));
    let e = Expression::mul(leaf(1, 16), Expression::add(leaf(2, 8), leaf(3, 16)));
    assert_eq!(d.eval(&e), Err(Error::LatticeInconsistency));
    let e = Expression::mul(Expression::add(leaf(2, 8), leaf(3, 16)), leaf(1, 16));
    assert_eq!(d.eval(&e), Err(Error::LatticeInconsistency));
}

#[test]
fn widths_that_cannot_be_reached_are_refused() {
    let d = domain();
    assert_eq!(d.eval(&Expression::zext(4, leaf(2, 8))), Err(Error::LatticeInconsistency));
    assert_eq!(d.eval(&Expression::sext(65, leaf(2, 8))), Err(Error::LatticeInconsistency));
    assert_eq!(d.eval(&Expression::trun(16, leaf(2, 8))), Err(Error::LatticeInconsistency));
    assert_eq!(d.eval(&Expression::trun(0, leaf(2, 8))), Err(Error::LatticeInconsistency));
    let wide = Expression::value(Interval::empty(128));
    assert_eq!(d.eval(&Expression::trun(8, wide)), Err(Error::LatticeInconsistency));
}

#[test]
fn constants_that_do_not_fit_are_refused() {
    let d = domain();
    let bad = Expression::value(span(300, 300, 8));
    assert_eq!(d.eval(&Expression::add(bad, leaf(1, 8))), Err(Error::LatticeInconsistency));
    let bad = Expression::value(span(300, 300, 8));
    assert_eq!(d.eval(&Expression::zext(16, bad)), Err(Error::LatticeInconsistency));
}

#[test]
fn testing_a_variable_against_a_constant_is_remembered() {
    let d = domain();
    let x = Interval::any(8).unwrap().bound_to(0);
    let tested = d.eval(&Expression::cmpeq(Expression::value(x), leaf(5, 8))).unwrap();
    assert_eq!(
        tested,
        Interval { bits: 1, range: Range::Span { lo: 0, hi: 1 }, origin: Origin::Equality(0, 5) }
    );
    let tested = d.eval(&Expression::cmpeq(leaf(5, 8), Expression::value(x))).unwrap();
    assert_eq!(tested.origin, Origin::Equality(0, 5));
    let tested = d.eval(&Expression::cmpneq(Expression::value(x), leaf(5, 8))).unwrap();
    assert_eq!(tested.origin, Origin::Unknown);
    let tested = d.eval(&Expression::add(Expression::value(x), leaf(5, 8))).unwrap();
    assert_eq!(tested.origin, Origin::Unknown);
}

#[test]
fn branch_narrows_the_tested_variable() {
    let x = Scalar::new("x", 8);
    let d = IntervalDomain::new(Endian::Little, vec![x.clone()]);
    let mut state = d.new_state();
    state.set_variable(x.clone(), Interval::any(8).unwrap());
    state.set_variable(Scalar::new("other", 8), Interval::any(8).unwrap());
    let read = state.variable(&x).unwrap().bound_to(0);
    let condition = d
        .eval(&Expression::cmpeq(Expression::value(read), leaf(5, 8)))
        .unwrap();
    let target = constant(0x1000, 32);
    let taken = d.brc(&target, &condition, state).unwrap();
    assert_eq!(taken.variable(&x), Some(&constant(5, 8)));
    assert_eq!(taken.variable(&Scalar::new("other", 8)), Some(&Interval::any(8).unwrap()));
    assert_eq!(taken.variables().len(), 2);
}

#[test]
fn branch_that_cannot_be_taken_leaves_no_value() {
    let x = Scalar::new("x", 8);
    let d = IntervalDomain::new(Endian::Little, vec![x.clone()]);
    let mut state = d.new_state();
    state.set_variable(x.clone(), span(10, 20, 8));
    let read = state.variable(&x).unwrap().bound_to(0);
    let condition = d
        .eval(&Expression::cmpeq(Expression::value(read), leaf(5, 8)))
        .unwrap();
    let taken = d.brc(&constant(0, 32), &condition, state).unwrap();
    assert_eq!(taken.variable(&x), Some(&Interval::empty(8)));
}

#[test]
fn branch_on_another_condition_leaves_the_state() {
    let x = Scalar::new("x", 8);
    let d = IntervalDomain::new(Endian::Little, vec![x.clone()]);
    let mut state = d.new_state();
    state.set_variable(x.clone(), Interval::any(8).unwrap());
    let before = state.clone();
    let condition = d.eval(&Expression::cmpltu(leaf(1, 8), leaf(5, 8))).unwrap();
    assert_eq!(d.brc(&constant(0, 32), &condition, state), Ok(before));
}

#[test]
fn branch_on_a_variable_that_the_state_does_not_hold_leaves_the_state() {
    let d = domain();
    let state = d.new_state();
    let condition =
        Interval { bits: 1, range: Range::Span { lo: 0, hi: 1 }, origin: Origin::Equality(1, 5) };
    let taken = d.brc(&constant(0, 32), &condition, state).unwrap();
    assert!(taken.variables().is_empty());
}

#[test]
fn branch_on_a_condition_that_is_not_one_bit_is_refused() {
    let d = domain();
    let state = d.new_state();
    assert_eq!(
        d.brc(&constant(0, 32), &constant(1, 8), state),
        Err(Error::UnsupportedControlEffect)
    );
}

#[test]
fn branch_on_an_unnumbered_variable_is_refused() {
    let d = domain();
    let state = d.new_state();
    let condition =
        Interval { bits: 1, range: Range::Span { lo: 0, hi: 1 }, origin: Origin::Equality(2, 5) };
    assert_eq!(d.brc(&constant(0, 32), &condition, state), Err(Error::UnsupportedControlEffect));
}

#[test]
fn raise_leaves_the_state() {
    let d = domain();
    let mut state = d.new_state();
    state.set_variable(Scalar::new("x", 8), constant(1, 8));
    let before = state.clone();
    assert_eq!(d.raise(&constant(3, 8), state), Ok(before));
}

#[test]
fn new_state_is_empty_and_in_the_byte_order_of_the_domain() {
    for endian in [Endian::Little, Endian::Big] {
        let d = IntervalDomain::new(endian, Vec::new());
        assert_eq!(d.endian(), endian);
        let state: State<ByteMemory, Interval> = d.new_state();
        assert!(state.variables().is_empty());
        assert_eq!(state.memory(), &ByteMemory::new(endian));
        assert_eq!(state.memory().endian(), endian);
    }
}
