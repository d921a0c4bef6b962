use abstract_domain::domain::Value;
use abstract_domain::expression::Expression;
use abstract_domain::il::Constant;
use abstract_domain::interval::Interval;

type E = Expression<Interval>;

fn leaf(value: u64) -> E {
    Expression::value(Interval::constant(Constant::new(value, 8).unwrap()))
}

fn is_leaf(e: &E, value: u64) -> bool {
    match e {
        Expression::Value(v) => *v == Interval::constant(Constant::new(value, 8).unwrap()),
        _ => false,
    }
}

#[test]
fn value_makes_a_leaf() {
    assert!(is_leaf(&leaf(7), 7));
    assert!(!is_leaf(&leaf(7), 8));
}

#[test]
fn arithmetic_constructors_keep_their_operands_in_order() {
    assert!(matches!(Expression::add(leaf(1), leaf(2)), Expression::Add(l, r) if is_leaf(&l, 1) && is_leaf(&r, 2)));
    assert!(matches!(Expression::sub(leaf(1), leaf(2)), Expression::Sub(l, r) if is_leaf(&l, 1) && is_leaf(&r, 2)));
    assert!(matches!(Expression::mul(leaf(1), leaf(2)), Expression::Mul(l, r) if is_leaf(&l, 1) && is_leaf(&r, 2)));
    assert!(matches!(Expression::divu(leaf(1), leaf(2)), Expression::Divu(l, r) if is_leaf(&l, 1) && is_leaf(&r, 2)));
    assert!(matches!(Expression::modu(leaf(1), leaf(2)), Expression::Modu(l, r) if is_leaf(&l, 1) && is_leaf(&r, 2)));
    assert!(matches!(Expression::divs(leaf(1), leaf(2)), Expression::Divs(l, r) if is_leaf(&l, 1) && is_leaf(&r, 2)));
    assert!(matches!(Expression::mods(leaf(1), leaf(2)), Expression::Mods(l, r) if is_leaf(&l, 1) && is_leaf(&r, 2)));
}

#[test]
fn bitwise_constructors_keep_their_operands_in_order() {
    assert!(matches!(Expression::and(leaf(1), leaf(2)), Expression::And(l, r) if is_leaf(&l, 1) && is_leaf(&r, 2)));
    assert!(matches!(Expression::or(leaf(1), leaf(2)), Expression::Or(l, r) if is_leaf(&l, 1) && is_leaf(&r, 2)));
    assert!(matches!(Expression::xor(leaf(1), leaf(2)), Expression::Xor(l, r) if is_leaf(&l, 1) && is_leaf(&r, 2)));
    assert!(matches!(Expression::shl(leaf(1), leaf(2)), Expression::Shl(l, r) if is_leaf(&l, 1) && is_leaf(&r, 2)));
    assert!(matches!(Expression::shr(leaf(1), leaf(2)), Expression::Shr(l, r) if is_leaf(&l, 1) && is_leaf(&r, 2)));
}

#[test]
fn comparison_constructors_keep_their_operands_in_order() {
    assert!(matches!(Expression::cmpeq(leaf(1), leaf(2)), Expression::Cmpeq(l, r) if is_leaf(&l, 1) && is_leaf(&r, 2)));
    assert!(matches!(Expression::cmpneq(leaf(1), leaf(2)), Expression::Cmpneq(l, r) if is_leaf(&l, 1) && is_leaf(&r, 2)));
    assert!(matches!(Expression::cmpltu(leaf(1), leaf(2)), Expression::Cmpltu(l, r) if is_leaf(&l, 1) && is_leaf(&r, 2)));
    assert!(matches!(Expression::cmplts(leaf(1), leaf(2)), Expression::Cmplts(l, r) if is_leaf(&l, 1) && is_leaf(&r, 2)));
}

#[test]
fn width_constructors_keep_width_and_operand() {
    assert!(matches!(Expression::zext(16, leaf(1)), Expression::Zext(16, r) if is_leaf(&r, 1)));
    assert!(matches!(Expression::sext(32, leaf(1)), Expression::Sext(32, r) if is_leaf(&r, 1)));
    assert!(matches!(Expression::trun(4, leaf(1)), Expression::Trun(4, r) if is_leaf(&r, 1)));
}

#[test]
fn constructors_nest() {
    let e = Expression::add(Expression::mul(leaf(1), leaf(2)), Expression::zext(8, leaf(3)));
    match e {
        Expression::Add(l, r) => {
            assert!(matches!(*l, Expression::Mul(a, b) if is_leaf(&a, 1) && is_leaf(&b, 2)));
            assert!(matches!(*r, Expression::Zext(8, a) if is_leaf(&a, 3)));
        }
        _ => panic!("not a sum"),
    }
}
