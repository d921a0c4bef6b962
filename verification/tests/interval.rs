use abstract_domain::domain::Value;
use abstract_domain::error::Error;
use abstract_domain::il::Constant;
use abstract_domain::interval::{Interval, Origin, Range};

fn constant(value: u64, bits: usize) -> Interval {
    Interval::constant(Constant::new(value, bits).unwrap())
}

fn samples() -> Vec<Interval> {
    vec![
        Interval::empty(8),
        constant(0, 8),
        constant(5, 8),
        constant(255, 8),
        Interval::any(8).unwrap(),
        Interval { bits: 8, range: Range::Span { lo: 3, hi: 9 }, origin: Origin::Unknown },
        constant(5, 8).bound_to(0),
        constant(5, 8).bound_to(1),
        Interval::any(8).unwrap().bound_to(0),
        Interval { bits: 8, range: Range::Span { lo: 0, hi: 1 }, origin: Origin::Equality(0, 5) },
        Interval { bits: 8, range: Range::Empty, origin: Origin::Unknown },
    ]
}

#[test]
fn empty_is_the_bottom_of_its_width() {
    assert_eq!(
        Interval::empty(32),
        Interval { bits: 32, range: Range::Empty, origin: Origin::Unbound }
    );
    assert!(Interval::empty(32).is_empty());
}

#[test]
fn constant_is_a_single_value() {
    assert_eq!(
        constant(0x1234, 16),
        Interval { bits: 16, range: Range::Span { lo: 0x1234, hi: 0x1234 }, origin: Origin::Unknown }
    );
    assert_eq!(constant(0x1234, 16).known(), Some(Constant { value: 0x1234, bits: 16 }));
    assert!(!constant(0x1234, 16).is_empty());
}

#[test]
fn any_is_the_whole_range() {
    assert_eq!(
        Interval::any(8),
        Some(Interval { bits: 8, range: Range::Span { lo: 0, hi: 255 }, origin: Origin::Unknown })
    );
    assert_eq!(
        Interval::any(64),
        Some(Interval { bits: 64, range: Range::Span { lo: 0, hi: u64::MAX }, origin: Origin::Unknown })
    );
    assert_eq!(Interval::any(0), None);
    assert_eq!(Interval::any(65), None);
    assert_eq!(Interval::any(8).unwrap().known(), None);
    assert_eq!(Interval::empty(8).known(), None);
}

#[test]
fn bound_to_names_the_variable() {
    assert_eq!(
        constant(5, 8).bound_to(3),
        Interval { bits: 8, range: Range::Span { lo: 5, hi: 5 }, origin: Origin::Variable(3) }
    );
}

#[test]
fn join_is_the_hull() {
    assert_eq!(
        constant(3, 8).join(&constant(9, 8)),
        Ok(Interval { bits: 8, range: Range::Span { lo: 3, hi: 9 }, origin: Origin::Unknown })
    );
    assert_eq!(
        constant(9, 8).join(&Interval { bits: 8, range: Range::Span { lo: 1, hi: 4 }, origin: Origin::Unknown }),
        Ok(Interval { bits: 8, range: Range::Span { lo: 1, hi: 9 }, origin: Origin::Unknown })
    );
}

#[test]
fn join_of_origins() {
    let a = constant(5, 8).bound_to(0);
    let b = constant(7, 8).bound_to(0);
    let c = constant(7, 8).bound_to(1);
    assert_eq!(a.join(&b).unwrap().origin, Origin::Variable(0));
    assert_eq!(a.join(&c).unwrap().origin, Origin::Unknown);
    assert_eq!(a.join(&Interval::empty(8)).unwrap().origin, Origin::Variable(0));
    assert_eq!(Interval::empty(8).join(&a).unwrap().origin, Origin::Variable(0));
    assert_eq!(a.join(&constant(5, 8)).unwrap().origin, Origin::Unknown);
}

#[test]
fn join_refuses_different_widths() {
    assert_eq!(constant(5, 8).join(&constant(5, 16)), Err(Error::LatticeInconsistency));
    assert_eq!(Interval::empty(8).join(&Interval::empty(9)), Err(Error::LatticeInconsistency));
}

#[test]
fn join_is_commutative() {
    for a in samples() {
        for b in samples() {
            assert_eq!(a.join(&b), b.join(&a));
        }
    }
}

#[test]
fn join_is_idempotent() {
    for a in samples() {
        assert_eq!(a.join(&a), Ok(a));
    }
}

#[test]
fn join_with_empty_changes_nothing() {
    for a in samples() {
        assert_eq!(a.join(&Interval::empty(a.bits)), Ok(a));
        assert_eq!(Interval::empty(a.bits).join(&a), Ok(a));
    }
}

#[test]
fn join_never_narrows() {
    for a in samples() {
        for b in samples() {
            let c = a.join(&b).unwrap();
            assert_eq!(c.join(&a), Ok(c));
            assert_eq!(c.join(&b), Ok(c));
            assert_eq!(c.bits, a.bits);
        }
    }
}

#[test]
fn bottom_joined_with_a_constant_is_stable() {
    let k = constant(0x1234_5678, 32);
    let joined = Interval::empty(32).join(&k).unwrap();
    assert_eq!(joined, k);
    assert_eq!(joined.join(&joined), Ok(joined));
}

#[test]
fn clone_and_equality() {
    for a in samples() {
        assert_eq!(a.clone(), a);
    }
    assert_ne!(constant(5, 8), constant(5, 16));
    assert_ne!(constant(5, 8), constant(6, 8));
    assert_ne!(constant(5, 8), constant(5, 8).bound_to(0));
}
