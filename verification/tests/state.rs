use abstract_domain::domain::{Memory, Value};
use abstract_domain::error::Error;
use abstract_domain::il::{Constant, Scalar};
use abstract_domain::interval::{Interval, Origin, Range};
use abstract_domain::memory::ByteMemory;
use abstract_domain::state::State;
use abstract_domain::types::Endian;

type S = State<ByteMemory, Interval>;

fn constant(value: u64, bits: usize) -> Interval {
    Interval::constant(Constant::new(value, bits).unwrap())
}

fn span(lo: u64, hi: u64, bits: usize) -> Interval {
    Interval { bits, range: Range::Span { lo, hi }, origin: Origin::Unknown }
}

fn var(name: &str) -> Scalar {
    Scalar::new(name, 32)
}

fn empty_state() -> S {
    State::new(ByteMemory::new(Endian::Little))
}

#[test]
fn new_state_has_no_variables() {
    let memory = ByteMemory::new(Endian::Big);
    let state: S = State::new(memory.clone());
    assert!(state.variables().is_empty());
    assert_eq!(state.memory(), &memory);
    assert_eq!(state.variable(&var("x")), None);
}

#[test]
fn set_variable_then_variable() {
    let mut state = empty_state();
    state.set_variable(var("x"), constant(1, 32));
    state.set_variable(var("y"), constant(2, 32));
    assert_eq!(state.variable(&var("x")), Some(&constant(1, 32)));
    assert_eq!(state.variable(&var("y")), Some(&constant(2, 32)));
    assert_eq!(state.variable(&var("z")), None);
    assert_eq!(state.variables().len(), 2);
}

#[test]
fn set_variable_replaces_the_value() {
    let mut state = empty_state();
    state.set_variable(var("x"), constant(1, 32));
    state.set_variable(var("x"), constant(7, 32));
    assert_eq!(state.variable(&var("x")), Some(&constant(7, 32)));
    assert_eq!(state.variables().len(), 1);
}

#[test]
fn variables_of_one_name_and_different_widths_are_different() {
    let mut state = empty_state();
    state.set_variable(Scalar::new("x", 32), constant(1, 32));
    state.set_variable(Scalar::new("x", 8), constant(2, 8));
    assert_eq!(state.variable(&Scalar::new("x", 32)), Some(&constant(1, 32)));
    assert_eq!(state.variable(&Scalar::new("x", 8)), Some(&constant(2, 8)));
    assert_eq!(state.variable(&Scalar::new("x", 16)), None);
}

#[test]
fn remove_variable_takes_it_out() {
    let mut state = empty_state();
    state.set_variable(var("x"), constant(1, 32));
    state.set_variable(var("y"), constant(2, 32));
    state.set_variable(var("z"), constant(3, 32));
    state.remove_variable(&var("x"));
    assert_eq!(state.variable(&var("x")), None);
    assert_eq!(state.variable(&var("y")), Some(&constant(2, 32)));
    assert_eq!(state.variable(&var("z")), Some(&constant(3, 32)));
    state.remove_variable(&var("x"));
    state.remove_variable(&var("nowhere"));
    assert_eq!(state.variables().len(), 2);
}

#[test]
fn variables_lists_every_entry_once() {
    let mut state = empty_state();
    state.set_variable(var("x"), constant(1, 32));
    state.set_variable(var("y"), constant(2, 32));
    state.set_variable(var("x"), constant(3, 32));
    let entries = state.variables();
    assert_eq!(entries.len(), 2);
    assert!(entries.contains(&(var("x"), constant(3, 32))));
    assert!(entries.contains(&(var("y"), constant(2, 32))));
}

#[test]
fn join_joins_shared_variables() {
    let mut a = empty_state();
    a.set_variable(var("x"), constant(1, 32));
    let mut b = empty_state();
    b.set_variable(var("x"), constant(9, 32));
    let joined = a.join(&b).unwrap();
    assert_eq!(joined.variable(&var("x")), Some(&span(1, 9, 32)));
    assert_eq!(joined.variables().len(), 1);
}

#[test]
fn join_keeps_a_variable_that_one_state_alone_holds() {
    let mut a = empty_state();
    a.set_variable(var("only_a"), constant(1, 32));
    a.set_variable(var("both"), constant(5, 32));
    let mut b = empty_state();
    b.set_variable(var("both"), constant(6, 32));
    b.set_variable(var("only_b"), constant(2, 32).bound_to(4));
    let joined = a.join(&b).unwrap();
    assert_eq!(joined.variable(&var("only_a")), Some(&constant(1, 32)));
    assert_eq!(joined.variable(&var("only_b")), Some(&constant(2, 32).bound_to(4)));
    assert_eq!(joined.variable(&var("both")), Some(&span(5, 6, 32)));
    assert_eq!(joined.variables().len(), 3);
}

#[test]
fn join_does_not_join_a_lone_variable_against_bottom() {
    // The value is kept as it is, whatever joining it with the bottom
    // element of another width would have said.
    let mut a = empty_state();
    a.set_variable(Scalar::new("x", 32), constant(1, 8));
    let b = empty_state();
    let joined = a.join(&b).unwrap();
    assert_eq!(joined.variable(&Scalar::new("x", 32)), Some(&constant(1, 8)));
    let mut c = empty_state();
    c.set_variable(Scalar::new("x", 32), constant(1, 8));
    let joined = empty_state().join(&c).unwrap();
    assert_eq!(joined.variable(&Scalar::new("x", 32)), Some(&constant(1, 8)));
}

#[test]
fn join_with_an_empty_state_changes_nothing() {
    let mut a = empty_state();
    a.set_variable(var("x"), constant(1, 32));
    a.set_variable(var("y"), span(2, 4, 32));
    let copy = a.clone();
    assert_eq!(a.join(&empty_state()), Ok(copy.clone()));
    assert_eq!(empty_state().join(&copy), Ok(copy));
}

#[test]
fn join_with_itself_changes_nothing() {
    let mut a = empty_state();
    a.set_variable(var("x"), constant(1, 32));
    a.set_variable(var("y"), span(2, 4, 32));
    let copy = a.clone();
    assert_eq!(a.join(&copy), Ok(copy));
}

#[test]
fn join_fails_where_two_values_cannot_be_joined() {
    let mut a = empty_state();
    a.set_variable(var("x"), constant(1, 32));
    a.set_variable(var("y"), constant(1, 32));
    let mut b = empty_state();
    b.set_variable(var("x"), constant(1, 32));
    b.set_variable(var("y"), constant(1, 16));
    assert_eq!(a.join(&b), Err(Error::LatticeInconsistency));
}

#[test]
fn join_fails_where_the_memories_cannot_be_joined() {
    let mut a: S = State::new(ByteMemory::new(Endian::Little));
    a.set_variable(var("x"), constant(1, 32));
    let b: S = State::new(ByteMemory::new(Endian::Big));
    assert_eq!(a.join(&b), Err(Error::LatticeInconsistency));
}

#[test]
fn join_joins_the_memories() {
    let address = constant(0x10, 64);
    let mut left = ByteMemory::new(Endian::Little);
    left.store(&address, constant(1, 8)).unwrap();
    let mut right = ByteMemory::new(Endian::Little);
    right.store(&address, constant(3, 8)).unwrap();
    let a: S = State::new(left.clone());
    let b: S = State::new(right.clone());
    let joined = a.join(&b).unwrap();
    assert_eq!(joined.memory(), &left.join(&right).unwrap());
    assert_eq!(joined.memory().byte(0x10), Some(span(1, 3, 8)));
}

#[test]
fn states_are_equal_whatever_the_order_of_their_variables() {
    let mut a = empty_state();
    a.set_variable(var("x"), constant(1, 32));
    a.set_variable(var("y"), constant(2, 32));
    let mut b = empty_state();
    b.set_variable(var("y"), constant(2, 32));
    b.set_variable(var("x"), constant(1, 32));
    assert_eq!(a, b);
    b.set_variable(var("x"), constant(3, 32));
    assert_ne!(a, b);
    b.set_variable(var("x"), constant(1, 32));
    b.set_variable(var("z"), constant(1, 32));
    assert_ne!(a, b);
    assert_ne!(b, a);
}

#[test]
fn states_with_different_memories_differ() {
    let a: S = State::new(ByteMemory::new(Endian::Little));
    let b: S = State::new(ByteMemory::new(Endian::Big));
    assert_ne!(a, b);
}

#[test]
fn clone_is_equal_and_independent() {
    let mut a = empty_state();
    a.set_variable(var("x"), constant(1, 32));
    let mut b = a.clone();
    assert_eq!(a, b);
    b.set_variable(var("x"), constant(2, 32));
    assert_eq!(a.variable(&var("x")), Some(&constant(1, 32)));
    assert_eq!(b.variable(&var("x")), Some(&constant(2, 32)));
}
