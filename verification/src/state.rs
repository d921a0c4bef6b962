//! The abstract state of one program point: the abstract value of each
//! variable, and one memory model.

use crate::domain::{Memory, Value};
use crate::entries::{
    copy_of, entries_map, find, join_entries, join_maps, join_value, joinable, keys_distinct, put,
    same_map, take_out,
};
use crate::error::Error;
use crate::il::{Scalar, ScalarView};
use vstd::prelude::*;
use vstd::std_specs::cmp::PartialEqSpecImpl;

verus! {

/// An abstract state, which holds the values of all variables and a memory
/// model.
///
/// The variables are kept as a list of entries in which no variable occurs
/// twice. The order of the entries carries no meaning: the state's view is
/// a map, and every contract speaks of that map.
#[derive(Debug)]
pub struct State<M: Memory<V>, V: Value> {
    pub(crate) variables: Vec<(Scalar, V)>,
    pub(crate) memory: M,
}

/// The mathematical content of a [`State`]: a finite map from variables to
/// the views of their values, and the view of the memory. A variable that
/// the map does not hold is not yet constrained.
pub struct StateView<M: Memory<V>, V: Value> {
    pub variables: Map<ScalarView, V::V>,
    pub memory: M::V,
}

impl<M: Memory<V>, V: Value> View for State<M, V> {
    type V = StateView<M, V>;

    closed spec fn view(&self) -> StateView<M, V> {
        StateView { variables: entries_map(self.variables@), memory: self.memory@ }
    }
}

impl<M: Memory<V>, V: Value> Clone for State<M, V> {
    /// A state with the same variables, values and memory.
    fn clone(&self) -> (r: Self)
        ensures
            r@.variables == self@.variables,
            r@.memory == self@.memory,
    {
        proof {
            use_type_invariant(self);
        }
        let variables = copy_of(&self.variables);
        let memory = self.memory.clone();
        proof {
            M::lemma_clone(self.memory, memory);
        }
        State { variables, memory }
    }
}

impl<M: Memory<V>, V: Value> PartialEq for State<M, V> {
    /// Two states are equal when they hold the same variables with equal
    /// values, in whatever order, and equal memories.
    fn eq(&self, other: &Self) -> (r: bool) {
        proof {
            use_type_invariant(self);
            use_type_invariant(other);
            M::lemma_eq(self.memory, other.memory);
        }
        same_map(&self.variables, &other.variables) && self.memory == other.memory
    }
}

impl<M: Memory<V>, V: Value> PartialEqSpecImpl for State<M, V> {
    open spec fn obeys_eq_spec() -> bool {
        true
    }

    open spec fn eq_spec(&self, other: &Self) -> bool {
        self@.variables == other@.variables && self@.memory == other@.memory
    }
}

impl<M: Memory<V>, V: Value> Eq for State<M, V> {

}

impl<M: Memory<V>, V: Value> State<M, V> {
    #[verifier::type_invariant]
    spec fn inv(self) -> bool {
        keys_distinct(self.variables@)
    }

    /// Retrieve the variables tied to this `State`: one entry for each
    /// variable that the state holds, in no particular order.
    pub fn variables(&self) -> (r: &Vec<(Scalar, V)>)
        ensures
            keys_distinct(r@),
            entries_map(r@) == self@.variables,
    {
        proof {
            use_type_invariant(self);
        }
        &self.variables
    }

    /// Retrieve the memory model tied to this `State`.
    pub fn memory(&self) -> (r: &M)
        ensures
            r@ == self@.memory,
    {
        &self.memory
    }

    /// Create a new `State` with no variables and the given `Memory`.
    pub fn new(memory: M) -> (r: State<M, V>)
        ensures
            r@.variables == Map::<ScalarView, V::V>::empty(),
            r@.memory == memory@,
    {
        State { variables: Vec::new(), memory }
    }

    /// Retrieve the abstract `Value` associated with the given `Scalar`,
    /// if the state holds one.
    pub fn variable(&self, key: &Scalar) -> (r: Option<&V>)
        ensures
            match r {
                Some(v) => self@.variables.contains_key(key@) && self@.variables[key@] == v@,
                None => !self@.variables.contains_key(key@),
            },
    {
        proof {
            use_type_invariant(self);
        }
        find(&self.variables, key)
    }

    /// Set the value associated with `Scalar` to an abstract `Value` in
    /// this state.
    pub fn set_variable(&mut self, key: Scalar, value: V)
        ensures
            final(self)@.variables == old(self)@.variables.insert(key@, value@),
            final(self)@.memory == old(self)@.memory,
    {
        proof {
            use_type_invariant(&*self);
        }
        let mut variables: Vec<(Scalar, V)> = Vec::new();
        std::mem::swap(&mut variables, &mut self.variables);
        put(&mut variables, key, value);
        self.variables = variables;
    }

    /// Remove a variable from this state. A variable that the state does
    /// not hold is left absent.
    pub fn remove_variable(&mut self, key: &Scalar)
        ensures
            final(self)@.variables == old(self)@.variables.remove(key@),
            final(self)@.memory == old(self)@.memory,
    {
        proof {
            use_type_invariant(&*self);
        }
        let mut variables: Vec<(Scalar, V)> = Vec::new();
        std::mem::swap(&mut variables, &mut self.variables);
        take_out(&mut variables, key);
        self.variables = variables;
    }

    /// The join of the state `a` with the state `b`, where there is one:
    /// where the values of the variables that both hold can be joined and
    /// the memories can. The variables are joined as [`join_maps`] says: a
    /// variable that one state alone holds keeps its value.
    pub open spec fn join_spec(a: StateView<M, V>, b: StateView<M, V>) -> Option<StateView<M, V>> {
        if joinable::<ScalarView, V>(a.variables, b.variables) && M::join_spec(
            a.memory,
            b.memory,
        ) is Ok {
            Some(
                StateView {
                    variables: join_maps::<ScalarView, V>(a.variables, b.variables),
                    memory: M::join_spec(a.memory, b.memory)->Ok_0,
                },
            )
        } else {
            None
        }
    }

    /// `error` is a reason for which `a` and `b` have no join: the error of
    /// joining the two values of some variable or, where all of those can
    /// be joined, the error of joining the memories.
    pub open spec fn join_error(a: StateView<M, V>, b: StateView<M, V>, error: Error) -> bool {
        ||| exists|key: ScalarView| #[trigger]
            join_value::<ScalarView, V>(a.variables, b.variables, key) == Err::<V::V, Error>(
                error,
            )
        ||| (joinable::<ScalarView, V>(a.variables, b.variables) && M::join_spec(
            a.memory,
            b.memory,
        ) == Err::<M::V, Error>(error))
    }

    /// Join this abstract state with another abstract state.
    ///
    /// Each variable of `other` is folded into this state: joined with
    /// this state's value where there is one, copied where there is none.
    /// A variable that this state alone holds keeps its value; it is not
    /// joined against the bottom element. Then the memories are joined.
    /// The first failure ends the join with its error.
    pub fn join(self, other: &Self) -> (r: Result<Self, Error>)
        ensures
            match r {
                Ok(joined) => Self::join_spec(self@, other@) == Some(joined@),
                Err(error) => Self::join_spec(self@, other@) is None && Self::join_error(
                    self@,
                    other@,
                    error,
                ),
            },
    {
        proof {
            use_type_invariant(&self);
            use_type_invariant(other);
        }
        let State { variables, memory } = self;
        let variables = match join_entries(variables, &other.variables) {
            Ok(variables) => variables,
            Err(error) => {
                return Err(error);
            },
        };
        match Memory::join(memory, &other.memory) {
            Ok(memory) => Ok(State { variables, memory }),
            Err(error) => Err(error),
        }
    }

    /// A variable that only one of two joined states holds has, in the
    /// join, the value that it had in that state.
    pub proof fn lemma_join_keeps_unshared(a: StateView<M, V>, b: StateView<M, V>, key: ScalarView)
        requires
            Self::join_spec(a, b) is Some,
            a.variables.contains_key(key) != b.variables.contains_key(key),
        ensures
            Self::join_spec(a, b)->Some_0.variables.contains_key(key),
            a.variables.contains_key(key) ==> Self::join_spec(a, b)->Some_0.variables[key]
                == a.variables[key],
            b.variables.contains_key(key) ==> Self::join_spec(a, b)->Some_0.variables[key]
                == b.variables[key],
    {
    }
}

} // verus!
