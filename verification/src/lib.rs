//! A framework for abstract interpretation over an intermediate language.
//!
//! [`domain`] holds the contracts that an abstraction of values, an
//! abstraction of memory and a domain have to meet, with the laws that they
//! have to obey. [`expression`] holds abstract expressions and [`state`]
//! the abstract state of a program point, which is joined where paths of
//! control meet. [`il`] and [`operator`] hold what the framework takes from
//! the intermediate language: variables, constants, and what the operators
//! compute on constants.
//!
//! [`interval`], [`memory`] and [`interval_domain`] are one domain that
//! meets the contracts: intervals over a memory of abstract bytes.

pub mod domain;
pub mod entries;
pub mod error;
pub mod expression;
pub mod il;
pub mod interval;
pub mod interval_domain;
pub mod memory;
pub mod operator;
pub mod state;
pub mod types;
