//! Abstract expressions: the expression operators of the intermediate
//! language over abstract values.

use crate::domain::Value;
use crate::operator::{Extension, Operator};
use vstd::prelude::*;

verus! {

/// An abstract expression.
///
/// It has the shape of an expression of the intermediate language, with
/// an abstract value in place of every variable and every constant. A node
/// owns its subtrees. The tree only records the operators: what they mean
/// is for a domain's `eval` to say.
pub enum Expression<V> {
    Value(V),
    Add(Box<Expression<V>>, Box<Expression<V>>),
    Sub(Box<Expression<V>>, Box<Expression<V>>),
    Mul(Box<Expression<V>>, Box<Expression<V>>),
    Divu(Box<Expression<V>>, Box<Expression<V>>),
    Modu(Box<Expression<V>>, Box<Expression<V>>),
    Divs(Box<Expression<V>>, Box<Expression<V>>),
    Mods(Box<Expression<V>>, Box<Expression<V>>),
    And(Box<Expression<V>>, Box<Expression<V>>),
    Or(Box<Expression<V>>, Box<Expression<V>>),
    Xor(Box<Expression<V>>, Box<Expression<V>>),
    Shl(Box<Expression<V>>, Box<Expression<V>>),
    Shr(Box<Expression<V>>, Box<Expression<V>>),
    Cmpeq(Box<Expression<V>>, Box<Expression<V>>),
    Cmpneq(Box<Expression<V>>, Box<Expression<V>>),
    Cmpltu(Box<Expression<V>>, Box<Expression<V>>),
    Cmplts(Box<Expression<V>>, Box<Expression<V>>),
    Zext(usize, Box<Expression<V>>),
    Sext(usize, Box<Expression<V>>),
    Trun(usize, Box<Expression<V>>),
}

impl<V: View> View for Expression<V> {
    type V = Expression<V::V>;

    /// The same tree over the views of its leaves.
    open spec fn view(&self) -> Expression<V::V>
        decreases self,
    {
        match self {
            Expression::Value(v) => Expression::Value(v@),
            Expression::Add(l, r) => Expression::Add(Box::new((**l)@), Box::new((**r)@)),
            Expression::Sub(l, r) => Expression::Sub(Box::new((**l)@), Box::new((**r)@)),
            Expression::Mul(l, r) => Expression::Mul(Box::new((**l)@), Box::new((**r)@)),
            Expression::Divu(l, r) => Expression::Divu(Box::new((**l)@), Box::new((**r)@)),
            Expression::Modu(l, r) => Expression::Modu(Box::new((**l)@), Box::new((**r)@)),
            Expression::Divs(l, r) => Expression::Divs(Box::new((**l)@), Box::new((**r)@)),
            Expression::Mods(l, r) => Expression::Mods(Box::new((**l)@), Box::new((**r)@)),
            Expression::And(l, r) => Expression::And(Box::new((**l)@), Box::new((**r)@)),
            Expression::Or(l, r) => Expression::Or(Box::new((**l)@), Box::new((**r)@)),
            Expression::Xor(l, r) => Expression::Xor(Box::new((**l)@), Box::new((**r)@)),
            Expression::Shl(l, r) => Expression::Shl(Box::new((**l)@), Box::new((**r)@)),
            Expression::Shr(l, r) => Expression::Shr(Box::new((**l)@), Box::new((**r)@)),
            Expression::Cmpeq(l, r) => Expression::Cmpeq(Box::new((**l)@), Box::new((**r)@)),
            Expression::Cmpneq(l, r) => Expression::Cmpneq(Box::new((**l)@), Box::new((**r)@)),
            Expression::Cmpltu(l, r) => Expression::Cmpltu(Box::new((**l)@), Box::new((**r)@)),
            Expression::Cmplts(l, r) => Expression::Cmplts(Box::new((**l)@), Box::new((**r)@)),
            Expression::Zext(bits, r) => Expression::Zext(*bits, Box::new((**r)@)),
            Expression::Sext(bits, r) => Expression::Sext(*bits, Box::new((**r)@)),
            Expression::Trun(bits, r) => Expression::Trun(*bits, Box::new((**r)@)),
        }
    }
}

impl<V> Expression<V> {
    /// The node that applies the binary operator `operator` to two
    /// subtrees.
    pub open spec fn binary(operator: Operator, lhs: Self, rhs: Self) -> Self {
        match operator {
            Operator::Add => Expression::Add(Box::new(lhs), Box::new(rhs)),
            Operator::Sub => Expression::Sub(Box::new(lhs), Box::new(rhs)),
            Operator::Mul => Expression::Mul(Box::new(lhs), Box::new(rhs)),
            Operator::Divu => Expression::Divu(Box::new(lhs), Box::new(rhs)),
            Operator::Modu => Expression::Modu(Box::new(lhs), Box::new(rhs)),
            Operator::Divs => Expression::Divs(Box::new(lhs), Box::new(rhs)),
            Operator::Mods => Expression::Mods(Box::new(lhs), Box::new(rhs)),
            Operator::And => Expression::And(Box::new(lhs), Box::new(rhs)),
            Operator::Or => Expression::Or(Box::new(lhs), Box::new(rhs)),
            Operator::Xor => Expression::Xor(Box::new(lhs), Box::new(rhs)),
            Operator::Shl => Expression::Shl(Box::new(lhs), Box::new(rhs)),
            Operator::Shr => Expression::Shr(Box::new(lhs), Box::new(rhs)),
            Operator::Cmpeq => Expression::Cmpeq(Box::new(lhs), Box::new(rhs)),
            Operator::Cmpneq => Expression::Cmpneq(Box::new(lhs), Box::new(rhs)),
            Operator::Cmpltu => Expression::Cmpltu(Box::new(lhs), Box::new(rhs)),
            Operator::Cmplts => Expression::Cmplts(Box::new(lhs), Box::new(rhs)),
        }
    }

    /// The node that extends or truncates a subtree to `bits` bits.
    pub open spec fn resized(extension: Extension, bits: usize, rhs: Self) -> Self {
        match extension {
            Extension::Zext => Expression::Zext(bits, Box::new(rhs)),
            Extension::Sext => Expression::Sext(bits, Box::new(rhs)),
            Extension::Trun => Expression::Trun(bits, Box::new(rhs)),
        }
    }
}

impl<V> Expression<V> where V: Value {
    /// A leaf that holds an abstract value.
    pub fn value(value: V) -> (r: Expression<V>)
        ensures
            r == Expression::Value(value),
    {
        Expression::Value(value)
    }

    /// The sum of two expressions.
    pub fn add(lhs: Expression<V>, rhs: Expression<V>) -> (r: Expression<V>)
        ensures
            r == Expression::Add(Box::new(lhs), Box::new(rhs)),
    {
        Expression::Add(Box::new(lhs), Box::new(rhs))
    }

    /// The difference of two expressions.
    pub fn sub(lhs: Expression<V>, rhs: Expression<V>) -> (r: Expression<V>)
        ensures
            r == Expression::Sub(Box::new(lhs), Box::new(rhs)),
    {
        Expression::Sub(Box::new(lhs), Box::new(rhs))
    }

    /// The product of two expressions.
    pub fn mul(lhs: Expression<V>, rhs: Expression<V>) -> (r: Expression<V>)
        ensures
            r == Expression::Mul(Box::new(lhs), Box::new(rhs)),
    {
        Expression::Mul(Box::new(lhs), Box::new(rhs))
    }

    /// The unsigned quotient of two expressions.
    pub fn divu(lhs: Expression<V>, rhs: Expression<V>) -> (r: Expression<V>)
        ensures
            r == Expression::Divu(Box::new(lhs), Box::new(rhs)),
    {
        Expression::Divu(Box::new(lhs), Box::new(rhs))
    }

    /// The unsigned remainder of two expressions.
    pub fn modu(lhs: Expression<V>, rhs: Expression<V>) -> (r: Expression<V>)
        ensures
            r == Expression::Modu(Box::new(lhs), Box::new(rhs)),
    {
        Expression::Modu(Box::new(lhs), Box::new(rhs))
    }

    /// The signed quotient of two expressions.
    pub fn divs(lhs: Expression<V>, rhs: Expression<V>) -> (r: Expression<V>)
        ensures
            r == Expression::Divs(Box::new(lhs), Box::new(rhs)),
    {
        Expression::Divs(Box::new(lhs), Box::new(rhs))
    }

    /// The signed remainder of two expressions.
    pub fn mods(lhs: Expression<V>, rhs: Expression<V>) -> (r: Expression<V>)
        ensures
            r == Expression::Mods(Box::new(lhs), Box::new(rhs)),
    {
        Expression::Mods(Box::new(lhs), Box::new(rhs))
    }

    /// The bitwise and of two expressions.
    pub fn and(lhs: Expression<V>, rhs: Expression<V>) -> (r: Expression<V>)
        ensures
            r == Expression::And(Box::new(lhs), Box::new(rhs)),
    {
        Expression::And(Box::new(lhs), Box::new(rhs))
    }

    /// The bitwise or of two expressions.
    pub fn or(lhs: Expression<V>, rhs: Expression<V>) -> (r: Expression<V>)
        ensures
            r == Expression::Or(Box::new(lhs), Box::new(rhs)),
    {
        Expression::Or(Box::new(lhs), Box::new(rhs))
    }

    /// The bitwise exclusive or of two expressions.
    pub fn xor(lhs: Expression<V>, rhs: Expression<V>) -> (r: Expression<V>)
        ensures
            r == Expression::Xor(Box::new(lhs), Box::new(rhs)),
    {
        Expression::Xor(Box::new(lhs), Box::new(rhs))
    }

    /// The left expression shifted left by the right one.
    pub fn shl(lhs: Expression<V>, rhs: Expression<V>) -> (r: Expression<V>)
        ensures
            r == Expression::Shl(Box::new(lhs), Box::new(rhs)),
    {
        Expression::Shl(Box::new(lhs), Box::new(rhs))
    }

    /// The left expression shifted right by the right one.
    pub fn shr(lhs: Expression<V>, rhs: Expression<V>) -> (r: Expression<V>)
        ensures
            r == Expression::Shr(Box::new(lhs), Box::new(rhs)),
    {
        Expression::Shr(Box::new(lhs), Box::new(rhs))
    }

    /// Whether two expressions are equal.
    pub fn cmpeq(lhs: Expression<V>, rhs: Expression<V>) -> (r: Expression<V>)
        ensures
            r == Expression::Cmpeq(Box::new(lhs), Box::new(rhs)),
    {
        Expression::Cmpeq(Box::new(lhs), Box::new(rhs))
    }

    /// Whether two expressions differ.
    pub fn cmpneq(lhs: Expression<V>, rhs: Expression<V>) -> (r: Expression<V>)
        ensures
            r == Expression::Cmpneq(Box::new(lhs), Box::new(rhs)),
    {
        Expression::Cmpneq(Box::new(lhs), Box::new(rhs))
    }

    /// Whether the left expression is below the right one, both unsigned.
    pub fn cmpltu(lhs: Expression<V>, rhs: Expression<V>) -> (r: Expression<V>)
        ensures
            r == Expression::Cmpltu(Box::new(lhs), Box::new(rhs)),
    {
        Expression::Cmpltu(Box::new(lhs), Box::new(rhs))
    }

    /// Whether the left expression is below the right one, both signed.
    pub fn cmplts(lhs: Expression<V>, rhs: Expression<V>) -> (r: Expression<V>)
        ensures
            r == Expression::Cmplts(Box::new(lhs), Box::new(rhs)),
    {
        Expression::Cmplts(Box::new(lhs), Box::new(rhs))
    }

    /// An expression extended with zeros to `bits` bits.
    pub fn zext(bits: usize, rhs: Expression<V>) -> (r: Expression<V>)
        ensures
            r == Expression::Zext(bits, Box::new(rhs)),
    {
        Expression::Zext(bits, Box::new(rhs))
    }

    /// An expression extended with its sign to `bits` bits.
    pub fn sext(bits: usize, rhs: Expression<V>) -> (r: Expression<V>)
        ensures
            r == Expression::Sext(bits, Box::new(rhs)),
    {
        Expression::Sext(bits, Box::new(rhs))
    }

    /// An expression truncated to `bits` bits.
    pub fn trun(bits: usize, rhs: Expression<V>) -> (r: Expression<V>)
        ensures
            r == Expression::Trun(bits, Box::new(rhs)),
    {
        Expression::Trun(bits, Box::new(rhs))
    }
}

} // verus!
