use crate::value::{CelType, Val};
use vstd::prelude::*;

verus! {

/// A binary arithmetic operator.
#[derive(Clone, Debug, PartialEq)]
pub enum ArithmeticOp {
    Add,
    Subtract,
    Multiply,
}

/// A comparison operator.
#[derive(Clone, Debug, PartialEq)]
pub enum RelationOp {
    Equals,
    NotEquals,
}

/// A literal constant.
#[derive(Clone, Debug, PartialEq)]
pub enum Atom {
    Int(i64),
    UInt(u64),
    String(String),
    Bytes(Vec<u8>),
    Bool(bool),
    Null,
}

/// An expression tree, read but never changed by evaluation.
#[derive(Debug, PartialEq)]
pub enum Expression {
    Arithmetic(Box<Expression>, ArithmeticOp, Box<Expression>),
    Relation(Box<Expression>, RelationOp, Box<Expression>),
    /// Field access `base.name`.
    Member(Box<Expression>, String),
    /// A call `name(args)`, or `target.name(args)` when a receiver is given.
    Call(Option<Box<Expression>>, String, Vec<Expression>),
    List(Vec<Expression>),
    /// A map literal: key and value expressions, in source order.
    Dict(Vec<(Expression, Expression)>),
    Atom(Atom),
    Ident(String),
}

impl Atom {
    /// The value a literal stands for.
    pub open spec fn view(&self) -> Val {
        match self {
            Atom::Int(i) => Val::Int(*i as int),
            Atom::UInt(u) => Val::UInt(*u as int),
            Atom::String(s) => Val::Str(s@),
            Atom::Bytes(b) => Val::Bytes(b@),
            Atom::Bool(b) => Val::Bool(*b),
            Atom::Null => Val::Null,
        }
    }

    pub fn to_value(&self) -> (r: CelType)
        ensures
            r.view() == self.view(),
    {
        match self {
            Atom::Int(i) => CelType::Int(*i),
            Atom::UInt(u) => CelType::UInt(*u),
            Atom::String(s) => CelType::String(s.clone()),
            Atom::Bytes(b) => CelType::Bytes(b.clone()),
            Atom::Bool(b) => CelType::Bool(*b),
            Atom::Null => CelType::Null,
        }
    }
}

} // verus!
