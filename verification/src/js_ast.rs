//! The programs of the target language that the printer writes out.
use vstd::prelude::*;
use crate::ast::Lit;

verus! {

/// A program: its statements in order.
#[derive(Debug)]
pub struct Program {
    pub body: Vec<Statement>,
}

/// A statement.
#[derive(Debug)]
pub enum Statement {
    /// `const pattern = value;`
    Decl { pattern: Pattern, value: Expression },
    Expression { expr: Expression },
    /// `return arg;`
    Return { arg: Expression },
}

/// What a declaration binds.
#[derive(Debug)]
pub enum Pattern {
    Ident { name: String },
}

/// A parameter of a function.
#[derive(Debug)]
pub enum Param {
    Ident { name: String },
    /// `...name`
    Rest { name: String },
}

/// The binary operators.
#[derive(Clone, Copy, Debug, PartialEq, Eq, Structural)]
pub enum BinaryOp {
    Add,
    Sub,
    Mul,
    Div,
    Mod,
    Exp,
}

/// The unary operators.
#[derive(Clone, Copy, Debug, PartialEq, Eq, Structural)]
pub enum UnaryOp {
    Neg,
    Not,
}

/// An expression.
#[derive(Debug)]
#[allow(inconsistent_fields)]
pub enum Expression {
    Call { func: Box<Expression>, args: Vec<Expression> },
    /// An arrow function.
    Function { params: Vec<Param>, body: Vec<Statement> },
    Ident { name: String },
    Literal { literal: Lit },
    Binary { op: BinaryOp, left: Box<Expression>, right: Box<Expression> },
    Unary { op: UnaryOp, arg: Box<Expression> },
}

} // verus!
