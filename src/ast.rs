//! The syntax tree: expressions and statements.

use vstd::prelude::*;
use crate::token::Token;

verus! {

/// An expression. Each node owns its children.
#[derive(Debug, PartialEq)]
pub enum Expr {
    /// `left operator right`, where the operator is arithmetic, a comparison
    /// or logical.
    Binary { left: Box<Expr>, operator: Token, right: Box<Expr> },
    /// `operator right`.
    Unary { operator: Token, right: Box<Expr> },
    /// A literal token.
    Literal(Token),
    /// A variable, by name.
    Variable(String),
    /// A call of a named function with its arguments in order.
    Call { callee: String, arguments: Vec<Expr> },
}

/// A statement. Each node owns its children.
#[derive(Debug, PartialEq)]
pub enum Stmt {
    /// A declaration: its type keyword, its name and its initial value, if
    /// one is given.
    VarDeclaration { ty: Token, name: String, initializer: Option<Expr> },
    /// An expression evaluated for its effect.
    Expression(Expr),
    /// A return with its value.
    Return(Expr),
    /// Statements in order.
    Block(Vec<Stmt>),
    /// A condition, the statement run when it holds, and the one run when it
    /// does not, if any.
    If { condition: Expr, then_branch: Box<Stmt>, else_branch: Option<Box<Stmt>> },
}

} // verus!
