//! Arithmetic expression trees and their evaluation.

use vstd::prelude::*;

pub mod visitor;

verus! {

/// Types of expressions in our tree.
///
/// As we only support binary operations, we differentiate between literal expressions (leaves in
/// the tree), and arithmetic operations (branches in the tree).
#[derive(Debug)]
pub enum Expression {
    IntLiteral(i64),
    Addition { left: Box<Expression>, right: Box<Expression> },
    Multiplication { left: Box<Expression>, right: Box<Expression> },
}

/// An expression tree.
pub struct Tree {
    pub root: Expression,
}

impl Expression {
    /// The number the expression stands for.
    pub open spec fn value(&self) -> int
        decreases self,
    {
        match self {
            Expression::IntLiteral(i) => *i as int,
            Expression::Addition { left, right } => left.value() + right.value(),
            Expression::Multiplication { left, right } => left.value() * right.value(),
        }
    }

    /// Whether the value of the expression and of each of its parts is a
    /// 64-bit signed integer, so that evaluation does not overflow.
    pub open spec fn fits(&self) -> bool
        decreases self,
    {
        &&& i64::MIN <= self.value() <= i64::MAX
        &&& match self {
            Expression::IntLiteral(_) => true,
            Expression::Addition { left, right } => left.fits() && right.fits(),
            Expression::Multiplication { left, right } => left.fits() && right.fits(),
        }
    }

    /// Evaluate the value of the expression.
    pub fn eval(&self) -> (value: i64)
        requires
            self.fits(),
        ensures
            value == self.value(),
        decreases self,
    {
        match self {
            Expression::IntLiteral(i) => *i,
            Expression::Addition { left, right } => left.eval() + right.eval(),
            Expression::Multiplication { left, right } => left.eval() * right.eval(),
        }
    }
}

impl Tree {
    /// Recursively evaluate the tree, through the method of its root.
    pub fn eval(&self) -> (value: i64)
        requires
            self.root.fits(),
        ensures
            value == self.root.value(),
    {
        self.root.eval()
    }
}

/// Evaluate the arithmetic expression encoded in the tree, through a free
/// function over its nodes.
pub fn eval(tree: &Tree) -> (value: i64)
    requires
        tree.root.fits(),
    ensures
        value == tree.root.value(),
{
    eval_recursive(&tree.root)
}

/// Recursive evaluation of an expression by case analysis on its nodes.
pub fn eval_recursive(expr: &Expression) -> (value: i64)
    requires
        expr.fits(),
    ensures
        value == expr.value(),
    decreases expr,
{
    match expr {
        Expression::IntLiteral(i) => *i,
        Expression::Addition { left, right } => eval_recursive(left) + eval_recursive(right),
        Expression::Multiplication { left, right } => {
            eval_recursive(left) * eval_recursive(right)
        },
    }
}

} // verus!
