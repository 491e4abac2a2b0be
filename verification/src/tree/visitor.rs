//! Evaluation of expression trees by a visitor that keeps its intermediate
//! results on a stack.

use super::Expression;
use crate::stack::Stack;
use vstd::prelude::*;

verus! {

/// Something that is shown the nodes of an expression one after another.
///
/// What a visitor has seen is modelled by a state; a visit is a function
/// from the state before to the state after.
pub trait Visitor {
    /// The model of what the visitor has seen so far.
    type State;

    /// The present state.
    spec fn state(&self) -> Self::State;

    /// Whether a visitor in state `state` can be shown `expr`.
    spec fn can_visit(state: Self::State, expr: &Expression) -> bool;

    /// The state after a visitor in state `state` was shown `expr`.
    spec fn visit(state: Self::State, expr: &Expression) -> Self::State;

    /// Visit one node. Its parts, if it has any, were visited before.
    fn visit_expression(&mut self, expr: &Expression)
        requires
            Self::can_visit(old(self).state(), expr),
        ensures
            final(self).state() == Self::visit(old(self).state(), expr),
    ;
}

/// The state of a visitor after a walk over `expr`: first over its left
/// part, then over its right part, and last the node itself.
pub open spec fn walk<T: Visitor>(expr: &Expression, state: T::State) -> T::State
    decreases expr,
{
    match expr {
        Expression::IntLiteral(_) => T::visit(state, expr),
        Expression::Addition { left, right } => T::visit(
            walk::<T>(right, walk::<T>(left, state)),
            expr,
        ),
        Expression::Multiplication { left, right } => T::visit(
            walk::<T>(right, walk::<T>(left, state)),
            expr,
        ),
    }
}

/// Whether a visitor in state `state` can make every visit of a walk over
/// `expr`.
pub open spec fn can_walk<T: Visitor>(expr: &Expression, state: T::State) -> bool
    decreases expr,
{
    match expr {
        Expression::IntLiteral(_) => T::can_visit(state, expr),
        Expression::Addition { left, right } => {
            &&& can_walk::<T>(left, state)
            &&& can_walk::<T>(right, walk::<T>(left, state))
            &&& T::can_visit(walk::<T>(right, walk::<T>(left, state)), expr)
        },
        Expression::Multiplication { left, right } => {
            &&& can_walk::<T>(left, state)
            &&& can_walk::<T>(right, walk::<T>(left, state))
            &&& T::can_visit(walk::<T>(right, walk::<T>(left, state)), expr)
        },
    }
}

impl Expression {
    /// Have visitor visit all parts of the expression.
    pub fn accept<T: Visitor>(&self, visitor: &mut T)
        requires
            can_walk::<T>(self, old(visitor).state()),
        ensures
            final(visitor).state() == walk::<T>(self, old(visitor).state()),
        decreases self,
    {
        match self {
            Expression::IntLiteral(_) => {
                visitor.visit_expression(self);
            },
            Expression::Addition { left, right } => {
                left.accept(visitor);
                right.accept(visitor);

                visitor.visit_expression(self);
            },
            Expression::Multiplication { left, right } => {
                left.accept(visitor);
                right.accept(visitor);

                visitor.visit_expression(self);
            },
        }
    }
}

/// A visitor that computes the value of the expression it walks over.
pub struct EvalVisitor {
    stack: Stack<i64>,
}

impl EvalVisitor {
    /// A visitor that has seen nothing yet.
    pub fn new() -> (visitor: EvalVisitor)
        ensures
            visitor.state() == Seq::<i64>::empty(),
    {
        EvalVisitor { stack: Stack::new() }
    }

    /// Take the most recent result off the visitor.
    pub fn result(&mut self) -> (value: i64)
        requires
            old(self).state().len() > 0,
        ensures
            value == old(self).state()[0],
            final(self).state() == old(self).state().skip(1),
    {
        self.stack.pop().unwrap()
    }
}

impl Visitor for EvalVisitor {
    /// The results held, the most recent one first.
    type State = Seq<i64>;

    closed spec fn state(&self) -> Seq<i64> {
        self.stack@
    }

    open spec fn can_visit(state: Seq<i64>, expr: &Expression) -> bool {
        match expr {
            Expression::IntLiteral(_) => true,
            Expression::Addition { .. } => {
                state.len() >= 2 && i64::MIN <= state[0] + state[1] <= i64::MAX
            },
            Expression::Multiplication { .. } => {
                state.len() >= 2 && i64::MIN <= state[0] * state[1] <= i64::MAX
            },
        }
    }

    open spec fn visit(state: Seq<i64>, expr: &Expression) -> Seq<i64> {
        match expr {
            Expression::IntLiteral(i) => seq![*i] + state,
            Expression::Addition { .. } => {
                seq![(state[0] + state[1]) as i64] + state.skip(2)
            },
            Expression::Multiplication { .. } => {
                seq![(state[0] * state[1]) as i64] + state.skip(2)
            },
        }
    }

    /// A literal is put on the stack; an operation replaces the two most
    /// recent results by what it makes of them.
    fn visit_expression(&mut self, expr: &Expression) {
        match expr {
            Expression::IntLiteral(i) => self.stack.push(*i),
            Expression::Addition { left: _, right: _ } => {
                let left = self.stack.pop().unwrap();
                let right = self.stack.pop().unwrap();

                self.stack.push(left + right);
                assert(self.stack@ =~= Self::visit(old(self).state(), expr));
            },
            Expression::Multiplication { left: _, right: _ } => {
                let left = self.stack.pop().unwrap();
                let right = self.stack.pop().unwrap();

                self.stack.push(left * right);
                assert(self.stack@ =~= Self::visit(old(self).state(), expr));
            },
        };
    }
}

/// A walk of the evaluating visitor over an expression whose values fit
/// can be made from any state, and puts the value of the expression on top
/// of the results held before.
pub proof fn lemma_walk_evaluates(expr: &Expression, state: Seq<i64>)
    requires
        expr.fits(),
    ensures
        can_walk::<EvalVisitor>(expr, state),
        walk::<EvalVisitor>(expr, state) == seq![expr.value() as i64] + state,
    decreases expr,
{
    reveal_with_fuel(Expression::fits, 2);
    match expr {
        Expression::IntLiteral(i) => {
            assert(walk::<EvalVisitor>(expr, state) == EvalVisitor::visit(state, expr));
        },
        Expression::Addition { left, right } => {
            lemma_walk_evaluates(left, state);
            let after_left = walk::<EvalVisitor>(left, state);
            lemma_walk_evaluates(right, after_left);
            let after_right = walk::<EvalVisitor>(right, after_left);
            assert(after_right[0] == right.value());
            assert(after_right[1] == left.value());
            assert(after_right.skip(2) =~= state);
            assert(walk::<EvalVisitor>(expr, state) == EvalVisitor::visit(after_right, expr));
        },
        Expression::Multiplication { left, right } => {
            lemma_walk_evaluates(left, state);
            let after_left = walk::<EvalVisitor>(left, state);
            lemma_walk_evaluates(right, after_left);
            let after_right = walk::<EvalVisitor>(right, after_left);
            assert(after_right[0] == right.value());
            assert(after_right[1] == left.value());
            assert(after_right.skip(2) =~= state);
            assert(right.value() * left.value() == left.value() * right.value())
                by (nonlinear_arith);
            assert(walk::<EvalVisitor>(expr, state) == EvalVisitor::visit(after_right, expr));
        },
    }
}

} // verus!
