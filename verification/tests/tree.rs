use spl::tree::visitor::{EvalVisitor, Visitor};
use spl::tree::{eval, eval_recursive, Expression, Tree};

fn sample_tree() -> Tree {
    Tree {
        root: Expression::Addition {
            left: Box::new(Expression::Addition {
                left: Box::new(Expression::IntLiteral(7)),
                right: Box::new(Expression::Addition {
                    left: Box::new(Expression::IntLiteral(11)),
                    right: Box::new(Expression::IntLiteral(12)),
                }),
            }),
            right: Box::new(Expression::Multiplication {
                left: Box::new(Expression::IntLiteral(2)),
                right: Box::new(Expression::Multiplication {
                    left: Box::new(Expression::IntLiteral(3)),
                    right: Box::new(Expression::IntLiteral(5)),
                }),
            }),
        },
    }
}

#[test]
fn test_procedural() {
    let int_literal = Expression::IntLiteral(42);
    assert_eq!(eval_recursive(&int_literal), 42);

    let mult = Expression::Multiplication {
        left: Box::new(Expression::IntLiteral(2)),
        right: Box::new(Expression::IntLiteral(10)),
    };
    assert_eq!(eval_recursive(&mult), 20);

    let tree = sample_tree();
    assert_eq!(eval(&tree), 60);
}

#[test]
fn test_oop() {
    let int_literal = Expression::IntLiteral(42);
    assert_eq!(int_literal.eval(), 42);

    let mult = Expression::Multiplication {
        left: Box::new(Expression::IntLiteral(2)),
        right: Box::new(Expression::IntLiteral(10)),
    };
    assert_eq!(mult.eval(), 20);

    let tree = sample_tree();
    assert_eq!(tree.eval(), 60);
}

#[test]
fn test_visit() {
    let tree = sample_tree();
    let mut visitor = EvalVisitor::new();

    tree.root.accept(&mut visitor);
    assert_eq!(visitor.result(), 60);
}

#[test]
fn visitor_agrees_with_eval_on_negative_numbers() {
    let expr = Expression::Multiplication {
        left: Box::new(Expression::Addition {
            left: Box::new(Expression::IntLiteral(-4)),
            right: Box::new(Expression::IntLiteral(1)),
        }),
        right: Box::new(Expression::IntLiteral(i64::MAX / 3)),
    };
    let mut visitor = EvalVisitor::new();
    expr.accept(&mut visitor);
    assert_eq!(visitor.result(), -3 * (i64::MAX / 3));
    assert_eq!(expr.eval(), -3 * (i64::MAX / 3));
    assert_eq!(eval_recursive(&expr), -3 * (i64::MAX / 3));
}

#[test]
fn visitor_keeps_earlier_results_below_the_new_one() {
    let mut visitor = EvalVisitor::new();
    Expression::IntLiteral(5).accept(&mut visitor);
    let sum = Expression::Addition {
        left: Box::new(Expression::IntLiteral(1)),
        right: Box::new(Expression::IntLiteral(2)),
    };
    sum.accept(&mut visitor);
    assert_eq!(visitor.result(), 3);
    assert_eq!(visitor.result(), 5);
}

#[test]
fn visiting_a_literal_alone_puts_it_on_top() {
    let mut visitor = EvalVisitor::new();
    visitor.visit_expression(&Expression::IntLiteral(-9));
    assert_eq!(visitor.result(), -9);
}
