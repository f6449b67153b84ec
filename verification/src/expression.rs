//! Expression nodes. Each node exclusively owns its children; expressions
//! form a tree with no sharing and no cycles.

use vstd::prelude::*;

use crate::object::{Object, Val};
use crate::token::{Token, TokenView};

verus! {

pub enum Expression {
    Literal(LiteralExpression),
    Unary(UnaryExpression),
    Binary(BinaryExpression),
    Grouping(GroupingExpression),
    VariableExpression(VariableExpression),
}

pub struct LiteralExpression {
    pub value: Object,
}

pub struct UnaryExpression {
    pub operator: Token,
    pub right: Box<Expression>,
}

pub struct BinaryExpression {
    pub left: Box<Expression>,
    pub operator: Token,
    pub right: Box<Expression>,
}

pub struct GroupingExpression {
    pub expressions: Box<Expression>,
}

pub struct VariableExpression {
    pub identifier: Token,
}

/// The mathematical model of an expression tree.
pub enum ExprView {
    Lit(Val),
    Unary(TokenView, Box<ExprView>),
    Binary(Box<ExprView>, TokenView, Box<ExprView>),
    Grouping(Box<ExprView>),
    Var(TokenView),
}

pub open spec fn expr_view(e: Expression) -> ExprView
    decreases e,
{
    match e {
        Expression::Literal(l) => ExprView::Lit(l.value@),
        Expression::Unary(u) => ExprView::Unary(u.operator@, Box::new(expr_view(*u.right))),
        Expression::Binary(b) => ExprView::Binary(
            Box::new(expr_view(*b.left)),
            b.operator@,
            Box::new(expr_view(*b.right)),
        ),
        Expression::Grouping(g) => ExprView::Grouping(Box::new(expr_view(*g.expressions))),
        Expression::VariableExpression(v) => ExprView::Var(v.identifier@),
    }
}

impl View for Expression {
    type V = ExprView;

    open spec fn view(&self) -> ExprView {
        expr_view(*self)
    }
}

impl LiteralExpression {
    pub fn new(value: Object) -> (e: LiteralExpression)
        ensures
            e == (LiteralExpression { value }),
    {
        LiteralExpression { value }
    }
}

impl UnaryExpression {
    pub fn new(operator: Token, right: Expression) -> (e: UnaryExpression)
        ensures
            e.operator == operator,
            *e.right == right,
    {
        UnaryExpression { operator, right: Box::new(right) }
    }
}

impl BinaryExpression {
    pub fn new(left: Expression, operator: Token, right: Expression) -> (e: BinaryExpression)
        ensures
            *e.left == left,
            e.operator == operator,
            *e.right == right,
    {
        BinaryExpression { left: Box::new(left), operator, right: Box::new(right) }
    }
}

impl GroupingExpression {
    pub fn new(expressions: Expression) -> (e: GroupingExpression)
        ensures
            *e.expressions == expressions,
    {
        GroupingExpression { expressions: Box::new(expressions) }
    }
}

impl VariableExpression {
    pub fn new(identifier: Token) -> (e: VariableExpression)
        ensures
            e.identifier == identifier,
    {
        VariableExpression { identifier }
    }
}

} // verus!
