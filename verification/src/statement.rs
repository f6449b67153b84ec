//! Statement nodes: expression statements, print, variable declaration,
//! blocks, and single-branch/else conditionals.

use vstd::prelude::*;

use crate::expression::{expr_view, Expression, ExprView, LiteralExpression};
use crate::object::Object;
use crate::token::{Token, TokenView};

verus! {

pub enum Statement {
    VariableStatement(VariableStatement),
    ExpressionStatement(ExpressionStatement),
    PrintStatement(PrintStatement),
    BlockStatement(BlockStatement),
    IfStatement(IfStatement),
}

pub struct VariableStatement {
    pub identifier: Token,
    pub initializer: Expression,
}

pub struct ExpressionStatement {
    pub expression: Expression,
}

pub struct PrintStatement {
    pub expression: Expression,
}

pub struct BlockStatement {
    pub statements: Vec<Statement>,
}

pub struct IfStatement {
    pub conditional: Expression,
    pub then_branch: Box<Statement>,
    pub else_branch: Option<Box<Statement>>,
}

/// The mathematical model of a statement.
pub enum StmtView {
    VarDecl(TokenView, ExprView),
    Expr(ExprView),
    Print(ExprView),
    Block(Seq<StmtView>),
    If(ExprView, Box<StmtView>, Option<Box<StmtView>>),
}

pub open spec fn stmt_view(s: Statement) -> StmtView
    decreases s,
{
    match s {
        Statement::VariableStatement(v) => StmtView::VarDecl(v.identifier@, v.initializer@),
        Statement::ExpressionStatement(e) => StmtView::Expr(e.expression@),
        Statement::PrintStatement(p) => StmtView::Print(p.expression@),
        Statement::BlockStatement(b) => StmtView::Block(stmts_view(b.statements@)),
        Statement::IfStatement(i) => StmtView::If(
            i.conditional@,
            Box::new(stmt_view(*i.then_branch)),
            match i.else_branch {
                Some(e) => Some(Box::new(stmt_view(*e))),
                None => None,
            },
        ),
    }
}

pub open spec fn stmts_view(ss: Seq<Statement>) -> Seq<StmtView>
    decreases ss,
{
    if ss.len() == 0 {
        Seq::empty()
    } else {
        stmts_view(ss.drop_last()).push(stmt_view(ss.last()))
    }
}

impl View for Statement {
    type V = StmtView;

    open spec fn view(&self) -> StmtView {
        stmt_view(*self)
    }
}

/// The view of a pushed sequence extends the view of the sequence.
pub proof fn lemma_stmts_view_push(ss: Seq<Statement>, s: Statement)
    ensures
        stmts_view(ss.push(s)) == stmts_view(ss).push(stmt_view(s)),
{
    assert(ss.push(s).drop_last() =~= ss);
}

pub proof fn lemma_stmts_view_len(ss: Seq<Statement>)
    ensures
        stmts_view(ss).len() == ss.len(),
        forall|i: int| 0 <= i < ss.len() ==> stmts_view(ss)[i] == stmt_view(ss[i]),
    decreases ss,
{
    if ss.len() > 0 {
        lemma_stmts_view_len(ss.drop_last());
    }
}

impl VariableStatement {
    /// An omitted initializer defaults to a nil literal.
    pub fn new(identifier: Token, initializer: Option<Expression>) -> (s: VariableStatement)
        ensures
            s.identifier == identifier,
            s.initializer@ == match initializer {
                Some(e) => e@,
                None => ExprView::Lit(crate::object::Val::Nil),
            },
    {
        VariableStatement {
            identifier,
            initializer: match initializer {
                Some(e) => e,
                None => Expression::Literal(LiteralExpression::new(Object::Nil)),
            },
        }
    }
}

impl ExpressionStatement {
    pub fn new(expression: Expression) -> (s: ExpressionStatement)
        ensures
            s.expression == expression,
    {
        ExpressionStatement { expression }
    }
}

impl PrintStatement {
    pub fn new(expression: Expression) -> (s: PrintStatement)
        ensures
            s.expression == expression,
    {
        PrintStatement { expression }
    }
}

impl BlockStatement {
    pub fn new(statements: Vec<Statement>) -> (s: BlockStatement)
        ensures
            s.statements == statements,
    {
        BlockStatement { statements }
    }
}

impl IfStatement {
    pub fn new(conditional: Expression, then_branch: Statement, else_branch: Option<Statement>) -> (s:
        IfStatement)
        ensures
            s.conditional == conditional,
            *s.then_branch == then_branch,
            match else_branch {
                Some(e) => s.else_branch matches Some(b) && *b == e,
                None => s.else_branch is None,
            },
    {
        IfStatement {
            conditional,
            then_branch: Box::new(then_branch),
            else_branch: match else_branch {
                Some(e) => Some(Box::new(e)),
                None => None,
            },
        }
    }
}

} // verus!
