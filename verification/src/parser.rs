//! The recursive-descent parser: token sequence to statement sequence, one
//! function per grammar rule, precedence encoded by call order, binary rules
//! left-associative, and a parse error at the first unexpected token.
//!
//! The grammar is written once, as the `p_*` spec functions below; the
//! executable parser is proved to return exactly what they denote.

use vstd::prelude::*;
use vstd::string::StringExecFns;

use crate::error::{err_view, ErrView, Error, ErrorType};
use crate::expression::{
    BinaryExpression, Expression, ExprView, GroupingExpression, LiteralExpression, UnaryExpression,
    VariableExpression,
};
use crate::object::{Object, Val};
use crate::statement::{
    lemma_stmts_view_push, stmts_view, BlockStatement, ExpressionStatement, IfStatement,
    PrintStatement, Statement, StmtView, VariableStatement,
};
use crate::token::{tokens_view, ttype_name, ttype_text, Token, TokenType, TokenView};

verus! {

/// A well-formed token sequence: what the scanner hands over. It is never
/// empty, its last token is the end-of-input marker, and no other is.
pub open spec fn tokens_wf(ts: Seq<TokenView>) -> bool {
    &&& ts.len() > 0
    &&& ts[ts.len() - 1].ttype == TokenType::Eof
    &&& forall|i: int| 0 <= i < ts.len() - 1 ==> (#[trigger] ts[i].ttype) != TokenType::Eof
}

/// The token at `p` is of kind `kind` and stands before the end-of-input
/// marker, so the parse may consume it and continue.
pub open spec fn p_match(ts: Seq<TokenView>, p: nat, kind: TokenType) -> bool {
    p + 1 < ts.len() && ts[p as int].ttype == kind
}

/// A parse error at the token at `p`.
pub open spec fn parse_err(ts: Seq<TokenView>, p: nat, msg: Seq<char>) -> ErrView {
    err_view(ts[p as int].line, ErrorType::ParsingError, msg)
}

/// A parse never starts past the end of a well-formed token sequence; this
/// error only keeps the spec functions total.
pub open spec fn out_of_input() -> ErrView {
    err_view(0, ErrorType::ParsingError, Seq::empty())
}

/// The position a sub-parse continued to. A parse always advances past the
/// position it started at and never past the end of the tokens, so this is
/// the identity wherever it is applied; restating the bound keeps the
/// mutual recursion below visibly well founded.
pub open spec fn next_pos(q: nat, lo: nat, n: nat) -> nat {
    if lo < q && q <= n {
        q
    } else {
        lo + 1
    }
}

/// `primary`: literals, identifiers, and parenthesized grouping.
#[verifier::opaque]
pub open spec fn p_primary(ts: Seq<TokenView>, p: nat) -> Result<(ExprView, nat), ErrView>
    decreases ts.len() - p, 0int,
{
    if ts.len() <= p {
        Err(out_of_input())
    } else if p_match(ts, p, TokenType::True) {
        Ok((ExprView::Lit(Val::True), p + 1))
    } else if p_match(ts, p, TokenType::False) {
        Ok((ExprView::Lit(Val::False), p + 1))
    } else if p_match(ts, p, TokenType::Nil) {
        Ok((ExprView::Lit(Val::Nil), p + 1))
    } else if p_match(ts, p, TokenType::Number) || p_match(ts, p, TokenType::String) {
        Ok((ExprView::Lit(ts[p as int].literal), p + 1))
    } else if p_match(ts, p, TokenType::Identifier) {
        Ok((ExprView::Var(ts[p as int]), p + 1))
    } else if p_match(ts, p, TokenType::LeftParen) {
        match p_expression(ts, (p + 1) as nat) {
            Ok((e, q0)) => {
                let q = next_pos(q0, (p + 1) as nat, ts.len());
                if p_match(ts, q, TokenType::RightParen) {
                    Ok((ExprView::Grouping(Box::new(e)), q + 1))
                } else {
                    Err(parse_err(ts, q, "Expect ')' after expression"@))
                }
            },
            Err(e) => Err(e),
        }
    } else {
        Err(
            parse_err(
                ts,
                p,
                "Does not support '"@ + ttype_text(ts[p as int].ttype)
                    + "' as a primary token"@,
            ),
        )
    }
}

/// `unary`: right-recursive `!` and `-`.
#[verifier::opaque]
pub open spec fn p_unary(ts: Seq<TokenView>, p: nat) -> Result<(ExprView, nat), ErrView>
    decreases ts.len() - p, 1int,
{
    if ts.len() <= p {
        Err(out_of_input())
    } else if p_match(ts, p, TokenType::Bang) || p_match(ts, p, TokenType::Minus) {
        match p_unary(ts, (p + 1) as nat) {
            Ok((r, q)) => Ok((ExprView::Unary(ts[p as int], Box::new(r)), q)),
            Err(e) => Err(e),
        }
    } else {
        p_primary(ts, p)
    }
}

/// The left-associative fold of `factor`: `acc` is what has been parsed so
/// far; each `*` or `/` extends it with one more `unary` operand.
#[verifier::opaque]
pub open spec fn p_factor_rest(ts: Seq<TokenView>, p: nat, acc: ExprView) -> Result<
    (ExprView, nat),
    ErrView,
>
    decreases ts.len() - p, 2int,
{
    if p_match(ts, p, TokenType::Star) || p_match(ts, p, TokenType::Slash) {
        match p_unary(ts, (p + 1) as nat) {
            Ok((r, q0)) => p_factor_rest(
                ts,
                next_pos(q0, (p + 1) as nat, ts.len()),
                ExprView::Binary(Box::new(acc), ts[p as int], Box::new(r)),
            ),
            Err(e) => Err(e),
        }
    } else {
        Ok((acc, p))
    }
}

/// `factor`: `*` and `/`, left-associative.
#[verifier::opaque]
pub open spec fn p_factor(ts: Seq<TokenView>, p: nat) -> Result<(ExprView, nat), ErrView>
    decreases ts.len() - p, 3int,
{
    if ts.len() <= p {
        Err(out_of_input())
    } else {
        match p_unary(ts, p) {
            Ok((e, q)) => p_factor_rest(ts, next_pos(q, p, ts.len()), e),
            Err(e) => Err(e),
        }
    }
}

/// The left-associative fold of `term`.
#[verifier::opaque]
pub open spec fn p_term_rest(ts: Seq<TokenView>, p: nat, acc: ExprView) -> Result<
    (ExprView, nat),
    ErrView,
>
    decreases ts.len() - p, 4int,
{
    if p_match(ts, p, TokenType::Minus) || p_match(ts, p, TokenType::Plus) {
        match p_factor(ts, (p + 1) as nat) {
            Ok((r, q0)) => p_term_rest(
                ts,
                next_pos(q0, (p + 1) as nat, ts.len()),
                ExprView::Binary(Box::new(acc), ts[p as int], Box::new(r)),
            ),
            Err(e) => Err(e),
        }
    } else {
        Ok((acc, p))
    }
}

/// `term`: `+` and `-`, left-associative.
#[verifier::opaque]
pub open spec fn p_term(ts: Seq<TokenView>, p: nat) -> Result<(ExprView, nat), ErrView>
    decreases ts.len() - p, 5int,
{
    if ts.len() <= p {
        Err(out_of_input())
    } else {
        match p_factor(ts, p) {
            Ok((e, q)) => p_term_rest(ts, next_pos(q, p, ts.len()), e),
            Err(e) => Err(e),
        }
    }
}

/// The left-associative fold of `comparison`.
#[verifier::opaque]
pub open spec fn p_comparison_rest(ts: Seq<TokenView>, p: nat, acc: ExprView) -> Result<
    (ExprView, nat),
    ErrView,
>
    decreases ts.len() - p, 6int,
{
    if p_match(ts, p, TokenType::Greater) || p_match(ts, p, TokenType::GreaterEqual) || p_match(
        ts,
        p,
        TokenType::Less,
    ) || p_match(ts, p, TokenType::LessEqual) {
        match p_term(ts, (p + 1) as nat) {
            Ok((r, q0)) => p_comparison_rest(
                ts,
                next_pos(q0, (p + 1) as nat, ts.len()),
                ExprView::Binary(Box::new(acc), ts[p as int], Box::new(r)),
            ),
            Err(e) => Err(e),
        }
    } else {
        Ok((acc, p))
    }
}

/// `comparison`: `<`, `<=`, `>`, `>=`, left-associative.
#[verifier::opaque]
pub open spec fn p_comparison(ts: Seq<TokenView>, p: nat) -> Result<(ExprView, nat), ErrView>
    decreases ts.len() - p, 7int,
{
    if ts.len() <= p {
        Err(out_of_input())
    } else {
        match p_term(ts, p) {
            Ok((e, q)) => p_comparison_rest(ts, next_pos(q, p, ts.len()), e),
            Err(e) => Err(e),
        }
    }
}

/// The left-associative fold of `equality`.
#[verifier::opaque]
pub open spec fn p_equality_rest(ts: Seq<TokenView>, p: nat, acc: ExprView) -> Result<
    (ExprView, nat),
    ErrView,
>
    decreases ts.len() - p, 8int,
{
    if p_match(ts, p, TokenType::BangEqual) || p_match(ts, p, TokenType::EqualEqual) {
        match p_comparison(ts, (p + 1) as nat) {
            Ok((r, q0)) => p_equality_rest(
                ts,
                next_pos(q0, (p + 1) as nat, ts.len()),
                ExprView::Binary(Box::new(acc), ts[p as int], Box::new(r)),
            ),
            Err(e) => Err(e),
        }
    } else {
        Ok((acc, p))
    }
}

/// `equality`: `==` and `!=`, left-associative; the lowest precedence.
#[verifier::opaque]
pub open spec fn p_equality(ts: Seq<TokenView>, p: nat) -> Result<(ExprView, nat), ErrView>
    decreases ts.len() - p, 9int,
{
    if ts.len() <= p {
        Err(out_of_input())
    } else {
        match p_comparison(ts, p) {
            Ok((e, q)) => p_equality_rest(ts, next_pos(q, p, ts.len()), e),
            Err(e) => Err(e),
        }
    }
}

/// `expression`: the top of the expression grammar.
#[verifier::opaque]
pub open spec fn p_expression(ts: Seq<TokenView>, p: nat) -> Result<(ExprView, nat), ErrView>
    decreases ts.len() - p, 10int,
{
    if ts.len() <= p {
        Err(out_of_input())
    } else {
        p_equality(ts, p)
    }
}

/// An expression statement: `EXPR ;`.
#[verifier::opaque]
pub open spec fn p_expression_statement(ts: Seq<TokenView>, p: nat) -> Result<
    (StmtView, nat),
    ErrView,
>
    decreases ts.len() - p, 11int,
{
    if ts.len() <= p {
        Err(out_of_input())
    } else {
        match p_expression(ts, p) {
            Ok((e, q0)) => {
                let q = next_pos(q0, p, ts.len());
                if p_match(ts, q, TokenType::Semicolon) {
                    Ok((StmtView::Expr(e), q + 1))
                } else {
                    Err(parse_err(ts, q, "Expect ';' after value"@))
                }
            },
            Err(e) => Err(e),
        }
    }
}

/// A print statement, entered after its `print` keyword: `EXPR ;`.
#[verifier::opaque]
pub open spec fn p_print_statement(ts: Seq<TokenView>, p: nat) -> Result<(StmtView, nat), ErrView>
    decreases ts.len() - p, 11int,
{
    if ts.len() <= p {
        Err(out_of_input())
    } else {
        match p_expression(ts, p) {
            Ok((e, q0)) => {
                let q = next_pos(q0, p, ts.len());
                if p_match(ts, q, TokenType::Semicolon) {
                    Ok((StmtView::Print(e), q + 1))
                } else {
                    Err(parse_err(ts, q, "Expect ';' after value"@))
                }
            },
            Err(e) => Err(e),
        }
    }
}

/// A variable declaration, entered after its `var` keyword:
/// `IDENT [= EXPR] ;`, the initializer defaulting to nil.
#[verifier::opaque]
pub open spec fn p_var_declaration(ts: Seq<TokenView>, p: nat) -> Result<(StmtView, nat), ErrView>
    decreases ts.len() - p, 11int,
{
    if ts.len() <= p {
        Err(out_of_input())
    } else if !p_match(ts, p, TokenType::Identifier) {
        Err(parse_err(ts, p, "Expect identifier"@))
    } else if p_match(ts, (p + 1) as nat, TokenType::Equal) {
        match p_expression(ts, (p + 2) as nat) {
            Ok((e, q0)) => {
                let q = next_pos(q0, (p + 2) as nat, ts.len());
                if p_match(ts, q, TokenType::Semicolon) {
                    Ok((StmtView::VarDecl(ts[p as int], e), q + 1))
                } else {
                    Err(parse_err(ts, q, "Expect ';' after declaration"@))
                }
            },
            Err(e) => Err(e),
        }
    } else {
        if p_match(ts, (p + 1) as nat, TokenType::Semicolon) {
            Ok((StmtView::VarDecl(ts[p as int], ExprView::Lit(Val::Nil)), p + 2))
        } else {
            Err(parse_err(ts, (p + 1) as nat, "Expect ';' after declaration"@))
        }
    }
}

/// An if statement, entered after its `if` keyword:
/// `( EXPR ) STMT [else STMT]`, the else bound to the nearest `if`.
#[verifier::opaque]
pub open spec fn p_if_statement(ts: Seq<TokenView>, p: nat) -> Result<(StmtView, nat), ErrView>
    decreases ts.len() - p, 11int,
{
    if ts.len() <= p {
        Err(out_of_input())
    } else if !p_match(ts, p, TokenType::LeftParen) {
        Err(parse_err(ts, p, "Expect '(' after 'if'"@))
    } else {
        match p_expression(ts, (p + 1) as nat) {
            Ok((c, q0)) => {
                let q = next_pos(q0, (p + 1) as nat, ts.len());
                if !p_match(ts, q, TokenType::RightParen) {
                    Err(parse_err(ts, q, "Expect ')' after condition"@))
                } else {
                    match p_statement(ts, (q + 1) as nat) {
                        Ok((tb, r0)) => {
                            let r = next_pos(r0, (q + 1) as nat, ts.len());
                            if p_match(ts, r, TokenType::Else) {
                                match p_statement(ts, (r + 1) as nat) {
                                    Ok((eb, s0)) => Ok(
                                        (
                                            StmtView::If(c, Box::new(tb), Some(Box::new(eb))),
                                            next_pos(s0, (r + 1) as nat, ts.len()),
                                        ),
                                    ),
                                    Err(e) => Err(e),
                                }
                            } else {
                                Ok((StmtView::If(c, Box::new(tb), None), r))
                            }
                        },
                        Err(e) => Err(e),
                    }
                }
            },
            Err(e) => Err(e),
        }
    }
}

/// The declarations of a block, entered after its `{`, up to the required
/// closing `}`.
#[verifier::opaque]
pub open spec fn p_block_rest(ts: Seq<TokenView>, p: nat, acc: Seq<StmtView>) -> Result<
    (StmtView, nat),
    ErrView,
>
    decreases ts.len() - p, 15int,
{
    if ts.len() <= p || ts[p as int].ttype == TokenType::RightBrace || ts[p as int].ttype
        == TokenType::Eof {
        if p_match(ts, p, TokenType::RightBrace) {
            Ok((StmtView::Block(acc), p + 1))
        } else {
            Err(parse_err(ts, p, "Expect '}' after block"@))
        }
    } else {
        match p_declaration(ts, p) {
            Ok((s, q0)) => p_block_rest(ts, next_pos(q0, p, ts.len()), acc.push(s)),
            Err(e) => Err(e),
        }
    }
}

/// A statement: print, block, if, or a bare expression statement.
#[verifier::opaque]
pub open spec fn p_statement(ts: Seq<TokenView>, p: nat) -> Result<(StmtView, nat), ErrView>
    decreases ts.len() - p, 13int,
{
    if ts.len() <= p {
        Err(out_of_input())
    } else if p_match(ts, p, TokenType::Print) {
        p_print_statement(ts, (p + 1) as nat)
    } else if p_match(ts, p, TokenType::LeftBrace) {
        p_block_rest(ts, (p + 1) as nat, Seq::empty())
    } else if p_match(ts, p, TokenType::If) {
        p_if_statement(ts, (p + 1) as nat)
    } else {
        p_expression_statement(ts, p)
    }
}

/// A declaration: a `var` declaration or a statement.
#[verifier::opaque]
pub open spec fn p_declaration(ts: Seq<TokenView>, p: nat) -> Result<(StmtView, nat), ErrView>
    decreases ts.len() - p, 14int,
{
    if ts.len() <= p {
        Err(out_of_input())
    } else if p_match(ts, p, TokenType::Var) {
        p_var_declaration(ts, (p + 1) as nat)
    } else {
        p_statement(ts, p)
    }
}

/// The program: declarations until the end-of-input marker.
#[verifier::opaque]
pub open spec fn p_program_rest(ts: Seq<TokenView>, p: nat, acc: Seq<StmtView>) -> Result<
    Seq<StmtView>,
    ErrView,
>
    decreases ts.len() - p, 16int,
{
    if ts.len() <= p || ts[p as int].ttype == TokenType::Eof {
        Ok(acc)
    } else {
        match p_declaration(ts, p) {
            Ok((s, q0)) => p_program_rest(ts, next_pos(q0, p, ts.len()), acc.push(s)),
            Err(e) => Err(e),
        }
    }
}

/// What parsing a whole token sequence yields: the statement sequence, or
/// the first parse error.
pub open spec fn p_program(ts: Seq<TokenView>) -> Result<Seq<StmtView>, ErrView> {
    p_program_rest(ts, 0, Seq::empty())
}

proof fn lemma_perr_primary(ts: Seq<TokenView>, p: nat)
    ensures
        p_primary(ts, p) matches Err(e) ==> e.etype == ErrorType::ParsingError,
    decreases ts.len() - p, 0int,
{
    reveal_with_fuel(p_primary, 1);
    reveal_with_fuel(p_expression, 1);
    if p < ts.len() && !p_match(ts, p, TokenType::True) && !p_match(ts, p, TokenType::False)
        && !p_match(ts, p, TokenType::Nil) && !p_match(ts, p, TokenType::Number) && !p_match(
        ts,
        p,
        TokenType::String,
    ) && !p_match(ts, p, TokenType::Identifier) && p_match(ts, p, TokenType::LeftParen) {
        lemma_perr_expression(ts, (p + 1) as nat);
    }
}

proof fn lemma_perr_unary(ts: Seq<TokenView>, p: nat)
    ensures
        p_unary(ts, p) matches Err(e) ==> e.etype == ErrorType::ParsingError,
    decreases ts.len() - p, 1int,
{
    reveal_with_fuel(p_unary, 1);
    reveal_with_fuel(p_primary, 1);
    if p < ts.len() {
        if p_match(ts, p, TokenType::Bang) || p_match(ts, p, TokenType::Minus) {
            lemma_perr_unary(ts, (p + 1) as nat);
        } else {
            lemma_perr_primary(ts, p);
        }
    }
}

proof fn lemma_perr_factor_rest(ts: Seq<TokenView>, p: nat, acc: ExprView)
    ensures
        p_factor_rest(ts, p, acc) matches Err(e) ==> e.etype == ErrorType::ParsingError,
    decreases ts.len() - p, 2int,
{
    reveal_with_fuel(p_factor_rest, 1);
    reveal_with_fuel(p_unary, 1);
    if p_match(ts, p, TokenType::Star) || p_match(ts, p, TokenType::Slash) {
        lemma_perr_unary(ts, (p + 1) as nat);
        match p_unary(ts, (p + 1) as nat) {
            Ok(r) => lemma_perr_factor_rest(
                ts,
                next_pos(r.1, (p + 1) as nat, ts.len()),
                ExprView::Binary(Box::new(acc), ts[p as int], Box::new(r.0)),
            ),
            Err(_) => (),
        }
    }
}

proof fn lemma_perr_factor(ts: Seq<TokenView>, p: nat)
    ensures
        p_factor(ts, p) matches Err(e) ==> e.etype == ErrorType::ParsingError,
    decreases ts.len() - p, 3int,
{
    reveal_with_fuel(p_factor, 1);
    reveal_with_fuel(p_factor_rest, 1);
    reveal_with_fuel(p_unary, 1);
    if p < ts.len() {
        lemma_perr_unary(ts, p);
        match p_unary(ts, p) {
            Ok(r) => lemma_perr_factor_rest(ts, next_pos(r.1, p, ts.len()), r.0),
            Err(_) => (),
        }
    }
}

proof fn lemma_perr_term_rest(ts: Seq<TokenView>, p: nat, acc: ExprView)
    ensures
        p_term_rest(ts, p, acc) matches Err(e) ==> e.etype == ErrorType::ParsingError,
    decreases ts.len() - p, 4int,
{
    reveal_with_fuel(p_term_rest, 1);
    reveal_with_fuel(p_factor, 1);
    if p_match(ts, p, TokenType::Minus) || p_match(ts, p, TokenType::Plus) {
        lemma_perr_factor(ts, (p + 1) as nat);
        match p_factor(ts, (p + 1) as nat) {
            Ok(r) => lemma_perr_term_rest(
                ts,
                next_pos(r.1, (p + 1) as nat, ts.len()),
                ExprView::Binary(Box::new(acc), ts[p as int], Box::new(r.0)),
            ),
            Err(_) => (),
        }
    }
}

proof fn lemma_perr_term(ts: Seq<TokenView>, p: nat)
    ensures
        p_term(ts, p) matches Err(e) ==> e.etype == ErrorType::ParsingError,
    decreases ts.len() - p, 5int,
{
    reveal_with_fuel(p_term, 1);
    reveal_with_fuel(p_term_rest, 1);
    reveal_with_fuel(p_factor, 1);
    if p < ts.len() {
        lemma_perr_factor(ts, p);
        match p_factor(ts, p) {
            Ok(r) => lemma_perr_term_rest(ts, next_pos(r.1, p, ts.len()), r.0),
            Err(_) => (),
        }
    }
}

proof fn lemma_perr_comparison_rest(ts: Seq<TokenView>, p: nat, acc: ExprView)
    ensures
        p_comparison_rest(ts, p, acc) matches Err(e) ==> e.etype == ErrorType::ParsingError,
    decreases ts.len() - p, 6int,
{
    reveal_with_fuel(p_comparison_rest, 1);
    reveal_with_fuel(p_term, 1);
    if p_match(ts, p, TokenType::Greater) || p_match(ts, p, TokenType::GreaterEqual) || p_match(
        ts,
        p,
        TokenType::Less,
    ) || p_match(ts, p, TokenType::LessEqual) {
        lemma_perr_term(ts, (p + 1) as nat);
        match p_term(ts, (p + 1) as nat) {
            Ok(r) => lemma_perr_comparison_rest(
                ts,
                next_pos(r.1, (p + 1) as nat, ts.len()),
                ExprView::Binary(Box::new(acc), ts[p as int], Box::new(r.0)),
            ),
            Err(_) => (),
        }
    }
}

proof fn lemma_perr_comparison(ts: Seq<TokenView>, p: nat)
    ensures
        p_comparison(ts, p) matches Err(e) ==> e.etype == ErrorType::ParsingError,
    decreases ts.len() - p, 7int,
{
    reveal_with_fuel(p_comparison, 1);
    reveal_with_fuel(p_comparison_rest, 1);
    reveal_with_fuel(p_term, 1);
    if p < ts.len() {
        lemma_perr_term(ts, p);
        match p_term(ts, p) {
            Ok(r) => lemma_perr_comparison_rest(ts, next_pos(r.1, p, ts.len()), r.0),
            Err(_) => (),
        }
    }
}

proof fn lemma_perr_equality_rest(ts: Seq<TokenView>, p: nat, acc: ExprView)
    ensures
        p_equality_rest(ts, p, acc) matches Err(e) ==> e.etype == ErrorType::ParsingError,
    decreases ts.len() - p, 8int,
{
    reveal_with_fuel(p_equality_rest, 1);
    reveal_with_fuel(p_comparison, 1);
    if p_match(ts, p, TokenType::BangEqual) || p_match(ts, p, TokenType::EqualEqual) {
        lemma_perr_comparison(ts, (p + 1) as nat);
        match p_comparison(ts, (p + 1) as nat) {
            Ok(r) => lemma_perr_equality_rest(
                ts,
                next_pos(r.1, (p + 1) as nat, ts.len()),
                ExprView::Binary(Box::new(acc), ts[p as int], Box::new(r.0)),
            ),
            Err(_) => (),
        }
    }
}

proof fn lemma_perr_equality(ts: Seq<TokenView>, p: nat)
    ensures
        p_equality(ts, p) matches Err(e) ==> e.etype == ErrorType::ParsingError,
    decreases ts.len() - p, 9int,
{
    reveal_with_fuel(p_equality, 1);
    reveal_with_fuel(p_equality_rest, 1);
    reveal_with_fuel(p_comparison, 1);
    if p < ts.len() {
        lemma_perr_comparison(ts, p);
        match p_comparison(ts, p) {
            Ok(r) => lemma_perr_equality_rest(ts, next_pos(r.1, p, ts.len()), r.0),
            Err(_) => (),
        }
    }
}

proof fn lemma_perr_expression(ts: Seq<TokenView>, p: nat)
    ensures
        p_expression(ts, p) matches Err(e) ==> e.etype == ErrorType::ParsingError,
    decreases ts.len() - p, 10int,
{
    reveal_with_fuel(p_expression, 1);
    reveal_with_fuel(p_equality, 1);
    if p < ts.len() {
        lemma_perr_equality(ts, p);
    }
}

proof fn lemma_perr_expression_statement(ts: Seq<TokenView>, p: nat)
    ensures
        p_expression_statement(ts, p) matches Err(e) ==> e.etype == ErrorType::ParsingError,
    decreases ts.len() - p, 11int,
{
    reveal_with_fuel(p_expression_statement, 1);
    reveal_with_fuel(p_expression, 1);
    if p < ts.len() {
        lemma_perr_expression(ts, p);
    }
}

proof fn lemma_perr_print_statement(ts: Seq<TokenView>, p: nat)
    ensures
        p_print_statement(ts, p) matches Err(e) ==> e.etype == ErrorType::ParsingError,
    decreases ts.len() - p, 11int,
{
    reveal_with_fuel(p_print_statement, 1);
    reveal_with_fuel(p_expression, 1);
    if p < ts.len() {
        lemma_perr_expression(ts, p);
    }
}

proof fn lemma_perr_var_declaration(ts: Seq<TokenView>, p: nat)
    ensures
        p_var_declaration(ts, p) matches Err(e) ==> e.etype == ErrorType::ParsingError,
    decreases ts.len() - p, 11int,
{
    reveal_with_fuel(p_var_declaration, 1);
    reveal_with_fuel(p_expression, 1);
    if p < ts.len() && p_match(ts, p, TokenType::Identifier) && p_match(
        ts,
        (p + 1) as nat,
        TokenType::Equal,
    ) {
        lemma_perr_expression(ts, (p + 2) as nat);
    }
}

proof fn lemma_perr_if_statement(ts: Seq<TokenView>, p: nat)
    ensures
        p_if_statement(ts, p) matches Err(e) ==> e.etype == ErrorType::ParsingError,
    decreases ts.len() - p, 11int,
{
    reveal_with_fuel(p_if_statement, 1);
    reveal_with_fuel(p_expression, 1);
    reveal_with_fuel(p_statement, 1);
    if p < ts.len() && p_match(ts, p, TokenType::LeftParen) {
        lemma_perr_expression(ts, (p + 1) as nat);
        match p_expression(ts, (p + 1) as nat) {
            Ok(c) => {
                let q = next_pos(c.1, (p + 1) as nat, ts.len());
                if p_match(ts, q, TokenType::RightParen) {
                    lemma_perr_statement(ts, (q + 1) as nat);
                    match p_statement(ts, (q + 1) as nat) {
                        Ok(tb) => {
                            let r = next_pos(tb.1, (q + 1) as nat, ts.len());
                            if p_match(ts, r, TokenType::Else) {
                                lemma_perr_statement(ts, (r + 1) as nat);
                            }
                        },
                        Err(_) => (),
                    }
                }
            },
            Err(_) => (),
        }
    }
}

proof fn lemma_perr_block_rest(ts: Seq<TokenView>, p: nat, acc: Seq<StmtView>)
    ensures
        p_block_rest(ts, p, acc) matches Err(e) ==> e.etype == ErrorType::ParsingError,
    decreases ts.len() - p, 15int,
{
    reveal_with_fuel(p_block_rest, 1);
    reveal_with_fuel(p_declaration, 1);
    if !(ts.len() <= p || ts[p as int].ttype == TokenType::RightBrace || ts[p as int].ttype
        == TokenType::Eof) {
        lemma_perr_declaration(ts, p);
        match p_declaration(ts, p) {
            Ok(r) => lemma_perr_block_rest(ts, next_pos(r.1, p, ts.len()), acc.push(r.0)),
            Err(_) => (),
        }
    }
}

proof fn lemma_perr_statement(ts: Seq<TokenView>, p: nat)
    ensures
        p_statement(ts, p) matches Err(e) ==> e.etype == ErrorType::ParsingError,
    decreases ts.len() - p, 13int,
{
    reveal_with_fuel(p_statement, 1);
    reveal_with_fuel(p_print_statement, 1);
    reveal_with_fuel(p_block_rest, 1);
    reveal_with_fuel(p_if_statement, 1);
    reveal_with_fuel(p_expression_statement, 1);
    if p < ts.len() {
        if p_match(ts, p, TokenType::Print) {
            lemma_perr_print_statement(ts, (p + 1) as nat);
        } else if p_match(ts, p, TokenType::LeftBrace) {
            lemma_perr_block_rest(ts, (p + 1) as nat, Seq::empty());
        } else if p_match(ts, p, TokenType::If) {
            lemma_perr_if_statement(ts, (p + 1) as nat);
        } else {
            lemma_perr_expression_statement(ts, p);
        }
    }
}

proof fn lemma_perr_declaration(ts: Seq<TokenView>, p: nat)
    ensures
        p_declaration(ts, p) matches Err(e) ==> e.etype == ErrorType::ParsingError,
    decreases ts.len() - p, 14int,
{
    reveal_with_fuel(p_declaration, 1);
    reveal_with_fuel(p_var_declaration, 1);
    reveal_with_fuel(p_statement, 1);
    if p < ts.len() {
        if p_match(ts, p, TokenType::Var) {
            lemma_perr_var_declaration(ts, (p + 1) as nat);
        } else {
            lemma_perr_statement(ts, p);
        }
    }
}

proof fn lemma_perr_program_rest(ts: Seq<TokenView>, p: nat, acc: Seq<StmtView>)
    ensures
        p_program_rest(ts, p, acc) matches Err(e) ==> e.etype == ErrorType::ParsingError,
    decreases ts.len() - p, 16int,
{
    reveal_with_fuel(p_program_rest, 1);
    reveal_with_fuel(p_declaration, 1);
    if !(ts.len() <= p || ts[p as int].ttype == TokenType::Eof) {
        lemma_perr_declaration(ts, p);
        match p_declaration(ts, p) {
            Ok(r) => lemma_perr_program_rest(ts, next_pos(r.1, p, ts.len()), acc.push(r.0)),
            Err(_) => (),
        }
    }
}

/// Parsing never fails with anything but a parse error, each one naming,
/// in its message, the token the grammar expected.
pub proof fn lemma_parse_error_is_parsing(ts: Seq<TokenView>)
    ensures
        p_program(ts) matches Err(e) ==> e.etype == ErrorType::ParsingError,
{
    lemma_perr_program_rest(ts, 0, Seq::empty());
}

pub struct Parser {
    tokens: Vec<Token>,
    current: usize,
}

impl View for Parser {
    type V = Seq<TokenView>;

    closed spec fn view(&self) -> Seq<TokenView> {
        tokens_view(self.tokens@)
    }
}

impl Parser {
    /// The position of the next token to be consumed.
    pub closed spec fn pos(&self) -> nat {
        self.current as nat
    }

    spec fn wf(&self) -> bool {
        tokens_wf(self@) && self.pos() < self@.len()
    }

    pub fn new(tokens: Vec<Token>) -> (r: Parser)
        ensures
            r@ == tokens_view(tokens@),
            r.pos() == 0,
    {
        Self { tokens, current: 0 }
    }

    fn peek(&self) -> (t: &Token)
        requires
            self.wf(),
        ensures
            t@ == self@[self.pos() as int],
    {
        &self.tokens[self.current]
    }

    fn previous(&self) -> (t: Token)
        requires
            1 <= self.pos() < self@.len(),
        ensures
            t@ == self@[self.pos() - 1],
    {
        self.tokens[self.current - 1].clone()
    }

    fn is_at_end(&self) -> (r: bool)
        requires
            self.wf(),
        ensures
            r == (self@[self.pos() as int].ttype == TokenType::Eof),
    {
        self.peek().ttype == TokenType::Eof
    }

    fn check(&self, ttype: &TokenType) -> (r: bool)
        requires
            self.wf(),
        ensures
            r == p_match(self@, self.pos(), *ttype),
    {
        if self.is_at_end() {
            false
        } else {
            self.peek().ttype == *ttype
        }
    }

    fn advance(&mut self) -> (t: Token)
        requires
            old(self).wf(),
            old(self)@[old(self).pos() as int].ttype != TokenType::Eof,
        ensures
            final(self).wf(),
            final(self)@ == old(self)@,
            final(self).pos() == old(self).pos() + 1,
            t@ == old(self)@[old(self).pos() as int],
    {
        if !self.is_at_end() {
            let n = self.tokens.len();
            proof {
                assert(self.current < n);
            }
            self.current = self.current + 1;
        }
        self.previous()
    }

    fn does_match(&mut self, ttypes: &[TokenType]) -> (r: bool)
        requires
            old(self).wf(),
        ensures
            final(self).wf(),
            final(self)@ == old(self)@,
            r == (exists|j: int|
                0 <= j < ttypes@.len() && p_match(old(self)@, old(self).pos(), ttypes@[j])),
            r ==> final(self).pos() == old(self).pos() + 1,
            !r ==> final(self).pos() == old(self).pos(),
    {
        let n = ttypes.len();
        let mut j: usize = 0;
        while j < n
            invariant
                self == old(self),
                self.wf(),
                n == ttypes@.len(),
                j <= n,
                forall|jj: int| 0 <= jj < j ==> !p_match(self@, self.pos(), ttypes@[jj]),
            decreases n - j,
        {
            if self.check(&ttypes[j]) {
                self.advance();
                return true;
            }
            j = j + 1;
        }
        false
    }

    fn match_one(&mut self, ttype: TokenType) -> (r: bool)
        requires
            old(self).wf(),
        ensures
            final(self).wf(),
            final(self)@ == old(self)@,
            r == p_match(old(self)@, old(self).pos(), ttype),
            r ==> final(self).pos() == old(self).pos() + 1,
            !r ==> final(self).pos() == old(self).pos(),
    {
        if self.check(&ttype) {
            self.advance();
            true
        } else {
            false
        }
    }

    fn consume(&mut self, ttype: TokenType, message: &str) -> (r: Result<Token, Error>)
        requires
            old(self).wf(),
        ensures
            final(self).wf(),
            final(self)@ == old(self)@,
            match r {
                Ok(t) => p_match(old(self)@, old(self).pos(), ttype) && t@ == old(self)@[old(
                    self,
                ).pos() as int] && final(self).pos() == old(self).pos() + 1,
                Err(e) => !p_match(old(self)@, old(self).pos(), ttype) && e@ == parse_err(
                    old(self)@,
                    old(self).pos(),
                    message@,
                ) && final(self).pos() == old(self).pos(),
            },
    {
        if self.check(&ttype) {
            return Ok(self.advance());
        }
        Err(self.parse_error(message))
    }

    fn parse_error(&self, message: &str) -> (e: Error)
        requires
            self.wf(),
        ensures
            e@ == parse_err(self@, self.pos(), message@),
    {
        Error::new(self.peek().line, ErrorType::ParsingError, message)
    }

    #[verifier::rlimit(100)]
    fn primary(&mut self) -> (r: Result<Expression, Error>)
        requires
            old(self).wf(),
        ensures
            final(self).wf(),
            final(self)@ == old(self)@,
            match r {
                Ok(e) => p_primary(old(self)@, old(self).pos()) == Ok::<_, ErrView>(
                    (e@, final(self).pos()),
                ) && old(self).pos() < final(self).pos(),
                Err(e) => p_primary(old(self)@, old(self).pos()) == Err::<(ExprView, nat), _>(e@),
            },
        decreases old(self)@.len() - old(self).pos(), 0int,
    {
        proof {
            reveal_with_fuel(p_primary, 1);
            reveal_with_fuel(p_expression, 1);
        }
        if self.does_match(&[TokenType::True]) {
            return Ok(Expression::Literal(LiteralExpression::new(Object::True)));
        }
        if self.does_match(&[TokenType::False]) {
            return Ok(Expression::Literal(LiteralExpression::new(Object::False)));
        }
        if self.does_match(&[TokenType::Nil]) {
            return Ok(Expression::Literal(LiteralExpression::new(Object::Nil)));
        }
        if self.does_match(&[TokenType::Number, TokenType::String]) {
            return Ok(Expression::Literal(LiteralExpression::new(self.previous().literal)));
        }
        if self.does_match(&[TokenType::Identifier]) {
            return Ok(Expression::VariableExpression(VariableExpression::new(self.previous())));
        }
        if self.does_match(&[TokenType::LeftParen]) {
            let expression = self.expression()?;
            self.consume(TokenType::RightParen, "Expect ')' after expression")?;
            return Ok(Expression::Grouping(GroupingExpression::new(expression)));
        }
        let mut message = String::from_str("Does not support '");
        message.append(ttype_name(self.peek().ttype).as_str());
        message.append("' as a primary token");
        Err(self.parse_error(message.as_str()))
    }

    #[verifier::rlimit(100)]
    fn unary(&mut self) -> (r: Result<Expression, Error>)
        requires
            old(self).wf(),
        ensures
            final(self).wf(),
            final(self)@ == old(self)@,
            match r {
                Ok(e) => p_unary(old(self)@, old(self).pos()) == Ok::<_, ErrView>(
                    (e@, final(self).pos()),
                ) && old(self).pos() < final(self).pos(),
                Err(e) => p_unary(old(self)@, old(self).pos()) == Err::<(ExprView, nat), _>(e@),
            },
        decreases old(self)@.len() - old(self).pos(), 1int,
    {
        proof {
            reveal_with_fuel(p_unary, 1);
            reveal_with_fuel(p_primary, 1);
        }
        if self.does_match(&[TokenType::Bang, TokenType::Minus]) {
            let operator = self.previous();
            let right = self.unary()?;
            Ok(Expression::Unary(UnaryExpression::new(operator, right)))
        } else {
            self.primary()
        }
    }

    #[verifier::rlimit(100)]
    fn factor(&mut self) -> (r: Result<Expression, Error>)
        requires
            old(self).wf(),
        ensures
            final(self).wf(),
            final(self)@ == old(self)@,
            match r {
                Ok(e) => p_factor(old(self)@, old(self).pos()) == Ok::<_, ErrView>(
                    (e@, final(self).pos()),
                ) && old(self).pos() < final(self).pos(),
                Err(e) => p_factor(old(self)@, old(self).pos()) == Err::<(ExprView, nat), _>(e@),
            },
        decreases old(self)@.len() - old(self).pos(), 3int,
    {
        proof {
            reveal_with_fuel(p_factor, 1);
            reveal_with_fuel(p_unary, 1);
            reveal_with_fuel(p_factor_rest, 1);
        }
        let mut expression = self.unary()?;
        while self.does_match(&[TokenType::Star, TokenType::Slash])
            invariant
                self.wf(),
                self@ == old(self)@,
                old(self).pos() < self.pos(),
                p_factor(self@, old(self).pos()) == p_factor_rest(self@, self.pos(), expression@),
            decreases self@.len() - self.pos(),
        {
            proof {
                reveal_with_fuel(p_factor_rest, 1);
                reveal_with_fuel(p_unary, 1);
                reveal_with_fuel(p_term_rest, 1);
                reveal_with_fuel(p_factor, 1);
                reveal_with_fuel(p_comparison_rest, 1);
                reveal_with_fuel(p_term, 1);
                reveal_with_fuel(p_equality_rest, 1);
                reveal_with_fuel(p_comparison, 1);
            }
            let operator = self.previous();
            let right = self.unary()?;
            expression = Expression::Binary(BinaryExpression::new(expression, operator, right));
        }
        Ok(expression)
    }

    #[verifier::rlimit(100)]
    fn term(&mut self) -> (r: Result<Expression, Error>)
        requires
            old(self).wf(),
        ensures
            final(self).wf(),
            final(self)@ == old(self)@,
            match r {
                Ok(e) => p_term(old(self)@, old(self).pos()) == Ok::<_, ErrView>(
                    (e@, final(self).pos()),
                ) && old(self).pos() < final(self).pos(),
                Err(e) => p_term(old(self)@, old(self).pos()) == Err::<(ExprView, nat), _>(e@),
            },
        decreases old(self)@.len() - old(self).pos(), 5int,
    {
        proof {
            reveal_with_fuel(p_term, 1);
            reveal_with_fuel(p_factor, 1);
            reveal_with_fuel(p_term_rest, 1);
        }
        let mut expression = self.factor()?;
        while self.does_match(&[TokenType::Minus, TokenType::Plus])
            invariant
                self.wf(),
                self@ == old(self)@,
                old(self).pos() < self.pos(),
                p_term(self@, old(self).pos()) == p_term_rest(self@, self.pos(), expression@),
            decreases self@.len() - self.pos(),
        {
            proof {
                reveal_with_fuel(p_factor_rest, 1);
                reveal_with_fuel(p_unary, 1);
                reveal_with_fuel(p_term_rest, 1);
                reveal_with_fuel(p_factor, 1);
                reveal_with_fuel(p_comparison_rest, 1);
                reveal_with_fuel(p_term, 1);
                reveal_with_fuel(p_equality_rest, 1);
                reveal_with_fuel(p_comparison, 1);
            }
            let operator = self.previous();
            let right = self.factor()?;
            expression = Expression::Binary(BinaryExpression::new(expression, operator, right));
        }
        Ok(expression)
    }

    #[verifier::rlimit(100)]
    fn comparison(&mut self) -> (r: Result<Expression, Error>)
        requires
            old(self).wf(),
        ensures
            final(self).wf(),
            final(self)@ == old(self)@,
            match r {
                Ok(e) => p_comparison(old(self)@, old(self).pos()) == Ok::<_, ErrView>(
                    (e@, final(self).pos()),
                ) && old(self).pos() < final(self).pos(),
                Err(e) => p_comparison(old(self)@, old(self).pos()) == Err::<(ExprView, nat), _>(
                    e@,
                ),
            },
        decreases old(self)@.len() - old(self).pos(), 7int,
    {
        proof {
            reveal_with_fuel(p_comparison, 1);
            reveal_with_fuel(p_term, 1);
            reveal_with_fuel(p_comparison_rest, 1);
        }
        let mut expression = self.term()?;
        while self.does_match(
            &[TokenType::Greater, TokenType::GreaterEqual, TokenType::Less, TokenType::LessEqual],
        )
            invariant
                self.wf(),
                self@ == old(self)@,
                old(self).pos() < self.pos(),
                p_comparison(self@, old(self).pos()) == p_comparison_rest(
                    self@,
                    self.pos(),
                    expression@,
                ),
            decreases self@.len() - self.pos(),
        {
            proof {
                reveal_with_fuel(p_factor_rest, 1);
                reveal_with_fuel(p_unary, 1);
                reveal_with_fuel(p_term_rest, 1);
                reveal_with_fuel(p_factor, 1);
                reveal_with_fuel(p_comparison_rest, 1);
                reveal_with_fuel(p_term, 1);
                reveal_with_fuel(p_equality_rest, 1);
                reveal_with_fuel(p_comparison, 1);
            }
            let operator = self.previous();
            let right = self.term()?;
            expression = Expression::Binary(BinaryExpression::new(expression, operator, right));
        }
        Ok(expression)
    }

    #[verifier::rlimit(100)]
    fn equality(&mut self) -> (r: Result<Expression, Error>)
        requires
            old(self).wf(),
        ensures
            final(self).wf(),
            final(self)@ == old(self)@,
            match r {
                Ok(e) => p_equality(old(self)@, old(self).pos()) == Ok::<_, ErrView>(
                    (e@, final(self).pos()),
                ) && old(self).pos() < final(self).pos(),
                Err(e) => p_equality(old(self)@, old(self).pos()) == Err::<(ExprView, nat), _>(e@),
            },
        decreases old(self)@.len() - old(self).pos(), 9int,
    {
        proof {
            reveal_with_fuel(p_equality, 1);
            reveal_with_fuel(p_comparison, 1);
            reveal_with_fuel(p_equality_rest, 1);
        }
        let mut expression = self.comparison()?;
        while self.does_match(&[TokenType::BangEqual, TokenType::EqualEqual])
            invariant
                self.wf(),
                self@ == old(self)@,
                old(self).pos() < self.pos(),
                p_equality(self@, old(self).pos()) == p_equality_rest(
                    self@,
                    self.pos(),
                    expression@,
                ),
            decreases self@.len() - self.pos(),
        {
            proof {
                reveal_with_fuel(p_factor_rest, 1);
                reveal_with_fuel(p_unary, 1);
                reveal_with_fuel(p_term_rest, 1);
                reveal_with_fuel(p_factor, 1);
                reveal_with_fuel(p_comparison_rest, 1);
                reveal_with_fuel(p_term, 1);
                reveal_with_fuel(p_equality_rest, 1);
                reveal_with_fuel(p_comparison, 1);
            }
            let operator = self.previous();
            let right = self.comparison()?;
            expression = Expression::Binary(BinaryExpression::new(expression, operator, right));
        }
        Ok(expression)
    }

    fn expression(&mut self) -> (r: Result<Expression, Error>)
        requires
            old(self).wf(),
        ensures
            final(self).wf(),
            final(self)@ == old(self)@,
            match r {
                Ok(e) => p_expression(old(self)@, old(self).pos()) == Ok::<_, ErrView>(
                    (e@, final(self).pos()),
                ) && old(self).pos() < final(self).pos(),
                Err(e) => p_expression(old(self)@, old(self).pos()) == Err::<(ExprView, nat), _>(
                    e@,
                ),
            },
        decreases old(self)@.len() - old(self).pos(), 10int,
    {
        proof {
            reveal_with_fuel(p_expression, 1);
            reveal_with_fuel(p_equality, 1);
        }
        self.equality()
    }

    #[verifier::rlimit(100)]
    fn expression_statement(&mut self) -> (r: Result<Statement, Error>)
        requires
            old(self).wf(),
        ensures
            final(self).wf(),
            final(self)@ == old(self)@,
            match r {
                Ok(s) => p_expression_statement(old(self)@, old(self).pos()) == Ok::<_, ErrView>(
                    (s@, final(self).pos()),
                ) && old(self).pos() < final(self).pos(),
                Err(e) => p_expression_statement(old(self)@, old(self).pos()) == Err::<
                    (StmtView, nat),
                    _,
                >(e@),
            },
        decreases old(self)@.len() - old(self).pos(), 11int,
    {
        proof {
            reveal_with_fuel(p_expression_statement, 1);
            reveal_with_fuel(p_expression, 1);
        }
        let value = self.expression()?;
        self.consume(TokenType::Semicolon, "Expect ';' after value")?;
        Ok(Statement::ExpressionStatement(ExpressionStatement::new(value)))
    }

    #[verifier::rlimit(100)]
    fn print_statement(&mut self) -> (r: Result<Statement, Error>)
        requires
            old(self).wf(),
        ensures
            final(self).wf(),
            final(self)@ == old(self)@,
            match r {
                Ok(s) => p_print_statement(old(self)@, old(self).pos()) == Ok::<_, ErrView>(
                    (s@, final(self).pos()),
                ) && old(self).pos() < final(self).pos(),
                Err(e) => p_print_statement(old(self)@, old(self).pos()) == Err::<
                    (StmtView, nat),
                    _,
                >(e@),
            },
        decreases old(self)@.len() - old(self).pos(), 11int,
    {
        proof {
            reveal_with_fuel(p_print_statement, 1);
            reveal_with_fuel(p_expression, 1);
        }
        let value = self.expression()?;
        self.consume(TokenType::Semicolon, "Expect ';' after value")?;
        Ok(Statement::PrintStatement(PrintStatement::new(value)))
    }

    #[verifier::rlimit(100)]
    fn var_declaration(&mut self) -> (r: Result<Statement, Error>)
        requires
            old(self).wf(),
        ensures
            final(self).wf(),
            final(self)@ == old(self)@,
            match r {
                Ok(s) => p_var_declaration(old(self)@, old(self).pos()) == Ok::<_, ErrView>(
                    (s@, final(self).pos()),
                ) && old(self).pos() < final(self).pos(),
                Err(e) => p_var_declaration(old(self)@, old(self).pos()) == Err::<
                    (StmtView, nat),
                    _,
                >(e@),
            },
        decreases old(self)@.len() - old(self).pos(), 11int,
    {
        proof {
            reveal_with_fuel(p_var_declaration, 1);
            reveal_with_fuel(p_expression, 1);
        }
        let name = self.consume(TokenType::Identifier, "Expect identifier")?;
        let mut initializer = None;
        if self.match_one(TokenType::Equal) {
            initializer = Some(self.expression()?);
        }
        self.consume(TokenType::Semicolon, "Expect ';' after declaration")?;
        Ok(Statement::VariableStatement(VariableStatement::new(name, initializer)))
    }

    #[verifier::rlimit(100)]
    fn if_statement(&mut self) -> (r: Result<Statement, Error>)
        requires
            old(self).wf(),
        ensures
            final(self).wf(),
            final(self)@ == old(self)@,
            match r {
                Ok(s) => p_if_statement(old(self)@, old(self).pos()) == Ok::<_, ErrView>(
                    (s@, final(self).pos()),
                ) && old(self).pos() < final(self).pos(),
                Err(e) => p_if_statement(old(self)@, old(self).pos()) == Err::<(StmtView, nat), _>(
                    e@,
                ),
            },
        decreases old(self)@.len() - old(self).pos(), 11int,
    {
        proof {
            reveal_with_fuel(p_if_statement, 1);
            reveal_with_fuel(p_expression, 1);
            reveal_with_fuel(p_statement, 1);
        }
        self.consume(TokenType::LeftParen, "Expect '(' after 'if'")?;
        let conditional = self.expression()?;
        self.consume(TokenType::RightParen, "Expect ')' after condition")?;
        let then_branch = self.statement()?;
        let mut else_branch = None;
        if self.match_one(TokenType::Else) {
            else_branch = Some(self.statement()?);
        }
        Ok(Statement::IfStatement(IfStatement::new(conditional, then_branch, else_branch)))
    }

    #[verifier::rlimit(100)]
    fn block(&mut self) -> (r: Result<Statement, Error>)
        requires
            old(self).wf(),
        ensures
            final(self).wf(),
            final(self)@ == old(self)@,
            match r {
                Ok(s) => p_block_rest(old(self)@, old(self).pos(), Seq::empty()) == Ok::<
                    _,
                    ErrView,
                >((s@, final(self).pos())) && old(self).pos() < final(self).pos(),
                Err(e) => p_block_rest(old(self)@, old(self).pos(), Seq::empty()) == Err::<
                    (StmtView, nat),
                    _,
                >(e@),
            },
        decreases old(self)@.len() - old(self).pos(), 15int,
    {
        proof {
            reveal_with_fuel(p_block_rest, 1);
            reveal_with_fuel(p_declaration, 1);
        }
        let mut statements: Vec<Statement> = Vec::new();
        while !self.check(&TokenType::RightBrace) && !self.is_at_end()
            invariant
                self.wf(),
                self@ == old(self)@,
                old(self).pos() <= self.pos(),
                p_block_rest(self@, old(self).pos(), Seq::empty()) == p_block_rest(
                    self@,
                    self.pos(),
                    stmts_view(statements@),
                ),
            decreases self@.len() - self.pos(),
        {
            proof {
                reveal_with_fuel(p_block_rest, 1);
                reveal_with_fuel(p_declaration, 1);
            }
            let ghost pos0 = self.pos();
            let ghost acc0 = stmts_view(statements@);
            let s = self.declaration()?;
            proof {
                lemma_stmts_view_push(statements@, s);
            }
            statements.push(s);
        }
        self.consume(TokenType::RightBrace, "Expect '}' after block")?;
        Ok(Statement::BlockStatement(BlockStatement::new(statements)))
    }

    #[verifier::rlimit(100)]
    fn statement(&mut self) -> (r: Result<Statement, Error>)
        requires
            old(self).wf(),
        ensures
            final(self).wf(),
            final(self)@ == old(self)@,
            match r {
                Ok(s) => p_statement(old(self)@, old(self).pos()) == Ok::<_, ErrView>(
                    (s@, final(self).pos()),
                ) && old(self).pos() < final(self).pos(),
                Err(e) => p_statement(old(self)@, old(self).pos()) == Err::<(StmtView, nat), _>(
                    e@,
                ),
            },
        decreases old(self)@.len() - old(self).pos(), 13int,
    {
        proof {
            reveal_with_fuel(p_statement, 1);
            reveal_with_fuel(p_print_statement, 1);
            reveal_with_fuel(p_block_rest, 1);
            reveal_with_fuel(p_if_statement, 1);
            reveal_with_fuel(p_expression_statement, 1);
        }
        if self.match_one(TokenType::Print) {
            self.print_statement()
        } else if self.match_one(TokenType::LeftBrace) {
            self.block()
        } else if self.match_one(TokenType::If) {
            self.if_statement()
        } else {
            self.expression_statement()
        }
    }

    #[verifier::rlimit(100)]
    fn declaration(&mut self) -> (r: Result<Statement, Error>)
        requires
            old(self).wf(),
        ensures
            final(self).wf(),
            final(self)@ == old(self)@,
            match r {
                Ok(s) => p_declaration(old(self)@, old(self).pos()) == Ok::<_, ErrView>(
                    (s@, final(self).pos()),
                ) && old(self).pos() < final(self).pos(),
                Err(e) => p_declaration(old(self)@, old(self).pos()) == Err::<(StmtView, nat), _>(
                    e@,
                ),
            },
        decreases old(self)@.len() - old(self).pos(), 14int,
    {
        proof {
            reveal_with_fuel(p_declaration, 1);
            reveal_with_fuel(p_var_declaration, 1);
            reveal_with_fuel(p_statement, 1);
        }
        if self.match_one(TokenType::Var) {
            self.var_declaration()
        } else {
            self.statement()
        }
    }

    /// Parses the whole token sequence into a statement sequence, stopping
    /// at the first parse error.
    #[verifier::rlimit(100)]
    pub fn parse(&mut self) -> (r: Result<Vec<Statement>, Error>)
        requires
            tokens_wf(old(self)@),
            old(self).pos() == 0,
        ensures
            match r {
                Ok(ss) => p_program(old(self)@) == Ok::<_, ErrView>(stmts_view(ss@)),
                Err(e) => p_program(old(self)@) == Err::<Seq<StmtView>, _>(e@),
            },
    {
        proof {
            reveal_with_fuel(p_program_rest, 1);
            reveal_with_fuel(p_declaration, 1);
        }
        let mut statements: Vec<Statement> = Vec::new();
        while !self.is_at_end()
            invariant
                self.wf(),
                self@ == old(self)@,
                p_program_rest(self@, 0, Seq::empty()) == p_program_rest(
                    self@,
                    self.pos(),
                    stmts_view(statements@),
                ),
            decreases self@.len() - self.pos(),
        {
            proof {
                reveal_with_fuel(p_program_rest, 1);
                reveal_with_fuel(p_declaration, 1);
            }
            let s = self.declaration()?;
            proof {
                lemma_stmts_view_push(statements@, s);
            }
            statements.push(s);
        }
        Ok(statements)
    }
}

} // verus!
