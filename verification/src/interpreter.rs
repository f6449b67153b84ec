//! The tree-walking evaluator: expression evaluation and statement
//! execution against a mutable environment, producing a stream of printed
//! values and signaling runtime errors.
//!
//! The semantics is written once, as the spec functions `eval_expr`,
//! `exec_stmt` and `exec_stmts`; the executable interpreter is proved to
//! return exactly what they denote.

use vstd::prelude::*;

use crate::environment::{undefined_variable_msg, Environment};
use crate::error::{err_view, ErrView, Error, ErrorType};
use crate::expression::{Expression, ExprView};
use crate::numeric::{add_bits, div_bits, eq_bits, lt_bits, mul_bits, neg_bits, sub_bits};
use crate::numeric::{num_add, num_div, num_eq, num_lt, num_mul, num_neg, num_sub};
use crate::object::{bool_val, truthy, val_eq, Object, Val};
use crate::statement::{lemma_stmts_view_len, stmts_view, Statement, StmtView};
use crate::token::{Token, TokenType, TokenView};

verus! {

/// Strict lexicographic order on text, by code point.
pub open spec fn str_lt(a: Seq<char>, b: Seq<char>) -> bool
    decreases a.len(),
{
    if b.len() == 0 {
        false
    } else if a.len() == 0 {
        true
    } else if (a[0] as u32) < (b[0] as u32) {
        true
    } else if (b[0] as u32) < (a[0] as u32) {
        false
    } else {
        str_lt(a.drop_first(), b.drop_first())
    }
}

/// Lexicographic order on text, allowing equality.
pub open spec fn str_le(a: Seq<char>, b: Seq<char>) -> bool {
    str_lt(a, b) || a == b
}

/// What a unary operator yields on an evaluated operand: `-` negates a
/// number and falls back to nil on anything else; `!` negates truthiness.
pub open spec fn apply_unary(op: TokenView, v: Val) -> Result<Val, ErrView> {
    match op.ttype {
        TokenType::Minus => match v {
            Val::Num(b) => Ok(Val::Num(neg_bits(b))),
            _ => Ok(Val::Nil),
        },
        TokenType::Bang => Ok(bool_val(!truthy(v))),
        _ => Err(
            err_view(op.line, ErrorType::RuntimeError, "Operator does not support unary operation"@),
        ),
    }
}

/// What a binary operator yields on two evaluated operands.
pub open spec fn apply_binary(op: TokenView, l: Val, r: Val) -> Result<Val, ErrView> {
    match op.ttype {
        TokenType::Plus => match (l, r) {
            (Val::Num(a), Val::Num(b)) => Ok(Val::Num(add_bits(a, b))),
            (Val::Str(a), Val::Str(b)) => Ok(Val::Str(a + b)),
            _ => Err(
                err_view(
                    op.line,
                    ErrorType::RuntimeError,
                    "Operand must be either number or string"@,
                ),
            ),
        },
        TokenType::Minus => match (l, r) {
            (Val::Num(a), Val::Num(b)) => Ok(Val::Num(sub_bits(a, b))),
            _ => Err(err_view(op.line, ErrorType::RuntimeError, "Operand must be a number"@)),
        },
        TokenType::Star => match (l, r) {
            (Val::Num(a), Val::Num(b)) => Ok(Val::Num(mul_bits(a, b))),
            _ => Err(err_view(op.line, ErrorType::RuntimeError, "Operand must be a number"@)),
        },
        TokenType::Slash => match (l, r) {
            (Val::Num(a), Val::Num(b)) => Ok(Val::Num(div_bits(a, b))),
            _ => Err(err_view(op.line, ErrorType::RuntimeError, "Operand must be a number"@)),
        },
        TokenType::EqualEqual => Ok(bool_val(val_eq(l, r))),
        TokenType::BangEqual => Ok(bool_val(!val_eq(l, r))),
        TokenType::Greater => match (l, r) {
            (Val::Num(a), Val::Num(b)) => Ok(bool_val(lt_bits(b, a))),
            (Val::Str(a), Val::Str(b)) => Ok(bool_val(str_lt(b, a))),
            _ => Err(
                err_view(
                    op.line,
                    ErrorType::RuntimeError,
                    "Operand must be either number or string"@,
                ),
            ),
        },
        TokenType::GreaterEqual => match (l, r) {
            (Val::Num(a), Val::Num(b)) => Ok(bool_val(lt_bits(b, a) || eq_bits(a, b))),
            (Val::Str(a), Val::Str(b)) => Ok(bool_val(str_le(b, a))),
            _ => Err(
                err_view(
                    op.line,
                    ErrorType::RuntimeError,
                    "Operand must be either number or string"@,
                ),
            ),
        },
        TokenType::Less => match (l, r) {
            (Val::Num(a), Val::Num(b)) => Ok(bool_val(lt_bits(a, b))),
            (Val::Str(a), Val::Str(b)) => Ok(bool_val(str_lt(a, b))),
            _ => Err(
                err_view(
                    op.line,
                    ErrorType::RuntimeError,
                    "Operand must be either number or string"@,
                ),
            ),
        },
        TokenType::LessEqual => match (l, r) {
            (Val::Num(a), Val::Num(b)) => Ok(bool_val(lt_bits(a, b) || eq_bits(a, b))),
            (Val::Str(a), Val::Str(b)) => Ok(bool_val(str_le(a, b))),
            _ => Err(
                err_view(
                    op.line,
                    ErrorType::RuntimeError,
                    "Operand must be either number or string"@,
                ),
            ),
        },
        _ => Err(
            err_view(op.line, ErrorType::RuntimeError, "Operator does not support binary operation"@),
        ),
    }
}

/// What an expression evaluates to under `env`: a value, or the first
/// runtime error met on the way (left operands are evaluated first).
pub open spec fn eval_expr(e: ExprView, env: Map<Seq<char>, Val>) -> Result<Val, ErrView>
    decreases e,
{
    match e {
        ExprView::Lit(v) => Ok(v),
        ExprView::Var(t) => if env.contains_key(t.lexeme) {
            Ok(env[t.lexeme])
        } else {
            Err(err_view(t.line, ErrorType::RuntimeError, undefined_variable_msg(t.lexeme)))
        },
        ExprView::Grouping(inner) => eval_expr(*inner, env),
        ExprView::Unary(op, r) => match eval_expr(*r, env) {
            Ok(v) => apply_unary(op, v),
            Err(er) => Err(er),
        },
        ExprView::Binary(l, op, r) => match eval_expr(*l, env) {
            Ok(lv) => match eval_expr(*r, env) {
                Ok(rv) => apply_binary(op, lv, rv),
                Err(er) => Err(er),
            },
            Err(er) => Err(er),
        },
    }
}

/// Evaluating a bare reference to a name that was never declared yields a
/// runtime error whose message names that identifier.
pub proof fn lemma_undefined_variable(t: TokenView, env: Map<Seq<char>, Val>)
    requires
        !env.contains_key(t.lexeme),
    ensures
        eval_expr(ExprView::Var(t), env) == Err::<Val, ErrView>(
            err_view(t.line, ErrorType::RuntimeError, undefined_variable_msg(t.lexeme)),
        ),
{
}

/// The state statement execution leaves behind: the environment, the values
/// printed so far, and the error that aborted the run, if any.
pub struct Outcome {
    pub env: Map<Seq<char>, Val>,
    pub out: Seq<Val>,
    pub err: Option<ErrView>,
}

/// What one statement does to the environment and the print stream.
pub open spec fn exec_stmt(s: StmtView, env: Map<Seq<char>, Val>, out: Seq<Val>) -> Outcome
    decreases s,
{
    match s {
        StmtView::Expr(e) => match eval_expr(e, env) {
            Ok(_) => Outcome { env, out, err: None },
            Err(er) => Outcome { env, out, err: Some(er) },
        },
        StmtView::Print(e) => match eval_expr(e, env) {
            Ok(v) => Outcome { env, out: out.push(v), err: None },
            Err(er) => Outcome { env, out, err: Some(er) },
        },
        StmtView::VarDecl(t, init) => match eval_expr(init, env) {
            Ok(v) => Outcome { env: env.insert(t.lexeme, v), out, err: None },
            Err(er) => Outcome { env, out, err: Some(er) },
        },
        StmtView::Block(ss) => {
            let o = exec_stmts(ss, env, out);
            if o.err is None {
                // Declarations inside the block never escape it.
                Outcome { env, out: o.out, err: None }
            } else {
                o
            }
        },
        StmtView::If(c, t, e) => match eval_expr(c, env) {
            Ok(v) => if truthy(v) {
                exec_stmt(*t, env, out)
            } else {
                match e {
                    Some(b) => exec_stmt(*b, env, out),
                    None => Outcome { env, out, err: None },
                }
            },
            Err(er) => Outcome { env, out, err: Some(er) },
        },
    }
}

/// What a statement sequence does, stopping at the first error.
#[verifier::opaque]
pub open spec fn exec_stmts(ss: Seq<StmtView>, env: Map<Seq<char>, Val>, out: Seq<Val>) -> Outcome
    decreases ss,
{
    if ss.len() == 0 {
        Outcome { env, out, err: None }
    } else {
        let o = exec_stmt(ss[0], env, out);
        if o.err is Some {
            o
        } else {
            exec_stmts(ss.drop_first(), o.env, o.out)
        }
    }
}

/// The models of a sequence of runtime values.
pub open spec fn objs_view(s: Seq<Object>) -> Seq<Val> {
    Seq::new(s.len(), |i: int| s[i]@)
}

/// Strict lexicographic `<` on two strings.
fn string_lt(a: &String, b: &String) -> (r: bool)
    ensures
        r == str_lt(a@, b@),
{
    let an = a.as_str().unicode_len();
    let bn = b.as_str().unicode_len();
    let mut i: usize = 0;
    proof {
        assert(a@.skip(0) =~= a@);
        assert(b@.skip(0) =~= b@);
    }
    loop
        invariant
            i <= an,
            i <= bn,
            an == a@.len(),
            bn == b@.len(),
            str_lt(a@, b@) == str_lt(a@.skip(i as int), b@.skip(i as int)),
        decreases an - i,
    {
        if i >= bn {
            return false;
        }
        if i >= an {
            return true;
        }
        let ca = a.as_str().get_char(i);
        let cb = b.as_str().get_char(i);
        proof {
            assert(a@.skip(i as int)[0] == a@[i as int]);
            assert(b@.skip(i as int)[0] == b@[i as int]);
            assert(a@.skip(i as int).drop_first() =~= a@.skip(i as int + 1));
            assert(b@.skip(i as int).drop_first() =~= b@.skip(i as int + 1));
        }
        if (ca as u32) < (cb as u32) {
            return true;
        }
        if (cb as u32) < (ca as u32) {
            return false;
        }
        i = i + 1;
    }
}

/// Lexicographic `<=` on two strings.
fn string_le(a: &String, b: &String) -> (r: bool)
    ensures
        r == str_le(a@, b@),
{
    if string_lt(a, b) {
        true
    } else {
        *a == *b
    }
}

/// The value or error a binary operator produces on two evaluated operands.
fn binary_result(operator: &Token, left: Object, right: Object) -> (r: Result<Object, Error>)
    ensures
        match r {
            Ok(v) => apply_binary(operator@, left@, right@) == Result::<Val, ErrView>::Ok(v@),
            Err(e) => apply_binary(operator@, left@, right@) == Result::<Val, ErrView>::Err(e@),
        },
{
    match operator.ttype {
        TokenType::Plus => match (left, right) {
            (Object::Number(a), Object::Number(b)) => Ok(Object::Number(num_add(a, b))),
            (Object::String(a), Object::String(b)) => Ok(Object::String(a.concat(b.as_str()))),
            _ => Err(
                Error::new(
                    operator.line,
                    ErrorType::RuntimeError,
                    "Operand must be either number or string",
                ),
            ),
        },
        TokenType::Minus => match (left, right) {
            (Object::Number(a), Object::Number(b)) => Ok(Object::Number(num_sub(a, b))),
            _ => Err(Error::new(operator.line, ErrorType::RuntimeError, "Operand must be a number")),
        },
        TokenType::Star => match (left, right) {
            (Object::Number(a), Object::Number(b)) => Ok(Object::Number(num_mul(a, b))),
            _ => Err(Error::new(operator.line, ErrorType::RuntimeError, "Operand must be a number")),
        },
        TokenType::Slash => match (left, right) {
            (Object::Number(a), Object::Number(b)) => Ok(Object::Number(num_div(a, b))),
            _ => Err(Error::new(operator.line, ErrorType::RuntimeError, "Operand must be a number")),
        },
        TokenType::EqualEqual => {
            if left.equals(&right) {
                Ok(Object::True)
            } else {
                Ok(Object::False)
            }
        },
        TokenType::BangEqual => {
            if left.equals(&right) {
                Ok(Object::False)
            } else {
                Ok(Object::True)
            }
        },
        TokenType::Greater => match (left, right) {
            (Object::Number(a), Object::Number(b)) => {
                if num_lt(b, a) {
                    Ok(Object::True)
                } else {
                    Ok(Object::False)
                }
            },
            (Object::String(a), Object::String(b)) => {
                if string_lt(&b, &a) {
                    Ok(Object::True)
                } else {
                    Ok(Object::False)
                }
            },
            _ => Err(
                Error::new(
                    operator.line,
                    ErrorType::RuntimeError,
                    "Operand must be either number or string",
                ),
            ),
        },
        TokenType::GreaterEqual => match (left, right) {
            (Object::Number(a), Object::Number(b)) => {
                if num_lt(b, a) || num_eq(a, b) {
                    Ok(Object::True)
                } else {
                    Ok(Object::False)
                }
            },
            (Object::String(a), Object::String(b)) => {
                if string_le(&b, &a) {
                    Ok(Object::True)
                } else {
                    Ok(Object::False)
                }
            },
            _ => Err(
                Error::new(
                    operator.line,
                    ErrorType::RuntimeError,
                    "Operand must be either number or string",
                ),
            ),
        },
        TokenType::Less => match (left, right) {
            (Object::Number(a), Object::Number(b)) => {
                if num_lt(a, b) {
                    Ok(Object::True)
                } else {
                    Ok(Object::False)
                }
            },
            (Object::String(a), Object::String(b)) => {
                if string_lt(&a, &b) {
                    Ok(Object::True)
                } else {
                    Ok(Object::False)
                }
            },
            _ => Err(
                Error::new(
                    operator.line,
                    ErrorType::RuntimeError,
                    "Operand must be either number or string",
                ),
            ),
        },
        TokenType::LessEqual => match (left, right) {
            (Object::Number(a), Object::Number(b)) => {
                if num_lt(a, b) || num_eq(a, b) {
                    Ok(Object::True)
                } else {
                    Ok(Object::False)
                }
            },
            (Object::String(a), Object::String(b)) => {
                if string_le(&a, &b) {
                    Ok(Object::True)
                } else {
                    Ok(Object::False)
                }
            },
            _ => Err(
                Error::new(
                    operator.line,
                    ErrorType::RuntimeError,
                    "Operand must be either number or string",
                ),
            ),
        },
        _ => Err(
            Error::new(
                operator.line,
                ErrorType::RuntimeError,
                "Operator does not support binary operation",
            ),
        ),
    }
}

pub struct Interpreter {
    environment: Environment,
}

impl View for Interpreter {
    type V = Map<Seq<char>, Val>;

    closed spec fn view(&self) -> Map<Seq<char>, Val> {
        self.environment@
    }
}

impl Interpreter {
    pub fn new() -> (r: Interpreter)
        ensures
            r@ == Map::<Seq<char>, Val>::empty(),
    {
        Interpreter { environment: Environment::new() }
    }

    fn is_truthy(&self, object: Object) -> (r: bool)
        ensures
            r == truthy(object@),
    {
        !(matches!(object, Object::Nil | Object::False))
    }

    /// Evaluates an expression against the current environment.
    fn evaluate(&self, expression: &Expression) -> (r: Result<Object, Error>)
        ensures
            match r {
                Ok(v) => eval_expr(expression@, self@) == Result::<Val, ErrView>::Ok(v@),
                Err(e) => eval_expr(expression@, self@) == Result::<Val, ErrView>::Err(e@),
            },
        decreases *expression,
    {
        match expression {
            Expression::Literal(l) => Ok(l.value.clone()),
            Expression::VariableExpression(v) => self.environment.access(&v.identifier),
            Expression::Grouping(g) => self.evaluate(&*g.expressions),
            Expression::Unary(u) => {
                let right = self.evaluate(&*u.right)?;
                match u.operator.ttype {
                    TokenType::Minus => match right {
                        Object::Number(b) => Ok(Object::Number(num_neg(b))),
                        _ => Ok(Object::Nil),
                    },
                    TokenType::Bang => {
                        if self.is_truthy(right) {
                            Ok(Object::False)
                        } else {
                            Ok(Object::True)
                        }
                    },
                    _ => Err(
                        Error::new(
                            u.operator.line,
                            ErrorType::RuntimeError,
                            "Operator does not support unary operation",
                        ),
                    ),
                }
            },
            Expression::Binary(b) => {
                let left = self.evaluate(&*b.left)?;
                let right = self.evaluate(&*b.right)?;
                binary_result(&b.operator, left, right)
            },
        }
    }

    /// Executes one statement; the print stream grows at the end of `out`.
    fn execute(&mut self, statement: &Statement, out: &mut Vec<Object>) -> (r: Result<(), Error>)
        ensures
            ({
                let o = exec_stmt(statement@, old(self)@, objs_view(old(out)@));
                final(self)@ == o.env && objs_view(final(out)@) == o.out && match r {
                    Ok(_) => o.err is None,
                    Err(e) => o.err == Some(e@),
                }
            }),
        decreases *statement,
    {
        match statement {
            Statement::ExpressionStatement(s) => {
                let _ = self.evaluate(&s.expression)?;
                Ok(())
            },
            Statement::PrintStatement(p) => {
                let v = self.evaluate(&p.expression)?;
                let ghost out0 = out@;
                out.push(v);
                proof {
                    assert(objs_view(out@) =~= objs_view(out0).push(v@));
                }
                Ok(())
            },
            Statement::VariableStatement(v) => {
                let value = self.evaluate(&v.initializer)?;
                self.environment.define(v.identifier.lexeme.as_str(), value);
                Ok(())
            },
            Statement::BlockStatement(b) => self.execute_block(&b.statements, out),
            Statement::IfStatement(i) => {
                let c = self.evaluate(&i.conditional)?;
                if self.is_truthy(c) {
                    self.execute(&*i.then_branch, out)
                } else {
                    match &i.else_branch {
                        Some(e) => self.execute(&**e, out),
                        None => Ok(()),
                    }
                }
            },
        }
    }

    /// Runs a block: snapshots the environment, executes the statements
    /// against the live environment, and restores the snapshot on exit.
    fn execute_block(&mut self, statements: &Vec<Statement>, out: &mut Vec<Object>) -> (r: Result<
        (),
        Error,
    >)
        ensures
            ({
                let o = exec_stmt(
                    StmtView::Block(stmts_view(statements@)),
                    old(self)@,
                    objs_view(old(out)@),
                );
                final(self)@ == o.env && objs_view(final(out)@) == o.out && match r {
                    Ok(_) => o.err is None,
                    Err(e) => o.err == Some(e@),
                }
            }),
        decreases *statements,
    {
        proof {
            reveal_with_fuel(exec_stmts, 1);
        }
        let previous = self.environment.clone();
        let ghost env0 = self@;
        let ghost out0 = objs_view(out@);
        let n = statements.len();
        let mut i: usize = 0;
        proof {
            assert(stmts_view(statements@).skip(0) =~= stmts_view(statements@));
        }
        while i < n
            invariant
                n == statements@.len(),
                i <= n,
                env0 == old(self)@,
                out0 == objs_view(old(out)@),
                previous@ == env0,
                exec_stmts(stmts_view(statements@), env0, out0) == exec_stmts(
                    stmts_view(statements@).skip(i as int),
                    self@,
                    objs_view(out@),
                ),
            decreases n - i,
        {
            proof {
                reveal_with_fuel(exec_stmts, 1);
                lemma_stmts_view_len(statements@);
                let sv = stmts_view(statements@);
                assert(sv.skip(i as int)[0] == sv[i as int]);
                assert(sv.skip(i as int).drop_first() =~= sv.skip(i as int + 1));
            }
            let r = self.execute(&statements[i], out);
            match r {
                Ok(_) => {},
                Err(e) => {
                    return Err(e);
                },
            }
            i = i + 1;
        }
        proof {
            lemma_stmts_view_len(statements@);
            assert(stmts_view(statements@).skip(n as int) =~= Seq::<StmtView>::empty());
        }
        self.environment = previous;
        Ok(())
    }

    /// Executes the statements strictly in sequence; the first runtime error
    /// aborts the remainder. Printed values are appended to `out`.
    pub fn interpret(&mut self, statements: &Vec<Statement>, out: &mut Vec<Object>) -> (r: Result<
        (),
        Error,
    >)
        ensures
            ({
                let o = exec_stmts(stmts_view(statements@), old(self)@, objs_view(old(out)@));
                final(self)@ == o.env && objs_view(final(out)@) == o.out && match r {
                    Ok(_) => o.err is None,
                    Err(e) => o.err == Some(e@),
                }
            }),
    {
        proof {
            reveal_with_fuel(exec_stmts, 1);
        }
        let ghost env0 = self@;
        let ghost out0 = objs_view(out@);
        let n = statements.len();
        let mut i: usize = 0;
        proof {
            assert(stmts_view(statements@).skip(0) =~= stmts_view(statements@));
        }
        while i < n
            invariant
                n == statements@.len(),
                i <= n,
                env0 == old(self)@,
                out0 == objs_view(old(out)@),
                exec_stmts(stmts_view(statements@), env0, out0) == exec_stmts(
                    stmts_view(statements@).skip(i as int),
                    self@,
                    objs_view(out@),
                ),
            decreases n - i,
        {
            proof {
                reveal_with_fuel(exec_stmts, 1);
                lemma_stmts_view_len(statements@);
                let sv = stmts_view(statements@);
                assert(sv.skip(i as int)[0] == sv[i as int]);
                assert(sv.skip(i as int).drop_first() =~= sv.skip(i as int + 1));
            }
            let r = self.execute(&statements[i], out);
            match r {
                Ok(_) => {},
                Err(e) => {
                    return Err(e);
                },
            }
            i = i + 1;
        }
        proof {
            lemma_stmts_view_len(statements@);
            assert(stmts_view(statements@).skip(n as int) =~= Seq::<StmtView>::empty());
        }
        Ok(())
    }
}

} // verus!
