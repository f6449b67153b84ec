//! A tree-walking interpreter for a small dynamically typed scripting
//! language: lexical scanning, recursive-descent parsing, and evaluation of
//! the resulting syntax tree against a mutable variable environment.
//!
//! Each stage is specified once as a spec function — `scan_spec`,
//! `p_program`, `exec_stmts` — and the executable pipeline is proved to
//! return exactly what their composition, `run_spec`, denotes.

use vstd::prelude::*;

pub mod environment;
pub mod error;
pub mod expression;
pub mod interpreter;
pub mod parser;
pub mod scanner;
pub mod statement;
pub mod numeric;
pub mod object;
pub mod token;

use crate::error::{ErrView, Error};
use crate::interpreter::{exec_stmts, objs_view, Interpreter};
use crate::object::{val_text, Object, Val};
use crate::parser::{p_program, Parser};
use crate::scanner::{lemma_scan_from_shape, scan_spec, Scanner};

verus! {

/// The display text of each value in `vals`.
pub open spec fn texts_of(vals: Seq<Val>) -> Seq<Seq<char>> {
    Seq::new(vals.len(), |i: int| val_text(vals[i]))
}

/// The text of each string in a sequence.
pub open spec fn strings_view(s: Seq<String>) -> Seq<Seq<char>> {
    Seq::new(s.len(), |i: int| s[i]@)
}

/// What running a source text does: the values its print statements
/// produce, in order, and the error that stopped the run, if any.
pub open spec fn run_spec(src: Seq<char>) -> (Seq<Val>, Option<ErrView>) {
    match scan_spec(src) {
        Err(e) => (Seq::empty(), Some(e)),
        Ok(ts) => match p_program(ts) {
            Err(e) => (Seq::empty(), Some(e)),
            Ok(ss) => {
                let o = exec_stmts(ss, Map::empty(), Seq::empty());
                (o.out, o.err)
            },
        },
    }
}

/// Feeds a source text through the whole pipeline — scan, parse, interpret
/// against a fresh environment — appending the display text of every value
/// the run printed to `out`, and handing back the first error of any stage.
/// Appends the display text of each value to `out`.
fn append_texts(values: &Vec<Object>, out: &mut Vec<String>)
    ensures
        strings_view(final(out)@) =~= strings_view(old(out)@) + texts_of(objs_view(values@)),
{
    let n = values.len();
    let mut i: usize = 0;
    while i < n
        invariant
            n == values@.len(),
            i <= n,
            strings_view(out@) =~= strings_view(old(out)@) + texts_of(
                objs_view(values@).take(i as int),
            ),
        decreases n - i,
    {
        let ghost out_pre = out@;
        out.push(values[i].to_text());
        proof {
            assert(strings_view(out@) =~= strings_view(out_pre).push(val_text(values@[i as int]@)));
            assert(strings_view(old(out)@) + texts_of(objs_view(values@).take(i + 1))
                =~= (strings_view(old(out)@) + texts_of(objs_view(values@).take(i as int))).push(
                val_text(values@[i as int]@),
            ));
        }
        i = i + 1;
    }
    proof {
        assert(objs_view(values@).take(n as int) =~= objs_view(values@));
    }
}

#[verifier::rlimit(100)]
#[verifier::spinoff_prover]
pub fn run(source: &str, out: &mut Vec<String>) -> (r: Result<(), Error>)
    requires
        source@.len() < usize::MAX,
    ensures
        ({
            let (vals, err) = run_spec(source@);
            &&& strings_view(final(out)@) =~= strings_view(old(out)@) + texts_of(vals)
            &&& match r {
                Ok(_) => err is None,
                Err(e) => err == Some(e@),
            }
        }),
{
    let mut scanner = Scanner::new(source);
    let tokens = match scanner.scan_tokens() {
        Ok(t) => t,
        Err(e) => {
            proof {
                assert(strings_view(out@) =~= strings_view(old(out)@) + texts_of(Seq::empty()));
            }
            return Err(e);
        },
    };
    proof {
        lemma_scan_from_shape(source@, 0, 1);
    }
    let mut parser = Parser::new(tokens);
    let statements = match parser.parse() {
        Ok(s) => s,
        Err(e) => {
            proof {
                assert(strings_view(out@) =~= strings_view(old(out)@) + texts_of(Seq::empty()));
            }
            return Err(e);
        },
    };
    let mut interpreter = Interpreter::new();
    let mut values: Vec<Object> = Vec::new();
    proof {
        assert(objs_view(values@) =~= Seq::<Val>::empty());
    }
    let result = interpreter.interpret(&statements, &mut values);
    append_texts(&values, out);
    result
}

} // verus!
