//! Error categories and diagnostics.
//!
//! Every failure of the pipeline carries the offending source line, a coarse
//! category, and a human-readable message; each stage aborts at its first
//! error and hands it back unchanged.

use vstd::prelude::*;
use vstd::string::StringExecFns;

verus! {

#[derive(Clone, Copy, PartialEq, Eq, Structural, Debug)]
pub enum ErrorType {
    LexingError,
    ParsingError,
    RuntimeError,
}

#[derive(Debug)]
pub struct Error {
    line: usize,
    etype: ErrorType,
    message: String,
}

/// The mathematical model of an error.
pub struct ErrView {
    pub line: nat,
    pub etype: ErrorType,
    pub msg: Seq<char>,
}

impl View for Error {
    type V = ErrView;

    closed spec fn view(&self) -> ErrView {
        ErrView { line: self.line as nat, etype: self.etype, msg: self.message@ }
    }
}

pub open spec fn err_view(line: nat, etype: ErrorType, msg: Seq<char>) -> ErrView {
    ErrView { line, etype, msg }
}

/// The name of an error category.
pub open spec fn etype_text(t: ErrorType) -> Seq<char> {
    match t {
        ErrorType::LexingError => "LexingError"@,
        ErrorType::ParsingError => "ParsingError"@,
        ErrorType::RuntimeError => "RuntimeError"@,
    }
}

/// The decimal digits of `n`, most significant first.
pub open spec fn dec_digits(n: nat) -> Seq<char>
    decreases n,
{
    if n < 10 {
        seq![digit_char(n)]
    } else {
        dec_digits(n / 10).push(digit_char(n % 10))
    }
}

pub open spec fn digit_char(d: nat) -> char {
    if d == 0 {
        '0'
    } else if d == 1 {
        '1'
    } else if d == 2 {
        '2'
    } else if d == 3 {
        '3'
    } else if d == 4 {
        '4'
    } else if d == 5 {
        '5'
    } else if d == 6 {
        '6'
    } else if d == 7 {
        '7'
    } else if d == 8 {
        '8'
    } else {
        '9'
    }
}

/// The full diagnostic line for an error: `[line N] Category<loc>: message`.
pub open spec fn report_text(e: ErrView, loc: Seq<char>) -> Seq<char> {
    "[line "@ + dec_digits(e.line) + "] "@ + etype_text(e.etype) + loc + ": "@ + e.msg
}

fn push_digit(s: &mut String, d: u8)
    requires
        d < 10,
    ensures
        final(s)@ == old(s)@.push(digit_char(d as nat)),
{
    proof {
        reveal_strlit("0");
        reveal_strlit("1");
        reveal_strlit("2");
        reveal_strlit("3");
        reveal_strlit("4");
        reveal_strlit("5");
        reveal_strlit("6");
        reveal_strlit("7");
        reveal_strlit("8");
        reveal_strlit("9");
    }
    if d == 0 {
        s.append("0");
    } else if d == 1 {
        s.append("1");
    } else if d == 2 {
        s.append("2");
    } else if d == 3 {
        s.append("3");
    } else if d == 4 {
        s.append("4");
    } else if d == 5 {
        s.append("5");
    } else if d == 6 {
        s.append("6");
    } else if d == 7 {
        s.append("7");
    } else if d == 8 {
        s.append("8");
    } else {
        s.append("9");
    }
    proof {
        assert(final(s)@ =~= old(s)@.push(digit_char(d as nat)));
    }
}

/// Appends the decimal rendering of `n` to `s`.
fn append_decimal(s: &mut String, n: usize)
    ensures
        final(s)@ == old(s)@ + dec_digits(n as nat),
    decreases n,
{
    if n < 10 {
        push_digit(s, n as u8);
        proof {
            assert(final(s)@ =~= old(s)@ + dec_digits(n as nat));
        }
    } else {
        append_decimal(s, n / 10);
        push_digit(s, (n % 10) as u8);
        proof {
            assert(final(s)@ =~= old(s)@ + dec_digits(n as nat));
        }
    }
}

impl Error {
    pub fn new(line: usize, etype: ErrorType, message: &str) -> (e: Error)
        ensures
            e@ == err_view(line as nat, etype, message@),
    {
        Error { line, etype, message: String::from_str(message) }
    }

    /// The source line the error is tied to.
    pub fn line(&self) -> (r: usize)
        ensures
            r as nat == self@.line,
    {
        self.line
    }

    /// The error's coarse category.
    pub fn error_type(&self) -> (r: ErrorType)
        ensures
            r == self@.etype,
    {
        self.etype
    }

    /// The error's message.
    pub fn message(&self) -> (r: &str)
        ensures
            r@ == self@.msg,
    {
        self.message.as_str()
    }

    /// The diagnostic line a caller surfaces to the user; `loc` is extra
    /// position text inserted after the category, usually empty.
    pub fn report(&self, loc: &str) -> (r: String)
        ensures
            r@ == report_text(self@, loc@),
    {
        let mut s = String::from_str("[line ");
        append_decimal(&mut s, self.line);
        s.append("] ");
        match self.etype {
            ErrorType::LexingError => s.append("LexingError"),
            ErrorType::ParsingError => s.append("ParsingError"),
            ErrorType::RuntimeError => s.append("RuntimeError"),
        }
        s.append(loc);
        s.append(": ");
        s.append(self.message.as_str());
        s
    }
}

} // verus!
