//! The scanner: raw source text to an ordered token sequence, consumed left
//! to right with a current offset and a 1-based line counter. Two-character
//! operators are matched greedily; `//` comments run to the end of the line;
//! `/* */` comments nest; strings and numbers carry their literal value;
//! identifiers are checked against the reserved-word table. The first lexical
//! error aborts the scan.
//!
//! The lexical grammar is written once, as `scan_from` and its helper spec
//! functions; the executable scanner is proved to return exactly what they
//! denote.

use vstd::prelude::*;
use vstd::string::StringExecFns;
use vstd::string::StrSliceExecFns;

use crate::error::{err_view, ErrView, Error, ErrorType};
use crate::numeric::{digits_end, is_digit, is_number_lexeme, num_from_text, number_of};
use crate::numeric::{lemma_digits_end, lemma_digits_end_is};
use crate::object::{Object, Val};
use crate::token::{tokens_view, Token, TokenType, TokenView};

verus! {

pub open spec fn is_alpha(c: char) -> bool {
    ('a' <= c && c <= 'z') || ('A' <= c && c <= 'Z') || c == '_'
}

pub open spec fn is_alnum(c: char) -> bool {
    is_alpha(c) || is_digit(c)
}

/// The first position at or after `p` that ends a line comment: the next
/// newline, or the end of input. The newline itself is not consumed.
pub open spec fn line_comment_end(src: Seq<char>, p: nat) -> nat
    decreases src.len() - p,
{
    if src.len() <= p || src[p as int] == '\n' {
        p
    } else {
        line_comment_end(src, p + 1)
    }
}

/// Scans a block comment body from `p` at nesting depth `depth`: the
/// position after the closing `*/` of the outermost level and the line
/// reached, or failure when the input ends first.
pub open spec fn block_comment_scan(src: Seq<char>, p: nat, line: nat, depth: nat) -> Result<
    (nat, nat),
    (),
>
    decreases src.len() - p,
{
    if src.len() <= p {
        Err(())
    } else if src[p as int] == '*' && p + 1 < src.len() && src[(p + 1) as int] == '/' {
        if depth == 1 {
            Ok((p + 2, line))
        } else {
            block_comment_scan(src, p + 2, line, (depth - 1) as nat)
        }
    } else if src[p as int] == '/' && p + 1 < src.len() && src[(p + 1) as int] == '*' {
        block_comment_scan(src, p + 2, line, depth + 1)
    } else if src[p as int] == '\n' {
        block_comment_scan(src, p + 1, line + 1, depth)
    } else {
        block_comment_scan(src, p + 1, line, depth)
    }
}

/// Scans a string body from `p` (just after the opening quote): the
/// position after the closing quote and the line reached, or, when the
/// input ends first, the line the end was reached on.
pub open spec fn string_scan(src: Seq<char>, p: nat, line: nat) -> Result<(nat, nat), nat>
    decreases src.len() - p,
{
    if src.len() <= p {
        Err(line)
    } else if src[p as int] == '"' {
        Ok((p + 1, line))
    } else if src[p as int] == '\n' {
        string_scan(src, p + 1, line + 1)
    } else {
        string_scan(src, p + 1, line)
    }
}

/// The end of a numeric literal starting at `p`: a digit run, extended past
/// a dot only when another digit follows it.
pub open spec fn number_end(src: Seq<char>, p: nat) -> nat {
    let d = digits_end(src, p);
    if d + 1 < src.len() && src[d as int] == '.' && is_digit(src[(d + 1) as int]) {
        digits_end(src, d + 1)
    } else {
        d
    }
}

/// The first position at or after `p` that holds no letter, digit or
/// underscore.
pub open spec fn ident_end(src: Seq<char>, p: nat) -> nat
    decreases src.len() - p,
{
    if src.len() <= p || !is_alnum(src[p as int]) {
        p
    } else {
        ident_end(src, p + 1)
    }
}

/// The token kind of an identifier: its reserved-word kind, if any.
pub open spec fn keyword_kind(s: Seq<char>) -> TokenType {
    if s == "and"@ {
        TokenType::And
    } else if s == "class"@ {
        TokenType::Class
    } else if s == "else"@ {
        TokenType::Else
    } else if s == "false"@ {
        TokenType::False
    } else if s == "for"@ {
        TokenType::For
    } else if s == "fun"@ {
        TokenType::Fun
    } else if s == "nil"@ {
        TokenType::Nil
    } else if s == "if"@ {
        TokenType::If
    } else if s == "or"@ {
        TokenType::Or
    } else if s == "print"@ {
        TokenType::Print
    } else if s == "return"@ {
        TokenType::Return
    } else if s == "super"@ {
        TokenType::Super
    } else if s == "this"@ {
        TokenType::This
    } else if s == "true"@ {
        TokenType::True
    } else if s == "var"@ {
        TokenType::Var
    } else if s == "while"@ {
        TokenType::While
    } else {
        TokenType::Identifier
    }
}

pub proof fn lemma_line_comment_end(src: Seq<char>, p: nat)
    ensures
        p <= line_comment_end(src, p),
        p <= src.len() ==> line_comment_end(src, p) <= src.len(),
    decreases src.len() - p,
{
    if p < src.len() && src[p as int] != '\n' {
        lemma_line_comment_end(src, p + 1);
    }
}

pub proof fn lemma_block_comment_scan(src: Seq<char>, p: nat, line: nat, depth: nat)
    ensures
        block_comment_scan(src, p, line, depth) matches Ok(r) ==> p < r.0 <= src.len(),
    decreases src.len() - p,
{
    if p < src.len() {
        if src[p as int] == '*' && p + 1 < src.len() && src[(p + 1) as int] == '/' {
            if depth != 1 {
                lemma_block_comment_scan(src, p + 2, line, (depth - 1) as nat);
            }
        } else if src[p as int] == '/' && p + 1 < src.len() && src[(p + 1) as int] == '*' {
            lemma_block_comment_scan(src, p + 2, line, depth + 1);
        } else if src[p as int] == '\n' {
            lemma_block_comment_scan(src, p + 1, line + 1, depth);
        } else {
            lemma_block_comment_scan(src, p + 1, line, depth);
        }
    }
}

pub proof fn lemma_string_scan(src: Seq<char>, p: nat, line: nat)
    ensures
        string_scan(src, p, line) matches Ok(r) ==> p < r.0 <= src.len(),
    decreases src.len() - p,
{
    if p < src.len() && src[p as int] != '"' {
        if src[p as int] == '\n' {
            lemma_string_scan(src, p + 1, line + 1);
        } else {
            lemma_string_scan(src, p + 1, line);
        }
    }
}

pub proof fn lemma_ident_end(src: Seq<char>, p: nat)
    ensures
        p <= ident_end(src, p),
        p <= src.len() ==> ident_end(src, p) <= src.len(),
        forall|i: int| p <= i < ident_end(src, p) ==> is_alnum(#[trigger] src[i]),
        ident_end(src, p) < src.len() ==> !is_alnum(src[ident_end(src, p) as int]),
    decreases src.len() - p,
{
    if p < src.len() && is_alnum(src[p as int]) {
        lemma_ident_end(src, p + 1);
    }
}

/// A token without a literal value, holding the source text `lexeme`.
pub open spec fn plain_tok(ttype: TokenType, lexeme: Seq<char>, line: nat) -> TokenView {
    TokenView { ttype, lexeme, literal: Val::Nil, line }
}

/// Prepends the tokens of one scanning step to the rest of a scan.
pub open spec fn prepend_toks(ts: Seq<TokenView>, r: Result<Seq<TokenView>, ErrView>) -> Result<
    Seq<TokenView>,
    ErrView,
> {
    match r {
        Ok(rest) => Ok(ts + rest),
        Err(e) => Err(e),
    }
}

/// One scanning step that emitted a single token `t` and continued at
/// `cur2`/`line2` accounts for the whole difference of the token list.
proof fn lemma_step_one(
    src: Seq<char>,
    pos: nat,
    line: nat,
    t: TokenView,
    toks_old: Seq<TokenView>,
    toks_new: Seq<TokenView>,
    cur2: nat,
    line2: nat,
)
    requires
        toks_new =~= toks_old.push(t),
        scan_from(src, pos, line) == prepend_toks(seq![t], scan_from(src, cur2, line2)),
    ensures
        toks_old =~= toks_new.take(toks_old.len() as int),
        scan_from(src, pos, line) == prepend_toks(
            toks_new.skip(toks_old.len() as int),
            scan_from(src, cur2, line2),
        ),
{
    assert(toks_new.skip(toks_old.len() as int) =~= seq![t]);
    assert(toks_old =~= toks_new.take(toks_old.len() as int));
}

/// One scanning step that emitted nothing (whitespace or a comment) leaves
/// the token list alone.
proof fn lemma_step_none(
    src: Seq<char>,
    pos: nat,
    line: nat,
    toks: Seq<TokenView>,
    cur2: nat,
    line2: nat,
)
    requires
        scan_from(src, pos, line) == scan_from(src, cur2, line2),
    ensures
        toks =~= toks.take(toks.len() as int),
        scan_from(src, pos, line) == prepend_toks(
            toks.skip(toks.len() as int),
            scan_from(src, cur2, line2),
        ),
{
    assert(toks.skip(toks.len() as int) =~= Seq::<TokenView>::empty());
    match scan_from(src, cur2, line2) {
        Ok(ts) => {
            assert(Seq::<TokenView>::empty() + ts =~= ts);
        },
        Err(_) => {},
    }
    assert(toks =~= toks.take(toks.len() as int));
}

/// What scanning from offset `pos` on line `line` yields: the remaining
/// tokens, ending with the synthetic end-of-input token, or the first
/// lexical error.
#[verifier::opaque]
pub open spec fn scan_from(src: Seq<char>, pos: nat, line: nat) -> Result<Seq<TokenView>, ErrView>
    decreases src.len() - pos,
        via scan_from_dec
{
    if src.len() <= pos {
        Ok(seq![plain_tok(TokenType::Eof, Seq::empty(), line)])
    } else {
        let c = src[pos as int];
        if c == ' ' || c == '\r' || c == '\t' {
            scan_from(src, pos + 1, line)
        } else if c == '\n' {
            scan_from(src, pos + 1, line + 1)
        } else if c == '(' {
            prepend_toks(
                seq![plain_tok(TokenType::LeftParen, src.subrange(pos as int, pos as int + 1), line)],
                scan_from(src, pos + 1, line),
            )
        } else if c == ')' {
            prepend_toks(
                seq![plain_tok(TokenType::RightParen, src.subrange(pos as int, pos as int + 1), line)],
                scan_from(src, pos + 1, line),
            )
        } else if c == '{' {
            prepend_toks(
                seq![plain_tok(TokenType::LeftBrace, src.subrange(pos as int, pos as int + 1), line)],
                scan_from(src, pos + 1, line),
            )
        } else if c == '}' {
            prepend_toks(
                seq![plain_tok(TokenType::RightBrace, src.subrange(pos as int, pos as int + 1), line)],
                scan_from(src, pos + 1, line),
            )
        } else if c == ';' {
            prepend_toks(
                seq![plain_tok(TokenType::Semicolon, src.subrange(pos as int, pos as int + 1), line)],
                scan_from(src, pos + 1, line),
            )
        } else if c == ',' {
            prepend_toks(
                seq![plain_tok(TokenType::Comma, src.subrange(pos as int, pos as int + 1), line)],
                scan_from(src, pos + 1, line),
            )
        } else if c == '.' {
            prepend_toks(
                seq![plain_tok(TokenType::Dot, src.subrange(pos as int, pos as int + 1), line)],
                scan_from(src, pos + 1, line),
            )
        } else if c == '+' {
            prepend_toks(
                seq![plain_tok(TokenType::Plus, src.subrange(pos as int, pos as int + 1), line)],
                scan_from(src, pos + 1, line),
            )
        } else if c == '-' {
            prepend_toks(
                seq![plain_tok(TokenType::Minus, src.subrange(pos as int, pos as int + 1), line)],
                scan_from(src, pos + 1, line),
            )
        } else if c == '*' {
            prepend_toks(
                seq![plain_tok(TokenType::Star, src.subrange(pos as int, pos as int + 1), line)],
                scan_from(src, pos + 1, line),
            )
        } else if c == '/' {
            if pos + 1 < src.len() && src[(pos + 1) as int] == '/' {
                scan_from(src, line_comment_end(src, pos + 2), line)
            } else if pos + 1 < src.len() && src[(pos + 1) as int] == '*' {
                match block_comment_scan(src, pos + 2, line, 1) {
                    Ok((e, l2)) => scan_from(src, e, l2),
                    Err(_) => Err(err_view(line, ErrorType::LexingError, "Unterminated comment"@)),
                }
            } else {
                prepend_toks(
                    seq![plain_tok(TokenType::Slash, src.subrange(pos as int, pos as int + 1), line)],
                    scan_from(src, pos + 1, line),
                )
            }
        } else if c == '!' {
            if pos + 1 < src.len() && src[(pos + 1) as int] == '=' {
                prepend_toks(
                    seq![plain_tok(TokenType::BangEqual, src.subrange(pos as int, pos as int + 2), line)],
                    scan_from(src, pos + 2, line),
                )
            } else {
                prepend_toks(
                    seq![plain_tok(TokenType::Bang, src.subrange(pos as int, pos as int + 1), line)],
                    scan_from(src, pos + 1, line),
                )
            }
        } else if c == '=' {
            if pos + 1 < src.len() && src[(pos + 1) as int] == '=' {
                prepend_toks(
                    seq![plain_tok(TokenType::EqualEqual, src.subrange(pos as int, pos as int + 2), line)],
                    scan_from(src, pos + 2, line),
                )
            } else {
                prepend_toks(
                    seq![plain_tok(TokenType::Equal, src.subrange(pos as int, pos as int + 1), line)],
                    scan_from(src, pos + 1, line),
                )
            }
        } else if c == '<' {
            if pos + 1 < src.len() && src[(pos + 1) as int] == '=' {
                prepend_toks(
                    seq![plain_tok(TokenType::LessEqual, src.subrange(pos as int, pos as int + 2), line)],
                    scan_from(src, pos + 2, line),
                )
            } else {
                prepend_toks(
                    seq![plain_tok(TokenType::Less, src.subrange(pos as int, pos as int + 1), line)],
                    scan_from(src, pos + 1, line),
                )
            }
        } else if c == '>' {
            if pos + 1 < src.len() && src[(pos + 1) as int] == '=' {
                prepend_toks(
                    seq![
                        plain_tok(TokenType::GreaterEqual, src.subrange(pos as int, pos as int + 2), line)
                    ],
                    scan_from(src, pos + 2, line),
                )
            } else {
                prepend_toks(
                    seq![plain_tok(TokenType::Greater, src.subrange(pos as int, pos as int + 1), line)],
                    scan_from(src, pos + 1, line),
                )
            }
        } else if c == '"' {
            match string_scan(src, pos + 1, line) {
                Err(l2) => Err(err_view(l2, ErrorType::LexingError, "Unterminated string"@)),
                Ok((e, l2)) => prepend_toks(
                    seq![
                        TokenView {
                            ttype: TokenType::String,
                            lexeme: src.subrange(pos as int, e as int),
                            literal: Val::Str(src.subrange(pos as int + 1, e as int - 1)),
                            line: l2,
                        }
                    ],
                    scan_from(src, e, l2),
                ),
            }
        } else if is_digit(c) {
            let e = number_end(src, pos);
            prepend_toks(
                seq![
                    TokenView {
                        ttype: TokenType::Number,
                        lexeme: src.subrange(pos as int, e as int),
                        literal: Val::Num(number_of(src.subrange(pos as int, e as int))),
                        line,
                    }
                ],
                scan_from(src, e, line),
            )
        } else if is_alpha(c) {
            let e = ident_end(src, pos);
            prepend_toks(
                seq![
                    plain_tok(
                        keyword_kind(src.subrange(pos as int, e as int)),
                        src.subrange(pos as int, e as int),
                        line,
                    )
                ],
                scan_from(src, e, line),
            )
        } else {
            Err(err_view(line, ErrorType::LexingError, "Invalid character"@))
        }
    }
}

#[via_fn]
proof fn scan_from_dec(src: Seq<char>, pos: nat, line: nat) {
    if pos < src.len() {
        lemma_line_comment_end(src, pos + 2);
        lemma_block_comment_scan(src, pos + 2, line, 1);
        lemma_string_scan(src, pos + 1, line);
        lemma_digits_end(src, pos);
        lemma_digits_end(src, digits_end(src, pos) + 1);
        lemma_ident_end(src, pos);
    }
}

/// What scanning a whole source text yields.
pub open spec fn scan_spec(src: Seq<char>) -> Result<Seq<TokenView>, ErrView> {
    scan_from(src, 0, 1)
}

/// A successful scan always ends with exactly one end-of-input token.
#[verifier::rlimit(100)]
#[verifier::spinoff_prover]
pub proof fn lemma_scan_from_shape(src: Seq<char>, pos: nat, line: nat)
    ensures
        scan_from(src, pos, line) matches Ok(ts) ==> {
            &&& ts.len() > 0
            &&& ts[ts.len() - 1].ttype == TokenType::Eof
            &&& forall|i: int| 0 <= i < ts.len() - 1 ==> (#[trigger] ts[i].ttype) != TokenType::Eof
        },
    decreases src.len() - pos,
{
    reveal_with_fuel(scan_from, 1);
    if pos < src.len() {
        lemma_line_comment_end(src, pos + 2);
        lemma_block_comment_scan(src, pos + 2, line, 1);
        lemma_string_scan(src, pos + 1, line);
        lemma_digits_end(src, pos);
        lemma_digits_end(src, digits_end(src, pos) + 1);
        lemma_ident_end(src, pos);
        let c = src[pos as int];
        if c == ' ' || c == '\r' || c == '\t' {
            lemma_scan_from_shape(src, pos + 1, line);
        } else if c == '\n' {
            lemma_scan_from_shape(src, pos + 1, line + 1);
        } else if c == '/' && pos + 1 < src.len() && src[(pos + 1) as int] == '/' {
            lemma_scan_from_shape(src, line_comment_end(src, pos + 2), line);
        } else if c == '/' && pos + 1 < src.len() && src[(pos + 1) as int] == '*' {
            match block_comment_scan(src, pos + 2, line, 1) {
                Ok(r) => lemma_scan_from_shape(src, r.0, r.1),
                Err(_) => (),
            }
        } else if c == '"' {
            match string_scan(src, pos + 1, line) {
                Ok(r) => lemma_scan_from_shape(src, r.0, r.1),
                Err(_) => (),
            }
        } else if is_digit(c) {
            lemma_scan_from_shape(src, number_end(src, pos), line);
        } else if is_alpha(c) {
            lemma_scan_from_shape(src, ident_end(src, pos), line);
        } else if (c == '!' || c == '=' || c == '<' || c == '>') && pos + 1 < src.len() && src[(pos
            + 1) as int] == '=' {
            lemma_scan_from_shape(src, pos + 2, line);
        } else {
            lemma_scan_from_shape(src, pos + 1, line);
        }
    }
}

/// Scanning never fails with anything but a lexical error: an invalid
/// character, an unterminated string, or an unterminated block comment.
#[verifier::rlimit(100)]
#[verifier::spinoff_prover]
pub proof fn lemma_scan_error_is_lexing(src: Seq<char>, pos: nat, line: nat)
    ensures
        scan_from(src, pos, line) matches Err(e) ==> e.etype == ErrorType::LexingError && (e.msg
            == "Invalid character"@ || e.msg == "Unterminated string"@ || e.msg
            == "Unterminated comment"@),
    decreases src.len() - pos,
{
    reveal_with_fuel(scan_from, 1);
    if pos < src.len() {
        lemma_line_comment_end(src, pos + 2);
        lemma_block_comment_scan(src, pos + 2, line, 1);
        lemma_string_scan(src, pos + 1, line);
        lemma_digits_end(src, pos);
        lemma_digits_end(src, digits_end(src, pos) + 1);
        lemma_ident_end(src, pos);
        let c = src[pos as int];
        if c == ' ' || c == '\r' || c == '\t' {
            lemma_scan_error_is_lexing(src, pos + 1, line);
        } else if c == '\n' {
            lemma_scan_error_is_lexing(src, pos + 1, line + 1);
        } else if c == '/' && pos + 1 < src.len() && src[(pos + 1) as int] == '/' {
            lemma_scan_error_is_lexing(src, line_comment_end(src, pos + 2), line);
        } else if c == '/' && pos + 1 < src.len() && src[(pos + 1) as int] == '*' {
            match block_comment_scan(src, pos + 2, line, 1) {
                Ok(r) => lemma_scan_error_is_lexing(src, r.0, r.1),
                Err(_) => (),
            }
        } else if c == '"' {
            match string_scan(src, pos + 1, line) {
                Ok(r) => lemma_scan_error_is_lexing(src, r.0, r.1),
                Err(_) => (),
            }
        } else if is_digit(c) {
            lemma_scan_error_is_lexing(src, number_end(src, pos), line);
        } else if is_alpha(c) {
            lemma_scan_error_is_lexing(src, ident_end(src, pos), line);
        } else if (c == '!' || c == '=' || c == '<' || c == '>') && pos + 1 < src.len() && src[(pos
            + 1) as int] == '=' {
            lemma_scan_error_is_lexing(src, pos + 2, line);
        } else {
            lemma_scan_error_is_lexing(src, pos + 1, line);
        }
    }
}

/// The characters a string body ran over: everything before the closing
/// quote is quote-free, and the scan ends just past that quote.
proof fn lemma_string_scan_shape(src: Seq<char>, p: nat, line: nat)
    ensures
        string_scan(src, p, line) matches Ok(r) ==> p < r.0 <= src.len() && src[r.0 - 1] == '"'
            && (forall|i: int| p <= i < r.0 - 1 ==> (#[trigger] src[i]) != '"'),
    decreases src.len() - p,
{
    if p < src.len() && src[p as int] != '"' {
        if src[p as int] == '\n' {
            lemma_string_scan_shape(src, p + 1, line + 1);
        } else {
            lemma_string_scan_shape(src, p + 1, line);
        }
    }
}

/// A numeric literal's lexeme has the numeric shape, whole.
proof fn lemma_number_lexeme_shape(src: Seq<char>, p: nat)
    requires
        p < src.len(),
        is_digit(src[p as int]),
    ensures
        p < number_end(src, p) <= src.len(),
        is_number_lexeme(src.subrange(p as int, number_end(src, p) as int)),
{
    let d1 = digits_end(src, p);
    lemma_digits_end(src, p);
    if d1 + 1 < src.len() && src[d1 as int] == '.' && is_digit(src[(d1 + 1) as int]) {
        let b = digits_end(src, d1 + 1);
        lemma_digits_end(src, d1 + 1);
        let lex = src.subrange(p as int, b as int);
        let k = (d1 - p) as nat;
        assert(forall|i: int| 0 <= i < k ==> lex[i] == src[p + i]);
        lemma_digits_end_is(lex, 0, k);
        assert(forall|i: int| k + 1 <= i < lex.len() ==> lex[i] == src[p + i]);
        lemma_digits_end_is(lex, (k + 1) as nat, lex.len() as nat);
    } else {
        let lex = src.subrange(p as int, d1 as int);
        let k = (d1 - p) as nat;
        assert(forall|i: int| 0 <= i < k ==> lex[i] == src[p + i]);
        lemma_digits_end_is(lex, 0, k);
    }
}

/// Scanning a numeric literal's lexeme on its own reproduces a number token
/// with the same literal value, and nothing else.
pub proof fn lemma_number_lexeme_rescan(s: Seq<char>)
    requires
        is_number_lexeme(s),
    ensures
        scan_spec(s) == Ok::<_, ErrView>(
            seq![
                (TokenView {
                    ttype: TokenType::Number,
                    lexeme: s,
                    literal: Val::Num(number_of(s)),
                    line: 1,
                }),
                plain_tok(TokenType::Eof, Seq::empty(), 1),
            ],
        ),
{
    reveal_with_fuel(scan_from, 2);
    let d = digits_end(s, 0);
    lemma_digits_end(s, 0);
    if d < s.len() {
        lemma_digits_end(s, d + 1);
    }
    assert(number_end(s, 0) == s.len());
    assert(s.subrange(0, s.len() as int) =~= s);
    match scan_from(s, 0, 1) {
        Ok(ts) => {
            assert(ts =~= seq![
                (TokenView {
                    ttype: TokenType::Number,
                    lexeme: s,
                    literal: Val::Num(number_of(s)),
                    line: 1,
                }),
                plain_tok(TokenType::Eof, Seq::empty(), 1),
            ]);
        },
        Err(_) => {
            assert(false);
        },
    }
}

/// Scanning a string literal's lexeme — the quotes and the quote-free text
/// between them — on its own reproduces a string token with the same
/// literal value, and nothing else.
pub proof fn lemma_string_lexeme_rescan(s: Seq<char>)
    requires
        s.len() >= 2,
        s[0] == '"',
        s[s.len() - 1] == '"',
        forall|i: int| 0 < i < s.len() - 1 ==> (#[trigger] s[i]) != '"',
    ensures
        scan_spec(s) matches Ok(ts) && ts.len() == 2 && ts[0].ttype == TokenType::String
            && ts[0].lexeme == s && ts[0].literal == Val::Str(s.subrange(1, s.len() - 1))
            && ts[1].ttype == TokenType::Eof,
{
    reveal_with_fuel(scan_from, 2);
    lemma_string_scan_to_close(s, 1, 1);
    match string_scan(s, 1, 1) {
        Ok(r) => {
            assert(s.subrange(0, s.len() as int) =~= s);
        },
        Err(_) => {
            assert(false);
        },
    }
}

/// A string body that closes at the last character scans exactly to the end.
proof fn lemma_string_scan_to_close(src: Seq<char>, p: nat, line: nat)
    requires
        p < src.len(),
        src[src.len() - 1] == '"',
        forall|i: int| p <= i < src.len() - 1 ==> (#[trigger] src[i]) != '"',
    ensures
        string_scan(src, p, line) matches Ok(r) && r.0 == src.len(),
    decreases src.len() - p,
{
    if p < src.len() - 1 {
        if src[p as int] == '\n' {
            lemma_string_scan_to_close(src, p + 1, line + 1);
        } else {
            lemma_string_scan_to_close(src, p + 1, line);
        }
    }
}

/// Whether re-scanning this token's lexeme on its own reproduces a token of
/// the same kind with the same literal value; trivially true of tokens that
/// carry no literal.
pub open spec fn literal_rescans(t: TokenView) -> bool {
    (t.ttype == TokenType::Number || t.ttype == TokenType::String) ==> match scan_spec(t.lexeme) {
        Ok(rs) => rs.len() == 2 && rs[0].ttype == t.ttype && rs[0].lexeme == t.lexeme
            && rs[0].literal == t.literal && rs[1].ttype == TokenType::Eof,
        Err(_) => false,
    }
}

proof fn lemma_rescan_cons(t: TokenView, rest: Seq<TokenView>)
    requires
        literal_rescans(t),
        forall|i: int| 0 <= i < rest.len() ==> literal_rescans(#[trigger] rest[i]),
    ensures
        forall|i: int|
            0 <= i < (seq![t] + rest).len() ==> literal_rescans(#[trigger] (seq![t] + rest)[i]),
{
    assert forall|i: int|
        0 <= i < (seq![t] + rest).len() implies literal_rescans(
        #[trigger] (seq![t] + rest)[i],
    ) by {
        if i == 0 {
            assert((seq![t] + rest)[0] == t);
        } else {
            assert((seq![t] + rest)[i] == rest[i - 1]);
        }
    }
}

/// Re-scanning the exact source substring stored as any scanned token's
/// lexeme reproduces an equivalent literal: for each number or string token
/// of a successful scan, the lexeme alone scans to a single token of the
/// same kind with the same literal value.
#[verifier::rlimit(100)]
#[verifier::spinoff_prover]
pub proof fn lemma_scanned_literals_rescan(src: Seq<char>, pos: nat, line: nat)
    ensures
        scan_from(src, pos, line) matches Ok(ts) ==> forall|i: int|
            0 <= i < ts.len() ==> literal_rescans(#[trigger] ts[i]),
    decreases src.len() - pos,
{
    reveal_with_fuel(scan_from, 1);
    if pos < src.len() {
        lemma_line_comment_end(src, pos + 2);
        lemma_block_comment_scan(src, pos + 2, line, 1);
        lemma_string_scan(src, pos + 1, line);
        lemma_digits_end(src, pos);
        lemma_digits_end(src, digits_end(src, pos) + 1);
        lemma_ident_end(src, pos);
        let c = src[pos as int];
        if c == ' ' || c == '\r' || c == '\t' {
            lemma_scanned_literals_rescan(src, pos + 1, line);
        } else if c == '\n' {
            lemma_scanned_literals_rescan(src, pos + 1, line + 1);
        } else if c == '/' && pos + 1 < src.len() && src[(pos + 1) as int] == '/' {
            lemma_scanned_literals_rescan(src, line_comment_end(src, pos + 2), line);
        } else if c == '/' && pos + 1 < src.len() && src[(pos + 1) as int] == '*' {
            match block_comment_scan(src, pos + 2, line, 1) {
                Ok(r) => lemma_scanned_literals_rescan(src, r.0, r.1),
                Err(_) => (),
            }
        } else if c == '"' {
            match string_scan(src, pos + 1, line) {
                Ok(r) => {
                    lemma_scanned_literals_rescan(src, r.0, r.1);
                    lemma_string_scan_shape(src, pos + 1, line);
                    let e = r.0;
                    let t = TokenView {
                        ttype: TokenType::String,
                        lexeme: src.subrange(pos as int, e as int),
                        literal: Val::Str(src.subrange(pos as int + 1, e as int - 1)),
                        line: r.1,
                    };
                    assert(t.lexeme.len() >= 2);
                    assert(t.lexeme[0] == '"');
                    assert(t.lexeme[t.lexeme.len() - 1] == src[e as int - 1]);
                    assert(forall|i: int|
                        0 < i < t.lexeme.len() - 1 ==> (#[trigger] t.lexeme[i]) == src[pos + i]);
                    lemma_string_lexeme_rescan(t.lexeme);
                    assert(t.lexeme.subrange(1, t.lexeme.len() - 1) =~= src.subrange(
                        pos as int + 1,
                        e as int - 1,
                    ));
                    assert(literal_rescans(t));
                    match scan_from(src, r.0, r.1) {
                        Ok(rest) => lemma_rescan_cons(t, rest),
                        Err(_) => (),
                    }
                },
                Err(_) => (),
            }
        } else if is_digit(c) {
            let e = number_end(src, pos);
            lemma_number_lexeme_shape(src, pos);
            lemma_scanned_literals_rescan(src, e, line);
            let t = TokenView {
                ttype: TokenType::Number,
                lexeme: src.subrange(pos as int, e as int),
                literal: Val::Num(number_of(src.subrange(pos as int, e as int))),
                line,
            };
            lemma_number_lexeme_rescan(t.lexeme);
            assert(literal_rescans(t));
            match scan_from(src, e, line) {
                Ok(rest) => lemma_rescan_cons(t, rest),
                Err(_) => (),
            }
        } else if is_alpha(c) {
            lemma_scanned_literals_rescan(src, ident_end(src, pos), line);
            let e = ident_end(src, pos);
            let t = plain_tok(
                keyword_kind(src.subrange(pos as int, e as int)),
                src.subrange(pos as int, e as int),
                line,
            );
            assert(t.ttype != TokenType::Number && t.ttype != TokenType::String);
            assert(literal_rescans(t));
            match scan_from(src, e, line) {
                Ok(rest) => lemma_rescan_cons(t, rest),
                Err(_) => (),
            }
        } else if (c == '!' || c == '=' || c == '<' || c == '>') && pos + 1 < src.len() && src[(pos
            + 1) as int] == '=' {
            lemma_scanned_literals_rescan(src, pos + 2, line);
            match scan_from(src, pos + 2, line) {
                Ok(rest) => {
                    if c == '!' {
                        lemma_rescan_cons(
                            plain_tok(
                                TokenType::BangEqual,
                                src.subrange(pos as int, pos as int + 2),
                                line,
                            ),
                            rest,
                        );
                    } else if c == '=' {
                        lemma_rescan_cons(
                            plain_tok(
                                TokenType::EqualEqual,
                                src.subrange(pos as int, pos as int + 2),
                                line,
                            ),
                            rest,
                        );
                    } else if c == '<' {
                        lemma_rescan_cons(
                            plain_tok(
                                TokenType::LessEqual,
                                src.subrange(pos as int, pos as int + 2),
                                line,
                            ),
                            rest,
                        );
                    } else {
                        lemma_rescan_cons(
                            plain_tok(
                                TokenType::GreaterEqual,
                                src.subrange(pos as int, pos as int + 2),
                                line,
                            ),
                            rest,
                        );
                    }
                },
                Err(_) => (),
            }
        } else {
            lemma_scanned_literals_rescan(src, pos + 1, line);
            match scan_from(src, pos, line) {
                Ok(ts) => {
                    match scan_from(src, pos + 1, line) {
                        Ok(rest) => {
                            assert(ts.len() == rest.len() + 1);
                            assert(ts[0].ttype != TokenType::Number && ts[0].ttype
                                != TokenType::String);
                            assert forall|i: int| 0 <= i < ts.len() implies literal_rescans(
                                #[trigger] ts[i],
                            ) by {
                                if i >= 1 {
                                    assert(ts[i] == rest[i - 1]);
                                }
                            }
                        },
                        Err(_) => (),
                    }
                },
                Err(_) => (),
            }
        }
    }
}

pub struct Scanner {
    source: String,
    chars: Vec<char>,
    tokens: Vec<Token>,
    start: usize,
    current: usize,
    line: usize,
}

impl View for Scanner {
    type V = Seq<char>;

    closed spec fn view(&self) -> Seq<char> {
        self.source@
    }
}

impl Scanner {
    spec fn wf(&self) -> bool {
        &&& self.chars@ == self.source@
        &&& self.start <= self.current <= self.chars@.len()
        &&& self.chars@.len() < usize::MAX
        &&& self.line <= self.current + 1
    }

    /// A scanner that has consumed nothing yet.
    pub closed spec fn fresh(&self) -> bool {
        &&& self.wf()
        &&& self.start == 0
        &&& self.current == 0
        &&& self.line == 1
        &&& self.tokens@.len() == 0
    }

    pub fn new(source: &str) -> (r: Scanner)
        requires
            source@.len() < usize::MAX,
        ensures
            r@ == source@,
            r.fresh(),
    {
        let n = source.unicode_len();
        let mut chars: Vec<char> = Vec::new();
        let mut i: usize = 0;
        while i < n
            invariant
                n == source@.len(),
                i <= n,
                chars@.len() == i,
                forall|j: int| 0 <= j < i ==> chars@[j] == source@[j],
            decreases n - i,
        {
            chars.push(source.get_char(i));
            i = i + 1;
        }
        proof {
            assert(chars@ =~= source@);
        }
        Scanner {
            source: String::from_str(source),
            chars,
            tokens: Vec::new(),
            start: 0,
            current: 0,
            line: 1,
        }
    }

    fn is_eof(&self) -> (r: bool)
        ensures
            r == (self.chars@.len() <= self.current),
    {
        self.current >= self.chars.len()
    }

    fn advance(&mut self) -> (c: char)
        requires
            old(self).wf(),
            old(self).current < old(self).chars@.len(),
        ensures
            final(self).current == old(self).current + 1,
            final(self).source == old(self).source,
            final(self).chars == old(self).chars,
            final(self).tokens == old(self).tokens,
            final(self).start == old(self).start,
            final(self).line == old(self).line,
            final(self).wf(),
            c == final(self).chars@[old(self).current as int],
    {
        let n = self.chars.len();
        proof {
            assert(self.current < n);
        }
        let c = self.chars[self.current];
        self.current = self.current + 1;
        c
    }

    fn peek(&self) -> (c: char)
        requires
            self.wf(),
        ensures
            c == (if self.current < self.chars@.len() {
                self.chars@[self.current as int]
            } else {
                '\0'
            }),
    {
        if self.is_eof() {
            return '\0';
        }
        self.chars[self.current]
    }

    fn peek_next(&self) -> (c: char)
        requires
            self.wf(),
        ensures
            c == (if self.current + 1 < self.chars@.len() {
                self.chars@[self.current + 1]
            } else {
                '\0'
            }),
    {
        let n = self.chars.len();
        if self.current >= n {
            return '\0';
        }
        if self.current + 1 >= n {
            return '\0';
        }
        self.chars[self.current + 1]
    }

    fn does_match(&mut self, expected: char) -> (r: bool)
        requires
            old(self).wf(),
        ensures
            r == (old(self).current < old(self).chars@.len() && old(self).chars@[old(
                self,
            ).current as int] == expected),
            r ==> final(self).current == old(self).current + 1,
            r ==> final(self).source == old(self).source && final(self).chars == old(self).chars
                && final(self).tokens == old(self).tokens && final(self).start == old(self).start
                && final(self).line == old(self).line,
            !r ==> *final(self) == *old(self),
            final(self).wf(),
    {
        if self.is_eof() || self.peek() != expected {
            return false;
        }
        let n = self.chars.len();
        proof {
            assert(self.current < n);
        }
        self.current = self.current + 1;
        true
    }

    fn is_digit(&self, charecter: char) -> (r: bool)
        ensures
            r == is_digit(charecter),
    {
        charecter >= '0' && charecter <= '9'
    }

    fn is_alpha(&self, charecter: char) -> (r: bool)
        ensures
            r == is_alpha(charecter),
    {
        charecter >= 'a' && charecter <= 'z' || charecter >= 'A' && charecter <= 'Z' || charecter
            == '_'
    }

    fn is_alpha_numeric(&self, charecter: char) -> (r: bool)
        ensures
            r == is_alnum(charecter),
    {
        self.is_alpha(charecter) || self.is_digit(charecter)
    }

    /// Appends a token whose lexeme is the source from `start` to `current`.
    fn add_token(&mut self, token_type: TokenType, literal: Object)
        requires
            old(self).wf(),
        ensures
            *final(self) == (Scanner { tokens: final(self).tokens, ..*old(self) }),
            final(self).wf(),
            tokens_view(final(self).tokens@) =~= tokens_view(old(self).tokens@).push(
                TokenView {
                    ttype: token_type,
                    lexeme: old(self)@.subrange(old(self).start as int, old(self).current as int),
                    literal: literal@,
                    line: old(self).line as nat,
                },
            ),
    {
        let lexeme = String::from_str(
            self.source.as_str().substring_char(self.start, self.current),
        );
        self.tokens.push(Token::new(token_type, lexeme, literal, self.line));
        proof {
            assert(tokens_view(self.tokens@) =~= tokens_view(old(self).tokens@).push(
                self.tokens@[self.tokens@.len() - 1]@,
            ));
        }
    }

    fn add_token_without_literal(&mut self, token_type: TokenType)
        requires
            old(self).wf(),
        ensures
            *final(self) == (Scanner { tokens: final(self).tokens, ..*old(self) }),
            final(self).wf(),
            tokens_view(final(self).tokens@) =~= tokens_view(old(self).tokens@).push(
                plain_tok(
                    token_type,
                    old(self)@.subrange(old(self).start as int, old(self).current as int),
                    old(self).line as nat,
                ),
            ),
    {
        self.add_token(token_type, Object::Nil);
    }

    /// Consumes a line comment up to, but not over, the next newline.
    fn comment(&mut self)
        requires
            old(self).wf(),
        ensures
            *final(self) == (Scanner { current: final(self).current, ..*old(self) }),
            final(self).wf(),
            old(self).current <= final(self).current,
            final(self).current == line_comment_end(old(self)@, old(self).current as nat),
    {
        let ghost s0 = *self;
        while self.peek() != '\n' && !self.is_eof()
            invariant
                self.wf(),
                s0 == *old(self),
                *self == (Scanner { current: self.current, ..s0 }),
                s0.current <= self.current,
                line_comment_end(self@, s0.current as nat) == line_comment_end(
                    self@,
                    self.current as nat,
                ),
            decreases self.chars@.len() - self.current,
        {
            proof {
                assert(line_comment_end(self@, self.current as nat) == line_comment_end(
                    self@,
                    (self.current + 1) as nat,
                ));
            }
            self.advance();
        }
    }

    /// Consumes the body of a block comment, tracking its nesting depth;
    /// an unterminated comment is an error at the line it began on.
    fn multiline_comment(&mut self) -> (r: Result<(), Error>)
        requires
            old(self).wf(),
        ensures
            final(self).wf(),
            final(self).source == old(self).source,
            final(self).chars == old(self).chars,
            final(self).tokens == old(self).tokens,
            final(self).start == old(self).start,
            old(self).current <= final(self).current,
            match r {
                Ok(_) => block_comment_scan(old(self)@, old(self).current as nat, old(
                    self,
                ).line as nat, 1) == Ok::<_, ()>((final(self).current as nat, final(self).line as nat)),
                Err(e) => block_comment_scan(old(self)@, old(self).current as nat, old(
                    self,
                ).line as nat, 1) is Err && e@ == err_view(
                    old(self).line as nat,
                    ErrorType::LexingError,
                    "Unterminated comment"@,
                ),
            },
    {
        let line0 = self.line;
        let mut depth: usize = 1;
        loop
            invariant
                self.wf(),
                self.source == old(self).source,
                self.chars == old(self).chars,
                self.tokens == old(self).tokens,
                self.start == old(self).start,
                line0 == old(self).line,
                old(self).current <= self.current,
                1 <= depth,
                2 * depth <= self.current + 2 - old(self).current,
                block_comment_scan(old(self)@, old(self).current as nat, old(self).line as nat, 1)
                    == block_comment_scan(
                    self@,
                    self.current as nat,
                    self.line as nat,
                    depth as nat,
                ),
            decreases self.chars@.len() - self.current,
        {
            if self.is_eof() {
                return Err(
                    Error::new(line0, ErrorType::LexingError, "Unterminated comment"),
                );
            }
            let c = self.peek();
            if c == '*' {
                self.advance();
                if self.does_match('/') {
                    if depth == 1 {
                        return Ok(());
                    }
                    depth = depth - 1;
                }
            } else if c == '/' {
                self.advance();
                if self.does_match('*') {
                    depth = depth + 1;
                }
            } else if c == '\n' {
                self.advance();
                self.line = self.line + 1;
            } else {
                self.advance();
            }
        }
    }

    /// Scans an identifier or reserved word; the first character has been
    /// consumed already.
    fn make_identifier(&mut self)
        requires
            old(self).wf(),
            old(self).start + 1 == old(self).current,
            is_alpha(old(self)@[old(self).start as int]),
        ensures
            final(self).wf(),
            final(self).source == old(self).source,
            final(self).chars == old(self).chars,
            final(self).start == old(self).start,
            final(self).line == old(self).line,
            old(self).start < final(self).current,
            final(self).current == ident_end(old(self)@, old(self).start as nat),
            tokens_view(final(self).tokens@) =~= tokens_view(old(self).tokens@).push(
                plain_tok(
                    keyword_kind(
                        old(self)@.subrange(
                            old(self).start as int,
                            ident_end(old(self)@, old(self).start as nat) as int,
                        ),
                    ),
                    old(self)@.subrange(
                        old(self).start as int,
                        ident_end(old(self)@, old(self).start as nat) as int,
                    ),
                    old(self).line as nat,
                ),
            ),
    {
        proof {
            assert(ident_end(self@, self.start as nat) == ident_end(self@, self.current as nat));
        }
        while self.is_alpha_numeric(self.peek())
            invariant
                self.wf(),
                *self == (Scanner { current: self.current, ..*old(self) }),
                self.start < self.current,
                ident_end(self@, self.start as nat) == ident_end(self@, self.current as nat),
            decreases self.chars@.len() - self.current,
        {
            self.advance();
        }
        let identifier = String::from_str(
            self.source.as_str().substring_char(self.start, self.current),
        );
        if identifier == String::from_str("and") {
            self.add_token_without_literal(TokenType::And);
        } else if identifier == String::from_str("class") {
            self.add_token_without_literal(TokenType::Class);
        } else if identifier == String::from_str("else") {
            self.add_token_without_literal(TokenType::Else);
        } else if identifier == String::from_str("false") {
            self.add_token_without_literal(TokenType::False);
        } else if identifier == String::from_str("for") {
            self.add_token_without_literal(TokenType::For);
        } else if identifier == String::from_str("fun") {
            self.add_token_without_literal(TokenType::Fun);
        } else if identifier == String::from_str("nil") {
            self.add_token_without_literal(TokenType::Nil);
        } else if identifier == String::from_str("if") {
            self.add_token_without_literal(TokenType::If);
        } else if identifier == String::from_str("or") {
            self.add_token_without_literal(TokenType::Or);
        } else if identifier == String::from_str("print") {
            self.add_token_without_literal(TokenType::Print);
        } else if identifier == String::from_str("return") {
            self.add_token_without_literal(TokenType::Return);
        } else if identifier == String::from_str("super") {
            self.add_token_without_literal(TokenType::Super);
        } else if identifier == String::from_str("this") {
            self.add_token_without_literal(TokenType::This);
        } else if identifier == String::from_str("true") {
            self.add_token_without_literal(TokenType::True);
        } else if identifier == String::from_str("var") {
            self.add_token_without_literal(TokenType::Var);
        } else if identifier == String::from_str("while") {
            self.add_token_without_literal(TokenType::While);
        } else {
            self.add_token_without_literal(TokenType::Identifier);
        }
    }

    /// Scans a numeric literal; the first digit has been consumed already.
    fn make_number(&mut self)
        requires
            old(self).wf(),
            old(self).start + 1 == old(self).current,
            is_digit(old(self)@[old(self).start as int]),
        ensures
            final(self).wf(),
            final(self).source == old(self).source,
            final(self).chars == old(self).chars,
            final(self).start == old(self).start,
            final(self).line == old(self).line,
            old(self).start < final(self).current,
            final(self).current == number_end(old(self)@, old(self).start as nat),
            tokens_view(final(self).tokens@) =~= tokens_view(old(self).tokens@).push(
                (TokenView {
                    ttype: TokenType::Number,
                    lexeme: old(self)@.subrange(
                        old(self).start as int,
                        number_end(old(self)@, old(self).start as nat) as int,
                    ),
                    literal: Val::Num(
                        number_of(
                            old(self)@.subrange(
                                old(self).start as int,
                                number_end(old(self)@, old(self).start as nat) as int,
                            ),
                        ),
                    ),
                    line: old(self).line as nat,
                }),
            ),
    {
        proof {
            assert(digits_end(self@, self.start as nat) == digits_end(self@, self.current as nat));
        }
        while self.is_digit(self.peek())
            invariant
                self.wf(),
                *self == (Scanner { current: self.current, ..*old(self) }),
                self.start < self.current,
                digits_end(self@, self.start as nat) == digits_end(self@, self.current as nat),
            decreases self.chars@.len() - self.current,
        {
            self.advance();
        }
        let ghost d1 = digits_end(self@, self.start as nat);
        proof {
            lemma_digits_end(self@, self.start as nat);
        }
        let c = self.peek();
        let cn = self.peek_next();
        if c == '.' && self.is_digit(cn) {
            self.advance();
            proof {
                assert(digits_end(self@, d1 + 1) == digits_end(self@, self.current as nat));
            }
            while self.is_digit(self.peek())
                invariant
                    self.wf(),
                    *self == (Scanner { current: self.current, ..*old(self) }),
                    self.start < self.current,
                    d1 == digits_end(self@, self.start as nat),
                    d1 + 1 < self.chars@.len(),
                    self.chars@[d1 as int] == '.',
                    is_digit(self.chars@[(d1 + 1) as int]),
                    digits_end(self@, d1 + 1) == digits_end(self@, self.current as nat),
                decreases self.chars@.len() - self.current,
            {
                self.advance();
            }
            proof {
                lemma_digits_end(self@, self.start as nat);
                lemma_digits_end(self@, d1 + 1);
                let src = self@;
                let a = self.start as int;
                let b = self.current as int;
                let lex = src.subrange(a, b);
                let k = (d1 - a) as nat;
                assert(b == digits_end(src, d1 + 1));
                assert(d1 + 2 <= b);
                assert(1 <= k < lex.len());
                assert(forall|i: int| 0 <= i < k ==> lex[i] == src[a + i]);
                lemma_digits_end_is(lex, 0, k);
                assert(k + 1 < lex.len());
                assert(forall|i: int| k + 1 <= i < lex.len() ==> lex[i] == src[a + i]);
                lemma_digits_end_is(lex, (k + 1) as nat, lex.len() as nat);
                assert(is_number_lexeme(lex));
                assert(self.current as nat == number_end(src, self.start as nat));
            }
        } else {
            proof {
                lemma_digits_end(self@, self.start as nat);
                let src = self@;
                let a = self.start as int;
                let lex = src.subrange(a, self.current as int);
                let k = (d1 - a) as nat;
                assert(self.current as nat == d1);
                assert(1 <= k == lex.len());
                assert(forall|i: int| 0 <= i < k ==> lex[i] == src[a + i]);
                lemma_digits_end_is(lex, 0, k);
                assert(is_number_lexeme(lex));
                assert(!(d1 + 1 < src.len() && src[d1 as int] == '.' && is_digit(
                    src[(d1 + 1) as int],
                )));
                assert(self.current as nat == number_end(src, self.start as nat));
            }
        }
        let text = self.source.as_str().substring_char(self.start, self.current);
        let literal = num_from_text(text);
        self.add_token(TokenType::Number, Object::Number(literal));
    }

    /// Scans a string literal; the opening quote has been consumed already.
    /// The token's lexeme keeps both quotes; its literal value is the text
    /// between them. An unterminated string is an error at the line the end
    /// of input was reached on.
    fn make_string(&mut self) -> (r: Result<(), Error>)
        requires
            old(self).wf(),
            old(self).start + 1 == old(self).current,
        ensures
            final(self).wf(),
            final(self).source == old(self).source,
            final(self).chars == old(self).chars,
            final(self).start == old(self).start,
            old(self).current <= final(self).current,
            match r {
                Ok(_) => ({
                    let sc = string_scan(old(self)@, old(self).current as nat, old(
                        self,
                    ).line as nat);
                    &&& sc == Ok::<_, nat>((final(self).current as nat, final(self).line as nat))
                    &&& tokens_view(final(self).tokens@) =~= tokens_view(old(self).tokens@).push(
                        (TokenView {
                            ttype: TokenType::String,
                            lexeme: old(self)@.subrange(
                                old(self).start as int,
                                final(self).current as int,
                            ),
                            literal: Val::Str(
                                old(self)@.subrange(old(self).start + 1, final(self).current - 1),
                            ),
                            line: final(self).line as nat,
                        }),
                    )
                }),
                Err(e) => ({
                    &&& string_scan(old(self)@, old(self).current as nat, old(self).line as nat)
                        == Err::<(nat, nat), _>(final(self).line as nat)
                    &&& final(self).tokens == old(self).tokens
                    &&& e@ == err_view(
                        final(self).line as nat,
                        ErrorType::LexingError,
                        "Unterminated string"@,
                    )
                }),
            },
    {
        while self.peek() != '"' && !self.is_eof()
            invariant
                self.wf(),
                self.source == old(self).source,
                self.chars == old(self).chars,
                self.tokens == old(self).tokens,
                self.start == old(self).start,
                self.start < self.current,
                old(self).current <= self.current,
                string_scan(self@, old(self).current as nat, old(self).line as nat) == string_scan(
                    self@,
                    self.current as nat,
                    self.line as nat,
                ),
            decreases self.chars@.len() - self.current,
        {
            let c = self.peek();
            self.advance();
            if c == '\n' {
                self.line = self.line + 1;
            }
        }
        if self.is_eof() {
            return Err(Error::new(self.line, ErrorType::LexingError, "Unterminated string"));
        }
        proof {
            assert(string_scan(self@, self.current as nat, self.line as nat) == Ok::<_, nat>(
                ((self.current + 1) as nat, self.line as nat),
            ));
        }
        self.advance();
        let literal = Object::String(
            String::from_str(self.source.as_str().substring_char(self.start + 1, self.current - 1)),
        );
        self.add_token(TokenType::String, literal);
        Ok(())
    }

    /// Scans one token (or skips whitespace or a comment) from the current
    /// offset; the tokens it appends and the offset and line it reaches are
    /// exactly one step of `scan_from`.
    fn scan_token(&mut self) -> (r: Result<(), Error>)
        requires
            old(self).wf(),
            old(self).start == old(self).current,
            old(self).current < old(self).chars@.len(),
        ensures
            final(self).wf(),
            final(self).source == old(self).source,
            final(self).chars == old(self).chars,
            match r {
                Ok(_) => ({
                    &&& old(self).current < final(self).current
                    &&& old(self).tokens@.len() <= final(self).tokens@.len()
                    &&& tokens_view(old(self).tokens@) =~= tokens_view(final(self).tokens@).take(
                        old(self).tokens@.len() as int,
                    )
                    &&& scan_from(old(self)@, old(self).current as nat, old(self).line as nat)
                        == prepend_toks(
                        tokens_view(final(self).tokens@).skip(old(self).tokens@.len() as int),
                        scan_from(final(self)@, final(self).current as nat, final(self).line as nat),
                    )
                }),
                Err(e) => scan_from(old(self)@, old(self).current as nat, old(self).line as nat)
                    == Err::<Seq<TokenView>, _>(e@),
            },
    {
        proof {
            reveal_with_fuel(scan_from, 1);
        }
        let ghost s0 = *self;
        let current_charecter = self.advance();
        match current_charecter {
            ' ' | '\r' | '\t' => {
                proof {
                    lemma_step_none(
                        s0@,
                        s0.current as nat,
                        s0.line as nat,
                        tokens_view(self.tokens@),
                        self.current as nat,
                        self.line as nat,
                    );
                }
                return Ok(());
            },
            '\n' => {
                self.line = self.line + 1;
                proof {
                    lemma_step_none(
                        s0@,
                        s0.current as nat,
                        s0.line as nat,
                        tokens_view(self.tokens@),
                        self.current as nat,
                        self.line as nat,
                    );
                }
                return Ok(());
            },
            '(' => {
                self.add_token_without_literal(TokenType::LeftParen);
                proof {
                    self.step_one_token(s0, TokenType::LeftParen, 1);
                }
            },
            ')' => {
                self.add_token_without_literal(TokenType::RightParen);
                proof {
                    self.step_one_token(s0, TokenType::RightParen, 1);
                }
            },
            '{' => {
                self.add_token_without_literal(TokenType::LeftBrace);
                proof {
                    self.step_one_token(s0, TokenType::LeftBrace, 1);
                }
            },
            '}' => {
                self.add_token_without_literal(TokenType::RightBrace);
                proof {
                    self.step_one_token(s0, TokenType::RightBrace, 1);
                }
            },
            ';' => {
                self.add_token_without_literal(TokenType::Semicolon);
                proof {
                    self.step_one_token(s0, TokenType::Semicolon, 1);
                }
            },
            ',' => {
                self.add_token_without_literal(TokenType::Comma);
                proof {
                    self.step_one_token(s0, TokenType::Comma, 1);
                }
            },
            '.' => {
                self.add_token_without_literal(TokenType::Dot);
                proof {
                    self.step_one_token(s0, TokenType::Dot, 1);
                }
            },
            '+' => {
                self.add_token_without_literal(TokenType::Plus);
                proof {
                    self.step_one_token(s0, TokenType::Plus, 1);
                }
            },
            '-' => {
                self.add_token_without_literal(TokenType::Minus);
                proof {
                    self.step_one_token(s0, TokenType::Minus, 1);
                }
            },
            '*' => {
                self.add_token_without_literal(TokenType::Star);
                proof {
                    self.step_one_token(s0, TokenType::Star, 1);
                }
            },
            '/' => {
                if self.does_match('/') {
                    self.comment();
                    proof {
                        lemma_step_none(
                            s0@,
                            s0.current as nat,
                            s0.line as nat,
                            tokens_view(self.tokens@),
                            self.current as nat,
                            self.line as nat,
                        );
                    }
                } else if self.does_match('*') {
                    let r = self.multiline_comment();
                    match r {
                        Ok(_) => {
                            proof {
                                lemma_step_none(
                                    s0@,
                                    s0.current as nat,
                                    s0.line as nat,
                                    tokens_view(self.tokens@),
                                    self.current as nat,
                                    self.line as nat,
                                );
                            }
                        },
                        Err(e) => {
                            return Err(e);
                        },
                    }
                } else {
                    self.add_token_without_literal(TokenType::Slash);
                    proof {
                        self.step_one_token(s0, TokenType::Slash, 1);
                    }
                }
            },
            '!' => {
                if self.does_match('=') {
                    self.add_token_without_literal(TokenType::BangEqual);
                    proof {
                        self.step_one_token(s0, TokenType::BangEqual, 2);
                    }
                } else {
                    self.add_token_without_literal(TokenType::Bang);
                    proof {
                        self.step_one_token(s0, TokenType::Bang, 1);
                    }
                }
            },
            '=' => {
                if self.does_match('=') {
                    self.add_token_without_literal(TokenType::EqualEqual);
                    proof {
                        self.step_one_token(s0, TokenType::EqualEqual, 2);
                    }
                } else {
                    self.add_token_without_literal(TokenType::Equal);
                    proof {
                        self.step_one_token(s0, TokenType::Equal, 1);
                    }
                }
            },
            '<' => {
                if self.does_match('=') {
                    self.add_token_without_literal(TokenType::LessEqual);
                    proof {
                        self.step_one_token(s0, TokenType::LessEqual, 2);
                    }
                } else {
                    self.add_token_without_literal(TokenType::Less);
                    proof {
                        self.step_one_token(s0, TokenType::Less, 1);
                    }
                }
            },
            '>' => {
                if self.does_match('=') {
                    self.add_token_without_literal(TokenType::GreaterEqual);
                    proof {
                        self.step_one_token(s0, TokenType::GreaterEqual, 2);
                    }
                } else {
                    self.add_token_without_literal(TokenType::Greater);
                    proof {
                        self.step_one_token(s0, TokenType::Greater, 1);
                    }
                }
            },
            '"' => {
                let r = self.make_string();
                match r {
                    Ok(_) => {
                        proof {
                            lemma_step_one(
                                s0@,
                                s0.current as nat,
                                s0.line as nat,
                                (TokenView {
                                    ttype: TokenType::String,
                                    lexeme: s0@.subrange(s0.current as int, self.current as int),
                                    literal: Val::Str(
                                        s0@.subrange(s0.current as int + 1, self.current as int - 1),
                                    ),
                                    line: self.line as nat,
                                }),
                                tokens_view(s0.tokens@),
                                tokens_view(self.tokens@),
                                self.current as nat,
                                self.line as nat,
                            );
                        }
                    },
                    Err(e) => {
                        return Err(e);
                    },
                }
            },
            _ => {
                if self.is_digit(current_charecter) {
                    self.make_number();
                    proof {
                        let e = number_end(s0@, s0.current as nat);
                        lemma_step_one(
                            s0@,
                            s0.current as nat,
                            s0.line as nat,
                            (TokenView {
                                ttype: TokenType::Number,
                                lexeme: s0@.subrange(s0.current as int, e as int),
                                literal: Val::Num(
                                    number_of(s0@.subrange(s0.current as int, e as int)),
                                ),
                                line: s0.line as nat,
                            }),
                            tokens_view(s0.tokens@),
                            tokens_view(self.tokens@),
                            self.current as nat,
                            self.line as nat,
                        );
                    }
                } else if self.is_alpha(current_charecter) {
                    self.make_identifier();
                    proof {
                        let e = ident_end(s0@, s0.current as nat);
                        lemma_step_one(
                            s0@,
                            s0.current as nat,
                            s0.line as nat,
                            plain_tok(
                                keyword_kind(s0@.subrange(s0.current as int, e as int)),
                                s0@.subrange(s0.current as int, e as int),
                                s0.line as nat,
                            ),
                            tokens_view(s0.tokens@),
                            tokens_view(self.tokens@),
                            self.current as nat,
                            self.line as nat,
                        );
                    }
                } else {
                    return Err(
                        Error::new(self.line, ErrorType::LexingError, "Invalid character"),
                    );
                }
            },
        }
        Ok(())
    }

    /// One step that emitted a single plain token of `width` characters.
    proof fn step_one_token(&self, s0: Scanner, ttype: TokenType, width: nat)
        requires
            1 <= width <= 2,
            s0.wf(),
            s0.start == s0.current,
            s0.current + width <= s0.chars@.len(),
            self@ == s0@,
            self.line == s0.line,
            self.current == s0.current + width,
            tokens_view(self.tokens@) =~= tokens_view(s0.tokens@).push(
                plain_tok(
                    ttype,
                    s0@.subrange(s0.current as int, s0.current + width),
                    s0.line as nat,
                ),
            ),
            scan_from(s0@, s0.current as nat, s0.line as nat) == prepend_toks(
                seq![
                    plain_tok(
                        ttype,
                        s0@.subrange(s0.current as int, s0.current + width),
                        s0.line as nat,
                    )
                ],
                scan_from(s0@, (s0.current + width) as nat, s0.line as nat),
            ),
        ensures
            tokens_view(s0.tokens@) =~= tokens_view(self.tokens@).take(s0.tokens@.len() as int),
            scan_from(s0@, s0.current as nat, s0.line as nat) == prepend_toks(
                tokens_view(self.tokens@).skip(s0.tokens@.len() as int),
                scan_from(s0@, self.current as nat, self.line as nat),
            ),
    {
        lemma_step_one(
            s0@,
            s0.current as nat,
            s0.line as nat,
            plain_tok(ttype, s0@.subrange(s0.current as int, s0.current + width), s0.line as nat),
            tokens_view(s0.tokens@),
            tokens_view(self.tokens@),
            self.current as nat,
            self.line as nat,
        );
    }

    /// Scans the whole source into tokens, appending the synthetic
    /// end-of-input token, or stops at the first lexical error.
    pub fn scan_tokens(&mut self) -> (r: Result<Vec<Token>, Error>)
        requires
            old(self).fresh(),
        ensures
            match r {
                Ok(ts) => scan_spec(old(self)@) == Ok::<_, ErrView>(tokens_view(ts@)),
                Err(e) => scan_spec(old(self)@) == Err::<Seq<TokenView>, _>(e@),
            },
    {
        proof {
            reveal_with_fuel(scan_from, 1);
        }
        while !self.is_eof()
            invariant
                self.wf(),
                self.source == old(self).source,
                self.chars == old(self).chars,
                self.start == self.current,
                scan_spec(old(self)@) == prepend_toks(
                    tokens_view(self.tokens@),
                    scan_from(self@, self.current as nat, self.line as nat),
                ),
            decreases self.chars@.len() - self.current,
        {
            let ghost toks_pre = tokens_view(self.tokens@);
            let r = self.scan_token();
            match r {
                Ok(_) => {},
                Err(e) => {
                    return Err(e);
                },
            }
            proof {
                let delta = tokens_view(self.tokens@).skip(toks_pre.len() as int);
                assert(toks_pre + delta =~= tokens_view(self.tokens@));
                match scan_from(self@, self.current as nat, self.line as nat) {
                    Ok(ts) => {
                        assert(toks_pre + (delta + ts) =~= (toks_pre + delta) + ts);
                    },
                    Err(_) => {},
                }
            }
            self.start = self.current;
        }
        let ghost tvb = tokens_view(self.tokens@);
        self.add_token_without_literal(TokenType::Eof);
        proof {
            reveal_with_fuel(scan_from, 1);
            assert(self@.subrange(self.start as int, self.current as int) =~= Seq::<char>::empty());
            assert(scan_from(self@, self.current as nat, self.line as nat) == Ok::<_, ErrView>(
                seq![plain_tok(TokenType::Eof, Seq::empty(), self.line as nat)],
            ));
            assert(tvb + seq![plain_tok(TokenType::Eof, Seq::empty(), self.line as nat)]
                =~= tokens_view(self.tokens@));
            assert(scan_spec(old(self)@) == Ok::<_, ErrView>(tokens_view(self.tokens@)));
        }
        let mut result: Vec<Token> = Vec::new();
        let n = self.tokens.len();
        let mut i: usize = 0;
        while i < n
            invariant
                n == self.tokens@.len(),
                i <= n,
                result@.len() == i,
                forall|j: int| 0 <= j < i ==> result@[j] == self.tokens@[j],
            decreases n - i,
        {
            result.push(self.tokens[i].clone());
            i = i + 1;
        }
        proof {
            assert(result@ =~= self.tokens@);
        }
        Ok(result)
    }
}

} // verus!
