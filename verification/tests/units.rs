//! The stages one by one: scanner output, parser structure, the binding
//! store, and runtime values.

use rlox::environment::Environment;
use rlox::expression::Expression;
use rlox::object::Object;
use rlox::parser::Parser;
use rlox::scanner::Scanner;
use rlox::statement::Statement;
use rlox::token::{ttype_name, Token, TokenType};

fn scan(source: &str) -> Vec<Token> {
    let mut scanner = Scanner::new(source);
    match scanner.scan_tokens() {
        Ok(ts) => ts,
        Err(e) => panic!("unexpected lex error on {:?}: {:?}", source, e),
    }
}

fn kinds(tokens: &Vec<Token>) -> Vec<TokenType> {
    tokens.iter().map(|t| t.ttype).collect()
}

#[test]
fn scanner_always_appends_an_eof_token() {
    let ts = scan("");
    assert_eq!(ts.len(), 1);
    assert_eq!(ts[0].ttype, TokenType::Eof);
    assert_eq!(ts[0].lexeme, "");
    assert_eq!(ts[0].line, 1);
}

#[test]
fn scanner_kinds_for_punctuation_and_operators() {
    let ts = scan("(){};,.+-*/! = < > == != <= >=");
    assert_eq!(
        kinds(&ts),
        vec![
            TokenType::LeftParen,
            TokenType::RightParen,
            TokenType::LeftBrace,
            TokenType::RightBrace,
            TokenType::Semicolon,
            TokenType::Comma,
            TokenType::Dot,
            TokenType::Plus,
            TokenType::Minus,
            TokenType::Star,
            TokenType::Slash,
            TokenType::Bang,
            TokenType::Equal,
            TokenType::Less,
            TokenType::Greater,
            TokenType::EqualEqual,
            TokenType::BangEqual,
            TokenType::LessEqual,
            TokenType::GreaterEqual,
            TokenType::Eof,
        ]
    );
}

#[test]
fn scanner_greedily_matches_two_character_operators() {
    let ts = scan("===");
    assert_eq!(kinds(&ts), vec![TokenType::EqualEqual, TokenType::Equal, TokenType::Eof]);
}

#[test]
fn scanner_recognizes_every_reserved_word() {
    let ts = scan("and class else false for fun nil if or print return super this true var while");
    assert_eq!(
        kinds(&ts),
        vec![
            TokenType::And,
            TokenType::Class,
            TokenType::Else,
            TokenType::False,
            TokenType::For,
            TokenType::Fun,
            TokenType::Nil,
            TokenType::If,
            TokenType::Or,
            TokenType::Print,
            TokenType::Return,
            TokenType::Super,
            TokenType::This,
            TokenType::True,
            TokenType::Var,
            TokenType::While,
            TokenType::Eof,
        ]
    );
}

#[test]
fn identifiers_may_hold_keywords_as_prefixes() {
    let ts = scan("vara _x x1 printx");
    assert_eq!(
        kinds(&ts),
        vec![
            TokenType::Identifier,
            TokenType::Identifier,
            TokenType::Identifier,
            TokenType::Identifier,
            TokenType::Eof,
        ]
    );
    assert_eq!(ts[0].lexeme, "vara");
    assert_eq!(ts[1].lexeme, "_x");
}

#[test]
fn number_tokens_carry_their_value_and_exact_lexeme() {
    let ts = scan("42 12.5 007");
    assert_eq!(ts[0].lexeme, "42");
    assert!(matches!(ts[0].literal, Object::Number(b) if b == 42.0f64.to_bits()));
    assert_eq!(ts[1].lexeme, "12.5");
    assert!(matches!(ts[1].literal, Object::Number(b) if b == 12.5f64.to_bits()));
    assert_eq!(ts[2].lexeme, "007");
    assert!(matches!(ts[2].literal, Object::Number(b) if b == 7.0f64.to_bits()));
}

#[test]
fn trailing_dot_is_not_part_of_a_number() {
    let ts = scan("5.");
    assert_eq!(kinds(&ts), vec![TokenType::Number, TokenType::Dot, TokenType::Eof]);
    assert_eq!(ts[0].lexeme, "5");
}

#[test]
fn string_tokens_keep_quotes_in_the_lexeme_but_not_the_value() {
    let ts = scan("\"hi\"");
    assert_eq!(ts[0].ttype, TokenType::String);
    assert_eq!(ts[0].lexeme, "\"hi\"");
    assert!(matches!(&ts[0].literal, Object::String(s) if s == "hi"));
}

#[test]
fn newlines_inside_strings_and_comments_advance_the_line_counter() {
    let ts = scan("\"a\nb\"\n/* c\nd */ x");
    assert_eq!(ts[0].ttype, TokenType::String);
    assert_eq!(ts[0].line, 2);
    assert_eq!(ts[1].ttype, TokenType::Identifier);
    assert_eq!(ts[1].line, 4);
}

#[test]
fn rescanning_a_number_lexeme_reproduces_its_literal() {
    let ts = scan("x 12.5 \"hi\"");
    let number = &ts[1];
    assert_eq!(number.ttype, TokenType::Number);
    let again = scan(&number.lexeme);
    assert_eq!(again.len(), 2);
    assert_eq!(again[0].ttype, TokenType::Number);
    assert_eq!(again[0].lexeme, number.lexeme);
    match (&again[0].literal, &number.literal) {
        (Object::Number(a), Object::Number(b)) => assert_eq!(a, b),
        _ => panic!("expected number literals"),
    }
}

#[test]
fn rescanning_a_string_lexeme_reproduces_its_literal() {
    let ts = scan("x \"hi\" 1");
    let string = &ts[1];
    assert_eq!(string.ttype, TokenType::String);
    let again = scan(&string.lexeme);
    assert_eq!(again.len(), 2);
    assert_eq!(again[0].ttype, TokenType::String);
    assert_eq!(again[0].lexeme, string.lexeme);
    match (&again[0].literal, &string.literal) {
        (Object::String(a), Object::String(b)) => assert_eq!(a, b),
        _ => panic!("expected string literals"),
    }
}

#[test]
fn rescanning_operator_lexemes_reproduces_their_kind() {
    let ts = scan("<= == ( var");
    for token in ts.iter().take(ts.len() - 1) {
        let again = scan(&token.lexeme);
        assert_eq!(again.len(), 2);
        assert_eq!(again[0].ttype, token.ttype);
        assert_eq!(again[0].lexeme, token.lexeme);
    }
}

#[test]
fn parser_builds_a_left_leaning_binary_tree() {
    let mut parser = Parser::new(scan("8 - 4 - 2;"));
    let statements = parser.parse().unwrap();
    assert_eq!(statements.len(), 1);
    match &statements[0] {
        Statement::ExpressionStatement(s) => match &s.expression {
            Expression::Binary(outer) => {
                assert_eq!(outer.operator.ttype, TokenType::Minus);
                assert!(matches!(&*outer.left, Expression::Binary(_)));
                assert!(matches!(&*outer.right, Expression::Literal(_)));
            },
            _ => panic!("expected a binary expression"),
        },
        _ => panic!("expected an expression statement"),
    }
}

#[test]
fn parser_defaults_missing_initializers_to_nil() {
    let mut parser = Parser::new(scan("var x;"));
    let statements = parser.parse().unwrap();
    match &statements[0] {
        Statement::VariableStatement(v) => {
            assert_eq!(v.identifier.lexeme, "x");
            match &v.initializer {
                Expression::Literal(l) => assert!(matches!(l.value, Object::Nil)),
                _ => panic!("expected a literal initializer"),
            }
        },
        _ => panic!("expected a variable declaration"),
    }
}

#[test]
fn parser_attaches_else_branches() {
    let mut parser = Parser::new(scan("if (true) print 1; else print 2;"));
    let statements = parser.parse().unwrap();
    match &statements[0] {
        Statement::IfStatement(i) => assert!(i.else_branch.is_some()),
        _ => panic!("expected an if statement"),
    }
}

#[test]
fn environment_defines_and_accesses_bindings() {
    let mut env = Environment::new();
    env.define("a", Object::Number(1.0f64.to_bits()));
    let token = Token::new(TokenType::Identifier, "a".to_string(), Object::Nil, 1);
    match env.access(&token) {
        Ok(Object::Number(b)) => assert_eq!(b, 1.0f64.to_bits()),
        _ => panic!("expected the bound number"),
    }
}

#[test]
fn environment_access_of_absent_name_is_an_error() {
    let env = Environment::new();
    let token = Token::new(TokenType::Identifier, "ghost".to_string(), Object::Nil, 9);
    match env.access(&token) {
        Ok(_) => panic!("expected an error"),
        Err(e) => {
            assert_eq!(e.error_type(), rlox::error::ErrorType::RuntimeError);
            assert_eq!(e.line(), 9);
            assert_eq!(e.message(), "Undefined variable ghost");
        },
    }
}

#[test]
fn environment_clone_is_independent() {
    let mut env = Environment::new();
    env.define("a", Object::Number(1.0f64.to_bits()));
    let mut copy = env.clone();
    copy.define("a", Object::Number(2.0f64.to_bits()));
    let token = Token::new(TokenType::Identifier, "a".to_string(), Object::Nil, 1);
    match env.access(&token) {
        Ok(Object::Number(b)) => assert_eq!(b, 1.0f64.to_bits()),
        _ => panic!("expected the original binding"),
    }
    match copy.access(&token) {
        Ok(Object::Number(b)) => assert_eq!(b, 2.0f64.to_bits()),
        _ => panic!("expected the overwritten binding"),
    }
}

#[test]
fn object_equals_follows_value_semantics() {
    let one = Object::Number(1.0f64.to_bits());
    let neg_zero = Object::Number((-0.0f64).to_bits());
    let zero = Object::Number(0.0f64.to_bits());
    let nan = Object::Number(f64::NAN.to_bits());
    assert!(one.equals(&Object::Number(1.0f64.to_bits())));
    assert!(neg_zero.equals(&zero));
    assert!(!nan.equals(&nan));
    assert!(Object::String("a".to_string()).equals(&Object::String("a".to_string())));
    assert!(!Object::String("a".to_string()).equals(&Object::String("b".to_string())));
    assert!(!one.equals(&Object::String("1".to_string())));
    assert!(Object::Nil.equals(&Object::Nil));
    assert!(!Object::True.equals(&Object::False));
}

#[test]
fn object_display_text() {
    assert_eq!(Object::Number(7.0f64.to_bits()).to_text(), "7");
    assert_eq!(Object::Number(2.5f64.to_bits()).to_text(), "2.5");
    assert_eq!(Object::Number((-3.0f64).to_bits()).to_text(), "-3");
    assert_eq!(Object::String("hi".to_string()).to_text(), "hi");
    assert_eq!(Object::True.to_text(), "true");
    assert_eq!(Object::False.to_text(), "false");
    assert_eq!(Object::Nil.to_text(), "nil");
}

#[test]
fn token_kind_names() {
    assert_eq!(ttype_name(TokenType::LeftParen), "LeftParen");
    assert_eq!(ttype_name(TokenType::Eof), "Eof");
}
