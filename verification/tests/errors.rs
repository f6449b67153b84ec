//! Errors: one input for each lexical and parse failure, the line each is
//! tied to, and the formatted report.

use rlox::error::{Error, ErrorType};
use rlox::run;

fn error_of(source: &str) -> (ErrorType, usize, String) {
    let mut out: Vec<String> = Vec::new();
    match run(source, &mut out) {
        Ok(()) => panic!("expected an error on {:?}", source),
        Err(e) => (e.error_type(), e.line(), e.message().to_string()),
    }
}

#[test]
fn invalid_character_is_a_lexing_error() {
    let (kind, line, message) = error_of("print 1 @ 2;");
    assert_eq!(kind, ErrorType::LexingError);
    assert_eq!(line, 1);
    assert_eq!(message, "Invalid character");
}

#[test]
fn invalid_character_reports_its_line() {
    let (kind, line, _) = error_of("print 1;\n\n#");
    assert_eq!(kind, ErrorType::LexingError);
    assert_eq!(line, 3);
}

#[test]
fn unterminated_string_is_a_lexing_error() {
    let (kind, line, message) = error_of("print \"abc");
    assert_eq!(kind, ErrorType::LexingError);
    assert_eq!(line, 1);
    assert_eq!(message, "Unterminated string");
}

#[test]
fn unterminated_string_reports_the_line_the_input_ended_on() {
    let (kind, line, message) = error_of("print \"ab\ncd");
    assert_eq!(kind, ErrorType::LexingError);
    assert_eq!(line, 2);
    assert_eq!(message, "Unterminated string");
}

#[test]
fn unterminated_comment_is_a_lexing_error() {
    let (kind, line, message) = error_of("print 1; /* open");
    assert_eq!(kind, ErrorType::LexingError);
    assert_eq!(line, 1);
    assert_eq!(message, "Unterminated comment");
}

#[test]
fn unterminated_nested_comment_is_a_lexing_error() {
    let (kind, _, message) = error_of("/* outer /* inner */ still open");
    assert_eq!(kind, ErrorType::LexingError);
    assert_eq!(message, "Unterminated comment");
}

#[test]
fn unterminated_comment_reports_the_line_it_began_on() {
    let (kind, line, message) = error_of("print 1;\n/* open\n\n");
    assert_eq!(kind, ErrorType::LexingError);
    assert_eq!(line, 2);
    assert_eq!(message, "Unterminated comment");
}

#[test]
fn missing_semicolon_names_the_expected_token() {
    let (kind, line, message) = error_of("print 1");
    assert_eq!(kind, ErrorType::ParsingError);
    assert_eq!(line, 1);
    assert_eq!(message, "Expect ';' after value");
}

#[test]
fn missing_close_paren_names_the_expected_token() {
    let (kind, _, message) = error_of("print (1 + 2;");
    assert_eq!(kind, ErrorType::ParsingError);
    assert_eq!(message, "Expect ')' after expression");
}

#[test]
fn missing_close_brace_names_the_expected_token() {
    let (kind, _, message) = error_of("{ var x = 1;");
    assert_eq!(kind, ErrorType::ParsingError);
    assert_eq!(message, "Expect '}' after block");
}

#[test]
fn missing_paren_after_if_names_the_expected_token() {
    let (kind, _, message) = error_of("if true) print 1;");
    assert_eq!(kind, ErrorType::ParsingError);
    assert_eq!(message, "Expect '(' after 'if'");
}

#[test]
fn missing_paren_after_condition_names_the_expected_token() {
    let (kind, _, message) = error_of("if (true print 1;");
    assert_eq!(kind, ErrorType::ParsingError);
    assert_eq!(message, "Expect ')' after condition");
}

#[test]
fn var_without_identifier_is_a_parsing_error() {
    let (kind, _, message) = error_of("var = 1;");
    assert_eq!(kind, ErrorType::ParsingError);
    assert_eq!(message, "Expect identifier");
}

#[test]
fn var_without_semicolon_is_a_parsing_error() {
    let (kind, _, message) = error_of("var x = 1");
    assert_eq!(kind, ErrorType::ParsingError);
    assert_eq!(message, "Expect ';' after declaration");
}

#[test]
fn unsupported_primary_token_is_named() {
    let (kind, _, message) = error_of("print +;");
    assert_eq!(kind, ErrorType::ParsingError);
    assert_eq!(message, "Does not support 'Plus' as a primary token");
}

#[test]
fn parse_error_reports_the_current_line() {
    let (kind, line, _) = error_of("print 1;\nprint 2;\nprint (3;");
    assert_eq!(kind, ErrorType::ParsingError);
    assert_eq!(line, 3);
}

#[test]
fn report_formats_line_category_and_message() {
    let e = Error::new(3, ErrorType::ParsingError, "boom");
    assert_eq!(e.report(""), "[line 3] ParsingError: boom");
}

#[test]
fn report_renders_multi_digit_lines_and_location() {
    let e = Error::new(120, ErrorType::RuntimeError, "oops");
    assert_eq!(e.report(" at end"), "[line 120] RuntimeError at end: oops");
}

#[test]
fn error_accessors_hand_back_what_new_was_given() {
    let e = Error::new(7, ErrorType::LexingError, "msg");
    assert_eq!(e.line(), 7);
    assert_eq!(e.error_type(), ErrorType::LexingError);
    assert_eq!(e.message(), "msg");
}
