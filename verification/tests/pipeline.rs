//! End-to-end runs of the pipeline: scan, parse, interpret, and the text
//! the print statements produce.

use rlox::error::ErrorType;
use rlox::run;

fn output_of(source: &str) -> Vec<String> {
    let mut out: Vec<String> = Vec::new();
    let r = run(source, &mut out);
    assert!(r.is_ok(), "unexpected error on {:?}: {:?}", source, r.err());
    out
}

fn error_of(source: &str) -> (ErrorType, usize, String) {
    let mut out: Vec<String> = Vec::new();
    match run(source, &mut out) {
        Ok(()) => panic!("expected an error on {:?}", source),
        Err(e) => (e.error_type(), e.line(), e.message().to_string()),
    }
}

#[test]
fn precedence_multiplication_binds_tighter() {
    assert_eq!(output_of("print 1 + 2 * 3;"), vec!["7".to_string()]);
}

#[test]
fn precedence_grouping_overrides() {
    assert_eq!(output_of("print (1 + 2) * 3;"), vec!["9".to_string()]);
}

#[test]
fn subtraction_is_left_associative() {
    assert_eq!(output_of("print 8 - 4 - 2;"), vec!["2".to_string()]);
}

#[test]
fn division_is_left_associative() {
    assert_eq!(output_of("print 8 / 4 / 2;"), vec!["1".to_string()]);
}

#[test]
fn string_concatenation() {
    assert_eq!(output_of("print \"foo\" + \"bar\";"), vec!["foobar".to_string()]);
}

#[test]
fn string_plus_number_is_runtime_error() {
    let (kind, line, message) = error_of("print \"foo\" + 1;");
    assert_eq!(kind, ErrorType::RuntimeError);
    assert_eq!(line, 1);
    assert_eq!(message, "Operand must be either number or string");
}

#[test]
fn zero_is_truthy() {
    assert_eq!(output_of("if (0) print \"a\"; else print \"b\";"), vec!["a".to_string()]);
}

#[test]
fn empty_string_is_truthy() {
    assert_eq!(output_of("if (\"\") print \"a\"; else print \"b\";"), vec!["a".to_string()]);
}

#[test]
fn nil_is_falsy() {
    assert_eq!(output_of("if (nil) print \"a\"; else print \"b\";"), vec!["b".to_string()]);
}

#[test]
fn false_is_falsy() {
    assert_eq!(output_of("if (false) print \"a\"; else print \"b\";"), vec!["b".to_string()]);
}

#[test]
fn block_declarations_do_not_leak() {
    assert_eq!(output_of("var x = 1; { var x = 2; } print x;"), vec!["1".to_string()]);
}

#[test]
fn block_sees_enclosing_and_own_bindings() {
    assert_eq!(
        output_of("var x = 1; { print x; var y = 2; print y; } print x;"),
        vec!["1".to_string(), "2".to_string(), "1".to_string()]
    );
}

#[test]
fn redeclaration_overwrites() {
    assert_eq!(output_of("var x = 1; var x = 2; print x;"), vec!["2".to_string()]);
}

#[test]
fn declaration_without_initializer_is_nil() {
    assert_eq!(output_of("var x; print x;"), vec!["nil".to_string()]);
}

#[test]
fn undefined_variable_error_names_the_identifier() {
    let (kind, line, message) = error_of("print mystery;");
    assert_eq!(kind, ErrorType::RuntimeError);
    assert_eq!(line, 1);
    assert_eq!(message, "Undefined variable mystery");
}

#[test]
fn empty_source_runs_silently() {
    assert_eq!(output_of(""), Vec::<String>::new());
}

#[test]
fn dangling_else_binds_to_nearest_if() {
    assert_eq!(
        output_of("if (true) if (false) print \"a\"; else print \"b\";"),
        vec!["b".to_string()]
    );
}

#[test]
fn if_without_else_on_falsy_condition_is_a_no_op() {
    assert_eq!(output_of("if (false) print \"a\";"), Vec::<String>::new());
}

#[test]
fn bang_negates_truthiness() {
    assert_eq!(
        output_of("print !nil; print !0; print !!true;"),
        vec!["true".to_string(), "false".to_string(), "true".to_string()]
    );
}

#[test]
fn unary_minus_negates_numbers() {
    assert_eq!(output_of("print -5; print --5;"), vec!["-5".to_string(), "5".to_string()]);
}

#[test]
fn unary_minus_on_non_number_yields_nil() {
    assert_eq!(output_of("print -\"a\"; print -nil;"), vec!["nil".to_string(), "nil".to_string()]);
}

#[test]
fn fractional_literals_and_arithmetic() {
    assert_eq!(output_of("print 2.5 + 0.25;"), vec!["2.75".to_string()]);
}

#[test]
fn division_yields_fractions() {
    assert_eq!(output_of("print 7 / 2;"), vec!["3.5".to_string()]);
}

#[test]
fn minus_on_strings_is_runtime_error() {
    let (kind, _, message) = error_of("print \"a\" - \"b\";");
    assert_eq!(kind, ErrorType::RuntimeError);
    assert_eq!(message, "Operand must be a number");
}

#[test]
fn number_comparisons() {
    assert_eq!(
        output_of("print 1 < 2; print 2 <= 2; print 1 > 2; print 2 >= 3;"),
        vec!["true".to_string(), "true".to_string(), "false".to_string(), "false".to_string()]
    );
}

#[test]
fn string_comparisons_are_lexicographic() {
    assert_eq!(
        output_of("print \"abc\" < \"abd\"; print \"ab\" < \"abc\"; print \"b\" > \"a\";"),
        vec!["true".to_string(), "true".to_string(), "true".to_string()]
    );
}

#[test]
fn string_less_or_equal_allows_equality() {
    assert_eq!(
        output_of("print \"ab\" <= \"ab\"; print \"ab\" >= \"ab\";"),
        vec!["true".to_string(), "true".to_string()]
    );
}

#[test]
fn comparison_of_mixed_kinds_is_runtime_error() {
    let (kind, _, message) = error_of("print 1 < \"a\";");
    assert_eq!(kind, ErrorType::RuntimeError);
    assert_eq!(message, "Operand must be either number or string");
}

#[test]
fn equality_is_structural_across_kinds() {
    assert_eq!(
        output_of("print 1 == \"1\"; print nil == false; print nil == nil; print 1 != 2;"),
        vec![
            "false".to_string(),
            "false".to_string(),
            "true".to_string(),
            "true".to_string()
        ]
    );
}

#[test]
fn negative_zero_equals_zero() {
    assert_eq!(output_of("print -0 == 0;"), vec!["true".to_string()]);
}

#[test]
fn zero_over_zero_is_not_equal_to_itself() {
    assert_eq!(output_of("print 0 / 0 == 0 / 0;"), vec!["false".to_string()]);
}

#[test]
fn comments_are_skipped() {
    assert_eq!(
        output_of("// nothing\nprint 1; /* a /* nested */ comment */ print 2;"),
        vec!["1".to_string(), "2".to_string()]
    );
}

#[test]
fn condition_is_evaluated_once_and_errors_propagate() {
    let (kind, _, message) = error_of("if (missing) print 1;");
    assert_eq!(kind, ErrorType::RuntimeError);
    assert_eq!(message, "Undefined variable missing");
}

#[test]
fn output_before_a_runtime_error_is_kept() {
    let mut out: Vec<String> = Vec::new();
    let r = run("print 1; print missing; print 2;", &mut out);
    assert!(r.is_err());
    assert_eq!(out, vec!["1".to_string()]);
}

#[test]
fn variables_assign_evaluated_initializers() {
    assert_eq!(
        output_of("var a = 2 * 3 + 1; var b = a * 2; print b;"),
        vec!["14".to_string()]
    );
}

#[test]
fn multi_line_program_reports_error_line() {
    let (kind, line, _) = error_of("print 1;\nprint 2;\nprint missing;");
    assert_eq!(kind, ErrorType::RuntimeError);
    assert_eq!(line, 3);
}
