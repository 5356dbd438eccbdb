use rlox::interpreter::Interpreter;
use rlox::lox::Lox;
use rlox::parser::Parser;
use rlox::token::{Literal, Token, TokenType};

fn run(source: &str) -> (Vec<String>, Vec<String>, bool, bool) {
    let mut lox = Lox::new();
    let out = lox.run(source);
    let diags = lox.take_diagnostics();
    (out, diags, lox.had_error, lox.had_runtime_error)
}

#[test]
fn multiplication_binds_tighter_than_addition() {
    let (out, diags, he, re) = run("print 1 + 2 * 3;");
    assert_eq!(out, vec!["7".to_string()]);
    assert!(diags.is_empty());
    assert!(!he && !re);
}

#[test]
fn grouping_overrides_precedence() {
    let (out, diags, _, _) = run("print (1 + 2) * 3;");
    assert_eq!(out, vec!["9".to_string()]);
    assert!(diags.is_empty());
}

#[test]
fn unary_minus_on_string_is_a_runtime_error() {
    let (out, diags, he, re) = run("print -\"abc\";");
    assert!(out.is_empty());
    assert_eq!(diags, vec!["Operand must be a number.\n[line 1 ]".to_string()]);
    assert!(!he);
    assert!(re);
}

#[test]
fn string_concatenation() {
    let (out, diags, _, _) = run("print \"a\" + \"b\";");
    assert_eq!(out, vec!["ab".to_string()]);
    assert!(diags.is_empty());
}

#[test]
fn integer_and_float_compare_equal() {
    let (out, _, _, _) = run("print 1 == 1.0;");
    assert_eq!(out, vec!["true".to_string()]);
}

#[test]
fn different_kinds_are_never_equal() {
    let (out, _, _, _) = run("print nil == false;");
    assert_eq!(out, vec!["false".to_string()]);
}

#[test]
fn two_malformed_statements_report_exactly_two_errors() {
    let (out, diags, he, _) = run("+ ;\n+ ;");
    assert!(out.is_empty());
    assert_eq!(diags.len(), 2);
    assert_eq!(diags[0], "[line 1] Error at '+': Expect expression.");
    assert_eq!(diags[1], "[line 2] Error at '+': Expect expression.");
    assert!(he);
}

#[test]
fn rerunning_the_same_source_gives_identical_results() {
    let source = "print 1 + 2;\nprint -\"x\";\nprint \"done\";";
    let first = run(source);
    let second = run(source);
    assert_eq!(first, second);
    assert_eq!(first.0, vec!["3".to_string(), "done".to_string()]);
}

#[test]
fn runtime_error_aborts_only_its_statement() {
    let (out, diags, _, re) = run("print 1 + 2;\nprint 1 + nil;\nprint 4;");
    assert_eq!(out, vec!["3".to_string(), "4".to_string()]);
    assert_eq!(
        diags,
        vec!["Operands must be two numbers or two strings.\n[line 2 ]".to_string()]
    );
    assert!(re);
}

#[test]
fn arithmetic_operators_on_numbers() {
    let (out, _, _, _) = run("print 8 - 3;\nprint 8 / 2;\nprint 2 * 3.5;\nprint 1 + 0.5;");
    assert_eq!(
        out,
        vec!["5".to_string(), "4".to_string(), "7".to_string(), "1.5".to_string()]
    );
}

#[test]
fn comparison_operators_on_numbers() {
    let (out, _, _, _) = run("print 1 < 2;\nprint 2 <= 1;\nprint 3 > 2;\nprint 2 >= 3;");
    assert_eq!(
        out,
        vec!["true".to_string(), "false".to_string(), "true".to_string(), "false".to_string()]
    );
}

#[test]
fn comparison_on_non_numbers_is_a_runtime_error() {
    let (out, diags, _, re) = run("print 1 < \"a\";");
    assert!(out.is_empty());
    assert_eq!(diags, vec!["Operands must be a number.\n[line 1 ]".to_string()]);
    assert!(re);
}

#[test]
fn mixed_plus_operands_are_a_runtime_error() {
    let (_, diags, _, _) = run("print 1 + \"a\";");
    assert_eq!(
        diags,
        vec!["Operands must be two numbers or two strings.\n[line 1 ]".to_string()]
    );
}

#[test]
fn truthiness_of_values() {
    let (out, _, _, _) = run("print !nil;\nprint !false;\nprint !0;\nprint !\"\";\nprint !!true;");
    assert_eq!(
        out,
        vec![
            "true".to_string(),
            "true".to_string(),
            "false".to_string(),
            "false".to_string(),
            "true".to_string(),
        ]
    );
}

#[test]
fn negation_and_nested_unary() {
    let (out, _, _, _) = run("print -3;\nprint --3;\nprint -(1 + 2);");
    assert_eq!(out, vec!["-3".to_string(), "3".to_string(), "-3".to_string()]);
}

#[test]
fn display_of_plain_values() {
    let (out, _, _, _) = run("print nil;\nprint true;\nprint false;\nprint 3.5;\nprint 2.0;");
    assert_eq!(
        out,
        vec![
            "nil".to_string(),
            "true".to_string(),
            "false".to_string(),
            "3.5".to_string(),
            "2".to_string(),
        ]
    );
}

#[test]
fn large_and_small_numbers_display_in_positional_decimal() {
    let (out, _, _, _) = run("print 100000;\nprint 123456789;\nprint 0.0001;\nprint 10000 * 10000;");
    assert_eq!(
        out,
        vec![
            "100000".to_string(),
            "123456789".to_string(),
            "0.0001".to_string(),
            "100000000".to_string(),
        ]
    );
}

#[test]
fn string_equality_by_value() {
    let (out, _, _, _) = run("print \"a\" == \"a\";\nprint \"a\" == \"b\";\nprint 1 == \"1\";\nprint 1 != 2;");
    assert_eq!(
        out,
        vec!["true".to_string(), "false".to_string(), "false".to_string(), "true".to_string()]
    );
}

#[test]
fn expression_statement_prints_nothing() {
    let (out, diags, he, re) = run("1 + 2;");
    assert!(out.is_empty());
    assert!(diags.is_empty());
    assert!(!he && !re);
}

#[test]
fn missing_semicolon_after_print_value_is_an_error() {
    let (out, diags, he, _) = run("print 1");
    assert!(out.is_empty());
    assert_eq!(diags, vec!["[line 1] Error at end: Expect ';' after value.".to_string()]);
    assert!(he);
}

#[test]
fn missing_semicolon_after_expression_is_an_error() {
    let (_, diags, he, _) = run("1 + 2");
    assert_eq!(
        diags,
        vec!["[line 1] Error at end: Expect ';' after expression.".to_string()]
    );
    assert!(he);
}

#[test]
fn missing_close_paren_is_reported_but_expression_stands() {
    let (out, diags, he, _) = run("(1 + 2;");
    assert!(out.is_empty());
    assert_eq!(
        diags,
        vec!["[line 1] Error at ';': Expect ')' after expression.".to_string()]
    );
    assert!(he);
}

#[test]
fn syntax_error_suppresses_evaluation() {
    let (out, diags, he, re) = run("print 1;\n@ print 2;");
    assert!(out.is_empty());
    assert!(he);
    assert!(!re);
    assert!(!diags.is_empty());
}

#[test]
fn clear_error_resets_only_the_syntax_flag() {
    let mut lox = Lox::new();
    let _ = lox.run("print -\"x\"; @");
    assert!(lox.had_error);
    assert!(!lox.had_runtime_error);
    lox.clear_error();
    assert!(!lox.had_error);
    let _ = lox.run("print -\"x\";");
    assert!(lox.had_runtime_error);
    assert!(!lox.had_error);
    lox.clear_error();
    assert!(lox.had_runtime_error);
}

#[test]
fn a_prior_syntax_error_suppresses_later_evaluation_until_cleared() {
    let mut lox = Lox::new();
    let _ = lox.run("@");
    assert!(lox.had_error);
    let out = lox.run("print 1;");
    assert!(out.is_empty());
    lox.clear_error();
    let out = lox.run("print 1;");
    assert_eq!(out, vec!["1".to_string()]);
}

#[test]
fn parser_and_interpreter_work_on_hand_built_tokens() {
    let tokens = vec![
        Token::new(TokenType::Print, "print".to_string(), None, 1),
        Token::new(
            TokenType::Number,
            "6".to_string(),
            Some(Literal::Number(6f64.to_bits())),
            1,
        ),
        Token::new(TokenType::Star, "*".to_string(), None, 1),
        Token::new(
            TokenType::Number,
            "7".to_string(),
            Some(Literal::Number(7f64.to_bits())),
            1,
        ),
        Token::new(TokenType::Semicolon, ";".to_string(), None, 1),
        Token::new(TokenType::Eof, "".to_string(), None, 1),
    ];
    let mut lox = Lox::new();
    let mut parser = Parser::new(tokens);
    let statements = parser.parse(&mut lox);
    assert!(!lox.had_error);
    assert_eq!(statements.len(), 1);
    let mut interpreter = Interpreter::new();
    let out = interpreter.interpret(&mut lox, &statements);
    assert_eq!(out, vec!["42".to_string()]);
    assert!(!lox.had_runtime_error);
}

#[test]
fn print_without_expression_is_an_error() {
    let (out, diags, he, _) = run("print;");
    assert!(out.is_empty());
    assert_eq!(diags, vec!["[line 1] Error at ';': Expect expression.".to_string()]);
    assert!(he);
}

#[test]
fn comparison_chains_with_equality() {
    let (out, _, _, _) = run("print 1 < 2 == true;\nprint 1 + 1.5 == 2.5;");
    assert_eq!(out, vec!["true".to_string(), "true".to_string()]);
}

#[test]
fn diagnostics_accessor_matches_takes() {
    let mut lox = Lox::new();
    let _ = lox.run("@");
    assert_eq!(lox.diagnostics().len(), 1);
    let taken = lox.take_diagnostics();
    assert_eq!(taken.len(), 1);
    assert!(lox.diagnostics().is_empty());
}
