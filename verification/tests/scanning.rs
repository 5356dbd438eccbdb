use rlox::lox::Lox;
use rlox::scanner::Scanner;
use rlox::token::{Literal, Token, TokenType};

fn scan(source: &str) -> (Vec<Token>, Vec<String>, bool) {
    let mut lox = Lox::new();
    let mut scanner = Scanner::new(source);
    let tokens = scanner.scan_tokens(&mut lox);
    let diags = lox.take_diagnostics();
    (tokens, diags, lox.had_error)
}

#[test]
fn scans_integer_literal() {
    let (tokens, diags, had_error) = scan("123");
    assert_eq!(tokens.len(), 2);
    assert_eq!(tokens[0].kind, TokenType::Number);
    assert_eq!(tokens[0].lexeme, "123");
    assert!(matches!(tokens[0].literal, Some(Literal::Number(bits)) if bits == 123f64.to_bits()));
    assert_eq!(tokens[0].line, 1);
    assert_eq!(tokens[1].kind, TokenType::Eof);
    assert!(diags.is_empty());
    assert!(!had_error);
}

#[test]
fn scans_fractional_literal() {
    let (tokens, diags, _) = scan("123.45");
    assert_eq!(tokens.len(), 2);
    assert_eq!(tokens[0].kind, TokenType::Number);
    assert_eq!(tokens[0].lexeme, "123.45");
    assert!(matches!(tokens[0].literal, Some(Literal::Number(bits)) if bits == 123.45f64.to_bits()));
    assert!(diags.is_empty());
}

#[test]
fn trailing_dot_is_not_part_of_number() {
    let (tokens, _, _) = scan("7.");
    assert_eq!(tokens.len(), 3);
    assert_eq!(tokens[0].kind, TokenType::Number);
    assert_eq!(tokens[0].lexeme, "7");
    assert_eq!(tokens[1].kind, TokenType::Dot);
    assert_eq!(tokens[2].kind, TokenType::Eof);
}

#[test]
fn second_dot_starts_a_new_token() {
    let (tokens, _, _) = scan("1.2.3");
    let kinds: Vec<TokenType> = tokens.iter().map(|t| t.kind).collect();
    assert_eq!(
        kinds,
        vec![TokenType::Number, TokenType::Dot, TokenType::Number, TokenType::Eof]
    );
    assert_eq!(tokens[0].lexeme, "1.2");
    assert!(matches!(tokens[0].literal, Some(Literal::Number(bits)) if bits == 1.2f64.to_bits()));
}

#[test]
fn scans_string_literal_with_quotes_stripped() {
    let (tokens, diags, had_error) = scan("\"abc\"");
    assert_eq!(tokens.len(), 2);
    assert_eq!(tokens[0].kind, TokenType::String);
    assert_eq!(tokens[0].lexeme, "\"abc\"");
    assert!(matches!(&tokens[0].literal, Some(Literal::Str(s)) if s == "abc"));
    assert!(diags.is_empty());
    assert!(!had_error);
}

#[test]
fn scans_multibyte_string() {
    let (tokens, diags, _) = scan("\"héllo\"");
    assert!(matches!(&tokens[0].literal, Some(Literal::Str(s)) if s == "héllo"));
    assert!(diags.is_empty());
}

#[test]
fn string_with_newline_counts_lines() {
    let (tokens, _, _) = scan("\"a\nb\"");
    assert_eq!(tokens[0].kind, TokenType::String);
    assert_eq!(tokens[0].line, 2);
    assert_eq!(tokens[1].line, 2);
}

#[test]
fn unterminated_string_reports_error_and_emits_no_token() {
    let (tokens, diags, had_error) = scan("\"abc");
    assert_eq!(tokens.len(), 1);
    assert_eq!(tokens[0].kind, TokenType::Eof);
    assert_eq!(diags, vec!["[line 1] Error: Unterminated string.".to_string()]);
    assert!(had_error);
}

#[test]
fn single_punctuation_yields_two_tokens() {
    let cases = [
        ("(", TokenType::LeftParen),
        (")", TokenType::RightParen),
        ("{", TokenType::LeftBrace),
        ("}", TokenType::RightBrace),
        (",", TokenType::Comma),
        (".", TokenType::Dot),
        ("-", TokenType::Minus),
        ("+", TokenType::Plus),
        (";", TokenType::Semicolon),
        ("*", TokenType::Star),
    ];
    for (text, kind) in cases {
        let (tokens, diags, had_error) = scan(text);
        assert_eq!(tokens.len(), 2, "input {:?}", text);
        assert_eq!(tokens[0].kind, kind, "input {:?}", text);
        assert_eq!(tokens[0].lexeme, text);
        assert_eq!(tokens[1].kind, TokenType::Eof);
        assert!(diags.is_empty());
        assert!(!had_error);
    }
}

#[test]
fn one_and_two_character_operators() {
    let (tokens, _, _) = scan("! != = == < <= > >= /");
    let kinds: Vec<TokenType> = tokens.iter().map(|t| t.kind).collect();
    assert_eq!(
        kinds,
        vec![
            TokenType::Bang,
            TokenType::BangEqual,
            TokenType::Equal,
            TokenType::EqualEqual,
            TokenType::Less,
            TokenType::LessEqual,
            TokenType::Greater,
            TokenType::GreaterEqual,
            TokenType::Slash,
            TokenType::Eof,
        ]
    );
}

#[test]
fn comment_is_discarded_to_end_of_line() {
    let (tokens, diags, _) = scan("// a comment\n42");
    assert_eq!(tokens.len(), 2);
    assert_eq!(tokens[0].kind, TokenType::Number);
    assert_eq!(tokens[0].line, 2);
    assert!(diags.is_empty());
}

#[test]
fn keywords_and_identifiers() {
    let (tokens, _, _) = scan("and class else false fun for if nil or print return super this true var while foo print7");
    let kinds: Vec<TokenType> = tokens.iter().map(|t| t.kind).collect();
    assert_eq!(
        kinds,
        vec![
            TokenType::And,
            TokenType::Class,
            TokenType::Else,
            TokenType::False,
            TokenType::Fun,
            TokenType::For,
            TokenType::If,
            TokenType::Nil,
            TokenType::Or,
            TokenType::Print,
            TokenType::Return,
            TokenType::Super,
            TokenType::This,
            TokenType::True,
            TokenType::Var,
            TokenType::While,
            TokenType::Identifier,
            TokenType::Identifier,
            TokenType::Eof,
        ]
    );
}

#[test]
fn unexpected_character_is_reported_and_skipped() {
    let (tokens, diags, had_error) = scan("@");
    assert_eq!(tokens.len(), 1);
    assert_eq!(tokens[0].kind, TokenType::Eof);
    assert_eq!(diags, vec!["[line 1] Error: Unexpected character".to_string()]);
    assert!(had_error);
}

#[test]
fn unexpected_character_on_later_line() {
    let (_, diags, _) = scan("\n\n@");
    assert_eq!(diags, vec!["[line 3] Error: Unexpected character".to_string()]);
}

#[test]
fn errors_do_not_abort_the_scan() {
    let (tokens, diags, _) = scan("@ 1 @ 2");
    assert_eq!(diags.len(), 2);
    let kinds: Vec<TokenType> = tokens.iter().map(|t| t.kind).collect();
    assert_eq!(kinds, vec![TokenType::Number, TokenType::Number, TokenType::Eof]);
}
