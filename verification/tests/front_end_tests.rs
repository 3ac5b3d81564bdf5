use lox::error_handling::ErrorReporter;
use lox::lox::Lox;
use lox::scanner::Token;
use lox::scanner::TokenType;
use lox::scanner::TokenValue;
use lox::syntax_tree::Expr;

#[test]
fn reporter_starts_clean() {
    let r = ErrorReporter::new();
    assert!(!r.had_error);
    assert!(r.messages.is_empty());
}

#[test]
fn report_renders_line_location_and_message() {
    let mut r = ErrorReporter::new();
    r.report(65, " at 'x'", "Unexpected token.");
    assert!(r.had_error);
    assert_eq!(r.messages, vec!["[line 65] Error at 'x': Unexpected token.".to_owned()]);
}

#[test]
fn error_renders_with_empty_location() {
    let mut r = ErrorReporter::new();
    r.error(3, "something went wrong");
    assert!(r.had_error);
    assert_eq!(r.messages, vec!["[line 3] Error: something went wrong".to_owned()]);
}

#[test]
fn report_accumulates_in_order() {
    let mut r = ErrorReporter::new();
    r.error(1, "first");
    r.error(10, "second");
    r.error(100, "third");
    assert_eq!(
        r.messages,
        vec![
            "[line 1] Error: first".to_owned(),
            "[line 10] Error: second".to_owned(),
            "[line 100] Error: third".to_owned(),
        ]
    );
}

#[test]
fn lox_starts_without_errors() {
    let lox = Lox::new();
    assert!(!lox.error_reporter.had_error);
    assert!(lox.error_reporter.messages.is_empty());
}

#[test]
fn lox_run_returns_tokens() {
    let mut lox = Lox::new();
    let tokens = lox.run("print 1;");
    let cats: Vec<TokenType> = tokens.iter().map(|t| t.token_type).collect();
    assert_eq!(
        cats,
        vec![TokenType::Print, TokenType::Number, TokenType::Semicolon, TokenType::Eof]
    );
    assert!(!lox.error_reporter.had_error);
}

#[test]
fn lox_run_accumulates_diagnostics_across_runs() {
    let mut lox = Lox::new();
    lox.run("@");
    assert!(lox.error_reporter.had_error);
    lox.run("#");
    assert_eq!(
        lox.error_reporter.messages,
        vec![
            "[line 1] Error: Unexpected character '@'.".to_owned(),
            "[line 1] Error: Unexpected character '#'.".to_owned(),
        ]
    );
    assert!(lox.error_reporter.had_error);
}

#[test]
fn lox_flag_can_be_reset_between_runs() {
    let mut lox = Lox::new();
    lox.run("@");
    assert!(lox.error_reporter.had_error);
    lox.error_reporter.had_error = false;
    lox.run("1 + 2");
    assert!(!lox.error_reporter.had_error);
}

fn token(token_type: TokenType, lexeme: &str) -> Token {
    Token { token_type, lexeme: lexeme.to_owned(), value: TokenValue::Empty, line: 0 }
}

#[test]
fn expr_renders_values() {
    let e = Expr::Value(TokenValue::String("hi".to_owned()));
    assert_eq!(e.render(), "\"hi\"");
    let e = Expr::Value(TokenValue::Number("45.67".to_owned()));
    assert_eq!(e.render(), "45.67");
    let e = Expr::Value(TokenValue::Empty);
    assert_eq!(e.render(), "null");
}

#[test]
fn expr_renders_nested_tree() {
    let tree = Expr::Binary(
        Box::new(Expr::Unary(
            token(TokenType::Minus, "-"),
            Box::new(Expr::Value(TokenValue::Number("123".to_owned()))),
        )),
        token(TokenType::Asterisk, "*"),
        Box::new(Expr::Grouping(Box::new(Expr::Value(TokenValue::Number(
            "45.67".to_owned(),
        ))))),
    );
    assert_eq!(tree.render(), "((-123) * (group 45.67))");
}
