use lox::error_handling::ErrorReporter;
use lox::scanner::Scanner;
use lox::scanner::TokenType;
use lox::scanner::TokenValue;

fn scan(src: &str) -> Scanner {
    Scanner::new(ErrorReporter::new(), src)
}

fn categories(s: &Scanner) -> Vec<TokenType> {
    s.tokens.iter().map(|t| t.token_type).collect()
}

#[test]
fn operators_comment_number_string_stream() {
    let s = scan("+ - == <= // comment\n123.45 \"hi\"");
    assert_eq!(
        categories(&s),
        vec![
            TokenType::Plus,
            TokenType::Minus,
            TokenType::EqualEqual,
            TokenType::LessEqual,
            TokenType::Number,
            TokenType::String,
            TokenType::Eof,
        ]
    );
    match &s.tokens[4].value {
        TokenValue::Number(text) => {
            assert_eq!(text.as_str(), "123.45");
            assert_eq!(text.parse::<f64>().unwrap(), 123.45);
        }
        other => panic!("expected a number literal, got {:?}", other),
    }
    match &s.tokens[5].value {
        TokenValue::String(text) => assert_eq!(text.as_str(), "hi"),
        other => panic!("expected a string literal, got {:?}", other),
    }
    assert!(!s.error_reporter.had_error);
    assert!(s.error_reporter.messages.is_empty());
}

#[test]
fn unterminated_string_reports_single_diagnostic() {
    let s = scan("\"abc");
    assert_eq!(s.error_reporter.messages.len(), 1);
    assert!(s.error_reporter.messages[0].contains("Unterminated string."));
    assert!(s.error_reporter.had_error);
    assert_eq!(categories(&s), vec![TokenType::Eof]);
}

#[test]
fn identifier_and_keyword_distinction() {
    let s = scan("classroom");
    assert_eq!(
        categories(&s),
        vec![TokenType::Identifier, TokenType::Eof]
    );
    assert_eq!(s.tokens[0].lexeme, "classroom");

    let s = scan("class");
    assert_eq!(categories(&s), vec![TokenType::Class, TokenType::Eof]);
    assert_eq!(s.tokens[0].lexeme, "class");
}

#[test]
fn multiline_string_advances_line_counter() {
    let s = scan("\"line1\nline2\"\nident");
    assert_eq!(
        categories(&s),
        vec![TokenType::String, TokenType::Identifier, TokenType::Eof]
    );
    // The string token reports the line its lexeme begins on.
    assert_eq!(s.tokens[0].line, 1);
    // The embedded newline and the one after the literal both advanced
    // the counter, so the identifier sits on line 3.
    assert_eq!(s.tokens[1].line, 3);
    assert_eq!(s.tokens[1].lexeme, "ident");
    match &s.tokens[0].value {
        TokenValue::String(text) => assert_eq!(text.as_str(), "line1\nline2"),
        other => panic!("expected a string literal, got {:?}", other),
    }
}

#[test]
fn empty_input_yields_only_eof() {
    let s = scan("");
    assert_eq!(categories(&s), vec![TokenType::Eof]);
    assert_eq!(s.tokens[0].lexeme, "");
    assert_eq!(s.tokens[0].line, 1);
    assert!(!s.error_reporter.had_error);
}

#[test]
fn whitespace_only_input_yields_only_eof() {
    let s = scan(" \t\r\n  \t");
    assert_eq!(categories(&s), vec![TokenType::Eof]);
    assert_eq!(s.tokens[0].lexeme, "");
    assert_eq!(s.tokens[0].line, 2);
    assert!(!s.error_reporter.had_error);
}

#[test]
fn eof_is_last_token_on_arbitrary_input() {
    for src in ["let x = 1;", "\"open", "@#\\", "// only a comment", "1.2.3"] {
        let s = scan(src);
        let last = s.tokens.last().expect("at least the sentinel");
        assert_eq!(last.token_type, TokenType::Eof);
        assert_eq!(last.lexeme, "");
    }
}

#[test]
fn lexemes_match_source_slices() {
    let src = "let answer = 42; // say\nprint (answer);";
    let s = scan(src);
    let expected = [
        ("let", 1),
        ("answer", 1),
        ("=", 1),
        ("42", 1),
        (";", 1),
        ("print", 2),
        ("(", 2),
        ("answer", 2),
        (")", 2),
        (";", 2),
    ];
    assert_eq!(s.tokens.len(), expected.len() + 1);
    for (tok, (lexeme, line)) in s.tokens.iter().zip(expected.iter()) {
        assert_eq!(tok.lexeme, *lexeme);
        assert_eq!(tok.line, *line);
        assert!(src.contains(*lexeme));
    }
}

#[test]
fn rescan_changes_nothing() {
    let mut s = scan("a + b");
    let before: Vec<String> = s.tokens.iter().map(|t| t.lexeme.clone()).collect();
    s.scan_tokens();
    let after: Vec<String> = s.tokens.iter().map(|t| t.lexeme.clone()).collect();
    assert_eq!(before, after);
    assert!(!s.error_reporter.had_error);
}

#[test]
fn single_character_tokens() {
    let s = scan("(){},.-+;*");
    assert_eq!(
        categories(&s),
        vec![
            TokenType::LeftParen,
            TokenType::RightParen,
            TokenType::LeftBrace,
            TokenType::RightBrace,
            TokenType::Comma,
            TokenType::Period,
            TokenType::Minus,
            TokenType::Plus,
            TokenType::Semicolon,
            TokenType::Asterisk,
            TokenType::Eof,
        ]
    );
}

#[test]
fn one_or_two_char_operators() {
    let s = scan("! != = == < <= > >=");
    assert_eq!(
        categories(&s),
        vec![
            TokenType::Bang,
            TokenType::BangEqual,
            TokenType::Equal,
            TokenType::EqualEqual,
            TokenType::Less,
            TokenType::LessEqual,
            TokenType::Greater,
            TokenType::GreaterEqual,
            TokenType::Eof,
        ]
    );
    assert_eq!(s.tokens[1].lexeme, "!=");
    assert_eq!(s.tokens[3].lexeme, "==");
}

#[test]
fn slash_token_vs_comment() {
    let s = scan("1 / 2");
    assert_eq!(
        categories(&s),
        vec![TokenType::Number, TokenType::Slash, TokenType::Number, TokenType::Eof]
    );

    let s = scan("1 // 2");
    assert_eq!(categories(&s), vec![TokenType::Number, TokenType::Eof]);
}

#[test]
fn comment_without_trailing_newline() {
    let s = scan("// nothing here");
    assert_eq!(categories(&s), vec![TokenType::Eof]);
    assert!(!s.error_reporter.had_error);
}

#[test]
fn number_trailing_dot_not_consumed() {
    let s = scan("123.");
    assert_eq!(
        categories(&s),
        vec![TokenType::Number, TokenType::Period, TokenType::Eof]
    );
    assert_eq!(s.tokens[0].lexeme, "123");
}

#[test]
fn number_with_fraction() {
    let s = scan("0.5");
    assert_eq!(categories(&s), vec![TokenType::Number, TokenType::Eof]);
    assert_eq!(s.tokens[0].lexeme, "0.5");
    match &s.tokens[0].value {
        TokenValue::Number(text) => assert_eq!(text.as_str(), "0.5"),
        other => panic!("expected a number literal, got {:?}", other),
    }
}

#[test]
fn number_second_dot_starts_new_lexemes() {
    let s = scan("1.2.3");
    assert_eq!(
        categories(&s),
        vec![TokenType::Number, TokenType::Period, TokenType::Number, TokenType::Eof]
    );
    assert_eq!(s.tokens[0].lexeme, "1.2");
    assert_eq!(s.tokens[2].lexeme, "3");
}

#[test]
fn string_literal_value_excludes_quotes() {
    let s = scan("\"hi\"");
    assert_eq!(categories(&s), vec![TokenType::String, TokenType::Eof]);
    assert_eq!(s.tokens[0].lexeme, "\"hi\"");
    match &s.tokens[0].value {
        TokenValue::String(text) => assert_eq!(text.as_str(), "hi"),
        other => panic!("expected a string literal, got {:?}", other),
    }
}

#[test]
fn unexpected_character_diagnostic() {
    let s = scan("@");
    assert_eq!(categories(&s), vec![TokenType::Eof]);
    assert!(s.error_reporter.had_error);
    assert_eq!(s.error_reporter.messages.len(), 1);
    assert_eq!(
        s.error_reporter.messages[0],
        "[line 1] Error: Unexpected character '@'."
    );
}

#[test]
fn unexpected_character_line_number() {
    let s = scan("a\n@");
    assert_eq!(
        s.error_reporter.messages,
        vec!["[line 2] Error: Unexpected character '@'.".to_owned()]
    );
}

#[test]
fn all_keywords_recognized() {
    let cases = [
        ("and", TokenType::And),
        ("class", TokenType::Class),
        ("else", TokenType::Else),
        ("false", TokenType::False),
        ("fn", TokenType::Fn),
        ("for", TokenType::For),
        ("if", TokenType::If),
        ("let", TokenType::Let),
        ("null", TokenType::Null),
        ("or", TokenType::Or),
        ("print", TokenType::Print),
        ("return", TokenType::Return),
        ("super", TokenType::Super),
        ("this", TokenType::This),
        ("true", TokenType::True),
        ("while", TokenType::While),
    ];
    for (spelling, expected) in cases {
        let s = scan(spelling);
        assert_eq!(categories(&s), vec![expected, TokenType::Eof], "{}", spelling);
        assert_eq!(s.tokens[0].lexeme, spelling);
        assert!(matches!(s.tokens[0].value, TokenValue::Empty));
    }
}

#[test]
fn underscore_in_identifiers() {
    let s = scan("_start mid_dle");
    assert_eq!(
        categories(&s),
        vec![TokenType::Identifier, TokenType::Identifier, TokenType::Eof]
    );
    assert_eq!(s.tokens[0].lexeme, "_start");
    assert_eq!(s.tokens[1].lexeme, "mid_dle");
}

#[test]
fn token_line_numbers() {
    let s = scan("a\nb\n");
    assert_eq!(s.tokens[0].line, 1);
    assert_eq!(s.tokens[1].line, 2);
    assert_eq!(s.tokens[2].token_type, TokenType::Eof);
    assert_eq!(s.tokens[2].line, 3);
}

#[test]
fn unterminated_string_line_is_end_of_input() {
    let s = scan("\"a\nb");
    assert_eq!(
        s.error_reporter.messages,
        vec!["[line 2] Error: Unterminated string.".to_owned()]
    );
    assert_eq!(categories(&s), vec![TokenType::Eof]);
}

#[test]
fn scan_folds_into_given_reporter() {
    let mut reporter = ErrorReporter::new();
    reporter.error(7, "earlier trouble");
    let s = Scanner::new(reporter, "@");
    assert!(s.error_reporter.had_error);
    assert_eq!(s.error_reporter.messages.len(), 2);
    assert_eq!(s.error_reporter.messages[0], "[line 7] Error: earlier trouble");
    assert_eq!(
        s.error_reporter.messages[1],
        "[line 1] Error: Unexpected character '@'."
    );
}

#[test]
fn display_tokens_lines() {
    let s = scan("class x \"hi\" 12");
    let lines = s.display_tokens();
    assert_eq!(
        lines,
        vec![
            "   Keyword: class".to_owned(),
            "Identifier: x".to_owned(),
            "    String: \"hi\"".to_owned(),
            "    Number: 12".to_owned(),
            "     Other: ".to_owned(),
        ]
    );
}
