use tinylox::token::{FixedToken, NumericLiteral, Token};
use tinylox::lexer::tokenize;
use tinylox::error::{token_index_to_column, skip_whitespace};

fn fixed_table() -> Vec<(&'static str, FixedToken)> {
    vec![
        (">=", FixedToken::GreaterEqual),
        (">", FixedToken::Greater),
        ("<=", FixedToken::LessEqual),
        ("<", FixedToken::Less),
        ("==", FixedToken::EqualEqual),
        ("=", FixedToken::Equal),
        ("!=", FixedToken::BangEqual),
        ("!", FixedToken::Bang),
        ("(", FixedToken::LeftParenthesis),
        (")", FixedToken::RightParenthesis),
        ("{", FixedToken::LeftBrace),
        ("}", FixedToken::RightBrace),
        (",", FixedToken::Comma),
        (".", FixedToken::Dot),
        ("+", FixedToken::Plus),
        (";", FixedToken::Semicolon),
        ("/", FixedToken::ForwardSlash),
        ("*", FixedToken::Asterisk),
        ("true", FixedToken::True),
        ("false", FixedToken::False),
        ("nil", FixedToken::Nil),
        ("var", FixedToken::Var),
        ("if", FixedToken::If),
        ("else", FixedToken::Else),
        ("for", FixedToken::For),
        ("while", FixedToken::While),
        ("fun", FixedToken::Fun),
        ("return", FixedToken::Return),
        ("class", FixedToken::Class),
        ("this", FixedToken::This),
        ("super", FixedToken::Super),
        ("and", FixedToken::And),
        ("or", FixedToken::Or),
        ("print", FixedToken::Print),
        ("\n", FixedToken::Newline),
    ]
}

#[test]
fn fixed_token_test_extract() {
    for (token_string, expected_token) in fixed_table() {
        let n = token_string.chars().count();
        match FixedToken::extract(token_string, 0, n) {
            Some((actual_token, consumed)) => {
                assert_eq!(actual_token, expected_token);
                assert_eq!(consumed, n);
            }
            None => panic!("no fixed token extracted"),
        }
    }
}

#[test]
fn test_fixed_token() {
    for (token_string, expected_token) in fixed_table() {
        let n = token_string.chars().count();
        assert!(matches!(
            FixedToken::extract(token_string, 0, n),
            Some((actual_token, _)) if actual_token == expected_token
        ));
    }
}

fn extract_numeric_value(s: &str) -> Option<f64> {
    let n = s.chars().count();
    match NumericLiteral::extract(s, 0, n) {
        (Token::NumericLiteral(nl), consumed) => {
            assert_eq!(consumed, n);
            Some(f64::from_bits(nl.bits))
        }
        _ => None,
    }
}

#[test]
fn numeric_literal_test_extract() {
    let should = vec![
        ("0", 0f64),
        ("-0", 0f64),
        ("123", 123f64),
        ("10", 10f64),
        ("1234", 1234f64),
        ("123.456", 123.456),
        ("-123.456", -123.456),
    ];
    for (s, expected) in should {
        assert!(matches!(extract_numeric_value(s), Some(actual) if actual == expected));
    }
    let should_not = vec![("0", 0.5f64), ("1234", 1234.1f64)];
    for (s, expected) in should_not {
        assert!(!matches!(extract_numeric_value(s), Some(actual) if actual == expected));
    }
}

#[test]
fn test_numeric_literal() {
    assert!(matches!(extract_numeric_value("0"), Some(v) if v == 0f64));
    assert!(matches!(extract_numeric_value("-0"), Some(v) if v == 0f64));
    assert!(matches!(extract_numeric_value("123.456"), Some(v) if v == 123.456));
    assert!(matches!(extract_numeric_value("-123.456"), Some(v) if v == -123.456));
}

#[test]
fn tokenize_statement_kinds() {
    let tokens = tokenize("var x = 5;\n").expect("no lexical error");
    assert_eq!(tokens.len(), 6);
    assert!(matches!(&tokens[0], Token::FixedToken(FixedToken::Var)));
    assert!(matches!(&tokens[1], Token::Identifier(id) if id.name == "x"));
    assert!(matches!(&tokens[2], Token::FixedToken(FixedToken::Equal)));
    assert!(matches!(&tokens[3], Token::NumericLiteral(nl) if f64::from_bits(nl.bits) == 5.0));
    assert!(matches!(&tokens[4], Token::FixedToken(FixedToken::Semicolon)));
    assert!(matches!(&tokens[5], Token::FixedToken(FixedToken::Newline)));
}

#[test]
fn tokenize_string_literal() {
    let tokens = tokenize("\"hello\"").expect("no lexical error");
    assert_eq!(tokens.len(), 1);
    assert!(matches!(&tokens[0], Token::StringLiteral(sl) if sl.value == "hello"));
}

#[test]
fn tokenize_unclosed_string_is_error() {
    assert!(tokenize("\"oops").is_err());
}

#[test]
fn tokenize_unknown_run_is_error() {
    assert!(tokenize("@#$").is_err());
}

#[test]
fn keyword_prefix_splits_identifier() {
    let tokens = tokenize("variable").expect("no lexical error");
    assert_eq!(tokens.len(), 2);
    assert!(matches!(&tokens[0], Token::FixedToken(FixedToken::Var)));
    assert!(matches!(&tokens[1], Token::Identifier(id) if id.name == "iable"));
}

#[test]
fn minus_before_digit_merges_into_number() {
    let tokens = tokenize("-5").expect("no lexical error");
    assert_eq!(tokens.len(), 1);
    assert!(matches!(&tokens[0], Token::NumericLiteral(nl) if f64::from_bits(nl.bits) == -5.0));
    let tokens = tokenize("-x").expect("no lexical error");
    assert_eq!(tokens.len(), 2);
    assert!(matches!(&tokens[0], Token::FixedToken(FixedToken::Minus)));
}

#[test]
fn column_widens_by_three_per_tab() {
    assert_eq!(token_index_to_column("\tx", 1), 4);
    assert_eq!(token_index_to_column("ab", 2), 2);
    assert_eq!(token_index_to_column("\t\tx", 2), 8);
}

#[test]
fn skip_whitespace_counts_blanks() {
    assert_eq!(skip_whitespace("  a", 0), 2);
    assert_eq!(skip_whitespace("a", 0), 0);
    assert_eq!(skip_whitespace(" \n", 0), 1);
}
