use quark::chars::{is_ascii, is_ascii_digit, is_ident_start, CharClass};
use quark::lexer::{escape, Lexer, Token};
use quark::parser::{ParseError, ParseErrorKind, Value, VarType};
use quark::render::{push_decimal, push_integer, push_token, push_value, push_var_type};

fn written_token(token: Token) -> String {
    let mut text = String::new();
    push_token(&mut text, &token);
    text
}

fn written_value(value: Value) -> String {
    let mut text = String::new();
    push_value(&mut text, &value);
    text
}

#[test]
fn escaping_plain_text_changes_nothing() {
    for body in ["", "hello", "a b c", "tab\there", "cr\rhere", "'single'", "été €"] {
        assert_eq!(escape(body), body);
    }
}

#[test]
fn escaping_writes_the_three_escapes() {
    assert_eq!(escape("\""), "\\\"");
    assert_eq!(escape("\\"), "\\\\");
    assert_eq!(escape("\n"), "\\n");
    assert_eq!(escape("say \"hi\"\n"), "say \\\"hi\\\"\\n");
    assert_eq!(escape("C:\\dir\\n"), "C:\\\\dir\\\\n");
}

#[test]
fn an_escaped_value_reads_back() {
    for value in ["", "plain", "\"", "\\", "\n", "a\"b\\c\nd", "\\n", "\\\\\"\"", "\t\r", "x\\"] {
        let source = format!("\"{}\"", escape(value));
        assert_eq!(
            Lexer::new(&source).tokenize().unwrap(),
            vec![Token::StringLiteral(value.to_string()), Token::EOF],
            "{:?}",
            value
        );
    }
}

#[test]
fn a_plain_literal_lexes_and_escapes_to_itself() {
    for body in ["", "hello world", "1 + 2", "// no comment", "tab\t!"] {
        let source = format!("\"{}\"", body);
        match Lexer::new(&source).next_token().unwrap() {
            Token::StringLiteral(value) => assert_eq!(escape(&value), body),
            other => panic!("{:?}", other),
        }
    }
}

#[test]
fn parse_error_in_one_line() {
    let error = ParseError {
        kind: ParseErrorKind::MissingToken,
        message: "Expected value".to_string(),
        line: 12,
        column: 340,
    };
    assert_eq!(error.describe(), "Expected value at line 12:340");
    let error = ParseError {
        kind: ParseErrorKind::UnknownName,
        message: String::new(),
        line: 0,
        column: 1,
    };
    assert_eq!(error.describe(), " at line 0:1");
}

#[test]
fn tokens_in_messages() {
    assert_eq!(written_token(Token::Ident("x".to_string())), "Ident(\"x\")");
    assert_eq!(
        written_token(Token::StringLiteral("a\"b\n".to_string())),
        "StringLiteral(\"a\\\"b\\n\")"
    );
    assert_eq!(written_token(Token::NumberLiteral("1.5".to_string())), "NumberLiteral(\"1.5\")");
    assert_eq!(written_token(Token::Illegal('+')), "Illegal('+')");
    assert_eq!(written_token(Token::Illegal('\'')), "Illegal('\\'')");
    let plain = [
        (Token::LParen, "LParen"),
        (Token::RParen, "RParen"),
        (Token::Semicolon, "Semicolon"),
        (Token::Equals, "Equals"),
        (Token::EOF, "EOF"),
        (Token::StringType, "StringType"),
        (Token::IntegerType, "IntegerType"),
        (Token::FloatType, "FloatType"),
        (Token::BooleanType, "BooleanType"),
        (Token::True, "True"),
        (Token::False, "False"),
    ];
    for (token, written) in plain {
        assert_eq!(written_token(token), written);
    }
}

#[test]
fn tokens_are_written_as_debug_writes_them() {
    let tokens = [
        Token::Ident("name_1".to_string()),
        Token::StringLiteral("tab\t quote\" backslash\\ é \u{7f}".to_string()),
        Token::NumberLiteral("007".to_string()),
        Token::Illegal('\t'),
        Token::Illegal('"'),
        Token::EOF,
        Token::True,
    ];
    for token in tokens {
        assert_eq!(written_token(token.clone()), format!("{:?}", token));
    }
}

#[test]
fn values_in_messages() {
    assert_eq!(written_value(Value::String("hi".to_string())), "String(\"hi\")");
    assert_eq!(written_value(Value::Integer(0)), "Integer(0)");
    assert_eq!(written_value(Value::Integer(-42)), "Integer(-42)");
    assert_eq!(written_value(Value::Integer(i64::MAX)), "Integer(9223372036854775807)");
    assert_eq!(written_value(Value::Integer(i64::MIN)), "Integer(-9223372036854775808)");
    assert_eq!(written_value(Value::Float("3.14".to_string())), "Float(3.14)");
    assert_eq!(written_value(Value::Boolean(true)), "Boolean(true)");
    assert_eq!(written_value(Value::Boolean(false)), "Boolean(false)");
}

#[test]
fn types_in_messages() {
    let types = [
        (VarType::String, "String"),
        (VarType::Integer, "Integer"),
        (VarType::Float, "Float"),
        (VarType::Boolean, "Boolean"),
    ];
    for (var_type, written) in types {
        let mut text = String::from("to ");
        push_var_type(&mut text, var_type);
        assert_eq!(text, format!("to {}", written));
    }
}

#[test]
fn numbers_in_decimal() {
    for n in [0u64, 7, 10, 99, 100, 1234567890, u64::MAX] {
        let mut text = String::from("n=");
        push_decimal(&mut text, n);
        assert_eq!(text, format!("n={}", n));
    }
    for n in [0i64, -1, 1, -10, 1000, i64::MIN, i64::MAX] {
        let mut text = String::new();
        push_integer(&mut text, n);
        assert_eq!(text, n.to_string());
    }
}

#[test]
fn values_know_their_type() {
    assert_eq!(Value::String(String::new()).var_type(), VarType::String);
    assert_eq!(Value::Integer(1).var_type(), VarType::Integer);
    assert_eq!(Value::Float("1.0".to_string()).var_type(), VarType::Float);
    assert_eq!(Value::Boolean(true).var_type(), VarType::Boolean);
}

#[test]
fn character_classes() {
    assert!(is_ascii_digit('0') && is_ascii_digit('9'));
    assert!(!is_ascii_digit('/') && !is_ascii_digit(':') && !is_ascii_digit('٣'));
    assert!(is_ascii('\u{0}') && is_ascii('\u{7f}') && !is_ascii('\u{80}'));
    assert!(is_ident_start('a') && is_ident_start('_') && is_ident_start('é'));
    assert!(!is_ident_start('1') && !is_ident_start('-'));
    assert!(CharClass::Whitespace.contains(' ') && !CharClass::Whitespace.contains('x'));
    assert!(CharClass::LineBody.contains(' ') && !CharClass::LineBody.contains('\n'));
    assert!(CharClass::Digit.contains('5') && !CharClass::Digit.contains('a'));
    assert!(CharClass::IdentPart.contains('a') && CharClass::IdentPart.contains('1'));
    assert!(CharClass::IdentPart.contains('_') && !CharClass::IdentPart.contains('-'));
}
