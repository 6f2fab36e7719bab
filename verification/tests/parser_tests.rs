use quark::lexer::{Lexer, Token};
use quark::parser::{
    parse_number, BinOp, Expr, ParseError, ParseErrorKind, Parser, Program, Stmt, Value, VarType,
};

fn parse(source: &str) -> Result<Program, ParseError> {
    let tokens = Lexer::new(source).tokenize().unwrap();
    Parser::new(tokens).parse()
}

fn statements(source: &str) -> Vec<Stmt> {
    parse(source).unwrap().statements
}

fn failure(source: &str) -> ParseError {
    parse(source).unwrap_err()
}

fn declaration(var_type: VarType, name: &str, value: Value) -> Stmt {
    Stmt::Declaration { var_type, name: name.to_string(), value }
}

fn echo(args: Vec<Expr>) -> Stmt {
    Stmt::Expression(Expr::Call { name: "echo".to_string(), args })
}

fn integer(value: i64) -> Expr {
    Expr::Literal(Value::Integer(value))
}

fn add(left: Expr, right: Expr) -> Expr {
    Expr::BinaryOp { left: Box::new(left), op: BinOp::Add, right: Box::new(right) }
}

fn variable(name: &str) -> Expr {
    Expr::Variable(name.to_string())
}

#[test]
fn integer_declaration() {
    assert_eq!(
        statements("Integer x = 42;"),
        vec![declaration(VarType::Integer, "x", Value::Integer(42))]
    );
}

#[test]
fn string_declaration_with_decoded_newline() {
    assert_eq!(
        statements(r#"String s = "hi\n";"#),
        vec![declaration(VarType::String, "s", Value::String("hi\n".to_string()))]
    );
}

#[test]
fn float_declaration_keeps_the_literal() {
    let parsed = statements("Float f = 3.14;");
    assert_eq!(
        parsed,
        vec![declaration(VarType::Float, "f", Value::Float("3.14".to_string()))]
    );
    match &parsed[0] {
        Stmt::Declaration { value: Value::Float(text), .. } => {
            assert_eq!(text.parse::<f64>().unwrap(), 3.14);
        }
        _ => panic!("no fraction"),
    }
}

#[test]
fn boolean_declarations() {
    assert_eq!(
        statements("Boolean a = true; Boolean b = false;"),
        vec![
            declaration(VarType::Boolean, "a", Value::Boolean(true)),
            declaration(VarType::Boolean, "b", Value::Boolean(false)),
        ]
    );
}

#[test]
fn call_with_a_string() {
    assert_eq!(
        statements("echo(\"hello\");"),
        vec![echo(vec![Expr::Literal(Value::String("hello".to_string()))])]
    );
}

#[test]
fn call_without_argument() {
    assert_eq!(statements("echo();"), vec![echo(vec![])]);
}

#[test]
fn call_with_a_variable() {
    assert_eq!(statements("echo(x);"), vec![echo(vec![variable("x")])]);
}

#[test]
fn addition_groups_from_the_left() {
    assert_eq!(
        statements("echo(1 + 2 + 3);"),
        vec![echo(vec![add(add(integer(1), integer(2)), integer(3))])]
    );
}

#[test]
fn parentheses_group_as_written() {
    assert_eq!(
        statements("echo(1 + (2 + 3));"),
        vec![echo(vec![add(integer(1), add(integer(2), integer(3)))])]
    );
    assert_eq!(statements("echo(((x)));"), vec![echo(vec![variable("x")])]);
}

#[test]
fn addition_of_mixed_operands() {
    assert_eq!(
        statements("echo(x + \"a\" + true + 1.5);"),
        vec![echo(vec![add(
            add(
                add(variable("x"), Expr::Literal(Value::String("a".to_string()))),
                Expr::Literal(Value::Boolean(true))
            ),
            Expr::Literal(Value::Float("1.5".to_string()))
        )])]
    );
}

#[test]
fn statements_keep_their_order() {
    assert_eq!(
        statements("Integer x = 1;\n// say it\necho(x);\nString s = \"\";"),
        vec![
            declaration(VarType::Integer, "x", Value::Integer(1)),
            echo(vec![variable("x")]),
            declaration(VarType::String, "s", Value::String(String::new())),
        ]
    );
}

#[test]
fn empty_source_is_an_empty_program() {
    assert_eq!(statements(""), vec![]);
    assert_eq!(statements("  // nothing\n"), vec![]);
}

#[test]
fn names_are_not_resolved() {
    assert_eq!(
        statements("Integer x = 1; Integer x = 2; echo(y);"),
        vec![
            declaration(VarType::Integer, "x", Value::Integer(1)),
            declaration(VarType::Integer, "x", Value::Integer(2)),
            echo(vec![variable("y")]),
        ]
    );
}

#[test]
fn string_for_integer_is_a_type_mismatch() {
    let error = failure("Integer x = \"bad\";");
    assert_eq!(error.kind, ParseErrorKind::TypeMismatch);
    assert_eq!(error.message, "Type mismatch: cannot assign String(\"bad\") to Integer");
}

#[test]
fn every_other_kind_of_literal_is_a_type_mismatch() {
    let literals = [
        (VarType::String, "\"a\""),
        (VarType::Integer, "1"),
        (VarType::Float, "1.0"),
        (VarType::Boolean, "true"),
    ];
    let keywords = [
        (VarType::String, "String"),
        (VarType::Integer, "Integer"),
        (VarType::Float, "Float"),
        (VarType::Boolean, "Boolean"),
    ];
    for (declared, keyword) in keywords {
        for (kind, literal) in literals {
            let result = parse(&format!("{} v = {};", keyword, literal));
            if kind == declared {
                assert_eq!(result.unwrap().statements.len(), 1);
            } else {
                assert_eq!(result.unwrap_err().kind, ParseErrorKind::TypeMismatch);
            }
        }
    }
}

#[test]
fn an_integer_is_not_widened_to_a_fraction() {
    let error = failure("Float f = 1;");
    assert_eq!(error.kind, ParseErrorKind::TypeMismatch);
    assert_eq!(error.message, "Type mismatch: cannot assign Integer(1) to Float");
}

#[test]
fn type_mismatch_messages_name_both_sides() {
    assert_eq!(
        failure("Integer x = 2.50;").message,
        "Type mismatch: cannot assign Float(2.50) to Integer"
    );
    assert_eq!(
        failure("String s = false;").message,
        "Type mismatch: cannot assign Boolean(false) to String"
    );
    assert_eq!(
        failure("Boolean b = 9223372036854775807;").message,
        "Type mismatch: cannot assign Integer(9223372036854775807) to Boolean"
    );
    assert_eq!(
        failure("Boolean b = \"a\\\"b\";").message,
        "Type mismatch: cannot assign String(\"a\\\"b\") to Boolean"
    );
}

#[test]
fn integer_too_large_is_an_invalid_number() {
    let error = failure("Integer x = 9223372036854775808;");
    assert_eq!(error.kind, ParseErrorKind::InvalidNumber);
    assert_eq!(error.message, "Invalid integer literal: 9223372036854775808");
    assert_eq!(
        statements("Integer x = 9223372036854775807;"),
        vec![declaration(VarType::Integer, "x", Value::Integer(i64::MAX))]
    );
}

#[test]
fn missing_name() {
    let error = failure("Integer = 1;");
    assert_eq!(error.kind, ParseErrorKind::MissingToken);
    assert_eq!(error.message, "Expected variable name, got Equals");
}

#[test]
fn missing_equals() {
    let error = failure("Integer x 1;");
    assert_eq!(error.kind, ParseErrorKind::MissingToken);
    assert_eq!(error.message, "Expected Equals, got NumberLiteral(\"1\")");
}

#[test]
fn missing_value() {
    let error = failure("Integer x = ;");
    assert_eq!(error.kind, ParseErrorKind::MissingToken);
    assert_eq!(error.message, "Expected value, got Semicolon");
}

#[test]
fn missing_semicolon() {
    let error = failure("Integer x = 1");
    assert_eq!(error.kind, ParseErrorKind::MissingToken);
    assert_eq!(error.message, "Expected Semicolon, got EOF");
    assert_eq!(
        failure("echo(1) echo(2);").message,
        "Expected Semicolon, got Ident(\"echo\")"
    );
}

#[test]
fn a_declaration_takes_a_literal_not_an_expression() {
    let error = failure("Integer x = 1 + 2;");
    assert_eq!(error.kind, ParseErrorKind::MissingToken);
    assert_eq!(error.message, "Expected Semicolon, got Illegal('+')");
    assert_eq!(failure("Integer x = y;").message, "Expected value, got Ident(\"y\")");
}

#[test]
fn a_call_takes_one_argument_at_most() {
    let error = failure("echo(1, 2);");
    assert_eq!(error.kind, ParseErrorKind::MissingToken);
    assert_eq!(error.message, "Expected RParen, got Illegal(',')");
}

#[test]
fn missing_operand() {
    let error = failure("echo(1 + );");
    assert_eq!(error.kind, ParseErrorKind::MissingToken);
    assert_eq!(error.message, "Expected expression");
    assert_eq!(failure("echo(+);").message, "Expected expression");
}

#[test]
fn missing_closing_parenthesis() {
    assert_eq!(failure("echo((1 + 2;").message, "Expected RParen, got Semicolon");
    assert_eq!(failure("echo(1;").message, "Expected RParen, got Semicolon");
}

#[test]
fn missing_opening_parenthesis() {
    assert_eq!(failure("echo 1;").message, "Expected LParen, got NumberLiteral(\"1\")");
}

#[test]
fn unknown_name_at_statement_position() {
    let error = failure("print(1);");
    assert_eq!(error.kind, ParseErrorKind::UnknownName);
    assert_eq!(error.message, "Unknown function or variable: print");
    assert_eq!(failure("x = 1;").kind, ParseErrorKind::UnknownName);
}

#[test]
fn illegal_character_at_statement_position() {
    let error = failure("@");
    assert_eq!(error.kind, ParseErrorKind::UnexpectedToken);
    assert_eq!(error.message, "Invalid character: '@'");
    assert_eq!(failure("+ 1;").kind, ParseErrorKind::UnexpectedToken);
}

#[test]
fn unexpected_token_at_statement_position() {
    let error = failure("42;");
    assert_eq!(error.kind, ParseErrorKind::UnexpectedToken);
    assert_eq!(error.message, "Unexpected token: NumberLiteral(\"42\")");
    assert_eq!(failure(";").message, "Unexpected token: Semicolon");
    assert_eq!(failure("true;").message, "Unexpected token: True");
    assert_eq!(failure("\"a\\nb\";").message, "Unexpected token: StringLiteral(\"a\\nb\")");
}

#[test]
fn the_first_error_ends_the_parse() {
    let error = failure("Integer x = \"a\"; print(1);");
    assert_eq!(error.kind, ParseErrorKind::TypeMismatch);
    let error = failure("Integer x = 1; print(1); Integer y = \"a\";");
    assert_eq!(error.kind, ParseErrorKind::UnknownName);
}

#[test]
fn errors_carry_the_position_the_parser_was_made_with() {
    let error = failure("Integer x = 1;\n\n   Integer y = \"a\";");
    assert_eq!((error.line, error.column), (1, 1));
}

#[test]
fn tokens_without_end_of_input() {
    let tokens = vec![
        Token::IntegerType,
        Token::Ident("x".to_string()),
        Token::Equals,
        Token::NumberLiteral("1".to_string()),
        Token::Semicolon,
    ];
    assert_eq!(
        Parser::new(tokens).parse().unwrap().statements,
        vec![declaration(VarType::Integer, "x", Value::Integer(1))]
    );
    let error = Parser::new(vec![Token::IntegerType]).parse().unwrap_err();
    assert_eq!(error.message, "Expected variable name");
    let error = Parser::new(vec![Token::IntegerType, Token::Ident("x".to_string())])
        .parse()
        .unwrap_err();
    assert_eq!(error.message, "Expected Equals, but no more tokens");
    let error = Parser::new(vec![
        Token::IntegerType,
        Token::Ident("x".to_string()),
        Token::Equals,
    ])
    .parse()
    .unwrap_err();
    assert_eq!(error.message, "Expected value");
    let error = Parser::new(vec![Token::Ident("echo".to_string()), Token::LParen])
        .parse()
        .unwrap_err();
    assert_eq!(error.message, "Expected expression");
}

#[test]
fn what_stands_behind_end_of_input_is_not_read() {
    let tokens = vec![Token::EOF, Token::Semicolon];
    assert_eq!(Parser::new(tokens).parse().unwrap().statements, vec![]);
}

#[test]
fn a_parser_can_be_asked_again() {
    let tokens = Lexer::new("Integer x = 1; ; echo(x);").tokenize().unwrap();
    let mut parser = Parser::new(tokens);
    assert_eq!(parser.parse().unwrap_err().message, "Unexpected token: Semicolon");
    assert_eq!(parser.parse().unwrap().statements, vec![echo(vec![variable("x")])]);
    assert_eq!(parser.parse().unwrap().statements, vec![]);
}

#[test]
fn hand_made_number_tokens() {
    let declare = |keyword: Token, text: &str| {
        Parser::new(vec![
            keyword,
            Token::Ident("x".to_string()),
            Token::Equals,
            Token::NumberLiteral(text.to_string()),
            Token::Semicolon,
            Token::EOF,
        ])
        .parse()
    };
    assert_eq!(
        declare(Token::IntegerType, "-5").unwrap().statements,
        vec![declaration(VarType::Integer, "x", Value::Integer(-5))]
    );
    let error = declare(Token::IntegerType, "12a").unwrap_err();
    assert_eq!(error.kind, ParseErrorKind::InvalidNumber);
    assert_eq!(error.message, "Invalid integer literal: 12a");
    let error = declare(Token::FloatType, "1.2.3").unwrap_err();
    assert_eq!(error.kind, ParseErrorKind::InvalidNumber);
    assert_eq!(error.message, "Invalid float literal: 1.2.3");
    assert_eq!(
        declare(Token::FloatType, "-1.5e3").unwrap().statements,
        vec![declaration(VarType::Float, "x", Value::Float("-1.5e3".to_string()))]
    );
}

#[test]
fn number_text_to_value() {
    assert_eq!(parse_number("0").unwrap(), Value::Integer(0));
    assert_eq!(parse_number("0.5").unwrap(), Value::Float("0.5".to_string()));
    assert_eq!(parse_number("").unwrap_err().message, "Invalid integer literal: ");
    assert_eq!(parse_number(".").unwrap_err().message, "Invalid float literal: .");
}

#[test]
fn expressions_can_be_cloned() {
    let program = parse("echo(1 + (x + \"a\"));").unwrap();
    let copy = program.clone();
    assert_eq!(copy, program);
    match &program.statements[0] {
        Stmt::Expression(expr) => assert_eq!(&expr.clone(), expr),
        _ => panic!("no expression"),
    }
}

fn parser_at(source: &str, skipped: usize) -> Parser {
    let mut tokens = Lexer::new(source).tokenize().unwrap();
    tokens.drain(..skipped);
    Parser::new(tokens)
}

#[test]
fn a_declaration_alone() {
    let mut parser = parser_at("echo(1); Float f = 2.5; echo(f);", 5);
    assert_eq!(
        parser.parse_declaration().unwrap(),
        declaration(VarType::Float, "f", Value::Float("2.5".to_string()))
    );
    assert_eq!(parser.parse().unwrap().statements, vec![echo(vec![variable("f")])]);
}

#[test]
fn a_declaration_alone_of_each_type() {
    let cases = [
        ("String s = \"a\";", declaration(VarType::String, "s", Value::String("a".to_string()))),
        ("Integer i = 7;", declaration(VarType::Integer, "i", Value::Integer(7))),
        ("Float f = 7.0;", declaration(VarType::Float, "f", Value::Float("7.0".to_string()))),
        ("Boolean b = true;", declaration(VarType::Boolean, "b", Value::Boolean(true))),
        ("Boolean b = false;", declaration(VarType::Boolean, "b", Value::Boolean(false))),
    ];
    for (source, expected) in cases {
        assert_eq!(parser_at(source, 0).parse_declaration().unwrap(), expected);
    }
}

#[test]
fn a_declaration_alone_with_a_literal_of_another_type() {
    let cases = [
        ("Float f = 1;", "Type mismatch: cannot assign Integer(1) to Float"),
        ("Integer i = 1.0;", "Type mismatch: cannot assign Float(1.0) to Integer"),
        ("Boolean b = \"true\";", "Type mismatch: cannot assign String(\"true\") to Boolean"),
        ("String s = true", "Type mismatch: cannot assign Boolean(true) to String"),
    ];
    for (source, message) in cases {
        let error = parser_at(source, 0).parse_declaration().unwrap_err();
        assert_eq!(error.kind, ParseErrorKind::TypeMismatch);
        assert_eq!(error.message, message);
        assert!(error.message.to_lowercase().contains("type mismatch"));
    }
}

#[test]
fn a_declaration_where_none_starts() {
    let error = parser_at("echo(1);", 0).parse_declaration().unwrap_err();
    assert_eq!(error.kind, ParseErrorKind::MissingToken);
    assert_eq!(error.message, "Expected type, got Ident(\"echo\")");
    let error = Parser::new(vec![]).parse_declaration().unwrap_err();
    assert_eq!(error.message, "Expected type");
}

#[test]
fn an_expression_alone() {
    let mut parser = parser_at("a + b + c + d) ;", 0);
    assert_eq!(
        parser.parse_expression().unwrap(),
        add(add(add(variable("a"), variable("b")), variable("c")), variable("d"))
    );
    assert_eq!(parser.parse().unwrap_err().message, "Unexpected token: RParen");
    assert_eq!(parser_at("x;", 0).parse_expression().unwrap(), variable("x"));
    assert_eq!(
        parser_at("(a + b) + (c + d)", 0).parse_expression().unwrap(),
        add(add(variable("a"), variable("b")), add(variable("c"), variable("d")))
    );
}

#[test]
fn an_expression_where_none_starts() {
    let error = parser_at(";", 0).parse_expression().unwrap_err();
    assert_eq!(error.kind, ParseErrorKind::MissingToken);
    assert_eq!(error.message, "Expected expression");
    assert_eq!(Parser::new(vec![]).parse_expression().unwrap_err().message, "Expected expression");
}

#[test]
fn a_sum_of_many_operands_leans_to_the_left() {
    let source = format!("echo({});", vec!["1"; 50].join(" + "));
    let parsed = statements(&source);
    let mut expr = match &parsed[0] {
        Stmt::Expression(Expr::Call { args, .. }) => &args[0],
        other => panic!("{:?}", other),
    };
    let mut operators = 0;
    while let Expr::BinaryOp { left, right, .. } = expr {
        assert_eq!(**right, integer(1));
        operators += 1;
        expr = &**left;
    }
    assert_eq!(*expr, integer(1));
    assert_eq!(operators, 49);
}
