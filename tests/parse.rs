use interpreter::ast::{Expr, Stmt, Value};
use interpreter::lex::Token;
use interpreter::parse::{Parser, ParserError};

fn num(text: &str) -> Box<Expr> {
    Box::new(Expr::Literal(Value::Num(text.to_string())))
}

fn parse(program: &str) -> Result<Vec<Stmt>, ParserError> {
    Parser::new(program).parse()
}

#[test]
fn comments() {
    let program = "# > first class :)";
    let mut parser = Parser::new(program);

    assert_eq!(
        parser.parse().unwrap(),
        vec![Stmt::Comment("> first class :)".to_string())]
    );
}

#[test]
fn literal() {
    let program = "1";
    let mut parser = Parser::new(program);

    assert_eq!(
        parser.parse().unwrap(),
        vec![Stmt::Expr(Expr::Literal(Value::Num("1".to_string())))]
    );
}

#[test]
fn unary() {
    let program = "-1";
    let mut parser = Parser::new(program);

    assert_eq!(
        parser.parse().unwrap(),
        vec![Stmt::Expr(Expr::Unary {
            op: Token::Minus,
            expr: num("1")
        })]
    );
}

#[test]
fn binary() {
    let program = "1+2";
    let mut parser = Parser::new(program);

    assert_eq!(
        parser.parse().unwrap(),
        vec![Stmt::Expr(Expr::Binary {
            left: num("1"),
            op: Token::Plus,
            right: num("2")
        })]
    );
}

#[test]
fn grouping() {
    let program = "(1)";
    let mut parser = Parser::new(program);

    assert_eq!(
        parser.parse().unwrap(),
        vec![Stmt::Expr(Expr::Grouping(num("1")))]
    );
}

#[test]
fn precedence() {
    let program = "1+2*3-4";
    let mut parser = Parser::new(program);

    assert_eq!(
        parser.parse().unwrap(),
        vec![Stmt::Expr(Expr::Binary {
            left: Box::new(Expr::Binary {
                left: num("1"),
                op: Token::Plus,
                right: Box::new(Expr::Binary {
                    left: num("2"),
                    op: Token::Star,
                    right: num("3"),
                })
            }),
            op: Token::Minus,
            right: num("4"),
        })]
    );
}

#[test]
fn strings() {
    let program = r#" "foo" + "bar" "#;
    let mut parser = Parser::new(program);

    assert_eq!(
        parser.parse().unwrap(),
        vec![Stmt::Expr(Expr::Binary {
            left: Box::new(Expr::Literal(Value::Str("foo".to_string()))),
            op: Token::Plus,
            right: Box::new(Expr::Literal(Value::Str("bar".to_string())))
        })]
    );
}

#[test]
fn variable_expression() {
    let program = "foo";
    let mut parser = Parser::new(program);

    assert_eq!(
        parser.parse().unwrap(),
        vec![Stmt::Expr(Expr::Variable("foo".to_string()))]
    );
}

#[test]
fn assignment_expression() {
    let program = r#" foo = "bar" "#;
    let mut parser = Parser::new(program);

    assert_eq!(
        parser.parse().unwrap(),
        vec![Stmt::Expr(Expr::Assignment(
            "foo".to_string(),
            Box::new(Expr::Literal(Value::Str("bar".to_string())))
        ))]
    );
}

#[test]
fn variable_declaration() {
    let program = r#" let foo = "bar" "#;
    let mut parser = Parser::new(program);

    assert_eq!(
        parser.parse().unwrap(),
        vec![Stmt::VariableDeclaration {
            name: "foo".to_string(),
            value: Some(Expr::Literal(Value::Str("bar".to_string())))
        }]
    );
}

#[test]
fn block_statement() {
    let program = r#"
        { 
            # comment 
            let foo = "bar" 
            foo
        }
        "#;
    let mut parser = Parser::new(program);

    assert_eq!(
        parser.parse().unwrap(),
        vec![Stmt::Block(vec![
            Stmt::Comment("comment".to_string()),
            Stmt::VariableDeclaration {
                name: "foo".to_string(),
                value: Some(Expr::Literal(Value::Str("bar".to_string())))
            },
            Stmt::Expr(Expr::Variable("foo".to_string()))
        ])]
    );
}

#[test]
fn if_statement() {
    let program = r#"
        if !true { 
            # > sudo shutdown
        } else {
            # do nothing
        }
        "#;
    let mut parser = Parser::new(program);

    assert_eq!(
        parser.parse().unwrap(),
        vec![Stmt::If {
            condition: Expr::Unary {
                op: Token::Bang,
                expr: Box::new(Expr::Literal(Value::Bool(true)))
            },
            then: Box::new(Stmt::Block(vec![Stmt::Comment(
                "> sudo shutdown".to_string(),
            )])),
            otherwise: Some(Box::new(Stmt::Block(vec![Stmt::Comment(
                "do nothing".to_string(),
            )])))
        }]
    );
}

#[test]
fn if_with_empty_blocks() {
    assert_eq!(
        parse("if !true { } else { }").unwrap(),
        vec![Stmt::If {
            condition: Expr::Unary {
                op: Token::Bang,
                expr: Box::new(Expr::Literal(Value::Bool(true)))
            },
            then: Box::new(Stmt::Block(vec![])),
            otherwise: Some(Box::new(Stmt::Block(vec![])))
        }]
    );
}

#[test]
fn if_without_else() {
    assert_eq!(
        parse("if x { 1 }").unwrap(),
        vec![Stmt::If {
            condition: Expr::Variable("x".to_string()),
            then: Box::new(Stmt::Block(vec![Stmt::Expr(Expr::Literal(Value::Num(
                "1".to_string()
            )))])),
            otherwise: None
        }]
    );
}

#[test]
fn if_needs_a_block() {
    assert_eq!(
        parse("if x y"),
        Err(ParserError::ExpectedToken(vec![Token::LeftBrace], Some(Token::Ident)))
    );
    assert_eq!(
        parse("if x"),
        Err(ParserError::ExpectedToken(vec![Token::LeftBrace], None))
    );
}

#[test]
fn grouping_is_kept() {
    assert_eq!(parse("(1)").unwrap(), vec![Stmt::Expr(Expr::Grouping(num("1")))]);
    assert_eq!(parse("1").unwrap(), vec![Stmt::Expr(*num("1"))]);
    assert_ne!(parse("(1)").unwrap(), parse("1").unwrap());
}

#[test]
fn unterminated_grouping_fails() {
    assert_eq!(
        parse("(1"),
        Err(ParserError::ExpectedToken(vec![Token::RightParen], None))
    );
    assert_eq!(
        parse("(1 2"),
        Err(ParserError::ExpectedToken(vec![Token::RightParen], Some(Token::Num)))
    );
}

#[test]
fn unterminated_block_fails() {
    assert_eq!(
        parse("{ 1"),
        Err(ParserError::ExpectedToken(vec![Token::RightBrace], None))
    );
}

#[test]
fn declaration_without_value() {
    assert_eq!(
        parse("let foo").unwrap(),
        vec![Stmt::VariableDeclaration { name: "foo".to_string(), value: None }]
    );
}

#[test]
fn declaration_needs_a_name() {
    assert_eq!(
        parse("let 1"),
        Err(ParserError::ExpectedToken(vec![Token::Ident], Some(Token::Num)))
    );
    assert_eq!(
        parse("let"),
        Err(ParserError::ExpectedToken(vec![Token::Ident], None))
    );
}

#[test]
fn missing_operand_fails() {
    assert_eq!(parse("1 +"), Err(ParserError::ExpectedExpression));
    assert_eq!(parse("let x ="), Err(ParserError::ExpectedExpression));
    assert_eq!(parse("-"), Err(ParserError::ExpectedExpression));
}

#[test]
fn assignment_needs_an_identifier() {
    assert_eq!(parse("1 = 2"), Err(ParserError::UnexpectedToken(Token::Equal)));
    assert_eq!(
        parse(r#""a" = "b""#),
        Err(ParserError::UnexpectedToken(Token::Equal))
    );
}

#[test]
fn unexpected_tokens_fail() {
    assert_eq!(parse("+ 1"), Err(ParserError::UnexpectedToken(Token::Plus)));
    assert_eq!(parse("@"), Err(ParserError::UnexpectedToken(Token::Error)));
    assert_eq!(parse("1.2.3"), Err(ParserError::UnexpectedToken(Token::Dot)));
}

#[test]
fn unary_nests_to_the_right() {
    assert_eq!(
        parse("!-x").unwrap(),
        vec![Stmt::Expr(Expr::Unary {
            op: Token::Bang,
            expr: Box::new(Expr::Unary {
                op: Token::Minus,
                expr: Box::new(Expr::Variable("x".to_string()))
            })
        })]
    );
    // Unary binds tighter than any binary operator.
    assert_eq!(
        parse("-1 * 2").unwrap(),
        vec![Stmt::Expr(Expr::Binary {
            left: Box::new(Expr::Unary { op: Token::Minus, expr: num("1") }),
            op: Token::Star,
            right: num("2"),
        })]
    );
}

#[test]
fn comparison_below_term_below_factor() {
    assert_eq!(
        parse("1 < 2 + 3 == 4 / 5").unwrap(),
        vec![Stmt::Expr(Expr::Binary {
            left: Box::new(Expr::Binary {
                left: num("1"),
                op: Token::Less,
                right: Box::new(Expr::Binary { left: num("2"), op: Token::Plus, right: num("3") }),
            }),
            op: Token::EqualEqual,
            right: Box::new(Expr::Binary { left: num("4"), op: Token::Slash, right: num("5") }),
        })]
    );
}

#[test]
fn literals_of_every_kind() {
    assert_eq!(
        parse("null true false 2.50 \"\"").unwrap(),
        vec![
            Stmt::Expr(Expr::Literal(Value::Null)),
            Stmt::Expr(Expr::Literal(Value::Bool(true))),
            Stmt::Expr(Expr::Literal(Value::Bool(false))),
            Stmt::Expr(Expr::Literal(Value::Num("2.50".to_string()))),
            Stmt::Expr(Expr::Literal(Value::Str(String::new()))),
        ]
    );
}

#[test]
fn comment_text_is_trimmed() {
    assert_eq!(parse("# hello").unwrap(), vec![Stmt::Comment("hello".to_string())]);
    assert_eq!(
        parse("#\t spaced out \u{a0}").unwrap(),
        vec![Stmt::Comment("spaced out".to_string())]
    );
    assert_eq!(parse("#").unwrap(), vec![Stmt::Comment(String::new())]);
}

#[test]
fn empty_source_is_an_empty_program() {
    assert_eq!(parse("").unwrap(), vec![]);
    assert_eq!(parse("  \n ").unwrap(), vec![]);
}

#[test]
fn nested_blocks() {
    assert_eq!(
        parse("{ { } let a = b = 1 }").unwrap(),
        vec![Stmt::Block(vec![
            Stmt::Block(vec![]),
            Stmt::VariableDeclaration {
                name: "a".to_string(),
                value: Some(Expr::Assignment(
                    "b".to_string(),
                    Box::new(Expr::Literal(Value::Num("1".to_string())))
                )),
            },
        ])]
    );
}
