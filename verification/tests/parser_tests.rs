use rolox::ast::{Binary, Expression, Grouping, ParseError, Unary};
use rolox::lexer::tokenize;
use rolox::parser::Parser;
use rolox::tokens::{BinaryOp, Literal, Token, UnaryOp};

fn int_lit(v: i32) -> Expression {
    Expression::Literal {
        value: Literal::INTEGER(v),
    }
}

fn boolean(b: bool) -> Expression {
    Expression::Literal {
        value: Literal::BOOLEAN(b),
    }
}

fn var(name: &str) -> Expression {
    Expression::Variable {
        name: name.to_string(),
    }
}

fn bin(op: BinaryOp, left: Expression, right: Expression) -> Expression {
    Expression::Binary(Box::new(Binary { op, left, right }))
}

fn un(op: UnaryOp, operand: Expression) -> Expression {
    Expression::Unary(Box::new(Unary { op, operand }))
}

fn grp(inner: Expression) -> Expression {
    Expression::Grouping(Box::new(Grouping { inner }))
}

fn parse_str(src: &str) -> Result<Expression, ParseError> {
    let tokens: Vec<Token> = tokenize(&src.to_string())
        .into_iter()
        .map(|r| r.expect("unexpected lexical error"))
        .collect();
    Parser::new(tokens).parse_expr()
}

#[test]
fn multiplication_binds_tighter_than_addition() {
    assert_eq!(
        parse_str("1 + 2 * 3"),
        Ok(bin(BinaryOp::Plus, int_lit(1), bin(BinaryOp::Star, int_lit(2), int_lit(3))))
    );
}

#[test]
fn subtraction_is_left_associative() {
    assert_eq!(
        parse_str("1 - 2 - 3"),
        Ok(bin(
            BinaryOp::Minus,
            bin(BinaryOp::Minus, int_lit(1), int_lit(2)),
            int_lit(3)
        ))
    );
}

#[test]
fn grouping_overrides_precedence() {
    assert_eq!(
        parse_str("(1 + 2) * 3"),
        Ok(bin(
            BinaryOp::Star,
            grp(bin(BinaryOp::Plus, int_lit(1), int_lit(2))),
            int_lit(3)
        ))
    );
}

#[test]
fn unary_chaining() {
    assert_eq!(
        parse_str("!!true"),
        Ok(un(UnaryOp::Bang, un(UnaryOp::Bang, boolean(true))))
    );
}

#[test]
fn missing_close_paren_is_expected_token() {
    assert_eq!(
        parse_str("(1 + 2"),
        Err(ParseError::ExpectedToken(Token::RPAREN))
    );
}

#[test]
fn grouping_requires_open_paren() {
    let mut parser = Parser::new(vec![Token::PLUS]);
    assert_eq!(
        parser.parse_grouping(),
        Err(ParseError::ExpectedToken(Token::LPAREN))
    );
}

#[test]
fn unexpected_token_is_reported() {
    assert_eq!(
        parse_str("+"),
        Err(ParseError::UnexpectedToken {
            found: Some(Token::PLUS),
            context: "expression".to_string(),
        })
    );
}

#[test]
fn empty_input_is_unexpected() {
    assert_eq!(
        parse_str(""),
        Err(ParseError::UnexpectedToken {
            found: None,
            context: "expression".to_string(),
        })
    );
}

#[test]
fn identifier_required_for_identifier_expr() {
    let mut parser = Parser::new(vec![Token::PLUS]);
    assert_eq!(
        parser.parse_identifier_expr(),
        Err(ParseError::ExpectedIdentifier)
    );
}

#[test]
fn literal_required_for_literal_expr() {
    let mut parser = Parser::new(vec![Token::IDENTIFIER("x".to_string())]);
    assert_eq!(parser.parse_literal_expr(), Err(ParseError::ExpectedLiteral));
}

#[test]
fn operator_required_for_unary_expr() {
    let mut parser = Parser::new(vec![Token::PLUS]);
    assert_eq!(parser.parse_unary_expr(), Err(ParseError::ExpectedOperator));
}

#[test]
fn variable_in_binary_expression() {
    assert_eq!(
        parse_str("x + 1"),
        Ok(bin(BinaryOp::Plus, var("x"), int_lit(1)))
    );
}

#[test]
fn assignment_binds_loosest() {
    assert_eq!(
        parse_str("x = 1 + 2"),
        Ok(bin(
            BinaryOp::Equal,
            var("x"),
            bin(BinaryOp::Plus, int_lit(1), int_lit(2))
        ))
    );
}

#[test]
fn left_operand_of_addition_keeps_its_product() {
    assert_eq!(
        parse_str("1 * 2 + 3"),
        Ok(bin(
            BinaryOp::Plus,
            bin(BinaryOp::Star, int_lit(1), int_lit(2)),
            int_lit(3)
        ))
    );
}

#[test]
fn unary_minus_is_an_operand() {
    assert_eq!(
        parse_str("-1 + 2"),
        Ok(bin(BinaryOp::Plus, un(UnaryOp::Minus, int_lit(1)), int_lit(2)))
    );
}

#[test]
fn boolean_keywords_are_literals() {
    assert_eq!(parse_str("true"), Ok(boolean(true)));
    assert_eq!(parse_str("false"), Ok(boolean(false)));
}

#[test]
fn comparison_family_is_left_associative() {
    assert_eq!(
        parse_str("1 < 2 == true"),
        Ok(bin(
            BinaryOp::EqualEqual,
            bin(BinaryOp::Less, int_lit(1), int_lit(2)),
            boolean(true)
        ))
    );
}

#[test]
fn string_literal_expression() {
    assert_eq!(
        parse_str("\"hi\" == x"),
        Ok(bin(
            BinaryOp::EqualEqual,
            Expression::Literal {
                value: Literal::STRING("hi".to_string()),
            },
            var("x")
        ))
    );
}

#[test]
fn next_symbol_consumes_only_on_match() {
    let mut parser = Parser::new(vec![Token::LPAREN, Token::RPAREN]);
    assert!(parser.next_symbol(&Token::LPAREN));
    assert!(!parser.next_symbol(&Token::LPAREN));
    assert!(parser.next_symbol(&Token::RPAREN));
    assert!(!parser.next_symbol(&Token::RPAREN));
}

#[test]
fn nested_grouping() {
    assert_eq!(parse_str("((1))"), Ok(grp(grp(int_lit(1)))));
}

#[test]
fn deeply_nested_grouping_stays_sound() {
    let mut src = String::new();
    for _ in 0..64 {
        src.push('(');
    }
    src.push('1');
    for _ in 0..64 {
        src.push(')');
    }
    let mut expected = int_lit(1);
    for _ in 0..64 {
        expected = grp(expected);
    }
    assert_eq!(parse_str(&src), Ok(expected));
}

#[test]
fn parse_stops_at_first_complete_expression() {
    // A following token that is no binary operator ends the climb; the
    // parser returns one expression and leaves the rest unconsumed.
    assert_eq!(parse_str("1 2"), Ok(int_lit(1)));
}

#[test]
fn comment_then_expression_parses() {
    assert_eq!(
        parse_str("// all of this is dropped\n1 + 2"),
        Ok(bin(BinaryOp::Plus, int_lit(1), int_lit(2)))
    );
}
