use rustic::enums::{Expression, ParseError, Statement, Token};
use rustic::lexer::lex;
use rustic::parser::Parser;
use rustic::rat::Rat;

fn parser_for(source: &[u8]) -> Parser {
    Parser::new(lex(&source.to_vec()).unwrap())
}

#[test]
fn test_parse() {
    let mut parser = parser_for(b"x = 1");
    let statements = parser.parse().unwrap();

    assert_eq!(
        statements,
        vec![Statement::Assignment(
            b"x".to_vec(),
            Expression::Number(Rat::new(1, 1))
        )]
    );
}

#[test]
fn test_parse_variable() {
    let mut parser = parser_for(b"x = 1\nprint x");
    let statements = parser.parse().unwrap();

    assert_eq!(
        statements,
        vec![
            Statement::Assignment(b"x".to_vec(), Expression::Number(Rat::new(1, 1))),
            Statement::Print(Expression::Variable(b"x".to_vec()))
        ]
    );
}

#[test]
fn test_parse_expression() {
    let mut parser = parser_for(b"1 + 2");
    let expression = parser.parse_expression().unwrap();

    assert_eq!(
        expression,
        Expression::Plus(
            Box::new(Expression::Number(Rat::new(1, 1))),
            Box::new(Expression::Number(Rat::new(2, 1)))
        )
    );
}

#[test]
fn test_parse_expression_minus() {
    let mut parser = parser_for(b"1 - 2");
    let expression = parser.parse_expression().unwrap();

    assert_eq!(
        expression,
        Expression::Minus(
            Box::new(Expression::Number(Rat::new(1, 1))),
            Box::new(Expression::Number(Rat::new(2, 1)))
        )
    );
}

#[test]
fn test_parse_expression_asterisk() {
    let mut parser = parser_for(b"1 * 2");
    let expression = parser.parse_expression().unwrap();

    assert_eq!(
        expression,
        Expression::Asterisk(
            Box::new(Expression::Number(Rat::new(1, 1))),
            Box::new(Expression::Number(Rat::new(2, 1)))
        )
    );
}

#[test]
fn test_parse_expression_slash() {
    let mut parser = parser_for(b"1 / 2");
    let expression = parser.parse_expression().unwrap();

    assert_eq!(
        expression,
        Expression::Slash(
            Box::new(Expression::Number(Rat::new(1, 1))),
            Box::new(Expression::Number(Rat::new(2, 1)))
        )
    );
}

#[test]
fn test_parse_expression_parenthesis() {
    let mut parser = parser_for(b"(1 + 2)");
    let expression = parser.parse_expression().unwrap();

    assert_eq!(
        expression,
        Expression::Group(Box::new(Expression::Plus(
            Box::new(Expression::Number(Rat::new(1, 1))),
            Box::new(Expression::Number(Rat::new(2, 1)))
        )))
    );
}

#[test]
fn test_parse_print() {
    let mut parser = parser_for(b"print 1");
    let statements = parser.parse().unwrap();

    assert_eq!(
        statements,
        vec![Statement::Print(Expression::Number(Rat::new(1, 1)))]
    );
}

#[test]
fn test_parse_expression_factorial() {
    let mut parser = parser_for(b"1!");
    let expression = parser.parse_expression().unwrap();

    assert_eq!(
        expression,
        Expression::Factorial(Box::new(Expression::Number(Rat::new(1, 1))))
    );
}

#[test]
fn test_parse_expression_power() {
    let mut parser = parser_for(b"1 ^ 2");
    let expression = parser.parse_expression().unwrap();

    assert_eq!(
        expression,
        Expression::Power(
            Box::new(Expression::Number(Rat::new(1, 1))),
            Box::new(Expression::Number(Rat::new(2, 1)))
        )
    );
}

#[test]
fn test_parser_integer_expression() {
    let mut parser = parser_for(b"5");
    let result = parser.parse_expression().unwrap();
    assert_eq!(result, Expression::Number(Rat::new(5, 1)));
}

#[test]
fn test_parser_addition_expression() {
    let mut parser = parser_for(b"5 + 3");
    let result = parser.parse_expression().unwrap();

    assert_eq!(
        result,
        Expression::Plus(
            Box::new(Expression::Number(Rat::new(5, 1))),
            Box::new(Expression::Number(Rat::new(3, 1))),
        )
    );
}

#[test]
fn test_parser_subtraction_expression() {
    let mut parser = parser_for(b"5 - 3");
    let result = parser.parse_expression().unwrap();

    assert_eq!(
        result,
        Expression::Minus(
            Box::new(Expression::Number(Rat::new(5, 1))),
            Box::new(Expression::Number(Rat::new(3, 1))),
        )
    );
}

#[test]
fn test_parse_left_associative_tree() {
    let mut parser = parser_for(b"10 - 2 - 3");
    let expression = parser.parse_expression().unwrap();

    assert_eq!(
        expression,
        Expression::Minus(
            Box::new(Expression::Minus(
                Box::new(Expression::Number(Rat::new(10, 1))),
                Box::new(Expression::Number(Rat::new(2, 1)))
            )),
            Box::new(Expression::Number(Rat::new(3, 1)))
        )
    );
}

#[test]
fn test_parse_unbalanced_parentheses() {
    let mut parser = parser_for(b"(1 + 2");
    assert!(matches!(
        parser.parse(),
        Err(ParseError::UnbalancedParentheses)
    ));
}

#[test]
fn test_parse_operator_without_operand() {
    let mut parser = parser_for(b"+ 1");
    assert!(matches!(
        parser.parse(),
        Err(ParseError::UnexpectedToken(Token::Plus))
    ));
}

#[test]
fn test_parse_idempotent() {
    let tokens_a = lex(&b"a = 1 + 2 * 3\nprint a".to_vec()).unwrap();
    let tokens_b = lex(&b"a = 1 + 2 * 3\nprint a".to_vec()).unwrap();
    let mut first = Parser::new(tokens_a);
    let mut second = Parser::new(tokens_b);
    assert_eq!(first.parse().unwrap(), second.parse().unwrap());
}
