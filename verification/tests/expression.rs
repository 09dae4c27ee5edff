use rbasic::expression::{
    evaluate_postfix, parse_and_eval_expression, parse_expression, EvalError, ExpressionError,
    ParseError, RBasicContext,
};
use rbasic::lexer::{tokenize_line, TokenAndPos};
use rbasic::token::Token;
use rbasic::value::{RBasicValue, ValueError};
use std::collections::VecDeque;

fn tokens_of(expression: &str) -> Vec<TokenAndPos> {
    tokenize_line(&format!("1 {}", expression)).unwrap().tokens
}

fn postfix_of(expression: &str) -> Result<Vec<Token>, ParseError> {
    let tokens = tokens_of(expression);
    let mut cursor = 0;
    parse_expression(&tokens, &mut cursor).map(|queue| queue.into_iter().collect())
}

fn value_in(expression: &str, context: &RBasicContext) -> Result<RBasicValue, ExpressionError> {
    let tokens = tokens_of(expression);
    let mut cursor = 0;
    parse_and_eval_expression(&tokens, &mut cursor, context)
}

fn number_of(expression: &str) -> i32 {
    match value_in(expression, &RBasicContext::new()) {
        Ok(RBasicValue::Number(n)) => n,
        other => panic!("no number: {:?}", other),
    }
}

fn truth_of(expression: &str) -> bool {
    match value_in(expression, &RBasicContext::new()) {
        Ok(RBasicValue::Bool(b)) => b,
        other => panic!("no truth value: {:?}", other),
    }
}

#[test]
fn multiplication_binds_tighter_than_addition() {
    assert_eq!(number_of("2 + 3 * 4"), 14);
    assert_eq!(number_of("2 * 3 + 4"), 10);
    assert_eq!(
        postfix_of("2 + 3 * 4"),
        Ok(vec![Token::Number(2), Token::Number(3), Token::Number(4), Token::Multiply, Token::Plus])
    );
}

#[test]
fn operators_of_equal_precedence_group_to_the_left() {
    assert_eq!(number_of("10 - 2 - 3"), 5);
    assert_eq!(number_of("100 / 10 / 5"), 2);
    assert_eq!(number_of("10 - 2 * 3 - 4"), 0);
    assert_eq!(number_of("1 + 2 * 3 - 4"), 3);
    assert_eq!(
        postfix_of("10 - 2 * 3 - 4"),
        Ok(vec![
            Token::Number(10),
            Token::Number(2),
            Token::Number(3),
            Token::Multiply,
            Token::Minus,
            Token::Number(4),
            Token::Minus
        ])
    );
}

#[test]
fn parentheses_group() {
    assert_eq!(number_of("(2 + 3) * 4"), 20);
    assert_eq!(number_of("2 * (3 + 4)"), 14);
    assert_eq!(number_of("((7))"), 7);
    assert_eq!(number_of("(1 + 2) * (3 + 4)"), 21);
}

#[test]
fn unary_operators_bind_tightest() {
    assert_eq!(number_of("-2 + 3"), 1);
    assert_eq!(number_of("3 * -2"), -6);
    assert_eq!(number_of("- - 2"), 2);
    assert_eq!(number_of("-(2 + 3)"), -5);
    assert!(truth_of("!(1 = 2)"));
    assert!(!truth_of("! ! (1 = 2)"));
}

#[test]
fn comparisons_bind_loosest() {
    assert!(truth_of("1 + 2 = 3"));
    assert!(truth_of("2 * 3 > 5"));
    assert!(truth_of("1 <> 2"));
    assert!(truth_of("2 <= 2"));
    assert!(truth_of("3 >= 1 + 2"));
    assert!(!truth_of("1 + 1 < 2"));
}

#[test]
fn unclosed_parenthesis_is_mismatched() {
    assert_eq!(postfix_of("(1 + 2"), Err(ParseError::MismatchedParenthesis));
    assert_eq!(
        value_in("(1 + 2", &RBasicContext::new()).unwrap_err(),
        ExpressionError::Parse(ParseError::MismatchedParenthesis)
    );
}

#[test]
fn unopened_parenthesis_is_mismatched() {
    assert_eq!(postfix_of("1 + 2)"), Err(ParseError::MismatchedParenthesis));
    assert_eq!(postfix_of(")"), Err(ParseError::MismatchedParenthesis));
}

#[test]
fn keyword_in_an_expression_is_unexpected() {
    assert_eq!(postfix_of("1 + GOTO"), Err(ParseError::UnexpectedToken { pos: 6 }));
    assert_eq!(
        ParseError::UnexpectedToken { pos: 6 }.message(),
        "Unexpected token in expression at 6"
    );
    assert_eq!(
        ParseError::MismatchedParenthesis.message(),
        "Mismatched parenthesis in expression"
    );
}

#[test]
fn parsing_stops_before_then() {
    let tokens = tokens_of("1 + 2 THEN 30");
    let mut cursor = 0;
    let queue = parse_expression(&tokens, &mut cursor).unwrap();
    assert_eq!(cursor, 3);
    assert_eq!(
        queue.into_iter().collect::<Vec<Token>>(),
        vec![Token::Number(1), Token::Number(2), Token::Plus]
    );
    let mut cursor = 4;
    let queue = parse_expression(&tokens, &mut cursor).unwrap();
    assert_eq!(cursor, 5);
    assert_eq!(queue.into_iter().collect::<Vec<Token>>(), vec![Token::Number(30)]);
}

#[test]
fn parsing_from_the_end_gives_the_empty_queue() {
    let tokens = tokens_of("1");
    let mut cursor = 1;
    assert_eq!(parse_expression(&tokens, &mut cursor).unwrap().len(), 0);
    assert_eq!(cursor, 1);
    let mut cursor = 9;
    assert_eq!(parse_expression(&tokens, &mut cursor).unwrap().len(), 0);
    assert_eq!(cursor, 9);
}

#[test]
fn variables_have_the_values_of_the_context() {
    let mut context = RBasicContext::new();
    assert!(context.get("A").is_none());
    context.set("A".to_string(), RBasicValue::Number(5));
    context.set("name".to_string(), RBasicValue::String("x".to_string()));
    assert!(matches!(context.get("A"), Some(RBasicValue::Number(5))));
    assert!(matches!(value_in("A * 2 + 1", &context), Ok(RBasicValue::Number(11))));
    match value_in("name + name", &context) {
        Ok(RBasicValue::String(s)) => assert_eq!(s, "xx"),
        other => panic!("no text: {:?}", other),
    }
    context.set("A".to_string(), RBasicValue::Number(6));
    assert!(matches!(value_in("A", &context), Ok(RBasicValue::Number(6))));
    assert!(matches!(value_in("a", &context), Err(ExpressionError::Eval(_))));
}

#[test]
fn undefined_variable_is_an_error() {
    let error = value_in("B + 1", &RBasicContext::new()).unwrap_err();
    assert_eq!(
        error,
        ExpressionError::Eval(EvalError::UndefinedVariable { name: "B".to_string() })
    );
    assert_eq!(error.message(), "Invalid variable reference B in expression");
}

#[test]
fn operator_without_operands_is_an_error() {
    assert_eq!(
        value_in("1 +", &RBasicContext::new()).unwrap_err(),
        ExpressionError::Eval(EvalError::MissingOperand)
    );
    assert_eq!(
        value_in("-", &RBasicContext::new()).unwrap_err(),
        ExpressionError::Eval(EvalError::MissingOperand)
    );
    assert_eq!(
        value_in("= 1", &RBasicContext::new()).unwrap_err(),
        ExpressionError::Eval(EvalError::MissingOperand)
    );
    assert_eq!(EvalError::MissingOperand.message(), "Operator requires an operand!");
}

#[test]
fn expression_must_leave_one_value() {
    assert_eq!(
        value_in("", &RBasicContext::new()).unwrap_err(),
        ExpressionError::Eval(EvalError::NotOneValue)
    );
    assert_eq!(
        value_in("1 2", &RBasicContext::new()).unwrap_err(),
        ExpressionError::Eval(EvalError::NotOneValue)
    );
    assert_eq!(EvalError::NotOneValue.message(), "Invalid expression!");
}

#[test]
fn operator_errors_come_through() {
    assert_eq!(
        value_in("1 / 0", &RBasicContext::new()).unwrap_err(),
        ExpressionError::Eval(EvalError::Value(ValueError::DivisionByZero))
    );
    assert_eq!(
        value_in("-\"a\"", &RBasicContext::new()).unwrap_err(),
        ExpressionError::Eval(EvalError::Value(ValueError::Negate))
    );
    assert_eq!(
        value_in("!1", &RBasicContext::new()).unwrap_err(),
        ExpressionError::Eval(EvalError::Value(ValueError::Not))
    );
}

#[test]
fn right_operand_is_the_one_on_top() {
    let queue: VecDeque<Token> =
        vec![Token::Number(7), Token::Number(2), Token::Minus].into_iter().collect();
    assert!(matches!(
        evaluate_postfix(&queue, &RBasicContext::new()),
        Ok(RBasicValue::Number(5))
    ));
    let queue: VecDeque<Token> =
        vec![Token::Number(7), Token::Number(2), Token::LessThan].into_iter().collect();
    assert!(matches!(
        evaluate_postfix(&queue, &RBasicContext::new()),
        Ok(RBasicValue::Bool(false))
    ));
}

#[test]
fn queue_with_a_parenthesis_is_an_error() {
    let queue: VecDeque<Token> = vec![Token::Number(7), Token::LParen].into_iter().collect();
    assert_eq!(
        evaluate_postfix(&queue, &RBasicContext::new()).unwrap_err(),
        EvalError::UnexpectedToken
    );
}
