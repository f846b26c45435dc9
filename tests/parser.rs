use wu::ast::{Expression, ExpressionNode, Operator, StatementNode};
use wu::lexer::{Token, TokenPosition, TokenType};
use wu::parser::{ErrorKind, Parser};

fn tok(token_type: TokenType, content: &str, col: usize) -> Token {
    Token::new(token_type, content.to_string(), TokenPosition::new(1, col))
}

/// One line of tokens: the given words, one space token between each two.
fn tokens_of(words: &[(TokenType, &str)]) -> Vec<Token> {
    let mut col = 0;
    let mut out = Vec::new();
    for (i, (t, w)) in words.iter().enumerate() {
        if i > 0 {
            out.push(tok(TokenType::Whitespace, " ", col));
            col += 1;
        }
        out.push(tok(*t, w, col));
        col += w.len();
    }
    out
}

fn with_eol(mut tokens: Vec<Token>) -> Vec<Token> {
    let col = tokens.len();
    tokens.push(tok(TokenType::EOL, "\n", col));
    tokens
}

fn int_of(e: &Expression) -> i64 {
    match e.0 {
        ExpressionNode::Int(v) => v,
        _ => panic!("not an integer: {:?}", e),
    }
}

fn binary_of(e: &Expression) -> (&Expression, Operator, &Expression) {
    match &e.0 {
        ExpressionNode::Binary { left, op, right } => (left, *op, right),
        _ => panic!("not a binary expression: {:?}", e),
    }
}

fn single_expression(tokens: Vec<Token>) -> Expression {
    let lines: Vec<String> = Vec::new();
    let mut parser = Parser::new(tokens, &lines, "test.wu");
    let mut statements = parser.parse().expect("parse failed");
    assert_eq!(statements.len(), 1);
    match statements.pop().unwrap().0 {
        StatementNode::Expression(e) => e,
        other => panic!("not an expression statement: {:?}", other),
    }
}

use TokenType::{Identifier as Id, Int, Operator as Op};

#[test]
fn multiplication_binds_tighter_than_addition() {
    let e = single_expression(with_eol(tokens_of(&[(Int, "1"), (Op, "+"), (Int, "2"), (Op, "*"), (Int, "3")])));
    let (l, op, r) = binary_of(&e);
    assert_eq!(op, Operator::Add);
    assert_eq!(int_of(l), 1);
    let (rl, rop, rr) = binary_of(r);
    assert_eq!(rop, Operator::Mul);
    assert_eq!(int_of(rl), 2);
    assert_eq!(int_of(rr), 3);
}

#[test]
fn product_first_then_sum() {
    let e = single_expression(with_eol(tokens_of(&[(Int, "1"), (Op, "*"), (Int, "2"), (Op, "+"), (Int, "3")])));
    let (l, op, r) = binary_of(&e);
    assert_eq!(op, Operator::Add);
    let (ll, lop, lr) = binary_of(l);
    assert_eq!(lop, Operator::Mul);
    assert_eq!((int_of(ll), int_of(lr), int_of(r)), (1, 2, 3));
}

#[test]
fn equal_precedence_groups_left() {
    let e = single_expression(with_eol(tokens_of(&[(Int, "1"), (Op, "+"), (Int, "2"), (Op, "+"), (Int, "3")])));
    let (l, op, r) = binary_of(&e);
    assert_eq!(op, Operator::Add);
    assert_eq!(int_of(r), 3);
    let (ll, lop, lr) = binary_of(l);
    assert_eq!(lop, Operator::Add);
    assert_eq!((int_of(ll), int_of(lr)), (1, 2));
}

#[test]
fn subtraction_chain_groups_left() {
    let e = single_expression(with_eol(tokens_of(&[(Int, "8"), (Op, "-"), (Int, "4"), (Op, "-"), (Int, "2")])));
    let (l, op, r) = binary_of(&e);
    assert_eq!(op, Operator::Sub);
    assert_eq!(int_of(r), 2);
    let (ll, _, lr) = binary_of(l);
    assert_eq!((int_of(ll), int_of(lr)), (8, 4));
}

#[test]
fn assignment_statement() {
    let lines: Vec<String> = Vec::new();
    let tokens = with_eol(tokens_of(&[(Id, "x"), (Op, "="), (Int, "5")]));
    let mut parser = Parser::new(tokens, &lines, "test.wu");
    let statements = parser.parse().expect("parse failed");
    assert_eq!(statements.len(), 1);
    match &statements[0].0 {
        StatementNode::Assignment { left, right } => {
            match &left.0 {
                ExpressionNode::Identifier(name) => assert_eq!(name, "x"),
                other => panic!("left side is {:?}", other),
            }
            assert_eq!(int_of(right), 5);
        }
        other => panic!("not an assignment: {:?}", other),
    }
}

#[test]
fn bare_identifier_consumes_only_itself() {
    let lines: Vec<String> = Vec::new();
    let tokens = with_eol(tokens_of(&[(Id, "x")]));
    let mut parser = Parser::new(tokens, &lines, "test.wu");
    let statements = parser.parse().expect("parse failed");
    assert_eq!(statements.len(), 1);
    match &statements[0].0 {
        StatementNode::Expression(e) => match &e.0 {
            ExpressionNode::Identifier(name) => assert_eq!(name, "x"),
            other => panic!("expression is {:?}", other),
        },
        other => panic!("not an expression statement: {:?}", other),
    }
    assert_eq!(parser.top, 1);
}

#[test]
fn dangling_operator_is_missing_right_hand() {
    let lines: Vec<String> = Vec::new();
    let tokens = tokens_of(&[(Int, "1"), (Op, "+")]);
    let plus = tokens[2].position;
    let mut parser = Parser::new(tokens, &lines, "test.wu");
    let err = parser.parse().unwrap_err();
    assert!(matches!(err.kind, ErrorKind::MissingRightHand));
    assert_eq!(err.position, Some(plus));
}

#[test]
fn parsing_twice_gives_the_same_tree() {
    let words = [(Int, "4"), (Op, "*"), (Int, "5"), (Op, "-"), (Int, "6")];
    let a = single_expression(with_eol(tokens_of(&words)));
    let b = single_expression(with_eol(tokens_of(&words)));
    assert_eq!(format!("{:?}", a), format!("{:?}", b));
}

#[test]
fn assignment_needs_end_of_line() {
    let lines: Vec<String> = Vec::new();
    let tokens = with_eol(tokens_of(&[(Id, "x"), (Op, "="), (Int, "5"), (Int, "6")]));
    let mut parser = Parser::new(tokens, &lines, "test.wu");
    let err = parser.parse().unwrap_err();
    match err.kind {
        ErrorKind::ExpectedType { expected, found } => {
            assert_eq!(expected, TokenType::EOL);
            assert_eq!(found, " ");
        }
        other => panic!("unexpected error {:?}", other),
    }
}

#[test]
fn integer_out_of_range_is_malformed() {
    let lines: Vec<String> = Vec::new();
    let mut parser = Parser::new(with_eol(tokens_of(&[(Int, "9223372036854775808")])), &lines, "t");
    let err = parser.parse().unwrap_err();
    assert!(matches!(err.kind, ErrorKind::MalformedNumber(ref t) if t == "9223372036854775808"));
    assert_eq!(err.position, Some(TokenPosition::new(1, 0)));
}

#[test]
fn largest_integer_is_read() {
    let e = single_expression(with_eol(tokens_of(&[(Int, "9223372036854775807")])));
    assert_eq!(int_of(&e), i64::MAX);
}

#[test]
fn integer_with_letters_is_malformed() {
    let lines: Vec<String> = Vec::new();
    let mut parser = Parser::new(with_eol(tokens_of(&[(Int, "12a")])), &lines, "t");
    assert!(matches!(parser.parse().unwrap_err().kind, ErrorKind::MalformedNumber(_)));
}

#[test]
fn float_literal_keeps_its_text() {
    let e = single_expression(with_eol(tokens_of(&[(TokenType::Float, "1.5")])));
    match e.0 {
        ExpressionNode::Float(text) => assert_eq!(text, "1.5"),
        other => panic!("not a float: {:?}", other),
    }
}

#[test]
fn float_with_two_points_is_malformed() {
    let lines: Vec<String> = Vec::new();
    let mut parser = Parser::new(with_eol(tokens_of(&[(TokenType::Float, "1.2.3")])), &lines, "t");
    assert!(matches!(parser.parse().unwrap_err().kind, ErrorKind::MalformedNumber(_)));
}

#[test]
fn bool_and_string_literals() {
    let t = single_expression(with_eol(tokens_of(&[(TokenType::Bool, "true")])));
    assert!(matches!(t.0, ExpressionNode::Bool(true)));
    let f = single_expression(with_eol(tokens_of(&[(TokenType::Bool, "false")])));
    assert!(matches!(f.0, ExpressionNode::Bool(false)));
    let s = single_expression(with_eol(tokens_of(&[(TokenType::Str, "hi")])));
    assert!(matches!(s.0, ExpressionNode::Str(ref v) if v == "hi"));
}

#[test]
fn unknown_operator_is_an_error() {
    let lines: Vec<String> = Vec::new();
    let tokens = with_eol(tokens_of(&[(Int, "1"), (Op, "@@"), (Int, "2")]));
    let mut parser = Parser::new(tokens, &lines, "t");
    let err = parser.parse().unwrap_err();
    assert!(matches!(err.kind, ErrorKind::UnknownOperator(ref t) if t == "@@"));
}

#[test]
fn unhandled_token_type_is_unimplemented() {
    let lines: Vec<String> = Vec::new();
    let tokens = with_eol(tokens_of(&[(TokenType::Symbol, "(")]));
    let mut parser = Parser::new(tokens, &lines, "t");
    let err = parser.parse().unwrap_err();
    assert!(matches!(err.kind, ErrorKind::Unimplemented(TokenType::Symbol)));
    assert_eq!(err.position, Some(TokenPosition::new(1, 0)));
}

#[test]
fn only_the_final_token_gives_no_statements() {
    let lines: Vec<String> = Vec::new();
    let mut parser = Parser::new(vec![tok(TokenType::EOL, "\n", 0)], &lines, "t");
    assert_eq!(parser.parse().unwrap().len(), 0);
}

#[test]
fn two_statements_in_order() {
    let lines: Vec<String> = Vec::new();
    let mut tokens = with_eol(tokens_of(&[(Id, "a"), (Op, "="), (Int, "1")]));
    tokens.extend(with_eol(tokens_of(&[(Id, "b"), (Op, "="), (Int, "2")])));
    let mut parser = Parser::new(tokens, &lines, "t");
    let statements = parser.parse().unwrap();
    assert_eq!(statements.len(), 2);
    for (s, want) in statements.iter().zip(["a", "b"]) {
        match &s.0 {
            StatementNode::Assignment { left, .. } => {
                assert!(matches!(&left.0, ExpressionNode::Identifier(n) if n == want))
            }
            other => panic!("not an assignment: {:?}", other),
        }
    }
}

#[test]
fn operator_table() {
    assert_eq!(Operator::from("+"), Some((Operator::Add, 2)));
    assert_eq!(Operator::from("*"), Some((Operator::Mul, 1)));
    assert_eq!(Operator::from("^"), Some((Operator::Pow, 0)));
    assert_eq!(Operator::from("=="), Some((Operator::Equal, 3)));
    assert_eq!(Operator::from("or"), Some((Operator::Or, 4)));
    assert_eq!(Operator::from("="), None);
}

#[test]
fn cursor_expectations() {
    let lines: Vec<String> = Vec::new();
    let tokens = with_eol(tokens_of(&[(Id, "x"), (Op, "=")]));
    let mut parser = Parser::new(tokens, &lines, "t");
    assert!(parser.expect_type(TokenType::Identifier).is_ok());
    assert!(parser.expect_content("y").is_err());
    assert_eq!(parser.current_content(), "x");
    assert_eq!(parser.consume_content("x").unwrap(), "x");
    assert_eq!(parser.current_type(), TokenType::Whitespace);
    assert!(matches!(
        parser.consume_type(TokenType::Operator).unwrap_err().kind,
        ErrorKind::ExpectedType { expected: TokenType::Operator, .. }
    ));
    assert_eq!(parser.consume_type(TokenType::Whitespace).unwrap(), " ");
    assert_eq!(parser.position(), TokenPosition::new(1, 2));
    assert_eq!(parser.current().content, "=");
}

#[test]
fn cursor_past_the_end_sees_the_last_token() {
    let lines: Vec<String> = Vec::new();
    let mut parser = Parser::new(with_eol(tokens_of(&[(Id, "x")])), &lines, "t");
    parser.top = 5;
    assert_eq!(parser.current_type(), TokenType::EOL);
}

#[test]
fn cursor_moves_back_but_not_before_the_start() {
    let lines: Vec<String> = Vec::new();
    let mut parser = Parser::new(with_eol(tokens_of(&[(Id, "x")])), &lines, "t");
    assert!(matches!(parser.back().unwrap_err().kind, ErrorKind::CursorBounds));
    parser.top = 1;
    assert!(parser.back().is_ok());
    assert_eq!(parser.top, 0);
}

#[test]
fn assignment_without_right_side_is_missing_right_hand() {
    let lines: Vec<String> = Vec::new();
    let tokens = tokens_of(&[(Id, "x"), (Op, "=")]);
    let equals = tokens[2].position;
    let mut parser = Parser::new(tokens, &lines, "t");
    let err = parser.parse().unwrap_err();
    assert!(matches!(err.kind, ErrorKind::MissingRightHand));
    assert_eq!(err.position, Some(equals));
}

#[test]
fn trailing_blanks_are_an_unexpected_end() {
    let lines: Vec<String> = Vec::new();
    let tokens = vec![tok(TokenType::EOL, "\n", 0), tok(TokenType::Whitespace, " ", 1)];
    let mut parser = Parser::new(tokens, &lines, "t");
    assert!(matches!(parser.parse().unwrap_err().kind, ErrorKind::UnexpectedEnd));
}

#[test]
fn parse_stops_at_the_final_token() {
    let lines: Vec<String> = Vec::new();
    let mut parser = Parser::new(with_eol(tokens_of(&[(Int, "1"), (Op, "+"), (Int, "2")])), &lines, "t");
    parser.parse().unwrap();
    assert_eq!(parser.top, 5);
    let mut lone = Parser::new(vec![tok(TokenType::EOL, "\n", 0)], &lines, "t");
    lone.parse().unwrap();
    assert_eq!(lone.top, 0);
}

#[test]
fn consume_at_the_end_is_a_bounds_error() {
    let lines: Vec<String> = Vec::new();
    let mut parser = Parser::new(vec![tok(TokenType::EOL, "\n", 0)], &lines, "t");
    assert_eq!(parser.consume_type(TokenType::EOL).unwrap(), "\n");
    assert_eq!(parser.top, 1);
    assert!(matches!(parser.consume_type(TokenType::EOL).unwrap_err().kind, ErrorKind::CursorBounds));
    assert_eq!(parser.top, 1);
}
