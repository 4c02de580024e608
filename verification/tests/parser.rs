use std::collections::VecDeque;

use cabin::lexer::{Span, Token, TokenType};
use cabin::parser::expressions::name::Name;
use cabin::parser::expressions::operators::BinaryOperation;
use cabin::parser::expressions::literals::group::parse_compile_time_parameters;
use cabin::parser::{parse_name_list, ListType, Parse, ParseError, ToCabin, TokenQueueFunctionality};

fn token(token_type: TokenType, value: &str, start: usize) -> Token {
    Token { token_type, value: value.to_string(), span: Span { start, length: value.len() } }
}

fn queue() -> VecDeque<Token> {
    let mut tokens = VecDeque::new();
    tokens.push_back(token(TokenType::Identifier, "x", 0));
    tokens.push_back(token(TokenType::Equal, "=", 2));
    tokens.push_back(token(TokenType::Number, "1", 4));
    tokens
}

#[test]
fn peeking_leaves_the_queue() {
    let tokens = queue();
    assert_eq!(tokens.peek(), Ok("x"));
    assert_eq!(tokens.peek_type(), Ok(TokenType::Identifier));
    assert_eq!(tokens.peek_type2(), Ok(TokenType::Equal));
    assert!(tokens.next_is(TokenType::Identifier));
    assert!(!tokens.next_is(TokenType::Equal));
    assert!(tokens.next_is_one_of(&[TokenType::Number, TokenType::Identifier]));
    assert!(!tokens.next_is_one_of(&[TokenType::Number]));
    assert_eq!(tokens.current_position(), Some(Span { start: 0, length: 1 }));
    assert_eq!(tokens.len(), 3);
}

#[test]
fn popping_checks_the_type() {
    let mut tokens = queue();
    assert_eq!(tokens.pop(TokenType::Identifier).unwrap().value, "x");
    assert_eq!(
        tokens.pop_type(TokenType::Number),
        Err(ParseError::ExpectedToken { expected: TokenType::Number, found: TokenType::Equal })
    );
    assert_eq!(tokens.pop_type(TokenType::Number), Ok(TokenType::Number));
    assert_eq!(
        tokens.pop(TokenType::Comma).map(|t| t.value),
        Err(ParseError::UnexpectedEndOfFile { expected_type: Some(TokenType::Comma) })
    );
}

#[test]
fn empty_queue_has_nothing_to_peek() {
    let tokens: VecDeque<Token> = VecDeque::new();
    assert_eq!(tokens.peek(), Err(ParseError::UnexpectedEndOfFile { expected_type: None }));
    assert_eq!(tokens.peek_type(), Err(ParseError::UnexpectedEndOfFile { expected_type: None }));
    assert_eq!(tokens.current_position(), None);
    assert!(!tokens.next_is(TokenType::Comma));
}

#[test]
fn list_types_open_and_close() {
    assert_eq!(ListType::Parenthesized.opening(), TokenType::LeftParenthesis);
    assert_eq!(ListType::Parenthesized.closing(), TokenType::RightParenthesis);
    assert_eq!(ListType::Tag.opening(), TokenType::TagOpening);
    assert_eq!(ListType::Tag.closing(), TokenType::RightBracket);
    assert_eq!(ListType::AngleBracketed.closing(), TokenType::RightAngleBracket);
}

#[test]
fn names_are_parsed_from_identifiers() {
    let mut tokens = queue();
    let name = Name::parse(&mut tokens).unwrap();
    assert_eq!(name.unmangled_name(), "x");
    assert_eq!(name.span(), Span { start: 0, length: 1 });
    assert_eq!(name.mangled_name(), "u_x");
    assert_eq!(name.to_cabin(), "x");
    assert_eq!(tokens.len(), 2);
    assert_eq!(
        Name::parse(&mut tokens).map(|name| name.to_cabin()),
        Err(ParseError::ExpectedToken { expected: TokenType::Identifier, found: TokenType::Equal })
    );
    assert_eq!(tokens.len(), 1);
}

#[test]
fn names_are_equal_by_text() {
    assert!(Name::new("a") == Name::with_span("a".to_string(), Span { start: 3, length: 1 }));
    assert!(Name::new("a") != Name::new("b"));
    assert!(Name::new("a") == Name::non_mangled("a"));
}

fn tokens(list: &[(TokenType, &str)]) -> VecDeque<Token> {
    list.iter().enumerate().map(|(i, (t, v))| token(*t, v, i)).collect()
}

fn texts(names: &[Name]) -> Vec<&str> {
    names.iter().map(|name| name.unmangled_name()).collect()
}

#[test]
fn name_lists_are_parsed() {
    let mut queue = tokens(&[
        (TokenType::LeftAngleBracket, "<"),
        (TokenType::Identifier, "A"),
        (TokenType::Comma, ","),
        (TokenType::Identifier, "B"),
        (TokenType::RightAngleBracket, ">"),
        (TokenType::LeftBrace, "{"),
    ]);
    let (names, end) = parse_name_list(&mut queue, ListType::AngleBracketed).unwrap();
    assert_eq!(end, Span { start: 4, length: 1 });
    assert_eq!(texts(&names), vec!["A", "B"]);
    assert_eq!(names[1].span(), Span { start: 3, length: 1 });
    assert_eq!(queue.len(), 1);

    let mut trailing = tokens(&[
        (TokenType::LeftParenthesis, "("),
        (TokenType::Identifier, "a"),
        (TokenType::Comma, ","),
        (TokenType::RightParenthesis, ")"),
    ]);
    assert_eq!(texts(&parse_name_list(&mut trailing, ListType::Parenthesized).unwrap().0), vec!["a"]);
    assert!(trailing.is_empty());

    let mut empty = tokens(&[(TokenType::LeftBracket, "["), (TokenType::RightBracket, "]")]);
    assert!(parse_name_list(&mut empty, ListType::Bracketed).unwrap().0.is_empty());
}

#[test]
fn malformed_name_lists_are_refused() {
    let mut missing_close = tokens(&[(TokenType::LeftAngleBracket, "<"), (TokenType::Identifier, "A")]);
    assert_eq!(
        parse_name_list(&mut missing_close, ListType::AngleBracketed).map(|(names, _)| names.len()),
        Err(ParseError::UnexpectedEndOfFile { expected_type: Some(TokenType::RightAngleBracket) })
    );
    let mut not_a_name = tokens(&[(TokenType::LeftAngleBracket, "<"), (TokenType::Number, "1")]);
    assert_eq!(
        parse_name_list(&mut not_a_name, ListType::AngleBracketed).map(|(names, _)| names.len()),
        Err(ParseError::ExpectedToken { expected: TokenType::Identifier, found: TokenType::Number })
    );
    let mut wrong_open = tokens(&[(TokenType::LeftBrace, "{")]);
    assert_eq!(
        parse_name_list(&mut wrong_open, ListType::AngleBracketed).map(|(names, _)| names.len()),
        Err(ParseError::ExpectedToken { expected: TokenType::LeftAngleBracket, found: TokenType::LeftBrace })
    );
}

#[test]
fn compile_time_parameters_are_optional() {
    let mut without = tokens(&[(TokenType::LeftBrace, "{")]);
    assert!(parse_compile_time_parameters(&mut without).unwrap().is_none());
    assert_eq!(without.len(), 1);
    let mut with = tokens(&[(TokenType::LeftAngleBracket, "<"), (TokenType::Identifier, "T"), (TokenType::RightAngleBracket, ">")]);
    assert_eq!(texts(&parse_compile_time_parameters(&mut with).unwrap().unwrap()), vec!["T"]);
}

#[test]
fn operator_groups_descend_to_exponentiation() {
    let mut operation = BinaryOperation::Assignment;
    let mut seen = vec![operation];
    while let Some(next) = operation.precedent() {
        operation = next;
        seen.push(operation);
    }
    assert_eq!(seen.len(), 5);
    assert_eq!(operation, BinaryOperation::Exponentiation);
    assert_eq!(BinaryOperation::Additive.token_types(), vec![TokenType::Plus, TokenType::Minus]);
    assert_eq!(BinaryOperation::Exponentiation.token_types(), vec![TokenType::Caret]);
}
