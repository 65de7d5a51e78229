use lait::ast::{Expression, ExpressionNode, Operator, StatementNode};
use lait::error::SyntaxErrorKind;
use lait::parser::Parser;
use lait::token::{Position, Span, Token, TokenType};
use lait::types::Type;

fn tok(token_type: TokenType, lexeme: &str) -> Token {
    Token {
        token_type,
        lexeme: lexeme.to_string(),
        line: 1,
        line_len: 40,
        slice: Span { start: 0, end: 1 },
    }
}

fn int_of(e: &Expression) -> u128 {
    match &e.node {
        ExpressionNode::Int(v) => *v,
        other => panic!("expected an integer literal, got {:?}", other),
    }
}

fn binary_of(e: &Expression) -> (&Expression, Operator, &Expression) {
    match &e.node {
        ExpressionNode::Binary(l, op, r) => (l, *op, r),
        other => panic!("expected a binary node, got {:?}", other),
    }
}

fn parse_one_expression(tokens: Vec<Token>) -> Expression {
    let mut parser = Parser::new(tokens);
    match parser.parse_expression() {
        Ok(e) => e,
        Err(e) => panic!("parse failed: {:?}", e),
    }
}

#[test]
fn precedence_groups_higher_tier_innermost() {
    // 1 + 2 * 3 parses as Add(1, Mul(2, 3)).
    let e = parse_one_expression(vec![
        tok(TokenType::Int, "1"),
        tok(TokenType::Operator, "+"),
        tok(TokenType::Int, "2"),
        tok(TokenType::Operator, "*"),
        tok(TokenType::Int, "3"),
    ]);
    let (l, op, r) = binary_of(&e);
    assert_eq!(op, Operator::Add);
    assert_eq!(int_of(l), 1);
    let (rl, rop, rr) = binary_of(r);
    assert_eq!(rop, Operator::Mul);
    assert_eq!(int_of(rl), 2);
    assert_eq!(int_of(rr), 3);
}

#[test]
fn equal_precedence_chain_nests_to_the_right() {
    // Deferred reduction groups 1 + 2 + 3 as Add(1, Add(2, 3)), not as
    // the conventional Add(Add(1, 2), 3).
    let e = parse_one_expression(vec![
        tok(TokenType::Int, "1"),
        tok(TokenType::Operator, "+"),
        tok(TokenType::Int, "2"),
        tok(TokenType::Operator, "+"),
        tok(TokenType::Int, "3"),
    ]);
    let (l, op, r) = binary_of(&e);
    assert_eq!(op, Operator::Add);
    assert_eq!(int_of(l), 1);
    let (rl, rop, rr) = binary_of(r);
    assert_eq!(rop, Operator::Add);
    assert_eq!(int_of(rl), 2);
    assert_eq!(int_of(rr), 3);
}

#[test]
fn equal_precedence_multiplicative_chain_nests_to_the_right() {
    let e = parse_one_expression(vec![
        tok(TokenType::Int, "2"),
        tok(TokenType::Operator, "*"),
        tok(TokenType::Int, "3"),
        tok(TokenType::Operator, "*"),
        tok(TokenType::Int, "4"),
    ]);
    let (l, op, r) = binary_of(&e);
    assert_eq!(op, Operator::Mul);
    assert_eq!(int_of(l), 2);
    let (rl, rop, rr) = binary_of(r);
    assert_eq!(rop, Operator::Mul);
    assert_eq!(int_of(rl), 3);
    assert_eq!(int_of(rr), 4);
}

#[test]
fn falling_precedence_reduces_before_continuing() {
    // 2 * 3 + 4 parses as Add(Mul(2, 3), 4).
    let e = parse_one_expression(vec![
        tok(TokenType::Int, "2"),
        tok(TokenType::Operator, "*"),
        tok(TokenType::Int, "3"),
        tok(TokenType::Operator, "+"),
        tok(TokenType::Int, "4"),
    ]);
    let (l, op, r) = binary_of(&e);
    assert_eq!(op, Operator::Add);
    assert_eq!(int_of(r), 4);
    let (ll, lop, lr) = binary_of(l);
    assert_eq!(lop, Operator::Mul);
    assert_eq!(int_of(ll), 2);
    assert_eq!(int_of(lr), 3);
}

#[test]
fn atom_on_empty_stream_is_end_of_input() {
    let mut parser = Parser::new(Vec::new());
    let e = parser.parse_atom().expect("an empty stream still yields an atom");
    assert!(matches!(e.node, ExpressionNode::EOF));
    assert_eq!(e.pos, Position::Unresolved);
}

#[test]
fn literal_atoms_carry_their_values() {
    let mut parser = Parser::new(vec![
        tok(TokenType::Bool, "true"),
        tok(TokenType::Bool, "false"),
        tok(TokenType::Char, "ab"),
        tok(TokenType::Str, "hello"),
        tok(TokenType::Float, "1.5"),
    ]);
    assert!(matches!(parser.parse_atom().unwrap().node, ExpressionNode::Bool(true)));
    assert!(matches!(parser.parse_atom().unwrap().node, ExpressionNode::Bool(false)));
    // A character literal takes the last character of its lexeme.
    assert!(matches!(parser.parse_atom().unwrap().node, ExpressionNode::Char('b')));
    match parser.parse_atom().unwrap().node {
        ExpressionNode::Str(s) => assert_eq!(s, "hello"),
        other => panic!("expected a string literal, got {:?}", other),
    }
    match parser.parse_atom().unwrap().node {
        ExpressionNode::Float(s) => assert_eq!(s, "1.5"),
        other => panic!("expected a float literal, got {:?}", other),
    }
}

#[test]
fn int_literal_at_the_top_of_the_range_parses() {
    let mut parser = Parser::new(vec![tok(
        TokenType::Int,
        "340282366920938463463374607431768211455",
    )]);
    let e = parser.parse_atom().unwrap();
    assert_eq!(int_of(&e), u128::MAX);
}

#[test]
fn int_literal_beyond_the_range_is_refused() {
    let mut parser = Parser::new(vec![tok(
        TokenType::Int,
        "340282366920938463463374607431768211456",
    )]);
    let err = parser.parse_atom().unwrap_err();
    assert!(matches!(err.kind, SyntaxErrorKind::InvalidIntLiteral));
}

#[test]
fn int_literal_with_other_characters_is_refused() {
    let mut parser = Parser::new(vec![tok(TokenType::Int, "12x4")]);
    let err = parser.parse_atom().unwrap_err();
    assert!(matches!(err.kind, SyntaxErrorKind::InvalidIntLiteral));
}

#[test]
fn declaration_with_inference_marker() {
    // x: = 5
    let mut parser = Parser::new(vec![
        tok(TokenType::Identifier, "x"),
        tok(TokenType::Symbol, ":"),
        tok(TokenType::Symbol, "="),
        tok(TokenType::Int, "5"),
    ]);
    let ast = parser.parse().unwrap();
    assert_eq!(ast.len(), 1);
    match &ast[0].node {
        StatementNode::Variable(t, name, Some(init)) => {
            assert_eq!(*t, Type::Nil);
            assert!(matches!(&name.node, ExpressionNode::Identifier(n) if n == "x"));
            assert_eq!(int_of(init), 5);
        },
        other => panic!("expected a declaration, got {:?}", other),
    }
}

#[test]
fn declaration_with_annotation_and_no_initializer() {
    // x: int
    let mut parser = Parser::new(vec![
        tok(TokenType::Identifier, "x"),
        tok(TokenType::Symbol, ":"),
        tok(TokenType::Identifier, "int"),
    ]);
    let ast = parser.parse().unwrap();
    match &ast[0].node {
        StatementNode::Variable(t, _, None) => assert_eq!(*t, Type::Int),
        other => panic!("expected a bare declaration, got {:?}", other),
    }
}

#[test]
fn declaration_with_named_user_type() {
    // x: Foo = y
    let mut parser = Parser::new(vec![
        tok(TokenType::Identifier, "x"),
        tok(TokenType::Symbol, ":"),
        tok(TokenType::Identifier, "Foo"),
        tok(TokenType::Symbol, "="),
        tok(TokenType::Identifier, "y"),
    ]);
    let ast = parser.parse().unwrap();
    match &ast[0].node {
        StatementNode::Variable(t, _, Some(_)) => assert_eq!(*t, Type::Id("Foo".to_string())),
        other => panic!("expected a declaration, got {:?}", other),
    }
}

#[test]
fn statements_are_separated_by_blank_lines() {
    let mut parser = Parser::new(vec![
        tok(TokenType::EOL, "\n"),
        tok(TokenType::Int, "1"),
        tok(TokenType::EOL, "\n"),
        tok(TokenType::EOL, "\n"),
        tok(TokenType::Int, "2"),
    ]);
    let ast = parser.parse().unwrap();
    assert_eq!(ast.len(), 2);
    match &ast[0].node {
        StatementNode::Expression(e) => assert_eq!(int_of(e), 1),
        other => panic!("expected an expression statement, got {:?}", other),
    }
}

#[test]
fn unexpected_symbol_after_identifier_is_refused() {
    let mut parser = Parser::new(vec![
        tok(TokenType::Identifier, "x"),
        tok(TokenType::Symbol, ";"),
    ]);
    let err = parser.parse().unwrap_err();
    match err.kind {
        SyntaxErrorKind::UnexpectedSymbol(s) => assert_eq!(s, ";"),
        other => panic!("expected the unexpected-symbol error, got {:?}", other),
    }
}

#[test]
fn leading_symbol_cannot_begin_an_atom() {
    let mut parser = Parser::new(vec![tok(TokenType::Symbol, ":")]);
    let err = parser.parse().unwrap_err();
    assert!(matches!(err.kind, SyntaxErrorKind::UnsupportedToken));
}

#[test]
fn annotation_that_is_no_identifier_is_refused() {
    // x: 5
    let mut parser = Parser::new(vec![
        tok(TokenType::Identifier, "x"),
        tok(TokenType::Symbol, ":"),
        tok(TokenType::Int, "5"),
    ]);
    let err = parser.parse().unwrap_err();
    match err.kind {
        SyntaxErrorKind::ExpectedType(s) => assert_eq!(s, "5"),
        other => panic!("expected the expected-type error, got {:?}", other),
    }
}

#[test]
fn input_ending_inside_an_operation_is_refused() {
    // 1 * 2 +   — the falling-precedence reduction finds no right operand.
    let mut parser = Parser::new(vec![
        tok(TokenType::Int, "1"),
        tok(TokenType::Operator, "*"),
        tok(TokenType::Int, "2"),
        tok(TokenType::Operator, "+"),
    ]);
    let err = parser.parse().unwrap_err();
    assert!(matches!(err.kind, SyntaxErrorKind::EofInOperation));
}

#[test]
fn cursor_refuses_to_move_past_one_beyond_the_end() {
    let mut parser = Parser::new(vec![tok(TokenType::Int, "1")]);
    assert!(parser.next().is_ok());
    assert!(parser.next().is_ok());
    let err = parser.next().unwrap_err();
    assert!(matches!(err.kind, SyntaxErrorKind::CursorPastEnd));
}

#[test]
fn cursor_peeks_clamp_to_the_last_token() {
    let mut parser = Parser::new(vec![tok(TokenType::Int, "7")]);
    assert!(parser.next().is_ok());
    assert_eq!(parser.remaining(), 0);
    assert_eq!(parser.current_lexeme(), "7");
    assert_eq!(*parser.current_type(), TokenType::Int);
}

#[test]
fn eat_lexeme_and_eat_type_check_before_advancing() {
    let mut parser = Parser::new(vec![
        tok(TokenType::Symbol, ":"),
        tok(TokenType::Identifier, "x"),
    ]);
    let err = parser.eat_lexeme("=").unwrap_err();
    match err.kind {
        SyntaxErrorKind::ExpectedLexeme(expected, found) => {
            assert_eq!(expected, "=");
            assert_eq!(found, ":");
        },
        other => panic!("expected the expected-lexeme error, got {:?}", other),
    }
    assert_eq!(parser.eat_lexeme(":").unwrap(), ":");
    let err = parser.eat_type(&TokenType::Int).unwrap_err();
    assert!(matches!(
        err.kind,
        SyntaxErrorKind::ExpectedTokenType(TokenType::Int, TokenType::Identifier)
    ));
    assert!(parser.expect_type(TokenType::Identifier).is_ok());
    assert!(parser.expect_type(TokenType::Bool).is_err());
    assert_eq!(parser.eat_type(&TokenType::Identifier).unwrap(), "x");
}

#[test]
fn operator_lexemes_round_trip() {
    assert_eq!(Operator::from_str("+"), Some((Operator::Add, 1)));
    assert_eq!(Operator::from_str("++"), Some((Operator::Concat, 1)));
    assert_eq!(Operator::from_str("^"), Some((Operator::Pow, 3)));
    assert_eq!(Operator::from_str("<="), Some((Operator::LtEq, 0)));
    assert_eq!(Operator::from_str("%"), Some((Operator::Mod, 2)));
    assert_eq!(Operator::from_str("&&"), None);
    assert_eq!(Operator::Add.as_str(), "+");
    assert_eq!(Operator::NEq.as_str(), "!=");
    for lexeme in ["==", "<", ">", "!=", "<=", ">=", "+", "-", "++", "*", "/", "%", "^"] {
        let (op, _) = Operator::from_str(lexeme).unwrap();
        assert_eq!(op.as_str(), lexeme);
    }
}

#[test]
fn expression_spans_merge_left_start_with_cursor_end() {
    let mut one = tok(TokenType::Int, "1");
    one.slice = Span { start: 3, end: 4 };
    let mut plus = tok(TokenType::Operator, "+");
    plus.slice = Span { start: 5, end: 6 };
    let mut two = tok(TokenType::Int, "2");
    two.slice = Span { start: 7, end: 8 };
    let e = parse_one_expression(vec![one, plus, two]);
    match e.pos {
        Position::Resolved { line, line_len, span } => {
            assert_eq!(line, 1);
            assert_eq!(line_len, 40);
            assert_eq!(span.start, 3);
        },
        Position::Unresolved => panic!("a parsed expression has a resolved position"),
    }
}
