use lait::ast::{Expression, ExpressionNode, Statement};
use lait::error::SemanticErrorKind;
use lait::parser::Parser;
use lait::token::{Position, Span, Token, TokenType};
use lait::types::Type;
use lait::visitor::Visitor;

fn tok(token_type: TokenType, lexeme: &str) -> Token {
    Token {
        token_type,
        lexeme: lexeme.to_string(),
        line: 1,
        line_len: 40,
        slice: Span { start: 0, end: 1 },
    }
}

fn parse_program(tokens: Vec<Token>) -> Vec<Statement> {
    let mut parser = Parser::new(tokens);
    parser.parse().expect("the program parses")
}

fn ident(name: &str) -> Expression {
    Expression {
        node: ExpressionNode::Identifier(name.to_string()),
        pos: Position::Unresolved,
    }
}

#[test]
fn inference_records_the_initializer_type() {
    // x: = 5 gives the slot the inferred type Int.
    let ast = parse_program(vec![
        tok(TokenType::Identifier, "x"),
        tok(TokenType::Symbol, ":"),
        tok(TokenType::Symbol, "="),
        tok(TokenType::Int, "5"),
    ]);
    let mut visitor = Visitor::new();
    visitor.visit(&ast).expect("the program resolves");
    let frame = visitor.tab_frames.last().expect("the final scope is archived");
    let (index, levels) = frame.0.get_name("x").expect("x has a slot");
    assert_eq!((index, levels), (0, 0));
    assert_eq!(frame.1.get_type(index, levels), Ok(Type::Int));
}

#[test]
fn integer_literal_widens_to_declared_float() {
    // x: float = 5 type-checks and records Float.
    let ast = parse_program(vec![
        tok(TokenType::Identifier, "x"),
        tok(TokenType::Symbol, ":"),
        tok(TokenType::Identifier, "float"),
        tok(TokenType::Symbol, "="),
        tok(TokenType::Int, "5"),
    ]);
    let mut visitor = Visitor::new();
    visitor.visit(&ast).expect("the program resolves");
    let frame = visitor.tab_frames.last().unwrap();
    let (index, levels) = frame.0.get_name("x").unwrap();
    assert_eq!(frame.1.get_type(index, levels), Ok(Type::Float));
}

#[test]
fn integer_initializer_under_declared_bool_is_refused() {
    // x: bool = 5 fails, naming bool and int.
    let ast = parse_program(vec![
        tok(TokenType::Identifier, "x"),
        tok(TokenType::Symbol, ":"),
        tok(TokenType::Identifier, "bool"),
        tok(TokenType::Symbol, "="),
        tok(TokenType::Int, "5"),
    ]);
    let mut visitor = Visitor::new();
    let err = visitor.visit(&ast).unwrap_err();
    match err.kind {
        SemanticErrorKind::MismatchedTypes(expected, found) => {
            assert_eq!(expected, Type::Bool);
            assert_eq!(found, Type::Int);
            assert_eq!(expected.text(), "bool");
            assert_eq!(found.text(), "int");
        },
        other => panic!("expected the mismatched-types error, got {:?}", other),
    }
}

#[test]
fn boolean_initializer_under_declared_int_is_refused() {
    // The program of the front end's own smoke run: foo: int = false.
    let ast = parse_program(vec![
        tok(TokenType::Identifier, "foo"),
        tok(TokenType::Symbol, ":"),
        tok(TokenType::Identifier, "int"),
        tok(TokenType::Symbol, "="),
        tok(TokenType::Bool, "false"),
    ]);
    let mut visitor = Visitor::new();
    let err = visitor.visit(&ast).unwrap_err();
    assert!(matches!(
        err.kind,
        SemanticErrorKind::MismatchedTypes(Type::Int, Type::Bool)
    ));
}

#[test]
fn declared_type_equal_to_inferred_type_passes() {
    // x: bool = true records Bool.
    let ast = parse_program(vec![
        tok(TokenType::Identifier, "x"),
        tok(TokenType::Symbol, ":"),
        tok(TokenType::Identifier, "bool"),
        tok(TokenType::Symbol, "="),
        tok(TokenType::Bool, "true"),
    ]);
    let mut visitor = Visitor::new();
    visitor.visit(&ast).expect("the program resolves");
    let frame = visitor.tab_frames.last().unwrap();
    let (index, levels) = frame.0.get_name("x").unwrap();
    assert_eq!(frame.1.get_type(index, levels), Ok(Type::Bool));
}

#[test]
fn undeclared_identifier_is_refused_with_name_and_position() {
    let mut name_token = tok(TokenType::Identifier, "foo");
    name_token.slice = Span { start: 4, end: 7 };
    let expected_position = Position::Resolved {
        line: 1,
        line_len: 40,
        span: Span { start: 4, end: 7 },
    };
    let ast = parse_program(vec![name_token]);
    let mut visitor = Visitor::new();
    let err = visitor.visit(&ast).unwrap_err();
    match err.kind {
        SemanticErrorKind::Unresolved(name) => assert_eq!(name, "foo"),
        other => panic!("expected the unresolved error, got {:?}", other),
    }
    assert_eq!(err.position, expected_position);
}

#[test]
fn declared_name_resolves_in_later_statements() {
    // x: = 5 then x.
    let ast = parse_program(vec![
        tok(TokenType::Identifier, "x"),
        tok(TokenType::Symbol, ":"),
        tok(TokenType::Symbol, "="),
        tok(TokenType::Int, "5"),
        tok(TokenType::EOL, "\n"),
        tok(TokenType::Identifier, "x"),
    ]);
    let mut visitor = Visitor::new();
    assert!(visitor.visit(&ast).is_ok());
}

#[test]
fn redeclaration_in_the_same_scope_reuses_the_slot() {
    // x: = 5 then x: = true — one slot, refined type history.
    let ast = parse_program(vec![
        tok(TokenType::Identifier, "x"),
        tok(TokenType::Symbol, ":"),
        tok(TokenType::Symbol, "="),
        tok(TokenType::Int, "5"),
        tok(TokenType::EOL, "\n"),
        tok(TokenType::Identifier, "x"),
        tok(TokenType::Symbol, ":"),
        tok(TokenType::Symbol, "="),
        tok(TokenType::Bool, "true"),
    ]);
    let mut visitor = Visitor::new();
    visitor.visit(&ast).expect("the program resolves");
    let frame = visitor.tab_frames.last().unwrap();
    let (index, levels) = frame.0.get_name("x").unwrap();
    assert_eq!((index, levels), (0, 0));
    // The most recent entry wins.
    assert_eq!(frame.1.get_type(index, levels), Ok(Type::Bool));
}

#[test]
fn nested_scope_sees_outer_names_and_shadows_locally() {
    let outer_decl = parse_program(vec![
        tok(TokenType::Identifier, "x"),
        tok(TokenType::Symbol, ":"),
        tok(TokenType::Identifier, "int"),
        tok(TokenType::Symbol, "="),
        tok(TokenType::Int, "1"),
    ]);
    let shadow_decl = parse_program(vec![
        tok(TokenType::Identifier, "x"),
        tok(TokenType::Symbol, ":"),
        tok(TokenType::Identifier, "bool"),
        tok(TokenType::Symbol, "="),
        tok(TokenType::Bool, "true"),
    ]);
    let inner_decl = parse_program(vec![
        tok(TokenType::Identifier, "y"),
        tok(TokenType::Symbol, ":"),
        tok(TokenType::Symbol, "="),
        tok(TokenType::Int, "2"),
    ]);

    let mut visitor = Visitor::new();
    visitor.visit_statement(&outer_decl[0]).expect("x declares");
    assert_eq!(visitor.type_expression(&ident("x")), Ok(Type::Int));

    visitor.push_scope();
    // The outer name remains visible inside the nested scope.
    assert_eq!(visitor.type_expression(&ident("x")), Ok(Type::Int));
    // A local declaration shadows it only within this scope.
    visitor.visit_statement(&shadow_decl[0]).expect("x shadows");
    assert_eq!(visitor.type_expression(&ident("x")), Ok(Type::Bool));
    // A name declared inside the nested scope is visible there.
    visitor.visit_statement(&inner_decl[0]).expect("y declares");
    assert_eq!(visitor.type_expression(&ident("y")), Ok(Type::Int));
    visitor.pop_scope();

    // After the scope closes, the inner declaration is gone and the outer
    // slot is untouched.
    assert!(visitor.visit_expression(&ident("y")).is_err());
    match visitor.type_expression(&ident("y")) {
        Err(e) => match e.kind {
            SemanticErrorKind::Unresolved(name) => assert_eq!(name, "y"),
            other => panic!("expected the unresolved error, got {:?}", other),
        },
        Ok(t) => panic!("y must not survive its scope, resolved to {:?}", t),
    }
    assert_eq!(visitor.type_expression(&ident("x")), Ok(Type::Int));
}

#[test]
fn closed_scopes_are_archived_in_closing_order() {
    let inner_decl = parse_program(vec![
        tok(TokenType::Identifier, "y"),
        tok(TokenType::Symbol, ":"),
        tok(TokenType::Symbol, "="),
        tok(TokenType::Int, "2"),
    ]);
    let mut visitor = Visitor::new();
    assert_eq!(visitor.depth, 0);
    visitor.push_scope();
    assert_eq!(visitor.depth, 1);
    visitor.visit_statement(&inner_decl[0]).expect("y declares");
    visitor.pop_scope();
    assert_eq!(visitor.depth, 0);
    assert_eq!(visitor.tab_frames.len(), 1);
    // The archived pair still answers lookups.
    let frame = &visitor.tab_frames[0];
    let (index, levels) = frame.0.get_name("y").expect("the archive keeps y");
    assert_eq!(frame.1.get_type(index, levels), Ok(Type::Int));
    // The live scope no longer sees it.
    assert!(visitor.visit_expression(&ident("y")).is_err());
}

#[test]
fn literal_expressions_type_themselves() {
    let mut visitor = Visitor::new();
    let e = |node: ExpressionNode| Expression { node, pos: Position::Unresolved };
    assert_eq!(visitor.type_expression(&e(ExpressionNode::Int(1))), Ok(Type::Int));
    assert_eq!(
        visitor.type_expression(&e(ExpressionNode::Float("1.5".to_string()))),
        Ok(Type::Float)
    );
    assert_eq!(
        visitor.type_expression(&e(ExpressionNode::Str("s".to_string()))),
        Ok(Type::Str)
    );
    assert_eq!(visitor.type_expression(&e(ExpressionNode::Char('c'))), Ok(Type::Char));
    assert_eq!(visitor.type_expression(&e(ExpressionNode::Bool(true))), Ok(Type::Bool));
    assert_eq!(visitor.type_expression(&e(ExpressionNode::EOF)), Ok(Type::Nil));
}

#[test]
fn declaration_without_initializer_records_declared_type() {
    let ast = parse_program(vec![
        tok(TokenType::Identifier, "x"),
        tok(TokenType::Symbol, ":"),
        tok(TokenType::Identifier, "str"),
    ]);
    let mut visitor = Visitor::new();
    visitor.visit(&ast).expect("the program resolves");
    let frame = visitor.tab_frames.last().unwrap();
    let (index, levels) = frame.0.get_name("x").unwrap();
    assert_eq!(frame.1.get_type(index, levels), Ok(Type::Str));
}

#[test]
fn unresolved_initializer_fails_the_declaration() {
    // x: = y with y undeclared.
    let ast = parse_program(vec![
        tok(TokenType::Identifier, "x"),
        tok(TokenType::Symbol, ":"),
        tok(TokenType::Symbol, "="),
        tok(TokenType::Identifier, "y"),
    ]);
    let mut visitor = Visitor::new();
    let err = visitor.visit(&ast).unwrap_err();
    assert!(matches!(err.kind, SemanticErrorKind::Unresolved(n) if n == "y"));
}
