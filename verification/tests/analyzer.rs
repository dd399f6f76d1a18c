use std::ops::Range;

use stick::analyzer::{can_assign, const_fit, Analyzer, ConstFit, ConstValue, FloatRange};
use stick::ast::{Expr, Ident, Literal, Stmt, Type};
use stick::errors::{SemanticError, SyntaxError};
use stick::parser::Parser;
use stick::token::Token;

fn parse<'s>(src: &'s str, tokens: &[Token<'s>], spans: &[Range<usize>]) -> Vec<Stmt<'s>> {
    let mut p = Parser { path: "test.stk", src, tokens, spans, pos: 0, fastfail: false, errors: Vec::new() };
    match p.parse(&[false, false]) {
        Ok(nodes) => nodes,
        Err(errors) => panic!("parse failed: {:?}", errors),
    }
}

fn analyze<'s>(src: &'s str, tokens: &[Token<'s>], spans: &[Range<usize>]) -> Analyzer<'static, 's> {
    let nodes = parse(src, tokens, spans);
    let mut a = Analyzer::new("test.stk", src, nodes);
    a.analyze();
    a
}

fn semantic_errors<'s>(a: &Analyzer<'_, 's>) -> Vec<SyntaxError<'s>> {
    a.errors.iter().map(|d| d.err).collect()
}

#[test]
fn typed_declaration_is_published() {
    let tokens = [
        Token::Let,
        Token::Identifier("x"),
        Token::Colon,
        Token::Identifier("i32"),
        Token::Assign,
        Token::LitInteger("5"),
        Token::Eof,
    ];
    let spans = [0..3, 4..5, 5..6, 7..10, 11..12, 13..14, 999..999];
    let a = analyze("let x: i32 = 5", &tokens, &spans);
    assert!(a.errors.is_empty());
    assert_eq!(a.resolved, vec![("x", 0)]);
    assert_eq!(a.types, vec![("x", Type::I32)]);
    assert_eq!(a.symbol_count(), 1);
}

#[test]
fn inferred_declaration_takes_literal_type() {
    let tokens = [Token::Let, Token::Identifier("f"), Token::Assign, Token::LitFloat("1.5"), Token::Eof];
    let spans = [0..3, 4..5, 6..7, 8..11, 999..999];
    let a = analyze("let f = 1.5", &tokens, &spans);
    assert!(a.errors.is_empty());
    assert_eq!(a.types, vec![("f", Type::F64)]);
}

#[test]
fn overflowing_initializer() {
    let tokens = [
        Token::Let,
        Token::Identifier("x"),
        Token::Colon,
        Token::Identifier("u8"),
        Token::Assign,
        Token::LitInteger("300"),
        Token::Eof,
    ];
    let spans = [0..3, 4..5, 5..6, 7..9, 10..11, 12..15, 999..999];
    let a = analyze("let x: u8 = 300", &tokens, &spans);
    assert_eq!(
        semantic_errors(&a),
        vec![SyntaxError::Semantic(SemanticError::Overflow("initializer constant overflows the declared type"))]
    );
    assert_eq!(a.errors[0].span, 4..5);
    assert!(a.resolved.is_empty());
    assert_eq!(a.symbol_count(), 0);
}

#[test]
fn folded_constants_are_checked() {
    let tokens = [
        Token::Let,
        Token::Identifier("a"),
        Token::Assign,
        Token::LitInteger("300"),
        Token::Newline,
        Token::Let,
        Token::Identifier("b"),
        Token::Colon,
        Token::Identifier("u8"),
        Token::Assign,
        Token::Identifier("a"),
        Token::Eof,
    ];
    let spans = [0..3, 4..5, 6..7, 8..11, 11..12, 12..15, 16..17, 17..18, 19..21, 22..23, 24..25, 999..999];
    let a = analyze("let a = 300\nlet b: u8 = a", &tokens, &spans);
    assert_eq!(
        semantic_errors(&a),
        vec![SyntaxError::Semantic(SemanticError::Overflow("initializer constant overflows the declared type"))]
    );
    assert_eq!(a.errors[0].span, 16..17);
}

#[test]
fn literal_operands_take_the_declared_type() {
    let tokens = [
        Token::Let,
        Token::Identifier("x"),
        Token::Colon,
        Token::Identifier("u8"),
        Token::Assign,
        Token::LitInteger("200"),
        Token::Plus,
        Token::LitInteger("100"),
        Token::Eof,
    ];
    let spans = [0..3, 4..5, 5..6, 7..9, 10..11, 12..15, 16..17, 18..21, 999..999];
    let a = analyze("let x: u8 = 200 + 100", &tokens, &spans);
    assert!(a.errors.is_empty());
    assert_eq!(a.types, vec![("x", Type::U8)]);
}

#[test]
fn mismatched_initializer() {
    let tokens = [
        Token::Let,
        Token::Identifier("b"),
        Token::Colon,
        Token::Identifier("bool"),
        Token::Assign,
        Token::LitInteger("1"),
        Token::Eof,
    ];
    let spans = [0..3, 4..5, 5..6, 7..11, 12..13, 14..15, 999..999];
    let a = analyze("let b: bool = 1", &tokens, &spans);
    assert_eq!(
        semantic_errors(&a),
        vec![SyntaxError::Semantic(SemanticError::TypeMismatch("initializer type is not assignable to declared type"))]
    );
}

#[test]
fn unknown_identifier() {
    let tokens = [Token::Identifier("y"), Token::Eof];
    let spans = [0..1, 999..999];
    let a = analyze("y", &tokens, &spans);
    assert_eq!(semantic_errors(&a), vec![SyntaxError::Semantic(SemanticError::UnknownIdentifier("y"))]);
    assert_eq!(a.errors[0].span, 0..1);
}

#[test]
fn assigning_an_immutable_binding() {
    let tokens = [
        Token::Let,
        Token::Identifier("x"),
        Token::Assign,
        Token::LitInteger("1"),
        Token::Newline,
        Token::Identifier("x"),
        Token::Assign,
        Token::LitInteger("2"),
        Token::Eof,
    ];
    let spans = [0..3, 4..5, 6..7, 8..9, 9..10, 10..11, 12..13, 14..15, 999..999];
    let a = analyze("let x = 1\nx = 2", &tokens, &spans);
    assert_eq!(semantic_errors(&a), vec![SyntaxError::Semantic(SemanticError::ImmutableBinding("x"))]);
    assert_eq!(a.errors[0].span, 10..11);
}

#[test]
fn assigning_a_mutable_binding() {
    let tokens = [
        Token::Let,
        Token::Mutable,
        Token::Identifier("x"),
        Token::Assign,
        Token::LitInteger("1"),
        Token::Newline,
        Token::Identifier("x"),
        Token::Assign,
        Token::LitInteger("2"),
        Token::Eof,
    ];
    let spans = [0..3, 4..11, 12..13, 14..15, 16..17, 17..18, 18..19, 20..21, 22..23, 999..999];
    let a = analyze("let mutable x = 1\nx = 2", &tokens, &spans);
    assert!(a.errors.is_empty());
    assert_eq!(a.types, vec![("x", Type::I64)]);
}

#[test]
fn redeclaration_in_one_scope() {
    let tokens = [
        Token::Let,
        Token::Identifier("x"),
        Token::Assign,
        Token::LitInteger("1"),
        Token::Newline,
        Token::Let,
        Token::Identifier("x"),
        Token::Assign,
        Token::LitInteger("2"),
        Token::Eof,
    ];
    let spans = [0..3, 4..5, 6..7, 8..9, 9..10, 10..13, 14..15, 16..17, 18..19, 999..999];
    let a = analyze("let x = 1\nlet x = 2", &tokens, &spans);
    assert_eq!(
        semantic_errors(&a),
        vec![SyntaxError::Semantic(SemanticError::InvalidOperation("identifier is already declared in this scope"))]
    );
    assert_eq!(a.resolved, vec![("x", 0)]);
}

#[test]
fn block_names_end_with_the_block() {
    let tokens = [
        Token::LBrace,
        Token::Let,
        Token::Identifier("a"),
        Token::Assign,
        Token::LitInteger("1"),
        Token::RBrace,
        Token::Newline,
        Token::Identifier("a"),
        Token::Eof,
    ];
    let spans = [0..1, 2..5, 6..7, 8..9, 10..11, 12..13, 13..14, 14..15, 999..999];
    let a = analyze("{ let a = 1 }\na", &tokens, &spans);
    assert_eq!(semantic_errors(&a), vec![SyntaxError::Semantic(SemanticError::UnknownIdentifier("a"))]);
    assert!(a.resolved.is_empty());
    assert_eq!(a.symbol_count(), 1);
}

#[test]
fn if_condition_must_be_bool() {
    let tokens = [Token::If, Token::LitInteger("1"), Token::LBrace, Token::RBrace, Token::Eof];
    let spans = [0..2, 3..4, 5..6, 6..7, 999..999];
    let a = analyze("if 1 {}", &tokens, &spans);
    assert_eq!(
        semantic_errors(&a),
        vec![SyntaxError::Semantic(SemanticError::TypeMismatch("if condition must evaluate to bool"))]
    );
}

#[test]
fn call_argument_count_is_checked() {
    let tokens = [
        Token::Fn,
        Token::Identifier("f"),
        Token::LParen,
        Token::Identifier("a"),
        Token::Colon,
        Token::Identifier("i32"),
        Token::RParen,
        Token::Arrow,
        Token::Identifier("i32"),
        Token::Semicolon,
        Token::Newline,
        Token::Identifier("f"),
        Token::LParen,
        Token::LitInteger("1"),
        Token::Comma,
        Token::LitInteger("2"),
        Token::RParen,
        Token::Eof,
    ];
    let spans = [
        0..2, 3..4, 4..5, 5..6, 6..7, 8..11, 11..12, 13..15, 16..19, 19..20, 20..21, 21..22, 22..23, 23..24, 24..25,
        26..27, 27..28, 999..999,
    ];
    let a = analyze("fn f(a: i32) -> i32;\nf(1, 2)", &tokens, &spans);
    assert_eq!(
        semantic_errors(&a),
        vec![SyntaxError::Semantic(SemanticError::InvalidOperation(
            "function call argument count does not match parameter count"
        ))]
    );
    assert_eq!(a.resolved, vec![("f", 0)]);
}

#[test]
fn well_typed_call() {
    let tokens = [
        Token::Fn,
        Token::Identifier("f"),
        Token::LParen,
        Token::Identifier("a"),
        Token::Colon,
        Token::Identifier("i64"),
        Token::RParen,
        Token::Arrow,
        Token::Identifier("bool"),
        Token::Semicolon,
        Token::Newline,
        Token::Let,
        Token::Identifier("r"),
        Token::Assign,
        Token::Identifier("f"),
        Token::LParen,
        Token::LitInteger("1"),
        Token::RParen,
        Token::Eof,
    ];
    let spans = [
        0..2, 3..4, 4..5, 5..6, 6..7, 8..11, 11..12, 13..15, 16..20, 20..21, 21..22, 22..25, 26..27, 28..29, 30..31,
        31..32, 32..33, 33..34, 999..999,
    ];
    let a = analyze("fn f(a: i64) -> bool;\nlet r = f(1)", &tokens, &spans);
    assert!(a.errors.is_empty());
    assert_eq!(a.types.len(), 2);
    assert_eq!(a.types[1], ("r", Type::Bool));
}

#[test]
fn assignability_widens_within_a_family() {
    assert!(can_assign(&Type::I64, &Type::I8));
    assert!(!can_assign(&Type::I8, &Type::I64));
    assert!(!can_assign(&Type::U64, &Type::I8));
    assert!(can_assign(&Type::F64, &Type::F32));
    assert!(can_assign(&Type::Bool, &Type::Bool));
    assert!(!can_assign(&Type::Str, &Type::Char));
}

#[test]
fn constant_fit() {
    assert_eq!(const_fit(&Type::U8, &ConstValue::Int(255)), ConstFit::Fits);
    assert_eq!(const_fit(&Type::U8, &ConstValue::Int(256)), ConstFit::Overflow);
    assert_eq!(const_fit(&Type::I8, &ConstValue::Int(-129)), ConstFit::Overflow);
    assert_eq!(const_fit(&Type::F32, &ConstValue::Int(1)), ConstFit::Fits);
    assert_eq!(const_fit(&Type::Bool, &ConstValue::Int(1)), ConstFit::Incompatible);
    assert_eq!(const_fit(&Type::Str, &ConstValue::String), ConstFit::Fits);
}

fn float_decl(name: &'static str, span: Range<usize>, typ: Type<'static>, init: Expr<'static>) -> Stmt<'static> {
    Stmt::VarDecl { name: Ident(name, span), typ, init: Some(init), mutable: false, constant: false, global: false }
}

#[test]
fn a_double_is_not_narrowed_to_f32() {
    let mut a = Analyzer::new(
        "t",
        "",
        vec![
            float_decl("double", 4..10, Type::Inferred, Expr::Literal(Literal::Float("2.22222222222", 13..26))),
            float_decl("float", 31..36, Type::F32, Expr::Ident(Ident("double", 44..50))),
        ],
    );
    a.analyze();
    assert_eq!(a.errors.len(), 1);
    assert_eq!(a.errors[0].span, 31..36);
    assert_eq!(a.types, vec![("double", Type::F64)]);
}

#[test]
fn a_float_literal_may_be_single_precision() {
    let mut a = Analyzer::new("t", "", vec![float_decl("single", 4..10, Type::F32, Expr::Literal(Literal::Float("5.0", 18..21)))]);
    a.analyze();
    assert!(a.errors.is_empty());
    assert_eq!(a.types, vec![("single", Type::F32)]);
    let double = ConstValue::Float { single: false, finite: true, in_f32: true };
    assert_eq!(const_fit(&Type::F32, &double), ConstFit::Incompatible);
    assert_eq!(const_fit(&Type::F64, &double), ConstFit::Fits);
    let huge = ConstValue::Float { single: true, finite: true, in_f32: false };
    assert_eq!(const_fit(&Type::F32, &huge), ConstFit::Overflow);
    assert_eq!(const_fit(&Type::F64, &huge), ConstFit::Fits);
    let infinite = ConstValue::Float { single: true, finite: false, in_f32: false };
    assert_eq!(const_fit(&Type::F64, &infinite), ConstFit::Overflow);
}

/// The ranges of float literals, read as `f64` the way the compiler reads them.
fn ranges_of(texts: &[&'static str]) -> Vec<(&'static str, FloatRange)> {
    texts
        .iter()
        .map(|t| {
            let v: f64 = t.replace('_', "").parse().unwrap();
            (*t, FloatRange { finite: v.is_finite(), in_f32: v.is_finite() && v.abs() <= f32::MAX as f64 })
        })
        .collect()
}

#[test]
fn a_float_literal_beyond_f32_overflows() {
    let mut a = Analyzer::new("t", "", vec![float_decl("x", 4..5, Type::F32, Expr::Literal(Literal::Float("1e300", 13..18)))]);
    a.float_ranges = ranges_of(&["1e300"]);
    a.analyze();
    assert_eq!(
        semantic_errors(&a),
        vec![SyntaxError::Semantic(SemanticError::Overflow("initializer constant overflows the declared type"))]
    );
    assert!(a.types.is_empty());
}

#[test]
fn an_infinite_literal_is_an_f64_without_a_constant() {
    let mut a = Analyzer::new("t", "", vec![float_decl("x", 4..5, Type::F64, Expr::Literal(Literal::Float("1e400", 13..18)))]);
    a.float_ranges = ranges_of(&["1e400"]);
    assert_eq!(const_fit(&Type::F64, &ConstValue::Float { single: true, finite: false, in_f32: false }), ConstFit::Overflow);
    a.analyze();
    assert!(a.errors.is_empty());
    assert_eq!(a.types, vec![("x", Type::F64)]);
}

#[test]
fn a_negated_literal_within_f32_fits() {
    let neg = Expr::Unary { op: stick::ast::UnaryOp::Neg, expr: Box::new(Expr::Literal(Literal::Float("3.5e38", 14..20))) };
    let mut a = Analyzer::new("t", "", vec![float_decl("x", 4..5, Type::F32, neg)]);
    a.float_ranges = ranges_of(&["3.5e38"]);
    a.analyze();
    assert_eq!(a.errors.len(), 1);
    let mut b = Analyzer::new("t", "", vec![float_decl("y", 4..5, Type::F32, Expr::Literal(Literal::Float("3.0e38", 14..20)))]);
    b.float_ranges = ranges_of(&["3.0e38"]);
    b.analyze();
    assert!(b.errors.is_empty());
    assert_eq!(b.types, vec![("y", Type::F32)]);
}
