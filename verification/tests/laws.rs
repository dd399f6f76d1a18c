use std::ops::Range;

use stick::analyzer::{can_assign, const_fit, Analyzer, ConstFit, ConstValue};
use stick::ast::{join_spans, Ident, Literal, Stmt, Type};
use stick::diagnostic::Diagnostic;
use stick::errors::{SemanticError, SyntaxError};
use stick::ast::Expr;

fn spans() -> Vec<Range<usize>> {
    vec![0..3, 2..8, 5..6, 9..12]
}

#[test]
fn join_laws_on_examples() {
    for a in spans() {
        assert_eq!(join_spans(a.clone(), a.clone()), a.clone());
        for b in spans() {
            let j = join_spans(a.clone(), b.clone());
            assert_eq!(j, join_spans(b.clone(), a.clone()));
            assert!(j.start <= a.start && j.start <= b.start && j.end >= a.end && j.end >= b.end);
            for c in spans() {
                assert_eq!(
                    join_spans(join_spans(a.clone(), b.clone()), c.clone()),
                    join_spans(a.clone(), join_spans(b.clone(), c.clone()))
                );
            }
        }
    }
}

fn numeric_types() -> Vec<Type<'static>> {
    vec![
        Type::I8,
        Type::I16,
        Type::I32,
        Type::I64,
        Type::U8,
        Type::U16,
        Type::U32,
        Type::U64,
        Type::F32,
        Type::F64,
        Type::Bool,
        Type::Str,
    ]
}

#[test]
fn assignability_is_a_partial_order_on_examples() {
    for a in numeric_types() {
        assert!(can_assign(&a, &a));
        for b in numeric_types() {
            if can_assign(&a, &b) && can_assign(&b, &a) {
                assert_eq!(a, b);
            }
            for c in numeric_types() {
                if can_assign(&a, &b) && can_assign(&b, &c) {
                    assert!(can_assign(&a, &c));
                }
            }
        }
    }
}

#[test]
fn fitting_constants_fit_wider_types() {
    let values = [ConstValue::Int(0), ConstValue::Int(200), ConstValue::Int(-70000), ConstValue::Float { single: true, finite: true, in_f32: true }, ConstValue::Float { single: false, finite: true, in_f32: true }, ConstValue::Float { single: true, finite: true, in_f32: false }, ConstValue::Float { single: true, finite: false, in_f32: false }, ConstValue::Bool(true)];
    for v in values.iter() {
        for t in numeric_types() {
            for u in numeric_types() {
                if const_fit(&t, v) == ConstFit::Fits && can_assign(&u, &t) {
                    assert_eq!(const_fit(&u, v), ConstFit::Fits);
                }
            }
        }
    }
}

fn var(name: &str, typ: Type<'static>, init: &'static str, mutable: bool) -> Stmt<'static> {
    Stmt::VarDecl {
        name: Ident(Box::leak(name.to_owned().into_boxed_str()), 0..1),
        typ,
        init: Some(Expr::Literal(Literal::Int(init, 0..1))),
        mutable,
        constant: false,
        global: false,
    }
}

#[test]
fn a_declared_name_resolves_to_its_declaration() {
    let mut a = Analyzer::new("t.stk", "", vec![var("x", Type::I16, "3", false), Stmt::Expr(Expr::Ident(Ident("x", 0..1)))]);
    a.analyze();
    assert!(a.errors.is_empty());
    assert_eq!(a.types, vec![("x", Type::I16)]);
}

#[test]
fn recorded_diagnostics_are_kept_in_front() {
    let mut a = Analyzer::new("t.stk", "", vec![Stmt::Expr(Expr::Ident(Ident("missing", 0..1)))]);
    a.errors.push(Diagnostic { path: "t.stk", src: "", span: 0..0, err: SyntaxError::Unknown });
    a.analyze();
    assert_eq!(a.errors.len(), 2);
    assert_eq!(a.errors[0].err, SyntaxError::Unknown);
    assert_eq!(a.errors[1].err, SyntaxError::Semantic(SemanticError::UnknownIdentifier("missing")));
}

#[test]
fn assignment_keeps_the_binding_type() {
    let assign = Stmt::Expr(Expr::Assign {
        op: stick::ast::AssignOp::Assign,
        lhs: stick::ast::LeftSide::Var(Ident("m", 0..1)),
        rhs: Box::new(Expr::Literal(Literal::Int("9", 0..1))),
    });
    let mut a = Analyzer::new("t.stk", "", vec![var("m", Type::U16, "1", true), assign]);
    a.analyze();
    assert!(a.errors.is_empty());
    assert_eq!(a.types, vec![("m", Type::U16)]);
    assert_eq!(a.resolved, vec![("m", 0)]);
}

#[test]
fn a_block_closes_its_scope() {
    let block = Stmt::Expr(Expr::Block { stmts: vec![var("inner", Type::I8, "1", false)], tail: None });
    let mut a = Analyzer::new("t.stk", "", vec![block, var("outer", Type::I8, "2", false)]);
    a.analyze();
    assert!(a.errors.is_empty());
    assert_eq!(a.resolved, vec![("outer", 1)]);
    assert_eq!(a.symbol_count(), 2);
}

#[test]
fn typing_the_right_side_keeps_outer_bindings() {
    let rhs = Expr::Block {
        stmts: vec![var("m", Type::I8, "2", false)],
        tail: Some(Box::new(Expr::Literal(Literal::Int("7", 0..1)))),
    };
    let assign = Stmt::Expr(Expr::Assign {
        op: stick::ast::AssignOp::Assign,
        lhs: stick::ast::LeftSide::Var(Ident("m", 0..1)),
        rhs: Box::new(rhs),
    });
    let mut a = Analyzer::new("t.stk", "", vec![var("m", Type::U16, "1", true), assign]);
    a.analyze();
    assert!(a.errors.is_empty());
    assert_eq!(a.types, vec![("m", Type::U16)]);
    assert_eq!(a.resolved, vec![("m", 0)]);
    assert_eq!(a.symbol_count(), 2);
}

fn decl(name: &'static str, typ: Type<'static>, init: Expr<'static>) -> Stmt<'static> {
    Stmt::VarDecl { name: Ident(name, 0..1), typ, init: Some(init), mutable: false, constant: false, global: false }
}

#[test]
fn operand_order_does_not_change_a_binary_type() {
    let sum = |l: &'static str, r: &'static str| Expr::Binary {
        op: stick::ast::BinOp::Add,
        lhs: Box::new(Expr::Ident(Ident(l, 0..1))),
        rhs: Box::new(Expr::Ident(Ident(r, 0..1))),
    };
    let mut a = Analyzer::new(
        "t.stk",
        "",
        vec![
            var("a", Type::I16, "1", false),
            var("b", Type::I64, "2", false),
            decl("c", Type::Inferred, sum("a", "b")),
            decl("d", Type::Inferred, sum("b", "a")),
        ],
    );
    a.analyze();
    assert!(a.errors.is_empty());
    assert_eq!(a.types, vec![("a", Type::I16), ("b", Type::I64), ("c", Type::I64), ("d", Type::I64)]);
}

#[test]
fn declaration_tables_hold_the_same_names_numbered_in_order() {
    let mut a = stick::decl_analyzer::Analyzer::new(vec![
        var("x", Type::I32, "1", false),
        var("y", Type::I64, "2", false),
        var("x", Type::I64, "3", false),
        var("z", Type::Inferred, "4", false),
    ]);
    a.analyze();
    assert_eq!(a.resolved, vec![("y", 0), ("x", 1), ("z", 2)]);
    let names: Vec<&str> = a.types.iter().map(|e| e.0).collect();
    assert_eq!(names, vec!["y", "x", "z"]);
    assert!(a.errors.is_empty());
}

#[test]
fn multiplication_binds_tighter_than_comparison() {
    let tokens = [
        stick::token::Token::Identifier("a"),
        stick::token::Token::Less,
        stick::token::Token::Identifier("b"),
        stick::token::Token::Star,
        stick::token::Token::Identifier("c"),
        stick::token::Token::Eof,
    ];
    let spans = [0..1, 2..3, 4..5, 6..7, 8..9, 999..999];
    let mut p = stick::parser::Parser { path: "t", src: "a < b * c", tokens: &tokens, spans: &spans, pos: 0, fastfail: false, errors: Vec::new() };
    let nodes = p.parse(&[false, false]).expect("no errors");
    let id = |n: &'static str, s: Range<usize>| Box::new(Expr::Ident(Ident(n, s)));
    assert_eq!(
        nodes,
        vec![Stmt::Expr(Expr::Binary {
            op: stick::ast::BinOp::Less,
            lhs: id("a", 0..1),
            rhs: Box::new(Expr::Binary { op: stick::ast::BinOp::Mul, lhs: id("b", 4..5), rhs: id("c", 8..9) }),
        })]
    );
}
