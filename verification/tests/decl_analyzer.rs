use stick::ast::{AssignOp, BinOp, Expr, Ident, LeftSide, Literal, Stmt, Type};
use stick::decl_analyzer::Analyzer;

fn decl<'s>(name: &'s str, typ: Type<'s>, init: Option<Expr<'s>>) -> Stmt<'s> {
    Stmt::VarDecl { name: Ident(name, 0..1), typ, init, mutable: false, constant: false, global: false }
}

fn int_lit(text: &str) -> Expr<'_> {
    Expr::Literal(Literal::Int(text, 0..1))
}

#[test]
fn declarations_are_numbered_and_typed() {
    let nodes = vec![
        decl("a", Type::Inferred, Some(int_lit("1"))),
        decl("b", Type::I64, Some(Expr::Ident(Ident("a", 0..1)))),
        decl("c", Type::Inferred, Some(Expr::Literal(Literal::Float("1.0", 0..3)))),
    ];
    let mut an: Analyzer = Analyzer::new(nodes);
    an.analyze();
    assert_eq!(an.resolved, vec![("a", 0), ("b", 1), ("c", 2)]);
    assert_eq!(an.types, vec![("a", Type::I64), ("b", Type::I64), ("c", Type::F32)]);
    assert_eq!(an.pos, 3);
    assert!(an.errors.is_empty());
}

#[test]
fn untypable_declarations_are_skipped() {
    let nodes = vec![
        decl("a", Type::I8, Some(int_lit("1"))),
        decl("u", Type::Inferred, Some(Expr::Ident(Ident("nowhere", 0..1)))),
        decl("n", Type::I8, None),
    ];
    let mut an: Analyzer = Analyzer::new(nodes);
    an.analyze();
    assert_eq!(an.resolved, vec![("n", 0)]);
    assert_eq!(an.types, vec![("n", Type::I8)]);
}

#[test]
fn redeclaring_keeps_the_number_and_replaces_the_type() {
    let nodes = vec![decl("x", Type::I32, None), decl("y", Type::Bool, None), decl("x", Type::U8, None)];
    let mut an: Analyzer = Analyzer::new(nodes);
    an.analyze();
    assert_eq!(an.resolved, vec![("x", 0), ("y", 1)]);
    assert_eq!(an.types, vec![("x", Type::U8), ("y", Type::Bool)]);
}

#[test]
fn operators_follow_the_typing_rules() {
    let nodes = vec![
        decl("small", Type::I8, None),
        decl("big", Type::I32, None),
        decl(
            "sum",
            Type::Inferred,
            Some(Expr::Binary {
                op: BinOp::Add,
                lhs: Box::new(Expr::Ident(Ident("small", 0..1))),
                rhs: Box::new(Expr::Ident(Ident("big", 0..1))),
            }),
        ),
        decl(
            "cmp",
            Type::Inferred,
            Some(Expr::Binary { op: BinOp::Less, lhs: Box::new(int_lit("1")), rhs: Box::new(int_lit("2")) }),
        ),
        decl(
            "assigned",
            Type::Inferred,
            Some(Expr::Assign {
                op: AssignOp::PlusEq,
                lhs: LeftSide::Var(Ident("big", 0..1)),
                rhs: Box::new(Expr::Ident(Ident("small", 0..1))),
            }),
        ),
    ];
    let mut an: Analyzer = Analyzer::new(nodes);
    an.analyze();
    assert_eq!(
        an.types,
        vec![
            ("small", Type::I8),
            ("big", Type::I32),
            ("sum", Type::I32),
            ("cmp", Type::Bool),
            ("assigned", Type::I8),
        ]
    );
}

#[test]
fn declared_type_must_accept_the_initializer() {
    let nodes = vec![decl("w", Type::I8, Some(int_lit("5"))), decl("v", Type::U64, Some(int_lit("5")))];
    let mut an: Analyzer = Analyzer::new(nodes);
    an.analyze();
    assert!(an.resolved.is_empty());
}

#[test]
fn analysis_starts_at_the_current_position() {
    let nodes = vec![decl("skipped", Type::I8, None), decl("kept", Type::Bool, None)];
    let mut an: Analyzer = Analyzer::new(nodes);
    an.pos = 1;
    an.analyze();
    assert_eq!(an.resolved, vec![("kept", 0)]);
    assert_eq!(an.pos, 2);
}
