use stick::ast::{join_spans, AssignOp, BinOp, Expr, Ident, LeftSide, Literal, Stmt, Subscript, Type, UnaryOp};

fn ident(name: &str, start: usize, end: usize) -> Ident<'_> {
    Ident(name, start..end)
}

fn int_lit(text: &str, start: usize, end: usize) -> Expr<'_> {
    Expr::Literal(Literal::Int(text, start..end))
}

#[test]
fn join_covers_both() {
    assert_eq!(join_spans(3..5, 1..4), 1..5);
    assert_eq!(join_spans(0..2, 6..9), 0..9);
    assert_eq!(join_spans(2..7, 3..4), 2..7);
}

#[test]
fn ident_and_literal_spans() {
    assert_eq!(ident("abc", 4, 7).span(), 4..7);
    assert_eq!(Literal::Int("12", 1..3).span(), 1..3);
    assert_eq!(Literal::Bool(true, 9..13).span(), 9..13);
    assert_eq!(Literal::Unit(2..4).span(), 2..4);
}

#[test]
fn binary_spans_join_operands() {
    let e = Expr::Binary {
        op: BinOp::Add,
        lhs: Box::new(Expr::Ident(ident("a", 0, 1))),
        rhs: Box::new(int_lit("2", 4, 5)),
    };
    assert_eq!(e.span(), 0..5);
}

#[test]
fn unary_span_is_operand_span() {
    let e = Expr::Unary { op: UnaryOp::Neg, expr: Box::new(int_lit("7", 1, 2)) };
    assert_eq!(e.span(), 1..2);
}

#[test]
fn assignment_span_runs_from_target_to_value() {
    let e = Expr::Assign {
        op: AssignOp::Assign,
        lhs: LeftSide::Var(ident("x", 10, 11)),
        rhs: Box::new(int_lit("3", 14, 15)),
    };
    assert_eq!(e.span(), 10..15);
}

#[test]
fn call_span_reaches_last_argument() {
    let e = Expr::Call {
        func: Box::new(Expr::Ident(ident("f", 0, 1))),
        args: vec![int_lit("1", 2, 3), int_lit("2", 5, 6)],
    };
    assert_eq!(e.span(), 0..6);
    let bare = Expr::Call { func: Box::new(Expr::Ident(ident("g", 3, 4))), args: vec![] };
    assert_eq!(bare.span(), 3..4);
}

#[test]
fn index_and_field_spans() {
    let idx = Expr::Index {
        obj: Box::new(Expr::Ident(ident("v", 0, 1))),
        sub: Subscript::Index(Box::new(int_lit("0", 2, 3))),
    };
    assert_eq!(idx.span(), 0..3);
    let field = Expr::Field { obj: Box::new(Expr::Ident(ident("p", 0, 1))), name: ident("x", 2, 3) };
    assert_eq!(field.span(), 0..3);
    let lhs = LeftSide::Field { obj: Box::new(Expr::Ident(ident("p", 5, 6))), name: ident("y", 7, 8) };
    assert_eq!(lhs.span(), 5..8);
}

#[test]
fn range_spans() {
    let both = Expr::Range { start: Some(Box::new(int_lit("0", 0, 1))), end: Some(Box::new(int_lit("5", 3, 4))) };
    assert_eq!(both.span(), 0..4);
    let open = Expr::Range { start: None, end: Some(Box::new(int_lit("5", 2, 3))) };
    assert_eq!(open.span(), 2..3);
    let none = Expr::Range { start: None, end: None };
    assert_eq!(none.span(), 0..0);
    assert_eq!(Expr::Unknown.span(), 0..0);
}

#[test]
fn block_span_is_its_tail_or_last_statement() {
    let with_tail = Expr::Block { stmts: vec![Stmt::Break], tail: Some(Box::new(int_lit("1", 8, 9))) };
    assert_eq!(with_tail.span(), 8..9);
    let last_stmt = Expr::Block { stmts: vec![Stmt::Expr(int_lit("4", 3, 4))], tail: None };
    assert_eq!(last_stmt.span(), 3..4);
}

#[test]
fn statement_spans() {
    let decl = Stmt::VarDecl {
        name: ident("x", 4, 5),
        typ: Type::I32,
        init: Some(int_lit("5", 13, 14)),
        mutable: false,
        constant: false,
        global: false,
    };
    assert_eq!(decl.span(), 4..14);
    let bare = Stmt::VarDecl {
        name: ident("y", 4, 5),
        typ: Type::I32,
        init: None,
        mutable: false,
        constant: false,
        global: false,
    };
    assert_eq!(bare.span(), 4..5);
    assert_eq!(Stmt::Expr(int_lit("9", 1, 2)).span(), 1..2);
    assert_eq!(Stmt::Break.span(), 0..0);
}

#[test]
fn a_cloned_statement_equals_the_original() {
    let stmt = Stmt::Expr(Expr::Block {
        stmts: vec![Stmt::Return(Some(Expr::Ident(Ident("r", 2..3))))],
        tail: Some(Box::new(Expr::Unary { op: stick::ast::UnaryOp::Neg, expr: Box::new(Expr::Ident(Ident("t", 5..6))) })),
    });
    assert_eq!(stmt.clone(), stmt);
}
