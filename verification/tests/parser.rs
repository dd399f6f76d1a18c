use std::ops::Range;

use stick::ast::{AssignOp, BinOp, Branch, Expr, Ident, LeftSide, Literal, Pattern, Stmt, Type, UnaryOp};
use stick::errors::{ParseError, SyntaxError};
use stick::parser::{Parser, TopItem};
use stick::token::Token;

fn parser<'s, 't>(src: &'s str, tokens: &'t [Token<'s>], spans: &'t [Range<usize>]) -> Parser<'s, 't> {
    Parser { path: "test.stk", src, tokens, spans, pos: 0, fastfail: false, errors: Vec::new() }
}

fn lit(text: &str, span: Range<usize>) -> Expr<'_> {
    Expr::Literal(Literal::Int(text, span))
}

#[test]
fn typed_let_statement() {
    let src = "let x: i32 = 5\n";
    let tokens = [
        Token::Let,
        Token::Identifier("x"),
        Token::Colon,
        Token::Identifier("i32"),
        Token::Assign,
        Token::LitInteger("5"),
        Token::Newline,
        Token::Eof,
    ];
    let spans = [0..3, 4..5, 5..6, 7..10, 11..12, 13..14, 14..15, 999..999];
    let mut p = parser(src, &tokens, &spans);
    let nodes = p.parse(&[false, false]).expect("no errors");
    assert_eq!(
        nodes,
        vec![Stmt::VarDecl {
            name: Ident("x", 4..5),
            typ: Type::I32,
            init: Some(lit("5", 13..14)),
            mutable: false,
            constant: false,
            global: false,
        }]
    );
    assert_eq!(p.pos, tokens.len());
}

#[test]
fn let_with_user_type_and_no_value() {
    let src = "let p: Point";
    let tokens = [Token::Let, Token::Identifier("p"), Token::Colon, Token::Identifier("Point")];
    let spans = [0..3, 4..5, 5..6, 7..12];
    let mut p = parser(src, &tokens, &spans);
    let stmt = p.parse_let().expect("declaration");
    assert_eq!(
        stmt,
        Stmt::VarDecl {
            name: Ident("p", 4..5),
            typ: Type::Ident(Ident("Point", 7..12)),
            init: None,
            mutable: false,
            constant: false,
            global: false,
        }
    );
    assert!(p.errors.is_empty());
}

#[test]
fn const_with_mutable_is_reported() {
    let src = "let const mutable x = 1";
    let tokens = [
        Token::Let,
        Token::Const,
        Token::Mutable,
        Token::Identifier("x"),
        Token::Assign,
        Token::LitInteger("1"),
    ];
    let spans = [0..3, 4..9, 10..17, 18..19, 20..21, 22..23];
    let mut p = parser(src, &tokens, &spans);
    let stmt = p.parse_let().expect("declaration still built");
    match stmt {
        Stmt::VarDecl { constant, mutable, global, .. } => {
            assert!(constant);
            assert!(mutable);
            assert!(!global);
        },
        other => panic!("unexpected {:?}", other),
    }
    assert_eq!(p.errors.len(), 1);
    assert_eq!(
        p.errors[0].err,
        SyntaxError::Parse(ParseError::ConstDisallowed("constant cannot be used in tandem with mutable."))
    );
}

#[test]
fn const_with_static_is_reported() {
    let src = "let const static x = 1";
    let tokens = [
        Token::Let,
        Token::Const,
        Token::Static,
        Token::Identifier("x"),
        Token::Assign,
        Token::LitInteger("1"),
    ];
    let spans = [0..3, 4..9, 10..16, 17..18, 19..20, 21..22];
    let mut p = parser(src, &tokens, &spans);
    assert!(p.parse_let().is_ok());
    assert_eq!(
        p.errors[0].err,
        SyntaxError::Parse(ParseError::ConstDisallowed("constant cannot be used in tandem with static."))
    );
}

#[test]
fn let_without_name() {
    let tokens = [Token::Let, Token::Assign, Token::LitInteger("5")];
    let spans = [0..3, 4..5, 6..7];
    let mut p = parser("let = 5", &tokens, &spans);
    assert_eq!(
        p.parse_let(),
        Err(SyntaxError::Parse(ParseError::MissingExpected("let must have an identifier afterwards")))
    );
}

#[test]
fn let_without_type_or_value() {
    let tokens = [Token::Let, Token::Identifier("x"), Token::Newline];
    let spans = [0..3, 4..5, 5..6];
    let mut p = parser("let x\n", &tokens, &spans);
    assert_eq!(
        p.parse_let(),
        Err(SyntaxError::Parse(ParseError::MissingExpected("type cannot be inferred without a right hand side")))
    );
}

#[test]
fn let_with_blank_value() {
    let tokens = [Token::Let, Token::Identifier("x"), Token::Assign, Token::Newline];
    let spans = [0..3, 4..5, 6..7, 7..8];
    let mut p = parser("let x =\n", &tokens, &spans);
    assert_eq!(
        p.parse_let(),
        Err(SyntaxError::Parse(ParseError::MissingExpected("expected expression after '='")))
    );
}

#[test]
fn multiplication_binds_tighter_than_addition() {
    let tokens = [
        Token::LitInteger("1"),
        Token::Plus,
        Token::LitInteger("2"),
        Token::Star,
        Token::LitInteger("3"),
        Token::Eof,
    ];
    let spans = [0..1, 2..3, 4..5, 6..7, 8..9, 999..999];
    let mut p = parser("1 + 2 * 3", &tokens, &spans);
    let nodes = p.parse(&[false, false]).expect("no errors");
    assert_eq!(
        nodes,
        vec![Stmt::Expr(Expr::Binary {
            op: BinOp::Add,
            lhs: Box::new(lit("1", 0..1)),
            rhs: Box::new(Expr::Binary {
                op: BinOp::Mul,
                lhs: Box::new(lit("2", 4..5)),
                rhs: Box::new(lit("3", 8..9)),
            }),
        })]
    );
}

#[test]
fn subtraction_associates_left() {
    let tokens = [
        Token::LitInteger("5"),
        Token::Minus,
        Token::LitInteger("2"),
        Token::Minus,
        Token::LitInteger("1"),
        Token::Eof,
    ];
    let spans = [0..1, 2..3, 4..5, 6..7, 8..9, 999..999];
    let mut p = parser("5 - 2 - 1", &tokens, &spans);
    let nodes = p.parse(&[false, false]).expect("no errors");
    assert_eq!(
        nodes,
        vec![Stmt::Expr(Expr::Binary {
            op: BinOp::Sub,
            lhs: Box::new(Expr::Binary {
                op: BinOp::Sub,
                lhs: Box::new(lit("5", 0..1)),
                rhs: Box::new(lit("2", 4..5)),
            }),
            rhs: Box::new(lit("1", 8..9)),
        })]
    );
}

#[test]
fn assignment_associates_right() {
    let tokens = [
        Token::Identifier("a"),
        Token::Assign,
        Token::Identifier("b"),
        Token::PlusEq,
        Token::LitInteger("1"),
        Token::Eof,
    ];
    let spans = [0..1, 2..3, 4..5, 6..8, 9..10, 999..999];
    let mut p = parser("a = b += 1", &tokens, &spans);
    let nodes = p.parse(&[false, false]).expect("no errors");
    assert_eq!(
        nodes,
        vec![Stmt::Expr(Expr::Assign {
            op: AssignOp::Assign,
            lhs: LeftSide::Var(Ident("a", 0..1)),
            rhs: Box::new(Expr::Assign {
                op: AssignOp::PlusEq,
                lhs: LeftSide::Var(Ident("b", 4..5)),
                rhs: Box::new(lit("1", 9..10)),
            }),
        })]
    );
}

#[test]
fn prefix_and_postfix_operators() {
    let tokens = [Token::Minus, Token::Identifier("x"), Token::PlusPlus, Token::Eof];
    let spans = [0..1, 1..2, 2..4, 999..999];
    let mut p = parser("-x++", &tokens, &spans);
    let nodes = p.parse(&[false, false]).expect("no errors");
    assert_eq!(
        nodes,
        vec![Stmt::Expr(Expr::Unary {
            op: UnaryOp::Neg,
            expr: Box::new(Expr::Unary { op: UnaryOp::PostInc, expr: Box::new(Expr::Ident(Ident("x", 1..2))) }),
        })]
    );
}

#[test]
fn calls_and_method_calls() {
    let tokens = [
        Token::Identifier("f"),
        Token::LParen,
        Token::LitInteger("1"),
        Token::Comma,
        Token::LitInteger("2"),
        Token::RParen,
        Token::Newline,
        Token::Identifier("o"),
        Token::Dot,
        Token::Identifier("m"),
        Token::Unit,
        Token::Eof,
    ];
    let spans = [0..1, 1..2, 2..3, 3..4, 5..6, 6..7, 7..8, 8..9, 9..10, 10..11, 11..13, 999..999];
    let mut p = parser("f(1, 2)\no.m()", &tokens, &spans);
    let nodes = p.parse(&[false, false]).expect("no errors");
    assert_eq!(
        nodes,
        vec![
            Stmt::Expr(Expr::Call {
                func: Box::new(Expr::Ident(Ident("f", 0..1))),
                args: vec![lit("1", 2..3), lit("2", 5..6)],
            }),
            Stmt::Expr(Expr::Method {
                receiver: Box::new(Expr::Ident(Ident("o", 8..9))),
                method: Ident("m", 10..11),
                args: vec![],
            }),
        ]
    );
}

#[test]
fn statements_need_a_separator() {
    let tokens = [Token::LitInteger("1"), Token::LitInteger("2"), Token::Eof];
    let spans = [0..1, 2..3, 999..999];
    let mut p = parser("1 2", &tokens, &spans);
    let errors = p.parse(&[false, false]).expect_err("separator missing");
    assert_eq!(errors.len(), 1);
    assert_eq!(
        errors[0].err,
        SyntaxError::Parse(ParseError::MissingExpected("all statements must be followed by either a newline or semicolon"))
    );
    assert_eq!(errors[0].span, 2..3);
    assert!(p.errors.is_empty());
    assert_eq!(p.pos, tokens.len());
}

#[test]
fn semicolons_separate_statements() {
    let tokens = [
        Token::LitInteger("1"),
        Token::Semicolon,
        Token::Semicolon,
        Token::LitInteger("2"),
        Token::Semicolon,
        Token::Eof,
    ];
    let spans = [0..1, 1..2, 2..3, 4..5, 5..6, 999..999];
    let mut p = parser("1;; 2;", &tokens, &spans);
    let nodes = p.parse(&[false, true]).expect("no errors");
    assert_eq!(nodes, vec![Stmt::Expr(lit("1", 0..1)), Stmt::Expr(lit("2", 4..5))]);
    assert!(p.fastfail);
}

#[test]
fn function_declaration() {
    let tokens = [
        Token::Fn,
        Token::Identifier("add"),
        Token::LParen,
        Token::Identifier("a"),
        Token::Colon,
        Token::Identifier("i32"),
        Token::Comma,
        Token::Identifier("b"),
        Token::Colon,
        Token::Identifier("i32"),
        Token::RParen,
        Token::Arrow,
        Token::Identifier("i32"),
        Token::LBrace,
        Token::Identifier("a"),
        Token::Plus,
        Token::Identifier("b"),
        Token::RBrace,
        Token::Eof,
    ];
    let spans = [
        0..2, 3..6, 6..7, 7..8, 8..9, 10..13, 13..14, 15..16, 16..17, 18..21, 21..22, 23..25, 26..29, 30..31, 32..33,
        34..35, 36..37, 38..39, 999..999,
    ];
    let mut p = parser("fn add(a: i32, b: i32) -> i32 { a + b }", &tokens, &spans);
    let nodes = p.parse(&[false, false]).expect("no errors");
    assert_eq!(
        nodes,
        vec![Stmt::FuncDecl {
            name: Ident("add", 3..6),
            typ: Type::I32,
            args: vec![(Ident("a", 7..8), Type::I32), (Ident("b", 15..16), Type::I32)],
            body: Some(Expr::Block {
                stmts: vec![],
                tail: Some(Box::new(Expr::Binary {
                    op: BinOp::Add,
                    lhs: Box::new(Expr::Ident(Ident("a", 32..33))),
                    rhs: Box::new(Expr::Ident(Ident("b", 36..37))),
                })),
            }),
        }]
    );
}

#[test]
fn function_prototype() {
    let tokens = [Token::Fn, Token::Identifier("f"), Token::Unit, Token::Arrow, Token::Unit, Token::Semicolon, Token::Eof];
    let spans = [0..2, 3..4, 4..6, 7..9, 10..12, 12..13, 999..999];
    let mut p = parser("fn f() -> ();", &tokens, &spans);
    let nodes = p.parse(&[false, false]).expect("no errors");
    assert_eq!(nodes, vec![Stmt::FuncDecl { name: Ident("f", 3..4), typ: Type::Unit, args: vec![], body: None }]);
}

#[test]
fn if_else_expression() {
    let tokens = [
        Token::If,
        Token::Identifier("c"),
        Token::LBrace,
        Token::LitInteger("1"),
        Token::RBrace,
        Token::Else,
        Token::LBrace,
        Token::LitInteger("2"),
        Token::RBrace,
        Token::Eof,
    ];
    let spans = [0..2, 3..4, 5..6, 7..8, 9..10, 11..15, 16..17, 18..19, 20..21, 999..999];
    let mut p = parser("if c { 1 } else { 2 }", &tokens, &spans);
    let nodes = p.parse(&[false, false]).expect("no errors");
    assert_eq!(
        nodes,
        vec![Stmt::Expr(Expr::If {
            cond: Box::new(Expr::Ident(Ident("c", 3..4))),
            then: Box::new(Expr::Block { stmts: vec![], tail: Some(Box::new(lit("1", 7..8))) }),
            else_: Some(Box::new(Expr::Block { stmts: vec![], tail: Some(Box::new(lit("2", 18..19))) })),
        })]
    );
}

#[test]
fn unterminated_block_is_reported() {
    let tokens = [Token::LBrace, Token::LitInteger("1"), Token::Newline];
    let spans = [0..1, 2..3, 3..4];
    let src = "{ 1\n";
    let mut p = parser(src, &tokens, &spans);
    let errors = p.parse(&[false, false]).expect_err("block never closes");
    assert_eq!(errors[0].err, SyntaxError::Parse(ParseError::MissingExpected("expected '}' to close block")));
    assert_eq!(errors[0].span, src.len()..src.len());
}

#[test]
fn earlier_errors_come_first() {
    let tokens = [Token::LitInteger("1"), Token::Eof];
    let spans = [0..1, 999..999];
    let mut p = parser("1", &tokens, &spans);
    let earlier = stick::diagnostic::Diagnostic {
        path: "test.stk",
        src: "1",
        span: 0..1,
        err: SyntaxError::Unknown,
    };
    p.errors.push(earlier);
    let errors = p.parse(&[false, false]).expect_err("an error was already recorded");
    assert_eq!(errors.len(), 1);
    assert_eq!(errors[0].err, SyntaxError::Unknown);
}

#[test]
fn for_loop_over_a_range() {
    let src = "for i in 0..3 { }";
    let tokens = [
        Token::For,
        Token::Identifier("i"),
        Token::In,
        Token::LitInteger("0"),
        Token::DotDot,
        Token::LitInteger("3"),
        Token::LBrace,
        Token::RBrace,
        Token::Eof,
    ];
    let spans = [0..3, 4..5, 6..8, 9..10, 10..12, 12..13, 14..15, 16..17, 999..999];
    let mut p = parser(src, &tokens, &spans);
    let nodes = p.parse(&[false, false]).expect("no errors");
    assert_eq!(
        nodes,
        vec![Stmt::Expr(Expr::For {
            pattern: stick::ast::Pattern::Ident(Ident("i", 4..5)),
            iter: Box::new(Expr::Range {
                start: Some(Box::new(lit("0", 9..10))),
                end: Some(Box::new(lit("3", 12..13))),
            }),
            body: Box::new(Expr::Block { stmts: vec![], tail: None }),
        })]
    );
    assert_eq!(p.pos, tokens.len());
}

#[test]
fn while_loop_with_a_body() {
    let src = "while go { go = false }";
    let tokens = [
        Token::While,
        Token::Identifier("go"),
        Token::LBrace,
        Token::Identifier("go"),
        Token::Assign,
        Token::Bool(false),
        Token::RBrace,
        Token::Eof,
    ];
    let spans = [0..5, 6..8, 9..10, 11..13, 14..15, 16..21, 22..23, 999..999];
    let mut p = parser(src, &tokens, &spans);
    let nodes = p.parse(&[false, false]).expect("no errors");
    assert_eq!(
        nodes,
        vec![Stmt::Expr(Expr::While {
            cond: Box::new(Expr::Ident(Ident("go", 6..8))),
            body: Box::new(Expr::Block {
                stmts: vec![],
                tail: Some(Box::new(Expr::Assign {
                    op: AssignOp::Assign,
                    lhs: LeftSide::Var(Ident("go", 11..13)),
                    rhs: Box::new(Expr::Literal(Literal::Bool(false, 16..21))),
                })),
            }),
        })]
    );
}

#[test]
fn missing_separator_is_reported_and_parsing_goes_on() {
    let src = "a b\n";
    let tokens = [Token::Identifier("a"), Token::Identifier("b"), Token::Newline, Token::Eof];
    let spans = [0..1, 2..3, 3..4, 999..999];
    let mut p = parser(src, &tokens, &spans);
    let errors = p.parse(&[false, false]).expect_err("missing separator");
    assert_eq!(errors.len(), 1);
    assert_eq!(
        errors[0].err,
        SyntaxError::Parse(ParseError::MissingExpected("all statements must be followed by either a newline or semicolon"))
    );
    assert_eq!(errors[0].span, 2..3);
    assert!(p.errors.is_empty());
    assert_eq!(p.pos, tokens.len());
}

#[test]
fn semicolons_separate_statements_in_a_block() {
    let src = "{a; b}";
    let tokens = [Token::LBrace, Token::Identifier("a"), Token::Semicolon, Token::Identifier("b"), Token::RBrace, Token::Eof];
    let spans = [0..1, 1..2, 2..3, 4..5, 5..6, 999..999];
    let mut p = parser(src, &tokens, &spans);
    let nodes = p.parse(&[false, false]).expect("no errors");
    assert_eq!(
        nodes,
        vec![Stmt::Expr(Expr::Block {
            stmts: vec![Stmt::Expr(Expr::Ident(Ident("a", 1..2)))],
            tail: Some(Box::new(Expr::Ident(Ident("b", 4..5)))),
        })]
    );
}

#[test]
fn match_reads_the_item_after_its_keyword() {
    let src = "let y = match x { _ -> 1 }";
    let tokens = [
        Token::Let,
        Token::Identifier("y"),
        Token::Assign,
        Token::Match,
        Token::Identifier("x"),
        Token::LBrace,
        Token::Underscore,
        Token::Arrow,
        Token::LitInteger("1"),
        Token::RBrace,
        Token::Eof,
    ];
    let spans = [0..3, 4..5, 6..7, 8..13, 14..15, 16..17, 18..19, 20..22, 23..24, 25..26, 999..999];
    let mut p = parser(src, &tokens, &spans);
    let nodes = p.parse(&[false, false]).expect("no errors");
    assert_eq!(
        nodes,
        vec![Stmt::VarDecl {
            name: Ident("y", 4..5),
            typ: Type::Inferred,
            init: Some(Expr::Match {
                item: Box::new(Expr::Ident(Ident("x", 14..15))),
                branches: vec![Branch {
                    pattern: Pattern::Wildcard,
                    guard: None,
                    body: Stmt::Expr(lit("1", 23..24)),
                }],
            }),
            mutable: false,
            constant: false,
            global: false,
        }]
    );
}

#[test]
fn top_level_steps() {
    let src = "\n? a";
    let tokens = [Token::Newline, Token::Match, Token::Identifier("a"), Token::Eof];
    let spans = [0..1, 1..2, 3..4, 999..999];
    let mut p = parser(src, &tokens, &spans);
    let mut nodes = Vec::new();
    assert_eq!(p.parse_step(&mut nodes), TopItem::Blank);
    assert_eq!(p.parse_step(&mut nodes), TopItem::Unknown);
    assert_eq!(p.parse_step(&mut nodes), TopItem::Statement { clean: true, separated: true });
    assert_eq!(p.pos, 3);
    assert_eq!(nodes, vec![Stmt::Expr(Expr::Ident(Ident("a", 3..4)))]);
    assert_eq!(p.finish(nodes).expect("no errors").len(), 1);
}

#[test]
fn parse_from_past_the_end_gives_nothing() {
    let tokens = [Token::Identifier("a")];
    let spans = [0..1];
    let mut p = parser("a", &tokens, &spans);
    p.pos = 5;
    assert_eq!(p.parse(&[false, false]).expect("no errors"), vec![]);
    assert_eq!(p.pos, 5);
}

#[test]
fn a_step_tells_where_its_errors_came_from() {
    let tokens = [Token::Let, Token::Identifier("x"), Token::Identifier("y"), Token::Newline];
    let spans = [0..3, 4..5, 6..7, 7..8];
    let mut p = parser("let x y\n", &tokens, &spans);
    let mut nodes = Vec::new();
    assert_eq!(p.parse_step(&mut nodes), TopItem::Statement { clean: false, separated: false });
    assert_eq!(p.errors.len(), 2);
    assert_eq!(
        p.errors[0].err,
        SyntaxError::Parse(ParseError::MissingExpected("type cannot be inferred without a right hand side"))
    );
    assert_eq!(
        p.errors[1].err,
        SyntaxError::Parse(ParseError::MissingExpected("all statements must be followed by either a newline or semicolon"))
    );
    assert!(nodes.is_empty());
}

#[test]
fn a_type_name_without_a_span_points_at_the_end() {
    let tokens = [Token::Let, Token::Identifier("p"), Token::Colon, Token::Identifier("Point")];
    let spans = [0..3, 4..5, 5..6];
    let mut p = parser("let p: Point", &tokens, &spans);
    let stmt = p.parse_let().expect("declaration");
    assert_eq!(
        stmt,
        Stmt::VarDecl {
            name: Ident("p", 4..5),
            typ: Type::Ident(Ident("Point", 12..12)),
            init: None,
            mutable: false,
            constant: false,
            global: false,
        }
    );
}
