//! The grammar the parser follows, stated as functions from a parse state
//! (position and diagnostics) to the next state and the tree read. Each
//! function says what the parser's method of the same name does, error
//! recovery included.

use vstd::prelude::*;

use core::ops::Range;

use crate::ast::{AssignOp, BinOp, Ident, InfixKind, Literal, Type, UnaryOp};
use crate::diagnostic::Diagnostic;
use crate::errors::{ParseError, SyntaxError};
use crate::parser::{infix_of, named_type, postfix_power, token_or_error};
use crate::token::{kind_in, one_of, Token};
use crate::tree::{BranchTree, ExprTree, PatternTree, StmtTree, SubscriptTree, TargetTree};

verus! {

/// What parsing reads: the tokens, their spans, and where diagnostics point.
pub struct ParseContext<'src, 't> {
    pub path: &'t str,
    pub src: &'src str,
    pub tokens: Seq<Token<'src>>,
    pub spans: Seq<Range<usize>>,
}

/// Where parsing stands: the position of the current token and the
/// diagnostics recorded so far.
#[verifier::ext_equal]
pub struct ParseState<'t, 'src> {
    pub pos: nat,
    pub errors: Seq<Diagnostic<'t, 'src>>,
}

/// A tree that may be missing, boxed.
pub open spec fn boxed<'src>(e: Option<ExprTree<'src>>) -> Option<Box<ExprTree<'src>>> {
    match e {
        Some(x) => Some(Box::new(x)),
        None => None,
    }
}

/// A parse error for a missing piece of syntax.
pub open spec fn missing_expected<'src>(msg: &'src str) -> SyntaxError<'src> {
    SyntaxError::Parse(ParseError::MissingExpected(msg))
}

impl<'src, 't> ParseContext<'src, 't> {
    /// The number of tokens not yet read.
    pub open spec fn rem(&self, st: ParseState<'t, 'src>) -> nat {
        if st.pos <= self.tokens.len() {
            (self.tokens.len() - st.pos) as nat
        } else {
            0
        }
    }

    /// `to` is strictly further than `from`, and within the stream.
    pub open spec fn moved(&self, from: ParseState<'t, 'src>, to: ParseState<'t, 'src>) -> bool {
        from.pos < to.pos <= self.tokens.len()
    }

    /// `to` is no further back than `from`, and within the stream.
    pub open spec fn kept(&self, from: ParseState<'t, 'src>, to: ParseState<'t, 'src>) -> bool {
        from.pos <= to.pos <= self.tokens.len()
    }

    /// The current token (`Error` at the end).
    pub open spec fn cur(&self, st: ParseState<'t, 'src>) -> Token<'src> {
        token_or_error(self.tokens, st.pos as int)
    }

    /// Whether the current token is `t`.
    pub open spec fn is(&self, st: ParseState<'t, 'src>, t: Token<'src>) -> bool {
        self.cur(st).same(&t)
    }

    /// Whether the current token is one of `any`.
    pub open spec fn is_any(&self, st: ParseState<'t, 'src>, any: Seq<Token<'src>>) -> bool {
        one_of(&self.cur(st), any)
    }

    /// The span diagnostics get at `st`.
    pub open spec fn here(&self, st: ParseState<'t, 'src>) -> Range<usize> {
        if st.pos < self.spans.len() {
            self.spans[st.pos as int]
        } else {
            Range { start: self.src.len(), end: self.src.len() }
        }
    }

    /// `st` with a diagnostic for `err` recorded at the current token.
    pub open spec fn error(&self, st: ParseState<'t, 'src>, err: SyntaxError<'src>) -> ParseState<'t, 'src> {
        ParseState {
            pos: st.pos,
            errors: st.errors.push(Diagnostic { path: self.path, src: self.src, span: self.here(st), err }),
        }
    }

    /// `st` with a missing-syntax diagnostic recorded.
    pub open spec fn missing(&self, st: ParseState<'t, 'src>, msg: &'src str) -> ParseState<'t, 'src> {
        self.error(st, missing_expected(msg))
    }

    /// One token further, unless at the end.
    pub open spec fn advance(&self, st: ParseState<'t, 'src>) -> ParseState<'t, 'src> {
        if st.pos < self.tokens.len() {
            ParseState { pos: st.pos + 1, errors: st.errors }
        } else {
            st
        }
    }

    /// Consuming a token of the variant of one of `any`, or reporting `msg`;
    /// nothing happens at the end.
    pub open spec fn expect(&self, st: ParseState<'t, 'src>, any: Seq<Token<'src>>, msg: &'src str) -> (ParseState<'t, 'src>, Option<Token<'src>>) {
        if st.pos >= self.tokens.len() {
            (st, None)
        } else if kind_in(&self.cur(st), any) {
            (self.advance(st), Some(self.cur(st)))
        } else {
            (self.missing(st, msg), None)
        }
    }

    /// Consuming the current token when it is `t`.
    pub open spec fn modifier(&self, st: ParseState<'t, 'src>, t: Token<'src>) -> (ParseState<'t, 'src>, bool) {
        if self.is(st, t) {
            (self.advance(st), true)
        } else {
            (st, false)
        }
    }

    /// Consuming an identifier.
    pub open spec fn take_ident(&self, st: ParseState<'t, 'src>) -> (ParseState<'t, 'src>, Option<Ident<'src>>) {
        match self.cur(st) {
            Token::Identifier(name) => (self.advance(st), Some(Ident(name, self.here(st)))),
            _ => (st, None),
        }
    }

    /// Skipping line breaks.
    pub open spec fn eat_newlines(&self, st: ParseState<'t, 'src>) -> ParseState<'t, 'src>
        decreases self.rem(st),
    {
        if st.pos < self.tokens.len() && self.is(st, Token::Newline) {
            self.eat_newlines(self.advance(st))
        } else {
            st
        }
    }

    /// Skipping line breaks and semicolons.
    pub open spec fn eat_delimiters(&self, st: ParseState<'t, 'src>) -> ParseState<'t, 'src>
        decreases self.rem(st),
    {
        if st.pos < self.tokens.len() && (self.is(st, Token::Newline) || self.is(st, Token::Semicolon)) {
            self.eat_delimiters(self.advance(st))
        } else {
            st
        }
    }

    /// Skipping semicolons.
    pub open spec fn eat_semicolons(&self, st: ParseState<'t, 'src>) -> ParseState<'t, 'src>
        decreases self.rem(st),
    {
        if st.pos < self.tokens.len() && self.is(st, Token::Semicolon) {
            self.eat_semicolons(self.advance(st))
        } else {
            st
        }
    }

    /// A type annotation: a type name, `()` or `_`.
    pub open spec fn type_ann(&self, st: ParseState<'t, 'src>) -> (ParseState<'t, 'src>, Type<'src>) {
        let (s1, tok) = self.expect(st, seq![Token::Identifier(""), Token::Unit, Token::Underscore], "invalid or missing type");
        match tok {
            Some(Token::Identifier(name)) => (s1, named_type(name, self.here(st))),
            Some(Token::Unit) => (s1, Type::Unit),
            Some(Token::Underscore) => (s1, Type::Inferred),
            _ => (s1, Type::Error),
        }
    }

    /// The assignment target an expression denotes.
    pub open spec fn target(&self, st: ParseState<'t, 'src>, e: ExprTree<'src>) -> (ParseState<'t, 'src>, Option<TargetTree<'src>>) {
        match e {
            ExprTree::Ident(i) => (st, Some(TargetTree::Var(i))),
            ExprTree::Field { obj, name } => (st, Some(TargetTree::Field { obj, name })),
            ExprTree::Index { obj, sub } => (st, Some(TargetTree::Subscript { obj, sub })),
            _ => (self.missing(st, "left side of assignment must be identifier, field, or index"), None),
        }
    }

    /// What an expression starts with.
    pub open spec fn prefix(&self, st: ParseState<'t, 'src>) -> (ParseState<'t, 'src>, ExprTree<'src>)
        decreases self.rem(st), 1nat,
    {
        if st.pos >= self.tokens.len() {
            (self.missing(st, "unexpected EOF"), ExprTree::Unknown)
        } else {
            let span = self.here(st);
            let s1 = self.advance(st);
            match self.cur(st) {
                Token::Minus => {
                    let (s2, e) = self.expr(s1, 12);
                    (s2, ExprTree::Unary { op: UnaryOp::Neg, expr: Box::new(e) })
                },
                Token::MinusMinus => {
                    let (s2, e) = self.expr(s1, 12);
                    (s2, ExprTree::Unary { op: UnaryOp::PreDec, expr: Box::new(e) })
                },
                Token::PlusPlus => {
                    let (s2, e) = self.expr(s1, 12);
                    (s2, ExprTree::Unary { op: UnaryOp::PreInc, expr: Box::new(e) })
                },
                Token::LogicalNot => {
                    let (s2, e) = self.expr(s1, 12);
                    (s2, ExprTree::Unary { op: UnaryOp::Not, expr: Box::new(e) })
                },
                Token::BitNot => {
                    let (s2, e) = self.expr(s1, 12);
                    (s2, ExprTree::Unary { op: UnaryOp::BitNot, expr: Box::new(e) })
                },
                Token::DotDot => {
                    let (s2, end) = self.until(s1, seq![Token::LBrace, Token::Newline, Token::Semicolon, Token::RBracket, Token::RParen]);
                    (s2, ExprTree::Range { start: None, end })
                },
                Token::LParen => {
                    let (s2, inner) = self.expr(s1, 0);
                    let (s3, _) = self.expect(s2, seq![Token::RParen], "expected ')' to close parenthesized expression");
                    (s3, inner)
                },
                Token::Identifier(name) => (s1, ExprTree::Ident(Ident(name, span))),
                Token::LitInteger(n) => (s1, ExprTree::Literal(Literal::Int(n, span))),
                Token::LitFloat(n) => (s1, ExprTree::Literal(Literal::Float(n, span))),
                Token::LitString(v) => (s1, ExprTree::Literal(Literal::String(v, span))),
                Token::LitChar(v) => (s1, ExprTree::Literal(Literal::Char(v, span))),
                Token::Bool(b) => (s1, ExprTree::Literal(Literal::Bool(b, span))),
                Token::Unit => (s1, ExprTree::Literal(Literal::Unit(span))),
                Token::If => self.if_expr(s1),
                Token::While => self.while_expr(s1),
                Token::For => self.for_expr(s1),
                Token::Match => self.match_expr(s1),
                Token::LBrace => self.block(s1),
                _ => (s1, ExprTree::Unknown),
            }
        }
    }

    /// An expression whose infix operators bind at least as tightly as `min`.
    pub open spec fn expr(&self, st: ParseState<'t, 'src>, min: u8) -> (ParseState<'t, 'src>, ExprTree<'src>)
        decreases self.rem(st), 2nat,
    {
        let (s1, left) = self.prefix(st);
        if self.moved(st, s1) {
            self.expr_loop(s1, left, min)
        } else {
            (s1, left)
        }
    }

    /// What follows the start of an expression: postfix operators, ranges
    /// and infix operators binding at least as tightly as `min`.
    pub open spec fn expr_loop(&self, st: ParseState<'t, 'src>, left: ExprTree<'src>, min: u8) -> (ParseState<'t, 'src>, ExprTree<'src>)
        decreases self.rem(st), 4nat,
    {
        if st.pos >= self.tokens.len() {
            (st, left)
        } else if postfix_power(self.cur(st)) != 0 && postfix_power(self.cur(st)) >= min {
            let (s1, l2) = self.postfix(st, left);
            if self.moved(st, s1) {
                self.expr_loop(s1, l2, min)
            } else {
                (s1, l2)
            }
        } else if self.is(st, Token::DotDot) {
            let s1 = self.advance(st);
            let (s2, end) = self.until(s1, seq![Token::LBrace, Token::Newline, Token::Semicolon, Token::RBracket, Token::RParen]);
            let l2 = ExprTree::Range { start: Some(Box::new(left)), end };
            if self.moved(st, s2) {
                self.expr_loop(s2, l2, min)
            } else {
                (s2, l2)
            }
        } else {
            match infix_of(self.cur(st)) {
                Some((prec, op)) => if prec < min {
                    (st, left)
                } else {
                    let s1 = self.advance(st);
                    match op {
                        InfixKind::Assign(aop) => {
                            let (s2, rhs) = self.expr(s1, prec);
                            let (s3, lhs) = self.target(s2, left);
                            match lhs {
                                Some(t) => {
                                    let l2 = ExprTree::Assign { op: aop, lhs: t, rhs: Box::new(rhs) };
                                    if self.moved(st, s3) {
                                        self.expr_loop(s3, l2, min)
                                    } else {
                                        (s3, l2)
                                    }
                                },
                                None => (s3, ExprTree::Unknown),
                            }
                        },
                        InfixKind::Binary(bop) => {
                            let (s2, rhs) = self.expr(s1, (prec + 1) as u8);
                            let l2 = ExprTree::Binary { op: bop, lhs: Box::new(left), rhs: Box::new(rhs) };
                            if self.moved(st, s2) {
                                self.expr_loop(s2, l2, min)
                            } else {
                                (s2, l2)
                            }
                        },
                    }
                },
                None => (st, left),
            }
        }
    }

    /// A postfix operator applied to `left`.
    pub open spec fn postfix(&self, st: ParseState<'t, 'src>, left: ExprTree<'src>) -> (ParseState<'t, 'src>, ExprTree<'src>)
        decreases self.rem(st), 3nat,
    {
        if self.is_any(st, seq![Token::LParen, Token::Unit]) {
            let (s2, args) = if self.is(st, Token::LParen) {
                let s1 = self.advance(st);
                let (s2, args) = self.call_args(s1);
                let (s3, _) = self.expect(s2, seq![Token::RParen], "expected ')' to close function call");
                (s3, args)
            } else {
                (self.advance(st), Seq::empty())
            };
            (s2, match left {
                ExprTree::Field { obj, name } => ExprTree::Method { receiver: obj, method: name, args },
                other => ExprTree::Call { func: Box::new(other), args },
            })
        } else if self.is_any(st, seq![Token::Dot, Token::Arrow]) {
            let s1 = self.advance(st);
            let (s2, name) = self.take_ident(s1);
            match name {
                Some(n) => (s2, ExprTree::Field { obj: Box::new(left), name: n }),
                None => (self.missing(s2, "expected identifier after field access operator"), ExprTree::Unknown),
            }
        } else if self.is(st, Token::LBracket) {
            let s1 = self.advance(st);
            let (s2, sub) = self.subscript(s1);
            let (s3, _) = self.expect(s2, seq![Token::RBracket], "missing ']'");
            (s3, ExprTree::Index { obj: Box::new(left), sub })
        } else if self.is(st, Token::PlusPlus) {
            (self.advance(st), ExprTree::Unary { op: UnaryOp::PostInc, expr: Box::new(left) })
        } else if self.is(st, Token::MinusMinus) {
            (self.advance(st), ExprTree::Unary { op: UnaryOp::PostDec, expr: Box::new(left) })
        } else {
            (st, left)
        }
    }

    /// The arguments of a call, up to the closing parenthesis.
    pub open spec fn call_args(&self, st: ParseState<'t, 'src>) -> (ParseState<'t, 'src>, Seq<ExprTree<'src>>)
        decreases self.rem(st), 3nat,
    {
        if self.is(st, Token::RParen) {
            (st, Seq::empty())
        } else {
            let (s1, e) = self.expr(st, 0);
            let (s2, args) = if self.moved(st, s1) {
                self.args_loop(s1, seq![e])
            } else {
                (s1, seq![e])
            };
            let s3 = if !self.is(s2, Token::RParen) {
                self.missing(s2, "expected ',' or ')' in call. have to add this to the error system")
            } else {
                s2
            };
            (s3, args)
        }
    }

    /// The arguments after the first, each introduced by a comma.
    pub open spec fn args_loop(&self, st: ParseState<'t, 'src>, acc: Seq<ExprTree<'src>>) -> (ParseState<'t, 'src>, Seq<ExprTree<'src>>)
        decreases self.rem(st), 4nat,
    {
        if !self.is(st, Token::Comma) {
            (st, acc)
        } else {
            let s1 = self.advance(st);
            let (s2, e) = self.expr(s1, 0);
            let acc2 = acc.push(e);
            if self.is(s2, Token::RParen) {
                (s2, acc2)
            } else if self.moved(st, s2) {
                self.args_loop(s2, acc2)
            } else {
                (s2, acc2)
            }
        }
    }

    /// What stands inside square brackets.
    pub open spec fn subscript(&self, st: ParseState<'t, 'src>) -> (ParseState<'t, 'src>, SubscriptTree<'src>)
        decreases self.rem(st), 4nat,
    {
        if self.is(st, Token::DotDot) {
            let s1 = self.advance(st);
            let (s2, end) = self.until(s1, seq![Token::RBracket]);
            (s2, SubscriptTree::Range { start: None, end })
        } else {
            let (s1, start) = self.expr(st, 0);
            if self.is(s1, Token::DotDot) {
                let s2 = self.advance(s1);
                if self.moved(st, s2) {
                    let (s3, end) = self.until(s2, seq![Token::RBracket]);
                    (s3, SubscriptTree::Range { start: Some(Box::new(start)), end })
                } else {
                    (s2, SubscriptTree::Range { start: Some(Box::new(start)), end: None })
                }
            } else {
                (s1, SubscriptTree::Index(Box::new(start)))
            }
        }
    }

    /// An expression unless the current token is one of `stops`.
    pub open spec fn until(&self, st: ParseState<'t, 'src>, stops: Seq<Token<'src>>) -> (ParseState<'t, 'src>, Option<Box<ExprTree<'src>>>)
        decreases self.rem(st), 3nat,
    {
        if self.is_any(st, stops) {
            (st, None)
        } else {
            let (s1, e) = self.expr(st, 0);
            (s1, Some(Box::new(e)))
        }
    }

    /// A pattern.
    pub open spec fn pattern(&self, st: ParseState<'t, 'src>) -> (ParseState<'t, 'src>, PatternTree<'src>)
        decreases self.rem(st), 4nat,
    {
        match self.cur(st) {
            Token::Underscore => (self.advance(st), PatternTree::Wildcard),
            Token::DotDot => {
                let s1 = self.advance(st);
                let (s2, end) = self.until(s1, seq![Token::LBrace, Token::Newline, Token::Semicolon]);
                (s2, PatternTree::Range { start: None, end })
            },
            Token::Identifier(name) => (self.advance(st), PatternTree::Ident(Ident(name, self.here(st)))),
            Token::LParen => {
                let s1 = self.advance(st);
                let (s2, p) = self.pattern(s1);
                let (s3, ps) = if self.moved(st, s2) {
                    self.patterns_loop(s2, seq![p])
                } else {
                    (s2, seq![p])
                };
                let (s4, _) = self.expect(s3, seq![Token::RParen], "expected ')' in tuple pattern");
                (s4, PatternTree::Tuple(ps))
            },
            _ => (st, PatternTree::Wildcard),
        }
    }

    /// The patterns of a tuple after the first, each introduced by a comma.
    pub open spec fn patterns_loop(&self, st: ParseState<'t, 'src>, acc: Seq<PatternTree<'src>>) -> (ParseState<'t, 'src>, Seq<PatternTree<'src>>)
        decreases self.rem(st), 5nat,
    {
        if !self.is(st, Token::Comma) {
            (st, acc)
        } else {
            let s1 = self.advance(st);
            let (s2, p) = self.pattern(s1);
            if self.moved(st, s2) {
                self.patterns_loop(s2, acc.push(p))
            } else {
                (s2, acc.push(p))
            }
        }
    }

    /// A function declaration, the current token being its keyword.
    pub open spec fn func(&self, st: ParseState<'t, 'src>) -> (ParseState<'t, 'src>, Result<StmtTree<'src>, SyntaxError<'src>>)
        decreases self.rem(st), 3nat,
    {
        let s1 = self.advance(st);
        let (s2, name) = self.take_ident(s1);
        match name {
            None => (s2, Err(missing_expected("function decl requires a name... did you forget it"))),
            Some(name) => {
                let has_args = self.is(s2, Token::LParen);
                let s3 = if !self.is_any(s2, seq![Token::LParen, Token::Unit]) {
                    self.missing(s2, "missing () around function args in definition")
                } else {
                    s2
                };
                let s4 = self.eat_newlines(self.advance(s3));
                let (s5, args) = if !has_args {
                    (s4, Ok(Seq::empty()))
                } else if self.moved(st, s4) {
                    let (t1, r) = self.fargs_loop(s4, Seq::empty());
                    match r {
                        Ok(args) => {
                            let (t2, _) = self.expect(t1, seq![Token::RParen], "missing closing parenthesis around function args in definition");
                            (self.eat_newlines(t2), Ok(args))
                        },
                        Err(e) => (t1, Err(e)),
                    }
                } else {
                    (s4, Ok(Seq::empty()))
                };
                match args {
                    Err(e) => (s5, Err(e)),
                    Ok(args) => {
                        let (s6, _) = self.expect(s5, seq![Token::Arrow], "functions must contain an explicit return type");
                        let (s7, typ) = self.type_ann(s6);
                        let (s8, body) = if self.is(s7, Token::Semicolon) {
                            (s7, None)
                        } else {
                            let t1 = self.eat_newlines(s7);
                            let (t2, lb) = self.expect(t1, seq![Token::LBrace],
                                "function definitions must either end in a semicolon to show it's a prototype, or a brace initiating the body");
                            if lb is Some && self.moved(st, t2) {
                                let (t3, b) = self.block(t2);
                                (t3, Some(b))
                            } else {
                                (t2, Some(ExprTree::Unknown))
                            }
                        };
                        (s8, Ok(StmtTree::FuncDecl { name, typ, args, body }))
                    },
                }
            },
        }
    }

    /// The parameters of a function declaration, up to the closing parenthesis.
    pub open spec fn fargs_loop(&self, st: ParseState<'t, 'src>, acc: Seq<(Ident<'src>, Type<'src>)>) -> (ParseState<'t, 'src>, Result<Seq<(Ident<'src>, Type<'src>)>, SyntaxError<'src>>)
        decreases self.rem(st), 4nat,
    {
        if self.is(st, Token::RParen) {
            (st, Ok(acc))
        } else {
            let (s1, argname) = self.take_ident(st);
            match argname {
                None => (s1, Err(missing_expected("arguments also require a name... did you forget them"))),
                Some(an) => {
                    let (s2, _) = self.expect(s1, seq![Token::Colon],
                        "arguments need to be typed, or specifically denoted compiler inferred (likely missing ':' after argument name)");
                    let (s3, argtyp) = self.type_ann(s2);
                    let acc2 = acc.push((an, argtyp));
                    let s4 = self.eat_newlines(s3);
                    if !self.is_any(s4, seq![Token::Comma, Token::RParen]) {
                        (s4, Err(missing_expected(
                            "arguments must be seperated by commas in the definition (may not have that be the case for calls)")))
                    } else {
                        let next_rparen = s4.pos + 1 < self.tokens.len()
                            && self.tokens[s4.pos + 1int].kind_spec() == Token::RParen.kind_spec();
                        let s5 = if self.is(s4, Token::Comma) && !next_rparen { self.advance(s4) } else { s4 };
                        if self.moved(st, s5) {
                            self.fargs_loop(s5, acc2)
                        } else {
                            (s5, Ok(acc2))
                        }
                    }
                },
            }
        }
    }

    /// A `for` loop after its keyword.
    pub open spec fn for_expr(&self, st: ParseState<'t, 'src>) -> (ParseState<'t, 'src>, ExprTree<'src>)
        decreases self.rem(st), 7nat,
    {
        let (s1, pattern) = self.pattern(st);
        let (s2, _) = self.expect(s1, seq![Token::In], "missing keyword 'in' inside for loop");
        if !self.kept(st, s2) {
            (s2, ExprTree::Unknown)
        } else {
            let (s3, iter) = self.expr(s2, 0);
            let (s4, _) = self.expect(s3, seq![Token::LBrace], "expected '{' in for loop");
            if !self.kept(st, s4) {
                (s4, ExprTree::Unknown)
            } else {
                let (s5, body) = self.block(s4);
                (s5, ExprTree::For { pattern, iter: Box::new(iter), body: Box::new(body) })
            }
        }
    }

    /// An `if` after its keyword, with its `else` part.
    pub open spec fn if_expr(&self, st: ParseState<'t, 'src>) -> (ParseState<'t, 'src>, ExprTree<'src>)
        decreases self.rem(st), 3nat,
    {
        let (s1, cond) = self.expr(st, 0);
        let (s2, lb) = self.expect(s1, seq![Token::LBrace], "missing '{' before if body");
        if lb is None || !self.moved(st, s2) {
            (s2, ExprTree::Unknown)
        } else {
            let (s3, then) = self.block(s2);
            let s4 = self.eat_newlines(s3);
            let (s5, else_) = if self.is(s4, Token::Else) {
                let s6 = self.eat_newlines(self.advance(s4));
                if self.is(s6, Token::If) {
                    let s7 = self.advance(s6);
                    if self.moved(st, s7) {
                        let (s8, e) = self.if_expr(s7);
                        (s8, Some(Box::new(e)))
                    } else {
                        (s7, None)
                    }
                } else {
                    let (s7, lb2) = self.expect(s6, seq![Token::LBrace], "missing '{' before else body");
                    if lb2 is None || !self.moved(st, s7) {
                        (s7, None)
                    } else {
                        let (s8, b) = self.block(s7);
                        (s8, Some(Box::new(b)))
                    }
                }
            } else {
                (s3, None)
            };
            (s5, ExprTree::If { cond: Box::new(cond), then: Box::new(then), else_ })
        }
    }

    /// A `while` loop after its keyword.
    pub open spec fn while_expr(&self, st: ParseState<'t, 'src>) -> (ParseState<'t, 'src>, ExprTree<'src>)
        decreases self.rem(st), 3nat,
    {
        let (s1, cond) = self.expr(st, 0);
        let (s2, lb) = self.expect(s1, seq![Token::LBrace], "missing '{' before while body");
        if lb is None || !self.moved(st, s2) {
            (s2, ExprTree::Unknown)
        } else {
            let (s3, body) = self.block(s2);
            (s3, ExprTree::While { cond: Box::new(cond), body: Box::new(body) })
        }
    }

    /// A `match` after its keyword: the matched expression, the braced arms.
    pub open spec fn match_expr(&self, st: ParseState<'t, 'src>) -> (ParseState<'t, 'src>, ExprTree<'src>)
        decreases self.rem(st), 3nat,
    {
        let (s2, item) = self.expr(st, 0);
        let (s3, lb) = self.expect(s2, seq![Token::LBrace], "expected '{' before match arms");
        if lb is None || !self.moved(st, s3) {
            (s3, ExprTree::Unknown)
        } else {
            let (s4, branches) = self.arms_loop(s3, Seq::empty());
            let (s5, _) = self.expect(s4, seq![Token::RBrace], "expected '}' to close match expression");
            (s5, ExprTree::Match { item: Box::new(item), branches })
        }
    }

    /// The arms of a `match`, up to its closing brace.
    pub open spec fn arms_loop(&self, st: ParseState<'t, 'src>, acc: Seq<BranchTree<'src>>) -> (ParseState<'t, 'src>, Seq<BranchTree<'src>>)
        decreases self.rem(st), 5nat,
    {
        if self.is(st, Token::RBrace) {
            (st, acc)
        } else {
            let s1 = self.eat_newlines(st);
            if self.is(s1, Token::RBrace) || !self.kept(st, s1) {
                (s1, acc)
            } else {
                let (s2, pattern) = self.pattern(s1);
                let (s3, arrow) = self.expect(s2, seq![Token::Arrow], "expected '->' after pattern in match arm");
                if arrow is None || !self.moved(st, s3) {
                    (s3, acc)
                } else {
                    let (s4, body) = if self.is(s3, Token::LBrace) {
                        let (t, b) = self.block(s3);
                        (t, StmtTree::Expr(b))
                    } else {
                        let (t, e) = self.expr(s3, 0);
                        (t, StmtTree::Expr(e))
                    };
                    let acc2 = acc.push(BranchTree { pattern, guard: None, body });
                    let s5 = self.eat_delimiters(s4);
                    if self.moved(st, s5) {
                        self.arms_loop(s5, acc2)
                    } else {
                        (s5, acc2)
                    }
                }
            }
        }
    }

    /// A block after its opening brace, up to and including its closing brace.
    pub open spec fn block(&self, st: ParseState<'t, 'src>) -> (ParseState<'t, 'src>, ExprTree<'src>)
        decreases self.rem(st), 6nat,
    {
        self.block_loop(st, Seq::empty())
    }

    /// The rest of a block whose statements so far are `stmts`.
    pub open spec fn block_loop(&self, st: ParseState<'t, 'src>, stmts: Seq<StmtTree<'src>>) -> (ParseState<'t, 'src>, ExprTree<'src>)
        decreases self.rem(st), 5nat,
    {
        if st.pos >= self.tokens.len() {
            (self.missing(st, "expected '}' to close block"), ExprTree::Block { stmts, tail: None })
        } else {
            match self.cur(st) {
                Token::RBrace => (self.advance(st), ExprTree::Block { stmts, tail: None }),
                Token::Newline | Token::Semicolon => self.block_loop(self.advance(st), stmts),
                Token::Let => {
                    let (s1, r) = self.let_decl(st);
                    match r {
                        Ok(s) => self.block_after(st, s1, stmts.push(s)),
                        Err(e) => self.block_after(st, self.error(s1, e), stmts),
                    }
                },
                Token::Fn => {
                    let (s1, r) = self.func(st);
                    match r {
                        Ok(s) => self.block_after(st, s1, stmts.push(s)),
                        Err(e) => self.block_after(st, self.error(s1, e), stmts),
                    }
                },
                Token::Return => {
                    let s1 = self.advance(st);
                    if self.is_any(s1, seq![Token::Newline, Token::Semicolon, Token::RBrace]) {
                        self.block_after(st, s1, stmts.push(StmtTree::Return(None)))
                    } else {
                        let (s2, e) = self.expr(s1, 0);
                        self.block_after(st, s2, stmts.push(StmtTree::Return(Some(e))))
                    }
                },
                Token::Break => self.block_after(st, self.advance(st), stmts.push(StmtTree::Break)),
                Token::Continue => self.block_after(st, self.advance(st), stmts.push(StmtTree::Continue)),
                _ => {
                    let (s1, e) = self.expr(st, 0);
                    let s2 = self.eat_newlines(s1);
                    if self.is(s2, Token::RBrace) {
                        (self.advance(s2), ExprTree::Block { stmts, tail: Some(Box::new(e)) })
                    } else if self.moved(st, s2) {
                        self.block_loop(s2, stmts.push(StmtTree::Expr(e)))
                    } else {
                        (s2, ExprTree::Block { stmts: stmts.push(StmtTree::Expr(e)), tail: None })
                    }
                },
            }
        }
    }

    /// What follows a statement of a block that started at `st0`: a
    /// separator, the closing brace, or a reported missing separator.
    pub open spec fn block_after(&self, st0: ParseState<'t, 'src>, st: ParseState<'t, 'src>, stmts: Seq<StmtTree<'src>>) -> (ParseState<'t, 'src>, ExprTree<'src>)
        decreases self.rem(st0), 4nat,
    {
        if self.is_any(st, seq![Token::Newline, Token::Semicolon]) {
            let s1 = self.eat_delimiters(st);
            if self.moved(st0, s1) {
                self.block_loop(s1, stmts)
            } else {
                (s1, ExprTree::Block { stmts, tail: None })
            }
        } else if self.is(st, Token::RBrace) {
            (self.advance(st), ExprTree::Block { stmts, tail: None })
        } else {
            let s1 = self.missing(st, "expected ';', newline, or '}' after statement in block");
            if self.moved(st0, s1) {
                self.block_loop(s1, stmts)
            } else {
                (s1, ExprTree::Block { stmts, tail: None })
            }
        }
    }

    /// A variable declaration, the current token being `let`.
    pub open spec fn let_decl(&self, st: ParseState<'t, 'src>) -> (ParseState<'t, 'src>, Result<StmtTree<'src>, SyntaxError<'src>>)
        decreases self.rem(st), 3nat,
    {
        let s1 = self.advance(st);
        let (s2, c) = self.modifier(s1, Token::Const);
        let (s3, g) = self.modifier(s2, Token::Static);
        let (s4, m) = self.modifier(s3, Token::Mutable);
        let s5 = if c && m {
            self.error(s4, SyntaxError::Parse(ParseError::ConstDisallowed("constant cannot be used in tandem with mutable.")))
        } else {
            s4
        };
        let s6 = if c && g {
            self.error(s5, SyntaxError::Parse(ParseError::ConstDisallowed("constant cannot be used in tandem with static.")))
        } else {
            s5
        };
        let (s7, name) = self.take_ident(s6);
        match name {
            None => (s7, Err(missing_expected("let must have an identifier afterwards"))),
            Some(name) => {
                let (s8, typ) = if self.is(s7, Token::Colon) {
                    self.type_ann(self.advance(s7))
                } else {
                    (s7, Type::Inferred)
                };
                if self.is(s8, Token::Assign) {
                    let s9 = self.advance(s8);
                    match self.cur(s9) {
                        Token::Error | Token::Newline | Token::Semicolon | Token::Eof => {
                            (s9, Err(missing_expected("expected expression after '='")))
                        },
                        _ => if self.moved(st, s9) {
                            let (s10, e) = self.expr(s9, 0);
                            (s10, Ok(StmtTree::VarDecl { name, typ, init: Some(e), mutable: m, constant: c, global: g }))
                        } else {
                            (s9, Err(missing_expected("expected expression after '='")))
                        },
                    }
                } else if typ == Type::<'src>::Inferred {
                    (s8, Err(missing_expected("type cannot be inferred without a right hand side")))
                } else {
                    (s8, Ok(StmtTree::VarDecl { name, typ, init: None, mutable: m, constant: c, global: g }))
                }
            },
        }
    }

    /// The top-level statements from `st` on, after `nodes`.
    pub open spec fn top(&self, st: ParseState<'t, 'src>, nodes: Seq<StmtTree<'src>>) -> (ParseState<'t, 'src>, Seq<StmtTree<'src>>)
        decreases self.rem(st),
    {
        if st.pos >= self.tokens.len() {
            (st, nodes)
        } else {
            let (s1, n1) = self.top_step(st, nodes);
            if self.moved(st, s1) {
                self.top(s1, n1)
            } else {
                (s1, n1)
            }
        }
    }

    /// One step of the top level: a line break or end marker skipped, a
    /// statement and what must follow it, or a token that cannot start a
    /// statement skipped.
    pub open spec fn top_step(&self, st: ParseState<'t, 'src>, nodes: Seq<StmtTree<'src>>) -> (ParseState<'t, 'src>, Seq<StmtTree<'src>>) {
        match self.cur(st) {
            Token::Newline | Token::Eof => (self.advance(st), nodes),
            Token::Identifier(_) | Token::LitInteger(_) | Token::LitFloat(_) | Token::LitString(_)
            | Token::LitChar(_) | Token::Bool(_) | Token::LParen | Token::LBrace | Token::If | Token::While
            | Token::For | Token::Minus | Token::PlusPlus | Token::MinusMinus | Token::LogicalNot
            | Token::BitNot | Token::Let | Token::Fn => {
                let (s1, n1) = self.stmt_part(st, nodes);
                (self.stmt_end(s1), n1)
            },
            _ => (self.advance(st), nodes),
        }
    }

    /// A top-level statement itself, appended to `nodes` when it parses (its
    /// error recorded otherwise), before what must follow it.
    pub open spec fn stmt_part(&self, st: ParseState<'t, 'src>, nodes: Seq<StmtTree<'src>>) -> (ParseState<'t, 'src>, Seq<StmtTree<'src>>) {
        match self.cur(st) {
            Token::Let => {
                let (s1, r) = self.let_decl(st);
                match r {
                    Ok(s) => (s1, nodes.push(s)),
                    Err(e) => (self.error(s1, e), nodes),
                }
            },
            Token::Fn => {
                let (s1, r) = self.func(st);
                match r {
                    Ok(s) => (s1, nodes.push(s)),
                    Err(e) => (self.error(s1, e), nodes),
                }
            },
            _ => {
                let (s1, e) = self.expr(st, 0);
                (s1, nodes.push(StmtTree::Expr(e)))
            },
        }
    }

    /// What must follow a top-level statement: a line break, semicolons, the
    /// end marker or a brace; otherwise a missing separator is reported.
    pub open spec fn stmt_end(&self, st: ParseState<'t, 'src>) -> ParseState<'t, 'src> {
        if !self.is_any(st, seq![Token::Newline, Token::Semicolon, Token::Eof, Token::LBrace]) {
            self.missing(st, "all statements must be followed by either a newline or semicolon")
        } else {
            self.eat_semicolons(st)
        }
    }
}

} // verus!
