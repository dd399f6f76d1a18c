//! The parser: turns a token stream into statements, recording a diagnostic
//! for every piece of malformed syntax and carrying on after it.

use vstd::prelude::*;

use core::ops::Range;

use crate::ast::{copy_range, AssignOp, BinOp, Branch, Expr, Ident, InfixKind, LeftSide, Literal, Pattern, Stmt, Subscript, Type, UnaryOp};
use crate::diagnostic::Diagnostic;
use crate::errors::{ParseError, SyntaxError};
use crate::grammar::{ParseContext, ParseState};
use crate::tree::{
    branch_trees, expr_trees, lemma_branch_trees_push, lemma_expr_trees_push, lemma_pattern_trees_push,
    lemma_stmt_trees_push, opt_tree, pattern_trees, stmt_tree, stmt_trees, StmtTree,
};
use crate::text::str_eq;
use crate::token::{equals_any, kind_among, kind_in, one_of, Token};

verus! {

/// Parser state over a token stream and the spans of its tokens.
pub struct Parser<'src, 't> {
    pub path: &'src str,
    pub src: &'src str,
    pub tokens: &'t [Token<'src>],
    /// `spans[i]` is the span of source `tokens[i]` was read from
    pub spans: &'t [Range<usize>],
    /// index of the current token
    pub pos: usize,
    /// stop at the first error (the caller shows that error and exits)
    pub fastfail: bool,
    pub errors: Vec<Diagnostic<'t, 'src>>,
}

/// The view of a statement parsed or of the error that stopped it.
pub open spec fn stmt_result<'src>(r: Result<Stmt<'src>, SyntaxError<'src>>) -> Result<StmtTree<'src>, SyntaxError<'src>> {
    match r {
        Ok(s) => Ok(stmt_tree(s)),
        Err(e) => Err(e),
    }
}

/// The token at `i`, or `Error` past the end.
pub open spec fn token_or_error<'src>(tokens: Seq<Token<'src>>, i: int) -> Token<'src> {
    if 0 <= i < tokens.len() {
        tokens[i]
    } else {
        Token::Error
    }
}

/// Whether the token at `i` exists and is `t`.
pub open spec fn token_is<'src>(tokens: Seq<Token<'src>>, i: int, t: Token) -> bool {
    0 <= i < tokens.len() && tokens[i].same(&t)
}

impl<'src, 't> Parser<'src, 't> {
    /// A well-formed parser: the position is at most the end of the stream.
    pub open spec fn wf(&self) -> bool {
        self.pos <= self.tokens@.len()
    }

    /// What parsing reads: the tokens, their spans, and where diagnostics point.
    pub open spec fn context(&self) -> ParseContext<'src, 't> {
        ParseContext { path: self.path, src: self.src, tokens: self.tokens@, spans: self.spans@ }
    }

    /// Where parsing stands: the position and the diagnostics recorded.
    pub open spec fn pstate(&self) -> ParseState<'t, 'src> {
        ParseState { pos: self.pos as nat, errors: self.errors@ }
    }

    /// The tokens not yet consumed.
    pub open spec fn remaining(&self) -> int {
        self.tokens@.len() - self.pos
    }

    /// The current token, or `Error` at the end of the stream.
    pub open spec fn current(&self) -> Token<'src> {
        token_or_error(self.tokens@, self.pos as int)
    }

    /// What parsing keeps: the stream, the configuration and the errors
    /// already recorded; the position only moves forward.
    pub open spec fn advanced_from(&self, old: &Parser<'src, 't>) -> bool {
        &&& self.wf()
        &&& self.tokens == old.tokens
        &&& self.spans == old.spans
        &&& self.path == old.path
        &&& self.src == old.src
        &&& self.fastfail == old.fastfail
        &&& old.pos <= self.pos
        &&& old.errors@.len() <= self.errors@.len()
        &&& forall|i: int| 0 <= i < old.errors@.len() ==> #[trigger] self.errors@[i] == old.errors@[i]
    }

    /// Nothing but the position changed, and it moved by `n` tokens.
    pub open spec fn moved_by(&self, old: &Parser<'src, 't>, n: int) -> bool {
        &&& self.advanced_from(old)
        &&& self.pos == old.pos + n
        &&& self.errors == old.errors
    }

    /// The span a diagnostic gets: the current token's, or an empty span at
    /// the end of the source when there is none.
    pub open spec fn here(&self) -> Range<usize> {
        if self.pos < self.spans@.len() {
            self.spans@[self.pos as int]
        } else {
            Range { start: self.src.len(), end: self.src.len() }
        }
    }

    /// The diagnostic recorded for `err` at the current position.
    pub open spec fn diagnostic_here(&self, err: SyntaxError<'src>) -> Diagnostic<'t, 'src> {
        Diagnostic { path: self.path, src: self.src, span: self.here(), err }
    }

    /// Only `err` was recorded, at the current position; nothing else changed.
    pub open spec fn reported(&self, old: &Parser<'src, 't>, err: SyntaxError<'src>) -> bool {
        &&& self.advanced_from(old)
        &&& self.pos == old.pos
        &&& self.errors@ == old.errors@.push(old.diagnostic_here(err))
    }

    /// The span of the current token, or an empty span at the end of the source.
    fn cur_span(&self) -> (r: Range<usize>)
        ensures
            r == self.here(),
    {
        if self.pos < self.spans.len() {
            copy_range(&self.spans[self.pos])
        } else {
            Range { start: self.src.len(), end: self.src.len() }
        }
    }

    /// The current token, without advancing.
    fn cur(&self) -> (r: Option<&'t Token<'src>>)
        ensures
            r == (if self.pos < self.tokens@.len() { Some(&self.tokens@[self.pos as int]) } else { None }),
    {
        if self.pos < self.tokens.len() {
            Some(&self.tokens[self.pos])
        } else {
            None
        }
    }

    /// The token after the current one, without advancing.
    fn peek(&self) -> (r: Option<&'t Token<'src>>)
        ensures
            r == (if self.pos + 1 < self.tokens@.len() { Some(&self.tokens@[self.pos + 1]) } else { None }),
    {
        if self.pos < self.tokens.len() && self.pos + 1 < self.tokens.len() {
            Some(&self.tokens[self.pos + 1])
        } else {
            None
        }
    }

    /// Whether the current token is `matched` (`Error` stands for the end).
    fn matches(&self, matched: &Token<'src>) -> (r: bool)
        ensures
            r == self.current().same(matched),
    {
        let tok = match self.cur() {
            Some(t) => t,
            None => &Token::Error,
        };
        tok.equals(matched)
    }

    /// Whether the current token is one of `any` (`Error` stands for the end).
    fn matches_any(&self, any: &[Token<'src>]) -> (r: bool)
        ensures
            r == one_of(&self.current(), any@),
    {
        let tok = match self.cur() {
            Some(t) => t,
            None => &Token::Error,
        };
        equals_any(tok, any)
    }

    /// Records a diagnostic for `err` at the current token. With `fastfail`
    /// set, the caller shows the first diagnostic recorded and stops.
    fn error(&mut self, err: SyntaxError<'src>)
        requires
            old(self).wf(),
        ensures
            final(self).reported(old(self), err),
            final(self).pstate() == old(self).context().error(old(self).pstate(), err),
    {
        let span = self.cur_span();
        let diag = Diagnostic { path: self.path, src: self.src, span, err };
        self.errors.push(diag);
    }

    /// Consumes the current token when it is of the variant of one of `any`
    /// (whatever it carries); otherwise records
    /// `msg` as a missing piece of syntax. At the end of the stream it does
    /// nothing and gives `None`.
    fn expect_msg(&mut self, any: &[Token<'src>], msg: &'src str) -> (r: Option<&'t Token<'src>>)
        requires
            old(self).wf(),
        ensures
            ({
                let (st, t) = old(self).context().expect(old(self).pstate(), any@, msg);
                final(self).pstate() == st && t == match r {
                    Some(x) => Some(*x),
                    None => None,
                }
            }),
            old(self).pos >= old(self).tokens@.len() ==> r is None && *final(self) == *old(self),
            old(self).pos < old(self).tokens@.len() && kind_in(&old(self).current(), any@) ==> {
                &&& r == Some(&old(self).tokens@[old(self).pos as int])
                &&& final(self).moved_by(old(self), 1)
            },
            old(self).pos < old(self).tokens@.len() && !kind_in(&old(self).current(), any@) ==> {
                &&& r is None
                &&& final(self).reported(old(self), SyntaxError::Parse(ParseError::MissingExpected(msg)))
            },
    {
        let tok = match self.cur() {
            Some(t) => t,
            None => return None,
        };
        if kind_among(tok, any) {
            assert(self.tokens@.len() == self.tokens.len());
            self.pos = self.pos + 1;
            Some(tok)
        } else {
            self.error(SyntaxError::Parse(ParseError::MissingExpected(msg)));
            None
        }
    }

    /// Consumes the current token when it is `token`; tells whether it was.
    fn check_modifier(&mut self, token: &Token<'src>) -> (r: bool)
        requires
            old(self).wf(),
        ensures
            (final(self).pstate(), r) == old(self).context().modifier(old(self).pstate(), *token),
            r == old(self).current().same(token),
            final(self).moved_by(old(self), if r && old(self).pos < old(self).tokens@.len() { 1int } else { 0 }),
    {
        if self.matches(token) {
            self.advance();
            true
        } else {
            false
        }
    }

    /// Consumes one token and gives it; at the end gives `None`.
    fn advance(&mut self) -> (r: Option<&'t Token<'src>>)
        requires
            old(self).wf(),
        ensures
            final(self).pstate() == old(self).context().advance(old(self).pstate()),
            old(self).pos < old(self).tokens@.len() ==> r == Some(&old(self).tokens@[old(self).pos as int])
                && final(self).moved_by(old(self), 1),
            old(self).pos >= old(self).tokens@.len() ==> r is None && *final(self) == *old(self),
    {
        self.advance_by(1)
    }

    /// Moves `n` tokens forward and gives the token it left; at the end it
    /// gives `None` and stays.
    fn advance_by(&mut self, n: u8) -> (r: Option<&'t Token<'src>>)
        requires
            old(self).wf(),
            old(self).pos < old(self).tokens@.len() ==> old(self).pos + n <= old(self).tokens@.len(),
        ensures
            old(self).pos < old(self).tokens@.len() ==> r == Some(&old(self).tokens@[old(self).pos as int])
                && final(self).moved_by(old(self), n as int),
            old(self).pos >= old(self).tokens@.len() ==> r is None && *final(self) == *old(self),
    {
        let tok: &'t Token<'src> = match self.cur() {
            Some(t) => t,
            None => return None,
        };
        assert(self.tokens@.len() == self.tokens.len());
        self.pos = self.pos + n as usize;
        Some(tok)
    }

    /// Consumes the current token when it is an identifier and gives it with
    /// its span.
    fn take_ident(&mut self) -> (r: Option<Ident<'src>>)
        requires
            old(self).wf(),
        ensures
            (final(self).pstate(), r) == old(self).context().take_ident(old(self).pstate()),
            match old(self).current() {
                Token::Identifier(name) => {
                    &&& r == Some(Ident(name, old(self).here()))
                    &&& final(self).moved_by(old(self), 1)
                },
                _ => r is None && *final(self) == *old(self),
            },
    {
        match self.cur() {
            Some(Token::Identifier(name)) => {
                let ident = Ident(name, self.cur_span());
                self.advance();
                Some(ident)
            },
            _ => None,
        }
    }

    /// Skips the line breaks at the current position.
    fn eat_newlines(&mut self)
        requires
            old(self).wf(),
        ensures
            final(self).pstate() == old(self).context().eat_newlines(old(self).pstate()),
            final(self).advanced_from(old(self)),
            final(self).errors == old(self).errors,
            forall|i: int| old(self).pos <= i < final(self).pos ==> token_is(old(self).tokens@, i, Token::Newline),
            !token_is(final(self).tokens@, final(self).pos as int, Token::Newline),
    {
        while self.matches(&Token::Newline)
            invariant
                self.advanced_from(old(self)),
                self.errors == old(self).errors,
                old(self).context().eat_newlines(self.pstate()) == old(self).context().eat_newlines(old(self).pstate()),
                forall|i: int| old(self).pos <= i < self.pos ==> token_is(old(self).tokens@, i, Token::Newline),
            decreases self.remaining(),
        {
            self.advance();
        }
    }

    /// Skips the line breaks and semicolons at the current position.
    fn eat_stmt_delimiters(&mut self)
        requires
            old(self).wf(),
        ensures
            final(self).pstate() == old(self).context().eat_delimiters(old(self).pstate()),
            final(self).advanced_from(old(self)),
            final(self).errors == old(self).errors,
            forall|i: int| old(self).pos <= i < final(self).pos ==>
                token_is(old(self).tokens@, i, Token::Newline) || token_is(old(self).tokens@, i, Token::Semicolon),
            !token_is(final(self).tokens@, final(self).pos as int, Token::Newline),
            !token_is(final(self).tokens@, final(self).pos as int, Token::Semicolon),
    {
        while self.matches_any(&[Token::Newline, Token::Semicolon])
            invariant
                self.advanced_from(old(self)),
                self.errors == old(self).errors,
                old(self).context().eat_delimiters(self.pstate()) == old(self).context().eat_delimiters(old(self).pstate()),
                forall|i: int| old(self).pos <= i < self.pos ==>
                    token_is(old(self).tokens@, i, Token::Newline) || token_is(old(self).tokens@, i, Token::Semicolon),
            decreases self.remaining(),
        {
            self.advance();
        }
    }
}

/// The binding power of a postfix operator token (calls, subscripts, field
/// access, `++` and `--`), 0 for any other token.
pub open spec fn postfix_power(t: Token) -> u8 {
    match t {
        Token::LParen | Token::Unit | Token::LBracket | Token::Dot | Token::Arrow
        | Token::PlusPlus | Token::MinusMinus => 15,
        _ => 0,
    }
}

/// The binding power and operator of an infix operator token. Assignments
/// bind loosest, then `||`, `&&`, `|`, `^`, `&`, equality, comparison,
/// shifts, `+ -`, `* / %` and `**`.
pub open spec fn infix_of(t: Token) -> Option<(u8, InfixKind)> {
    match t {
        Token::PlusEq => Some((0, InfixKind::Assign(AssignOp::PlusEq))),
        Token::MinusEq => Some((0, InfixKind::Assign(AssignOp::MinusEq))),
        Token::StarEq => Some((0, InfixKind::Assign(AssignOp::StarEq))),
        Token::SlashEq => Some((0, InfixKind::Assign(AssignOp::SlashEq))),
        Token::PercentEq => Some((0, InfixKind::Assign(AssignOp::PercentEq))),
        Token::AndEq => Some((0, InfixKind::Assign(AssignOp::AndEq))),
        Token::OrEq => Some((0, InfixKind::Assign(AssignOp::OrEq))),
        Token::XorEq => Some((0, InfixKind::Assign(AssignOp::XorEq))),
        Token::ShlEq => Some((0, InfixKind::Assign(AssignOp::ShlEq))),
        Token::ShrEq => Some((0, InfixKind::Assign(AssignOp::ShrEq))),
        Token::LogicalOr => Some((1, InfixKind::Binary(BinOp::Or))),
        Token::LogicalAnd => Some((2, InfixKind::Binary(BinOp::And))),
        Token::BitOr => Some((3, InfixKind::Binary(BinOp::BitOr))),
        Token::BitXor => Some((4, InfixKind::Binary(BinOp::BitXor))),
        Token::BitAnd => Some((5, InfixKind::Binary(BinOp::BitAnd))),
        Token::EqEq => Some((6, InfixKind::Binary(BinOp::Eq))),
        Token::NotEq => Some((6, InfixKind::Binary(BinOp::NotEq))),
        Token::Less => Some((7, InfixKind::Binary(BinOp::Less))),
        Token::LessEq => Some((7, InfixKind::Binary(BinOp::LessEq))),
        Token::Greater => Some((7, InfixKind::Binary(BinOp::Greater))),
        Token::GreaterEq => Some((7, InfixKind::Binary(BinOp::GreaterEq))),
        Token::Assign => Some((0, InfixKind::Assign(AssignOp::Assign))),
        Token::Shl => Some((8, InfixKind::Binary(BinOp::Shl))),
        Token::Shr => Some((8, InfixKind::Binary(BinOp::Shr))),
        Token::Plus => Some((9, InfixKind::Binary(BinOp::Add))),
        Token::Minus => Some((9, InfixKind::Binary(BinOp::Sub))),
        Token::Star => Some((10, InfixKind::Binary(BinOp::Mul))),
        Token::Slash => Some((10, InfixKind::Binary(BinOp::Div))),
        Token::Percent => Some((10, InfixKind::Binary(BinOp::Mod))),
        Token::StarStar => Some((11, InfixKind::Binary(BinOp::Power))),
        _ => None,
    }
}

/// The type a type name denotes: a builtin type for the builtin names, the
/// user type `name` (with its span) otherwise.
pub open spec fn named_type<'src>(name: &'src str, span: Range<usize>) -> Type<'src> {
    if name@ == "i8"@ {
        Type::I8
    } else if name@ == "u8"@ {
        Type::U8
    } else if name@ == "i16"@ {
        Type::I16
    } else if name@ == "u16"@ {
        Type::U16
    } else if name@ == "i32"@ {
        Type::I32
    } else if name@ == "u32"@ {
        Type::U32
    } else if name@ == "i64"@ {
        Type::I64
    } else if name@ == "u64"@ {
        Type::U64
    } else if name@ == "f32"@ {
        Type::F32
    } else if name@ == "f64"@ {
        Type::F64
    } else if name@ == "bool"@ {
        Type::Bool
    } else if name@ == "char"@ {
        Type::Char
    } else if name@ == "str"@ {
        Type::Str
    } else {
        Type::Ident(Ident(name, span))
    }
}

/// The type a type annotation starting at `t` (with span `span`) denotes.
pub open spec fn type_of_token<'src>(t: Token<'src>, span: Range<usize>) -> Type<'src> {
    match t {
        Token::Identifier(name) => named_type(name, span),
        Token::Unit => Type::Unit,
        Token::Underscore => Type::Inferred,
        _ => Type::Error,
    }
}

/// The assignment target an expression denotes, if any.
pub open spec fn target_of<'src>(e: Expr<'src>) -> Option<LeftSide<'src>> {
    match e {
        Expr::Ident(ident) => Some(LeftSide::Var(ident)),
        Expr::Field { obj, name } => Some(LeftSide::Field { obj, name }),
        Expr::Index { obj, sub } => Some(LeftSide::Subscript { obj, sub }),
        _ => None,
    }
}

/// The type denoted by a type name.
fn type_named<'src>(name: &'src str, span: Range<usize>) -> (r: Type<'src>)
    ensures
        r == named_type(name, span),
{
    if str_eq(name, "i8") {
        Type::I8
    } else if str_eq(name, "u8") {
        Type::U8
    } else if str_eq(name, "i16") {
        Type::I16
    } else if str_eq(name, "u16") {
        Type::U16
    } else if str_eq(name, "i32") {
        Type::I32
    } else if str_eq(name, "u32") {
        Type::U32
    } else if str_eq(name, "i64") {
        Type::I64
    } else if str_eq(name, "u64") {
        Type::U64
    } else if str_eq(name, "f32") {
        Type::F32
    } else if str_eq(name, "f64") {
        Type::F64
    } else if str_eq(name, "bool") {
        Type::Bool
    } else if str_eq(name, "char") {
        Type::Char
    } else if str_eq(name, "str") {
        Type::Str
    } else {
        Type::Ident(Ident(name, span))
    }
}

impl<'src, 't> Parser<'src, 't> {
    /// The binding power of the current token as a postfix operator.
    fn postfix_precedence(&self) -> (r: u8)
        ensures
            r == (if self.pos < self.tokens@.len() { postfix_power(self.tokens@[self.pos as int]) } else { 0 }),
    {
        match self.cur() {
            Some(Token::LParen | Token::Unit | Token::LBracket | Token::Dot | Token::Arrow
            | Token::PlusPlus | Token::MinusMinus) => 15,
            _ => 0,
        }
    }

    /// The binding power and operator of the current token as an infix operator.
    fn infix_op(&self) -> (r: Option<(u8, InfixKind)>)
        ensures
            r == (if self.pos < self.tokens@.len() { infix_of(self.tokens@[self.pos as int]) } else { None }),
    {
        let tok = match self.cur() {
            Some(t) => t,
            None => return None,
        };
        match tok {
            Token::PlusEq => Some((0, InfixKind::Assign(AssignOp::PlusEq))),
            Token::MinusEq => Some((0, InfixKind::Assign(AssignOp::MinusEq))),
            Token::StarEq => Some((0, InfixKind::Assign(AssignOp::StarEq))),
            Token::SlashEq => Some((0, InfixKind::Assign(AssignOp::SlashEq))),
            Token::PercentEq => Some((0, InfixKind::Assign(AssignOp::PercentEq))),
            Token::AndEq => Some((0, InfixKind::Assign(AssignOp::AndEq))),
            Token::OrEq => Some((0, InfixKind::Assign(AssignOp::OrEq))),
            Token::XorEq => Some((0, InfixKind::Assign(AssignOp::XorEq))),
            Token::ShlEq => Some((0, InfixKind::Assign(AssignOp::ShlEq))),
            Token::ShrEq => Some((0, InfixKind::Assign(AssignOp::ShrEq))),
            Token::LogicalOr => Some((1, InfixKind::Binary(BinOp::Or))),
            Token::LogicalAnd => Some((2, InfixKind::Binary(BinOp::And))),
            Token::BitOr => Some((3, InfixKind::Binary(BinOp::BitOr))),
            Token::BitXor => Some((4, InfixKind::Binary(BinOp::BitXor))),
            Token::BitAnd => Some((5, InfixKind::Binary(BinOp::BitAnd))),
            Token::EqEq => Some((6, InfixKind::Binary(BinOp::Eq))),
            Token::NotEq => Some((6, InfixKind::Binary(BinOp::NotEq))),
            Token::Less => Some((7, InfixKind::Binary(BinOp::Less))),
            Token::LessEq => Some((7, InfixKind::Binary(BinOp::LessEq))),
            Token::Greater => Some((7, InfixKind::Binary(BinOp::Greater))),
            Token::GreaterEq => Some((7, InfixKind::Binary(BinOp::GreaterEq))),
            Token::Assign => Some((0, InfixKind::Assign(AssignOp::Assign))),
            Token::Shl => Some((8, InfixKind::Binary(BinOp::Shl))),
            Token::Shr => Some((8, InfixKind::Binary(BinOp::Shr))),
            Token::Plus => Some((9, InfixKind::Binary(BinOp::Add))),
            Token::Minus => Some((9, InfixKind::Binary(BinOp::Sub))),
            Token::Star => Some((10, InfixKind::Binary(BinOp::Mul))),
            Token::Slash => Some((10, InfixKind::Binary(BinOp::Div))),
            Token::Percent => Some((10, InfixKind::Binary(BinOp::Mod))),
            Token::StarStar => Some((11, InfixKind::Binary(BinOp::Power))),
            _ => None,
        }
    }

    /// The assignment target `expr` denotes; records a diagnostic when it
    /// denotes none.
    fn assign_lhs(&mut self, expr: Expr<'src>) -> (r: Option<LeftSide<'src>>)
        requires
            old(self).wf(),
        ensures
            ({
                let (st, t) = old(self).context().target(old(self).pstate(), expr@);
                final(self).pstate() == st && t == match r {
                    Some(l) => Some(l@),
                    None => None,
                }
            }),
            r == target_of(expr),
            r is Some ==> *final(self) == *old(self),
            r is None ==> final(self).reported(old(self), SyntaxError::Parse(ParseError::MissingExpected(
                "left side of assignment must be identifier, field, or index"))),
    {
        match expr {
            Expr::Ident(ident) => Some(LeftSide::Var(ident)),
            Expr::Field { obj, name } => Some(LeftSide::Field { obj, name }),
            Expr::Index { obj, sub } => Some(LeftSide::Subscript { obj, sub }),
            _ => {
                self.error(SyntaxError::Parse(ParseError::MissingExpected(
                    "left side of assignment must be identifier, field, or index",
                )));
                None
            },
        }
    }

    /// Parses a type annotation: a type name, `()` or `_`. Anything else is
    /// reported as a missing type and gives `Type::Error`.
    fn parse_type(&mut self) -> (r: Type<'src>)
        requires
            old(self).wf(),
        ensures
            (final(self).pstate(), r) == old(self).context().type_ann(old(self).pstate()),
            final(self).advanced_from(old(self)),
            old(self).pos >= old(self).tokens@.len() ==> r == Type::<'src>::Error && *final(self) == *old(self),
            old(self).pos < old(self).tokens@.len() ==> r == type_of_token(old(self).current(), old(self).here()),
            old(self).pos < old(self).tokens@.len() && r != Type::<'src>::Error ==> final(self).moved_by(old(self), 1),
            old(self).pos < old(self).tokens@.len() && r == Type::<'src>::Error ==> final(self).reported(old(self),
                SyntaxError::Parse(ParseError::MissingExpected("invalid or missing type"))),
    {
        let span = self.cur_span();
        let tok = self.expect_msg(
            &[Token::Identifier(""), Token::Unit, Token::Underscore],
            "invalid or missing type",
        );
        match tok {
            Some(Token::Identifier(typname)) => type_named(typname, span),
            Some(Token::Unit) => Type::Unit,
            Some(Token::Underscore) => Type::Inferred,
            _ => Type::Error,
        }
    }
}

impl<'src, 't> Parser<'src, 't> {
    /// Parses an expression unless the current token is one of `stops`.
    fn parse_optional_expr_until(&mut self, stops: &[Token<'src>]) -> (r: Option<Box<Expr<'src>>>)
        requires
            old(self).wf(),
        ensures
            (final(self).pstate(), opt_tree(r)) == old(self).context().until(old(self).pstate(), stops@),
            final(self).advanced_from(old(self)),
            r is None <==> one_of(&old(self).current(), stops@),
            r is None ==> *final(self) == *old(self),
        decreases old(self).remaining(), 3int,
    {
        if self.matches_any(stops) {
            None
        } else {
            Some(Box::new(self.parse_expr(0)))
        }
    }

    /// Parses the arguments of a call, up to (not including) the closing
    /// parenthesis.
    fn parse_call_args(&mut self) -> (r: Vec<Expr<'src>>)
        requires
            old(self).wf(),
        ensures
            (final(self).pstate(), expr_trees(r@)) == old(self).context().call_args(old(self).pstate()),
            final(self).advanced_from(old(self)),
            old(self).current().same(&Token::RParen) ==> r@.len() == 0 && *final(self) == *old(self),
        decreases old(self).remaining(), 3int,
    {
        let mut args: Vec<Expr<'src>> = Vec::new();
        if !self.matches(&Token::RParen) {
            let first = self.parse_expr(0);
            let ghost s1 = self.pstate();
            let ghost e1 = first@;
            proof {
                lemma_expr_trees_push(args@, first);
            }
            args.push(first);
            let ghost goal = old(self).context().args_loop(s1, seq![e1]);
            proof {
                assert(expr_trees(args@) =~= seq![e1]);
            }
            while self.matches(&Token::Comma)
                invariant_except_break
                    old(self).context().args_loop(self.pstate(), expr_trees(args@)) == goal,
                invariant
                    self.advanced_from(old(self)),
                    self.context() == old(self).context(),
                ensures
                    (self.pstate(), expr_trees(args@)) == goal,
                decreases self.remaining(),
            {
                let ghost prev = self.pstate();
                self.advance();
                let e = self.parse_expr(0);
                proof {
                    lemma_expr_trees_push(args@, e);
                }
                args.push(e);
                if self.matches(&Token::RParen) {
                    break;
                }
            }
            if !self.matches(&Token::RParen) {
                self.error(SyntaxError::Parse(ParseError::MissingExpected(
                    "expected ',' or ')' in call. have to add this to the error system",
                )));
            }
        }
        args
    }

    /// Parses what stands inside square brackets: an index or a slice.
    fn parse_subscript(&mut self) -> (r: Subscript<'src>)
        requires
            old(self).wf(),
        ensures
            (final(self).pstate(), r@) == old(self).context().subscript(old(self).pstate()),
            final(self).advanced_from(old(self)),
            old(self).current().same(&Token::DotDot) ==> r matches Subscript::Range { start: None, .. },
        decreases old(self).remaining(), 4int,
    {
        let stops = [Token::RBracket];
        proof {
            assert(stops@ =~= seq![Token::RBracket]);
        }
        if self.matches(&Token::DotDot) {
            self.advance();
            let end = self.parse_optional_expr_until(&stops);
            return Subscript::Range { start: None, end };
        }
        let start = self.parse_expr(0);
        if self.matches(&Token::DotDot) {
            self.advance();
            let end = self.parse_optional_expr_until(&stops);
            Subscript::Range { start: Some(Box::new(start)), end }
        } else {
            Subscript::Index(Box::new(start))
        }
    }

    /// Applies the postfix operator at the current token to `left`: a call
    /// (a method call when `left` is a field access), a field access, a
    /// subscript, `++` or `--`.
    fn apply_postfix(&mut self, left: &mut Expr<'src>)
        requires
            old(self).wf(),
        ensures
            (final(self).pstate(), final(left)@) == old(self).context().postfix(old(self).pstate(), old(left)@),
            final(self).advanced_from(old(self)),
            old(self).pos < old(self).tokens@.len() && postfix_power(old(self).current()) != 0
                ==> final(self).pos > old(self).pos,
        decreases old(self).remaining(), 3int,
    {
        let call_open = [Token::LParen, Token::Unit];
        let rparen = [Token::RParen];
        let field_access = [Token::Dot, Token::Arrow];
        let rbracket = [Token::RBracket];
        proof {
            assert(call_open@ =~= seq![Token::LParen, Token::Unit]);
            assert(rparen@ =~= seq![Token::RParen]);
            assert(field_access@ =~= seq![Token::Dot, Token::Arrow]);
            assert(rbracket@ =~= seq![Token::RBracket]);
        }
        let ghost cx = self.context();
        let ghost st = self.pstate();
        let mut current = Expr::Unknown;
        core::mem::swap(&mut current, left);
        let ghost l0 = current@;

        if self.matches_any(&call_open) {
            let args = if self.matches(&Token::LParen) {
                self.advance();
                let args = self.parse_call_args();
                self.expect_msg(&rparen, "expected ')' to close function call");
                args
            } else {
                self.advance();
                let none: Vec<Expr<'src>> = Vec::new();
                proof {
                    assert(expr_trees(none@) =~= Seq::empty());
                }
                none
            };
            *left = match current {
                Expr::Field { obj, name } => Expr::Method { receiver: obj, method: name, args },
                other => {
                    proof {
                        assert(!(l0 is Field));
                    }
                    Expr::Call { func: Box::new(other), args }
                },
            };
            proof {
                assert(cx.postfix(st, l0) == (self.pstate(), left@));
            }
            return;
        }

        if self.matches_any(&field_access) {
            self.advance();
            let name = match self.take_ident() {
                Some(name) => name,
                _ => {
                    self.error(SyntaxError::Parse(ParseError::MissingExpected(
                        "expected identifier after field access operator",
                    )));
                    *left = Expr::Unknown;
                    return;
                },
            };
            *left = Expr::Field { obj: Box::new(current), name };
            return;
        }

        if self.matches(&Token::LBracket) {
            self.advance();
            let sub = self.parse_subscript();
            self.expect_msg(&rbracket, "missing ']'");
            *left = Expr::Index { obj: Box::new(current), sub };
            return;
        }

        if self.matches(&Token::PlusPlus) {
            self.advance();
            *left = Expr::Unary { op: UnaryOp::PostInc, expr: Box::new(current) };
            return;
        }

        if self.matches(&Token::MinusMinus) {
            self.advance();
            *left = Expr::Unary { op: UnaryOp::PostDec, expr: Box::new(current) };
            return;
        }

        *left = current;
    }

    /// Parses an expression whose infix operators bind at least as tightly
    /// as `min` (precedence climbing); postfix operators, ranges and
    /// assignments included.
    fn parse_expr(&mut self, min: u8) -> (r: Expr<'src>)
        requires
            old(self).wf(),
        ensures
            (final(self).pstate(), r@) == old(self).context().expr(old(self).pstate(), min),
            final(self).advanced_from(old(self)),
            old(self).pos < old(self).tokens@.len() ==> final(self).pos > old(self).pos,
        decreases old(self).remaining(), 2int,
    {
        let mut left = self.parse_prefix();
        let ghost goal = old(self).context().expr(old(self).pstate(), min);
        let ghost cx = old(self).context();
        let range_stops = [Token::LBrace, Token::Newline, Token::Semicolon, Token::RBracket, Token::RParen];
        proof {
            assert(range_stops@ =~= seq![Token::LBrace, Token::Newline, Token::Semicolon, Token::RBracket, Token::RParen]);
            if !cx.moved(old(self).pstate(), self.pstate()) {
                assert(self.pos >= self.tokens@.len());
                assert(cx.expr_loop(self.pstate(), left@, min) == (self.pstate(), left@));
            }
        }

        while self.cur().is_some()
            invariant
                range_stops@ == seq![Token::LBrace, Token::Newline, Token::Semicolon, Token::RBracket, Token::RParen],
                cx == old(self).context(),
                goal == old(self).context().expr(old(self).pstate(), min),
                old(self).context().expr_loop(self.pstate(), left@, min) == goal,
                self.context() == old(self).context(),
                self.advanced_from(old(self)),
                old(self).pos < old(self).tokens@.len() ==> self.pos > old(self).pos,
                old(self).pos >= old(self).tokens@.len() ==> self.pos >= self.tokens@.len(),
            ensures
                (self.pstate(), left@) == goal,
            decreases self.remaining(),
        {
            let ghost prev = self.pstate();
            let ghost prev_left = left@;
            let ghost prev_tree = left;
            let precedence = self.postfix_precedence();
            if precedence != 0 && precedence >= min {
                self.apply_postfix(&mut left);
                proof {
                    assert(cx.moved(prev, self.pstate()));
                    assert(cx.expr_loop(prev, prev_left, min) == cx.expr_loop(self.pstate(), left@, min));
                }
                continue;
            }

            if self.matches(&Token::DotDot) {
                self.advance();
                let end = self.parse_optional_expr_until(&range_stops);
                let ghost end_tree = opt_tree(end);
                left = Expr::Range { start: Some(Box::new(left)), end };
                proof {
                    assert(cx.moved(prev, self.pstate()));
                    assert(opt_tree(Some(Box::new(prev_tree))) == Some(Box::new(prev_left)));
                    assert(left@ == crate::tree::ExprTree::Range { start: Some(Box::new(prev_left)), end: end_tree });
                }
                continue;
            }

            let (op_prec, op) = match self.infix_op() {
                Some(op) => op,
                None => break,
            };

            if op_prec < min {
                break;
            }
            self.advance();

            left = match op {
                InfixKind::Assign(aop) => {
                    let rhs = self.parse_expr(op_prec);
                    let lhs = match self.assign_lhs(left) {
                        Some(lhs) => lhs,
                        None => return Expr::Unknown,
                    };
                    Expr::Assign { op: aop, lhs, rhs: Box::new(rhs) }
                },
                InfixKind::Binary(bop) => {
                    let rhs = self.parse_expr(op_prec + 1);
                    Expr::Binary { op: bop, lhs: Box::new(left), rhs: Box::new(rhs) }
                },
            };
        }

        left
    }

    /// Parses a pattern: `_`, a binding name, a range `..end`, or a tuple of
    /// patterns. Any other token gives a wildcard without being consumed.
    fn parse_pattern(&mut self) -> (r: Pattern<'src>)
        requires
            old(self).wf(),
        ensures
            (final(self).pstate(), r@) == old(self).context().pattern(old(self).pstate()),
            final(self).advanced_from(old(self)),
        decreases old(self).remaining(), 4int,
    {
        let rparen = [Token::RParen];
        proof {
            assert(rparen@ =~= seq![Token::RParen]);
        }
        let ghost cx = self.context();
        let ghost st = self.pstate();
        match self.cur() {
            Some(Token::Underscore) => {
                self.advance();
                Pattern::Wildcard
            },
            Some(Token::DotDot) => {
                self.advance();
                let stops = [Token::LBrace, Token::Newline, Token::Semicolon];
                proof {
                    assert(stops@ =~= seq![Token::LBrace, Token::Newline, Token::Semicolon]);
                }
                let end = self.parse_optional_expr_until(&stops);
                Pattern::Range { start: None, end }
            },
            Some(Token::Identifier(_)) => Pattern::Ident(self.take_ident().unwrap()),
            Some(Token::LParen) => {
                self.advance();
                let mut patterns: Vec<Pattern<'src>> = Vec::new();
                let first = self.parse_pattern();
                proof {
                    assert(cx.moved(st, self.pstate()));
                }
                let ghost goal = old(self).context().patterns_loop(self.pstate(), seq![first@]);
                proof {
                    lemma_pattern_trees_push(patterns@, first);
                }
                patterns.push(first);
                proof {
                    assert(pattern_trees(patterns@) =~= seq![first@]);
                }
                while self.matches(&Token::Comma)
                    invariant
                        self.advanced_from(old(self)),
                        self.pos > old(self).pos,
                        self.context() == old(self).context(),
                        old(self).context().patterns_loop(self.pstate(), pattern_trees(patterns@)) == goal,
                        cx == old(self).context(),
                    decreases self.remaining(),
                {
                    let ghost prev = self.pstate();
                    self.advance();
                    let p = self.parse_pattern();
                    proof {
                        lemma_pattern_trees_push(patterns@, p);
                        assert(cx.moved(prev, self.pstate()));
                    }
                    patterns.push(p);
                }
                self.expect_msg(&rparen, "expected ')' in tuple pattern");
                Pattern::Tuple(patterns)
            },
            _ => Pattern::Wildcard,
        }
    }

    /// Parses a function declaration or prototype, the current token being
    /// the introducing keyword.
    #[verifier::rlimit(100)]
    fn parse_func(&mut self) -> (r: Result<Stmt<'src>, SyntaxError<'src>>)
        requires
            old(self).wf(),
        ensures
            (final(self).pstate(), stmt_result(r)) == old(self).context().func(old(self).pstate()),
            final(self).advanced_from(old(self)),
            old(self).pos < old(self).tokens@.len() ==> final(self).pos > old(self).pos,
        decreases old(self).remaining(), 3int,
    {
        let call_open = [Token::LParen, Token::Unit];
        let colon = [Token::Colon];
        let arg_end = [Token::Comma, Token::RParen];
        let rparen = [Token::RParen];
        let arrow = [Token::Arrow];
        let lbrace = [Token::LBrace];
        proof {
            assert(call_open@ =~= seq![Token::LParen, Token::Unit]);
            assert(colon@ =~= seq![Token::Colon]);
            assert(arg_end@ =~= seq![Token::Comma, Token::RParen]);
            assert(rparen@ =~= seq![Token::RParen]);
            assert(arrow@ =~= seq![Token::Arrow]);
            assert(lbrace@ =~= seq![Token::LBrace]);
        }
        let ghost cx = self.context();
        let ghost st = self.pstate();
        self.advance();
        let name = match self.take_ident() {
            Some(name) => name,
            _ => {
                return Err(SyntaxError::Parse(ParseError::MissingExpected(
                    "function decl requires a name... did you forget it",
                )));
            },
        };
        let ghost s2 = self.pstate();

        let has_args = self.matches(&Token::LParen);
        if !self.matches_any(&call_open) {
            self.error(SyntaxError::Parse(ParseError::MissingExpected(
                "missing () around function args in definition",
            )));
        }

        self.advance();
        self.eat_newlines();

        let mut args: Vec<(Ident<'src>, Type<'src>)> = Vec::new();
        let ghost s4 = self.pstate();
        let ghost goal = old(self).context().fargs_loop(self.pstate(), Seq::empty());
        proof {
            assert(cx.moved(st, s4));
            assert(args@ =~= Seq::<(Ident<'src>, Type<'src>)>::empty());
        }
        if has_args {
            proof {
                if goal.1 is Err {
                    assert(cx.func(st) == (goal.0, Err::<StmtTree<'src>, SyntaxError<'src>>(goal.1->Err_0)));
                }
            }
            while !self.matches(&Token::RParen)
                invariant
                    colon@ == seq![Token::Colon],
                    arg_end@ == seq![Token::Comma, Token::RParen],
                    self.advanced_from(old(self)),
                    self.pos > old(self).pos,
                    self.context() == old(self).context(),
                    old(self).context().fargs_loop(self.pstate(), args@) == goal,
                    goal.1 is Err ==> cx.func(st) == (goal.0, Err::<StmtTree<'src>, SyntaxError<'src>>(goal.1->Err_0)),
                    cx == old(self).context(),
                    st == old(self).pstate(),
                decreases self.remaining(),
            {
                let ghost prev = self.pstate();
                let argname = match self.take_ident() {
                    Some(name) => name,
                    _ => {
                        return Err(SyntaxError::Parse(ParseError::MissingExpected(
                            "arguments also require a name... did you forget them",
                        )));
                    },
                };

                self.expect_msg(
                    &colon,
                    "arguments need to be typed, or specifically denoted compiler inferred (likely missing ':' after argument name)",
                );

                let argtyp = self.parse_type();
                args.push((argname, argtyp));

                self.eat_newlines();

                if !self.matches_any(&arg_end) {
                    return Err(SyntaxError::Parse(ParseError::MissingExpected(
                        "arguments must be seperated by commas in the definition (may not have that be the case for calls)",
                    )));
                } else if self.matches(&Token::Comma) && !next_is_rparen(self.peek()) {
                    self.advance();
                }
                proof {
                    assert(cx.moved(prev, self.pstate()));
                }
            }

            self.expect_msg(&rparen, "missing closing parenthesis around function args in definition");
            self.eat_newlines();
        }

        self.expect_msg(&arrow, "functions must contain an explicit return type");

        let typ = self.parse_type();

        let body = if self.matches(&Token::Semicolon) {
            None
        } else {
            self.eat_newlines();
            let lbrace = self.expect_msg(
                &lbrace,
                "function definitions must either end in a semicolon to show it's a prototype, or a brace initiating the body",
            ).is_some();
            proof {
                assert(cx.moved(st, self.pstate()));
            }
            Some(if lbrace { self.parse_block_expr() } else { Expr::Unknown })
        };

        Ok(Stmt::FuncDecl { name, typ, args, body })
    }

    /// Parses a `for` loop after its keyword: pattern, `in`, iterable, body.
    fn parse_for_expr(&mut self) -> (r: Expr<'src>)
        requires
            old(self).wf(),
        ensures
            (final(self).pstate(), r@) == old(self).context().for_expr(old(self).pstate()),
            final(self).advanced_from(old(self)),
            r is For,
        decreases old(self).remaining(), 7int,
    {
        let ghost cx = self.context();
        let ghost st = self.pstate();
        let pattern = self.parse_pattern();
        let kw_in = [Token::In];
        let lbrace = [Token::LBrace];
        proof {
            assert(kw_in@ =~= seq![Token::In]);
            assert(lbrace@ =~= seq![Token::LBrace]);
        }
        self.expect_msg(&kw_in, "missing keyword 'in' inside for loop");
        proof {
            assert(cx.kept(st, self.pstate()));
        }
        let iter = self.parse_expr(0);
        self.expect_msg(&lbrace, "expected '{' in for loop");
        proof {
            assert(cx.kept(st, self.pstate()));
        }
        let body = self.parse_block_expr();
        Expr::For { pattern, iter: Box::new(iter), body: Box::new(body) }
    }

    /// Parses an `if` after its keyword, with its optional `else` (or
    /// `else if`) part. Line breaks before a missing `else` are left in place.
    fn parse_if_expr(&mut self) -> (r: Expr<'src>)
        requires
            old(self).wf(),
        ensures
            (final(self).pstate(), r@) == old(self).context().if_expr(old(self).pstate()),
            final(self).advanced_from(old(self)),
            r is If || r is Unknown,
        decreases old(self).remaining(), 3int,
    {
        let lbrace = [Token::LBrace];
        proof {
            assert(lbrace@ =~= seq![Token::LBrace]);
        }
        let ghost cx = self.context();
        let ghost st = self.pstate();
        let cond = self.parse_expr(0);
        if self.expect_msg(&lbrace, "missing '{' before if body").is_none() {
            return Expr::Unknown;
        }
        proof {
            assert(cx.moved(st, self.pstate()));
        }

        let then = self.parse_block_expr();

        let ghost s3 = self.pstate();
        let checkpoint: usize = self.pos;
        self.eat_newlines();

        let else_: Option<Box<Expr<'src>>> = if self.matches(&Token::Else) {
            self.advance();
            self.eat_newlines();
            if self.matches(&Token::If) {
                self.advance();
                proof {
                    assert(cx.moved(st, self.pstate()));
                }
                let e = self.parse_if_expr();
                proof {
                    assert(opt_tree(Some(Box::new(e))) == Some(Box::new(e@)));
                }
                Some(Box::new(e))
            } else if self.expect_msg(&lbrace, "missing '{' before else body").is_none() {
                proof {
                    assert(opt_tree(None::<Box<Expr<'src>>>) == None::<Box<crate::tree::ExprTree<'src>>>);
                }
                None
            } else {
                proof {
                    assert(cx.moved(st, self.pstate()));
                }
                let b = self.parse_block_expr();
                proof {
                    assert(opt_tree(Some(Box::new(b))) == Some(Box::new(b@)));
                }
                Some(Box::new(b))
            }
        } else {
            self.pos = checkpoint;
            proof {
                assert(self.pstate() == s3);
                assert(opt_tree(None::<Box<Expr<'src>>>) == None::<Box<crate::tree::ExprTree<'src>>>);
            }
            None
        };

        Expr::If { cond: Box::new(cond), then: Box::new(then), else_ }
    }

    /// Parses a `while` loop after its keyword.
    fn parse_while_expr(&mut self) -> (r: Expr<'src>)
        requires
            old(self).wf(),
        ensures
            (final(self).pstate(), r@) == old(self).context().while_expr(old(self).pstate()),
            final(self).advanced_from(old(self)),
            r is While || r is Unknown,
        decreases old(self).remaining(), 3int,
    {
        let ghost cx = self.context();
        let ghost st = self.pstate();
        let cond = self.parse_expr(0);
        let ghost s1 = self.pstate();
        let lbrace = [Token::LBrace];
        proof {
            assert(lbrace@ =~= seq![Token::LBrace]);
        }
        if self.expect_msg(&lbrace, "missing '{' before while body").is_none() {
            return Expr::Unknown;
        }
        let ghost s2 = self.pstate();
        proof {
            assert(cx.moved(st, s2));
        }
        let body = self.parse_block_expr();
        Expr::While { cond: Box::new(cond), body: Box::new(body) }
    }

    /// Parses a `match` after its keyword: the matched expression, then the
    /// braced arms `pattern -> body`.
    fn parse_match_expr(&mut self) -> (r: Expr<'src>)
        requires
            old(self).wf(),
        ensures
            (final(self).pstate(), r@) == old(self).context().match_expr(old(self).pstate()),
            final(self).advanced_from(old(self)),
            r is Match || r is Unknown,
        decreases old(self).remaining(), 3int,
    {
        let lbrace = [Token::LBrace];
        let arrow = [Token::Arrow];
        let rbrace = [Token::RBrace];
        proof {
            assert(lbrace@ =~= seq![Token::LBrace]);
            assert(arrow@ =~= seq![Token::Arrow]);
            assert(rbrace@ =~= seq![Token::RBrace]);
        }
        let item = self.parse_expr(0);

        if self.expect_msg(&lbrace, "expected '{' before match arms").is_none() {
            return Expr::Unknown;
        }

        let mut branches: Vec<Branch<'src>> = Vec::new();
        let ghost goal = old(self).context().arms_loop(self.pstate(), Seq::empty());
        proof {
            assert(branch_trees(branches@) =~= Seq::empty());
        }

        while !self.matches(&Token::RBrace)
            invariant_except_break
                old(self).context().arms_loop(self.pstate(), branch_trees(branches@)) == goal,
            invariant
                arrow@ == seq![Token::Arrow],
                self.advanced_from(old(self)),
                self.pos > old(self).pos,
                self.context() == old(self).context(),
            ensures
                (self.pstate(), branch_trees(branches@)) == goal,
            decreases self.remaining(),
        {
            let ghost prev = self.pstate();
            let ghost acc = branch_trees(branches@);
            let ghost cx = old(self).context();
            self.eat_newlines();
            if self.matches(&Token::RBrace) {
                break;
            }
            proof {
                assert(cx.kept(prev, self.pstate()));
            }

            let pattern = self.parse_pattern();
            if self.expect_msg(&arrow, "expected '->' after pattern in match arm").is_none() {
                break;
            }
            proof {
                assert(cx.moved(prev, self.pstate()));
            }

            let body = if self.matches(&Token::LBrace) {
                Stmt::Expr(self.parse_block_expr())
            } else {
                Stmt::Expr(self.parse_expr(0))
            };

            let ghost pv = pattern@;
            let ghost bv = body@;
            let guard = None;
            let branch = Branch { pattern, guard, body };
            proof {
                lemma_branch_trees_push(branches@, branch);
            }
            branches.push(branch);

            self.eat_stmt_delimiters();
            proof {
                assert(cx.moved(prev, self.pstate()));
                assert(branch_trees(branches@) == acc.push(crate::tree::BranchTree { pattern: pv, guard: None, body: bv }));
            }
        }

        self.expect_msg(&rbrace, "expected '}' to close match expression");

        Expr::Match { item: Box::new(item), branches }
    }

    /// Parses the statements of a block after its opening brace, up to and
    /// including the closing brace. Line breaks and semicolons separate
    /// statements; an expression right before the closing brace becomes the
    /// block's value.
    #[verifier::rlimit(100)]
    fn parse_block_expr(&mut self) -> (r: Expr<'src>)
        requires
            old(self).wf(),
        ensures
            (final(self).pstate(), r@) == old(self).context().block(old(self).pstate()),
            final(self).advanced_from(old(self)),
            r is Block,
        decreases old(self).remaining(), 6int,
    {
        let return_end = [Token::Newline, Token::Semicolon, Token::RBrace];
        let separators = [Token::Newline, Token::Semicolon];
        proof {
            assert(return_end@ =~= seq![Token::Newline, Token::Semicolon, Token::RBrace]);
            assert(separators@ =~= seq![Token::Newline, Token::Semicolon]);
        }
        let mut stmts: Vec<Stmt<'src>> = Vec::new();
        let mut tail: Option<Box<Expr<'src>>> = None;
        let ghost cx = old(self).context();
        let ghost goal = cx.block(old(self).pstate());
        proof {
            assert(stmt_trees(stmts@) =~= Seq::empty());
        }

        loop
            invariant_except_break
                goal == cx.block_loop(self.pstate(), stmt_trees(stmts@)),
                tail is None,
            invariant
                return_end@ == seq![Token::Newline, Token::Semicolon, Token::RBrace],
                separators@ == seq![Token::Newline, Token::Semicolon],
                self.advanced_from(old(self)),
                self.context() == cx,
                cx == old(self).context(),
            ensures
                goal == (self.pstate(), crate::tree::ExprTree::Block { stmts: stmt_trees(stmts@), tail: opt_tree(tail) }),
            decreases self.remaining(),
        {
            let ghost prev = self.pstate();
            let ghost acc = stmt_trees(stmts@);
            let tok = match self.cur() {
                Some(t) => t,
                None => {
                    self.error(SyntaxError::Parse(ParseError::MissingExpected("expected '}' to close block")));
                    break;
                },
            };

            match tok {
                Token::RBrace => {
                    self.advance();
                    break;
                },
                Token::Newline | Token::Semicolon => {
                    self.advance();
                    continue;
                },
                Token::Let => match self.parse_let() {
                    Ok(stmt) => {
                        proof {
                            lemma_stmt_trees_push(stmts@, stmt);
                        }
                        stmts.push(stmt);
                    },
                    Err(e) => self.error(e),
                },
                Token::Fn => match self.parse_func() {
                    Ok(stmt) => {
                        proof {
                            lemma_stmt_trees_push(stmts@, stmt);
                        }
                        stmts.push(stmt);
                    },
                    Err(e) => self.error(e),
                },
                Token::Return => {
                    self.advance();
                    if self.matches_any(&return_end) {
                        proof {
                            lemma_stmt_trees_push(stmts@, Stmt::Return(None));
                        }
                        stmts.push(Stmt::Return(None));
                    } else {
                        let expr = self.parse_expr(0);
                        proof {
                            lemma_stmt_trees_push(stmts@, Stmt::Return(Some(expr)));
                        }
                        stmts.push(Stmt::Return(Some(expr)));
                    }
                },
                Token::Break => {
                    self.advance();
                    proof {
                        lemma_stmt_trees_push(stmts@, Stmt::Break);
                    }
                    stmts.push(Stmt::Break);
                },
                Token::Continue => {
                    self.advance();
                    proof {
                        lemma_stmt_trees_push(stmts@, Stmt::Continue);
                    }
                    stmts.push(Stmt::Continue);
                },
                _ => {
                    let expr = self.parse_expr(0);
                    self.eat_newlines();
                    if self.matches(&Token::RBrace) {
                        tail = Some(Box::new(expr));
                        self.advance();
                        break;
                    }
                    proof {
                        lemma_stmt_trees_push(stmts@, Stmt::Expr(expr));
                        assert(cx.moved(prev, self.pstate()));
                    }
                    stmts.push(Stmt::Expr(expr));
                    continue;
                },
            }
            proof {
                assert(cx.moved(prev, self.pstate()));
                assert(goal == cx.block_after(prev, self.pstate(), stmt_trees(stmts@)));
            }

            if self.matches_any(&separators) {
                self.eat_stmt_delimiters();
                continue;
            }

            if self.matches(&Token::RBrace) {
                self.advance();
                break;
            }

            self.error(SyntaxError::Parse(ParseError::MissingExpected(
                "expected ';', newline, or '}' after statement in block",
            )));
        }

        Expr::Block { stmts, tail }
    }

    /// Parses what an expression starts with: a prefix operator and its
    /// operand, a literal, a name, a parenthesised expression, a prefix
    /// range, a block, or an `if`/`while`/`for`/`match`. At the end of the
    /// stream it records an unexpected end.
    fn parse_prefix(&mut self) -> (r: Expr<'src>)
        requires
            old(self).wf(),
        ensures
            (final(self).pstate(), r@) == old(self).context().prefix(old(self).pstate()),
            final(self).advanced_from(old(self)),
            old(self).pos < old(self).tokens@.len() ==> final(self).pos > old(self).pos,
            old(self).pos >= old(self).tokens@.len() ==> r == Expr::<'src>::Unknown && final(self).reported(
                old(self), SyntaxError::Parse(ParseError::MissingExpected("unexpected EOF"))),
            old(self).pos < old(self).tokens@.len() ==> match old(self).current() {
                Token::Identifier(name) => r == Expr::Ident(Ident(name, old(self).here())),
                Token::LitInteger(n) => r == Expr::Literal(Literal::Int(n, old(self).here())),
                Token::LitFloat(n) => r == Expr::Literal(Literal::Float(n, old(self).here())),
                Token::LitString(v) => r == Expr::Literal(Literal::String(v, old(self).here())),
                Token::LitChar(v) => r == Expr::Literal(Literal::Char(v, old(self).here())),
                Token::Bool(b) => r == Expr::Literal(Literal::Bool(b, old(self).here())),
                Token::Unit => r == Expr::Literal(Literal::Unit(old(self).here())),
                Token::Minus => r matches Expr::Unary { op: UnaryOp::Neg, .. },
                Token::MinusMinus => r matches Expr::Unary { op: UnaryOp::PreDec, .. },
                Token::PlusPlus => r matches Expr::Unary { op: UnaryOp::PreInc, .. },
                Token::LogicalNot => r matches Expr::Unary { op: UnaryOp::Not, .. },
                Token::BitNot => r matches Expr::Unary { op: UnaryOp::BitNot, .. },
                Token::DotDot => r matches Expr::Range { start: None, .. },
                Token::While => r is While || r is Unknown,
                Token::For => r is For,
                Token::LBrace => r is Block,
                Token::LParen | Token::If | Token::Match => true,
                _ => r is Unknown && final(self).moved_by(old(self), 1),
            },
        decreases old(self).remaining(), 1int,
    {
        let range_stops = [Token::LBrace, Token::Newline, Token::Semicolon, Token::RBracket, Token::RParen];
        let rparen = [Token::RParen];
        proof {
            assert(range_stops@ =~= seq![Token::LBrace, Token::Newline, Token::Semicolon, Token::RBracket, Token::RParen]);
            assert(rparen@ =~= seq![Token::RParen]);
        }
        let span = self.cur_span();
        let tok: &Token<'src> = match self.advance() {
            Some(t) => t,
            None => {
                self.error(SyntaxError::Parse(ParseError::MissingExpected("unexpected EOF")));
                return Expr::Unknown;
            },
        };
        match tok {
            Token::Minus => Expr::Unary { op: UnaryOp::Neg, expr: Box::new(self.parse_expr(12)) },
            Token::MinusMinus => Expr::Unary { op: UnaryOp::PreDec, expr: Box::new(self.parse_expr(12)) },
            Token::PlusPlus => Expr::Unary { op: UnaryOp::PreInc, expr: Box::new(self.parse_expr(12)) },
            Token::LogicalNot => Expr::Unary { op: UnaryOp::Not, expr: Box::new(self.parse_expr(12)) },
            Token::BitNot => Expr::Unary { op: UnaryOp::BitNot, expr: Box::new(self.parse_expr(12)) },
            Token::DotDot => {
                let end = self.parse_optional_expr_until(&range_stops);
                proof {
                    assert(opt_tree(None::<Box<Expr<'src>>>) == None::<Box<crate::tree::ExprTree<'src>>>);
                }
                Expr::Range { start: None, end }
            },
            Token::LParen => {
                let inner = self.parse_expr(0);
                self.expect_msg(&rparen, "expected ')' to close parenthesized expression");
                inner
            },
            Token::Identifier(name) => Expr::Ident(Ident(name, span)),
            Token::LitInteger(n) => Expr::Literal(Literal::Int(n, span)),
            Token::LitFloat(n) => Expr::Literal(Literal::Float(n, span)),
            Token::LitString(s) => Expr::Literal(Literal::String(s, span)),
            Token::LitChar(c) => Expr::Literal(Literal::Char(c, span)),
            Token::Bool(b) => Expr::Literal(Literal::Bool(*b, span)),
            Token::Unit => Expr::Literal(Literal::Unit(span)),
            Token::If => self.parse_if_expr(),
            Token::While => self.parse_while_expr(),
            Token::For => self.parse_for_expr(),
            Token::Match => self.parse_match_expr(),
            Token::LBrace => self.parse_block_expr(),
            _ => Expr::Unknown,
        }
    }

    /// Parses a variable declaration, the current token being `let`:
    /// modifiers `const`, `static`, `mutable` (in that order), a name, an
    /// optional `: type` and an optional `= value`.
    #[verifier::rlimit(100)]
    pub fn parse_let(&mut self) -> (r: Result<Stmt<'src>, SyntaxError<'src>>)
        requires
            old(self).wf(),
        ensures
            (final(self).pstate(), stmt_result(r)) == old(self).context().let_decl(old(self).pstate()),
            final(self).advanced_from(old(self)),
            old(self).pos < old(self).tokens@.len() ==> final(self).pos > old(self).pos,
        decreases old(self).remaining(), 3int,
    {
        let ghost cx = self.context();
        let ghost st = self.pstate();
        self.advance();

        let constant = self.check_modifier(&Token::Const);
        let global = self.check_modifier(&Token::Static);
        let mutable = self.check_modifier(&Token::Mutable);

        if constant && mutable {
            self.error(SyntaxError::Parse(ParseError::ConstDisallowed(
                "constant cannot be used in tandem with mutable.",
            )));
        }
        if constant && global {
            self.error(SyntaxError::Parse(ParseError::ConstDisallowed(
                "constant cannot be used in tandem with static.",
            )));
        }

        let name = match self.take_ident() {
            Some(name) => name,
            _ => {
                return Err(SyntaxError::Parse(ParseError::MissingExpected(
                    "let must have an identifier afterwards",
                )));
            },
        };

        let typ = if self.matches(&Token::Colon) {
            self.advance();
            self.parse_type()
        } else {
            Type::Inferred
        };

        let mut init: Option<Expr<'src>> = None;
        if self.matches(&Token::Assign) {
            self.advance();
            let next = match self.cur() {
                Some(t) => t,
                None => &Token::Error,
            };
            match next {
                Token::Error | Token::Newline | Token::Semicolon | Token::Eof => {
                    return Err(SyntaxError::Parse(ParseError::MissingExpected("expected expression after '='")));
                },
                _ => {
                    proof {
                        assert(cx.moved(st, self.pstate()));
                    }
                    init = Some(self.parse_expr(0));
                },
            }
        }

        if matches!(typ, Type::Inferred) && init.is_none() {
            return Err(SyntaxError::Parse(ParseError::MissingExpected(
                "type cannot be inferred without a right hand side",
            )));
        }

        Ok(Stmt::VarDecl { name, typ, init, mutable, constant, global })
    }
}

/// What one step of the top level read.
#[derive(Debug, Clone, Copy, PartialEq, Eq, Structural)]
pub enum TopItem {
    /// a line break or the end marker, skipped
    Blank,
    /// a statement, with what follows it: `clean` when parsing the statement
    /// itself recorded no error, `separated` when a separator followed it
    /// (otherwise its absence was recorded last)
    Statement { clean: bool, separated: bool },
    /// a token that cannot start a statement, skipped
    Unknown,
}

/// What one step of the top level from `st` reads.
pub open spec fn step_item<'src, 't>(cx: ParseContext<'src, 't>, st: ParseState<'t, 'src>, nodes: Seq<StmtTree<'src>>) -> TopItem {
    match cx.cur(st) {
        Token::Newline | Token::Eof => TopItem::Blank,
        Token::Identifier(_) | Token::LitInteger(_) | Token::LitFloat(_) | Token::LitString(_)
        | Token::LitChar(_) | Token::Bool(_) | Token::LParen | Token::LBrace | Token::If | Token::While
        | Token::For | Token::Minus | Token::PlusPlus | Token::MinusMinus | Token::LogicalNot
        | Token::BitNot | Token::Let | Token::Fn => {
            let s1 = cx.stmt_part(st, nodes).0;
            TopItem::Statement {
                clean: s1.errors.len() == st.errors.len(),
                separated: cx.is_any(s1, seq![Token::Newline, Token::Semicolon, Token::Eof, Token::LBrace]),
            }
        },
        _ => TopItem::Unknown,
    }
}

impl<'src, 't> Parser<'src, 't> {
    /// Reads one step of the top level: skips a line break or the end
    /// marker, or parses a statement (appending it to `nodes` when it parses)
    /// together with the separator that must follow it, or skips a token
    /// that cannot start a statement. Tells which, and for a statement
    /// whether it parsed without error and whether a separator followed.
    pub fn parse_step(&mut self, nodes: &mut Vec<Stmt<'src>>) -> (r: TopItem)
        requires
            old(self).wf(),
            old(self).pos < old(self).tokens@.len(),
        ensures
            (final(self).pstate(), stmt_trees(final(nodes)@)) == old(self).context().top_step(old(self).pstate(), stmt_trees(old(nodes)@)),
            final(self).advanced_from(old(self)),
            final(self).pos > old(self).pos,
            r == step_item(old(self).context(), old(self).pstate(), stmt_trees(old(nodes)@)),
    {
        let stmt_end = [Token::Newline, Token::Semicolon, Token::Eof, Token::LBrace];
        proof {
            assert(stmt_end@ =~= seq![Token::Newline, Token::Semicolon, Token::Eof, Token::LBrace]);
        }
        let ghost cx = self.context();
        let errors_before = self.errors.len();
        let cur = &self.tokens[self.pos];
        match cur {
            Token::Newline | Token::Eof => {
                self.advance();
                return TopItem::Blank;
            },
            Token::Identifier(_) | Token::LitInteger(_) | Token::LitFloat(_) | Token::LitString(_)
            | Token::LitChar(_) | Token::Bool(_) | Token::LParen | Token::LBrace | Token::If
            | Token::While | Token::For | Token::Minus | Token::PlusPlus | Token::MinusMinus
            | Token::LogicalNot | Token::BitNot => {
                let expr = self.parse_expr(0);
                proof {
                    lemma_stmt_trees_push(nodes@, Stmt::Expr(expr));
                }
                nodes.push(Stmt::Expr(expr));
            },
            Token::Let => match self.parse_let() {
                Ok(stmt) => {
                    proof {
                        lemma_stmt_trees_push(nodes@, stmt);
                    }
                    nodes.push(stmt);
                },
                Err(e) => self.error(e),
            },
            Token::Fn => match self.parse_func() {
                Ok(stmt) => {
                    proof {
                        lemma_stmt_trees_push(nodes@, stmt);
                    }
                    nodes.push(stmt);
                },
                Err(e) => self.error(e),
            },
            _ => {
                self.advance();
                return TopItem::Unknown;
            },
        }

        let clean = self.errors.len() == errors_before;
        let separated = self.matches_any(&stmt_end);
        if !separated {
            self.error(SyntaxError::Parse(ParseError::MissingExpected(
                "all statements must be followed by either a newline or semicolon",
            )));
        } else {
            let ghost s_mid = self.pstate();
            while self.matches(&Token::Semicolon)
                invariant
                    self.advanced_from(old(self)),
                    self.pos > old(self).pos,
                    self.context() == cx,
                    cx.eat_semicolons(self.pstate()) == cx.eat_semicolons(s_mid),
                decreases self.remaining(),
            {
                self.advance();
            }
        }
        TopItem::Statement { clean, separated }
    }

    /// Hands out the result of a parse: the statements when no error was
    /// recorded, else every error recorded, leaving none behind.
    pub fn finish(&mut self, nodes: Vec<Stmt<'src>>) -> (r: Result<Vec<Stmt<'src>>, Vec<Diagnostic<'t, 'src>>>)
        ensures
            final(self).errors@.len() == 0,
            final(self).tokens == old(self).tokens,
            final(self).spans == old(self).spans,
            final(self).path == old(self).path,
            final(self).src == old(self).src,
            final(self).pos == old(self).pos,
            final(self).fastfail == old(self).fastfail,
            old(self).errors@.len() == 0 ==> r == Ok::<Vec<Stmt<'src>>, Vec<Diagnostic<'t, 'src>>>(nodes),
            old(self).errors@.len() > 0 ==> (r matches Err(es) && es@ == old(self).errors@),
    {
        if self.errors.len() == 0 {
            Ok(nodes)
        } else {
            let mut errs: Vec<Diagnostic<'t, 'src>> = Vec::new();
            core::mem::swap(&mut errs, &mut self.errors);
            Err(errs)
        }
    }

    /// Parses the whole token stream into top-level statements. `flags[1]`
    /// sets fast failing (`flags[0]`, the debug switch, concerns only what
    /// the caller prints). Tokens that cannot start a statement are skipped.
    /// Gives the statements when no error was recorded, else every error
    /// recorded (those recorded before the call first), leaving none behind.
    pub fn parse(&mut self, flags: &[bool]) -> (r: Result<Vec<Stmt<'src>>, Vec<Diagnostic<'t, 'src>>>)
        requires
            flags@.len() >= 2,
        ensures
            old(self).pos <= old(self).tokens@.len() ==> final(self).wf(),
            final(self).tokens == old(self).tokens,
            final(self).spans == old(self).spans,
            final(self).path == old(self).path,
            final(self).src == old(self).src,
            final(self).fastfail == flags@[1],
            final(self).pos == if old(self).pos <= old(self).tokens@.len() { old(self).tokens@.len() } else { old(self).pos as nat },
            final(self).errors@.len() == 0,
            r is Ok ==> old(self).errors@.len() == 0,
            r matches Err(es) ==> {
                &&& es@.len() > 0
                &&& old(self).errors@.len() <= es@.len()
                &&& forall|i: int| 0 <= i < old(self).errors@.len() ==> #[trigger] es@[i] == old(self).errors@[i]
            },
            ({
                let (st, trees) = old(self).context().top(old(self).pstate(), Seq::<StmtTree<'src>>::empty());
                &&& r matches Ok(v) ==> stmt_trees(v@) == trees
                &&& r matches Err(es) ==> es@ == st.errors
                &&& r is Ok <==> st.errors.len() == 0
            }),
    {
        let mut nodes: Vec<Stmt<'src>> = Vec::new();
        let fastfail: bool = flags[1];
        self.fastfail = fastfail;
        let ghost start = *self;
        let ghost cx = old(self).context();
        let ghost goal = cx.top(old(self).pstate(), Seq::<StmtTree<'src>>::empty());
        proof {
            assert(stmt_trees(nodes@) =~= Seq::<StmtTree<'src>>::empty());
        }
        if self.pos > self.tokens.len() {
            return self.finish(nodes);
        }

        while self.pos < self.tokens.len()
            invariant
                cx == old(self).context(),
                self.context() == cx,
                cx.top(self.pstate(), stmt_trees(nodes@)) == goal,
                goal == cx.top(old(self).pstate(), Seq::<StmtTree<'src>>::empty()),
                self.advanced_from(&start),
                start.errors == old(self).errors,
                start.wf(),
                self.fastfail == flags@[1],
                start.tokens == old(self).tokens,
                start.spans == old(self).spans,
                start.path == old(self).path,
                start.src == old(self).src,
            decreases self.remaining(),
        {
            let ghost st0 = self.pstate();
            let ghost prev = *self;
            self.parse_step(&mut nodes);
            proof {
                assert(cx.moved(st0, self.pstate()));
                assert forall|i: int| 0 <= i < start.errors@.len() implies #[trigger] self.errors@[i] == start.errors@[i] by {
                    assert(prev.errors@[i] == start.errors@[i]);
                }
            }
        }
        proof {
            assert(goal == (self.pstate(), stmt_trees(nodes@)));
        }
        self.finish(nodes)
    }
}

/// Whether a looked-ahead token is `)`.
fn next_is_rparen(t: Option<&Token>) -> (r: bool)
    ensures
        r == (t matches Some(x) && x.kind_spec() == Token::RParen.kind_spec()),
{
    match t {
        Some(Token::RParen) => true,
        _ => false,
    }
}

} // verus!
