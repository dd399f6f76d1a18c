//! Tokens produced by the lexer and consumed by the parser.

use vstd::prelude::*;

use crate::text::str_eq;

verus! {

/// One lexical token. Tokens that carry source text borrow it from the source.
#[derive(Debug, Clone, Copy)]
pub enum Token<'src> {
    /// an identifier, such as a variable, function or type name
    Identifier(&'src str),
    /// an integer literal, as written
    LitInteger(&'src str),
    /// a floating-point literal, as written
    LitFloat(&'src str),
    /// a string literal
    LitString(&'src str),
    /// a character literal
    LitChar(&'src str),
    /// `true` or `false`
    Bool(bool),
    Let,
    Const,
    Static,
    Mutable,
    Fn,
    Return,
    Break,
    Continue,
    If,
    Else,
    While,
    For,
    In,
    Match,
    /// `()`, the unit value (also the empty argument list of a call)
    Unit,
    LParen,
    RParen,
    LBrace,
    RBrace,
    LBracket,
    RBracket,
    Comma,
    Colon,
    Semicolon,
    /// a line break, which ends a statement
    Newline,
    Dot,
    DotDot,
    Arrow,
    Underscore,
    Plus,
    Minus,
    Star,
    Slash,
    Percent,
    StarStar,
    PlusPlus,
    MinusMinus,
    Assign,
    PlusEq,
    MinusEq,
    StarEq,
    SlashEq,
    PercentEq,
    AndEq,
    OrEq,
    XorEq,
    ShlEq,
    ShrEq,
    EqEq,
    NotEq,
    Less,
    LessEq,
    Greater,
    GreaterEq,
    LogicalAnd,
    LogicalOr,
    LogicalNot,
    BitAnd,
    BitOr,
    BitXor,
    BitNot,
    Shl,
    Shr,
    /// end of input
    Eof,
    /// a token the lexer could not recognise
    Error,
}

impl<'src> Token<'src> {
    /// The variant of a token, as a number (its position in the declaration).
    pub open spec fn kind_spec(&self) -> u8 {
        match self {
            Token::Identifier(..) => 0,
            Token::LitInteger(..) => 1,
            Token::LitFloat(..) => 2,
            Token::LitString(..) => 3,
            Token::LitChar(..) => 4,
            Token::Bool(..) => 5,
            Token::Let => 6,
            Token::Const => 7,
            Token::Static => 8,
            Token::Mutable => 9,
            Token::Fn => 10,
            Token::Return => 11,
            Token::Break => 12,
            Token::Continue => 13,
            Token::If => 14,
            Token::Else => 15,
            Token::While => 16,
            Token::For => 17,
            Token::In => 18,
            Token::Match => 19,
            Token::Unit => 20,
            Token::LParen => 21,
            Token::RParen => 22,
            Token::LBrace => 23,
            Token::RBrace => 24,
            Token::LBracket => 25,
            Token::RBracket => 26,
            Token::Comma => 27,
            Token::Colon => 28,
            Token::Semicolon => 29,
            Token::Newline => 30,
            Token::Dot => 31,
            Token::DotDot => 32,
            Token::Arrow => 33,
            Token::Underscore => 34,
            Token::Plus => 35,
            Token::Minus => 36,
            Token::Star => 37,
            Token::Slash => 38,
            Token::Percent => 39,
            Token::StarStar => 40,
            Token::PlusPlus => 41,
            Token::MinusMinus => 42,
            Token::Assign => 43,
            Token::PlusEq => 44,
            Token::MinusEq => 45,
            Token::StarEq => 46,
            Token::SlashEq => 47,
            Token::PercentEq => 48,
            Token::AndEq => 49,
            Token::OrEq => 50,
            Token::XorEq => 51,
            Token::ShlEq => 52,
            Token::ShrEq => 53,
            Token::EqEq => 54,
            Token::NotEq => 55,
            Token::Less => 56,
            Token::LessEq => 57,
            Token::Greater => 58,
            Token::GreaterEq => 59,
            Token::LogicalAnd => 60,
            Token::LogicalOr => 61,
            Token::LogicalNot => 62,
            Token::BitAnd => 63,
            Token::BitOr => 64,
            Token::BitXor => 65,
            Token::BitNot => 66,
            Token::Shl => 67,
            Token::Shr => 68,
            Token::Eof => 69,
            Token::Error => 70,
        }
    }

    /// The variant of a token, as a number.
    #[verifier::when_used_as_spec(kind_spec)]
    pub fn kind(&self) -> (k: u8)
        ensures
            k == self.kind_spec(),
    {
        match self {
            Token::Identifier(..) => 0,
            Token::LitInteger(..) => 1,
            Token::LitFloat(..) => 2,
            Token::LitString(..) => 3,
            Token::LitChar(..) => 4,
            Token::Bool(..) => 5,
            Token::Let => 6,
            Token::Const => 7,
            Token::Static => 8,
            Token::Mutable => 9,
            Token::Fn => 10,
            Token::Return => 11,
            Token::Break => 12,
            Token::Continue => 13,
            Token::If => 14,
            Token::Else => 15,
            Token::While => 16,
            Token::For => 17,
            Token::In => 18,
            Token::Match => 19,
            Token::Unit => 20,
            Token::LParen => 21,
            Token::RParen => 22,
            Token::LBrace => 23,
            Token::RBrace => 24,
            Token::LBracket => 25,
            Token::RBracket => 26,
            Token::Comma => 27,
            Token::Colon => 28,
            Token::Semicolon => 29,
            Token::Newline => 30,
            Token::Dot => 31,
            Token::DotDot => 32,
            Token::Arrow => 33,
            Token::Underscore => 34,
            Token::Plus => 35,
            Token::Minus => 36,
            Token::Star => 37,
            Token::Slash => 38,
            Token::Percent => 39,
            Token::StarStar => 40,
            Token::PlusPlus => 41,
            Token::MinusMinus => 42,
            Token::Assign => 43,
            Token::PlusEq => 44,
            Token::MinusEq => 45,
            Token::StarEq => 46,
            Token::SlashEq => 47,
            Token::PercentEq => 48,
            Token::AndEq => 49,
            Token::OrEq => 50,
            Token::XorEq => 51,
            Token::ShlEq => 52,
            Token::ShrEq => 53,
            Token::EqEq => 54,
            Token::NotEq => 55,
            Token::Less => 56,
            Token::LessEq => 57,
            Token::Greater => 58,
            Token::GreaterEq => 59,
            Token::LogicalAnd => 60,
            Token::LogicalOr => 61,
            Token::LogicalNot => 62,
            Token::BitAnd => 63,
            Token::BitOr => 64,
            Token::BitXor => 65,
            Token::BitNot => 66,
            Token::Shl => 67,
            Token::Shr => 68,
            Token::Eof => 69,
            Token::Error => 70,
        }
    }

    /// The source text a token carries, empty for tokens that carry none.
    pub open spec fn text_spec(&self) -> Seq<char> {
        match self {
            Token::Identifier(s) => s@,
            Token::LitInteger(s) => s@,
            Token::LitFloat(s) => s@,
            Token::LitString(s) => s@,
            Token::LitChar(s) => s@,
            _ => Seq::empty(),
        }
    }

    /// The truth value a `Bool` token carries, `false` for every other token.
    pub open spec fn flag_spec(&self) -> bool {
        match self {
            Token::Bool(b) => *b,
            _ => false,
        }
    }

    /// Two tokens are equal when they are the same variant carrying the same
    /// text or truth value.
    pub open spec fn same(&self, other: &Token) -> bool {
        &&& self.kind_spec() == other.kind_spec()
        &&& self.text_spec() == other.text_spec()
        &&& self.flag_spec() == other.flag_spec()
    }

    /// Token equality: same variant and same payload.
    pub fn equals(&self, other: &Token) -> (r: bool)
        ensures
            r == self.same(other),
    {
        if self.kind() != other.kind() {
            return false;
        }
        match (self, other) {
            (Token::Identifier(a), Token::Identifier(b))
            | (Token::LitInteger(a), Token::LitInteger(b))
            | (Token::LitFloat(a), Token::LitFloat(b))
            | (Token::LitString(a), Token::LitString(b))
            | (Token::LitChar(a), Token::LitChar(b)) => str_eq(a, b),
            (Token::Bool(a), Token::Bool(b)) => *a == *b,
            _ => true,
        }
    }
}

/// Whether `t` equals some token of `any`.
pub open spec fn one_of(t: &Token, any: Seq<Token>) -> bool {
    exists|i: int| 0 <= i < any.len() && t.same(&#[trigger] any[i])
}

/// Whether `t` equals some token of `any`.
pub fn equals_any(t: &Token, any: &[Token]) -> (r: bool)
    ensures
        r == one_of(t, any@),
{
    let mut i: usize = 0;
    while i < any.len()
        invariant
            i <= any@.len(),
            forall|j: int| 0 <= j < i ==> !t.same(&#[trigger] any@[j]),
        decreases any@.len() - i,
    {
        if t.equals(&any[i]) {
            return true;
        }
        i = i + 1;
    }
    false
}

/// Whether `t` is of the same variant as some token of `any`, whatever they carry.
pub open spec fn kind_in(t: &Token, any: Seq<Token>) -> bool {
    exists|i: int| 0 <= i < any.len() && t.kind_spec() == (#[trigger] any[i]).kind_spec()
}

/// Whether `t` is of the same variant as some token of `any`.
pub fn kind_among(t: &Token, any: &[Token]) -> (r: bool)
    ensures
        r == kind_in(t, any@),
{
    let k = t.kind();
    let mut i: usize = 0;
    while i < any.len()
        invariant
            i <= any@.len(),
            k == t.kind_spec(),
            forall|j: int| 0 <= j < i ==> t.kind_spec() != (#[trigger] any@[j]).kind_spec(),
        decreases any@.len() - i,
    {
        if any[i].kind() == k {
            return true;
        }
        i = i + 1;
    }
    false
}

} // verus!
