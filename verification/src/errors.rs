//! The errors the lexer, the parser and the analyzer report.

use vstd::prelude::*;

verus! {

/// Errors found while splitting the source into tokens.
#[derive(Debug, PartialEq, Clone, Copy)]
pub enum LexError<'src> {
    UnterminatedString(&'src str),
    UnterminatedChar(&'src str),
    UnknownToken(&'src str),
}

/// Errors found while parsing.
#[derive(Debug, PartialEq, Clone, Copy)]
pub enum ParseError<'src> {
    /// an expected piece of syntax is missing
    MissingExpected(&'src str),
    /// `const` is used together with a modifier it excludes
    ConstDisallowed(&'src str),
}

/// Errors found during analysis and type checking.
#[derive(Debug, PartialEq, Clone, Copy)]
pub enum SemanticError<'src> {
    TypeInference(&'src str),
    TypeMismatch(&'src str),
    UnknownIdentifier(&'src str),
    ImmutableBinding(&'src str),
    InvalidOperation(&'src str),
    Overflow(&'src str),
}

/// Any error found at compile time.
#[derive(Debug, PartialEq, Clone, Copy)]
pub enum SyntaxError<'src> {
    Lex(LexError<'src>),
    Parse(ParseError<'src>),
    Semantic(SemanticError<'src>),
    Unknown,
}

impl<'src> Default for SyntaxError<'src> {
    fn default() -> (r: Self)
        ensures
            r == SyntaxError::<'src>::Unknown,
    {
        SyntaxError::Unknown
    }
}

/// `a` followed by `b`.
pub fn concat2(a: &str, b: &str) -> (r: String)
    ensures
        r@ == a@ + b@,
{
    let mut r = String::from_str(a);
    r.append(b);
    r
}

/// `a`, `b` and `c` one after the other.
pub fn concat3(a: &str, b: &str, c: &str) -> (r: String)
    ensures
        r@ == a@ + b@ + c@,
{
    let mut r = String::from_str(a);
    r.append(b);
    r.append(c);
    r
}

/// The text of a lexing error.
pub open spec fn lex_message(e: LexError) -> Seq<char> {
    match e {
        LexError::UnterminatedString(s) => s@ + " is missing a closing \""@,
        LexError::UnterminatedChar(s) => s@ + " is missing a closing '"@,
        LexError::UnknownToken(s) => "the hanging symbol '"@ + s@ + "' is not in the language spec."@,
    }
}

/// The text of a parse error.
pub open spec fn parse_message(e: ParseError) -> Seq<char> {
    match e {
        ParseError::MissingExpected(s) => "missing a value where expected, "@ + s@,
        ParseError::ConstDisallowed(s) => "const cannot be used with some modifiers: "@ + s@,
    }
}

/// The text of a semantic error.
pub open spec fn semantic_message(e: SemanticError) -> Seq<char> {
    match e {
        SemanticError::TypeInference(s) => "failed to infer type for "@ + s@,
        SemanticError::UnknownIdentifier(s) => "identifier hasnt been declared yet "@ + s@,
        SemanticError::ImmutableBinding(s) => "cannot mutate immutable binding "@ + s@,
        SemanticError::Overflow(s) => "potentially implement a bounds check! "@ + s@,
        SemanticError::TypeMismatch(s) => s@,
        SemanticError::InvalidOperation(s) => s@,
    }
}

/// The text of an error of unknown origin.
pub open spec fn unknown_message() -> Seq<char> {
    "TODO: add context to unknown errors. this is going to be exhaustive but in the event we don't match..."@
}

/// The text of any compile-time error.
pub open spec fn syntax_message(e: SyntaxError) -> Seq<char> {
    match e {
        SyntaxError::Lex(l) => lex_message(l),
        SyntaxError::Parse(p) => parse_message(p),
        SyntaxError::Semantic(s) => semantic_message(s),
        SyntaxError::Unknown => unknown_message(),
    }
}

impl<'src> LexError<'src> {
    /// The error's message.
    pub fn to_string(&self) -> (r: String)
        ensures
            r@ == lex_message(*self),
    {
        match self {
            LexError::UnterminatedString(s) => concat2(s, " is missing a closing \""),
            LexError::UnterminatedChar(s) => concat2(s, " is missing a closing '"),
            LexError::UnknownToken(s) => concat3("the hanging symbol '", s, "' is not in the language spec."),
        }
    }
}

impl<'src> ParseError<'src> {
    /// The error's message.
    pub fn to_string(&self) -> (r: String)
        ensures
            r@ == parse_message(*self),
    {
        match self {
            ParseError::MissingExpected(s) => concat2("missing a value where expected, ", s),
            ParseError::ConstDisallowed(s) => concat2("const cannot be used with some modifiers: ", s),
        }
    }
}

impl<'src> SemanticError<'src> {
    /// The error's message.
    pub fn to_string(&self) -> (r: String)
        ensures
            r@ == semantic_message(*self),
    {
        match self {
            SemanticError::TypeInference(s) => concat2("failed to infer type for ", s),
            SemanticError::UnknownIdentifier(s) => concat2("identifier hasnt been declared yet ", s),
            SemanticError::ImmutableBinding(s) => concat2("cannot mutate immutable binding ", s),
            SemanticError::Overflow(s) => concat2("potentially implement a bounds check! ", s),
            SemanticError::TypeMismatch(s) | SemanticError::InvalidOperation(s) => String::from_str(s),
        }
    }
}

impl<'src> SyntaxError<'src> {
    /// The error's message.
    pub fn to_string(&self) -> (r: String)
        ensures
            r@ == syntax_message(*self),
    {
        match self {
            SyntaxError::Lex(le) => le.to_string(),
            SyntaxError::Parse(pe) => pe.to_string(),
            SyntaxError::Semantic(se) => se.to_string(),
            SyntaxError::Unknown => String::from_str(
                "TODO: add context to unknown errors. this is going to be exhaustive but in the event we don't match...",
            ),
        }
    }
}

/// The error the lexer reports for a piece of source it could not turn into a
/// token, chosen by the piece's first character.
pub open spec fn lex_error_spec<'src>(slice: &'src str) -> SyntaxError<'src> {
    if slice@.len() == 0 {
        SyntaxError::Unknown
    } else if slice@[0] == '"' {
        SyntaxError::Lex(LexError::UnterminatedString(slice))
    } else if slice@[0] == '\'' {
        SyntaxError::Lex(LexError::UnterminatedChar(slice))
    } else {
        SyntaxError::Lex(LexError::UnknownToken(slice))
    }
}

/// The error for a piece of source the lexer could not turn into a token: an
/// unterminated string or character literal when it starts with a quote, an
/// unknown token otherwise, and an unknown error when it is empty.
pub fn lex_err_from_slice<'src>(slice: &'src str) -> (r: SyntaxError<'src>)
    ensures
        r == lex_error_spec(slice),
{
    if slice.unicode_len() == 0 {
        return SyntaxError::Unknown;
    }
    let first = slice.get_char(0);
    if first == '"' {
        SyntaxError::Lex(LexError::UnterminatedString(slice))
    } else if first == '\'' {
        SyntaxError::Lex(LexError::UnterminatedChar(slice))
    } else {
        SyntaxError::Lex(LexError::UnknownToken(slice))
    }
}

} // verus!
