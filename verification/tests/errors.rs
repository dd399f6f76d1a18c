use stick::errors::{lex_err_from_slice, LexError, ParseError, SemanticError, SyntaxError};

#[test]
fn lex_error_messages() {
    assert_eq!(LexError::UnterminatedString("\"abc").to_string(), "\"abc is missing a closing \"");
    assert_eq!(LexError::UnterminatedChar("'a").to_string(), "'a is missing a closing '");
    assert_eq!(
        LexError::UnknownToken("$").to_string(),
        "the hanging symbol '$' is not in the language spec."
    );
}

#[test]
fn parse_error_messages() {
    assert_eq!(
        ParseError::MissingExpected("let must have an identifier afterwards").to_string(),
        "missing a value where expected, let must have an identifier afterwards"
    );
    assert_eq!(
        ParseError::ConstDisallowed("constant cannot be used in tandem with mutable.").to_string(),
        "const cannot be used with some modifiers: constant cannot be used in tandem with mutable."
    );
}

#[test]
fn semantic_error_messages() {
    assert_eq!(SemanticError::TypeInference("x").to_string(), "failed to infer type for x");
    assert_eq!(SemanticError::UnknownIdentifier("y").to_string(), "identifier hasnt been declared yet y");
    assert_eq!(SemanticError::ImmutableBinding("z").to_string(), "cannot mutate immutable binding z");
    assert_eq!(SemanticError::Overflow("big").to_string(), "potentially implement a bounds check! big");
    assert_eq!(SemanticError::TypeMismatch("plain").to_string(), "plain");
    assert_eq!(SemanticError::InvalidOperation("op").to_string(), "op");
}

#[test]
fn syntax_error_messages_delegate() {
    assert_eq!(
        SyntaxError::Lex(LexError::UnknownToken("#")).to_string(),
        LexError::UnknownToken("#").to_string()
    );
    assert_eq!(
        SyntaxError::Parse(ParseError::MissingExpected("m")).to_string(),
        "missing a value where expected, m"
    );
    assert_eq!(
        SyntaxError::Semantic(SemanticError::UnknownIdentifier("q")).to_string(),
        "identifier hasnt been declared yet q"
    );
    assert!(SyntaxError::Unknown.to_string().starts_with("TODO: add context to unknown errors."));
}

#[test]
fn default_syntax_error_is_unknown() {
    assert_eq!(SyntaxError::default(), SyntaxError::Unknown);
}

#[test]
fn lex_error_chosen_by_first_character() {
    assert_eq!(lex_err_from_slice("\"open"), SyntaxError::Lex(LexError::UnterminatedString("\"open")));
    assert_eq!(lex_err_from_slice("'c"), SyntaxError::Lex(LexError::UnterminatedChar("'c")));
    assert_eq!(lex_err_from_slice("@@"), SyntaxError::Lex(LexError::UnknownToken("@@")));
    assert_eq!(lex_err_from_slice(""), SyntaxError::Unknown);
}

#[test]
fn titles_name_the_variant() {
    assert_eq!(SyntaxError::Lex(LexError::UnterminatedString("\"")).title(), "UnterminatedString");
    assert_eq!(SyntaxError::Parse(ParseError::ConstDisallowed("x")).title(), "ConstDisallowed");
    assert_eq!(SyntaxError::Semantic(SemanticError::Overflow("x")).title(), "Overflow");
    assert_eq!(SyntaxError::Unknown.title(), "Unknown");
}

#[test]
fn labels_describe_the_span() {
    assert_eq!(SyntaxError::Lex(LexError::UnknownToken("$")).label(), "unexpected token `$`");
    assert_eq!(
        SyntaxError::Parse(ParseError::MissingExpected("expected expression after '='")).label(),
        "expected an expression here"
    );
    assert_eq!(
        SyntaxError::Parse(ParseError::MissingExpected("missing ']'")).label(),
        "required syntax is missing here"
    );
    assert_eq!(
        SyntaxError::Semantic(SemanticError::UnknownIdentifier("foo")).label(),
        "`foo` is not declared in this scope"
    );
    assert_eq!(SyntaxError::Semantic(SemanticError::ImmutableBinding("v")).label(), "`v` is immutable");
    assert_eq!(SyntaxError::Unknown.label(), "problematic code is here");
}

#[test]
fn help_follows_the_message() {
    assert_eq!(
        SyntaxError::Parse(ParseError::MissingExpected("let must have an identifier afterwards")).help(),
        "if you want to discard the value, use _, otherwise attach a name"
    );
    assert_eq!(
        SyntaxError::Parse(ParseError::MissingExpected("type cannot be inferred without a right hand side")).help(),
        "either declare the type beforehand, or add a right hand side and let the compiler infer it."
    );
    assert_eq!(SyntaxError::Parse(ParseError::MissingExpected("something else")).help(), "Unknown");
    assert_eq!(
        SyntaxError::Parse(ParseError::ConstDisallowed("constant cannot be used in tandem with static")).help(),
        "remove either const or static. const is a fixed constant, whereas static is constant memory location. constant handles both"
    );
    assert_eq!(
        SyntaxError::Lex(LexError::UnterminatedChar("'")).help(),
        "lexer errors are only caused by things that would cause issues in tokenization."
    );
    assert_eq!(SyntaxError::Unknown.help(), "Only god can save you (or reading the docs lmao.)");
}

#[test]
fn an_identifier_shows_its_text() {
    let id = stick::ast::Ident("counter", 3..10);
    assert_eq!(id.to_string(), "counter");
}
