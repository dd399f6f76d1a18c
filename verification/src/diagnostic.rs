//! Diagnostics: an error together with where it happened, and how it is shown.

use vstd::prelude::*;

use core::ops::Range;

use ariadne::{Color, Config, Label, LabelAttach, Report, ReportKind, Source};

use crate::errors::{
    concat3, syntax_message, LexError, ParseError, SemanticError, SyntaxError,
};
use crate::text::{ends_with, seq_ends_with, seq_starts_with, starts_with};

verus! {

/// An error found in a source file, with the span of source it concerns.
#[derive(Debug)]
pub struct Diagnostic<'a, 'src> {
    /// the file's path, shown in the message
    pub path: &'a str,
    /// the whole source text
    pub src: &'src str,
    /// the part of the source the error concerns
    pub span: Range<usize>,
    pub err: SyntaxError<'src>,
}

/// The heading of an error: the name of its innermost variant.
pub open spec fn title_text(e: SyntaxError) -> Seq<char> {
    match e {
        SyntaxError::Lex(LexError::UnterminatedString(_)) => "UnterminatedString"@,
        SyntaxError::Lex(LexError::UnterminatedChar(_)) => "UnterminatedChar"@,
        SyntaxError::Lex(LexError::UnknownToken(_)) => "UnknownToken"@,
        SyntaxError::Parse(ParseError::MissingExpected(_)) => "MissingExpected"@,
        SyntaxError::Parse(ParseError::ConstDisallowed(_)) => "ConstDisallowed"@,
        SyntaxError::Semantic(SemanticError::TypeInference(_)) => "TypeInference"@,
        SyntaxError::Semantic(SemanticError::TypeMismatch(_)) => "TypeMismatch"@,
        SyntaxError::Semantic(SemanticError::UnknownIdentifier(_)) => "UnknownIdentifier"@,
        SyntaxError::Semantic(SemanticError::ImmutableBinding(_)) => "ImmutableBinding"@,
        SyntaxError::Semantic(SemanticError::InvalidOperation(_)) => "InvalidOperation"@,
        SyntaxError::Semantic(SemanticError::Overflow(_)) => "Overflow"@,
        SyntaxError::Unknown => "Unknown"@,
    }
}

/// The text placed under the offending source.
pub open spec fn label_text(e: SyntaxError) -> Seq<char> {
    match e {
        SyntaxError::Lex(LexError::UnterminatedString(_)) => "string literal starts here but never closes"@,
        SyntaxError::Lex(LexError::UnterminatedChar(_)) => "character literal starts here but never closes"@,
        SyntaxError::Lex(LexError::UnknownToken(tok)) => "unexpected token `"@ + tok@ + "`"@,
        SyntaxError::Parse(ParseError::MissingExpected(msg)) => if seq_starts_with(msg@, "expected expression"@) {
            "expected an expression here"@
        } else {
            "required syntax is missing here"@
        },
        SyntaxError::Parse(ParseError::ConstDisallowed(_)) => "`const` is not allowed here"@,
        SyntaxError::Semantic(SemanticError::TypeInference(_)) => "type cannot be inferred from this declaration"@,
        SyntaxError::Semantic(SemanticError::TypeMismatch(_)) => "this value does not match the target type"@,
        SyntaxError::Semantic(SemanticError::UnknownIdentifier(name)) => "`"@ + name@ + "` is not declared in this scope"@,
        SyntaxError::Semantic(SemanticError::ImmutableBinding(name)) => "`"@ + name@ + "` is immutable"@,
        SyntaxError::Semantic(SemanticError::InvalidOperation(_)) => "this operation is not valid for the selected value(s)"@,
        SyntaxError::Semantic(SemanticError::Overflow(_)) => "this constant does not fit in the target type"@,
        SyntaxError::Unknown => "problematic code is here"@,
    }
}

/// The hint shown under a diagnostic.
pub open spec fn help_text(e: SyntaxError) -> Seq<char> {
    match e {
        SyntaxError::Lex(_) => "lexer errors are only caused by things that would cause issues in tokenization."@,
        SyntaxError::Parse(ParseError::MissingExpected(msg)) => {
            if seq_starts_with(msg@, "let must have"@) {
                "if you want to discard the value, use _, otherwise attach a name"@
            } else if seq_starts_with(msg@, "type cannot be"@) {
                "either declare the type beforehand, or add a right hand side and let the compiler infer it."@
            } else if seq_starts_with(msg@, "all statements must"@) {
                "either stick them on seperate lines, or seperate them using a semicolon (bad practice, SHAME!)"@
            } else if seq_starts_with(msg@, "expected expression"@) {
                "the right hand of an equals sign cannot be blank"@
            } else {
                "Unknown"@
            }
        },
        SyntaxError::Parse(ParseError::ConstDisallowed(msg)) => {
            if seq_ends_with(msg@, "mutable"@) {
                "either remove the mutable tag, or denote it static (placing it in a constant memory location)"@
            } else if seq_ends_with(msg@, "static"@) {
                "remove either const or static. const is a fixed constant, whereas static is constant memory location. constant handles both"@
            } else {
                "Unknown"@
            }
        },
        SyntaxError::Semantic(SemanticError::TypeInference(_)) => "for inferred types: assign a value for type deduction to work, otherwise specify an explicit type"@,
        SyntaxError::Semantic(SemanticError::TypeMismatch(_)) => "initializer/result type is incompatible with the declared or expected type"@,
        SyntaxError::Semantic(SemanticError::UnknownIdentifier(_)) => "declare the identifier before use, or fix the identifier name"@,
        SyntaxError::Semantic(SemanticError::ImmutableBinding(_)) => "mark the declaration mutable before reassigning it, or stop mutating the binding"@,
        SyntaxError::Semantic(SemanticError::InvalidOperation(_)) => "check operator and operand types, not all operators can apply to all types."@,
        SyntaxError::Semantic(SemanticError::Overflow(_)) => "reduce the constant value, widen the destination type, or make the value explicit in a larger type first"@,
        SyntaxError::Unknown => "Only god can save you (or reading the docs lmao.)"@,
    }
}

impl<'src> SyntaxError<'src> {
    /// The heading of the error: the name of its innermost variant.
    pub fn title(&self) -> (r: &str)
        ensures
            r@ == title_text(*self),
    {
        match self {
            SyntaxError::Lex(LexError::UnterminatedString(_)) => "UnterminatedString",
            SyntaxError::Lex(LexError::UnterminatedChar(_)) => "UnterminatedChar",
            SyntaxError::Lex(LexError::UnknownToken(_)) => "UnknownToken",
            SyntaxError::Parse(ParseError::MissingExpected(_)) => "MissingExpected",
            SyntaxError::Parse(ParseError::ConstDisallowed(_)) => "ConstDisallowed",
            SyntaxError::Semantic(SemanticError::TypeInference(_)) => "TypeInference",
            SyntaxError::Semantic(SemanticError::TypeMismatch(_)) => "TypeMismatch",
            SyntaxError::Semantic(SemanticError::UnknownIdentifier(_)) => "UnknownIdentifier",
            SyntaxError::Semantic(SemanticError::ImmutableBinding(_)) => "ImmutableBinding",
            SyntaxError::Semantic(SemanticError::InvalidOperation(_)) => "InvalidOperation",
            SyntaxError::Semantic(SemanticError::Overflow(_)) => "Overflow",
            SyntaxError::Unknown => "Unknown",
        }
    }

    /// The text placed under the offending source.
    pub fn label(&self) -> (r: String)
        ensures
            r@ == label_text(*self),
    {
        match self {
            SyntaxError::Lex(LexError::UnterminatedString(_)) => {
                String::from_str("string literal starts here but never closes")
            },
            SyntaxError::Lex(LexError::UnterminatedChar(_)) => {
                String::from_str("character literal starts here but never closes")
            },
            SyntaxError::Lex(LexError::UnknownToken(tok)) => concat3("unexpected token `", tok, "`"),
            SyntaxError::Parse(ParseError::MissingExpected(msg)) => {
                if starts_with(msg, "expected expression") {
                    String::from_str("expected an expression here")
                } else {
                    String::from_str("required syntax is missing here")
                }
            },
            SyntaxError::Parse(ParseError::ConstDisallowed(_)) => {
                String::from_str("`const` is not allowed here")
            },
            SyntaxError::Semantic(SemanticError::TypeInference(_)) => {
                String::from_str("type cannot be inferred from this declaration")
            },
            SyntaxError::Semantic(SemanticError::TypeMismatch(_)) => {
                String::from_str("this value does not match the target type")
            },
            SyntaxError::Semantic(SemanticError::UnknownIdentifier(name)) => {
                concat3("`", name, "` is not declared in this scope")
            },
            SyntaxError::Semantic(SemanticError::ImmutableBinding(name)) => {
                concat3("`", name, "` is immutable")
            },
            SyntaxError::Semantic(SemanticError::InvalidOperation(_)) => {
                String::from_str("this operation is not valid for the selected value(s)")
            },
            SyntaxError::Semantic(SemanticError::Overflow(_)) => {
                String::from_str("this constant does not fit in the target type")
            },
            SyntaxError::Unknown => String::from_str("problematic code is here"),
        }
    }

    /// A hint on how to fix the error.
    pub fn help(&self) -> (r: &str)
        ensures
            r@ == help_text(*self),
    {
        match self {
            SyntaxError::Lex(_) => {
                "lexer errors are only caused by things that would cause issues in tokenization."
            },
            SyntaxError::Parse(e) => match e {
                ParseError::MissingExpected(msg) => {
                    if starts_with(msg, "let must have") {
                        "if you want to discard the value, use _, otherwise attach a name"
                    } else if starts_with(msg, "type cannot be") {
                        "either declare the type beforehand, or add a right hand side and let the compiler infer it."
                    } else if starts_with(msg, "all statements must") {
                        "either stick them on seperate lines, or seperate them using a semicolon (bad practice, SHAME!)"
                    } else if starts_with(msg, "expected expression") {
                        "the right hand of an equals sign cannot be blank"
                    } else {
                        "Unknown"
                    }
                },
                ParseError::ConstDisallowed(msg) => {
                    if ends_with(msg, "mutable") {
                        "either remove the mutable tag, or denote it static (placing it in a constant memory location)"
                    } else if ends_with(msg, "static") {
                        "remove either const or static. const is a fixed constant, whereas static is constant memory location. constant handles both"
                    } else {
                        "Unknown"
                    }
                },
            },
            SyntaxError::Semantic(e) => match e {
                SemanticError::TypeInference(_) => {
                    "for inferred types: assign a value for type deduction to work, otherwise specify an explicit type"
                },
                SemanticError::TypeMismatch(_) => {
                    "initializer/result type is incompatible with the declared or expected type"
                },
                SemanticError::UnknownIdentifier(_) => {
                    "declare the identifier before use, or fix the identifier name"
                },
                SemanticError::ImmutableBinding(_) => {
                    "mark the declaration mutable before reassigning it, or stop mutating the binding"
                },
                SemanticError::InvalidOperation(_) => {
                    "check operator and operand types, not all operators can apply to all types."
                },
                SemanticError::Overflow(_) => {
                    "reduce the constant value, widen the destination type, or make the value explicit in a larger type first"
                },
            },
            SyntaxError::Unknown => "Only god can save you (or reading the docs lmao.)",
        }
    }
}

/// Whether a text is made of ASCII letters only.
pub open spec fn letters_only(s: Seq<char>) -> bool {
    forall|i: int| 0 <= i < s.len() ==> ('A' <= #[trigger] s[i] <= 'Z' || 'a' <= s[i] <= 'z')
}

/// Whether a text holds no escape character (ESC, U+001B).
pub open spec fn no_escape(s: Seq<char>) -> bool {
    forall|i: int| 0 <= i < s.len() ==> #[trigger] s[i] != '\u{1b}'
}

/// Name for the bytes of ariadne's report rendered without colours, once
/// its ANSI escape sequences are removed: a report headed by `title` with
/// message `message`, located in source `path` at character `offset`, one
/// label `label` over `label_start..label_end`, and the hint `help`, drawn
/// over the source text `src` with labels attached at their start.
pub uninterp spec fn ariadne_plain(
    path: Seq<char>,
    src: Seq<char>,
    offset: usize,
    label_start: usize,
    label_end: usize,
    title: Seq<char>,
    message: Seq<char>,
    label: Seq<char>,
    help: Seq<char>,
) -> Seq<u8>;

/// Renders a report with ariadne (`Report::build` .. `finish`, then
/// `Report::write` into a buffer, read back with `String::from_utf8_lossy`).
///
/// Which colour codes the text holds depends on yansi's process-wide switch
/// (`yansi::is_enabled`): a painted piece is wrapped in complete escape
/// sequences (`ESC [ … m`), or left bare. `strip_ansi_escapes::strip` reads
/// text with no escape character of its own piece by piece, so it removes
/// exactly those sequences and leaves the same bytes whatever the switch
/// says. When the title is letters and no other text handed in holds an
/// escape character, the contract therefore states the stripped text; when
/// one does, stripping can join that character with a painted piece after
/// it, and nothing is stated. The buffer ariadne writes is UTF-8, so it
/// decodes unchanged. `Label::new` asserts that the span does not end
/// before it starts, hence the requirement.
#[verifier::external_body]
fn render_report(path: &str, src: &str, offset: usize, span: &Range<usize>, title: &str, message: &str, label: &str, help: &str) -> (r: String)
    requires
        span.start <= span.end,
    ensures
        letters_only(title@) && no_escape(path@) && no_escape(src@) && no_escape(message@) && no_escape(label@)
            && no_escape(help@) ==> ansi_stripped(vstd::utf8::encode_utf8(r@)) == ariadne_plain(
            path@, src@, offset, span.start, span.end, title@, message@, label@, help@),
{
    let mut buf: Vec<u8> = Vec::new();
    Report::build(ReportKind::Custom(title, Color::Red), path, offset)
        .with_config(Config::default().with_label_attach(LabelAttach::Start))
        .with_message(message)
        .with_label(Label::new((path, span.clone())).with_color(Color::Red).with_message(label))
        .with_help(help)
        .finish()
        .write((path, Source::from(src)), &mut buf)
        .unwrap();
    String::from_utf8_lossy(&buf).into_owned()
}

/// The plain bytes of a diagnostic's report.
pub open spec fn report_plain(d: Diagnostic) -> Seq<u8> {
    ariadne_plain(
        d.path@,
        d.src@,
        d.span.start,
        d.span.start,
        d.span.end,
        title_text(d.err),
        syntax_message(d.err),
        label_text(d.err),
        help_text(d.err),
    )
}

/// No text of the diagnostic's report holds an escape character: its path,
/// its source, and its error's message, label and hint.
pub open spec fn escape_free(d: Diagnostic) -> bool {
    &&& no_escape(d.path@)
    &&& no_escape(d.src@)
    &&& no_escape(syntax_message(d.err))
    &&& no_escape(label_text(d.err))
    &&& no_escape(help_text(d.err))
}

/// Every heading is a variant's name: letters only.
proof fn lemma_titles_are_letters(e: SyntaxError)
    ensures
        letters_only(title_text(e)),
{
    reveal_strlit("UnterminatedString");
    reveal_strlit("UnterminatedChar");
    reveal_strlit("UnknownToken");
    reveal_strlit("MissingExpected");
    reveal_strlit("ConstDisallowed");
    reveal_strlit("TypeInference");
    reveal_strlit("TypeMismatch");
    reveal_strlit("UnknownIdentifier");
    reveal_strlit("ImmutableBinding");
    reveal_strlit("InvalidOperation");
    reveal_strlit("Overflow");
    reveal_strlit("Unknown");
}

impl<'a, 'src> Diagnostic<'a, 'src> {
    /// The diagnostic as shown to the user: a report titled by the error's
    /// variant, carrying its message, a label over its span and its hint.
    /// Its colour codes depend on the process (yansi's switch); once they
    /// are stripped, the text of a report with no escape character of its
    /// own is the diagnostic's plain report.
    pub fn to_string(&self) -> (r: String)
        requires
            self.span.start <= self.span.end,
        ensures
            escape_free(*self) ==> ansi_stripped(vstd::utf8::encode_utf8(r@)) == report_plain(*self),
    {
        let message = self.err.to_string();
        let label = self.err.label();
        proof {
            lemma_titles_are_letters(self.err);
        }
        render_report(
            self.path,
            self.src,
            self.span.start,
            &self.span,
            self.err.title(),
            message.as_str(),
            label.as_str(),
            self.err.help(),
        )
    }
}

/// Name for the bytes that remain of `bytes` once the ANSI escape sequences
/// are removed.
pub uninterp spec fn ansi_stripped(bytes: Seq<u8>) -> Seq<u8>;

/// `strip_ansi_escapes::strip`: the bytes with ANSI escape sequences removed.
#[verifier::external_body]
fn strip_escapes(bytes: &[u8]) -> (r: Vec<u8>)
    ensures
        r@ == ansi_stripped(bytes@),
{
    strip_ansi_escapes::strip(bytes)
}

/// Name for the text `String::from_utf8_lossy` reads from bytes: invalid
/// sequences become U+FFFD.
pub uninterp spec fn lossy_text(bytes: Seq<u8>) -> Seq<char>;

/// `String::from_utf8_lossy`; on valid UTF-8 it decodes the bytes unchanged.
#[verifier::external_body]
fn utf8_lossy(bytes: &[u8]) -> (r: String)
    ensures
        r@ == lossy_text(bytes@),
        vstd::utf8::valid_utf8(bytes@) ==> r@ == vstd::utf8::decode_utf8(bytes@),
{
    String::from_utf8_lossy(bytes).into_owned()
}

/// The plain text of a diagnostic: its report with the colour codes removed.
pub open spec fn plain_report(d: Diagnostic) -> Seq<char> {
    lossy_text(report_plain(d))
}

/// The text written for a list of diagnostics: each one's plain report on
/// its own line, with an empty line between consecutive ones.
pub open spec fn dump_spec(ds: Seq<Diagnostic>) -> Seq<char>
    decreases ds.len(),
{
    if ds.len() == 0 {
        Seq::empty()
    } else {
        let before = dump_spec(ds.drop_last());
        let sep = if ds.len() > 1 { seq!['\n'] } else { Seq::empty() };
        before + sep + plain_report(ds.last()) + seq!['\n']
    }
}

/// Whether no diagnostic's report holds an escape character of its own.
pub open spec fn all_escape_free(ds: Seq<Diagnostic>) -> bool {
    forall|i: int| 0 <= i < ds.len() ==> escape_free(#[trigger] ds[i])
}

/// The text of a diagnostics dump, as written to the dump file: each
/// report as shown to the user, its escape sequences removed, on its own
/// line, with an empty line between consecutive ones. When no report holds
/// an escape character of its own, that text is stated.
pub fn dump_text(errors: &[Diagnostic]) -> (r: String)
    requires
        forall|i: int| 0 <= i < errors@.len() ==> (#[trigger] errors@[i]).span.start <= errors@[i].span.end,
    ensures
        all_escape_free(errors@) ==> r@ == dump_spec(errors@),
{
    let mut out = String::new();
    let mut idx: usize = 0;
    while idx < errors.len()
        invariant
            idx <= errors@.len(),
            all_escape_free(errors@) ==> out@ == dump_spec(errors@.subrange(0, idx as int)),
            forall|i: int| 0 <= i < errors@.len() ==> (#[trigger] errors@[i]).span.start <= errors@[i].span.end,
        decreases errors@.len() - idx,
    {
        if idx > 0 {
            out.append("\n");
        }
        let rendered = errors[idx].to_string();
        let stripped = strip_escapes(rendered.as_str().as_bytes());
        let plain = utf8_lossy(stripped.as_slice());
        out.append(plain.as_str());
        out.append("\n");
        proof {
            reveal_strlit("\n");
            let prev = errors@.subrange(0, idx as int);
            let next = errors@.subrange(0, idx + 1);
            assert(next.drop_last() =~= prev);
        }
        idx = idx + 1;
    }
    assert(errors@.subrange(0, errors@.len() as int) =~= errors@);
    out
}

} // verus!
