use stick::diagnostic::{dump_text, Diagnostic};
use stick::errors::{ParseError, SemanticError, SyntaxError};

fn unknown_y() -> Diagnostic<'static, 'static> {
    Diagnostic {
        path: "main.stk",
        src: "let x = y\n",
        span: 8..9,
        err: SyntaxError::Semantic(SemanticError::UnknownIdentifier("y")),
    }
}

#[test]
fn report_carries_title_message_label_and_help() {
    let text = unknown_y().to_string();
    assert!(text.contains("UnknownIdentifier"));
    assert!(text.contains("identifier hasnt been declared yet y"));
    assert!(text.contains("`y` is not declared in this scope"));
    assert!(text.contains("declare the identifier before use, or fix the identifier name"));
    assert!(text.contains("main.stk"));
    assert_ne!(text, "identifier hasnt been declared yet y");
}

#[test]
fn dump_has_no_colour_codes() {
    let text = dump_text(&[unknown_y()]);
    assert!(!text.contains('\u{1b}'));
    assert!(text.contains("let x = y"));
    assert!(text.contains("UnknownIdentifier"));
    assert!(text.ends_with('\n'));
}

#[test]
fn dump_separates_reports_with_a_blank_line() {
    let second = Diagnostic {
        path: "main.stk",
        src: "let x = y\n",
        span: 0..3,
        err: SyntaxError::Parse(ParseError::MissingExpected("let must have an identifier afterwards")),
    };
    let one = dump_text(&[unknown_y()]);
    let two = dump_text(&[second]);
    let both = dump_text(&[
        unknown_y(),
        Diagnostic {
            path: "main.stk",
            src: "let x = y\n",
            span: 0..3,
            err: SyntaxError::Parse(ParseError::MissingExpected("let must have an identifier afterwards")),
        },
    ]);
    assert_eq!(both, format!("{}\n{}", one, two));
}

#[test]
fn empty_dump_is_empty() {
    assert_eq!(dump_text(&[]), "");
}

#[test]
fn the_dump_holds_the_stripped_report_shown_to_the_user() {
    let shown = unknown_y().to_string();
    let plain = String::from_utf8_lossy(&strip_ansi_escapes::strip(shown.as_bytes())).into_owned();
    assert_eq!(dump_text(&[unknown_y()]), plain + "\n");
}
