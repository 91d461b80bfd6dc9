use tiny_qtt::diagnostics::{is_reportable, parse_span, render, report_parts};
use tiny_qtt::parse::Parser;
use tiny_qtt::errors::{ParseError, TinyQttError, TypeError};
use tiny_qtt::lexer::LexicalError;

#[test]
fn spans_of_syntax_errors() {
    let e = ParseError::UnexpectedToken {
        token: ")".to_owned(),
        expected: vec!["a term".to_owned(), "\"(\"".to_owned()],
        span: (5, 6),
    };
    assert_eq!(
        parse_span(&e, "eval )"),
        (5, 6, "found ')', expected one of: a term, \"(\"".to_owned())
    );
    let e = ParseError::UnexpectedEof { expected: vec!["a term".to_owned()], offset: 40 };
    assert_eq!(
        parse_span(&e, "eval"),
        (4, 5, "unexpected end of input, expected: a term".to_owned())
    );
    let e = ParseError::InvalidToken { offset: 2 };
    assert_eq!(parse_span(&e, "abc"), (2, 3, "invalid token".to_owned()));
    let e = ParseError::ExtraToken { token: "x".to_owned(), span: (7, 8) };
    assert_eq!(parse_span(&e, "eval y x"), (7, 8, "unexpected extra token 'x'".to_owned()));
    let e = ParseError::Lexical(LexicalError::InvalidToken(3));
    assert_eq!(
        parse_span(&e, "abc?"),
        (3, 4, "invalid token at byte offset 3".to_owned())
    );
}

#[test]
fn parts_of_reports() {
    let e = TinyQttError::Type(TypeError::new("boom".to_owned()));
    assert_eq!(
        report_parts(&e, "eval x"),
        Some((0, 6, "type error".to_owned(), "boom".to_owned()))
    );
    assert_eq!(
        report_parts(&e, ""),
        Some((0, 1, "type error".to_owned(), "boom".to_owned()))
    );
    let e = TinyQttError::Lexical(LexicalError::InvalidToken(1));
    assert_eq!(
        report_parts(&e, "a?"),
        Some((1, 2, "lexical error".to_owned(), "invalid token at byte offset 1".to_owned()))
    );
    let e = TinyQttError::Io(std::io::Error::new(std::io::ErrorKind::Other, "gone"));
    assert_eq!(report_parts(&e, ""), None);
}

#[test]
fn rendered_reports_carry_their_title() {
    let e = TinyQttError::Type(TypeError::new("unbound variable: y (at depth 0)".to_owned()));
    let out = render(&e, "<repl>", "eval y");
    assert!(out.contains(" type error\n"));
    assert!(out.contains("unbound variable: y (at depth 0)"));
    assert!(out.contains("<repl>"));
    let e = TinyQttError::Parse(ParseError::ExtraToken { token: "x".to_owned(), span: (7, 8) });
    let out = render(&e, "f.qtt", "eval y x");
    assert!(out.contains(" parse error\n"));
    assert!(out.contains("unexpected extra token 'x'"));
}

#[test]
fn io_errors_render_as_one_line() {
    let e = TinyQttError::Io(std::io::Error::new(std::io::ErrorKind::Other, "gone"));
    assert_eq!(render(&e, "f.qtt", ""), "io error: gone\n");
}

#[test]
fn error_messages() {
    let e = TinyQttError::Parse(ParseError::UnexpectedEof {
        expected: vec!["a".to_owned(), "b".to_owned()],
        offset: 0,
    });
    assert_eq!(e.to_text(), "parse error: unexpected end of input, expected one of: a, b");
    let e = TinyQttError::Parse(ParseError::InvalidToken { offset: 12 });
    assert_eq!(e.to_text(), "parse error: invalid token at offset 12");
    let e = TinyQttError::Parse(ParseError::ExtraToken { token: "x".to_owned(), span: (0, 1) });
    assert_eq!(e.to_text(), "parse error: extra token 'x' after input");
    let e = TinyQttError::Parse(ParseError::Lexical(LexicalError::InvalidToken(4)));
    assert_eq!(e.to_text(), "parse error: lexical error: invalid token at byte offset 4");
    let e = TinyQttError::Lexical(LexicalError::InvalidToken(4));
    assert_eq!(e.to_text(), "lexical error: invalid token at byte offset 4");
    let e = TinyQttError::Type(TypeError::new("bad".to_owned()));
    assert_eq!(e.to_text(), "type error: bad");
}

#[test]
fn every_syntax_error_from_the_parser_can_be_drawn() {
    let p = Parser::new();
    for src in ["", "def", "def x : Bool :=", "eval )", "eval (true", "true false )", "x ? y", "<true, >", "let (a b) = p in a"] {
        if let Err(e) = p.parse_module(src) {
            assert!(is_reportable(&e, src));
            assert!(render(&e, "m.qtt", src).contains(" parse error\n"));
        }
        if let Err(e) = p.parse_term(src) {
            assert!(is_reportable(&e, src));
        }
        if let Err(e) = p.parse_repl(src) {
            assert!(is_reportable(&e, src));
        }
    }
}

#[test]
fn backwards_spans_are_not_reportable() {
    let e = TinyQttError::Parse(ParseError::ExtraToken { token: "x".to_owned(), span: (3, 1) });
    assert!(!is_reportable(&e, "abcd"));
    let e = TinyQttError::Parse(ParseError::InvalidToken { offset: usize::MAX });
    assert!(!is_reportable(&e, "abcd"));
}

#[test]
fn rendered_reports_end_a_line_with_the_label_of_a_one_line_span() {
    let e = TinyQttError::Type(TypeError::new("unbound variable: y (at depth 0)".to_owned()));
    let out = render(&e, "<repl>", "eval y");
    assert!(out.contains(" unbound variable: y (at depth 0)\n"));
    let e = TinyQttError::Parse(ParseError::ExtraToken { token: "x".to_owned(), span: (7, 8) });
    let out = render(&e, "f.qtt", "eval y x");
    assert!(out.contains(" unexpected extra token 'x'\n"));
}

#[test]
fn rendered_reports_name_their_kind_and_source() {
    let e = TinyQttError::Type(TypeError::new("unbound variable: y (at depth 0)".to_owned()));
    let out = render(&e, "<repl>", "eval y");
    assert!(out.contains("Error:"));
    assert!(out.contains(" <repl>:"));
    let e = TinyQttError::Parse(ParseError::ExtraToken { token: "x".to_owned(), span: (7, 8) });
    let out = render(&e, "f.qtt", "eval y x");
    assert!(out.contains("Error:"));
    assert!(out.contains(" f.qtt:"));
}
