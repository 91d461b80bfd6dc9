use tiny_qtt::errors::{ParseError, TinyQttError};
use tiny_qtt::mult::Mult;
use tiny_qtt::parse::Parser;
use tiny_qtt::syntax::{Decl, Raw, ReplInput};

fn is_var(r: &Raw, n: &str) -> bool {
    matches!(r, Raw::Var(x) if x == n)
}

#[test]
fn lambda_with_several_binders() {
    let p = Parser::new();
    match p.parse_term("\\A x => x").unwrap() {
        Raw::Lam(ns, body) => {
            assert_eq!(ns, vec!["A".to_owned(), "x".to_owned()]);
            assert!(is_var(&body, "x"));
        }
        other => panic!("unexpected {:?}", other),
    }
    assert!(matches!(p.parse_term("fun x => x").unwrap(), Raw::Lam(..)));
}

#[test]
fn binders_default_multiplicities() {
    let p = Parser::default();
    match p.parse_term("(x : Bool) -> Bool").unwrap() {
        Raw::Pi(m, x, a, b) => {
            assert_eq!(m, Mult::Many);
            assert_eq!(x, "x");
            assert!(matches!(*a, Raw::Bool));
            assert!(matches!(*b, Raw::Bool));
        }
        other => panic!("unexpected {:?}", other),
    }
    match p.parse_term("(0 A : Type) -> A").unwrap() {
        Raw::Pi(m, x, _, _) => {
            assert_eq!(m, Mult::Zero);
            assert_eq!(x, "A");
        }
        other => panic!("unexpected {:?}", other),
    }
    match p.parse_term("(x : Bool) * Bool").unwrap() {
        Raw::Tensor(m, _, _, _) => assert_eq!(m, Mult::One),
        other => panic!("unexpected {:?}", other),
    }
    match p.parse_term("(w x : Bool) * Bool").unwrap() {
        Raw::Tensor(m, _, _, _) => assert_eq!(m, Mult::Many),
        other => panic!("unexpected {:?}", other),
    }
}

#[test]
fn anonymous_arrows_and_products() {
    let p = Parser::new();
    match p.parse_term("Bool -> Bool -> Bool").unwrap() {
        Raw::Pi(m, x, a, b) => {
            assert_eq!(m, Mult::Many);
            assert_eq!(x, "_");
            assert!(matches!(*a, Raw::Bool));
            assert!(matches!(*b, Raw::Pi(..)));
        }
        other => panic!("unexpected {:?}", other),
    }
    match p.parse_term("Bool * Bool & Bool").unwrap() {
        Raw::With(a, b) => {
            assert!(matches!(*a, Raw::Tensor(Mult::One, _, _, _)));
            assert!(matches!(*b, Raw::Bool));
        }
        other => panic!("unexpected {:?}", other),
    }
}

#[test]
fn application_is_left_associative() {
    let p = Parser::new();
    match p.parse_term("f x y").unwrap() {
        Raw::App(fx, y) => {
            assert!(is_var(&y, "y"));
            match *fx {
                Raw::App(f, x) => {
                    assert!(is_var(&f, "f"));
                    assert!(is_var(&x, "x"));
                }
                other => panic!("unexpected {:?}", other),
            }
        }
        other => panic!("unexpected {:?}", other),
    }
    assert!(matches!(p.parse_term("fst p").unwrap(), Raw::Fst(..)));
    assert!(matches!(p.parse_term("snd p").unwrap(), Raw::Snd(..)));
}

#[test]
fn brackets_pairs_and_annotations() {
    let p = Parser::new();
    assert!(matches!(p.parse_term("(true, false)").unwrap(), Raw::Pair(..)));
    assert!(matches!(p.parse_term("<true, false>").unwrap(), Raw::WPair(..)));
    assert!(matches!(p.parse_term("(true : Bool)").unwrap(), Raw::Ann(..)));
    assert!(matches!(p.parse_term("(true)").unwrap(), Raw::True));
}

#[test]
fn let_forms_and_conditionals() {
    let p = Parser::new();
    assert!(matches!(
        p.parse_term("let (a, b) = p in a").unwrap(),
        Raw::LetPair(..)
    ));
    assert!(matches!(
        p.parse_term("let x : Bool := true in x").unwrap(),
        Raw::Let(..)
    ));
    assert!(matches!(
        p.parse_term("if true then false else true").unwrap(),
        Raw::If(..)
    ));
}

#[test]
fn modules_are_sequences_of_declarations() {
    let p = Parser::new();
    let ds = p
        .parse_module("def b : Bool := true\neval b\ncheck b : Bool\n")
        .unwrap();
    assert_eq!(ds.len(), 3);
    assert!(matches!(&ds[0], Decl::Def(n, _, _) if n == "b"));
    assert!(matches!(&ds[1], Decl::Eval(..)));
    assert!(matches!(&ds[2], Decl::Check(..)));
    assert!(p.parse_module("").unwrap().is_empty());
}

#[test]
fn repl_lines_are_declarations_or_terms() {
    let p = Parser::new();
    assert!(matches!(p.parse_repl("eval true").unwrap(), ReplInput::Decl(Decl::Eval(..))));
    assert!(matches!(p.parse_repl("id Bool true").unwrap(), ReplInput::Term(Raw::App(..))));
}

#[test]
fn unexpected_token_error() {
    let p = Parser::new();
    match p.parse_term(")") {
        Err(TinyQttError::Parse(ParseError::UnexpectedToken { token, expected, span })) => {
            assert_eq!(token, ")");
            assert_eq!(expected, vec!["a term".to_owned()]);
            assert_eq!(span, (0, 1));
        }
        other => panic!("unexpected {:?}", other),
    }
}

#[test]
fn unexpected_end_of_input_error() {
    let p = Parser::new();
    match p.parse_module("def x : Bool :=") {
        Err(TinyQttError::Parse(ParseError::UnexpectedEof { expected, offset })) => {
            assert_eq!(expected, vec!["a term".to_owned()]);
            assert_eq!(offset, 15);
        }
        other => panic!("unexpected {:?}", other),
    }
    match p.parse_term("(true") {
        Err(TinyQttError::Parse(ParseError::UnexpectedEof { expected, offset })) => {
            assert_eq!(
                expected,
                vec!["\")\"".to_owned(), "\",\"".to_owned(), "\":\"".to_owned()]
            );
            assert_eq!(offset, 5);
        }
        other => panic!("unexpected {:?}", other),
    }
}

#[test]
fn extra_token_error() {
    let p = Parser::new();
    match p.parse_term("true false )") {
        Err(TinyQttError::Parse(ParseError::ExtraToken { token, span })) => {
            assert_eq!(token, ")");
            assert_eq!(span, (11, 12));
        }
        other => panic!("unexpected {:?}", other),
    }
}

#[test]
fn declaration_keyword_expected() {
    let p = Parser::new();
    match p.parse_module("true") {
        Err(TinyQttError::Parse(ParseError::UnexpectedToken { expected, .. })) => {
            assert_eq!(
                expected,
                vec!["\"check\"".to_owned(), "\"def\"".to_owned(), "\"eval\"".to_owned()]
            );
        }
        other => panic!("unexpected {:?}", other),
    }
}

#[test]
fn lexical_errors_surface_as_syntax_errors() {
    let p = Parser::new();
    match p.parse_term("true ?") {
        Err(TinyQttError::Parse(ParseError::Lexical(e))) => assert_eq!(e.offset(), 5),
        other => panic!("unexpected {:?}", other),
    }
}

#[test]
fn deeply_nested_input_parses() {
    let depth = 200;
    let src = format!("{}true{}", "(".repeat(depth), ")".repeat(depth));
    assert!(matches!(Parser::new().parse_term(&src).unwrap(), Raw::True));
    let arrows = vec!["Bool"; 300].join(" -> ");
    assert!(matches!(Parser::new().parse_term(&arrows).unwrap(), Raw::Pi(..)));
}

#[test]
fn a_trailing_line_break_changes_no_parse() {
    let p = Parser::new();
    for src in ["def b : Bool := true", "eval (true", "check x", "eval true -", "eval x -- note", ""] {
        let with_break = format!("{src}\n");
        match (p.parse_module(src), p.parse_module(&with_break)) {
            (Ok(a), Ok(b)) => assert_eq!(a.len(), b.len()),
            (Err(TinyQttError::Parse(a)), Err(TinyQttError::Parse(b))) => assert_eq!(a, b),
            _ => panic!("different outcomes for {src:?}"),
        }
    }
}
