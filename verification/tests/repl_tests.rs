use tiny_qtt::errors::TinyQttError;
use tiny_qtt::parse::Parser;
use tiny_qtt::repl::{classify, eval_term, rebuild_cxt, type_of, Line};
use tiny_qtt::syntax::{name, Decl, Raw, ReplInput};
use tiny_qtt::value::Val;

#[test]
fn blank_lines_ask_for_nothing() {
    assert_eq!(classify(""), Line::Blank);
    assert_eq!(classify(" \t\r\n"), Line::Blank);
    assert_eq!(classify("\u{a0}\u{3000}"), Line::Blank);
}

#[test]
fn commands_and_their_arguments() {
    assert_eq!(classify(":q"), Line::Quit);
    assert_eq!(classify("  :quit  "), Line::Quit);
    assert_eq!(classify(":?"), Line::Help);
    assert_eq!(classify(":h"), Line::Help);
    assert_eq!(classify(":help"), Line::Help);
    assert_eq!(classify(":t id Bool"), Line::TypeOf("id Bool".to_owned()));
    assert_eq!(classify(":type   x  "), Line::TypeOf("x".to_owned()));
    assert_eq!(classify(":t"), Line::TypeOf(String::new()));
    assert_eq!(classify(":l demo.qtt"), Line::Load("demo.qtt".to_owned()));
    assert_eq!(classify(":load\tdemo.qtt"), Line::Load("demo.qtt".to_owned()));
    assert_eq!(classify(":t\u{3000}x"), Line::TypeOf("x".to_owned()));
}

#[test]
fn unknown_commands_are_named() {
    assert_eq!(classify(":foo bar"), Line::Unknown("foo".to_owned()));
    assert_eq!(classify(":"), Line::Unknown(String::new()));
    assert_eq!(classify(":Q"), Line::Unknown("Q".to_owned()));
}

#[test]
fn other_lines_are_input() {
    assert_eq!(classify("eval true"), Line::Input("eval true".to_owned()));
    assert_eq!(classify("  id Bool true \n"), Line::Input("id Bool true".to_owned()));
    assert_eq!(classify("\u{a0}x\u{a0}"), Line::Input("x".to_owned()));
}

#[test]
fn readme_session() {
    let cx = rebuild_cxt("def id : (0 A : Type) -> (1 x : A) -> A := \\A x => x\n").unwrap();
    assert_eq!(type_of(&cx, "id Bool").unwrap(), "id Bool : (1 x : Bool) -> Bool");
    let raw = Parser::new().parse_term("id Bool true").unwrap();
    assert_eq!(eval_term(&cx, &raw).unwrap(), "true\n  : Bool");
    let cx = rebuild_cxt("def dup : (0 A : Type) -> (w x : A) -> A * A := \\A x => (x, x)\n").unwrap();
    let raw = Parser::new().parse_term("dup Bool true").unwrap();
    assert_eq!(eval_term(&cx, &raw).unwrap(), "(true, true)\n  : Bool * Bool");
}

#[test]
fn rebuilding_keeps_definitions_only() {
    let cx = rebuild_cxt("def b : Bool := true\neval b\ncheck b : Bool\ndef c : Bool := b\n").unwrap();
    assert_eq!(cx.level(), 2);
    assert!(matches!(cx.lookup(&name("c")), Some((0, Val::Bool))));
    assert!(matches!(cx.lookup(&name("b")), Some((1, Val::Bool))));
    assert!(matches!(cx.env.lookup(0), Val::True));
}

#[test]
fn rebuilding_reports_errors() {
    match rebuild_cxt("def b : Bool := Type\n") {
        Err(TinyQttError::Type(t)) => assert!(t.message.starts_with("type mismatch")),
        other => panic!("unexpected {:?}", other.map(|c| c.level())),
    }
    assert!(matches!(rebuild_cxt("def"), Err(TinyQttError::Parse(_))));
}

#[test]
fn typing_errors_at_the_prompt() {
    let cx = rebuild_cxt("").unwrap();
    match type_of(&cx, "y") {
        Err(TinyQttError::Type(t)) => assert_eq!(t.message, "unbound variable: y (at depth 0)"),
        other => panic!("unexpected {:?}", other),
    }
    assert!(matches!(type_of(&cx, "(true"), Err(TinyQttError::Parse(_))));
    assert_eq!(type_of(&cx, "true").unwrap(), "true : Bool");
    match eval_term(&cx, &Raw::Lam(vec![name("x")], Box::new(Raw::Var(name("x"))))) {
        Err(TinyQttError::Type(t)) => {
            assert_eq!(t.message, "cannot infer a lambda; add a type annotation (at depth 0)")
        }
        other => panic!("unexpected {:?}", other),
    }
}

#[test]
fn a_declaration_line_is_a_one_declaration_module() {
    let p = Parser::new();
    let line = "def b : Bool := true";
    assert!(matches!(p.parse_repl(line).unwrap(), ReplInput::Decl(Decl::Def(..))));
    let ds = p.parse_module(line).unwrap();
    assert_eq!(ds.len(), 1);
    assert!(matches!(&ds[0], Decl::Def(n, _, _) if n == "b"));
}
