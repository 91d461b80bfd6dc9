use tiny_qtt::driver::{check_str, check_str_pretty};
use tiny_qtt::errors::{ParseError, TinyQttError};

#[test]
fn identity_definition_and_use() {
    let src = "def id : (0 A : Type) -> (1 x : A) -> A := \\A x => x\neval id Bool true\n";
    let out = check_str(src).unwrap();
    assert_eq!(
        out,
        "def id\n  : (0 A : Type) -> (1 x : A) -> A\n  := \\A => \\x => x\neval\n  = true\n  : Bool\n"
    );
}

#[test]
fn dup_with_unrestricted_argument() {
    let src = "def dup : (0 A : Type) -> (w x : A) -> A * A := \\A x => (x, x)\neval dup Bool true\n";
    let out = check_str(src).unwrap();
    assert_eq!(
        out,
        "def dup\n  : (0 A : Type) -> (x : A) -> A * A\n  := \\A => \\x => (x, x)\neval\n  = (true, true)\n  : Bool * Bool\n"
    );
}

#[test]
fn dup_with_linear_argument_is_refused() {
    let src = "def dup : (0 A : Type) -> (1 x : A) -> A * A := \\A x => (x, x)\n";
    let err = check_str(src).unwrap_err();
    assert_eq!(err, "variable `x` has multiplicity 1 but is used w (at depth 1)");
}

#[test]
fn dropping_a_linear_argument_is_refused() {
    let src = "def drop : (0 A : Type) -> (1 x : A) -> Bool := \\A x => true\n";
    let err = check_str(src).unwrap_err();
    assert_eq!(err, "variable `x` has multiplicity 1 but is used 0 (at depth 1)");
}

#[test]
fn check_declaration_prints_type_and_term() {
    let out = check_str("check true : Bool\n").unwrap();
    assert_eq!(out, "check ok\n  : Bool\n  ~ true\n");
}

#[test]
fn empty_module_prints_nothing() {
    assert_eq!(check_str("").unwrap(), "");
    assert_eq!(check_str("  -- only a comment\n").unwrap(), "");
}

#[test]
fn syntax_error_is_reported_with_its_category() {
    let err = check_str("eval )").unwrap_err();
    assert!(err.starts_with("parse error: unexpected token ')'"));
    match check_str_pretty("eval )") {
        Err(TinyQttError::Parse(ParseError::UnexpectedToken { token, span, .. })) => {
            assert_eq!(token, ")");
            assert_eq!(span, (5, 6));
        }
        other => panic!("unexpected result {:?}", other),
    }
}

#[test]
fn unbound_variable_is_a_type_error() {
    match check_str_pretty("eval y\n") {
        Err(TinyQttError::Type(t)) => assert_eq!(t.message, "unbound variable: y (at depth 0)"),
        other => panic!("unexpected result {:?}", other),
    }
}

#[test]
fn definitions_are_visible_to_later_declarations() {
    let src = "def b : Bool := true\ncheck b : Bool\neval b\n";
    let out = check_str(src).unwrap();
    assert_eq!(
        out,
        "def b\n  : Bool\n  := true\ncheck ok\n  : Bool\n  ~ b\neval\n  = true\n  : Bool\n"
    );
}

#[test]
fn lexical_error_stops_the_module() {
    match check_str_pretty("eval true ?") {
        Err(TinyQttError::Parse(ParseError::Lexical(e))) => assert_eq!(e.offset(), 10),
        other => panic!("unexpected result {:?}", other),
    }
}

#[test]
fn erased_variable_may_not_be_used() {
    let src = "def f : (0 x : Bool) -> Bool := \\x => x\n";
    assert_eq!(
        check_str(src).unwrap_err(),
        "variable `x` has multiplicity 0 but is used 1 (at depth 0)"
    );
}

#[test]
fn additive_pairs_share_resources() {
    let ok = "def g : (1 x : Bool) -> Bool & Bool := \\x => <x, x>\neval fst (g true)\n";
    assert_eq!(
        check_str(ok).unwrap(),
        "def g\n  : (1 x : Bool) -> Bool & Bool\n  := \\x => <x, x>\neval\n  = true\n  : Bool\n"
    );
    let bad = "def g : (1 x : Bool) -> Bool & Bool := \\x => <x, true>\n";
    assert_eq!(
        check_str(bad).unwrap_err(),
        "with-pair components consume different resources (at depth 1)"
    );
}

#[test]
fn branches_consume_the_same_resources() {
    let bad = "def h : (1 x : Bool) -> Bool := \\x => if true then x else true\n";
    assert_eq!(
        check_str(bad).unwrap_err(),
        "branches of `if` consume different resources (at depth 1)"
    );
}

#[test]
fn splitting_a_tensor_uses_both_components() {
    let ok = "def sw : (0 A : Type) -> (0 B : Type) -> (1 p : A * B) -> B * A := \\A B p => let (a, b) = p in (b, a)\n";
    assert_eq!(
        check_str(ok).unwrap(),
        "def sw\n  : (0 A : Type) -> (0 B : Type) -> (1 p : A * B) -> B * A\n  := \\A => \\B => \\p => let (a, b) = p in (b, a)\n"
    );
    let bad = "def fst1 : (0 A : Type) -> (0 B : Type) -> (1 p : A * B) -> A := \\A B p => let (a, b) = p in a\n";
    assert_eq!(
        check_str(bad).unwrap_err(),
        "variable `b` is linear but is used 0 (at depth 3)"
    );
}

#[test]
fn local_definitions_evaluate() {
    let out = check_str("eval let x : Bool := true in x\n").unwrap();
    assert_eq!(out, "eval\n  = true\n  : Bool\n");
}

#[test]
fn crate_root_reexports_the_checker() {
    let out = tiny_qtt::check_str("check false : Bool\n").unwrap();
    assert_eq!(out, "check ok\n  : Bool\n  ~ false\n");
    let r: tiny_qtt::TinyQttResult<String> = check_str_pretty("eval )");
    assert!(matches!(r, Err(tiny_qtt::TinyQttError::Parse(_))));
}
