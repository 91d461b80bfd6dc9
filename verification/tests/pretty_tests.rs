use std::rc::Rc;
use tiny_qtt::mult::Mult;
use tiny_qtt::pretty::pretty_tm;
use tiny_qtt::syntax::{name, Tm};

fn r(t: Tm) -> Rc<Tm> {
    Rc::new(t)
}

#[test]
fn binders_show_non_default_multiplicities() {
    let id_ty = Tm::Pi(
        Mult::Zero,
        name("A"),
        r(Tm::U),
        r(Tm::Pi(Mult::One, name("x"), r(Tm::Var(0)), r(Tm::Var(1)))),
    );
    assert_eq!(pretty_tm(&[], &id_ty), "(0 A : Type) -> (1 x : A) -> A");
    let arrow = Tm::Pi(Mult::Many, name("_"), r(Tm::Bool), r(Tm::Bool));
    assert_eq!(pretty_tm(&[], &arrow), "Bool -> Bool");
    let tensor = Tm::Tensor(Mult::One, name("_"), r(Tm::Bool), r(Tm::Bool));
    assert_eq!(pretty_tm(&[], &tensor), "Bool * Bool");
    let wtensor = Tm::Tensor(Mult::Many, name("x"), r(Tm::Bool), r(Tm::Bool));
    assert_eq!(pretty_tm(&[], &wtensor), "(x : Bool) * Bool");
}

#[test]
fn parentheses_follow_precedence() {
    let arrow = Tm::Pi(Mult::Many, name("_"), r(Tm::Bool), r(Tm::Bool));
    let nested = Tm::Pi(Mult::Many, name("_"), r(arrow), r(Tm::Bool));
    assert_eq!(pretty_tm(&[], &nested), "(Bool -> Bool) -> Bool");
    let app = Tm::App(r(Tm::Var(1)), r(Tm::App(r(Tm::Var(0)), r(Tm::True))));
    assert_eq!(pretty_tm(&[name("f"), name("g")], &app), "f (g true)");
    let with = Tm::With(r(Tm::Bool), r(Tm::With(r(Tm::Bool), r(Tm::U))));
    assert_eq!(pretty_tm(&[], &with), "Bool & Bool & Type");
}

#[test]
fn pairs_lets_and_conditionals() {
    let pair = Tm::Pair(r(Tm::True), r(Tm::False));
    assert_eq!(pretty_tm(&[], &pair), "(true, false)");
    let wpair = Tm::WPair(r(Tm::True), r(Tm::False));
    assert_eq!(pretty_tm(&[], &wpair), "<true, false>");
    let split = Tm::LetPair(name("a"), name("b"), r(Tm::Var(0)), r(Tm::Var(1)));
    assert_eq!(pretty_tm(&[name("p")], &split), "let (a, b) = p in a");
    let lt = Tm::Let(name("x"), r(Tm::Bool), r(Tm::True), r(Tm::Var(0)));
    assert_eq!(pretty_tm(&[], &lt), "let x : Bool := true in x");
    let cond = Tm::If(r(Tm::True), r(Tm::False), r(Tm::True));
    assert_eq!(pretty_tm(&[], &cond), "if true then false else true");
    let proj = Tm::Fst(r(Tm::Var(0)));
    assert_eq!(pretty_tm(&[name("p")], &proj), "fst p");
}

#[test]
fn out_of_scope_variables_print_their_index() {
    assert_eq!(pretty_tm(&[], &Tm::Var(3)), "?3");
}
