use std::rc::Rc;
use tiny_qtt::elab::{check, Cxt};
use tiny_qtt::errors::ParseError;
use tiny_qtt::eval::{apply, closure_apply, conv, do_split, eval, quote};
use tiny_qtt::lexer::LexicalError;
use tiny_qtt::mult::Mult;
use tiny_qtt::syntax::{name, Raw, Tm};
use tiny_qtt::value::{Closure, Env, Head, Val};

#[test]
fn a_let_evaluates_its_body_with_the_bound_value() {
    let env = Env(vec![Val::False]);
    // let y : Bool := if x then false else true in y
    let bound = Tm::If(Rc::new(Tm::Var(0)), Rc::new(Tm::False), Rc::new(Tm::True));
    let body = Tm::Var(0);
    let let_tm = Tm::Let(name("y"), Rc::new(Tm::Bool), Rc::new(bound.clone()), Rc::new(body.clone()));
    let tv = eval(&env, &bound).unwrap();
    assert!(matches!(tv, Val::True));
    assert!(matches!(eval(&env, &let_tm), Some(Val::True)));
    assert!(matches!(eval(&env.extend(tv), &body), Some(Val::True)));
    // the annotation is never evaluated: an ill-formed one does not matter
    let odd = Tm::Let(name("y"), Rc::new(Tm::Var(7)), Rc::new(Tm::True), Rc::new(Tm::Var(0)));
    assert!(matches!(eval(&env, &odd), Some(Val::True)));
    // a bound term without a value leaves the let without one
    let stuck = Tm::Let(name("y"), Rc::new(Tm::Bool), Rc::new(Tm::Var(5)), Rc::new(Tm::True));
    assert!(eval(&env, &stuck).is_none());
}

#[test]
fn a_closure_runs_in_its_captured_environment() {
    let cl = Closure(Env(vec![Val::True, Val::U]), Rc::new(Tm::Var(2)));
    assert!(matches!(closure_apply(&cl, Val::False), Some(Val::True)));
    let cl = Closure(Env(vec![Val::True, Val::U]), Rc::new(Tm::Var(0)));
    assert!(matches!(closure_apply(&cl, Val::False), Some(Val::False)));
}

#[test]
fn applying_a_lambda_substitutes_its_argument() {
    let env = Env(vec![Val::Bool]);
    let lam = Tm::Lam(name("x"), Rc::new(Tm::If(Rc::new(Tm::Var(0)), Rc::new(Tm::Var(1)), Rc::new(Tm::U))));
    let f = eval(&env, &lam).unwrap();
    assert!(matches!(apply(f, Val::True), Some(Val::Bool)));
    let f = eval(&env, &lam).unwrap();
    assert!(matches!(apply(f, Val::False), Some(Val::U)));
}

#[test]
fn splitting_binds_the_first_component_outside_the_second() {
    let pair = Val::Pair(Rc::new(Val::True), Rc::new(Val::False));
    let first = Rc::new(Tm::Var(1));
    assert!(matches!(do_split(pair, &name("a"), &name("b"), &Env(vec![]), &first), Some(Val::True)));
    let pair = Val::Pair(Rc::new(Val::True), Rc::new(Val::False));
    let second = Rc::new(Tm::Var(0));
    assert!(matches!(do_split(pair, &name("a"), &name("b"), &Env(vec![]), &second), Some(Val::False)));
}

#[test]
fn conversion_answers_the_same_both_ways() {
    let pairs = vec![
        (Val::True, Val::False),
        (Val::var(0), Val::var(1)),
        (Val::U, Val::Bool),
        (Val::Pair(Rc::new(Val::True), Rc::new(Val::var(0))), Val::Pair(Rc::new(Val::True), Rc::new(Val::var(0)))),
    ];
    for (a, b) in pairs.iter() {
        assert_eq!(conv(2, a, b), conv(2, b, a));
    }
    let id = eval(&Env(vec![]), &Tm::Lam(name("x"), Rc::new(Tm::Var(0)))).unwrap();
    assert_eq!(conv(1, &id, &Val::var(0)), conv(1, &Val::var(0), &id));
}

#[test]
fn a_defined_name_unfolds_to_its_value() {
    let cx = Cxt::default().define(name("b"), Val::True, Val::Bool);
    assert!(matches!(eval(&cx.env, &Tm::Var(0)), Some(Val::True)));
}

#[test]
fn checking_falls_back_to_inference_and_conversion() {
    let cx = Cxt::default();
    let (tm, u) = check(&cx, false, &Raw::True, &Val::Bool).unwrap();
    assert!(matches!(tm, Tm::True));
    assert!(u.0.is_empty());
    let e = check(&cx, false, &Raw::True, &Val::U).unwrap_err();
    assert!(e.starts_with("type mismatch\n  expected: "));
    assert_eq!(e, "type mismatch\n  expected: Type\n  inferred: Bool (at depth 0)");
}

#[test]
fn a_lambda_with_two_binders_checks_each_against_its_multiplicity() {
    // (0 A : U) -> (1 x : A) -> A, checked against \A x => x
    let ty = eval(
        &Env(vec![]),
        &Tm::Pi(
            Mult::Zero,
            name("A"),
            Rc::new(Tm::U),
            Rc::new(Tm::Pi(Mult::One, name("x"), Rc::new(Tm::Var(0)), Rc::new(Tm::Var(1)))),
        ),
    )
    .unwrap();
    let cx = Cxt::default();
    let ok = Raw::Lam(vec![name("A"), name("x")], Box::new(Raw::Var(name("x"))));
    assert!(check(&cx, false, &ok, &ty).is_ok());
    // (1 x : Bool) -> (1 y : Bool) -> Bool, checked against \x y => x
    let ty2 = eval(
        &Env(vec![]),
        &Tm::Pi(
            Mult::One,
            name("x"),
            Rc::new(Tm::Bool),
            Rc::new(Tm::Pi(Mult::One, name("y"), Rc::new(Tm::Bool), Rc::new(Tm::Bool))),
        ),
    )
    .unwrap();
    let dropped = Raw::Lam(vec![name("x"), name("y")], Box::new(Raw::Var(name("x"))));
    let e = check(&cx, false, &dropped, &ty2).unwrap_err();
    assert!(e.starts_with("variable `y` has multiplicity"));
    let kept = Raw::Lam(vec![name("x"), name("y")], Box::new(Raw::If(
        Box::new(Raw::Var(name("x"))),
        Box::new(Raw::Var(name("y"))),
        Box::new(Raw::Var(name("y"))),
    )));
    assert!(check(&cx, false, &kept, &ty2).is_ok());
}

#[test]
fn values_terms_and_contexts_can_be_cloned() {
    let v = Val::Stuck(Head::Var(2), vec![]);
    assert!(matches!(v.clone(), Val::Stuck(Head::Var(2), sp) if sp.is_empty()));
    let t = Tm::App(Rc::new(Tm::Var(0)), Rc::new(Tm::True));
    assert!(matches!(t.clone(), Tm::App(_, x) if matches!(*x, Tm::True)));
    let r = Raw::Lam(vec![name("x")], Box::new(Raw::Var(name("x"))));
    assert!(matches!(r.clone(), Raw::Lam(ns, _) if ns == vec![name("x")]));
    let env = Env(vec![Val::True]);
    assert_eq!(env.clone().len(), 1);
    let cx = Cxt::default().bind(name("x"), Val::Bool);
    assert_eq!(cx.clone().level(), 1);
    let e = ParseError::Lexical(LexicalError::InvalidToken(3));
    assert_eq!(e.clone(), e);
    let e = ParseError::UnexpectedToken { token: "(".to_owned(), expected: vec!["a".to_owned()], span: (1, 2) };
    assert_eq!(e.clone(), e);
    assert!(Env::default().is_empty());
}

#[test]
fn read_back_terms_only_mention_variables_in_scope() {
    // \y => x y, with x the variable at level 0, read back with one variable in scope
    let env = Env(vec![Val::var(0)]);
    let lam = eval(&env, &Tm::Lam(name("y"), Rc::new(Tm::App(Rc::new(Tm::Var(1)), Rc::new(Tm::Var(0))))))
        .unwrap();
    let t = quote(1, &lam).unwrap();
    match t {
        Tm::Lam(_, body) => match &*body {
            Tm::App(f, x) => {
                assert!(matches!(**f, Tm::Var(1)));
                assert!(matches!(**x, Tm::Var(0)));
            }
            other => panic!("unexpected {:?}", other),
        },
        other => panic!("unexpected {:?}", other),
    }
    // a neutral at a level not yet in scope has no read-back
    assert!(quote(0, &Val::var(0)).is_none());
}

#[test]
fn a_normal_form_normalises_to_itself() {
    let id2 = Env(vec![Val::var(0), Val::var(1)]);
    // (\f => \y => f (fst y)) applied to the variable at index 1
    let tm = Tm::App(
        Rc::new(Tm::Lam(
            name("f"),
            Rc::new(Tm::Lam(
                name("y"),
                Rc::new(Tm::App(Rc::new(Tm::Var(1)), Rc::new(Tm::Fst(Rc::new(Tm::Var(0)))))),
            )),
        )),
        Rc::new(Tm::Var(1)),
    );
    let once = tiny_qtt::eval::nf(&id2, &tm).unwrap();
    let twice = tiny_qtt::eval::nf(&id2, &once).unwrap();
    let names = [name("a"), name("b")];
    assert_eq!(tiny_qtt::pretty::pretty_tm(&names, &once), "\\y => a (fst y)");
    assert_eq!(
        tiny_qtt::pretty::pretty_tm(&names, &twice),
        tiny_qtt::pretty::pretty_tm(&names, &once)
    );
}
