use std::rc::Rc;
use tiny_qtt::elab::{check, infer, is_type, Cxt};
use tiny_qtt::eval::{apply, closure_apply, conv, do_fst, do_if, do_snd, do_split, eval, nf, quote};
use tiny_qtt::mult::Mult;
use tiny_qtt::pretty::pretty_tm;
use tiny_qtt::syntax::{name, Raw, Tm};
use tiny_qtt::value::{Closure, Elim, Env, Head, Val};

fn lam_x_x() -> Tm {
    Tm::Lam(name("x"), Rc::new(Tm::Var(0)))
}

#[test]
fn beta_reduction() {
    let env = Env(vec![]);
    let tm = Tm::App(Rc::new(lam_x_x()), Rc::new(Tm::True));
    assert!(matches!(eval(&env, &tm), Some(Val::True)));
    let n = nf(&env, &tm).unwrap();
    assert_eq!(pretty_tm(&[], &n), "true");
}

#[test]
fn stuck_terms_give_no_value() {
    let env = Env(vec![]);
    assert!(eval(&env, &Tm::App(Rc::new(Tm::True), Rc::new(Tm::True))).is_none());
    assert!(eval(&env, &Tm::Var(0)).is_none());
    assert!(eval(&env, &Tm::Fst(Rc::new(Tm::True))).is_none());
}

#[test]
fn conditionals_and_projections() {
    let env = Env(vec![]);
    let tm = Tm::If(Rc::new(Tm::False), Rc::new(Tm::True), Rc::new(Tm::False));
    assert!(matches!(eval(&env, &tm), Some(Val::False)));
    let w = Tm::WPair(Rc::new(Tm::True), Rc::new(Tm::False));
    assert!(matches!(eval(&env, &Tm::Fst(Rc::new(w))), Some(Val::True)));
    assert!(matches!(do_fst(Val::WPair(Rc::new(Val::True), Rc::new(Val::False))), Val::True));
    assert!(matches!(do_snd(Val::WPair(Rc::new(Val::True), Rc::new(Val::False))), Val::False));
    assert!(matches!(do_if(Val::True, Val::Bool, Val::U), Val::Bool));
}

#[test]
fn eliminations_on_neutrals_extend_the_spine() {
    match do_fst(Val::var(3)) {
        Val::Stuck(Head::Var(3), sp) => {
            assert_eq!(sp.len(), 1);
            assert!(matches!(sp[0], Elim::Fst));
        }
        other => panic!("unexpected {:?}", other),
    }
    match apply(Val::var(0), Val::True) {
        Some(Val::Stuck(Head::Var(0), sp)) => {
            assert_eq!(sp.len(), 1);
            assert!(matches!(sp[0], Elim::App(Val::True)));
        }
        other => panic!("unexpected {:?}", other),
    }
    let body = Rc::new(Tm::Var(0));
    match do_split(Val::var(1), &name("a"), &name("b"), &Env(vec![]), &body) {
        Some(Val::Stuck(Head::Var(1), sp)) => assert!(matches!(sp[0], Elim::Split(..))),
        other => panic!("unexpected {:?}", other),
    }
}

#[test]
fn splitting_a_pair_binds_both_components() {
    let body = Rc::new(Tm::Var(1));
    let pair = Val::Pair(Rc::new(Val::True), Rc::new(Val::False));
    assert!(matches!(
        do_split(pair, &name("a"), &name("b"), &Env(vec![]), &body),
        Some(Val::True)
    ));
}

#[test]
fn closures_and_quotation() {
    let cl = Closure(Env(vec![]), Rc::new(Tm::Var(0)));
    assert!(matches!(closure_apply(&cl, Val::False), Some(Val::False)));
    let v = eval(&Env(vec![]), &lam_x_x()).unwrap();
    let t = quote(0, &v).unwrap();
    assert_eq!(pretty_tm(&[], &t), "\\x => x");
    assert_eq!(pretty_tm(&[name("y")], &quote(1, &Val::var(0)).unwrap()), "y");
}

#[test]
fn conversion_is_up_to_eta() {
    let id = eval(&Env(vec![]), &lam_x_x()).unwrap();
    assert_eq!(conv(0, &id, &id), Some(true));
    assert_eq!(conv(0, &Val::True, &Val::False), Some(false));
    assert_eq!(conv(1, &Val::var(0), &Val::var(0)), Some(true));
    let f = Val::var(0);
    let expanded = eval(
        &Env(vec![Val::var(0)]),
        &Tm::Lam(name("y"), Rc::new(Tm::App(Rc::new(Tm::Var(1)), Rc::new(Tm::Var(0))))),
    )
    .unwrap();
    assert_eq!(conv(1, &expanded, &f), Some(true));
}

#[test]
fn environments() {
    let env = Env::empty();
    assert!(env.is_empty());
    let env = env.extend(Val::True).extend(Val::False);
    assert_eq!(env.len(), 2);
    assert!(!env.is_empty());
    assert!(matches!(env.lookup(0), Val::False));
    assert!(matches!(env.lookup(1), Val::True));
}

#[test]
fn contexts_bind_define_and_look_up() {
    let cx = Cxt::default();
    assert_eq!(cx.level(), 0);
    let cx = cx.bind(name("A"), Val::U).define(name("b"), Val::True, Val::Bool);
    assert_eq!(cx.level(), 2);
    assert!(matches!(cx.lookup(&name("b")), Some((0, Val::Bool))));
    assert!(matches!(cx.lookup(&name("A")), Some((1, Val::U))));
    assert!(cx.lookup(&name("c")).is_none());
    let cx = cx.bind(name("A"), Val::Bool);
    assert!(matches!(cx.lookup(&name("A")), Some((0, Val::Bool))));
}

#[test]
fn elaboration_entry_points() {
    let cx = Cxt::default();
    let t = is_type(&cx, &Raw::Bool).unwrap();
    assert!(matches!(t, Tm::Bool));
    assert_eq!(
        is_type(&cx, &Raw::True).unwrap_err(),
        "expected a type, found: Bool (at depth 0)"
    );
    let (tm, ty, u) = infer(&cx, false, &Raw::True).unwrap();
    assert!(matches!(tm, Tm::True));
    assert!(matches!(ty, Val::Bool));
    assert!(u.0.is_empty());
    let (tm, u) = check(&cx, false, &Raw::False, &Val::Bool).unwrap();
    assert!(matches!(tm, Tm::False));
    assert!(u.0.is_empty());
    assert_eq!(
        infer(&cx, false, &Raw::Lam(vec![name("x")], Box::new(Raw::Var(name("x"))))).unwrap_err(),
        "cannot infer a lambda; add a type annotation (at depth 0)"
    );
}

#[test]
fn usage_of_a_variable_is_charged_once() {
    let cx = Cxt::default().bind(name("x"), Val::Bool);
    let (_, _, u) = infer(&cx, false, &Raw::Var(name("x"))).unwrap();
    assert_eq!(u.0, vec![Mult::One]);
    let (_, _, u) = infer(&cx, true, &Raw::Var(name("x"))).unwrap();
    assert_eq!(u.0, vec![Mult::Zero]);
}

#[test]
fn extending_an_environment_shifts_indices() {
    let env = Env(vec![Val::True, Val::False]);
    let ext = env.extend(Val::U);
    assert!(matches!(ext.lookup(0), Val::U));
    assert!(matches!(ext.lookup(1), Val::False));
    assert!(matches!(ext.lookup(2), Val::True));
    assert!(matches!(env.lookup(0), Val::False));
}

#[test]
fn type_formers_charge_nothing() {
    let cx = Cxt::default().bind(name("x"), Val::Bool);
    let pi = Raw::Pi(Mult::One, name("y"), Box::new(Raw::Bool), Box::new(Raw::Bool));
    let (_, ty, u) = infer(&cx, false, &pi).unwrap();
    assert!(matches!(ty, Val::U));
    assert_eq!(u.0, vec![Mult::Zero]);
}

#[test]
fn conversion_accepts_a_value_compared_with_itself() {
    let id_ty = eval(
        &Env(vec![]),
        &Tm::Pi(
            Mult::Zero,
            name("A"),
            Rc::new(Tm::U),
            Rc::new(Tm::Pi(Mult::One, name("x"), Rc::new(Tm::Var(0)), Rc::new(Tm::Var(1)))),
        ),
    )
    .unwrap();
    assert_eq!(conv(0, &id_ty, &id_ty), Some(true));
    let stuck = do_fst(apply(Val::var(0), Val::True).unwrap());
    assert_eq!(conv(1, &stuck, &stuck), Some(true));
    let pair = Val::Pair(Rc::new(Val::True), Rc::new(Val::var(0)));
    assert_eq!(conv(1, &pair, &pair), Some(true));
}

#[test]
fn a_local_definition_charges_its_value_as_often_as_it_is_used() {
    let cx = Cxt::default().bind(name("x"), Val::Bool);
    let used = Raw::Let(
        name("y"),
        Box::new(Raw::Bool),
        Box::new(Raw::Var(name("x"))),
        Box::new(Raw::Var(name("y"))),
    );
    let (_, ty, u) = infer(&cx, false, &used).unwrap();
    assert!(matches!(ty, Val::Bool));
    assert_eq!(u.0, vec![Mult::One]);
    let unused = Raw::Let(
        name("y"),
        Box::new(Raw::Bool),
        Box::new(Raw::Var(name("x"))),
        Box::new(Raw::True),
    );
    let (_, _, u) = infer(&cx, false, &unused).unwrap();
    assert_eq!(u.0, vec![Mult::Zero]);
}

#[test]
fn application_scales_the_argument_by_the_binder() {
    let fn_ty = |m: Mult| {
        Val::Pi(m, name("y"), Rc::new(Val::Bool), Closure(Env(vec![]), Rc::new(Tm::Bool)))
    };
    for (m, expected) in [(Mult::Zero, Mult::Zero), (Mult::One, Mult::One), (Mult::Many, Mult::Many)] {
        let cx = Cxt::default().bind(name("f"), fn_ty(m)).bind(name("x"), Val::Bool);
        let app = Raw::App(Box::new(Raw::Var(name("f"))), Box::new(Raw::Var(name("x"))));
        let (_, ty, u) = infer(&cx, false, &app).unwrap();
        assert!(matches!(ty, Val::Bool));
        assert_eq!(u.0, vec![Mult::One, expected]);
    }
}

#[test]
fn projections_charge_what_the_pair_charges() {
    let with = Val::With(Rc::new(Val::Bool), Rc::new(Val::U));
    let cx = Cxt::default().bind(name("p"), with);
    let (_, ty, u) = infer(&cx, false, &Raw::Fst(Box::new(Raw::Var(name("p"))))).unwrap();
    assert!(matches!(ty, Val::Bool));
    assert_eq!(u.0, vec![Mult::One]);
    let (_, ty, u) = infer(&cx, false, &Raw::Snd(Box::new(Raw::Var(name("p"))))).unwrap();
    assert!(matches!(ty, Val::U));
    assert_eq!(u.0, vec![Mult::One]);
}

#[test]
fn the_newest_elimination_is_the_outermost_frame() {
    let applied = apply(Val::var(0), Val::True).unwrap();
    let projected = do_fst(applied);
    match &projected {
        Val::Stuck(Head::Var(0), sp) => {
            assert_eq!(sp.len(), 2);
            assert!(matches!(sp[0], Elim::Fst));
            assert!(matches!(sp[1], Elim::App(Val::True)));
        }
        other => panic!("unexpected {:?}", other),
    }
    let t = quote(1, &projected).unwrap();
    assert_eq!(pretty_tm(&[name("x")], &t), "fst (x true)");
}

#[test]
fn a_spine_reads_back_from_its_innermost_frame() {
    let v = Val::Stuck(Head::Var(0), vec![Elim::Fst, Elim::App(Val::True)]);
    let t = quote(1, &v).unwrap();
    assert!(matches!(&t, Tm::Fst(inner) if matches!(&**inner, Tm::App(f, x)
        if matches!(&**f, Tm::Var(0)) && matches!(&**x, Tm::True))));
    assert_eq!(pretty_tm(&[name("x")], &t), "fst (x true)");
}
