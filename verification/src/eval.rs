//! Normalisation by evaluation: evaluation of core terms into values,
//! read-back (quotation) of values into terms, and conversion checking.
//!
//! Evaluation of an untyped term need not terminate, and evaluating an
//! ill-typed term can get stuck (applying a non-function, projecting from a
//! non-pair). Every function here therefore works within a nesting budget of
//! `EVAL_DEPTH` nested calls and returns `None` when evaluation gets stuck or
//! the budget runs out. The budget is far beyond any call stack, so on a
//! real machine it is never what stops a computation.
use crate::mult::Mult;
use crate::syntax::{Level, Name, Tm, TmV};
use crate::value::{
    elims_view, lemma_elims_view, lemma_vals_view, var_v, ClosureV,
    Closure, Elim, ElimV, Env, Head, Spine, Val, ValV,
};
use std::rc::Rc;
use vstd::prelude::*;

verus! {

broadcast use {lemma_vals_view, lemma_elims_view};

/// The nesting budget of the public evaluation functions.
pub const EVAL_DEPTH: u64 = 0xffff_ffff_ffff_ffff;

/// The view of an optional value.
pub open spec fn opt_val_view(o: Option<Val>) -> Option<ValV> {
    match o {
        Some(v) => Some(v@),
        None => None,
    }
}

/// The view of an optional term.
pub open spec fn opt_tm_view(o: Option<Tm>) -> Option<TmV> {
    match o {
        Some(t) => Some(t@),
        None => None,
    }
}

/// The value of the variable with de Bruijn index `ix`, if it is in scope.
pub open spec fn lookup_v(env: Seq<ValV>, ix: nat) -> Option<ValV> {
    if ix < env.len() {
        Some(env[env.len() - 1 - ix])
    } else {
        None
    }
}

/// First projection: defined on with-pairs and neutral values; on a
/// neutral value the projection becomes the outermost frame of the spine.
pub open spec fn fst_v(v: ValV) -> Option<ValV> {
    match v {
        ValV::WPair(a, _) => Some(*a),
        ValV::Stuck(l, sp) => Some(ValV::Stuck(l, seq![ElimV::Fst] + sp)),
        _ => None,
    }
}

/// Second projection: defined on with-pairs and neutral values; on a
/// neutral value the projection becomes the outermost frame of the spine.
pub open spec fn snd_v(v: ValV) -> Option<ValV> {
    match v {
        ValV::WPair(_, b) => Some(*b),
        ValV::Stuck(l, sp) => Some(ValV::Stuck(l, seq![ElimV::Snd] + sp)),
        _ => None,
    }
}

/// Conditional: defined on booleans and neutral values; on a neutral value
/// the conditional becomes the outermost frame of the spine.
pub open spec fn if_v(c: ValV, a: ValV, b: ValV) -> Option<ValV> {
    match c {
        ValV::True => Some(a),
        ValV::False => Some(b),
        ValV::Stuck(l, sp) => Some(ValV::Stuck(l, seq![ElimV::If(a, b)] + sp)),
        _ => None,
    }
}

/// Evaluation of `tm` in `env` within `fuel` nested calls.
pub open spec fn eval_f(fuel: nat, env: Seq<ValV>, tm: TmV) -> Option<ValV>
    decreases fuel, 0nat,
{
    if fuel == 0 {
        None
    } else {
        let f = (fuel - 1) as nat;
        match tm {
            TmV::Var(ix) => lookup_v(env, ix),
            TmV::U => Some(ValV::U),
            TmV::Bool => Some(ValV::Bool),
            TmV::True => Some(ValV::True),
            TmV::False => Some(ValV::False),
            TmV::Pi(m, n, a, b) => match eval_f(f, env, *a) {
                Some(av) => Some(ValV::Pi(m, n, Box::new(av), ClosureV { env, body: *b })),
                None => None,
            },
            TmV::Lam(n, body) => Some(ValV::Lam(n, ClosureV { env, body: *body })),
            TmV::App(fm, xm) => match eval_f(f, env, *fm) {
                Some(fv) => match eval_f(f, env, *xm) {
                    Some(xv) => apply_f(f, fv, xv),
                    None => None,
                },
                None => None,
            },
            TmV::Tensor(m, n, a, b) => match eval_f(f, env, *a) {
                Some(av) => Some(ValV::Tensor(m, n, Box::new(av), ClosureV { env, body: *b })),
                None => None,
            },
            TmV::Pair(a, b) => match eval_f(f, env, *a) {
                Some(av) => match eval_f(f, env, *b) {
                    Some(bv) => Some(ValV::Pair(Box::new(av), Box::new(bv))),
                    None => None,
                },
                None => None,
            },
            TmV::LetPair(x, y, t, body) => match eval_f(f, env, *t) {
                Some(tv) => split_f(f, tv, x, y, env, *body),
                None => None,
            },
            TmV::With(a, b) => match eval_f(f, env, *a) {
                Some(av) => match eval_f(f, env, *b) {
                    Some(bv) => Some(ValV::With(Box::new(av), Box::new(bv))),
                    None => None,
                },
                None => None,
            },
            TmV::WPair(a, b) => match eval_f(f, env, *a) {
                Some(av) => match eval_f(f, env, *b) {
                    Some(bv) => Some(ValV::WPair(Box::new(av), Box::new(bv))),
                    None => None,
                },
                None => None,
            },
            TmV::Fst(t) => match eval_f(f, env, *t) {
                Some(v) => fst_v(v),
                None => None,
            },
            TmV::Snd(t) => match eval_f(f, env, *t) {
                Some(v) => snd_v(v),
                None => None,
            },
            TmV::If(c, a, b) => match eval_f(f, env, *c) {
                Some(cv) => match eval_f(f, env, *a) {
                    Some(av) => match eval_f(f, env, *b) {
                        Some(bv) => if_v(cv, av, bv),
                        None => None,
                    },
                    None => None,
                },
                None => None,
            },
            TmV::Let(_, _, t, body) => match eval_f(f, env, *t) {
                Some(tv) => eval_f(f, env.push(tv), *body),
                None => None,
            },
        }
    }
}

/// Application of a closure to a value within `fuel` nested calls.
pub open spec fn closure_apply_f(fuel: nat, cl: ClosureV, v: ValV) -> Option<ValV>
    decreases fuel, 0nat,
{
    if fuel == 0 {
        None
    } else {
        eval_f((fuel - 1) as nat, cl.env.push(v), cl.body)
    }
}

/// Application of a value to a value within `fuel` nested calls; on a
/// neutral value the application becomes the outermost frame of the spine.
pub open spec fn apply_f(fuel: nat, fv: ValV, xv: ValV) -> Option<ValV>
    decreases fuel, 0nat,
{
    if fuel == 0 {
        None
    } else {
        match fv {
            ValV::Lam(_, cl) => closure_apply_f((fuel - 1) as nat, cl, xv),
            ValV::Stuck(l, sp) => Some(ValV::Stuck(l, seq![ElimV::App(xv)] + sp)),
            _ => None,
        }
    }
}

/// Tensor elimination within `fuel` nested calls; on a neutral value the
/// split becomes the outermost frame of the spine.
pub open spec fn split_f(
    fuel: nat,
    tv: ValV,
    x: Seq<char>,
    y: Seq<char>,
    env: Seq<ValV>,
    body: TmV,
) -> Option<ValV>
    decreases fuel, 0nat,
{
    if fuel == 0 {
        None
    } else {
        match tv {
            ValV::Pair(a, b) => eval_f((fuel - 1) as nat, env.push(*a).push(*b), body),
            ValV::Stuck(l, sp) => Some(ValV::Stuck(l, seq![ElimV::Split(x, y, env, body)] + sp)),
            _ => None,
        }
    }
}


/// Read-back of a value at level `lvl` (the number of variables in scope)
/// within `fuel` nested calls.
pub open spec fn quote_f(fuel: nat, lvl: nat, v: ValV) -> Option<TmV>
    decreases fuel, 0nat,
{
    if fuel == 0 {
        None
    } else {
        let f = (fuel - 1) as nat;
        match v {
            ValV::Lam(n, cl) => if lvl + 1 > usize::MAX {
                None
            } else {
                match closure_apply_f(f, cl, var_v(lvl)) {
                    Some(b) => match quote_f(f, lvl + 1, b) {
                        Some(bt) => Some(TmV::Lam(n, Box::new(bt))),
                        None => None,
                    },
                    None => None,
                }
            },
            ValV::Pi(m, n, dom, cod) => if lvl + 1 > usize::MAX {
                None
            } else {
                match closure_apply_f(f, cod, var_v(lvl)) {
                    Some(b) => match quote_f(f, lvl, *dom) {
                        Some(dt) => match quote_f(f, lvl + 1, b) {
                            Some(bt) => Some(TmV::Pi(m, n, Box::new(dt), Box::new(bt))),
                            None => None,
                        },
                        None => None,
                    },
                    None => None,
                }
            },
            ValV::Tensor(m, n, dom, cod) => if lvl + 1 > usize::MAX {
                None
            } else {
                match closure_apply_f(f, cod, var_v(lvl)) {
                    Some(b) => match quote_f(f, lvl, *dom) {
                        Some(dt) => match quote_f(f, lvl + 1, b) {
                            Some(bt) => Some(TmV::Tensor(m, n, Box::new(dt), Box::new(bt))),
                            None => None,
                        },
                        None => None,
                    },
                    None => None,
                }
            },
            ValV::Pair(a, b) => match quote_f(f, lvl, *a) {
                Some(at) => match quote_f(f, lvl, *b) {
                    Some(bt) => Some(TmV::Pair(Box::new(at), Box::new(bt))),
                    None => None,
                },
                None => None,
            },
            ValV::With(a, b) => match quote_f(f, lvl, *a) {
                Some(at) => match quote_f(f, lvl, *b) {
                    Some(bt) => Some(TmV::With(Box::new(at), Box::new(bt))),
                    None => None,
                },
                None => None,
            },
            ValV::WPair(a, b) => match quote_f(f, lvl, *a) {
                Some(at) => match quote_f(f, lvl, *b) {
                    Some(bt) => Some(TmV::WPair(Box::new(at), Box::new(bt))),
                    None => None,
                },
                None => None,
            },
            ValV::U => Some(TmV::U),
            ValV::Bool => Some(TmV::Bool),
            ValV::True => Some(TmV::True),
            ValV::False => Some(TmV::False),
            ValV::Stuck(l, sp) => quote_stuck_f(f, lvl, l, sp),
        }
    }
}

/// Read-back of a neutral value: the head variable, then each elimination
/// of the spine wrapped around it from the innermost (the last) to the
/// outermost (the first).
pub open spec fn quote_stuck_f(fuel: nat, lvl: nat, l: nat, sp: Seq<ElimV>) -> Option<TmV>
    decreases fuel, sp.len(),
{
    if fuel == 0 {
        None
    } else if sp.len() == 0 {
        if l < lvl {
            Some(TmV::Var((lvl - l - 1) as nat))
        } else {
            None
        }
    } else {
        match quote_stuck_f(fuel, lvl, l, sp.drop_first()) {
            Some(acc) => quote_elim_f((fuel - 1) as nat, lvl, acc, sp[0]),
            None => None,
        }
    }
}

/// Read-back of one elimination frame around the term `acc`.
pub open spec fn quote_elim_f(fuel: nat, lvl: nat, acc: TmV, e: ElimV) -> Option<TmV>
    decreases fuel, 0nat,
{
    if fuel == 0 {
        None
    } else {
        let f = (fuel - 1) as nat;
        match e {
            ElimV::App(v) => match quote_f(f, lvl, v) {
                Some(vt) => Some(TmV::App(Box::new(acc), Box::new(vt))),
                None => None,
            },
            ElimV::Fst => Some(TmV::Fst(Box::new(acc))),
            ElimV::Snd => Some(TmV::Snd(Box::new(acc))),
            ElimV::If(a, b) => match quote_f(f, lvl, a) {
                Some(at) => match quote_f(f, lvl, b) {
                    Some(bt) => Some(TmV::If(Box::new(acc), Box::new(at), Box::new(bt))),
                    None => None,
                },
                None => None,
            },
            ElimV::Split(x, y, env, body) => if lvl + 2 > usize::MAX {
                None
            } else {
                match eval_f(f, env.push(var_v(lvl)).push(var_v(lvl + 1)), body) {
                    Some(opened) => match quote_f(f, lvl + 2, opened) {
                        Some(bt) => Some(TmV::LetPair(x, y, Box::new(acc), Box::new(bt))),
                        None => None,
                    },
                    None => None,
                }
            },
        }
    }
}

/// Both comparisons, the second only when the first holds.
pub open spec fn and_then_v(first: Option<bool>, second: Option<bool>) -> Option<bool> {
    match first {
        Some(true) => second,
        other => other,
    }
}

/// Comparison of two closures on a fresh variable at level `lvl`.
pub open spec fn conv_closures_f(fuel: nat, lvl: nat, c1: ClosureV, c2: ClosureV) -> Option<bool>
    decreases fuel, 1nat,
{
    if lvl + 1 > usize::MAX {
        None
    } else {
        match closure_apply_f(fuel, c1, var_v(lvl)) {
            Some(x) => match closure_apply_f(fuel, c2, var_v(lvl)) {
                Some(y) => conv_f(fuel, lvl + 1, x, y),
                None => None,
            },
            None => None,
        }
    }
}

/// Definitional equality of two values at level `lvl` within `fuel` nested
/// calls, with eta for functions and with-pairs.
pub open spec fn conv_f(fuel: nat, lvl: nat, v1: ValV, v2: ValV) -> Option<bool>
    decreases fuel, 0nat,
{
    if fuel == 0 {
        None
    } else {
        let f = (fuel - 1) as nat;
        match (v1, v2) {
            (ValV::U, ValV::U) => Some(true),
            (ValV::Bool, ValV::Bool) => Some(true),
            (ValV::True, ValV::True) => Some(true),
            (ValV::False, ValV::False) => Some(true),
            (ValV::Pi(m1, _, d1, c1), ValV::Pi(m2, _, d2, c2)) => if m1 != m2 {
                Some(false)
            } else {
                and_then_v(conv_f(f, lvl, *d1, *d2), conv_closures_f(f, lvl, c1, c2))
            },
            (ValV::Tensor(m1, _, d1, c1), ValV::Tensor(m2, _, d2, c2)) => if m1 != m2 {
                Some(false)
            } else {
                and_then_v(conv_f(f, lvl, *d1, *d2), conv_closures_f(f, lvl, c1, c2))
            },
            (ValV::With(a1, b1), ValV::With(a2, b2)) => and_then_v(
                conv_f(f, lvl, *a1, *a2),
                conv_f(f, lvl, *b1, *b2),
            ),
            (ValV::Pair(a1, b1), ValV::Pair(a2, b2)) => and_then_v(
                conv_f(f, lvl, *a1, *a2),
                conv_f(f, lvl, *b1, *b2),
            ),
            (ValV::WPair(a1, b1), ValV::WPair(a2, b2)) => and_then_v(
                conv_f(f, lvl, *a1, *a2),
                conv_f(f, lvl, *b1, *b2),
            ),
            (ValV::Lam(_, c1), ValV::Lam(_, c2)) => conv_closures_f(f, lvl, c1, c2),
            (ValV::Lam(_, c), other) => conv_eta_lam_f(f, lvl, c, other),
            (other, ValV::Lam(_, c)) => conv_eta_lam_f(f, lvl, c, other),
            (ValV::WPair(a, b), other) => conv_eta_wpair_f(f, lvl, *a, *b, other),
            (other, ValV::WPair(a, b)) => conv_eta_wpair_f(f, lvl, *a, *b, other),
            (ValV::Stuck(l1, s1), ValV::Stuck(l2, s2)) => if l1 != l2 {
                Some(false)
            } else {
                conv_spine_f(f, lvl, s1, s2)
            },
            _ => Some(false),
        }
    }
}

/// Eta for functions: compare the body of `c` with `other` applied to a
/// fresh variable.
pub open spec fn conv_eta_lam_f(fuel: nat, lvl: nat, c: ClosureV, other: ValV) -> Option<bool>
    decreases fuel, 1nat,
{
    if lvl + 1 > usize::MAX {
        None
    } else {
        match closure_apply_f(fuel, c, var_v(lvl)) {
            Some(x) => match apply_f(fuel, other, var_v(lvl)) {
                Some(y) => conv_f(fuel, lvl + 1, x, y),
                None => None,
            },
            None => None,
        }
    }
}

/// Eta for with-pairs: compare the components with the projections of `other`.
pub open spec fn conv_eta_wpair_f(fuel: nat, lvl: nat, a: ValV, b: ValV, other: ValV) -> Option<
    bool,
>
    decreases fuel, 1nat,
{
    match fst_v(other) {
        Some(o1) => match conv_f(fuel, lvl, a, o1) {
            Some(true) => match snd_v(other) {
                Some(o2) => conv_f(fuel, lvl, b, o2),
                None => None,
            },
            r => r,
        },
        None => None,
    }
}

/// Comparison of two spines: equal lengths and pairwise convertible frames.
pub open spec fn conv_spine_f(fuel: nat, lvl: nat, s1: Seq<ElimV>, s2: Seq<ElimV>) -> Option<bool>
    decreases fuel, s1.len() + 3,
{
    if s1.len() != s2.len() {
        Some(false)
    } else {
        conv_spine_from_f(fuel, lvl, s1, s2, 0)
    }
}

/// Pairwise comparison of the frames from position `i` on, stopping at the
/// first that differs.
pub open spec fn conv_spine_from_f(
    fuel: nat,
    lvl: nat,
    s1: Seq<ElimV>,
    s2: Seq<ElimV>,
    i: nat,
) -> Option<bool>
    decreases fuel, (s1.len() - i) + 2,
{
    if i >= s1.len() || i >= s2.len() {
        Some(true)
    } else {
        match conv_elim_f(fuel, lvl, s1[i as int], s2[i as int]) {
            Some(true) => conv_spine_from_f(fuel, lvl, s1, s2, i + 1),
            r => r,
        }
    }
}

/// Comparison of two elimination frames.
pub open spec fn conv_elim_f(fuel: nat, lvl: nat, e1: ElimV, e2: ElimV) -> Option<bool>
    decreases fuel, 0nat,
{
    if fuel == 0 {
        None
    } else {
        let f = (fuel - 1) as nat;
        match (e1, e2) {
            (ElimV::App(x), ElimV::App(y)) => conv_f(f, lvl, x, y),
            (ElimV::Fst, ElimV::Fst) => Some(true),
            (ElimV::Snd, ElimV::Snd) => Some(true),
            (ElimV::If(a1, b1), ElimV::If(a2, b2)) => and_then_v(
                conv_f(f, lvl, a1, a2),
                conv_f(f, lvl, b1, b2),
            ),
            (ElimV::Split(_, _, env1, b1), ElimV::Split(_, _, env2, b2)) => if lvl + 2
                > usize::MAX {
                None
            } else {
                match eval_f(f, env1.push(var_v(lvl)).push(var_v(lvl + 1)), b1) {
                    Some(x) => match eval_f(f, env2.push(var_v(lvl)).push(var_v(lvl + 1)), b2) {
                        Some(y) => conv_f(f, lvl + 2, x, y),
                        None => None,
                    },
                    None => None,
                }
            },
            _ => Some(false),
        }
    }
}


/// Putting a frame in front of a spine puts its view in front of the views.
proof fn lemma_prepend_elim(sp: Spine, e: Elim)
    ensures
        elims_view(sp@.insert(0, e)) == seq![e@] + elims_view(sp@),
{
    assert(elims_view(sp@.insert(0, e)) =~= seq![e@] + elims_view(sp@));
}

/// First projection of a with-pair or a neutral value.
pub fn do_fst(v: Val) -> (r: Val)
    requires
        fst_v(v@) is Some,
    ensures
        Some(r@) == fst_v(v@),
{
    match v {
        Val::WPair(a, _) => a.copy(),
        Val::Stuck(h, mut sp) => {
            proof {
                lemma_prepend_elim(sp, Elim::Fst);
            }
            sp.insert(0, Elim::Fst);
            Val::Stuck(h, sp)
        },
        _ => {
            proof {
                assert(false);
            }
            Val::U
        },
    }
}

/// Second projection of a with-pair or a neutral value.
pub fn do_snd(v: Val) -> (r: Val)
    requires
        snd_v(v@) is Some,
    ensures
        Some(r@) == snd_v(v@),
{
    match v {
        Val::WPair(_, b) => b.copy(),
        Val::Stuck(h, mut sp) => {
            proof {
                lemma_prepend_elim(sp, Elim::Snd);
            }
            sp.insert(0, Elim::Snd);
            Val::Stuck(h, sp)
        },
        _ => {
            proof {
                assert(false);
            }
            Val::U
        },
    }
}

/// Conditional on a boolean or a neutral value.
pub fn do_if(c: Val, a: Val, b: Val) -> (r: Val)
    requires
        if_v(c@, a@, b@) is Some,
    ensures
        Some(r@) == if_v(c@, a@, b@),
{
    match c {
        Val::True => a,
        Val::False => b,
        Val::Stuck(h, mut sp) => {
            let e = Elim::If(a, b);
            proof {
                lemma_prepend_elim(sp, e);
            }
            sp.insert(0, e);
            Val::Stuck(h, sp)
        },
        _ => {
            proof {
                assert(false);
            }
            Val::U
        },
    }
}

fn eval_fuel(fuel: u64, env: &Env, tm: &Tm) -> (r: Option<Val>)
    ensures
        opt_val_view(r) == eval_f(fuel as nat, env@, tm@),
    decreases fuel, 0nat,
{
    if fuel == 0 {
        return None;
    }
    let f = fuel - 1;
    match tm {
        Tm::Var(ix) => {
            if *ix < env.len() {
                Some(env.lookup(*ix))
            } else {
                None
            }
        },
        Tm::U => Some(Val::U),
        Tm::Bool => Some(Val::Bool),
        Tm::True => Some(Val::True),
        Tm::False => Some(Val::False),
        Tm::Pi(m, n, a, b) => match eval_fuel(f, env, a) {
            Some(av) => Some(Val::Pi(*m, n.clone(), Rc::new(av), Closure(env.copy(), b.clone()))),
            None => None,
        },
        Tm::Lam(n, body) => Some(Val::Lam(n.clone(), Closure(env.copy(), body.clone()))),
        Tm::App(fm, xm) => match eval_fuel(f, env, fm) {
            Some(fv) => match eval_fuel(f, env, xm) {
                Some(xv) => apply_fuel(f, fv, xv),
                None => None,
            },
            None => None,
        },
        Tm::Tensor(m, n, a, b) => match eval_fuel(f, env, a) {
            Some(av) => Some(
                Val::Tensor(*m, n.clone(), Rc::new(av), Closure(env.copy(), b.clone())),
            ),
            None => None,
        },
        Tm::Pair(a, b) => match eval_fuel(f, env, a) {
            Some(av) => match eval_fuel(f, env, b) {
                Some(bv) => Some(Val::Pair(Rc::new(av), Rc::new(bv))),
                None => None,
            },
            None => None,
        },
        Tm::LetPair(x, y, t, body) => match eval_fuel(f, env, t) {
            Some(tv) => split_fuel(f, tv, x, y, env, body),
            None => None,
        },
        Tm::With(a, b) => match eval_fuel(f, env, a) {
            Some(av) => match eval_fuel(f, env, b) {
                Some(bv) => Some(Val::With(Rc::new(av), Rc::new(bv))),
                None => None,
            },
            None => None,
        },
        Tm::WPair(a, b) => match eval_fuel(f, env, a) {
            Some(av) => match eval_fuel(f, env, b) {
                Some(bv) => Some(Val::WPair(Rc::new(av), Rc::new(bv))),
                None => None,
            },
            None => None,
        },
        Tm::Fst(t) => match eval_fuel(f, env, t) {
            Some(v) => {
                if matches!(v, Val::WPair(..) | Val::Stuck(..)) {
                    Some(do_fst(v))
                } else {
                    None
                }
            },
            None => None,
        },
        Tm::Snd(t) => match eval_fuel(f, env, t) {
            Some(v) => {
                if matches!(v, Val::WPair(..) | Val::Stuck(..)) {
                    Some(do_snd(v))
                } else {
                    None
                }
            },
            None => None,
        },
        Tm::If(c, a, b) => match eval_fuel(f, env, c) {
            Some(cv) => match eval_fuel(f, env, a) {
                Some(av) => match eval_fuel(f, env, b) {
                    Some(bv) => {
                        if matches!(cv, Val::True | Val::False | Val::Stuck(..)) {
                            Some(do_if(cv, av, bv))
                        } else {
                            None
                        }
                    },
                    None => None,
                },
                None => None,
            },
            None => None,
        },
        Tm::Let(_, _, t, body) => match eval_fuel(f, env, t) {
            Some(tv) => eval_fuel(f, &env.extend(tv), body),
            None => None,
        },
    }
}

fn closure_apply_fuel(fuel: u64, cl: &Closure, v: Val) -> (r: Option<Val>)
    ensures
        opt_val_view(r) == closure_apply_f(fuel as nat, cl@, v@),
    decreases fuel, 0nat,
{
    if fuel == 0 {
        return None;
    }
    eval_fuel(fuel - 1, &cl.0.extend(v), &cl.1)
}

fn apply_fuel(fuel: u64, f: Val, x: Val) -> (r: Option<Val>)
    ensures
        opt_val_view(r) == apply_f(fuel as nat, f@, x@),
    decreases fuel, 0nat,
{
    if fuel == 0 {
        return None;
    }
    match f {
        Val::Lam(_, cl) => closure_apply_fuel(fuel - 1, &cl, x),
        Val::Stuck(h, mut sp) => {
            let e = Elim::App(x);
            proof {
                lemma_prepend_elim(sp, e);
            }
            sp.insert(0, e);
            Some(Val::Stuck(h, sp))
        },
        _ => None,
    }
}

fn split_fuel(fuel: u64, t: Val, x: &Name, y: &Name, env: &Env, body: &Rc<Tm>) -> (r: Option<
    Val,
>)
    ensures
        opt_val_view(r) == split_f(fuel as nat, t@, x@, y@, env@, (**body)@),
    decreases fuel, 0nat,
{
    if fuel == 0 {
        return None;
    }
    match t {
        Val::Pair(a, b) => eval_fuel(fuel - 1, &env.extend(a.copy()).extend(b.copy()), body),
        Val::Stuck(h, mut sp) => {
            let e = Elim::Split(x.clone(), y.clone(), env.copy(), body.clone());
            proof {
                lemma_prepend_elim(sp, e);
            }
            sp.insert(0, e);
            Some(Val::Stuck(h, sp))
        },
        _ => None,
    }
}


/// A missing read-back of an inner part of the spine leaves the whole spine
/// without read-back.
proof fn lemma_quote_stuck_suffix_none(fuel: nat, lvl: nat, l: nat, sp: Seq<ElimV>, i: nat)
    requires
        i <= sp.len(),
        quote_stuck_f(fuel, lvl, l, sp.subrange(i as int, sp.len() as int)) is None,
    ensures
        quote_stuck_f(fuel, lvl, l, sp) is None,
    decreases i,
{
    if i == 0 {
        assert(sp.subrange(0, sp.len() as int) =~= sp);
    } else {
        let j = (i - 1) as nat;
        assert(sp.subrange(j as int, sp.len() as int).drop_first() =~= sp.subrange(
            i as int,
            sp.len() as int,
        ));
        lemma_quote_stuck_suffix_none(fuel, lvl, l, sp, j);
    }
}

fn quote_fuel(fuel: u64, lvl: usize, v: &Val) -> (r: Option<Tm>)
    ensures
        opt_tm_view(r) == quote_f(fuel as nat, lvl as nat, v@),
    decreases fuel, 0nat,
{
    if fuel == 0 {
        return None;
    }
    let f = fuel - 1;
    match v {
        Val::Lam(n, cl) => {
            if lvl == usize::MAX {
                return None;
            }
            match closure_apply_fuel(f, cl, Val::var(lvl)) {
                Some(body) => match quote_fuel(f, lvl + 1, &body) {
                    Some(bt) => Some(Tm::Lam(n.clone(), Rc::new(bt))),
                    None => None,
                },
                None => None,
            }
        },
        Val::Pi(m, n, dom, cod) => {
            if lvl == usize::MAX {
                return None;
            }
            match closure_apply_fuel(f, cod, Val::var(lvl)) {
                Some(body) => match quote_fuel(f, lvl, dom) {
                    Some(dt) => match quote_fuel(f, lvl + 1, &body) {
                        Some(bt) => Some(Tm::Pi(*m, n.clone(), Rc::new(dt), Rc::new(bt))),
                        None => None,
                    },
                    None => None,
                },
                None => None,
            }
        },
        Val::Tensor(m, n, dom, cod) => {
            if lvl == usize::MAX {
                return None;
            }
            match closure_apply_fuel(f, cod, Val::var(lvl)) {
                Some(body) => match quote_fuel(f, lvl, dom) {
                    Some(dt) => match quote_fuel(f, lvl + 1, &body) {
                        Some(bt) => Some(Tm::Tensor(*m, n.clone(), Rc::new(dt), Rc::new(bt))),
                        None => None,
                    },
                    None => None,
                },
                None => None,
            }
        },
        Val::Pair(a, b) => match quote_fuel(f, lvl, a) {
            Some(at) => match quote_fuel(f, lvl, b) {
                Some(bt) => Some(Tm::Pair(Rc::new(at), Rc::new(bt))),
                None => None,
            },
            None => None,
        },
        Val::With(a, b) => match quote_fuel(f, lvl, a) {
            Some(at) => match quote_fuel(f, lvl, b) {
                Some(bt) => Some(Tm::With(Rc::new(at), Rc::new(bt))),
                None => None,
            },
            None => None,
        },
        Val::WPair(a, b) => match quote_fuel(f, lvl, a) {
            Some(at) => match quote_fuel(f, lvl, b) {
                Some(bt) => Some(Tm::WPair(Rc::new(at), Rc::new(bt))),
                None => None,
            },
            None => None,
        },
        Val::U => Some(Tm::U),
        Val::Bool => Some(Tm::Bool),
        Val::True => Some(Tm::True),
        Val::False => Some(Tm::False),
        Val::Stuck(Head::Var(l), sp) => quote_stuck_fuel(f, lvl, *l, sp),
    }
}

fn quote_stuck_fuel(fuel: u64, lvl: usize, l: usize, sp: &Spine) -> (r: Option<Tm>)
    ensures
        opt_tm_view(r) == quote_stuck_f(fuel as nat, lvl as nat, l as nat, elims_view(sp@)),
    decreases fuel, sp@.len(),
{
    let ghost spv = elims_view(sp@);
    let ghost n = spv.len() as int;
    if fuel == 0 {
        return None;
    }
    if l >= lvl {
        proof {
            assert(spv.subrange(n, n) =~= Seq::<ElimV>::empty());
            lemma_quote_stuck_suffix_none(fuel as nat, lvl as nat, l as nat, spv, n as nat);
        }
        return None;
    }
    let mut acc = Tm::Var(lvl - l - 1);
    proof {
        assert(spv.subrange(n, n) =~= Seq::<ElimV>::empty());
    }
    let mut i: usize = sp.len();
    while i > 0
        invariant
            0 < fuel,
            l < lvl,
            i <= sp@.len(),
            spv == elims_view(sp@),
            n == spv.len(),
            Some(acc@) == quote_stuck_f(fuel as nat, lvl as nat, l as nat, spv.subrange(i as int, n)),
        decreases i,
    {
        proof {
            assert(spv.subrange(i - 1, n).drop_first() =~= spv.subrange(i as int, n));
            assert(spv.subrange(i - 1, n)[0] == spv[i - 1]);
        }
        match quote_elim_fuel(fuel - 1, lvl, acc, &sp[i - 1]) {
            Some(t) => {
                acc = t;
            },
            None => {
                proof {
                    lemma_quote_stuck_suffix_none(fuel as nat, lvl as nat, l as nat, spv, (i - 1) as nat);
                }
                return None;
            },
        }
        i -= 1;
    }
    proof {
        assert(spv.subrange(0, n) =~= spv);
    }
    Some(acc)
}

fn quote_elim_fuel(fuel: u64, lvl: usize, acc: Tm, e: &Elim) -> (r: Option<Tm>)
    ensures
        opt_tm_view(r) == quote_elim_f(fuel as nat, lvl as nat, acc@, e@),
    decreases fuel, 0nat,
{
    if fuel == 0 {
        return None;
    }
    let f = fuel - 1;
    match e {
        Elim::App(v) => match quote_fuel(f, lvl, v) {
            Some(vt) => Some(Tm::App(Rc::new(acc), Rc::new(vt))),
            None => None,
        },
        Elim::Fst => Some(Tm::Fst(Rc::new(acc))),
        Elim::Snd => Some(Tm::Snd(Rc::new(acc))),
        Elim::If(a, b) => match quote_fuel(f, lvl, a) {
            Some(at) => match quote_fuel(f, lvl, b) {
                Some(bt) => Some(Tm::If(Rc::new(acc), Rc::new(at), Rc::new(bt))),
                None => None,
            },
            None => None,
        },
        Elim::Split(x, y, env, body) => {
            if lvl > usize::MAX - 2 {
                return None;
            }
            let opened_env = env.extend(Val::var(lvl)).extend(Val::var(lvl + 1));
            match eval_fuel(f, &opened_env, body) {
                Some(opened) => match quote_fuel(f, lvl + 2, &opened) {
                    Some(bt) => Some(Tm::LetPair(x.clone(), y.clone(), Rc::new(acc), Rc::new(bt))),
                    None => None,
                },
                None => None,
            }
        },
    }
}

fn conv_closures_fuel(fuel: u64, lvl: usize, c1: &Closure, c2: &Closure) -> (r: Option<bool>)
    ensures
        r == conv_closures_f(fuel as nat, lvl as nat, c1@, c2@),
    decreases fuel, 1nat,
{
    if lvl == usize::MAX {
        return None;
    }
    match closure_apply_fuel(fuel, c1, Val::var(lvl)) {
        Some(x) => match closure_apply_fuel(fuel, c2, Val::var(lvl)) {
            Some(y) => conv_fuel(fuel, lvl + 1, &x, &y),
            None => None,
        },
        None => None,
    }
}

fn conv_eta_lam_fuel(fuel: u64, lvl: usize, c: &Closure, other: &Val) -> (r: Option<bool>)
    ensures
        r == conv_eta_lam_f(fuel as nat, lvl as nat, c@, other@),
    decreases fuel, 1nat,
{
    if lvl == usize::MAX {
        return None;
    }
    match closure_apply_fuel(fuel, c, Val::var(lvl)) {
        Some(x) => match apply_fuel(fuel, other.copy(), Val::var(lvl)) {
            Some(y) => conv_fuel(fuel, lvl + 1, &x, &y),
            None => None,
        },
        None => None,
    }
}

fn conv_eta_wpair_fuel(fuel: u64, lvl: usize, a: &Val, b: &Val, other: &Val) -> (r: Option<bool>)
    ensures
        r == conv_eta_wpair_f(fuel as nat, lvl as nat, a@, b@, other@),
    decreases fuel, 1nat,
{
    if !matches!(other, Val::WPair(..) | Val::Stuck(..)) {
        return None;
    }
    let o1 = do_fst(other.copy());
    match conv_fuel(fuel, lvl, a, &o1) {
        Some(true) => {
            let o2 = do_snd(other.copy());
            conv_fuel(fuel, lvl, b, &o2)
        },
        r => r,
    }
}

fn conv_fuel(fuel: u64, lvl: usize, v1: &Val, v2: &Val) -> (r: Option<bool>)
    ensures
        r == conv_f(fuel as nat, lvl as nat, v1@, v2@),
    decreases fuel, 0nat,
{
    if fuel == 0 {
        return None;
    }
    let f = fuel - 1;
    match (v1, v2) {
        (Val::U, Val::U) => Some(true),
        (Val::Bool, Val::Bool) => Some(true),
        (Val::True, Val::True) => Some(true),
        (Val::False, Val::False) => Some(true),
        (Val::Pi(m1, _, d1, c1), Val::Pi(m2, _, d2, c2)) => {
            if *m1 != *m2 {
                Some(false)
            } else {
                match conv_fuel(f, lvl, d1, d2) {
                    Some(true) => conv_closures_fuel(f, lvl, c1, c2),
                    r => r,
                }
            }
        },
        (Val::Tensor(m1, _, d1, c1), Val::Tensor(m2, _, d2, c2)) => {
            if *m1 != *m2 {
                Some(false)
            } else {
                match conv_fuel(f, lvl, d1, d2) {
                    Some(true) => conv_closures_fuel(f, lvl, c1, c2),
                    r => r,
                }
            }
        },
        (Val::With(a1, b1), Val::With(a2, b2)) => match conv_fuel(f, lvl, a1, a2) {
            Some(true) => conv_fuel(f, lvl, b1, b2),
            r => r,
        },
        (Val::Pair(a1, b1), Val::Pair(a2, b2)) => match conv_fuel(f, lvl, a1, a2) {
            Some(true) => conv_fuel(f, lvl, b1, b2),
            r => r,
        },
        (Val::WPair(a1, b1), Val::WPair(a2, b2)) => match conv_fuel(f, lvl, a1, a2) {
            Some(true) => conv_fuel(f, lvl, b1, b2),
            r => r,
        },
        (Val::Lam(_, c1), Val::Lam(_, c2)) => conv_closures_fuel(f, lvl, c1, c2),
        (Val::Lam(_, c), other) => conv_eta_lam_fuel(f, lvl, c, other),
        (other, Val::Lam(_, c)) => conv_eta_lam_fuel(f, lvl, c, other),
        (Val::WPair(a, b), other) => conv_eta_wpair_fuel(f, lvl, a, b, other),
        (other, Val::WPair(a, b)) => conv_eta_wpair_fuel(f, lvl, a, b, other),
        (Val::Stuck(Head::Var(l1), s1), Val::Stuck(Head::Var(l2), s2)) => {
            if *l1 != *l2 {
                Some(false)
            } else {
                conv_spine_fuel(f, lvl, s1, s2)
            }
        },
        _ => Some(false),
    }
}

fn conv_spine_fuel(fuel: u64, lvl: usize, s1: &Spine, s2: &Spine) -> (r: Option<bool>)
    ensures
        r == conv_spine_f(fuel as nat, lvl as nat, elims_view(s1@), elims_view(s2@)),
    decreases fuel, s1@.len() + 3,
{
    let ghost v1 = elims_view(s1@);
    let ghost v2 = elims_view(s2@);
    if s1.len() != s2.len() {
        return Some(false);
    }
    let mut i: usize = 0;
    while i < s1.len()
        invariant
            i <= s1@.len(),
            s1@.len() == s2@.len(),
            v1 == elims_view(s1@),
            v2 == elims_view(s2@),
            conv_spine_from_f(fuel as nat, lvl as nat, v1, v2, 0) == conv_spine_from_f(
                fuel as nat,
                lvl as nat,
                v1,
                v2,
                i as nat,
            ),
        decreases s1@.len() - i,
    {
        match conv_elim_fuel(fuel, lvl, &s1[i], &s2[i]) {
            Some(true) => {},
            r => {
                return r;
            },
        }
        i += 1;
    }
    Some(true)
}

fn conv_elim_fuel(fuel: u64, lvl: usize, e1: &Elim, e2: &Elim) -> (r: Option<bool>)
    ensures
        r == conv_elim_f(fuel as nat, lvl as nat, e1@, e2@),
    decreases fuel, 0nat,
{
    if fuel == 0 {
        return None;
    }
    let f = fuel - 1;
    match (e1, e2) {
        (Elim::App(x), Elim::App(y)) => conv_fuel(f, lvl, x, y),
        (Elim::Fst, Elim::Fst) => Some(true),
        (Elim::Snd, Elim::Snd) => Some(true),
        (Elim::If(a1, b1), Elim::If(a2, b2)) => match conv_fuel(f, lvl, a1, a2) {
            Some(true) => conv_fuel(f, lvl, b1, b2),
            r => r,
        },
        (Elim::Split(_, _, env1, b1), Elim::Split(_, _, env2, b2)) => {
            if lvl > usize::MAX - 2 {
                return None;
            }
            let open1 = env1.extend(Val::var(lvl)).extend(Val::var(lvl + 1));
            match eval_fuel(f, &open1, b1) {
                Some(x) => {
                    let open2 = env2.extend(Val::var(lvl)).extend(Val::var(lvl + 1));
                    match eval_fuel(f, &open2, b2) {
                        Some(y) => conv_fuel(f, lvl + 2, &x, &y),
                        None => None,
                    }
                },
                None => None,
            }
        },
        _ => Some(false),
    }
}


/// Evaluation within the public budget.
pub closed spec fn eval_spec(env: Seq<ValV>, tm: TmV) -> Option<ValV> {
    eval_f(EVAL_DEPTH as nat, env, tm)
}

/// Read-back within the public budget.
pub closed spec fn quote_spec(lvl: nat, v: ValV) -> Option<TmV> {
    quote_f(EVAL_DEPTH as nat, lvl, v)
}

/// Conversion within the public budget.
pub closed spec fn conv_spec(lvl: nat, v1: ValV, v2: ValV) -> Option<bool> {
    conv_f(EVAL_DEPTH as nat, lvl, v1, v2)
}

/// Evaluate `tm` in `env`. `None` where evaluation gets stuck (a variable
/// out of scope, applying a non-function, projecting from a non-pair,
/// branching on a non-boolean, splitting a non-tensor) or exceeds the budget.
pub fn eval(env: &Env, tm: &Tm) -> (r: Option<Val>)
    ensures
        opt_val_view(r) == eval_spec(env@, tm@),
{
    eval_fuel(EVAL_DEPTH, env, tm)
}

/// Apply a closure to a value: evaluate its body in the captured
/// environment extended with `v`.
pub fn closure_apply(cl: &Closure, v: Val) -> (r: Option<Val>)
    ensures
        opt_val_view(r) == closure_apply_f(EVAL_DEPTH as nat, cl@, v@),
{
    closure_apply_fuel(EVAL_DEPTH, cl, v)
}

/// Apply a function value: beta-reduce a lambda, or extend the spine of a
/// neutral value.
pub fn apply(f: Val, x: Val) -> (r: Option<Val>)
    ensures
        opt_val_view(r) == apply_f(EVAL_DEPTH as nat, f@, x@),
{
    apply_fuel(EVAL_DEPTH, f, x)
}

/// Tensor elimination: evaluate `body` with both components of a pair, or
/// record the split on the spine of a neutral value.
pub fn do_split(t: Val, x: &Name, y: &Name, env: &Env, body: &Rc<Tm>) -> (r: Option<Val>)
    ensures
        opt_val_view(r) == split_f(EVAL_DEPTH as nat, t@, x@, y@, env@, (**body)@),
{
    split_fuel(EVAL_DEPTH, t, x, y, env, body)
}

/// Read a value back into a term, with `lvl` variables in scope.
pub fn quote(lvl: Level, v: &Val) -> (r: Option<Tm>)
    ensures
        opt_tm_view(r) == quote_spec(lvl as nat, v@),
{
    quote_fuel(EVAL_DEPTH, lvl, v)
}

/// The normal form of `tm` in `env`: evaluate, then read back.
pub fn nf(env: &Env, tm: &Tm) -> (r: Option<Tm>)
    ensures
        opt_tm_view(r) == match eval_spec(env@, tm@) {
            Some(v) => quote_spec(env@.len(), v),
            None => None,
        },
{
    match eval(env, tm) {
        Some(v) => quote(env.len(), &v),
        None => None,
    }
}

/// Definitional equality of two values with `lvl` variables in scope.
pub fn conv(lvl: Level, v1: &Val, v2: &Val) -> (r: Option<bool>)
    ensures
        r == conv_spec(lvl as nat, v1@, v2@),
{
    conv_fuel(EVAL_DEPTH, lvl, v1, v2)
}


/// Extending an environment makes the new value the variable at index 0
/// and moves every other variable one index out.
pub proof fn lemma_extend_lookup(env: Seq<ValV>, v: ValV, ix: nat)
    ensures
        lookup_v(env.push(v), 0) == Some(v),
        lookup_v(env.push(v), ix + 1) == lookup_v(env, ix),
{
}


proof fn lemma_conv_refl_f(fuel: nat, lvl: nat, v: ValV)
    ensures
        conv_f(fuel, lvl, v, v) != Some(false),
    decreases fuel, 0nat,
{
    if fuel > 0 {
        let f = (fuel - 1) as nat;
        match v {
            ValV::Pi(_, _, d, c) => {
                lemma_conv_refl_f(f, lvl, *d);
                lemma_closures_refl_f(f, lvl, c);
            },
            ValV::Tensor(_, _, d, c) => {
                lemma_conv_refl_f(f, lvl, *d);
                lemma_closures_refl_f(f, lvl, c);
            },
            ValV::With(a, b) => {
                lemma_conv_refl_f(f, lvl, *a);
                lemma_conv_refl_f(f, lvl, *b);
            },
            ValV::Pair(a, b) => {
                lemma_conv_refl_f(f, lvl, *a);
                lemma_conv_refl_f(f, lvl, *b);
            },
            ValV::WPair(a, b) => {
                lemma_conv_refl_f(f, lvl, *a);
                lemma_conv_refl_f(f, lvl, *b);
            },
            ValV::Lam(_, c) => lemma_closures_refl_f(f, lvl, c),
            ValV::Stuck(l, sp) => {
                lemma_spine_from_refl_f(f, lvl, sp, 0);
                assert(conv_f(fuel, lvl, v, v) == conv_spine_f(f, lvl, sp, sp));
            },
            _ => {},
        }
    }
}

proof fn lemma_closures_refl_f(fuel: nat, lvl: nat, c: ClosureV)
    ensures
        conv_closures_f(fuel, lvl, c, c) != Some(false),
    decreases fuel, 1nat,
{
    if lvl + 1 <= usize::MAX {
        if let Some(x) = closure_apply_f(fuel, c, var_v(lvl)) {
            lemma_conv_refl_f(fuel, lvl + 1, x);
        }
    }
}

proof fn lemma_spine_from_refl_f(fuel: nat, lvl: nat, sp: Seq<ElimV>, i: nat)
    ensures
        conv_spine_from_f(fuel, lvl, sp, sp, i) != Some(false),
    decreases fuel, (sp.len() - i) + 2,
{
    if i < sp.len() {
        lemma_elim_refl_f(fuel, lvl, sp[i as int]);
        lemma_spine_from_refl_f(fuel, lvl, sp, i + 1);
    }
}

proof fn lemma_elim_refl_f(fuel: nat, lvl: nat, e: ElimV)
    ensures
        conv_elim_f(fuel, lvl, e, e) != Some(false),
    decreases fuel, 0nat,
{
    if fuel > 0 {
        let f = (fuel - 1) as nat;
        match e {
            ElimV::App(x) => lemma_conv_refl_f(f, lvl, x),
            ElimV::If(a, b) => {
                lemma_conv_refl_f(f, lvl, a);
                lemma_conv_refl_f(f, lvl, b);
            },
            ElimV::Split(_, _, env, body) => {
                if lvl + 2 <= usize::MAX {
                    if let Some(x) = eval_f(f, env.push(var_v(lvl)).push(var_v(lvl + 1)), body) {
                        lemma_conv_refl_f(f, lvl + 2, x);
                    }
                }
            },
            _ => {},
        }
    }
}

/// Conversion never tells a value apart from itself: comparing a value
/// with itself succeeds, or gives no answer where evaluation gets stuck or
/// the budget runs out.
pub proof fn lemma_conv_reflexive(lvl: nat, v: ValV)
    ensures
        conv_spec(lvl, v, v) != Some(false),
{
    lemma_conv_refl_f(EVAL_DEPTH as nat, lvl, v);
}

/// The public evaluation is evaluation within the budget `EVAL_DEPTH`.
pub proof fn lemma_eval_spec_budget(env: Seq<ValV>, tm: TmV)
    ensures
        eval_spec(env, tm) == eval_f(EVAL_DEPTH as nat, env, tm),
{
}

/// The public read-back is read-back within the budget `EVAL_DEPTH`.
pub proof fn lemma_quote_spec_budget(lvl: nat, v: ValV)
    ensures
        quote_spec(lvl, v) == quote_f(EVAL_DEPTH as nat, lvl, v),
{
}

/// The public conversion is conversion within the budget `EVAL_DEPTH`.
pub proof fn lemma_conv_spec_budget(lvl: nat, v1: ValV, v2: ValV)
    ensures
        conv_spec(lvl, v1, v2) == conv_f(EVAL_DEPTH as nat, lvl, v1, v2),
{
}

/// A value found within some budget is found, unchanged, within any larger one.
pub(crate) proof fn lemma_eval_mono(f1: nat, f2: nat, env: Seq<ValV>, tm: TmV)
    requires
        f1 <= f2,
        eval_f(f1, env, tm) is Some,
    ensures
        eval_f(f2, env, tm) == eval_f(f1, env, tm),
    decreases f1, 0nat,
{
    let g1 = (f1 - 1) as nat;
    let g2 = (f2 - 1) as nat;
    match tm {
        TmV::Pi(_, _, a, _) => lemma_eval_mono(g1, g2, env, *a),
        TmV::Tensor(_, _, a, _) => lemma_eval_mono(g1, g2, env, *a),
        TmV::App(fm, xm) => {
            lemma_eval_mono(g1, g2, env, *fm);
            lemma_eval_mono(g1, g2, env, *xm);
            lemma_apply_mono(g1, g2, eval_f(g1, env, *fm)->0, eval_f(g1, env, *xm)->0);
        },
        TmV::Pair(a, b) => {
            lemma_eval_mono(g1, g2, env, *a);
            lemma_eval_mono(g1, g2, env, *b);
        },
        TmV::With(a, b) => {
            lemma_eval_mono(g1, g2, env, *a);
            lemma_eval_mono(g1, g2, env, *b);
        },
        TmV::WPair(a, b) => {
            lemma_eval_mono(g1, g2, env, *a);
            lemma_eval_mono(g1, g2, env, *b);
        },
        TmV::LetPair(x, y, t, body) => {
            lemma_eval_mono(g1, g2, env, *t);
            lemma_split_mono(g1, g2, eval_f(g1, env, *t)->0, x, y, env, *body);
        },
        TmV::Fst(t) => lemma_eval_mono(g1, g2, env, *t),
        TmV::Snd(t) => lemma_eval_mono(g1, g2, env, *t),
        TmV::If(c, a, b) => {
            lemma_eval_mono(g1, g2, env, *c);
            lemma_eval_mono(g1, g2, env, *a);
            lemma_eval_mono(g1, g2, env, *b);
        },
        TmV::Let(_, _, t, body) => {
            lemma_eval_mono(g1, g2, env, *t);
            lemma_eval_mono(g1, g2, env.push(eval_f(g1, env, *t)->0), *body);
        },
        _ => {},
    }
}

/// Closure application keeps its value under a larger budget.
pub(crate) proof fn lemma_closure_apply_mono(f1: nat, f2: nat, cl: ClosureV, v: ValV)
    requires
        f1 <= f2,
        closure_apply_f(f1, cl, v) is Some,
    ensures
        closure_apply_f(f2, cl, v) == closure_apply_f(f1, cl, v),
    decreases f1, 0nat,
{
    lemma_eval_mono((f1 - 1) as nat, (f2 - 1) as nat, cl.env.push(v), cl.body);
}

/// Application keeps its value under a larger budget.
proof fn lemma_apply_mono(f1: nat, f2: nat, fv: ValV, xv: ValV)
    requires
        f1 <= f2,
        apply_f(f1, fv, xv) is Some,
    ensures
        apply_f(f2, fv, xv) == apply_f(f1, fv, xv),
    decreases f1, 0nat,
{
    if let ValV::Lam(_, cl) = fv {
        lemma_closure_apply_mono((f1 - 1) as nat, (f2 - 1) as nat, cl, xv);
    }
}

/// Tensor elimination keeps its value under a larger budget.
proof fn lemma_split_mono(
    f1: nat,
    f2: nat,
    tv: ValV,
    x: Seq<char>,
    y: Seq<char>,
    env: Seq<ValV>,
    body: TmV,
)
    requires
        f1 <= f2,
        split_f(f1, tv, x, y, env, body) is Some,
    ensures
        split_f(f2, tv, x, y, env, body) == split_f(f1, tv, x, y, env, body),
    decreases f1, 0nat,
{
    if let ValV::Pair(a, b) = tv {
        lemma_eval_mono((f1 - 1) as nat, (f2 - 1) as nat, env.push(*a).push(*b), body);
    }
}

/// A variable evaluates to its value in the environment: a defined name
/// unfolds to the value it was defined with.
pub proof fn lemma_eval_var(env: Seq<ValV>, ix: nat)
    ensures
        eval_spec(env, TmV::Var(ix)) == lookup_v(env, ix),
        eval_spec(env, TmV::Var(ix)) is Some <==> ix < env.len(),
{
}

/// A let binds the value of its bound term, and its annotation is never
/// evaluated: where the let has a value, the bound term has one and the body
/// has that same value in the environment extended by it; where the bound
/// term or the body has no value, the let has none. (The let and its body
/// can differ only where evaluating the body takes the whole budget.)
pub proof fn lemma_let_binds_value(env: Seq<ValV>, n: Seq<char>, a: TmV, t: TmV, body: TmV)
    ensures
        ({
            let let_tm = TmV::Let(n, Box::new(a), Box::new(t), Box::new(body));
            &&& eval_spec(env, t) is None ==> eval_spec(env, let_tm) is None
            &&& match eval_spec(env, t) {
                Some(tv) => {
                    &&& eval_spec(env.push(tv), body) is None ==> eval_spec(env, let_tm) is None
                    &&& eval_spec(env, let_tm) is Some ==> eval_spec(env, let_tm) == eval_spec(
                        env.push(tv),
                        body,
                    )
                },
                None => true,
            }
        }),
{
    let d = EVAL_DEPTH as nat;
    let g = (d - 1) as nat;
    if let Some(tv) = eval_f(g, env, t) {
        lemma_eval_mono(g, d, env, t);
        if eval_f(g, env.push(tv), body) is Some {
            lemma_eval_mono(g, d, env.push(tv), body);
        }
    }
}

/// Applying a closure evaluates its body in the environment it captured,
/// extended by the argument: where the application has a value it is the
/// body's, and where the body has none neither has the application.
pub proof fn lemma_closure_apply_evaluates_body(cl: ClosureV, v: ValV)
    ensures
        closure_apply_f(EVAL_DEPTH as nat, cl, v) is Some ==> closure_apply_f(
            EVAL_DEPTH as nat,
            cl,
            v,
        ) == eval_spec(cl.env.push(v), cl.body),
        eval_spec(cl.env.push(v), cl.body) is None ==> closure_apply_f(EVAL_DEPTH as nat, cl, v) is None,
{
    let d = EVAL_DEPTH as nat;
    if eval_f((d - 1) as nat, cl.env.push(v), cl.body) is Some {
        lemma_eval_mono((d - 1) as nat, d, cl.env.push(v), cl.body);
    }
}

/// Beta reduction: a lambda evaluates to a closure over the current
/// environment, and applying it to `v` evaluates its body with `v` bound:
/// where the application has a value it is the body's, and where the body
/// has none neither has the application.
pub proof fn lemma_beta(env: Seq<ValV>, n: Seq<char>, b: TmV, v: ValV)
    ensures
        eval_spec(env, TmV::Lam(n, Box::new(b))) == Some(ValV::Lam(n, ClosureV { env, body: b })),
        apply_f(EVAL_DEPTH as nat, ValV::Lam(n, ClosureV { env, body: b }), v) is Some ==> apply_f(
            EVAL_DEPTH as nat,
            ValV::Lam(n, ClosureV { env, body: b }),
            v,
        ) == eval_spec(env.push(v), b),
        eval_spec(env.push(v), b) is None ==> apply_f(
            EVAL_DEPTH as nat,
            ValV::Lam(n, ClosureV { env, body: b }),
            v,
        ) is None,
{
    let d = EVAL_DEPTH as nat;
    if eval_f((d - 2) as nat, env.push(v), b) is Some {
        lemma_eval_mono((d - 2) as nat, d, env.push(v), b);
    }
}

/// Splitting a pair binds both components, the first at index 1 and the
/// second at index 0: where the split has a value it is the body's in the
/// environment extended by both, and where the body has none neither has
/// the split.
pub proof fn lemma_split_binds_both(
    a: ValV,
    b: ValV,
    x: Seq<char>,
    y: Seq<char>,
    env: Seq<ValV>,
    body: TmV,
)
    ensures
        eval_spec(env.push(a).push(b), TmV::Var(1)) == Some(a),
        eval_spec(env.push(a).push(b), TmV::Var(0)) == Some(b),
        split_f(EVAL_DEPTH as nat, ValV::Pair(Box::new(a), Box::new(b)), x, y, env, body) is Some
            ==> split_f(EVAL_DEPTH as nat, ValV::Pair(Box::new(a), Box::new(b)), x, y, env, body)
            == eval_spec(env.push(a).push(b), body),
        eval_spec(env.push(a).push(b), body) is None ==> split_f(
            EVAL_DEPTH as nat,
            ValV::Pair(Box::new(a), Box::new(b)),
            x,
            y,
            env,
            body,
        ) is None,
{
    let d = EVAL_DEPTH as nat;
    if eval_f((d - 1) as nat, env.push(a).push(b), body) is Some {
        lemma_eval_mono((d - 1) as nat, d, env.push(a).push(b), body);
    }
}

proof fn lemma_conv_sym_f(fuel: nat, lvl: nat, v1: ValV, v2: ValV)
    ensures
        conv_f(fuel, lvl, v1, v2) == conv_f(fuel, lvl, v2, v1),
    decreases fuel, 0nat,
{
    if fuel > 0 {
        let f = (fuel - 1) as nat;
        match (v1, v2) {
            (ValV::Pi(_, _, d1, c1), ValV::Pi(_, _, d2, c2)) => {
                lemma_conv_sym_f(f, lvl, *d1, *d2);
                lemma_closures_sym_f(f, lvl, c1, c2);
            },
            (ValV::Tensor(_, _, d1, c1), ValV::Tensor(_, _, d2, c2)) => {
                lemma_conv_sym_f(f, lvl, *d1, *d2);
                lemma_closures_sym_f(f, lvl, c1, c2);
            },
            (ValV::With(a1, b1), ValV::With(a2, b2)) => {
                lemma_conv_sym_f(f, lvl, *a1, *a2);
                lemma_conv_sym_f(f, lvl, *b1, *b2);
            },
            (ValV::Pair(a1, b1), ValV::Pair(a2, b2)) => {
                lemma_conv_sym_f(f, lvl, *a1, *a2);
                lemma_conv_sym_f(f, lvl, *b1, *b2);
            },
            (ValV::WPair(a1, b1), ValV::WPair(a2, b2)) => {
                lemma_conv_sym_f(f, lvl, *a1, *a2);
                lemma_conv_sym_f(f, lvl, *b1, *b2);
            },
            (ValV::Lam(_, c1), ValV::Lam(_, c2)) => lemma_closures_sym_f(f, lvl, c1, c2),
            (ValV::Stuck(l1, s1), ValV::Stuck(l2, s2)) => {
                if s1.len() == s2.len() {
                    lemma_spine_from_sym_f(f, lvl, s1, s2, 0);
                }
                assert(conv_spine_f(f, lvl, s1, s2) == conv_spine_f(f, lvl, s2, s1));
            },
            (ValV::Lam(_, c), other) => {
                assert(conv_f(fuel, lvl, v1, v2) == conv_eta_lam_f(f, lvl, c, other));
                assert(conv_f(fuel, lvl, v2, v1) == conv_eta_lam_f(f, lvl, c, other));
            },
            (other, ValV::Lam(_, c)) => {
                assert(conv_f(fuel, lvl, v1, v2) == conv_eta_lam_f(f, lvl, c, other));
                assert(conv_f(fuel, lvl, v2, v1) == conv_eta_lam_f(f, lvl, c, other));
            },
            (ValV::WPair(a, b), other) => {
                assert(conv_f(fuel, lvl, v1, v2) == conv_eta_wpair_f(f, lvl, *a, *b, other));
                assert(conv_f(fuel, lvl, v2, v1) == conv_eta_wpair_f(f, lvl, *a, *b, other));
            },
            (other, ValV::WPair(a, b)) => {
                assert(conv_f(fuel, lvl, v1, v2) == conv_eta_wpair_f(f, lvl, *a, *b, other));
                assert(conv_f(fuel, lvl, v2, v1) == conv_eta_wpair_f(f, lvl, *a, *b, other));
            },
            _ => {},
        }
    }
}

proof fn lemma_closures_sym_f(fuel: nat, lvl: nat, c1: ClosureV, c2: ClosureV)
    ensures
        conv_closures_f(fuel, lvl, c1, c2) == conv_closures_f(fuel, lvl, c2, c1),
    decreases fuel, 1nat,
{
    if lvl + 1 <= usize::MAX {
        if let Some(x) = closure_apply_f(fuel, c1, var_v(lvl)) {
            if let Some(y) = closure_apply_f(fuel, c2, var_v(lvl)) {
                lemma_conv_sym_f(fuel, lvl + 1, x, y);
            }
        }
    }
}

proof fn lemma_spine_from_sym_f(fuel: nat, lvl: nat, s1: Seq<ElimV>, s2: Seq<ElimV>, i: nat)
    requires
        s1.len() == s2.len(),
    ensures
        conv_spine_from_f(fuel, lvl, s1, s2, i) == conv_spine_from_f(fuel, lvl, s2, s1, i),
    decreases fuel, (s1.len() - i) + 2,
{
    if i < s1.len() {
        lemma_elim_sym_f(fuel, lvl, s1[i as int], s2[i as int]);
        lemma_spine_from_sym_f(fuel, lvl, s1, s2, i + 1);
    }
}

proof fn lemma_elim_sym_f(fuel: nat, lvl: nat, e1: ElimV, e2: ElimV)
    ensures
        conv_elim_f(fuel, lvl, e1, e2) == conv_elim_f(fuel, lvl, e2, e1),
    decreases fuel, 0nat,
{
    if fuel > 0 {
        let f = (fuel - 1) as nat;
        match (e1, e2) {
            (ElimV::App(x), ElimV::App(y)) => lemma_conv_sym_f(f, lvl, x, y),
            (ElimV::If(a1, b1), ElimV::If(a2, b2)) => {
                lemma_conv_sym_f(f, lvl, a1, a2);
                lemma_conv_sym_f(f, lvl, b1, b2);
            },
            (ElimV::Split(_, _, env1, b1), ElimV::Split(_, _, env2, b2)) => {
                if lvl + 2 <= usize::MAX {
                    if let Some(x) = eval_f(f, env1.push(var_v(lvl)).push(var_v(lvl + 1)), b1) {
                        if let Some(y) = eval_f(f, env2.push(var_v(lvl)).push(var_v(lvl + 1)), b2) {
                            lemma_conv_sym_f(f, lvl + 2, x, y);
                        }
                    }
                }
            },
            _ => {},
        }
    }
}

/// Conversion is symmetric: comparing `v1` with `v2` gives the same answer
/// as comparing `v2` with `v1`, including where it gives none.
pub proof fn lemma_conv_symmetric(lvl: nat, v1: ValV, v2: ValV)
    ensures
        conv_spec(lvl, v1, v2) == conv_spec(lvl, v2, v1),
{
    lemma_conv_sym_f(EVAL_DEPTH as nat, lvl, v1, v2);
}

/// Is every variable of `t` bound, either by a binder of `t` itself or by
/// one of the `depth` variables in scope?
pub open spec fn scoped(t: TmV, depth: nat) -> bool
    decreases t,
{
    match t {
        TmV::Var(ix) => ix < depth,
        TmV::U | TmV::Bool | TmV::True | TmV::False => true,
        TmV::Pi(_, _, a, b) => scoped(*a, depth) && scoped(*b, depth + 1),
        TmV::Lam(_, b) => scoped(*b, depth + 1),
        TmV::App(f, x) => scoped(*f, depth) && scoped(*x, depth),
        TmV::Tensor(_, _, a, b) => scoped(*a, depth) && scoped(*b, depth + 1),
        TmV::Pair(a, b) => scoped(*a, depth) && scoped(*b, depth),
        TmV::LetPair(_, _, u, b) => scoped(*u, depth) && scoped(*b, depth + 2),
        TmV::With(a, b) => scoped(*a, depth) && scoped(*b, depth),
        TmV::WPair(a, b) => scoped(*a, depth) && scoped(*b, depth),
        TmV::Fst(u) => scoped(*u, depth),
        TmV::Snd(u) => scoped(*u, depth),
        TmV::If(c, a, b) => scoped(*c, depth) && scoped(*a, depth) && scoped(*b, depth),
        TmV::Let(_, a, u, b) => scoped(*a, depth) && scoped(*u, depth) && scoped(*b, depth + 1),
    }
}

proof fn lemma_quote_scoped_f(fuel: nat, lvl: nat, v: ValV)
    ensures
        quote_f(fuel, lvl, v) matches Some(t) ==> scoped(t, lvl),
    decreases fuel, 0nat,
{
    if fuel > 0 {
        let f = (fuel - 1) as nat;
        match v {
            ValV::Lam(_, cl) => {
                if let Some(b) = closure_apply_f(f, cl, var_v(lvl)) {
                    lemma_quote_scoped_f(f, lvl + 1, b);
                }
            },
            ValV::Pi(_, _, dom, cod) => {
                lemma_quote_scoped_f(f, lvl, *dom);
                if let Some(b) = closure_apply_f(f, cod, var_v(lvl)) {
                    lemma_quote_scoped_f(f, lvl + 1, b);
                }
            },
            ValV::Tensor(_, _, dom, cod) => {
                lemma_quote_scoped_f(f, lvl, *dom);
                if let Some(b) = closure_apply_f(f, cod, var_v(lvl)) {
                    lemma_quote_scoped_f(f, lvl + 1, b);
                }
            },
            ValV::Pair(a, b) => {
                lemma_quote_scoped_f(f, lvl, *a);
                lemma_quote_scoped_f(f, lvl, *b);
            },
            ValV::With(a, b) => {
                lemma_quote_scoped_f(f, lvl, *a);
                lemma_quote_scoped_f(f, lvl, *b);
            },
            ValV::WPair(a, b) => {
                lemma_quote_scoped_f(f, lvl, *a);
                lemma_quote_scoped_f(f, lvl, *b);
            },
            ValV::Stuck(l, sp) => lemma_quote_stuck_scoped_f(f, lvl, l, sp),
            _ => {},
        }
    }
}

proof fn lemma_quote_stuck_scoped_f(fuel: nat, lvl: nat, l: nat, sp: Seq<ElimV>)
    ensures
        quote_stuck_f(fuel, lvl, l, sp) matches Some(t) ==> scoped(t, lvl),
    decreases fuel, sp.len(),
{
    if fuel > 0 && sp.len() > 0 {
        lemma_quote_stuck_scoped_f(fuel, lvl, l, sp.drop_first());
        if let Some(acc) = quote_stuck_f(fuel, lvl, l, sp.drop_first()) {
            lemma_quote_elim_scoped_f((fuel - 1) as nat, lvl, acc, sp[0]);
        }
    }
}

#[verifier::spinoff_prover]
#[verifier::rlimit(60)]
proof fn lemma_quote_elim_scoped_f(fuel: nat, lvl: nat, acc: TmV, e: ElimV)
    requires
        scoped(acc, lvl),
    ensures
        quote_elim_f(fuel, lvl, acc, e) matches Some(t) ==> scoped(t, lvl),
    decreases fuel, 0nat,
{
    if fuel > 0 {
        let f = (fuel - 1) as nat;
        match e {
            ElimV::App(v) => lemma_quote_scoped_f(f, lvl, v),
            ElimV::If(a, b) => {
                lemma_quote_scoped_f(f, lvl, a);
                lemma_quote_scoped_f(f, lvl, b);
            },
            ElimV::Split(x, y, env, body) => {
                if lvl + 2 <= usize::MAX {
                    let opened = eval_f(f, env.push(var_v(lvl)).push(var_v(lvl + 1)), body);
                    if let Some(o) = opened {
                        lemma_quote_scoped_f(f, lvl + 2, o);
                        if let Some(bt) = quote_f(f, lvl + 2, o) {
                            assert(quote_elim_f(fuel, lvl, acc, e) == Some(
                                TmV::LetPair(x, y, Box::new(acc), Box::new(bt)),
                            ));
                        }
                    }
                }
            },
            _ => {},
        }
    }
}

/// What read-back returns is well scoped: every variable of the term is
/// bound by one of its own binders or is one of the `lvl` variables in
/// scope, whatever value was read back.
pub proof fn lemma_quote_scoped(lvl: nat, v: ValV)
    ensures
        quote_spec(lvl, v) matches Some(t) ==> scoped(t, lvl),
{
    lemma_quote_scoped_f(EVAL_DEPTH as nat, lvl, v);
}

/// A variable at a level in scope reads back as the de Bruijn index that
/// counts the levels after it: the innermost variable as index 0.
pub proof fn lemma_quote_var(lvl: nat, l: nat)
    requires
        l < lvl,
    ensures
        quote_spec(lvl, var_v(l)) == Some(TmV::Var((lvl - l - 1) as nat)),
{
    let d = EVAL_DEPTH as nat;
    assert(quote_stuck_f((d - 1) as nat, lvl, l, Seq::empty()) == Some(
        TmV::Var((lvl - l - 1) as nat),
    ));
    assert(quote_f(d, lvl, var_v(l)) == quote_stuck_f((d - 1) as nat, lvl, l, Seq::empty()));
}

/// Conversion tells multiplicities apart: function types, or tensor types,
/// whose binders carry different multiplicities are not convertible, and a
/// function type is never convertible with a tensor type.
pub proof fn lemma_conv_distinguishes_multiplicities(
    lvl: nat,
    m1: Mult,
    n1: Seq<char>,
    d1: ValV,
    c1: ClosureV,
    m2: Mult,
    n2: Seq<char>,
    d2: ValV,
    c2: ClosureV,
)
    ensures
        m1 != m2 ==> conv_spec(lvl, ValV::Pi(m1, n1, Box::new(d1), c1), ValV::Pi(m2, n2, Box::new(d2), c2))
            == Some(false),
        m1 != m2 ==> conv_spec(
            lvl,
            ValV::Tensor(m1, n1, Box::new(d1), c1),
            ValV::Tensor(m2, n2, Box::new(d2), c2),
        ) == Some(false),
        conv_spec(lvl, ValV::Pi(m1, n1, Box::new(d1), c1), ValV::Tensor(m2, n2, Box::new(d2), c2))
            == Some(false),
{
}

/// Projections of a with-pair: where `fst <a, b>` has a value it is the
/// value of `a`, and where `snd <a, b>` has one it is the value of `b`;
/// where either component has no value, neither projection has one.
pub proof fn lemma_projections_of_with_pair(env: Seq<ValV>, a: TmV, b: TmV)
    ensures
        ({
            let w = TmV::WPair(Box::new(a), Box::new(b));
            &&& eval_spec(env, TmV::Fst(Box::new(w))) is Some ==> eval_spec(env, TmV::Fst(Box::new(w)))
                == eval_spec(env, a)
            &&& eval_spec(env, TmV::Snd(Box::new(w))) is Some ==> eval_spec(env, TmV::Snd(Box::new(w)))
                == eval_spec(env, b)
            &&& (eval_spec(env, a) is None || eval_spec(env, b) is None) ==> eval_spec(
                env,
                TmV::Fst(Box::new(w)),
            ) is None && eval_spec(env, TmV::Snd(Box::new(w))) is None
        }),
{
    let d = EVAL_DEPTH as nat;
    let g = (d - 2) as nat;
    let w = TmV::WPair(Box::new(a), Box::new(b));
    let wv = eval_f((d - 1) as nat, env, w);
    assert(wv == match eval_f(g, env, a) {
        Some(av) => match eval_f(g, env, b) {
            Some(bv) => Some(ValV::WPair(Box::new(av), Box::new(bv))),
            None => None,
        },
        None => None,
    });
    assert(eval_f(d, env, TmV::Fst(Box::new(w))) == match wv {
        Some(v) => fst_v(v),
        None => None,
    });
    assert(eval_f(d, env, TmV::Snd(Box::new(w))) == match wv {
        Some(v) => snd_v(v),
        None => None,
    });
    if eval_f(g, env, a) is Some {
        lemma_eval_mono(g, d, env, a);
    }
    if eval_f(g, env, b) is Some {
        lemma_eval_mono(g, d, env, b);
    }
}

/// A conditional on a literal selects a branch: where `if true then a else
/// b` has a value it is the value of `a`, and where `if false then a else b`
/// has one it is the value of `b`.
pub proof fn lemma_if_selects_branch(env: Seq<ValV>, a: TmV, b: TmV)
    ensures
        eval_spec(env, TmV::If(Box::new(TmV::True), Box::new(a), Box::new(b))) is Some ==> eval_spec(
            env,
            TmV::If(Box::new(TmV::True), Box::new(a), Box::new(b)),
        ) == eval_spec(env, a),
        eval_spec(env, TmV::If(Box::new(TmV::False), Box::new(a), Box::new(b))) is Some ==> eval_spec(
            env,
            TmV::If(Box::new(TmV::False), Box::new(a), Box::new(b)),
        ) == eval_spec(env, b),
{
    let d = EVAL_DEPTH as nat;
    let g = (d - 1) as nat;
    assert(eval_f(g, env, TmV::True) == Some(ValV::True));
    assert(eval_f(g, env, TmV::False) == Some(ValV::False));
    if eval_f(g, env, a) is Some {
        lemma_eval_mono(g, d, env, a);
    }
    if eval_f(g, env, b) is Some {
        lemma_eval_mono(g, d, env, b);
    }
}

} // verus!
