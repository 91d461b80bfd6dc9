//! Normal forms: the terms that read-back produces, the law that a normal
//! form is a fixed point of normalisation, and the law that conversion finds
//! every value with a read-back equal to itself.
use crate::eval::{
    conv_closures_f, conv_elim_f, conv_f, conv_spec, conv_spine_f, conv_spine_from_f,
    lemma_closure_apply_mono, lemma_conv_spec_budget, lemma_eval_mono,
    apply_f, closure_apply_f, eval_f, eval_spec, if_v, lemma_eval_spec_budget, lemma_quote_scoped,
    lemma_quote_spec_budget, lookup_v, quote_elim_f, quote_f, quote_spec, quote_stuck_f, scoped, split_f,
    EVAL_DEPTH,
};
use crate::syntax::TmV;
use crate::value::{var_v, ClosureV, ElimV, ValV};
use vstd::prelude::*;

verus! {

/// Is `t` a normal form: introductions all the way down to neutral terms?
pub open spec fn is_nf(t: TmV) -> bool
    decreases t, 1nat,
{
    match t {
        TmV::Lam(_, b) => is_nf(*b),
        TmV::Pi(_, _, a, b) => is_nf(*a) && is_nf(*b),
        TmV::Tensor(_, _, a, b) => is_nf(*a) && is_nf(*b),
        TmV::Pair(a, b) => is_nf(*a) && is_nf(*b),
        TmV::With(a, b) => is_nf(*a) && is_nf(*b),
        TmV::WPair(a, b) => is_nf(*a) && is_nf(*b),
        TmV::U | TmV::Bool | TmV::True | TmV::False => true,
        _ => is_ne(t),
    }
}

/// Is `t` a neutral term: a variable under eliminations whose other parts
/// are normal forms?
pub open spec fn is_ne(t: TmV) -> bool
    decreases t, 0nat,
{
    match t {
        TmV::Var(_) => true,
        TmV::App(f, x) => is_ne(*f) && is_nf(*x),
        TmV::Fst(u) => is_ne(*u),
        TmV::Snd(u) => is_ne(*u),
        TmV::If(c, a, b) => is_ne(*c) && is_nf(*a) && is_nf(*b),
        TmV::LetPair(_, _, u, b) => is_ne(*u) && is_nf(*b),
        _ => false,
    }
}

/// Do the binders of `t`, opened from level `lvl` on, stay within the
/// machine's levels?
pub open spec fn levels_fit(t: TmV, lvl: nat) -> bool
    decreases t,
{
    match t {
        TmV::Var(_) | TmV::U | TmV::Bool | TmV::True | TmV::False => true,
        TmV::Pi(_, _, a, b) => lvl + 1 <= usize::MAX && levels_fit(*a, lvl) && levels_fit(*b, lvl + 1),
        TmV::Lam(_, b) => lvl + 1 <= usize::MAX && levels_fit(*b, lvl + 1),
        TmV::App(f, x) => levels_fit(*f, lvl) && levels_fit(*x, lvl),
        TmV::Tensor(_, _, a, b) => lvl + 1 <= usize::MAX && levels_fit(*a, lvl) && levels_fit(
            *b,
            lvl + 1,
        ),
        TmV::Pair(a, b) => levels_fit(*a, lvl) && levels_fit(*b, lvl),
        TmV::LetPair(_, _, u, b) => lvl + 2 <= usize::MAX && levels_fit(*u, lvl) && levels_fit(
            *b,
            lvl + 2,
        ),
        TmV::With(a, b) => levels_fit(*a, lvl) && levels_fit(*b, lvl),
        TmV::WPair(a, b) => levels_fit(*a, lvl) && levels_fit(*b, lvl),
        TmV::Fst(u) => levels_fit(*u, lvl),
        TmV::Snd(u) => levels_fit(*u, lvl),
        TmV::If(c, a, b) => levels_fit(*c, lvl) && levels_fit(*a, lvl) && levels_fit(*b, lvl),
        TmV::Let(_, a, u, b) => levels_fit(*a, lvl) && levels_fit(*u, lvl) && levels_fit(*b, lvl + 1),
    }
}

/// The number of nodes of a term.
pub open spec fn tm_size(t: TmV) -> nat
    decreases t,
{
    match t {
        TmV::Var(_) | TmV::U | TmV::Bool | TmV::True | TmV::False => 1,
        TmV::Pi(_, _, a, b) => 1 + tm_size(*a) + tm_size(*b),
        TmV::Lam(_, b) => 1 + tm_size(*b),
        TmV::App(f, x) => 1 + tm_size(*f) + tm_size(*x),
        TmV::Tensor(_, _, a, b) => 1 + tm_size(*a) + tm_size(*b),
        TmV::Pair(a, b) => 1 + tm_size(*a) + tm_size(*b),
        TmV::LetPair(_, _, u, b) => 1 + tm_size(*u) + tm_size(*b),
        TmV::With(a, b) => 1 + tm_size(*a) + tm_size(*b),
        TmV::WPair(a, b) => 1 + tm_size(*a) + tm_size(*b),
        TmV::Fst(u) => 1 + tm_size(*u),
        TmV::Snd(u) => 1 + tm_size(*u),
        TmV::If(c, a, b) => 1 + tm_size(*c) + tm_size(*a) + tm_size(*b),
        TmV::Let(_, a, u, b) => 1 + tm_size(*a) + tm_size(*u) + tm_size(*b),
    }
}

/// The environment in which each of the `n` variables in scope stands for
/// itself.
pub open spec fn id_env(n: nat) -> Seq<ValV> {
    Seq::new(n, |i: int| var_v(i as nat))
}

proof fn lemma_quote_nf_f(fuel: nat, lvl: nat, v: ValV)
    ensures
        quote_f(fuel, lvl, v) matches Some(t) ==> is_nf(t) && levels_fit(t, lvl),
    decreases fuel, 0nat,
{
    if fuel > 0 {
        let f = (fuel - 1) as nat;
        match v {
            ValV::Lam(_, cl) => {
                if let Some(b) = closure_apply_f(f, cl, var_v(lvl)) {
                    lemma_quote_nf_f(f, lvl + 1, b);
                }
            },
            ValV::Pi(_, _, dom, cod) => {
                lemma_quote_nf_f(f, lvl, *dom);
                if let Some(b) = closure_apply_f(f, cod, var_v(lvl)) {
                    lemma_quote_nf_f(f, lvl + 1, b);
                }
            },
            ValV::Tensor(_, _, dom, cod) => {
                lemma_quote_nf_f(f, lvl, *dom);
                if let Some(b) = closure_apply_f(f, cod, var_v(lvl)) {
                    lemma_quote_nf_f(f, lvl + 1, b);
                }
            },
            ValV::Pair(a, b) => {
                lemma_quote_nf_f(f, lvl, *a);
                lemma_quote_nf_f(f, lvl, *b);
            },
            ValV::With(a, b) => {
                lemma_quote_nf_f(f, lvl, *a);
                lemma_quote_nf_f(f, lvl, *b);
            },
            ValV::WPair(a, b) => {
                lemma_quote_nf_f(f, lvl, *a);
                lemma_quote_nf_f(f, lvl, *b);
            },
            ValV::Stuck(l, sp) => {
                lemma_quote_ne_f(f, lvl, l, sp);
                if let Some(t) = quote_stuck_f(f, lvl, l, sp) {
                    assert(is_ne(t));
                    assert(is_nf(t));
                }
            },
            _ => {},
        }
    }
}

proof fn lemma_quote_ne_f(fuel: nat, lvl: nat, l: nat, sp: Seq<ElimV>)
    ensures
        quote_stuck_f(fuel, lvl, l, sp) matches Some(t) ==> is_ne(t) && levels_fit(t, lvl),
    decreases fuel, sp.len(),
{
    if fuel > 0 && sp.len() > 0 {
        lemma_quote_ne_f(fuel, lvl, l, sp.drop_first());
        if let Some(acc) = quote_stuck_f(fuel, lvl, l, sp.drop_first()) {
            lemma_quote_elim_ne_f((fuel - 1) as nat, lvl, acc, sp[0]);
        }
    }
}

#[verifier::spinoff_prover]
#[verifier::rlimit(60)]
proof fn lemma_quote_elim_ne_f(fuel: nat, lvl: nat, acc: TmV, e: ElimV)
    requires
        is_ne(acc),
        levels_fit(acc, lvl),
    ensures
        quote_elim_f(fuel, lvl, acc, e) matches Some(t) ==> is_ne(t) && levels_fit(t, lvl),
    decreases fuel, 0nat,
{
    if fuel > 0 {
        let f = (fuel - 1) as nat;
        match e {
            ElimV::App(v) => lemma_quote_nf_f(f, lvl, v),
            ElimV::If(a, b) => {
                lemma_quote_nf_f(f, lvl, a);
                lemma_quote_nf_f(f, lvl, b);
            },
            ElimV::Split(x, y, env, body) => {
                if lvl + 2 <= usize::MAX {
                    let opened = eval_f(f, env.push(var_v(lvl)).push(var_v(lvl + 1)), body);
                    if let Some(o) = opened {
                        lemma_quote_nf_f(f, lvl + 2, o);
                        if let Some(bt) = quote_f(f, lvl + 2, o) {
                            assert(quote_elim_f(fuel, lvl, acc, e) == Some(
                                TmV::LetPair(x, y, Box::new(acc), Box::new(bt)),
                            ));
                        }
                    }
                }
            },
            _ => {},
        }
    }
}

/// Facts about the environment of variables that stand for themselves.
proof fn lemma_id_env(n: nat)
    ensures
        id_env(n).len() == n,
        id_env(n).push(var_v(n)) == id_env(n + 1),
        forall|ix: nat| ix < n ==> #[trigger] lookup_v(id_env(n), ix) == Some(var_v((n - 1 - ix) as nat)),
{
    assert(id_env(n).push(var_v(n)) =~= id_env(n + 1));
}

proof fn lemma_app_step(env: Seq<ValV>, n: nat, fm: TmV, xm: TmV, f1: nat, g: nat)
    requires
        f1 >= 2,
        g >= 3,
        eval_f((f1 - 1) as nat, env, fm) matches Some(ValV::Stuck(l, sp)) && quote_stuck_f(g, n, l, sp)
            == Some(fm),
        eval_f((f1 - 1) as nat, env, xm) matches Some(xv) && quote_f((g - 2) as nat, n, xv) == Some(xm),
    ensures
        eval_f(f1, env, TmV::App(Box::new(fm), Box::new(xm))) matches Some(ValV::Stuck(l, sp))
            && quote_stuck_f(g, n, l, sp) == Some(TmV::App(Box::new(fm), Box::new(xm))),
{
    if let Some(ValV::Stuck(l, sp)) = eval_f((f1 - 1) as nat, env, fm) {
        let xv = eval_f((f1 - 1) as nat, env, xm)->0;
        let sp2 = seq![ElimV::App(xv)] + sp;
        assert(sp2.drop_first() =~= sp);
        assert(sp2[0] == ElimV::App(xv));
        assert(apply_f((f1 - 1) as nat, ValV::Stuck(l, sp), xv) == Some(ValV::Stuck(l, sp2)));
        assert(quote_elim_f((g - 1) as nat, n, fm, ElimV::App(xv)) == Some(
            TmV::App(Box::new(fm), Box::new(xm)),
        ));
        assert(quote_stuck_f(g, n, l, sp2) == Some(TmV::App(Box::new(fm), Box::new(xm))));
        assert(eval_f(f1, env, TmV::App(Box::new(fm), Box::new(xm))) == Some(ValV::Stuck(l, sp2)));
    }
}

proof fn lemma_fst_step(env: Seq<ValV>, n: nat, u: TmV, f1: nat, g: nat)
    requires
        f1 >= 2,
        g >= 3,
        eval_f((f1 - 1) as nat, env, u) matches Some(ValV::Stuck(l, sp)) && quote_stuck_f(g, n, l, sp)
            == Some(u),
    ensures
        eval_f(f1, env, TmV::Fst(Box::new(u))) matches Some(ValV::Stuck(l, sp)) && quote_stuck_f(
            g,
            n,
            l,
            sp,
        ) == Some(TmV::Fst(Box::new(u))),
{
    if let Some(ValV::Stuck(l, sp)) = eval_f((f1 - 1) as nat, env, u) {
        let sp2 = seq![ElimV::Fst] + sp;
        assert(sp2.drop_first() =~= sp);
        assert(sp2[0] == ElimV::Fst);
        assert(quote_elim_f((g - 1) as nat, n, u, ElimV::Fst) == Some(TmV::Fst(Box::new(u))));
        assert(quote_stuck_f(g, n, l, sp2) == Some(TmV::Fst(Box::new(u))));
        assert(eval_f(f1, env, TmV::Fst(Box::new(u))) == Some(ValV::Stuck(l, sp2)));
    }
}

proof fn lemma_snd_step(env: Seq<ValV>, n: nat, u: TmV, f1: nat, g: nat)
    requires
        f1 >= 2,
        g >= 3,
        eval_f((f1 - 1) as nat, env, u) matches Some(ValV::Stuck(l, sp)) && quote_stuck_f(g, n, l, sp)
            == Some(u),
    ensures
        eval_f(f1, env, TmV::Snd(Box::new(u))) matches Some(ValV::Stuck(l, sp)) && quote_stuck_f(
            g,
            n,
            l,
            sp,
        ) == Some(TmV::Snd(Box::new(u))),
{
    if let Some(ValV::Stuck(l, sp)) = eval_f((f1 - 1) as nat, env, u) {
        let sp2 = seq![ElimV::Snd] + sp;
        assert(sp2.drop_first() =~= sp);
        assert(sp2[0] == ElimV::Snd);
        assert(quote_elim_f((g - 1) as nat, n, u, ElimV::Snd) == Some(TmV::Snd(Box::new(u))));
        assert(quote_stuck_f(g, n, l, sp2) == Some(TmV::Snd(Box::new(u))));
        assert(eval_f(f1, env, TmV::Snd(Box::new(u))) == Some(ValV::Stuck(l, sp2)));
    }
}

proof fn lemma_if_step(env: Seq<ValV>, n: nat, c: TmV, a: TmV, b: TmV, f1: nat, g: nat)
    requires
        f1 >= 2,
        g >= 3,
        eval_f((f1 - 1) as nat, env, c) matches Some(ValV::Stuck(l, sp)) && quote_stuck_f(g, n, l, sp)
            == Some(c),
        eval_f((f1 - 1) as nat, env, a) matches Some(av) && quote_f((g - 2) as nat, n, av) == Some(a),
        eval_f((f1 - 1) as nat, env, b) matches Some(bv) && quote_f((g - 2) as nat, n, bv) == Some(b),
    ensures
        eval_f(f1, env, TmV::If(Box::new(c), Box::new(a), Box::new(b))) matches Some(
            ValV::Stuck(l, sp),
        ) && quote_stuck_f(g, n, l, sp) == Some(TmV::If(Box::new(c), Box::new(a), Box::new(b))),
{
    if let Some(ValV::Stuck(l, sp)) = eval_f((f1 - 1) as nat, env, c) {
        let av = eval_f((f1 - 1) as nat, env, a)->0;
        let bv = eval_f((f1 - 1) as nat, env, b)->0;
        let sp2 = seq![ElimV::If(av, bv)] + sp;
        assert(sp2.drop_first() =~= sp);
        assert(sp2[0] == ElimV::If(av, bv));
        assert(quote_elim_f((g - 1) as nat, n, c, ElimV::If(av, bv)) == Some(
            TmV::If(Box::new(c), Box::new(a), Box::new(b)),
        ));
        assert(quote_stuck_f(g, n, l, sp2) == Some(TmV::If(Box::new(c), Box::new(a), Box::new(b))));
        assert(if_v(ValV::Stuck(l, sp), av, bv) == Some(ValV::Stuck(l, sp2)));
        assert(eval_f(f1, env, TmV::If(Box::new(c), Box::new(a), Box::new(b))) == Some(
            ValV::Stuck(l, sp2),
        ));
    }
}

proof fn lemma_letpair_step(
    n: nat,
    x: Seq<char>,
    y: Seq<char>,
    u: TmV,
    b: TmV,
    f1: nat,
    g: nat,
)
    requires
        f1 >= 2,
        g >= 3,
        n + 2 <= usize::MAX,
        id_env(n).push(var_v(n)).push(var_v(n + 1)) == id_env(n + 2),
        eval_f((f1 - 1) as nat, id_env(n), u) matches Some(ValV::Stuck(l, sp)) && quote_stuck_f(
            g,
            n,
            l,
            sp,
        ) == Some(u),
        eval_f((g - 2) as nat, id_env(n + 2), b) matches Some(o) && quote_f((g - 2) as nat, n + 2, o)
            == Some(b),
    ensures
        eval_f(f1, id_env(n), TmV::LetPair(x, y, Box::new(u), Box::new(b))) matches Some(
            ValV::Stuck(l, sp),
        ) && quote_stuck_f(g, n, l, sp) == Some(TmV::LetPair(x, y, Box::new(u), Box::new(b))),
{
    let env = id_env(n);
    if let Some(ValV::Stuck(l, sp)) = eval_f((f1 - 1) as nat, env, u) {
        let e = ElimV::Split(x, y, env, b);
        let sp2 = seq![e] + sp;
        assert(sp2.drop_first() =~= sp);
        assert(sp2[0] == e);
        assert(split_f((f1 - 1) as nat, ValV::Stuck(l, sp), x, y, env, b) == Some(ValV::Stuck(l, sp2)));
        assert(quote_elim_f((g - 1) as nat, n, u, e) == Some(
            TmV::LetPair(x, y, Box::new(u), Box::new(b)),
        ));
        assert(quote_stuck_f(g, n, l, sp2) == Some(TmV::LetPair(x, y, Box::new(u), Box::new(b))));
        assert(eval_f(f1, env, TmV::LetPair(x, y, Box::new(u), Box::new(b))) == Some(
            ValV::Stuck(l, sp2),
        ));
    }
}

/// A neutral term evaluates, in the environment of variables that stand for
/// themselves, to a neutral value whose read-back is the term again.
proof fn lemma_ne_round_trip(n: nat, t: TmV, f1: nat, g: nat)
    requires
        is_ne(t),
        scoped(t, n),
        levels_fit(t, n),
        f1 >= 3 * tm_size(t),
        g >= 3 * tm_size(t),
    ensures
        eval_f(f1, id_env(n), t) matches Some(ValV::Stuck(l, sp)) && quote_stuck_f(g, n, l, sp)
            == Some(t),
    decreases t, 0nat,
{
    lemma_id_env(n);
    let env = id_env(n);
    match t {
        TmV::Var(ix) => {
            let l = (n - 1 - ix) as nat;
            assert(lookup_v(env, ix) == Some(var_v(l)));
            assert(eval_f(f1, env, t) == Some(ValV::Stuck(l, Seq::<ElimV>::empty())));
            assert(quote_stuck_f(g, n, l, Seq::<ElimV>::empty()) == Some(TmV::Var(ix)));
        },
        TmV::App(fm, xm) => {
            lemma_ne_round_trip(n, *fm, (f1 - 1) as nat, g);
            lemma_nf_round_trip(n, *xm, (f1 - 1) as nat, (g - 2) as nat);
            lemma_app_step(env, n, *fm, *xm, f1, g);
        },
        TmV::Fst(u) => {
            lemma_ne_round_trip(n, *u, (f1 - 1) as nat, g);
            lemma_fst_step(env, n, *u, f1, g);
        },
        TmV::Snd(u) => {
            lemma_ne_round_trip(n, *u, (f1 - 1) as nat, g);
            lemma_snd_step(env, n, *u, f1, g);
        },
        TmV::If(c, a, b) => {
            lemma_ne_round_trip(n, *c, (f1 - 1) as nat, g);
            lemma_nf_round_trip(n, *a, (f1 - 1) as nat, (g - 2) as nat);
            lemma_nf_round_trip(n, *b, (f1 - 1) as nat, (g - 2) as nat);
            lemma_if_step(env, n, *c, *a, *b, f1, g);
        },
        TmV::LetPair(x, y, u, b) => {
            lemma_ne_round_trip(n, *u, (f1 - 1) as nat, g);
            lemma_id_env(n + 1);
            lemma_nf_round_trip(n + 2, *b, (g - 2) as nat, (g - 2) as nat);
            lemma_letpair_step(n, x, y, *u, *b, f1, g);
        },
        _ => {},
    }
}

/// A normal form evaluates, in the environment of variables that stand for
/// themselves, to a value whose read-back is the normal form again.
proof fn lemma_nf_round_trip(n: nat, t: TmV, f1: nat, f2: nat)
    requires
        is_nf(t),
        scoped(t, n),
        levels_fit(t, n),
        f1 >= 3 * tm_size(t) + 1,
        f2 >= 3 * tm_size(t) + 1,
    ensures
        eval_f(f1, id_env(n), t) matches Some(v) && quote_f(f2, n, v) == Some(t),
    decreases t, 1nat,
{
    lemma_id_env(n);
    let env = id_env(n);
    match t {
        TmV::Lam(nm, b) => {
            lemma_nf_round_trip(n + 1, *b, (f2 - 2) as nat, (f2 - 1) as nat);
        },
        TmV::Pi(_, _, a, b) => {
            lemma_nf_round_trip(n, *a, (f1 - 1) as nat, (f2 - 1) as nat);
            lemma_nf_round_trip(n + 1, *b, (f2 - 2) as nat, (f2 - 1) as nat);
        },
        TmV::Tensor(_, _, a, b) => {
            lemma_nf_round_trip(n, *a, (f1 - 1) as nat, (f2 - 1) as nat);
            lemma_nf_round_trip(n + 1, *b, (f2 - 2) as nat, (f2 - 1) as nat);
        },
        TmV::Pair(a, b) => {
            lemma_nf_round_trip(n, *a, (f1 - 1) as nat, (f2 - 1) as nat);
            lemma_nf_round_trip(n, *b, (f1 - 1) as nat, (f2 - 1) as nat);
        },
        TmV::With(a, b) => {
            lemma_nf_round_trip(n, *a, (f1 - 1) as nat, (f2 - 1) as nat);
            lemma_nf_round_trip(n, *b, (f1 - 1) as nat, (f2 - 1) as nat);
        },
        TmV::WPair(a, b) => {
            lemma_nf_round_trip(n, *a, (f1 - 1) as nat, (f2 - 1) as nat);
            lemma_nf_round_trip(n, *b, (f1 - 1) as nat, (f2 - 1) as nat);
        },
        TmV::U | TmV::Bool | TmV::True | TmV::False => {},
        _ => {
            lemma_ne_round_trip(n, t, f1, (f2 - 1) as nat);
        },
    }
}

/// A normal form is a fixed point of normalisation: where `tm` normalises
/// to `t` among `n` variables that stand for themselves, `t` normalises to
/// itself there. The bound on the size of `t` is met by every term a
/// machine can hold.
pub proof fn lemma_nf_fixed_point(n: nat, tm: TmV, t: TmV)
    requires
        match eval_spec(id_env(n), tm) {
            Some(v) => quote_spec(n, v) == Some(t),
            None => false,
        },
        3 * tm_size(t) + 1 <= EVAL_DEPTH,
    ensures
        match eval_spec(id_env(n), t) {
            Some(w) => quote_spec(n, w) == Some(t),
            None => false,
        },
{
    let d = EVAL_DEPTH as nat;
    lemma_eval_spec_budget(id_env(n), tm);
    let v = eval_spec(id_env(n), tm)->0;
    lemma_quote_spec_budget(n, v);
    lemma_quote_nf_f(d, n, v);
    lemma_quote_scoped(n, v);
    lemma_nf_round_trip(n, t, d, d);
    lemma_eval_spec_budget(id_env(n), t);
    lemma_quote_spec_budget(n, eval_f(d, id_env(n), t)->0);
}

proof fn lemma_closures_step(fuel: nat, lvl: nat, cl: ClosureV, b: ValV)
    requires
        lvl + 1 <= usize::MAX,
        closure_apply_f(fuel, cl, var_v(lvl)) == Some(b),
        conv_f(fuel, lvl + 1, b, b) == Some(true),
    ensures
        conv_closures_f(fuel, lvl, cl, cl) == Some(true),
{
}

proof fn lemma_pair_like_step(fuel: nat, lvl: nat, v: ValV, a: ValV, b: ValV)
    requires
        fuel >= 1,
        v == ValV::Pair(Box::new(a), Box::new(b)) || v == ValV::With(Box::new(a), Box::new(b))
            || v == ValV::WPair(Box::new(a), Box::new(b)),
        conv_f((fuel - 1) as nat, lvl, a, a) == Some(true),
        conv_f((fuel - 1) as nat, lvl, b, b) == Some(true),
    ensures
        conv_f(fuel, lvl, v, v) == Some(true),
{
}

proof fn lemma_binder_step(fuel: nat, lvl: nat, v: ValV, m: crate::mult::Mult, n: Seq<char>, d: ValV, c: ClosureV)
    requires
        fuel >= 1,
        v == ValV::Pi(m, n, Box::new(d), c) || v == ValV::Tensor(m, n, Box::new(d), c),
        conv_f((fuel - 1) as nat, lvl, d, d) == Some(true),
        conv_closures_f((fuel - 1) as nat, lvl, c, c) == Some(true),
    ensures
        conv_f(fuel, lvl, v, v) == Some(true),
{
}

proof fn lemma_lam_step(fuel: nat, lvl: nat, n: Seq<char>, c: ClosureV)
    requires
        fuel >= 1,
        conv_closures_f((fuel - 1) as nat, lvl, c, c) == Some(true),
    ensures
        conv_f(fuel, lvl, ValV::Lam(n, c), ValV::Lam(n, c)) == Some(true),
{
}

proof fn lemma_stuck_step(fuel: nat, lvl: nat, l: nat, sp: Seq<ElimV>)
    requires
        fuel >= 1,
        conv_spine_from_f((fuel - 1) as nat, lvl, sp, sp, 0) == Some(true),
    ensures
        conv_f(fuel, lvl, ValV::Stuck(l, sp), ValV::Stuck(l, sp)) == Some(true),
{
    assert(conv_spine_f((fuel - 1) as nat, lvl, sp, sp) == Some(true));
}

proof fn lemma_readable_conv_refl(f1: nat, f2: nat, lvl: nat, v: ValV)
    requires
        f1 <= f2,
        quote_f(f1, lvl, v) is Some,
    ensures
        conv_f(f2, lvl, v, v) == Some(true),
    decreases f1, 0nat,
{
    let g1 = (f1 - 1) as nat;
    let g2 = (f2 - 1) as nat;
    match v {
        ValV::Lam(n, cl) => {
            let b = closure_apply_f(g1, cl, var_v(lvl))->0;
            lemma_closure_apply_mono(g1, g2, cl, var_v(lvl));
            lemma_readable_conv_refl(g1, g2, lvl + 1, b);
            lemma_closures_step(g2, lvl, cl, b);
            lemma_lam_step(f2, lvl, n, cl);
        },
        ValV::Pi(m, n, dom, cod) => {
            let b = closure_apply_f(g1, cod, var_v(lvl))->0;
            lemma_closure_apply_mono(g1, g2, cod, var_v(lvl));
            lemma_readable_conv_refl(g1, g2, lvl, *dom);
            lemma_readable_conv_refl(g1, g2, lvl + 1, b);
            lemma_closures_step(g2, lvl, cod, b);
            lemma_binder_step(f2, lvl, v, m, n, *dom, cod);
        },
        ValV::Tensor(m, n, dom, cod) => {
            let b = closure_apply_f(g1, cod, var_v(lvl))->0;
            lemma_closure_apply_mono(g1, g2, cod, var_v(lvl));
            lemma_readable_conv_refl(g1, g2, lvl, *dom);
            lemma_readable_conv_refl(g1, g2, lvl + 1, b);
            lemma_closures_step(g2, lvl, cod, b);
            lemma_binder_step(f2, lvl, v, m, n, *dom, cod);
        },
        ValV::Pair(a, b) => {
            lemma_readable_conv_refl(g1, g2, lvl, *a);
            lemma_readable_conv_refl(g1, g2, lvl, *b);
            lemma_pair_like_step(f2, lvl, v, *a, *b);
        },
        ValV::With(a, b) => {
            lemma_readable_conv_refl(g1, g2, lvl, *a);
            lemma_readable_conv_refl(g1, g2, lvl, *b);
            lemma_pair_like_step(f2, lvl, v, *a, *b);
        },
        ValV::WPair(a, b) => {
            lemma_readable_conv_refl(g1, g2, lvl, *a);
            lemma_readable_conv_refl(g1, g2, lvl, *b);
            lemma_pair_like_step(f2, lvl, v, *a, *b);
        },
        ValV::Stuck(l, sp) => {
            assert(sp.subrange(0, sp.len() as int) =~= sp);
            lemma_readable_spine(g1, g2, lvl, l, sp, 0);
            lemma_stuck_step(f2, lvl, l, sp);
        },
        _ => {},
    }
}

proof fn lemma_readable_spine(g1: nat, g2: nat, lvl: nat, l: nat, sp: Seq<ElimV>, i: nat)
    requires
        g1 <= g2,
        i <= sp.len(),
        quote_stuck_f(g1, lvl, l, sp.subrange(i as int, sp.len() as int)) is Some,
    ensures
        conv_spine_from_f(g2, lvl, sp, sp, i) == Some(true),
    decreases g1, sp.len() - i + 1,
{
    if i < sp.len() {
        let suffix = sp.subrange(i as int, sp.len() as int);
        let rest = sp.subrange((i + 1) as int, sp.len() as int);
        assert(suffix.drop_first() =~= rest);
        assert(suffix[0] == sp[i as int]);
        let acc = quote_stuck_f(g1, lvl, l, rest)->0;
        lemma_readable_elim_refl((g1 - 1) as nat, g2, lvl, acc, sp[i as int]);
        lemma_readable_spine(g1, g2, lvl, l, sp, i + 1);
    }
}

proof fn lemma_readable_elim_refl(h1: nat, h2: nat, lvl: nat, acc: TmV, e: ElimV)
    requires
        h1 + 1 <= h2,
        quote_elim_f(h1, lvl, acc, e) is Some,
    ensures
        conv_elim_f(h2, lvl, e, e) == Some(true),
    decreases h1, 0nat,
{
    let f1 = (h1 - 1) as nat;
    let f2 = (h2 - 1) as nat;
    match e {
        ElimV::App(v) => lemma_readable_conv_refl(f1, f2, lvl, v),
        ElimV::If(a, b) => {
            lemma_readable_conv_refl(f1, f2, lvl, a);
            lemma_readable_conv_refl(f1, f2, lvl, b);
        },
        ElimV::Split(_, _, env, body) => {
            let env2 = env.push(var_v(lvl)).push(var_v(lvl + 1));
            let o = eval_f(f1, env2, body)->0;
            lemma_eval_mono(f1, f2, env2, body);
            lemma_readable_conv_refl(f1, f2, lvl + 2, o);
        },
        _ => {},
    }
}

/// Conversion finds every value that can be read back equal to itself:
/// where read-back of `v` succeeds, comparing `v` with itself answers that
/// they are equal.
pub proof fn lemma_conv_reflexive_readable(lvl: nat, v: ValV)
    requires
        quote_spec(lvl, v) is Some,
    ensures
        conv_spec(lvl, v, v) == Some(true),
{
    let d = EVAL_DEPTH as nat;
    lemma_quote_spec_budget(lvl, v);
    lemma_conv_spec_budget(lvl, v, v);
    lemma_readable_conv_refl(d, d, lvl, v);
}

} // verus!
