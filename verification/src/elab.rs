//! Bidirectional elaboration of surface terms into core terms, with the
//! usage accounting of quantitative type theory.
use crate::eval::{
    closure_apply, closure_apply_f, conv, conv_spec, eval, eval_spec, lemma_eval_var, lemma_quote_var, quote, quote_spec,
    EVAL_DEPTH,
};
use crate::mult::{
    last_or_zero, lemma_usage_lengths, lemma_zeros_closed, outer_of, scaled, sum_of, unit_of,
    zeros_of, Mult, Use,
};
use crate::pretty::{pretty_text, pretty_tm};
use crate::syntax::{copy_names, names_view, Index, Level, Name, Raw, RawV, Tm, TmV};
use crate::text::{nat_text, num_text};
use crate::value::{
    lemma_vals_view, lemma_vals_view_push, var_v, vals_view, ClosureV, Env, Val, ValV,
};
use std::rc::Rc;
use vstd::prelude::*;

verus! {

broadcast use lemma_vals_view;

/// The typing context: the value of each variable (for evaluation), its
/// type, and its name, outermost first.
#[derive(Debug)]
pub struct Cxt {
    pub env: Env,
    pub types: Vec<Val>,
    pub names: Vec<Name>,
}

/// The view of a typing context.
pub struct CxtV {
    pub env: Seq<ValV>,
    pub types: Seq<ValV>,
    pub names: Seq<Seq<char>>,
}

impl View for Cxt {
    type V = CxtV;

    open spec fn view(&self) -> CxtV {
        CxtV { env: self.env@, types: vals_view(self.types@), names: names_view(self.names@) }
    }
}

impl CxtV {
    /// The three components describe the same variables.
    pub open spec fn wf(self) -> bool {
        &&& self.env.len() == self.types.len()
        &&& self.names.len() == self.env.len()
    }

    /// The number of variables in scope.
    pub open spec fn level(self) -> nat {
        self.env.len()
    }

    /// The context extended with a rigid variable of type `ty`.
    pub open spec fn bind(self, n: Seq<char>, ty: ValV) -> CxtV {
        CxtV {
            env: self.env.push(var_v(self.env.len())),
            types: self.types.push(ty),
            names: self.names.push(n),
        }
    }

    /// The context extended with a definition of value `v` and type `ty`.
    pub open spec fn define(self, n: Seq<char>, v: ValV, ty: ValV) -> CxtV {
        CxtV { env: self.env.push(v), types: self.types.push(ty), names: self.names.push(n) }
    }

    /// The position (counted from the outermost) of the innermost variable named `n`.
    pub open spec fn position_of(names: Seq<Seq<char>>, n: Seq<char>) -> Option<nat>
        decreases names.len(),
    {
        if names.len() == 0 {
            None
        } else if names.last() == n {
            Some((names.len() - 1) as nat)
        } else {
            Self::position_of(names.drop_last(), n)
        }
    }

    /// The de Bruijn index and type of the innermost variable named `n`.
    pub open spec fn lookup(self, n: Seq<char>) -> Option<(nat, ValV)> {
        match Self::position_of(self.names, n) {
            Some(i) => Some(((self.names.len() - 1 - i) as nat, self.types[i as int])),
            None => None,
        }
    }
}

/// The message of an elaboration error, with the depth at which it arose.
pub open spec fn err_text(cx: CxtV, msg: Seq<char>) -> Seq<char> {
    msg + " (at depth "@ + nat_text(cx.level()) + ")"@
}

/// How a value is shown in a message: its normal form printed with the
/// context's names.
pub open spec fn show_text(cx: CxtV, v: ValV) -> Seq<char> {
    match quote_spec(cx.level(), v) {
        Some(t) => pretty_text(cx.names, t),
        None => "<no normal form>"@,
    }
}

/// The message when evaluation during elaboration does not produce a value.
pub open spec fn stuck_text() -> Seq<char> {
    "evaluation did not produce a value"@
}

/// The message for a variable used other than its multiplicity allows.
pub open spec fn mult_mismatch_text(n: Seq<char>, rho: Mult, used: Mult) -> Seq<char> {
    "variable `"@ + n + "` has multiplicity "@ + rho.text() + " but is used "@ + used.text()
}

/// Elaboration of a term denoting a type; types live in the erased fragment.
pub closed spec fn is_type_s(cx: CxtV, raw: RawV) -> Result<TmV, Seq<char>>
    decreases raw.size(), 2nat,
{
    match infer_s(cx, true, raw) {
        Err(e) => Err(e),
        Ok((tm, ty, _)) => match conv_spec(cx.level(), ty, ValV::U) {
            Some(true) => Ok(tm),
            Some(false) => Err(err_text(cx, "expected a type, found: "@ + show_text(cx, ty))),
            None => Err(err_text(cx, stuck_text())),
        },
    }
}

/// Checking of `raw` against `expected`: the core term and the usage it
/// charges to the context. `erased` marks the 0-fragment, where resource
/// discipline is suspended.
pub closed spec fn check_s(cx: CxtV, erased: bool, raw: RawV, expected: ValV) -> Result<
    (TmV, Seq<Mult>),
    Seq<char>,
>
    decreases raw.size(), 2nat,
{
    match raw {
        RawV::Lam(ns, body) => check_lam_s(cx, erased, ns, *body, expected),
        RawV::Pair(a, b) => match expected {
            ValV::Tensor(rho, _, dom, cod) => {
                let a_erased = erased || rho == Mult::Zero;
                match check_s(cx, a_erased, *a, *dom) {
                    Err(e) => Err(e),
                    Ok((a_tm, u_a)) => match eval_spec(cx.env, a_tm) {
                        None => Err(err_text(cx, stuck_text())),
                        Some(av) => match closure_apply_f(EVAL_DEPTH as nat, cod, av) {
                            None => Err(err_text(cx, stuck_text())),
                            Some(cod_at) => match check_s(cx, erased, *b, cod_at) {
                                Err(e) => Err(e),
                                Ok((b_tm, u_b)) => Ok(
                                    (
                                        TmV::Pair(Box::new(a_tm), Box::new(b_tm)),
                                        sum_of(scaled(u_a, rho), u_b),
                                    ),
                                ),
                            },
                        },
                    },
                }
            },
            other => Err(err_text(cx, "pair against non-tensor: "@ + show_text(cx, other))),
        },
        RawV::WPair(a, b) => match expected {
            ValV::With(ta, tb) => match check_s(cx, erased, *a, *ta) {
                Err(e) => Err(e),
                Ok((a_tm, u_a)) => match check_s(cx, erased, *b, *tb) {
                    Err(e) => Err(e),
                    Ok((b_tm, u_b)) => if !erased && u_a != u_b {
                        Err(err_text(cx, "with-pair components consume different resources"@))
                    } else {
                        Ok((TmV::WPair(Box::new(a_tm), Box::new(b_tm)), u_a))
                    },
                },
            },
            other => Err(err_text(cx, "with-pair against non-&: "@ + show_text(cx, other))),
        },
        RawV::If(c, a, b) => match check_s(cx, erased, *c, ValV::Bool) {
            Err(e) => Err(e),
            Ok((c_tm, u_c)) => match check_s(cx, erased, *a, expected) {
                Err(e) => Err(e),
                Ok((a_tm, u_a)) => match check_s(cx, erased, *b, expected) {
                    Err(e) => Err(e),
                    Ok((b_tm, u_b)) => if !erased && u_a != u_b {
                        Err(err_text(cx, "branches of `if` consume different resources"@))
                    } else {
                        Ok(
                            (
                                TmV::If(Box::new(c_tm), Box::new(a_tm), Box::new(b_tm)),
                                sum_of(u_c, u_a),
                            ),
                        )
                    },
                },
            },
        },
        RawV::LetPair(x, y, t, body) => check_letpair_s(cx, erased, x, y, *t, *body, expected),
        RawV::Let(n, ty, val, body) => match is_type_s(cx, *ty) {
            Err(e) => Err(e),
            Ok(ty_tm) => match eval_spec(cx.env, ty_tm) {
                None => Err(err_text(cx, stuck_text())),
                Some(ty_val) => match check_s(cx, erased, *val, ty_val) {
                    Err(e) => Err(e),
                    Ok((val_tm, u_val)) => match eval_spec(cx.env, val_tm) {
                        None => Err(err_text(cx, stuck_text())),
                        Some(val_v) => match check_s(
                            cx.define(n, val_v, ty_val),
                            erased,
                            *body,
                            expected,
                        ) {
                            Err(e) => Err(e),
                            Ok((body_tm, u_body)) => Ok(
                                (
                                    TmV::Let(
                                        n,
                                        Box::new(ty_tm),
                                        Box::new(val_tm),
                                        Box::new(body_tm),
                                    ),
                                    sum_of(
                                        outer_of(u_body),
                                        scaled(u_val, last_or_zero(u_body)),
                                    ),
                                ),
                            ),
                        },
                    },
                },
            },
        },
        _ => match infer_s(cx, erased, raw) {
            Err(e) => Err(e),
            Ok((tm, inferred, usage)) => match conv_spec(cx.level(), inferred, expected) {
                Some(true) => Ok((tm, usage)),
                Some(false) => Err(
                    err_text(
                        cx,
                        "type mismatch\n  expected: "@ + show_text(cx, expected)
                            + "\n  inferred: "@ + show_text(cx, inferred),
                    ),
                ),
                None => Err(err_text(cx, stuck_text())),
            },
        },
    }
}

/// Checking of a lambda with binders `ns` against `expected`, one binder at
/// a time; each binder's usage must fit the multiplicity of its `Pi`.
pub closed spec fn check_lam_s(
    cx: CxtV,
    erased: bool,
    ns: Seq<Seq<char>>,
    body: RawV,
    expected: ValV,
) -> Result<(TmV, Seq<Mult>), Seq<char>>
    decreases body.size(), ns.len() + 3,
{
    if ns.len() == 0 {
        check_s(cx, erased, body, expected)
    } else {
        let n = ns[0];
        match expected {
            ValV::Pi(rho, _, dom, cod) => match closure_apply_f(
                EVAL_DEPTH as nat,
                cod,
                var_v(cx.level()),
            ) {
                None => Err(err_text(cx, stuck_text())),
                Some(cod_at) => match check_lam_s(
                    cx.bind(n, *dom),
                    erased,
                    ns.drop_first(),
                    body,
                    cod_at,
                ) {
                    Err(e) => Err(e),
                    Ok((body_tm, u_body)) => {
                        let used = last_or_zero(u_body);
                        if !erased && !used.fits_in(rho) {
                            Err(err_text(cx, mult_mismatch_text(n, rho, used)))
                        } else {
                            Ok((TmV::Lam(n, Box::new(body_tm)), outer_of(u_body)))
                        }
                    },
                },
            },
            other => Err(
                err_text(
                    cx,
                    "lambda binder `"@ + n + "` against non-function: "@ + show_text(cx, other),
                ),
            ),
        }
    }
}

/// Checking of `let (x, y) = t in body`: `x` must fit the tensor's
/// multiplicity and `y` must be used exactly once.
pub closed spec fn check_letpair_s(
    cx: CxtV,
    erased: bool,
    x: Seq<char>,
    y: Seq<char>,
    t: RawV,
    body: RawV,
    expected: ValV,
) -> Result<(TmV, Seq<Mult>), Seq<char>>
    decreases t.size() + body.size(), 3nat,
{
    match infer_s(cx, erased, t) {
        Err(e) => Err(e),
        Ok((t_tm, t_ty, u_t)) => match t_ty {
            ValV::Tensor(rho, _, dom, cod) => match closure_apply_f(
                EVAL_DEPTH as nat,
                cod,
                var_v(cx.level()),
            ) {
                None => Err(err_text(cx, stuck_text())),
                Some(cod_at) => match check_s(
                    cx.bind(x, *dom).bind(y, cod_at),
                    erased,
                    body,
                    expected,
                ) {
                    Err(e) => Err(e),
                    Ok((body_tm, u_body)) => {
                        let used_y = last_or_zero(u_body);
                        let used_x = last_or_zero(outer_of(u_body));
                        if !erased && !used_x.fits_in(rho) {
                            Err(err_text(cx, mult_mismatch_text(x, rho, used_x)))
                        } else if !erased && !used_y.fits_in(Mult::One) {
                            Err(
                                err_text(
                                    cx,
                                    "variable `"@ + y + "` is linear but is used "@ + used_y.text(),
                                ),
                            )
                        } else {
                            Ok(
                                (
                                    TmV::LetPair(x, y, Box::new(t_tm), Box::new(body_tm)),
                                    sum_of(outer_of(outer_of(u_body)), u_t),
                                ),
                            )
                        }
                    },
                },
            },
            other => Err(err_text(cx, "let-pair on non-tensor: "@ + show_text(cx, other))),
        },
    }
}

/// Elaboration of the domain and codomain of a dependent binder; both live
/// in the erased fragment.
pub closed spec fn binder_type_s(cx: CxtV, x: Seq<char>, dom: RawV, body: RawV) -> Result<
    (TmV, TmV),
    Seq<char>,
>
    decreases dom.size() + body.size(), 3nat,
{
    match is_type_s(cx, dom) {
        Err(e) => Err(e),
        Ok(dom_tm) => match eval_spec(cx.env, dom_tm) {
            None => Err(err_text(cx, stuck_text())),
            Some(dom_val) => match is_type_s(cx.bind(x, dom_val), body) {
                Err(e) => Err(e),
                Ok(body_tm) => Ok((dom_tm, body_tm)),
            },
        },
    }
}

/// Inference: the core term, its type and the usage it charges.
pub closed spec fn infer_s(cx: CxtV, erased: bool, raw: RawV) -> Result<
    (TmV, ValV, Seq<Mult>),
    Seq<char>,
>
    decreases raw.size(), 1nat,
{
    let n = cx.level();
    match raw {
        RawV::Var(name) => match cx.lookup(name) {
            Some((ix, ty)) => Ok(
                (
                    TmV::Var(ix),
                    ty,
                    if erased {
                        zeros_of(n)
                    } else {
                        unit_of(n, n - 1 - ix)
                    },
                ),
            ),
            None => Err(err_text(cx, "unbound variable: "@ + name)),
        },
        RawV::U => Ok((TmV::U, ValV::U, zeros_of(n))),
        RawV::Bool => Ok((TmV::Bool, ValV::U, zeros_of(n))),
        RawV::True => Ok((TmV::True, ValV::Bool, zeros_of(n))),
        RawV::False => Ok((TmV::False, ValV::Bool, zeros_of(n))),
        RawV::Pi(m, x, dom, body) => match binder_type_s(cx, x, *dom, *body) {
            Err(e) => Err(e),
            Ok((d, b)) => Ok((TmV::Pi(m, x, Box::new(d), Box::new(b)), ValV::U, zeros_of(n))),
        },
        RawV::Tensor(m, x, dom, body) => match binder_type_s(cx, x, *dom, *body) {
            Err(e) => Err(e),
            Ok((d, b)) => Ok((TmV::Tensor(m, x, Box::new(d), Box::new(b)), ValV::U, zeros_of(n))),
        },
        RawV::With(a, b) => match is_type_s(cx, *a) {
            Err(e) => Err(e),
            Ok(a_tm) => match is_type_s(cx, *b) {
                Err(e) => Err(e),
                Ok(b_tm) => Ok((TmV::With(Box::new(a_tm), Box::new(b_tm)), ValV::U, zeros_of(n))),
            },
        },
        RawV::App(f, x) => match infer_s(cx, erased, *f) {
            Err(e) => Err(e),
            Ok((f_tm, f_ty, u_f)) => match f_ty {
                ValV::Pi(rho, _, dom, cod) => {
                    let arg_erased = erased || rho == Mult::Zero;
                    match check_s(cx, arg_erased, *x, *dom) {
                        Err(e) => Err(e),
                        Ok((x_tm, u_x)) => match eval_spec(cx.env, x_tm) {
                            None => Err(err_text(cx, stuck_text())),
                            Some(xv) => match closure_apply_f(EVAL_DEPTH as nat, cod, xv) {
                                None => Err(err_text(cx, stuck_text())),
                                Some(res_ty) => Ok(
                                    (
                                        TmV::App(Box::new(f_tm), Box::new(x_tm)),
                                        res_ty,
                                        sum_of(u_f, scaled(u_x, rho)),
                                    ),
                                ),
                            },
                        },
                    }
                },
                other => Err(err_text(cx, "applying non-function: "@ + show_text(cx, other))),
            },
        },
        RawV::Fst(t) => match infer_s(cx, erased, *t) {
            Err(e) => Err(e),
            Ok((t_tm, t_ty, u_t)) => match t_ty {
                ValV::With(a, _) => Ok((TmV::Fst(Box::new(t_tm)), *a, u_t)),
                other => Err(err_text(cx, "fst on non-&: "@ + show_text(cx, other))),
            },
        },
        RawV::Snd(t) => match infer_s(cx, erased, *t) {
            Err(e) => Err(e),
            Ok((t_tm, t_ty, u_t)) => match t_ty {
                ValV::With(_, b) => Ok((TmV::Snd(Box::new(t_tm)), *b, u_t)),
                other => Err(err_text(cx, "snd on non-&: "@ + show_text(cx, other))),
            },
        },
        RawV::Let(name, ty, val, body) => match is_type_s(cx, *ty) {
            Err(e) => Err(e),
            Ok(ty_tm) => match eval_spec(cx.env, ty_tm) {
                None => Err(err_text(cx, stuck_text())),
                Some(ty_val) => match check_s(cx, erased, *val, ty_val) {
                    Err(e) => Err(e),
                    Ok((val_tm, u_val)) => match eval_spec(cx.env, val_tm) {
                        None => Err(err_text(cx, stuck_text())),
                        Some(val_v) => match infer_s(
                            cx.define(name, val_v, ty_val),
                            erased,
                            *body,
                        ) {
                            Err(e) => Err(e),
                            Ok((body_tm, body_ty, u_body)) => Ok(
                                (
                                    TmV::Let(
                                        name,
                                        Box::new(ty_tm),
                                        Box::new(val_tm),
                                        Box::new(body_tm),
                                    ),
                                    body_ty,
                                    sum_of(
                                        outer_of(u_body),
                                        scaled(u_val, last_or_zero(u_body)),
                                    ),
                                ),
                            ),
                        },
                    },
                },
            },
        },
        RawV::Ann(t, ty) => match is_type_s(cx, *ty) {
            Err(e) => Err(e),
            Ok(ty_tm) => match eval_spec(cx.env, ty_tm) {
                None => Err(err_text(cx, stuck_text())),
                Some(ty_val) => match check_s(cx, erased, *t, ty_val) {
                    Err(e) => Err(e),
                    Ok((t_tm, usage)) => Ok((t_tm, ty_val, usage)),
                },
            },
        },
        RawV::Lam(..) => Err(err_text(cx, "cannot infer a lambda; add a type annotation"@)),
        RawV::Pair(..) | RawV::WPair(..) | RawV::If(..) | RawV::LetPair(..) => Err(
            err_text(cx, "cannot infer this form; add a type annotation"@),
        ),
    }
}


impl Default for Cxt {
    /// The empty context.
    fn default() -> (r: Self)
        ensures
            r@ == (CxtV { env: Seq::empty(), types: Seq::empty(), names: Seq::empty() }),
    {
        let r = Cxt { env: Env(Vec::new()), types: Vec::new(), names: Vec::new() };
        proof {
            assert(names_view(r.names@) =~= Seq::<Seq<char>>::empty());
        }
        r
    }
}

impl Cxt {
    /// Whether the values, types and names describe the same variables.
    pub fn is_wf(&self) -> (r: bool)
        ensures
            r == self@.wf(),
    {
        self.env.len() == self.types.len() && self.names.len() == self.env.len()
    }

    /// The number of variables in scope.
    pub fn level(&self) -> (r: Level)
        ensures
            r == self@.level(),
    {
        self.env.len()
    }

    /// A copy with the same view.
    pub fn copy(&self) -> (r: Self)
        ensures
            r@ == self@,
    {
        Cxt { env: self.env.copy(), types: crate::value::copy_vals(&self.types), names: copy_names(&self.names) }
    }

    /// Introduce a fresh rigid variable of type `ty`.
    pub fn bind(&self, n: Name, ty: Val) -> (r: Self)
        ensures
            r@ == self@.bind(n@, ty@),
    {
        let mut cx = self.copy();
        let lvl = cx.env.len();
        let ghost old_env = cx.env.0@;
        let ghost old_types = cx.types@;
        let ghost old_names = cx.names@;
        let v = Val::var(lvl);
        proof {
            lemma_vals_view_push(old_env, v);
            lemma_vals_view_push(old_types, ty);
        }
        cx.env.0.push(v);
        cx.types.push(ty);
        cx.names.push(n);
        proof {
            assert(names_view(cx.names@) =~= names_view(old_names).push(n@));
        }
        cx
    }

    /// Introduce a definition that unfolds to `v` during evaluation.
    pub fn define(&self, n: Name, v: Val, ty: Val) -> (r: Self)
        ensures
            r@ == self@.define(n@, v@, ty@),
    {
        let mut cx = self.copy();
        let ghost old_env = cx.env.0@;
        let ghost old_types = cx.types@;
        let ghost old_names = cx.names@;
        proof {
            lemma_vals_view_push(old_env, v);
            lemma_vals_view_push(old_types, ty);
        }
        cx.env.0.push(v);
        cx.types.push(ty);
        cx.names.push(n);
        proof {
            assert(names_view(cx.names@) =~= names_view(old_names).push(n@));
        }
        cx
    }

    /// The de Bruijn index and the type of the innermost variable named `n`.
    pub fn lookup(&self, n: &Name) -> (r: Option<(Index, Val)>)
        requires
            self@.types.len() >= self@.names.len(),
        ensures
            match r {
                Some((ix, ty)) => self@.lookup(n@) == Some((ix as nat, ty@)) && ix < self@.names.len(),
                None => self@.lookup(n@) is None,
            },
    {
        let ghost names = self@.names;
        let mut i = self.names.len();
        proof {
            assert(names.take(i as int) =~= names);
        }
        while i > 0
            invariant
                i <= names.len(),
                names == names_view(self.names@),
                names.len() == self.names@.len(),
                self@.types.len() >= self@.names.len(),
                CxtV::position_of(names, n@) == CxtV::position_of(names.take(i as int), n@),
            decreases i,
        {
            proof {
                assert(names.take(i as int).drop_last() =~= names.take(i - 1));
                assert(names.take(i as int).last() == self.names@[i - 1]@);
                assert(self.types@.len() == self@.types.len());
            }
            if self.names[i - 1] == *n {
                let k = self.names.len() - i;
                return Some((k, self.types[i - 1].copy()));
            }
            i -= 1;
        }
        None
    }
}

impl Clone for Cxt {
    fn clone(&self) -> (r: Self)
        ensures
            r@ == self@,
    {
        self.copy()
    }
}

/// The result of checking, viewed.
pub open spec fn check_view(r: Result<(Tm, Use), String>) -> Result<(TmV, Seq<Mult>), Seq<char>> {
    match r {
        Ok((tm, u)) => Ok((tm@, u@)),
        Err(e) => Err(e@),
    }
}

/// The result of inference, viewed.
pub open spec fn infer_view(r: Result<(Tm, Val, Use), String>) -> Result<
    (TmV, ValV, Seq<Mult>),
    Seq<char>,
> {
    match r {
        Ok((tm, ty, u)) => Ok((tm@, ty@, u@)),
        Err(e) => Err(e@),
    }
}

/// The result of elaborating a type, viewed.
pub open spec fn tm_view(r: Result<Tm, String>) -> Result<TmV, Seq<char>> {
    match r {
        Ok(tm) => Ok(tm@),
        Err(e) => Err(e@),
    }
}

fn err(cx: &Cxt, msg: String) -> (r: String)
    ensures
        r@ == err_text(cx@, msg@),
{
    let mut s = msg;
    s.append(" (at depth ");
    s.append(num_text(cx.level() as u64).as_str());
    s.append(")");
    s
}

fn show(cx: &Cxt, v: &Val) -> (r: String)
    ensures
        r@ == show_text(cx@, v@),
{
    match quote(cx.level(), v) {
        Some(t) => pretty_tm(cx.names.as_slice(), &t),
        None => "<no normal form>".to_owned(),
    }
}

pub(crate) fn stuck(cx: &Cxt) -> (r: String)
    ensures
        r@ == err_text(cx@, stuck_text()),
{
    err(cx, "evaluation did not produce a value".to_owned())
}

/// `prefix` followed by the shown value, as an elaboration error.
fn err_show(cx: &Cxt, prefix: &str, v: &Val) -> (r: String)
    ensures
        r@ == err_text(cx@, prefix@ + show_text(cx@, v@)),
{
    let mut s = prefix.to_owned();
    s.append(show(cx, v).as_str());
    err(cx, s)
}

fn mult_mismatch(n: &Name, rho: Mult, used: Mult) -> (r: String)
    ensures
        r@ == mult_mismatch_text(n@, rho, used),
{
    let mut s = "variable `".to_owned();
    s.append(n.as_str());
    s.append("` has multiplicity ");
    s.append(rho.to_text().as_str());
    s.append(" but is used ");
    s.append(used.to_text().as_str());
    s
}

/// Usage vectors equal as vectors have equal views.
fn use_eq(a: &Use, b: &Use) -> (r: bool)
    ensures
        r == (a@ == b@),
{
    if a.0.len() != b.0.len() {
        return false;
    }
    let mut i: usize = 0;
    while i < a.0.len()
        invariant
            i <= a@.len(),
            a@.len() == b@.len(),
            forall|j: int| 0 <= j < i ==> a@[j] == b@[j],
        decreases a@.len() - i,
    {
        if a.0[i] != b.0[i] {
            return false;
        }
        i += 1;
    }
    assert(a@ =~= b@);
    true
}



/// Elaborate a term expected to denote a type. Types live in the erased
/// fragment, so usage is discarded.
pub fn is_type(cx: &Cxt, raw: &Raw) -> (r: Result<Tm, String>)
    requires
        cx@.wf(),
    ensures
        tm_view(r) == is_type_s(cx@, raw@),
    decreases raw@.size(), 2nat,
{
    let (tm, ty, _) = match infer(cx, true, raw) {
        Ok(t) => t,
        Err(e) => return Err(e),
    };
    match conv(cx.level(), &ty, &Val::U) {
        Some(true) => Ok(tm),
        Some(false) => Err(err_show(cx, "expected a type, found: ", &ty)),
        None => Err(stuck(cx)),
    }
}

/// Check `raw` against `expected`, returning the elaborated core term and
/// the usage it charges to the context. `erased` marks the 0-fragment,
/// where resource discipline is suspended. The usage has one entry per
/// variable in scope, and in the erased fragment every entry is zero.
pub fn check(cx: &Cxt, erased: bool, raw: &Raw, expected: &Val) -> (r: Result<(Tm, Use), String>)
    requires
        cx@.wf(),
    ensures
        check_view(r) == check_s(cx@, erased, raw@, expected@),
        r matches Ok((_, u)) ==> u@.len() == cx@.level(),
        r matches Ok((_, u)) ==> (erased ==> u@ == zeros_of(cx@.level())),
    decreases raw@.size(), 2nat,
{
    let ghost n = cx@.level();
    match raw {
        Raw::Lam(ns, body) => {
            proof {
                assert(names_view(ns@).subrange(0, ns@.len() as int) =~= names_view(ns@));
            }
            check_lam(cx, erased, ns, 0, body, expected)
        },
        Raw::Pair(a, b) => match expected {
            Val::Tensor(rho, _, dom, cod) => {
                let a_erased = erased || *rho == Mult::Zero;
                let (a_tm, u_a) = match check(cx, a_erased, a, dom) {
                    Ok(p) => p,
                    Err(e) => return Err(e),
                };
                let av = match eval(&cx.env, &a_tm) {
                    Some(v) => v,
                    None => return Err(stuck(cx)),
                };
                let cod_at = match closure_apply(cod, av) {
                    Some(v) => v,
                    None => return Err(stuck(cx)),
                };
                let (b_tm, u_b) = match check(cx, erased, b, &cod_at) {
                    Ok(p) => p,
                    Err(e) => return Err(e),
                };
                let usage = u_a.scale(*rho).add(&u_b);
                proof {
                    lemma_usage_lengths(scaled(u_a@, *rho), u_b@, *rho);
                    lemma_usage_lengths(u_a@, u_b@, *rho);
                    lemma_zeros_closed(n, *rho);
                }
                Ok((Tm::Pair(Rc::new(a_tm), Rc::new(b_tm)), usage))
            },
            other => Err(err_show(cx, "pair against non-tensor: ", other)),
        },
        Raw::WPair(a, b) => match expected {
            Val::With(ta, tb) => {
                let (a_tm, u_a) = match check(cx, erased, a, ta) {
                    Ok(p) => p,
                    Err(e) => return Err(e),
                };
                let (b_tm, u_b) = match check(cx, erased, b, tb) {
                    Ok(p) => p,
                    Err(e) => return Err(e),
                };
                if !erased && !use_eq(&u_a, &u_b) {
                    return Err(
                        err(cx, "with-pair components consume different resources".to_owned()),
                    );
                }
                Ok((Tm::WPair(Rc::new(a_tm), Rc::new(b_tm)), u_a))
            },
            other => Err(err_show(cx, "with-pair against non-&: ", other)),
        },
        Raw::If(c, a, b) => {
            let (c_tm, u_c) = match check(cx, erased, c, &Val::Bool) {
                Ok(p) => p,
                Err(e) => return Err(e),
            };
            let (a_tm, u_a) = match check(cx, erased, a, expected) {
                Ok(p) => p,
                Err(e) => return Err(e),
            };
            let (b_tm, u_b) = match check(cx, erased, b, expected) {
                Ok(p) => p,
                Err(e) => return Err(e),
            };
            if !erased && !use_eq(&u_a, &u_b) {
                return Err(err(cx, "branches of `if` consume different resources".to_owned()));
            }
            let usage = u_c.add(&u_a);
            proof {
                lemma_usage_lengths(u_c@, u_a@, Mult::One);
                lemma_zeros_closed(n, Mult::One);
            }
            Ok((Tm::If(Rc::new(c_tm), Rc::new(a_tm), Rc::new(b_tm)), usage))
        },
        Raw::LetPair(x, y, t, body) => check_letpair(cx, erased, x, y, t, body, expected),
        Raw::Let(nm, ty, val, body) => {
            let ty_tm = match is_type(cx, ty) {
                Ok(t) => t,
                Err(e) => return Err(e),
            };
            let ty_val = match eval(&cx.env, &ty_tm) {
                Some(v) => v,
                None => return Err(stuck(cx)),
            };
            let (val_tm, u_val) = match check(cx, erased, val, &ty_val) {
                Ok(p) => p,
                Err(e) => return Err(e),
            };
            let val_v = match eval(&cx.env, &val_tm) {
                Some(v) => v,
                None => return Err(stuck(cx)),
            };
            let cx2 = cx.define(nm.clone(), val_v, ty_val);
            let (body_tm, u_body) = match check(&cx2, erased, body, expected) {
                Ok(p) => p,
                Err(e) => return Err(e),
            };
            let ghost ub = u_body@;
            let (rho_x, u_outer) = u_body.pop();
            let usage = u_outer.add(&u_val.scale(rho_x));
            proof {
                lemma_usage_lengths(ub, ub, rho_x);
                lemma_usage_lengths(u_outer@, scaled(u_val@, rho_x), rho_x);
                lemma_usage_lengths(u_val@, u_val@, rho_x);
                lemma_zeros_closed(n, rho_x);
            }
            Ok((Tm::Let(nm.clone(), Rc::new(ty_tm), Rc::new(val_tm), Rc::new(body_tm)), usage))
        },
        _ => {
            let (tm, inferred, usage) = match infer(cx, erased, raw) {
                Ok(t) => t,
                Err(e) => return Err(e),
            };
            match conv(cx.level(), &inferred, expected) {
                Some(true) => Ok((tm, usage)),
                Some(false) => {
                    let mut s = "type mismatch\n  expected: ".to_owned();
                    s.append(show(cx, expected).as_str());
                    s.append("\n  inferred: ");
                    s.append(show(cx, &inferred).as_str());
                    Err(err(cx, s))
                },
                None => Err(stuck(cx)),
            }
        },
    }
}

/// Check a lambda whose binders are `ns[i..]` against `expected`.
fn check_lam(
    cx: &Cxt,
    erased: bool,
    ns: &Vec<Name>,
    i: usize,
    body: &Raw,
    expected: &Val,
) -> (r: Result<(Tm, Use), String>)
    requires
        cx@.wf(),
        i <= ns@.len(),
    ensures
        check_view(r) == check_lam_s(
            cx@,
            erased,
            names_view(ns@).subrange(i as int, ns@.len() as int),
            body@,
            expected@,
        ),
        r matches Ok((_, u)) ==> u@.len() == cx@.level(),
        r matches Ok((_, u)) ==> (erased ==> u@ == zeros_of(cx@.level())),
    decreases body@.size(), (ns@.len() - i) + 3,
{
    let ghost rest = names_view(ns@).subrange(i as int, ns@.len() as int);
    if i >= ns.len() {
        return check(cx, erased, body, expected);
    }
    let n = &ns[i];
    proof {
        assert(rest[0] == n@);
        assert(rest.drop_first() =~= names_view(ns@).subrange(i + 1, ns@.len() as int));
    }
    match expected {
        Val::Pi(rho, _, dom, cod) => {
            let lvl = cx.level();
            let cod_at = match closure_apply(cod, Val::var(lvl)) {
                Some(v) => v,
                None => return Err(stuck(cx)),
            };
            let cx2 = cx.bind(n.clone(), dom.copy());
            let (body_tm, u_body) = match check_lam(&cx2, erased, ns, i + 1, body, &cod_at) {
                Ok(p) => p,
                Err(e) => return Err(e),
            };
            let ghost ub = u_body@;
            let (used, u_outer) = u_body.pop();
            proof {
                lemma_usage_lengths(ub, ub, Mult::One);
                lemma_zeros_closed(cx@.level(), Mult::One);
            }
            if !erased && !used.fits(*rho) {
                return Err(err(cx, mult_mismatch(n, *rho, used)));
            }
            Ok((Tm::Lam(n.clone(), Rc::new(body_tm)), u_outer))
        },
        other => {
            let mut s = "lambda binder `".to_owned();
            s.append(n.as_str());
            s.append("` against non-function: ");
            s.append(show(cx, other).as_str());
            Err(err(cx, s))
        },
    }
}

fn check_letpair(
    cx: &Cxt,
    erased: bool,
    x: &Name,
    y: &Name,
    t: &Raw,
    body: &Raw,
    expected: &Val,
) -> (r: Result<(Tm, Use), String>)
    requires
        cx@.wf(),
    ensures
        check_view(r) == check_letpair_s(cx@, erased, x@, y@, t@, body@, expected@),
        r matches Ok((_, u)) ==> u@.len() == cx@.level(),
        r matches Ok((_, u)) ==> (erased ==> u@ == zeros_of(cx@.level())),
    decreases t@.size() + body@.size(), 3nat,
{
    let ghost n = cx@.level();
    let (t_tm, t_ty, u_t) = match infer(cx, erased, t) {
        Ok(p) => p,
        Err(e) => return Err(e),
    };
    match t_ty {
        Val::Tensor(rho, _, dom, cod) => {
            let lvl = cx.level();
            let cod_at = match closure_apply(&cod, Val::var(lvl)) {
                Some(v) => v,
                None => return Err(stuck(cx)),
            };
            let cx1 = cx.bind(x.clone(), dom.copy());
            let cx2 = cx1.bind(y.clone(), cod_at);
            let (body_tm, u_body) = match check(&cx2, erased, body, expected) {
                Ok(p) => p,
                Err(e) => return Err(e),
            };
            let ghost ub = u_body@;
            let (used_x, used_y, u_outer) = u_body.pop2();
            proof {
                lemma_usage_lengths(ub, ub, Mult::One);
                lemma_usage_lengths(outer_of(ub), ub, Mult::One);
                lemma_usage_lengths(u_outer@, u_t@, Mult::One);
                lemma_zeros_closed(n, Mult::One);
                lemma_zeros_closed(n + 1, Mult::One);
            }
            if !erased && !used_x.fits(rho) {
                return Err(err(cx, mult_mismatch(x, rho, used_x)));
            }
            if !erased && !used_y.fits(Mult::One) {
                let mut s = "variable `".to_owned();
                s.append(y.as_str());
                s.append("` is linear but is used ");
                s.append(used_y.to_text().as_str());
                return Err(err(cx, s));
            }
            let usage = u_outer.add(&u_t);
            Ok((Tm::LetPair(x.clone(), y.clone(), Rc::new(t_tm), Rc::new(body_tm)), usage))
        },
        other => Err(err_show(cx, "let-pair on non-tensor: ", &other)),
    }
}

/// Elaborate the domain and codomain of a dependent binder (`Pi` or
/// `Tensor`). Both live in the erased fragment, so no usage is charged.
fn binder_type(cx: &Cxt, x: &Name, dom: &Raw, body: &Raw) -> (r: Result<(Rc<Tm>, Rc<Tm>), String>)
    requires
        cx@.wf(),
    ensures
        match r {
            Ok((d, b)) => binder_type_s(cx@, x@, dom@, body@) == Ok::<(TmV, TmV), Seq<char>>(
                ((*d)@, (*b)@),
            ),
            Err(e) => binder_type_s(cx@, x@, dom@, body@) == Err::<(TmV, TmV), Seq<char>>(e@),
        },
    decreases dom@.size() + body@.size(), 3nat,
{
    let dom_tm = match is_type(cx, dom) {
        Ok(t) => t,
        Err(e) => return Err(e),
    };
    let dom_val = match eval(&cx.env, &dom_tm) {
        Some(v) => v,
        None => return Err(stuck(cx)),
    };
    let body_tm = match is_type(&cx.bind(x.clone(), dom_val), body) {
        Ok(t) => t,
        Err(e) => return Err(e),
    };
    Ok((Rc::new(dom_tm), Rc::new(body_tm)))
}

/// Inference for an application `f x`.
fn infer_app(cx: &Cxt, erased: bool, raw: &Raw) -> (r: Result<(Tm, Val, Use), String>)
    requires
        cx@.wf(),
        raw is App,
    ensures
        infer_view(r) == infer_s(cx@, erased, raw@),
        r matches Ok((_, _, u)) ==> u@.len() == cx@.level(),
        r matches Ok((_, _, u)) ==> (erased ==> u@ == zeros_of(cx@.level())),
    decreases raw@.size(), 0nat,
{
    let n = cx.level();
    let (f, x) = match raw {
        Raw::App(f, x) => (f, x),
        _ => {
            proof {
                assert(false);
            }
            return Err(String::new());
        },
    };
    let (f_tm, f_ty, u_f) = match infer(cx, erased, f) {
        Ok(p) => p,
        Err(e) => return Err(e),
    };
    match f_ty {
        Val::Pi(rho, _, dom, cod) => {
            let arg_erased = erased || rho == Mult::Zero;
            let (x_tm, u_x) = match check(cx, arg_erased, x, &dom) {
                Ok(p) => p,
                Err(e) => return Err(e),
            };
            let xv = match eval(&cx.env, &x_tm) {
                Some(v) => v,
                None => return Err(stuck(cx)),
            };
            let res_ty = match closure_apply(&cod, xv) {
                Some(v) => v,
                None => return Err(stuck(cx)),
            };
            let usage = u_f.add(&u_x.scale(rho));
            proof {
                lemma_usage_lengths(u_f@, scaled(u_x@, rho), rho);
                lemma_usage_lengths(u_x@, u_x@, rho);
                lemma_zeros_closed(n as nat, rho);
            }
            Ok((Tm::App(Rc::new(f_tm), Rc::new(x_tm)), res_ty, usage))
        },
        other => Err(err_show(cx, "applying non-function: ", &other)),
    }
}

/// Inference for a projection `fst t` or `snd t`.
fn infer_proj(cx: &Cxt, erased: bool, raw: &Raw) -> (r: Result<(Tm, Val, Use), String>)
    requires
        cx@.wf(),
        raw is Fst || raw is Snd,
    ensures
        infer_view(r) == infer_s(cx@, erased, raw@),
        r matches Ok((_, _, u)) ==> u@.len() == cx@.level(),
        r matches Ok((_, _, u)) ==> (erased ==> u@ == zeros_of(cx@.level())),
    decreases raw@.size(), 0nat,
{
    match raw {
        Raw::Fst(t) => {
            let (t_tm, t_ty, u_t) = match infer(cx, erased, t) {
                Ok(p) => p,
                Err(e) => return Err(e),
            };
            match t_ty {
                Val::With(a, _) => Ok((Tm::Fst(Rc::new(t_tm)), a.copy(), u_t)),
                other => Err(err_show(cx, "fst on non-&: ", &other)),
            }
        },
        Raw::Snd(t) => {
            let (t_tm, t_ty, u_t) = match infer(cx, erased, t) {
                Ok(p) => p,
                Err(e) => return Err(e),
            };
            match t_ty {
                Val::With(_, b) => Ok((Tm::Snd(Rc::new(t_tm)), b.copy(), u_t)),
                other => Err(err_show(cx, "snd on non-&: ", &other)),
            }
        },
        _ => {
            proof {
                assert(false);
            }
            Err(String::new())
        },
    }
}

/// Inference for the type formers `Pi`, `Tensor` and `&`.
fn infer_former(cx: &Cxt, erased: bool, raw: &Raw) -> (r: Result<(Tm, Val, Use), String>)
    requires
        cx@.wf(),
        raw is Pi || raw is Tensor || raw is With,
    ensures
        infer_view(r) == infer_s(cx@, erased, raw@),
        r matches Ok((_, _, u)) ==> u@.len() == cx@.level(),
        r matches Ok((_, _, u)) ==> (erased ==> u@ == zeros_of(cx@.level())),
    decreases raw@.size(), 0nat,
{
    let n = cx.level();
    match raw {
        Raw::Pi(m, x, dom, body) => {
            let (d, b) = match binder_type(cx, x, dom, body) {
                Ok(p) => p,
                Err(e) => return Err(e),
            };
            Ok((Tm::Pi(*m, x.clone(), d, b), Val::U, Use::zeros(n)))
        },
        Raw::Tensor(m, x, dom, body) => {
            let (d, b) = match binder_type(cx, x, dom, body) {
                Ok(p) => p,
                Err(e) => return Err(e),
            };
            Ok((Tm::Tensor(*m, x.clone(), d, b), Val::U, Use::zeros(n)))
        },
        Raw::With(a, b) => {
            let a_tm = match is_type(cx, a) {
                Ok(t) => t,
                Err(e) => return Err(e),
            };
            let b_tm = match is_type(cx, b) {
                Ok(t) => t,
                Err(e) => return Err(e),
            };
            Ok((Tm::With(Rc::new(a_tm), Rc::new(b_tm)), Val::U, Use::zeros(n)))
        },
        _ => {
            proof {
                assert(false);
            }
            Err(String::new())
        },
    }
}

/// Inference for `let x : A := t in u` and for an annotation `t : A`.
fn infer_let_ann(cx: &Cxt, erased: bool, raw: &Raw) -> (r: Result<(Tm, Val, Use), String>)
    requires
        cx@.wf(),
        raw is Let || raw is Ann,
    ensures
        infer_view(r) == infer_s(cx@, erased, raw@),
        r matches Ok((_, _, u)) ==> u@.len() == cx@.level(),
        r matches Ok((_, _, u)) ==> (erased ==> u@ == zeros_of(cx@.level())),
    decreases raw@.size(), 0nat,
{
    let n = cx.level();
    match raw {
        Raw::Let(nm, ty, val, body) => {
            let ty_tm = match is_type(cx, ty) {
                Ok(t) => t,
                Err(e) => return Err(e),
            };
            let ty_val = match eval(&cx.env, &ty_tm) {
                Some(v) => v,
                None => return Err(stuck(cx)),
            };
            let (val_tm, u_val) = match check(cx, erased, val, &ty_val) {
                Ok(p) => p,
                Err(e) => return Err(e),
            };
            let val_v = match eval(&cx.env, &val_tm) {
                Some(v) => v,
                None => return Err(stuck(cx)),
            };
            let cx2 = cx.define(nm.clone(), val_v, ty_val);
            let (body_tm, body_ty, u_body) = match infer(&cx2, erased, body) {
                Ok(p) => p,
                Err(e) => return Err(e),
            };
            let ghost ub = u_body@;
            let (rho_x, u_outer) = u_body.pop();
            let usage = u_outer.add(&u_val.scale(rho_x));
            proof {
                lemma_usage_lengths(ub, ub, rho_x);
                lemma_usage_lengths(u_outer@, scaled(u_val@, rho_x), rho_x);
                lemma_usage_lengths(u_val@, u_val@, rho_x);
                lemma_zeros_closed(n as nat, rho_x);
            }
            Ok(
                (
                    Tm::Let(nm.clone(), Rc::new(ty_tm), Rc::new(val_tm), Rc::new(body_tm)),
                    body_ty,
                    usage,
                ),
            )
        },
        Raw::Ann(t, ty) => {
            let ty_tm = match is_type(cx, ty) {
                Ok(t) => t,
                Err(e) => return Err(e),
            };
            let ty_val = match eval(&cx.env, &ty_tm) {
                Some(v) => v,
                None => return Err(stuck(cx)),
            };
            let (t_tm, usage) = match check(cx, erased, t, &ty_val) {
                Ok(p) => p,
                Err(e) => return Err(e),
            };
            Ok((t_tm, ty_val, usage))
        },
        _ => {
            proof {
                assert(false);
            }
            Err(String::new())
        },
    }
}

/// Infer the type of `raw`, returning the elaborated core term, its type and
/// the usage it charges to the context. The usage has one entry per
/// variable in scope, and in the erased fragment every entry is zero.
pub fn infer(cx: &Cxt, erased: bool, raw: &Raw) -> (r: Result<(Tm, Val, Use), String>)
    requires
        cx@.wf(),
    ensures
        infer_view(r) == infer_s(cx@, erased, raw@),
        r matches Ok((_, _, u)) ==> u@.len() == cx@.level(),
        r matches Ok((_, _, u)) ==> (erased ==> u@ == zeros_of(cx@.level())),
    decreases raw@.size(), 1nat,
{
    let n = cx.level();
    match raw {
        Raw::Var(name) => match cx.lookup(name) {
            Some((ix, ty)) => {
                let usage = if erased {
                    Use::zeros(n)
                } else {
                    Use::one(n, n - 1 - ix)
                };
                Ok((Tm::Var(ix), ty, usage))
            },
            None => {
                let mut s = "unbound variable: ".to_owned();
                s.append(name.as_str());
                Err(err(cx, s))
            },
        },
        Raw::U => Ok((Tm::U, Val::U, Use::zeros(n))),
        Raw::Bool => Ok((Tm::Bool, Val::U, Use::zeros(n))),
        Raw::True => Ok((Tm::True, Val::Bool, Use::zeros(n))),
        Raw::False => Ok((Tm::False, Val::Bool, Use::zeros(n))),
        Raw::Pi(..) | Raw::Tensor(..) | Raw::With(..) => infer_former(cx, erased, raw),
        Raw::App(..) => infer_app(cx, erased, raw),
        Raw::Fst(..) | Raw::Snd(..) => infer_proj(cx, erased, raw),
        Raw::Let(..) | Raw::Ann(..) => infer_let_ann(cx, erased, raw),
        Raw::Lam(..) => Err(err(cx, "cannot infer a lambda; add a type annotation".to_owned())),
        _ => Err(err(cx, "cannot infer this form; add a type annotation".to_owned())),
    }
}


/// A position found for a name is a position of the list.
proof fn lemma_position_of_bound(names: Seq<Seq<char>>, n: Seq<char>)
    ensures
        CxtV::position_of(names, n) matches Some(i) ==> i < names.len(),
    decreases names.len(),
{
    if names.len() > 0 && names.last() != n {
        lemma_position_of_bound(names.drop_last(), n);
    }
}

/// Binding a name keeps the context well formed and makes the name the
/// innermost variable: looking it up gives index 0 and its type, and every
/// other name keeps its type one index further out.
pub proof fn lemma_bind_lookup(cx: CxtV, n: Seq<char>, ty: ValV, m: Seq<char>)
    requires
        cx.wf(),
    ensures
        cx.bind(n, ty).wf(),
        cx.bind(n, ty).level() == cx.level() + 1,
        cx.bind(n, ty).lookup(n) == Some((0nat, ty)),
        m != n ==> cx.bind(n, ty).lookup(m) == match cx.lookup(m) {
            Some((ix, t)) => Some((ix + 1, t)),
            None => None,
        },
{
    assert(cx.bind(n, ty).names.drop_last() =~= cx.names);
    lemma_position_of_bound(cx.names, m);
}

/// Binding a variable makes it a fresh neutral at the context's level:
/// index 0 of the extended environment evaluates to the variable at level
/// `cx.level()`, which reads back as index 0 in the extended context, and
/// every other variable keeps its value, one index further out.
pub proof fn lemma_bind_evaluates_fresh(cx: CxtV, n: Seq<char>, ty: ValV, ix: nat)
    ensures
        eval_spec(cx.bind(n, ty).env, TmV::Var(0)) == Some(var_v(cx.level())),
        match eval_spec(cx.bind(n, ty).env, TmV::Var(0)) {
            Some(v) => quote_spec(cx.level() + 1, v) == Some(TmV::Var(0)),
            None => false,
        },
        eval_spec(cx.bind(n, ty).env, TmV::Var(ix + 1)) == eval_spec(cx.env, TmV::Var(ix)),
{
    let env2 = cx.bind(n, ty).env;
    lemma_eval_var(env2, 0);
    lemma_eval_var(env2, ix + 1);
    lemma_eval_var(cx.env, ix);
    lemma_quote_var(cx.level() + 1, cx.level());
}

/// A definition keeps the context well formed and is looked up like a
/// bound variable: at index 0 with its type, every other name one index
/// further out.
pub proof fn lemma_define_lookup(cx: CxtV, n: Seq<char>, v: ValV, ty: ValV, m: Seq<char>)
    requires
        cx.wf(),
    ensures
        cx.define(n, v, ty).wf(),
        cx.define(n, v, ty).level() == cx.level() + 1,
        cx.define(n, v, ty).lookup(n) == Some((0nat, ty)),
        m != n ==> cx.define(n, v, ty).lookup(m) == match cx.lookup(m) {
            Some((ix, t)) => Some((ix + 1, t)),
            None => None,
        },
        eval_spec(cx.define(n, v, ty).env, TmV::Var(0)) == Some(v),
{
    assert(cx.define(n, v, ty).names.drop_last() =~= cx.names);
    lemma_position_of_bound(cx.names, m);
    lemma_eval_var(cx.env.push(v), 0);
}

/// Binder budgets: `\x => body` checks against `(rho n : A) -> B` exactly
/// when `body` checks against `B` (at the new variable) with `x : A` in
/// scope and, outside the erased fragment, its usage of `x` fits `rho`.
/// The lambda then charges the body's usage of the outer variables.
pub proof fn lemma_lambda_budget(
    cx: CxtV,
    erased: bool,
    x: Seq<char>,
    body: RawV,
    rho: Mult,
    n: Seq<char>,
    dom: ValV,
    cod: ClosureV,
    cod_at: ValV,
)
    requires
        closure_apply_f(EVAL_DEPTH as nat, cod, var_v(cx.level())) == Some(cod_at),
    ensures
        check_s(cx, erased, RawV::Lam(seq![x], Box::new(body)), ValV::Pi(rho, n, Box::new(dom), cod))
            == match check_s(cx.bind(x, dom), erased, body, cod_at) {
            Err(e) => Err(e),
            Ok((b, u)) => if !erased && !last_or_zero(u).fits_in(rho) {
                Err(err_text(cx, mult_mismatch_text(x, rho, last_or_zero(u))))
            } else {
                Ok((TmV::Lam(x, Box::new(b)), outer_of(u)))
            },
        },
{
    let pi = ValV::Pi(rho, n, Box::new(dom), cod);
    assert(check_s(cx, erased, RawV::Lam(seq![x], Box::new(body)), pi) == check_lam_s(
        cx,
        erased,
        seq![x],
        body,
        pi,
    ));
    assert(seq![x].drop_first() =~= Seq::<Seq<char>>::empty());
    assert(seq![x][0] == x);
    assert(check_lam_s(cx.bind(x, dom), erased, Seq::empty(), body, cod_at) == check_s(
        cx.bind(x, dom),
        erased,
        body,
        cod_at,
    ));
}

/// Binder budgets for a lambda with several binders: `\x y .. => body`
/// checks against `(rho n : A) -> B` as `\x => (\y .. => body)` does:
/// the remaining binders are checked against `B` (at the new variable) with
/// `x : A` in scope and, outside the erased fragment, the usage of `x` must
/// fit `rho`. The lambda then charges the usage of the outer variables.
pub proof fn lemma_lambda_binders_budget(
    cx: CxtV,
    erased: bool,
    x: Seq<char>,
    rest: Seq<Seq<char>>,
    body: RawV,
    rho: Mult,
    n: Seq<char>,
    dom: ValV,
    cod: ClosureV,
    cod_at: ValV,
)
    requires
        closure_apply_f(EVAL_DEPTH as nat, cod, var_v(cx.level())) == Some(cod_at),
    ensures
        check_s(
            cx,
            erased,
            RawV::Lam(seq![x] + rest, Box::new(body)),
            ValV::Pi(rho, n, Box::new(dom), cod),
        ) == match (if rest.len() == 0 {
            check_s(cx.bind(x, dom), erased, body, cod_at)
        } else {
            check_s(cx.bind(x, dom), erased, RawV::Lam(rest, Box::new(body)), cod_at)
        }) {
            Err(e) => Err(e),
            Ok((b, u)) => if !erased && !last_or_zero(u).fits_in(rho) {
                Err(err_text(cx, mult_mismatch_text(x, rho, last_or_zero(u))))
            } else {
                Ok((TmV::Lam(x, Box::new(b)), outer_of(u)))
            },
        },
{
    let ns = seq![x] + rest;
    let pi = ValV::Pi(rho, n, Box::new(dom), cod);
    assert(ns.drop_first() =~= rest);
    assert(ns[0] == x);
    assert(check_s(cx, erased, RawV::Lam(ns, Box::new(body)), pi) == check_lam_s(
        cx,
        erased,
        ns,
        body,
        pi,
    ));
    let inner = check_lam_s(cx.bind(x, dom), erased, rest, body, cod_at);
    if rest.len() == 0 {
        assert(inner == check_s(cx.bind(x, dom), erased, body, cod_at));
    } else {
        assert(inner == check_s(cx.bind(x, dom), erased, RawV::Lam(rest, Box::new(body)), cod_at));
    }
}

/// Elaborating a type infers it in the erased fragment and asks that its
/// type convert to the universe.
pub proof fn lemma_is_type_unfold(cx: CxtV, raw: RawV)
    ensures
        is_type_s(cx, raw) == match infer_s(cx, true, raw) {
            Err(e) => Err(e),
            Ok((tm, ty, _)) => match conv_spec(cx.level(), ty, ValV::U) {
                Some(true) => Ok(tm),
                Some(false) => Err(err_text(cx, "expected a type, found: "@ + show_text(cx, ty))),
                None => Err(err_text(cx, stuck_text())),
            },
        },
{
}

/// Elaborating the domain and codomain of a binder: the domain is a type,
/// and the codomain is a type with the binder's variable, of the domain's
/// value, in scope.
pub proof fn lemma_binder_type_unfold(cx: CxtV, x: Seq<char>, dom: RawV, body: RawV)
    ensures
        binder_type_s(cx, x, dom, body) == match is_type_s(cx, dom) {
            Err(e) => Err(e),
            Ok(dom_tm) => match eval_spec(cx.env, dom_tm) {
                None => Err(err_text(cx, stuck_text())),
                Some(dom_val) => match is_type_s(cx.bind(x, dom_val), body) {
                    Err(e) => Err(e),
                    Ok(body_tm) => Ok((dom_tm, body_tm)),
                },
            },
        },
{
}

/// Checking, spelled out: introduction forms are checked against the
/// expected type, and every other term by inference and conversion.
pub proof fn lemma_check_unfold(cx: CxtV, erased: bool, raw: RawV, expected: ValV)
    ensures
        check_s(cx, erased, raw, expected) == ({
            match raw {
                RawV::Lam(ns, body) => check_lam_s(cx, erased, ns, *body, expected),
                RawV::Pair(a, b) => match expected {
                    ValV::Tensor(rho, _, dom, cod) => {
                        let a_erased = erased || rho == Mult::Zero;
                        match check_s(cx, a_erased, *a, *dom) {
                            Err(e) => Err(e),
                            Ok((a_tm, u_a)) => match eval_spec(cx.env, a_tm) {
                                None => Err(err_text(cx, stuck_text())),
                                Some(av) => match closure_apply_f(EVAL_DEPTH as nat, cod, av) {
                                    None => Err(err_text(cx, stuck_text())),
                                    Some(cod_at) => match check_s(cx, erased, *b, cod_at) {
                                        Err(e) => Err(e),
                                        Ok((b_tm, u_b)) => Ok(
                                            (
                                                TmV::Pair(Box::new(a_tm), Box::new(b_tm)),
                                                sum_of(scaled(u_a, rho), u_b),
                                            ),
                                        ),
                                    },
                                },
                            },
                        }
                    },
                    other => Err(err_text(cx, "pair against non-tensor: "@ + show_text(cx, other))),
                },
                RawV::WPair(a, b) => match expected {
                    ValV::With(ta, tb) => match check_s(cx, erased, *a, *ta) {
                        Err(e) => Err(e),
                        Ok((a_tm, u_a)) => match check_s(cx, erased, *b, *tb) {
                            Err(e) => Err(e),
                            Ok((b_tm, u_b)) => if !erased && u_a != u_b {
                                Err(err_text(cx, "with-pair components consume different resources"@))
                            } else {
                                Ok((TmV::WPair(Box::new(a_tm), Box::new(b_tm)), u_a))
                            },
                        },
                    },
                    other => Err(err_text(cx, "with-pair against non-&: "@ + show_text(cx, other))),
                },
                RawV::If(c, a, b) => match check_s(cx, erased, *c, ValV::Bool) {
                    Err(e) => Err(e),
                    Ok((c_tm, u_c)) => match check_s(cx, erased, *a, expected) {
                        Err(e) => Err(e),
                        Ok((a_tm, u_a)) => match check_s(cx, erased, *b, expected) {
                            Err(e) => Err(e),
                            Ok((b_tm, u_b)) => if !erased && u_a != u_b {
                                Err(err_text(cx, "branches of `if` consume different resources"@))
                            } else {
                                Ok(
                                    (
                                        TmV::If(Box::new(c_tm), Box::new(a_tm), Box::new(b_tm)),
                                        sum_of(u_c, u_a),
                                    ),
                                )
                            },
                        },
                    },
                },
                RawV::LetPair(x, y, t, body) => check_letpair_s(cx, erased, x, y, *t, *body, expected),
                RawV::Let(n, ty, val, body) => match is_type_s(cx, *ty) {
                    Err(e) => Err(e),
                    Ok(ty_tm) => match eval_spec(cx.env, ty_tm) {
                        None => Err(err_text(cx, stuck_text())),
                        Some(ty_val) => match check_s(cx, erased, *val, ty_val) {
                            Err(e) => Err(e),
                            Ok((val_tm, u_val)) => match eval_spec(cx.env, val_tm) {
                                None => Err(err_text(cx, stuck_text())),
                                Some(val_v) => match check_s(
                                    cx.define(n, val_v, ty_val),
                                    erased,
                                    *body,
                                    expected,
                                ) {
                                    Err(e) => Err(e),
                                    Ok((body_tm, u_body)) => Ok(
                                        (
                                            TmV::Let(
                                                n,
                                                Box::new(ty_tm),
                                                Box::new(val_tm),
                                                Box::new(body_tm),
                                            ),
                                            sum_of(
                                                outer_of(u_body),
                                                scaled(u_val, last_or_zero(u_body)),
                                            ),
                                        ),
                                    ),
                                },
                            },
                        },
                    },
                },
                _ => match infer_s(cx, erased, raw) {
                    Err(e) => Err(e),
                    Ok((tm, inferred, usage)) => match conv_spec(cx.level(), inferred, expected) {
                        Some(true) => Ok((tm, usage)),
                        Some(false) => Err(
                            err_text(
                                cx,
                                "type mismatch\n  expected: "@ + show_text(cx, expected)
                                    + "\n  inferred: "@ + show_text(cx, inferred),
                            ),
                        ),
                        None => Err(err_text(cx, stuck_text())),
                    },
                },
            }
        }),
{
}

/// Checking a lambda, spelled out: one binder at a time against a function
/// type, each binder's usage fitting the multiplicity of its `Pi`.
pub proof fn lemma_check_lam_unfold(cx: CxtV, erased: bool, ns: Seq<Seq<char>>, body: RawV, expected: ValV)
    ensures
        check_lam_s(cx, erased, ns, body, expected) == ({
            if ns.len() == 0 {
                check_s(cx, erased, body, expected)
            } else {
                let n = ns[0];
                match expected {
                    ValV::Pi(rho, _, dom, cod) => match closure_apply_f(
                        EVAL_DEPTH as nat,
                        cod,
                        var_v(cx.level()),
                    ) {
                        None => Err(err_text(cx, stuck_text())),
                        Some(cod_at) => match check_lam_s(
                            cx.bind(n, *dom),
                            erased,
                            ns.drop_first(),
                            body,
                            cod_at,
                        ) {
                            Err(e) => Err(e),
                            Ok((body_tm, u_body)) => {
                                let used = last_or_zero(u_body);
                                if !erased && !used.fits_in(rho) {
                                    Err(err_text(cx, mult_mismatch_text(n, rho, used)))
                                } else {
                                    Ok((TmV::Lam(n, Box::new(body_tm)), outer_of(u_body)))
                                }
                            },
                        },
                    },
                    other => Err(
                        err_text(
                            cx,
                            "lambda binder `"@ + n + "` against non-function: "@ + show_text(cx, other),
                        ),
                    ),
                }
            }
        }),
{
}

/// Checking `let (x, y) = t in body`, spelled out.
pub proof fn lemma_check_letpair_unfold(cx: CxtV, erased: bool, x: Seq<char>, y: Seq<char>, t: RawV, body: RawV, expected: ValV)
    ensures
        check_letpair_s(cx, erased, x, y, t, body, expected) == ({
            match infer_s(cx, erased, t) {
                Err(e) => Err(e),
                Ok((t_tm, t_ty, u_t)) => match t_ty {
                    ValV::Tensor(rho, _, dom, cod) => match closure_apply_f(
                        EVAL_DEPTH as nat,
                        cod,
                        var_v(cx.level()),
                    ) {
                        None => Err(err_text(cx, stuck_text())),
                        Some(cod_at) => match check_s(
                            cx.bind(x, *dom).bind(y, cod_at),
                            erased,
                            body,
                            expected,
                        ) {
                            Err(e) => Err(e),
                            Ok((body_tm, u_body)) => {
                                let used_y = last_or_zero(u_body);
                                let used_x = last_or_zero(outer_of(u_body));
                                if !erased && !used_x.fits_in(rho) {
                                    Err(err_text(cx, mult_mismatch_text(x, rho, used_x)))
                                } else if !erased && !used_y.fits_in(Mult::One) {
                                    Err(
                                        err_text(
                                            cx,
                                            "variable `"@ + y + "` is linear but is used "@ + used_y.text(),
                                        ),
                                    )
                                } else {
                                    Ok(
                                        (
                                            TmV::LetPair(x, y, Box::new(t_tm), Box::new(body_tm)),
                                            sum_of(outer_of(outer_of(u_body)), u_t),
                                        ),
                                    )
                                }
                            },
                        },
                    },
                    other => Err(err_text(cx, "let-pair on non-tensor: "@ + show_text(cx, other))),
                },
            }
        }),
{
}

/// Inference, spelled out: the core term, its type and its usage for each
/// form that synthesises a type, and the error for each that does not.
pub proof fn lemma_infer_unfold(cx: CxtV, erased: bool, raw: RawV)
    ensures
        infer_s(cx, erased, raw) == ({
            let n = cx.level();
            match raw {
                RawV::Var(name) => match cx.lookup(name) {
                    Some((ix, ty)) => Ok(
                        (
                            TmV::Var(ix),
                            ty,
                            if erased {
                                zeros_of(n)
                            } else {
                                unit_of(n, n - 1 - ix)
                            },
                        ),
                    ),
                    None => Err(err_text(cx, "unbound variable: "@ + name)),
                },
                RawV::U => Ok((TmV::U, ValV::U, zeros_of(n))),
                RawV::Bool => Ok((TmV::Bool, ValV::U, zeros_of(n))),
                RawV::True => Ok((TmV::True, ValV::Bool, zeros_of(n))),
                RawV::False => Ok((TmV::False, ValV::Bool, zeros_of(n))),
                RawV::Pi(m, x, dom, body) => match binder_type_s(cx, x, *dom, *body) {
                    Err(e) => Err(e),
                    Ok((d, b)) => Ok((TmV::Pi(m, x, Box::new(d), Box::new(b)), ValV::U, zeros_of(n))),
                },
                RawV::Tensor(m, x, dom, body) => match binder_type_s(cx, x, *dom, *body) {
                    Err(e) => Err(e),
                    Ok((d, b)) => Ok((TmV::Tensor(m, x, Box::new(d), Box::new(b)), ValV::U, zeros_of(n))),
                },
                RawV::With(a, b) => match is_type_s(cx, *a) {
                    Err(e) => Err(e),
                    Ok(a_tm) => match is_type_s(cx, *b) {
                        Err(e) => Err(e),
                        Ok(b_tm) => Ok((TmV::With(Box::new(a_tm), Box::new(b_tm)), ValV::U, zeros_of(n))),
                    },
                },
                RawV::App(f, x) => match infer_s(cx, erased, *f) {
                    Err(e) => Err(e),
                    Ok((f_tm, f_ty, u_f)) => match f_ty {
                        ValV::Pi(rho, _, dom, cod) => {
                            let arg_erased = erased || rho == Mult::Zero;
                            match check_s(cx, arg_erased, *x, *dom) {
                                Err(e) => Err(e),
                                Ok((x_tm, u_x)) => match eval_spec(cx.env, x_tm) {
                                    None => Err(err_text(cx, stuck_text())),
                                    Some(xv) => match closure_apply_f(EVAL_DEPTH as nat, cod, xv) {
                                        None => Err(err_text(cx, stuck_text())),
                                        Some(res_ty) => Ok(
                                            (
                                                TmV::App(Box::new(f_tm), Box::new(x_tm)),
                                                res_ty,
                                                sum_of(u_f, scaled(u_x, rho)),
                                            ),
                                        ),
                                    },
                                },
                            }
                        },
                        other => Err(err_text(cx, "applying non-function: "@ + show_text(cx, other))),
                    },
                },
                RawV::Fst(t) => match infer_s(cx, erased, *t) {
                    Err(e) => Err(e),
                    Ok((t_tm, t_ty, u_t)) => match t_ty {
                        ValV::With(a, _) => Ok((TmV::Fst(Box::new(t_tm)), *a, u_t)),
                        other => Err(err_text(cx, "fst on non-&: "@ + show_text(cx, other))),
                    },
                },
                RawV::Snd(t) => match infer_s(cx, erased, *t) {
                    Err(e) => Err(e),
                    Ok((t_tm, t_ty, u_t)) => match t_ty {
                        ValV::With(_, b) => Ok((TmV::Snd(Box::new(t_tm)), *b, u_t)),
                        other => Err(err_text(cx, "snd on non-&: "@ + show_text(cx, other))),
                    },
                },
                RawV::Let(name, ty, val, body) => match is_type_s(cx, *ty) {
                    Err(e) => Err(e),
                    Ok(ty_tm) => match eval_spec(cx.env, ty_tm) {
                        None => Err(err_text(cx, stuck_text())),
                        Some(ty_val) => match check_s(cx, erased, *val, ty_val) {
                            Err(e) => Err(e),
                            Ok((val_tm, u_val)) => match eval_spec(cx.env, val_tm) {
                                None => Err(err_text(cx, stuck_text())),
                                Some(val_v) => match infer_s(
                                    cx.define(name, val_v, ty_val),
                                    erased,
                                    *body,
                                ) {
                                    Err(e) => Err(e),
                                    Ok((body_tm, body_ty, u_body)) => Ok(
                                        (
                                            TmV::Let(
                                                name,
                                                Box::new(ty_tm),
                                                Box::new(val_tm),
                                                Box::new(body_tm),
                                            ),
                                            body_ty,
                                            sum_of(
                                                outer_of(u_body),
                                                scaled(u_val, last_or_zero(u_body)),
                                            ),
                                        ),
                                    ),
                                },
                            },
                        },
                    },
                },
                RawV::Ann(t, ty) => match is_type_s(cx, *ty) {
                    Err(e) => Err(e),
                    Ok(ty_tm) => match eval_spec(cx.env, ty_tm) {
                        None => Err(err_text(cx, stuck_text())),
                        Some(ty_val) => match check_s(cx, erased, *t, ty_val) {
                            Err(e) => Err(e),
                            Ok((t_tm, usage)) => Ok((t_tm, ty_val, usage)),
                        },
                    },
                },
                RawV::Lam(..) => Err(err_text(cx, "cannot infer a lambda; add a type annotation"@)),
                RawV::Pair(..) | RawV::WPair(..) | RawV::If(..) | RawV::LetPair(..) => Err(
                    err_text(cx, "cannot infer this form; add a type annotation"@),
                ),
            }
        }),
{
}

/// Checking falls back to inference and conversion: a term that is not a
/// lambda, a pair, a with-pair, a conditional or a let checks against
/// `expected` exactly when its type can be inferred and is convertible to
/// `expected`, with the inferred core term and usage; an inferred type that
/// is not convertible is a type mismatch naming both types.
pub proof fn lemma_check_by_inference(cx: CxtV, erased: bool, raw: RawV, expected: ValV)
    requires
        !(raw is Lam || raw is Pair || raw is WPair || raw is If || raw is LetPair || raw is Let),
    ensures
        check_s(cx, erased, raw, expected) == match infer_s(cx, erased, raw) {
            Err(e) => Err(e),
            Ok((tm, inferred, usage)) => match conv_spec(cx.level(), inferred, expected) {
                Some(true) => Ok((tm, usage)),
                Some(false) => Err(
                    err_text(
                        cx,
                        "type mismatch\n  expected: "@ + show_text(cx, expected)
                            + "\n  inferred: "@ + show_text(cx, inferred),
                    ),
                ),
                None => Err(err_text(cx, stuck_text())),
            },
        },
{
}

/// Linearity and erasure: a lambda that checks, outside the erased
/// fragment, against a function type whose binder is linear uses its
/// variable exactly once, and one whose binder is erased does not use it.
pub proof fn lemma_linear_used_once(
    cx: CxtV,
    x: Seq<char>,
    body: RawV,
    rho: Mult,
    n: Seq<char>,
    dom: ValV,
    cod: ClosureV,
    cod_at: ValV,
)
    requires
        closure_apply_f(EVAL_DEPTH as nat, cod, var_v(cx.level())) == Some(cod_at),
        check_s(cx, false, RawV::Lam(seq![x], Box::new(body)), ValV::Pi(rho, n, Box::new(dom), cod)) is Ok,
        rho != Mult::Many,
    ensures
        check_s(cx.bind(x, dom), false, body, cod_at) matches Ok((_, u)) && last_or_zero(u) == rho,
{
    lemma_lambda_budget(cx, false, x, body, rho, n, dom, cod, cod_at);
}

/// Additive pairs share their resources: outside the erased fragment a
/// pair `<a, b>` checks against `A & B` only when both components check
/// and charge the same usage, which is the pair's usage.
pub proof fn lemma_with_pair_shares(cx: CxtV, a: RawV, b: RawV, ta: ValV, tb: ValV)
    ensures
        check_s(cx, false, RawV::WPair(Box::new(a), Box::new(b)), ValV::With(Box::new(ta), Box::new(tb)))
            matches Ok((_, u)) ==> {
            &&& check_s(cx, false, a, ta) matches Ok((_, ua)) && ua == u
            &&& check_s(cx, false, b, tb) matches Ok((_, ub)) && ub == u
        },
{
}

/// Multiplicative pairs hand over both components: a pair `(a, b)` against
/// `(rho n : A) * B` charges `rho` times the usage of `a` plus the usage of `b`.
pub proof fn lemma_tensor_pair_usage(
    cx: CxtV,
    erased: bool,
    a: RawV,
    b: RawV,
    rho: Mult,
    n: Seq<char>,
    dom: ValV,
    cod: ClosureV,
)
    ensures
        check_s(cx, erased, RawV::Pair(Box::new(a), Box::new(b)), ValV::Tensor(rho, n, Box::new(dom), cod))
            matches Ok((_, u)) ==> check_s(cx, erased || rho == Mult::Zero, a, dom) matches Ok(
            (a_tm, ua),
        ) && eval_spec(cx.env, a_tm) matches Some(av) && closure_apply_f(EVAL_DEPTH as nat, cod, av)
            matches Some(cod_at) && check_s(cx, erased, b, cod_at) matches Ok((_, ub)) && u == sum_of(
            scaled(ua, rho),
            ub,
        ),
{
}

/// Both branches of a conditional consume the same resources: outside the
/// erased fragment `if c then a else b` checks only when the two branches
/// charge the same usage.
pub proof fn lemma_if_branches_agree(cx: CxtV, c: RawV, a: RawV, b: RawV, expected: ValV)
    ensures
        check_s(cx, false, RawV::If(Box::new(c), Box::new(a), Box::new(b)), expected) is Ok ==> (
        check_s(cx, false, a, expected) matches Ok((_, ua)) && check_s(cx, false, b, expected)
            matches Ok((_, ub)) && ua == ub),
{
}


/// Splitting a tensor hands over both components at once: outside the
/// erased fragment, `let (x, y) = t in body` checks only when `body` uses
/// `y` exactly once and `x` within the tensor's multiplicity.
pub proof fn lemma_split_budget(
    cx: CxtV,
    x: Seq<char>,
    y: Seq<char>,
    t: RawV,
    body: RawV,
    expected: ValV,
    t_tm: TmV,
    rho: Mult,
    n: Seq<char>,
    dom: ValV,
    cod: ClosureV,
    u_t: Seq<Mult>,
    cod_at: ValV,
)
    requires
        infer_s(cx, false, t) == Ok::<(TmV, ValV, Seq<Mult>), Seq<char>>(
            (t_tm, ValV::Tensor(rho, n, Box::new(dom), cod), u_t),
        ),
        closure_apply_f(EVAL_DEPTH as nat, cod, var_v(cx.level())) == Some(cod_at),
        check_s(cx, false, RawV::LetPair(x, y, Box::new(t), Box::new(body)), expected) is Ok,
    ensures
        check_s(cx.bind(x, dom).bind(y, cod_at), false, body, expected) matches Ok((_, u)) && last_or_zero(
            u,
        ) == Mult::One && last_or_zero(outer_of(u)).fits_in(rho),
{
    assert(check_s(cx, false, RawV::LetPair(x, y, Box::new(t), Box::new(body)), expected)
        == check_letpair_s(cx, false, x, y, t, body, expected));
}

/// A local definition is a cut: `let x : A := v in body` charges the body's
/// usage of the outer variables plus the usage of `v` scaled by however
/// often the body uses `x`.
pub proof fn lemma_let_usage(cx: CxtV, erased: bool, x: Seq<char>, ty: RawV, val: RawV, body: RawV)
    ensures
        infer_s(cx, erased, RawV::Let(x, Box::new(ty), Box::new(val), Box::new(body))) matches Ok(
            (_, _, u),
        ) ==> is_type_s(cx, ty) matches Ok(ty_tm) && eval_spec(cx.env, ty_tm) matches Some(ty_val)
            && check_s(cx, erased, val, ty_val) matches Ok((val_tm, u_val)) && eval_spec(
            cx.env,
            val_tm,
        ) matches Some(val_v) && infer_s(cx.define(x, val_v, ty_val), erased, body) matches Ok(
            (_, _, u_body),
        ) && u == sum_of(outer_of(u_body), scaled(u_val, last_or_zero(u_body))),
{
}

/// Types are erased: a function, tensor or with type charges no usage,
/// whatever fragment it is elaborated in.
pub proof fn lemma_type_formers_charge_nothing(cx: CxtV, erased: bool, raw: RawV)
    requires
        raw is Pi || raw is Tensor || raw is With,
    ensures
        infer_s(cx, erased, raw) matches Ok((_, ty, u)) ==> ty == ValV::U && u == zeros_of(cx.level()),
{
}


/// Application charges the function's usage plus the argument's usage
/// scaled by the multiplicity of the function's binder; an argument to an
/// erased binder is itself elaborated in the erased fragment.
pub proof fn lemma_application_usage(cx: CxtV, erased: bool, f: RawV, x: RawV)
    ensures
        infer_s(cx, erased, RawV::App(Box::new(f), Box::new(x))) matches Ok((_, _, u)) ==> infer_s(
            cx,
            erased,
            f,
        ) matches Ok((_, ValV::Pi(rho, _, dom, _), u_f)) && check_s(
            cx,
            erased || rho == Mult::Zero,
            x,
            *dom,
        ) matches Ok((_, u_x)) && u == sum_of(u_f, scaled(u_x, rho)),
{
}

/// Projecting from an additive pair picks one side and charges what the
/// pair charges.
pub proof fn lemma_projection_usage(cx: CxtV, erased: bool, t: RawV)
    ensures
        infer_s(cx, erased, RawV::Fst(Box::new(t))) matches Ok((_, ty, u)) ==> infer_s(cx, erased, t)
            matches Ok((_, ValV::With(a, _), u_t)) && ty == *a && u == u_t,
        infer_s(cx, erased, RawV::Snd(Box::new(t))) matches Ok((_, ty, u)) ==> infer_s(cx, erased, t)
            matches Ok((_, ValV::With(_, b), u_t)) && ty == *b && u == u_t,
{
}

} // verus!
