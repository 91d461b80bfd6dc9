//! Semantic values in weak-head normal form, environments and closures,
//! with their mathematical views.
use crate::mult::Mult;
use crate::syntax::{Level, Name, Tm, TmV};
use std::rc::Rc;
use vstd::prelude::*;

verus! {

/// An evaluation environment: the value of each variable in scope, the
/// outermost first.
#[derive(Debug)]
pub struct Env(pub Vec<Val>);

/// A semantic closure: the environment captured now and the single-binder
/// body evaluated when applied.
#[derive(Debug)]
pub struct Closure(pub Env, pub Rc<Tm>);

/// Semantic values in weak-head normal form. Introductions are concrete;
/// eliminations blocked on a neutral head accumulate in `Stuck`.
#[derive(Debug)]
pub enum Val {
    Lam(Name, Closure),
    Pi(Mult, Name, Rc<Val>, Closure),
    Tensor(Mult, Name, Rc<Val>, Closure),
    Pair(Rc<Val>, Rc<Val>),
    With(Rc<Val>, Rc<Val>),
    WPair(Rc<Val>, Rc<Val>),
    U,
    Bool,
    True,
    False,
    /// A neutral term: a rigid head under a spine of stuck eliminations.
    Stuck(Head, Spine),
}

/// Head of a neutral term: a rigid de Bruijn level.
#[derive(Clone, Copy, Debug)]
pub enum Head {
    Var(Level),
}

/// Spine of eliminations applied to a neutral head, outermost first.
pub type Spine = Vec<Elim>;

/// A single elimination frame.
#[derive(Debug)]
pub enum Elim {
    App(Val),
    Fst,
    Snd,
    If(Val, Val),
    /// `let (x, y) = _ in u`: the body lives under two binders, closed over
    /// the captured environment.
    Split(Name, Name, Env, Rc<Tm>),
}

/// The view of a closure: captured environment and body.
pub struct ClosureV {
    pub env: Seq<ValV>,
    pub body: TmV,
}

/// The mathematical view of `Val`.
pub enum ValV {
    Lam(Seq<char>, ClosureV),
    Pi(Mult, Seq<char>, Box<ValV>, ClosureV),
    Tensor(Mult, Seq<char>, Box<ValV>, ClosureV),
    Pair(Box<ValV>, Box<ValV>),
    With(Box<ValV>, Box<ValV>),
    WPair(Box<ValV>, Box<ValV>),
    U,
    Bool,
    True,
    False,
    Stuck(nat, Seq<ElimV>),
}

/// The mathematical view of `Elim`.
pub enum ElimV {
    App(ValV),
    Fst,
    Snd,
    If(ValV, ValV),
    Split(Seq<char>, Seq<char>, Seq<ValV>, TmV),
}

/// The views of a sequence of values.
pub open spec fn vals_view(s: Seq<Val>) -> Seq<ValV>
    decreases s,
{
    if s.len() == 0 {
        Seq::empty()
    } else {
        vals_view(s.drop_last()).push(val_view(s.last()))
    }
}

/// The views of a spine of eliminations.
pub open spec fn elims_view(s: Seq<Elim>) -> Seq<ElimV>
    decreases s,
{
    if s.len() == 0 {
        Seq::empty()
    } else {
        elims_view(s.drop_last()).push(elim_view(s.last()))
    }
}

/// The view of a closure.
pub open spec fn closure_view(c: Closure) -> ClosureV {
    ClosureV { env: vals_view(c.0.0@), body: (*c.1)@ }
}

/// The view of an elimination.
pub open spec fn elim_view(e: Elim) -> ElimV
    decreases e,
{
    match e {
        Elim::App(v) => ElimV::App(val_view(v)),
        Elim::Fst => ElimV::Fst,
        Elim::Snd => ElimV::Snd,
        Elim::If(a, b) => ElimV::If(val_view(a), val_view(b)),
        Elim::Split(x, y, env, body) => ElimV::Split(x@, y@, vals_view(env.0@), (*body)@),
    }
}

/// The view of a value.
pub open spec fn val_view(v: Val) -> ValV
    decreases v,
{
    match v {
        Val::Lam(n, c) => ValV::Lam(n@, ClosureV { env: vals_view(c.0.0@), body: (*c.1)@ }),
        Val::Pi(m, n, d, c) => ValV::Pi(
            m,
            n@,
            Box::new(val_view(*d)),
            ClosureV { env: vals_view(c.0.0@), body: (*c.1)@ },
        ),
        Val::Tensor(m, n, d, c) => ValV::Tensor(
            m,
            n@,
            Box::new(val_view(*d)),
            ClosureV { env: vals_view(c.0.0@), body: (*c.1)@ },
        ),
        Val::Pair(a, b) => ValV::Pair(Box::new(val_view(*a)), Box::new(val_view(*b))),
        Val::With(a, b) => ValV::With(Box::new(val_view(*a)), Box::new(val_view(*b))),
        Val::WPair(a, b) => ValV::WPair(Box::new(val_view(*a)), Box::new(val_view(*b))),
        Val::U => ValV::U,
        Val::Bool => ValV::Bool,
        Val::True => ValV::True,
        Val::False => ValV::False,
        Val::Stuck(Head::Var(l), sp) => ValV::Stuck(l as nat, elims_view(sp@)),
    }
}

impl View for Val {
    type V = ValV;

    open spec fn view(&self) -> ValV {
        val_view(*self)
    }
}

impl View for Elim {
    type V = ElimV;

    open spec fn view(&self) -> ElimV {
        elim_view(*self)
    }
}

impl View for Closure {
    type V = ClosureV;

    open spec fn view(&self) -> ClosureV {
        closure_view(*self)
    }
}

impl View for Env {
    type V = Seq<ValV>;

    open spec fn view(&self) -> Seq<ValV> {
        vals_view(self.0@)
    }
}

/// The views of a sequence of values, element by element.
pub broadcast proof fn lemma_vals_view(s: Seq<Val>)
    ensures
        #[trigger] vals_view(s).len() == s.len(),
        forall|i: int| 0 <= i < s.len() ==> #[trigger] vals_view(s)[i] == val_view(s[i]),
    decreases s.len(),
{
    if s.len() > 0 {
        lemma_vals_view(s.drop_last());
    }
}

/// The views of a spine, element by element.
pub broadcast proof fn lemma_elims_view(s: Seq<Elim>)
    ensures
        #[trigger] elims_view(s).len() == s.len(),
        forall|i: int| 0 <= i < s.len() ==> #[trigger] elims_view(s)[i] == elim_view(s[i]),
    decreases s.len(),
{
    if s.len() > 0 {
        lemma_elims_view(s.drop_last());
    }
}

/// Pushing a value pushes its view.
pub proof fn lemma_vals_view_push(s: Seq<Val>, v: Val)
    ensures
        vals_view(s.push(v)) == vals_view(s).push(val_view(v)),
{
    assert(s.push(v).drop_last() =~= s);
}

/// The neutral value of a variable: a level under an empty spine.
pub open spec fn var_v(lvl: nat) -> ValV {
    ValV::Stuck(lvl, Seq::empty())
}

impl Env {
    /// A copy with the same view.
    pub fn copy(&self) -> (r: Env)
        ensures
            r@ == self@,
        decreases self,
    {
        let mut out: Vec<Val> = Vec::new();
        let mut i: usize = 0;
        while i < self.0.len()
            invariant
                i <= self.0@.len(),
                vals_view(out@) == vals_view(self.0@.take(i as int)),
            decreases self.0@.len() - i,
        {
            let v = self.0[i].copy();
            let ghost prev = out@;
            out.push(v);
            proof {
                assert(self.0@.take(i + 1).drop_last() == self.0@.take(i as int));
                assert(out@.drop_last() == prev);
            }
            i += 1;
        }
        proof {
            assert(self.0@.take(self.0@.len() as int) == self.0@);
        }
        Env(out)
    }

    /// The environment extended with one more value (the new innermost variable).
    pub fn extend(&self, v: Val) -> (r: Self)
        ensures
            r@ == self@.push(v@),
    {
        let mut new = self.copy();
        let ghost prev = new.0@;
        new.0.push(v);
        proof {
            lemma_vals_view_push(prev, v);
        }
        new
    }

    /// The value of the variable with de Bruijn index `ix`.
    pub fn lookup(&self, ix: usize) -> (r: Val)
        requires
            ix < self@.len(),
        ensures
            r@ == self@[self@.len() - 1 - ix],
    {
        proof {
            lemma_vals_view(self.0@);
        }
        self.0[self.0.len() - 1 - ix].copy()
    }

    /// The number of variables in scope.
    pub fn len(&self) -> (r: usize)
        ensures
            r == self@.len(),
    {
        proof {
            lemma_vals_view(self.0@);
        }
        self.0.len()
    }

    /// Whether no variable is in scope.
    pub fn is_empty(&self) -> (r: bool)
        ensures
            r == (self@.len() == 0),
    {
        proof {
            lemma_vals_view(self.0@);
        }
        self.0.len() == 0
    }

    /// The empty environment.
    pub fn empty() -> (r: Self)
        ensures
            r@ == Seq::<ValV>::empty(),
    {
        Env(Vec::new())
    }
}

impl Closure {
    /// A copy with the same view.
    pub fn copy(&self) -> (r: Closure)
        ensures
            r@ == self@,
        decreases self,
    {
        Closure(self.0.copy(), self.1.clone())
    }
}

impl Elim {
    /// A copy with the same view.
    pub fn copy(&self) -> (r: Elim)
        ensures
            r@ == self@,
        decreases self,
    {
        match self {
            Elim::App(v) => Elim::App(v.copy()),
            Elim::Fst => Elim::Fst,
            Elim::Snd => Elim::Snd,
            Elim::If(a, b) => Elim::If(a.copy(), b.copy()),
            Elim::Split(x, y, env, body) => Elim::Split(x.clone(), y.clone(), env.copy(), body.clone()),
        }
    }
}

/// A copy of a spine with the same view.
pub fn copy_spine(sp: &Spine) -> (r: Spine)
    ensures
        elims_view(r@) == elims_view(sp@),
    decreases sp,
{
    let mut out: Vec<Elim> = Vec::new();
    let mut i: usize = 0;
    while i < sp.len()
        invariant
            i <= sp@.len(),
            elims_view(out@) == elims_view(sp@.take(i as int)),
        decreases sp@.len() - i,
    {
        proof {
            assert(decreases_to!(*sp => sp@));
            assert(decreases_to!(sp@ => sp@[i as int]));
        }
        let e = sp[i].copy();
        let ghost prev = out@;
        out.push(e);
        proof {
            assert(sp@.take(i + 1).drop_last() == sp@.take(i as int));
            assert(out@.drop_last() == prev);
        }
        i += 1;
    }
    proof {
        assert(sp@.take(sp@.len() as int) == sp@);
    }
    out
}

impl Val {
    /// The neutral value of the variable at level `lvl`.
    pub fn var(lvl: Level) -> (r: Self)
        ensures
            r@ == var_v(lvl as nat),
    {
        let r = Val::Stuck(Head::Var(lvl), Vec::new());
        proof {
            assert(elims_view(Seq::<Elim>::empty()) == Seq::<ElimV>::empty());
        }
        r
    }

    /// A copy with the same view.
    pub fn copy(&self) -> (r: Val)
        ensures
            r@ == self@,
        decreases self,
    {
        match self {
            Val::Lam(n, c) => Val::Lam(n.clone(), c.copy()),
            Val::Pi(m, n, d, c) => Val::Pi(*m, n.clone(), d.clone(), c.copy()),
            Val::Tensor(m, n, d, c) => Val::Tensor(*m, n.clone(), d.clone(), c.copy()),
            Val::Pair(a, b) => Val::Pair(a.clone(), b.clone()),
            Val::With(a, b) => Val::With(a.clone(), b.clone()),
            Val::WPair(a, b) => Val::WPair(a.clone(), b.clone()),
            Val::U => Val::U,
            Val::Bool => Val::Bool,
            Val::True => Val::True,
            Val::False => Val::False,
            Val::Stuck(h, sp) => Val::Stuck(*h, copy_spine(sp)),
        }
    }
}


/// A copy of a vector of values with the same views.
pub fn copy_vals(vs: &Vec<Val>) -> (r: Vec<Val>)
    ensures
        vals_view(r@) == vals_view(vs@),
{
    let mut out: Vec<Val> = Vec::new();
    let mut i: usize = 0;
    while i < vs.len()
        invariant
            i <= vs@.len(),
            vals_view(out@) == vals_view(vs@.take(i as int)),
        decreases vs@.len() - i,
    {
        let v = vs[i].copy();
        let ghost prev = out@;
        out.push(v);
        proof {
            assert(vs@.take(i + 1).drop_last() == vs@.take(i as int));
            assert(out@.drop_last() == prev);
        }
        i += 1;
    }
    proof {
        assert(vs@.take(vs@.len() as int) == vs@);
    }
    out
}

impl Clone for Env {
    fn clone(&self) -> (r: Self)
        ensures
            r@ == self@,
    {
        self.copy()
    }
}

impl Clone for Closure {
    fn clone(&self) -> (r: Self)
        ensures
            r@ == self@,
    {
        self.copy()
    }
}

impl Clone for Elim {
    fn clone(&self) -> (r: Self)
        ensures
            r@ == self@,
    {
        self.copy()
    }
}

impl Clone for Val {
    fn clone(&self) -> (r: Self)
        ensures
            r@ == self@,
    {
        self.copy()
    }
}

impl Default for Env {
    /// The empty environment.
    fn default() -> (r: Self)
        ensures
            r@ == Seq::<ValV>::empty(),
    {
        Env::empty()
    }
}

} // verus!
