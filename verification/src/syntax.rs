//! Surface syntax (`Raw`), core syntax (`Tm`) and declarations, with their
//! mathematical views.
use crate::mult::Mult;
use std::rc::Rc;
use vstd::prelude::*;

verus! {

/// A binder or variable name.
pub type Name = String;

/// A name from a string slice.
pub fn name(s: &str) -> (r: Name)
    ensures
        r@ == s@,
{
    s.to_owned()
}

/// Index of a variable counted from the innermost binder (de Bruijn index).
pub type Index = usize;

/// Position of a variable counted from the outermost binder (de Bruijn level).
pub type Level = usize;

/// Surface syntax produced by the parser: named binders, multiplicity
/// annotations, and sugar (`A -> B`, `A * B`, `A & B`) that elaboration
/// resolves into `Tm`.
#[derive(Debug)]
pub enum Raw {
    Var(Name),
    U,
    /// `(x :rho A) -> B`: a function whose argument is used with multiplicity rho.
    Pi(Mult, Name, Box<Raw>, Box<Raw>),
    Lam(Vec<Name>, Box<Raw>),
    App(Box<Raw>, Box<Raw>),
    /// `(x :rho A) * B`: multiplicative pair; a split hands over both components.
    Tensor(Mult, Name, Box<Raw>, Box<Raw>),
    Pair(Box<Raw>, Box<Raw>),
    /// `let (x, y) = t in u`: tensor elimination.
    LetPair(Name, Name, Box<Raw>, Box<Raw>),
    /// `A & B`: additive pair; either side may be projected, but only one.
    With(Box<Raw>, Box<Raw>),
    WPair(Box<Raw>, Box<Raw>),
    Fst(Box<Raw>),
    Snd(Box<Raw>),
    Bool,
    True,
    False,
    /// `if c then a else b`: both branches must consume the same resources.
    If(Box<Raw>, Box<Raw>, Box<Raw>),
    /// `let x : A := t in u`.
    Let(Name, Box<Raw>, Box<Raw>, Box<Raw>),
    /// `t : A`.
    Ann(Box<Raw>, Box<Raw>),
}

/// The mathematical view of `Raw`: names as character sequences.
pub enum RawV {
    Var(Seq<char>),
    U,
    Pi(Mult, Seq<char>, Box<RawV>, Box<RawV>),
    Lam(Seq<Seq<char>>, Box<RawV>),
    App(Box<RawV>, Box<RawV>),
    Tensor(Mult, Seq<char>, Box<RawV>, Box<RawV>),
    Pair(Box<RawV>, Box<RawV>),
    LetPair(Seq<char>, Seq<char>, Box<RawV>, Box<RawV>),
    With(Box<RawV>, Box<RawV>),
    WPair(Box<RawV>, Box<RawV>),
    Fst(Box<RawV>),
    Snd(Box<RawV>),
    Bool,
    True,
    False,
    If(Box<RawV>, Box<RawV>, Box<RawV>),
    Let(Seq<char>, Box<RawV>, Box<RawV>, Box<RawV>),
    Ann(Box<RawV>, Box<RawV>),
}

/// The views of a sequence of names.
pub open spec fn names_view(ns: Seq<Name>) -> Seq<Seq<char>> {
    Seq::new(ns.len(), |i: int| ns[i]@)
}

impl View for Raw {
    type V = RawV;

    open spec fn view(&self) -> RawV
        decreases self,
    {
        match self {
            Raw::Var(n) => RawV::Var(n@),
            Raw::U => RawV::U,
            Raw::Pi(m, n, a, b) => RawV::Pi(*m, n@, Box::new((**a).view()), Box::new((**b).view())),
            Raw::Lam(ns, b) => RawV::Lam(names_view(ns@), Box::new((**b).view())),
            Raw::App(f, x) => RawV::App(Box::new((**f).view()), Box::new((**x).view())),
            Raw::Tensor(m, n, a, b) => RawV::Tensor(
                *m,
                n@,
                Box::new((**a).view()),
                Box::new((**b).view()),
            ),
            Raw::Pair(a, b) => RawV::Pair(Box::new((**a).view()), Box::new((**b).view())),
            Raw::LetPair(x, y, t, b) => RawV::LetPair(
                x@,
                y@,
                Box::new((**t).view()),
                Box::new((**b).view()),
            ),
            Raw::With(a, b) => RawV::With(Box::new((**a).view()), Box::new((**b).view())),
            Raw::WPair(a, b) => RawV::WPair(Box::new((**a).view()), Box::new((**b).view())),
            Raw::Fst(t) => RawV::Fst(Box::new((**t).view())),
            Raw::Snd(t) => RawV::Snd(Box::new((**t).view())),
            Raw::Bool => RawV::Bool,
            Raw::True => RawV::True,
            Raw::False => RawV::False,
            Raw::If(c, a, b) => RawV::If(
                Box::new((**c).view()),
                Box::new((**a).view()),
                Box::new((**b).view()),
            ),
            Raw::Let(n, a, t, b) => RawV::Let(
                n@,
                Box::new((**a).view()),
                Box::new((**t).view()),
                Box::new((**b).view()),
            ),
            Raw::Ann(t, a) => RawV::Ann(Box::new((**t).view()), Box::new((**a).view())),
        }
    }
}

impl RawV {
    /// The number of nodes of a surface term.
    pub open spec fn size(self) -> nat
        decreases self,
    {
        match self {
            RawV::Var(_) | RawV::U | RawV::Bool | RawV::True | RawV::False => 1,
            RawV::Lam(_, b) | RawV::Fst(b) | RawV::Snd(b) => 1 + b.size(),
            RawV::Pi(_, _, a, b) | RawV::Tensor(_, _, a, b) | RawV::LetPair(_, _, a, b) => 1
                + a.size() + b.size(),
            RawV::App(a, b) | RawV::Pair(a, b) | RawV::With(a, b) | RawV::WPair(a, b) | RawV::Ann(
                a,
                b,
            ) => 1 + a.size() + b.size(),
            RawV::If(a, b, c) | RawV::Let(_, a, b, c) => 1 + a.size() + b.size() + c.size(),
        }
    }
}

/// Core syntax: scope-resolved, sugar-free, de Bruijn indexed.
#[derive(Debug)]
pub enum Tm {
    Var(Index),
    U,
    Pi(Mult, Name, Rc<Tm>, Rc<Tm>),
    Lam(Name, Rc<Tm>),
    App(Rc<Tm>, Rc<Tm>),
    Tensor(Mult, Name, Rc<Tm>, Rc<Tm>),
    Pair(Rc<Tm>, Rc<Tm>),
    /// The body lives under the two binders `x` and `y`.
    LetPair(Name, Name, Rc<Tm>, Rc<Tm>),
    With(Rc<Tm>, Rc<Tm>),
    WPair(Rc<Tm>, Rc<Tm>),
    Fst(Rc<Tm>),
    Snd(Rc<Tm>),
    Bool,
    True,
    False,
    If(Rc<Tm>, Rc<Tm>, Rc<Tm>),
    Let(Name, Rc<Tm>, Rc<Tm>, Rc<Tm>),
}

/// The mathematical view of `Tm`.
pub enum TmV {
    Var(nat),
    U,
    Pi(Mult, Seq<char>, Box<TmV>, Box<TmV>),
    Lam(Seq<char>, Box<TmV>),
    App(Box<TmV>, Box<TmV>),
    Tensor(Mult, Seq<char>, Box<TmV>, Box<TmV>),
    Pair(Box<TmV>, Box<TmV>),
    LetPair(Seq<char>, Seq<char>, Box<TmV>, Box<TmV>),
    With(Box<TmV>, Box<TmV>),
    WPair(Box<TmV>, Box<TmV>),
    Fst(Box<TmV>),
    Snd(Box<TmV>),
    Bool,
    True,
    False,
    If(Box<TmV>, Box<TmV>, Box<TmV>),
    Let(Seq<char>, Box<TmV>, Box<TmV>, Box<TmV>),
}

/// A copy of a list of names.
pub fn copy_names(ns: &Vec<Name>) -> (r: Vec<Name>)
    ensures
        r@ == ns@,
{
    let mut out: Vec<Name> = Vec::new();
    let mut i: usize = 0;
    while i < ns.len()
        invariant
            i <= ns@.len(),
            out@ == ns@.take(i as int),
        decreases ns@.len() - i,
    {
        out.push(ns[i].clone());
        i += 1;
        assert(out@ =~= ns@.take(i as int));
    }
    assert(ns@.take(ns@.len() as int) =~= ns@);
    out
}

/// A copy of a surface term with the same view.
fn copy_raw(t: &Raw) -> (r: Raw)
    ensures
        r@ == t@,
    decreases t,
{
    match t {
        Raw::Var(n) => Raw::Var(n.clone()),
        Raw::U => Raw::U,
        Raw::Pi(m, n, a, b) => Raw::Pi(*m, n.clone(), Box::new(copy_raw(a)), Box::new(copy_raw(b))),
        Raw::Lam(ns, b) => Raw::Lam(copy_names(ns), Box::new(copy_raw(b))),
        Raw::App(f, x) => Raw::App(Box::new(copy_raw(f)), Box::new(copy_raw(x))),
        Raw::Tensor(m, n, a, b) => Raw::Tensor(
            *m,
            n.clone(),
            Box::new(copy_raw(a)),
            Box::new(copy_raw(b)),
        ),
        Raw::Pair(a, b) => Raw::Pair(Box::new(copy_raw(a)), Box::new(copy_raw(b))),
        Raw::LetPair(x, y, u, b) => Raw::LetPair(
            x.clone(),
            y.clone(),
            Box::new(copy_raw(u)),
            Box::new(copy_raw(b)),
        ),
        Raw::With(a, b) => Raw::With(Box::new(copy_raw(a)), Box::new(copy_raw(b))),
        Raw::WPair(a, b) => Raw::WPair(Box::new(copy_raw(a)), Box::new(copy_raw(b))),
        Raw::Fst(u) => Raw::Fst(Box::new(copy_raw(u))),
        Raw::Snd(u) => Raw::Snd(Box::new(copy_raw(u))),
        Raw::Bool => Raw::Bool,
        Raw::True => Raw::True,
        Raw::False => Raw::False,
        Raw::If(c, a, b) => Raw::If(
            Box::new(copy_raw(c)),
            Box::new(copy_raw(a)),
            Box::new(copy_raw(b)),
        ),
        Raw::Let(n, a, u, b) => Raw::Let(
            n.clone(),
            Box::new(copy_raw(a)),
            Box::new(copy_raw(u)),
            Box::new(copy_raw(b)),
        ),
        Raw::Ann(u, a) => Raw::Ann(Box::new(copy_raw(u)), Box::new(copy_raw(a))),
    }
}

impl Clone for Raw {
    fn clone(&self) -> (r: Self)
        ensures
            r@ == self@,
    {
        copy_raw(self)
    }
}

impl Clone for Tm {
    fn clone(&self) -> (r: Self)
        ensures
            r@ == self@,
    {
        match self {
            Tm::Var(i) => Tm::Var(*i),
            Tm::U => Tm::U,
            Tm::Pi(m, n, a, b) => Tm::Pi(*m, n.clone(), a.clone(), b.clone()),
            Tm::Lam(n, b) => Tm::Lam(n.clone(), b.clone()),
            Tm::App(f, x) => Tm::App(f.clone(), x.clone()),
            Tm::Tensor(m, n, a, b) => Tm::Tensor(*m, n.clone(), a.clone(), b.clone()),
            Tm::Pair(a, b) => Tm::Pair(a.clone(), b.clone()),
            Tm::LetPair(x, y, t, b) => Tm::LetPair(x.clone(), y.clone(), t.clone(), b.clone()),
            Tm::With(a, b) => Tm::With(a.clone(), b.clone()),
            Tm::WPair(a, b) => Tm::WPair(a.clone(), b.clone()),
            Tm::Fst(t) => Tm::Fst(t.clone()),
            Tm::Snd(t) => Tm::Snd(t.clone()),
            Tm::Bool => Tm::Bool,
            Tm::True => Tm::True,
            Tm::False => Tm::False,
            Tm::If(c, a, b) => Tm::If(c.clone(), a.clone(), b.clone()),
            Tm::Let(n, a, t, b) => Tm::Let(n.clone(), a.clone(), t.clone(), b.clone()),
        }
    }
}

impl View for Tm {
    type V = TmV;

    open spec fn view(&self) -> TmV
        decreases self,
    {
        match self {
            Tm::Var(i) => TmV::Var(*i as nat),
            Tm::U => TmV::U,
            Tm::Pi(m, n, a, b) => TmV::Pi(*m, n@, Box::new((**a).view()), Box::new((**b).view())),
            Tm::Lam(n, b) => TmV::Lam(n@, Box::new((**b).view())),
            Tm::App(f, x) => TmV::App(Box::new((**f).view()), Box::new((**x).view())),
            Tm::Tensor(m, n, a, b) => TmV::Tensor(
                *m,
                n@,
                Box::new((**a).view()),
                Box::new((**b).view()),
            ),
            Tm::Pair(a, b) => TmV::Pair(Box::new((**a).view()), Box::new((**b).view())),
            Tm::LetPair(x, y, t, b) => TmV::LetPair(
                x@,
                y@,
                Box::new((**t).view()),
                Box::new((**b).view()),
            ),
            Tm::With(a, b) => TmV::With(Box::new((**a).view()), Box::new((**b).view())),
            Tm::WPair(a, b) => TmV::WPair(Box::new((**a).view()), Box::new((**b).view())),
            Tm::Fst(t) => TmV::Fst(Box::new((**t).view())),
            Tm::Snd(t) => TmV::Snd(Box::new((**t).view())),
            Tm::Bool => TmV::Bool,
            Tm::True => TmV::True,
            Tm::False => TmV::False,
            Tm::If(c, a, b) => TmV::If(
                Box::new((**c).view()),
                Box::new((**a).view()),
                Box::new((**b).view()),
            ),
            Tm::Let(n, a, t, b) => TmV::Let(
                n@,
                Box::new((**a).view()),
                Box::new((**t).view()),
                Box::new((**b).view()),
            ),
        }
    }
}

/// Top-level declaration in a `.qtt` file.
#[derive(Debug)]
pub enum Decl {
    Def(Name, Raw, Raw),
    Eval(Raw),
    Check(Raw, Raw),
}

/// The view of a declaration.
pub enum DeclV {
    Def(Seq<char>, RawV, RawV),
    Eval(RawV),
    Check(RawV, RawV),
}

impl View for Decl {
    type V = DeclV;

    open spec fn view(&self) -> DeclV {
        match self {
            Decl::Def(n, a, t) => DeclV::Def(n@, a@, t@),
            Decl::Eval(t) => DeclV::Eval(t@),
            Decl::Check(t, a) => DeclV::Check(t@, a@),
        }
    }
}

/// The views of a sequence of declarations.
pub open spec fn decls_view(ds: Seq<Decl>) -> Seq<DeclV> {
    Seq::new(ds.len(), |i: int| ds[i]@)
}

/// One line of interactive input: a declaration or a bare term.
#[derive(Debug)]
pub enum ReplInput {
    Decl(Decl),
    Term(Raw),
}

/// The view of a line of interactive input.
pub enum ReplInputV {
    Decl(DeclV),
    Term(RawV),
}

impl View for ReplInput {
    type V = ReplInputV;

    open spec fn view(&self) -> ReplInputV {
        match self {
            ReplInput::Decl(d) => ReplInputV::Decl(d@),
            ReplInput::Term(t) => ReplInputV::Term(t@),
        }
    }
}

} // verus!
