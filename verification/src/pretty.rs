//! Pretty-printing of core terms with the names of a context.
use crate::mult::Mult;
use crate::syntax::{names_view, Name, Tm, TmV};
use crate::text::{nat_text, num_text};
use vstd::prelude::*;

verus! {

pub const ATOM: u8 = 5;

pub const APP: u8 = 4;

pub const STAR: u8 = 3;

pub const AMP: u8 = 2;

pub const ARROW: u8 = 1;

pub const TOP: u8 = 0;

/// The name of the variable with de Bruijn index `ix`, or `?ix` when it is
/// out of scope.
pub open spec fn lookup_text(env: Seq<Seq<char>>, ix: nat) -> Seq<char> {
    if ix >= env.len() {
        "?"@ + nat_text(ix)
    } else {
        env[env.len() - 1 - ix]
    }
}

/// `d` in parentheses when the context binds tighter than the construct.
pub open spec fn paren_text(level: u8, my: u8, d: Seq<char>) -> Seq<char> {
    if level > my {
        "("@ + d + ")"@
    } else {
        d
    }
}

/// The multiplicity prefix of a binder: nothing for `w`, else `0 ` or `1 `.
pub open spec fn mult_prefix_text(m: Mult) -> Seq<char> {
    if m == Mult::Many {
        Seq::empty()
    } else {
        m.text() + " "@
    }
}

/// The head of a `Pi` or `Tensor`: the bare domain when the binder is
/// anonymous with the default multiplicity, else the full binder.
pub open spec fn binder_head_text(
    env: Seq<Seq<char>>,
    m: Mult,
    n: Seq<char>,
    dom: TmV,
    op: Seq<char>,
    default: Mult,
    dom_lvl: u8,
) -> Seq<char>
    decreases dom, 1nat,
{
    if n == "_"@ && m == default {
        doc_text(env, dom, dom_lvl) + " "@ + op + " "@
    } else {
        let prefix = if m != default {
            mult_prefix_text(m)
        } else {
            Seq::empty()
        };
        "("@ + prefix + n + " : "@ + doc_text(env, dom, TOP) + ") "@ + op + " "@
    }
}

/// The text of `tm` printed in a context of precedence `lvl`, with `env`
/// naming the variables in scope (innermost last).
pub open spec fn doc_text(env: Seq<Seq<char>>, tm: TmV, lvl: u8) -> Seq<char>
    decreases tm, 0nat,
{
    match tm {
        TmV::Var(ix) => lookup_text(env, ix),
        TmV::U => "Type"@,
        TmV::Bool => "Bool"@,
        TmV::True => "true"@,
        TmV::False => "false"@,
        TmV::App(f, x) => paren_text(
            lvl,
            APP,
            doc_text(env, *f, APP) + " "@ + doc_text(env, *x, ATOM),
        ),
        TmV::Lam(n, body) => paren_text(
            lvl,
            TOP,
            "\\"@ + n + " => "@ + doc_text(env.push(n), *body, TOP),
        ),
        TmV::Pi(m, n, dom, cod) => paren_text(
            lvl,
            ARROW,
            binder_head_text(env, m, n, *dom, "->"@, Mult::Many, AMP) + doc_text(
                env.push(n),
                *cod,
                ARROW,
            ),
        ),
        TmV::Tensor(m, n, dom, cod) => paren_text(
            lvl,
            STAR,
            binder_head_text(env, m, n, *dom, "*"@, Mult::One, APP) + doc_text(
                env.push(n),
                *cod,
                STAR,
            ),
        ),
        TmV::With(a, b) => paren_text(
            lvl,
            AMP,
            doc_text(env, *a, STAR) + " & "@ + doc_text(env, *b, AMP),
        ),
        TmV::Pair(a, b) => "("@ + doc_text(env, *a, TOP) + ", "@ + doc_text(env, *b, TOP) + ")"@,
        TmV::WPair(a, b) => "<"@ + doc_text(env, *a, TOP) + ", "@ + doc_text(env, *b, TOP) + ">"@,
        TmV::Fst(t) => paren_text(lvl, APP, "fst "@ + doc_text(env, *t, ATOM)),
        TmV::Snd(t) => paren_text(lvl, APP, "snd "@ + doc_text(env, *t, ATOM)),
        TmV::If(c, a, b) => paren_text(
            lvl,
            TOP,
            "if "@ + doc_text(env, *c, APP) + " then "@ + doc_text(env, *a, APP) + " else "@
                + doc_text(env, *b, APP),
        ),
        TmV::LetPair(x, y, t, body) => paren_text(
            lvl,
            TOP,
            "let ("@ + x + ", "@ + y + ") = "@ + doc_text(env, *t, TOP) + " in "@ + doc_text(
                env.push(x).push(y),
                *body,
                TOP,
            ),
        ),
        TmV::Let(n, ty, val, body) => paren_text(
            lvl,
            TOP,
            "let "@ + n + " : "@ + doc_text(env, *ty, TOP) + " := "@ + doc_text(env, *val, TOP)
                + " in "@ + doc_text(env.push(n), *body, TOP),
        ),
    }
}

/// The text of `tm` with `names` naming the variables in scope.
pub open spec fn pretty_text(names: Seq<Seq<char>>, tm: TmV) -> Seq<char> {
    doc_text(names, tm, TOP)
}

/// Print `tm`, with `names` naming the variables in scope (innermost last).
pub fn pretty_tm(names: &[Name], tm: &Tm) -> (r: String)
    ensures
        r@ == pretty_text(names_view(names@), tm@),
{
    let mut env: Vec<Name> = Vec::new();
    let mut i: usize = 0;
    while i < names.len()
        invariant
            i <= names@.len(),
            env@ == names@.take(i as int),
        decreases names@.len() - i,
    {
        env.push(names[i].clone());
        i += 1;
        assert(env@ =~= names@.take(i as int));
    }
    assert(names@.take(names@.len() as int) =~= names@);
    doc(&mut env, tm, TOP)
}

fn lookup(env: &Vec<Name>, ix: usize) -> (r: String)
    ensures
        r@ == lookup_text(names_view(env@), ix as nat),
{
    if ix >= env.len() {
        let mut s = "?".to_owned();
        s.append(num_text(ix as u64).as_str());
        s
    } else {
        env[env.len() - 1 - ix].clone()
    }
}

fn paren(level: u8, my: u8, d: String) -> (r: String)
    ensures
        r@ == paren_text(level, my, d@),
{
    if level > my {
        let mut s = "(".to_owned();
        s.append(d.as_str());
        s.append(")");
        s
    } else {
        d
    }
}

fn mult_prefix(m: Mult) -> (r: String)
    ensures
        r@ == mult_prefix_text(m),
{
    match m {
        Mult::Many => String::new(),
        other => {
            let mut s = other.to_text();
            s.append(" ");
            s
        },
    }
}

fn binder_head(
    env: &mut Vec<Name>,
    m: Mult,
    n: &Name,
    dom: &Tm,
    op: &str,
    default: Mult,
    dom_lvl: u8,
) -> (r: String)
    ensures
        r@ == binder_head_text(names_view(old(env)@), m, n@, dom@, op@, default, dom_lvl),
        final(env)@ == old(env)@,
    decreases dom, 1nat,
{
    let show_mult = m != default;
    let underscore = "_".to_owned();
    let anonymous = *n == underscore;
    if anonymous && !show_mult {
        let mut s = doc(env, dom, dom_lvl);
        s.append(" ");
        s.append(op);
        s.append(" ");
        s
    } else {
        let prefix = if show_mult {
            mult_prefix(m)
        } else {
            String::new()
        };
        let mut s = "(".to_owned();
        s.append(prefix.as_str());
        s.append(n.as_str());
        s.append(" : ");
        s.append(doc(env, dom, TOP).as_str());
        s.append(") ");
        s.append(op);
        s.append(" ");
        s
    }
}

fn doc(env: &mut Vec<Name>, tm: &Tm, lvl: u8) -> (r: String)
    ensures
        r@ == doc_text(names_view(old(env)@), tm@, lvl),
        final(env)@ == old(env)@,
    decreases tm, 0nat,
{
    let ghost names = names_view(env@);
    match tm {
        Tm::Var(ix) => lookup(env, *ix),
        Tm::U => "Type".to_owned(),
        Tm::Bool => "Bool".to_owned(),
        Tm::True => "true".to_owned(),
        Tm::False => "false".to_owned(),
        Tm::App(f, x) => {
            let mut s = doc(env, f, APP);
            s.append(" ");
            s.append(doc(env, x, ATOM).as_str());
            paren(lvl, APP, s)
        },
        Tm::Lam(n, body) => {
            let mut s = "\\".to_owned();
            s.append(n.as_str());
            s.append(" => ");
            env.push(n.clone());
            proof {
                assert(names_view(env@) =~= names.push(n@));
            }
            s.append(doc(env, body, TOP).as_str());
            env.pop();
            proof {
                assert(env@ =~= old(env)@);
            }
            paren(lvl, TOP, s)
        },
        Tm::Pi(m, n, dom, cod) => {
            let mut s = binder_head(env, *m, n, dom, "->", Mult::Many, AMP);
            env.push(n.clone());
            proof {
                assert(names_view(env@) =~= names.push(n@));
            }
            s.append(doc(env, cod, ARROW).as_str());
            env.pop();
            proof {
                assert(env@ =~= old(env)@);
            }
            paren(lvl, ARROW, s)
        },
        Tm::Tensor(m, n, dom, cod) => {
            let mut s = binder_head(env, *m, n, dom, "*", Mult::One, APP);
            env.push(n.clone());
            proof {
                assert(names_view(env@) =~= names.push(n@));
            }
            s.append(doc(env, cod, STAR).as_str());
            env.pop();
            proof {
                assert(env@ =~= old(env)@);
            }
            paren(lvl, STAR, s)
        },
        Tm::With(a, b) => {
            let mut s = doc(env, a, STAR);
            s.append(" & ");
            s.append(doc(env, b, AMP).as_str());
            paren(lvl, AMP, s)
        },
        Tm::Pair(a, b) => {
            let mut s = "(".to_owned();
            s.append(doc(env, a, TOP).as_str());
            s.append(", ");
            s.append(doc(env, b, TOP).as_str());
            s.append(")");
            s
        },
        Tm::WPair(a, b) => {
            let mut s = "<".to_owned();
            s.append(doc(env, a, TOP).as_str());
            s.append(", ");
            s.append(doc(env, b, TOP).as_str());
            s.append(">");
            s
        },
        Tm::Fst(t) => {
            let mut s = "fst ".to_owned();
            s.append(doc(env, t, ATOM).as_str());
            paren(lvl, APP, s)
        },
        Tm::Snd(t) => {
            let mut s = "snd ".to_owned();
            s.append(doc(env, t, ATOM).as_str());
            paren(lvl, APP, s)
        },
        Tm::If(c, a, b) => {
            let mut s = "if ".to_owned();
            s.append(doc(env, c, APP).as_str());
            s.append(" then ");
            s.append(doc(env, a, APP).as_str());
            s.append(" else ");
            s.append(doc(env, b, APP).as_str());
            paren(lvl, TOP, s)
        },
        Tm::LetPair(x, y, t, body) => {
            let mut s = "let (".to_owned();
            s.append(x.as_str());
            s.append(", ");
            s.append(y.as_str());
            s.append(") = ");
            s.append(doc(env, t, TOP).as_str());
            s.append(" in ");
            env.push(x.clone());
            env.push(y.clone());
            proof {
                assert(names_view(env@) =~= names.push(x@).push(y@));
            }
            s.append(doc(env, body, TOP).as_str());
            env.pop();
            env.pop();
            proof {
                assert(env@ =~= old(env)@);
            }
            paren(lvl, TOP, s)
        },
        Tm::Let(n, ty, val, body) => {
            let mut s = "let ".to_owned();
            s.append(n.as_str());
            s.append(" : ");
            s.append(doc(env, ty, TOP).as_str());
            s.append(" := ");
            s.append(doc(env, val, TOP).as_str());
            s.append(" in ");
            env.push(n.clone());
            proof {
                assert(names_view(env@) =~= names.push(n@));
            }
            s.append(doc(env, body, TOP).as_str());
            env.pop();
            proof {
                assert(env@ =~= old(env)@);
            }
            paren(lvl, TOP, s)
        },
    }
}

/// Projections print their keyword: `snd t` starts with `snd ` and `fst t`
/// with `fst ` (after an opening parenthesis where the context binds
/// tighter than application), so the two are never printed alike.
pub proof fn lemma_projections_print_their_keyword(env: Seq<Seq<char>>, t: TmV, lvl: u8)
    ensures
        lvl <= APP ==> doc_text(env, TmV::Snd(Box::new(t)), lvl).take(4) == "snd "@,
        lvl <= APP ==> doc_text(env, TmV::Fst(Box::new(t)), lvl).take(4) == "fst "@,
        lvl > APP ==> doc_text(env, TmV::Snd(Box::new(t)), lvl).take(5) == "(snd "@,
        lvl > APP ==> doc_text(env, TmV::Fst(Box::new(t)), lvl).take(5) == "(fst "@,
        doc_text(env, TmV::Snd(Box::new(t)), lvl) != doc_text(env, TmV::Fst(Box::new(t)), lvl),
        pretty_text(env, TmV::Snd(Box::new(t))).take(4) == "snd "@,
        pretty_text(env, TmV::Fst(Box::new(t))).take(4) == "fst "@,
{
    reveal_strlit("snd ");
    reveal_strlit("fst ");
    reveal_strlit("(snd ");
    reveal_strlit("(fst ");
    reveal_strlit("(");
    reveal_strlit(")");
    let inner = doc_text(env, t, ATOM);
    let s2 = "snd "@ + inner;
    let f2 = "fst "@ + inner;
    assert(s2.take(4) =~= "snd "@);
    assert(f2.take(4) =~= "fst "@);
    assert(("("@ + s2 + ")"@).take(5) =~= "(snd "@);
    assert(("("@ + f2 + ")"@).take(5) =~= "(fst "@);
    let ds = doc_text(env, TmV::Snd(Box::new(t)), lvl);
    let df = doc_text(env, TmV::Fst(Box::new(t)), lvl);
    if lvl <= APP {
        assert(ds[0] != df[0]);
    } else {
        assert(ds[1] != df[1]);
    }
}

} // verus!
