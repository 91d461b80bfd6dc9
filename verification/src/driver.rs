//! Checking a whole module: parse it, then elaborate its declarations in
//! order, each in the context the earlier ones built, and print what each
//! one established.
use crate::elab::{check, check_s, err_text, infer, infer_s, is_type, is_type_s, stuck, stuck_text, Cxt, CxtV};
use crate::errors::{parse_error_text, ParseErrorV, TinyQttError, TinyQttResult, TypeError};
use crate::eval::{eval, eval_spec, quote, quote_spec};
use crate::parse::{module_s, tokens_of, Parser};
use crate::pretty::{pretty_text, pretty_tm};
use crate::syntax::{decls_view, Decl, DeclV, Raw, RawV, Tm, TmV};
use crate::value::{Val, ValV};
use vstd::prelude::*;

verus! {

/// The context before any declaration.
pub open spec fn empty_cxt() -> CxtV {
    CxtV { env: Seq::empty(), types: Seq::empty(), names: Seq::empty() }
}

/// What a definition prints: its name, its type and its body.
pub open spec fn def_text(names: Seq<Seq<char>>, n: Seq<char>, ty: TmV, body: TmV) -> Seq<char> {
    "def "@ + n + "\n  : "@ + pretty_text(names, ty) + "\n  := "@ + pretty_text(names, body) + "\n"@
}

/// What an evaluation prints: the normal form and its type.
pub open spec fn eval_text(names: Seq<Seq<char>>, nf: TmV, ty: TmV) -> Seq<char> {
    "eval\n  = "@ + pretty_text(names, nf) + "\n  : "@ + pretty_text(names, ty) + "\n"@
}

/// What a successful check prints: the type and the elaborated term.
pub open spec fn check_text(names: Seq<Seq<char>>, ty: TmV, tm: TmV) -> Seq<char> {
    "check ok\n  : "@ + pretty_text(names, ty) + "\n  ~ "@ + pretty_text(names, tm) + "\n"@
}

/// A definition's elaboration in context `cx`: its type as a term and as a
/// value, and its body as a term and as a value.
pub open spec fn def_s(cx: CxtV, ty_raw: RawV, body_raw: RawV) -> Result<(TmV, ValV, TmV, ValV), Seq<char>> {
    match is_type_s(cx, ty_raw) {
        Err(e) => Err(e),
        Ok(ty_tm) => match eval_spec(cx.env, ty_tm) {
            None => Err(err_text(cx, stuck_text())),
            Some(ty_val) => match check_s(cx, false, body_raw, ty_val) {
                Err(e) => Err(e),
                Ok((body_tm, _)) => match eval_spec(cx.env, body_tm) {
                    None => Err(err_text(cx, stuck_text())),
                    Some(body_val) => Ok((ty_tm, ty_val, body_tm, body_val)),
                },
            },
        },
    }
}

/// One declaration in context `cx`: the context after it and the text it
/// prints, or the message of the type error that stops the module.
pub open spec fn run_decl_s(cx: CxtV, d: DeclV) -> Result<(CxtV, Seq<char>), Seq<char>> {
    match d {
        DeclV::Def(n, ty_raw, body_raw) => match def_s(cx, ty_raw, body_raw) {
            Err(e) => Err(e),
            Ok((ty_tm, ty_val, body_tm, body_val)) => Ok(
                (cx.define(n, body_val, ty_val), def_text(cx.names, n, ty_tm, body_tm)),
            ),
        },
        DeclV::Eval(raw) => match infer_s(cx, false, raw) {
            Err(e) => Err(e),
            Ok((tm, ty, _)) => match eval_spec(cx.env, tm) {
                None => Err(err_text(cx, stuck_text())),
                Some(v) => match (quote_spec(cx.level(), v), quote_spec(cx.level(), ty)) {
                    (Some(nf), Some(ty_tm)) => Ok((cx, eval_text(cx.names, nf, ty_tm))),
                    _ => Err(err_text(cx, stuck_text())),
                },
            },
        },
        DeclV::Check(raw_tm, raw_ty) => match is_type_s(cx, raw_ty) {
            Err(e) => Err(e),
            Ok(ty_tm) => match eval_spec(cx.env, ty_tm) {
                None => Err(err_text(cx, stuck_text())),
                Some(ty_val) => match check_s(cx, false, raw_tm, ty_val) {
                    Err(e) => Err(e),
                    Ok((tm, _)) => Ok((cx, check_text(cx.names, ty_tm, tm))),
                },
            },
        },
    }
}

/// The declarations `ds` in order from context `cx`: all they print, or
/// the first type error.
pub open spec fn run_decls_s(cx: CxtV, ds: Seq<DeclV>) -> Result<Seq<char>, Seq<char>>
    decreases ds.len(),
{
    if ds.len() == 0 {
        Ok(Seq::empty())
    } else {
        match run_decl_s(cx, ds[0]) {
            Err(e) => Err(e),
            Ok((cx2, text)) => match run_decls_s(cx2, ds.drop_first()) {
                Err(e) => Err(e),
                Ok(rest) => Ok(text + rest),
            },
        }
    }
}

/// Why checking a source text fails.
pub enum FailV {
    Syntax(ParseErrorV),
    Type(Seq<char>),
}

/// The outcome of checking a source text: what it prints, or why it fails.
pub open spec fn check_source_s(src: Seq<char>) -> Result<Seq<char>, FailV> {
    match module_s(tokens_of(src)) {
        Err(e) => Err(FailV::Syntax(e)),
        Ok(ds) => match run_decls_s(empty_cxt(), ds) {
            Err(m) => Err(FailV::Type(m)),
            Ok(out) => Ok(out),
        },
    }
}

/// The message `check_str` gives for a failure.
pub open spec fn fail_message(f: FailV) -> Seq<char> {
    match f {
        FailV::Syntax(e) => "parse error: "@ + parse_error_text(e),
        FailV::Type(m) => m,
    }
}

/// Check a module, reporting a failure by its message: a type error by
/// its own message, any other error with its category.
pub fn check_str(src: &str) -> (r: Result<String, String>)
    ensures
        match r {
            Ok(s) => check_source_s(src@) == Ok::<Seq<char>, FailV>(s@),
            Err(m) => match check_source_s(src@) {
                Err(f) => m@ == fail_message(f),
                Ok(_) => false,
            },
        },
{
    match check_str_pretty(src) {
        Ok(s) => Ok(s),
        Err(TinyQttError::Type(t)) => Err(t.message),
        Err(other) => Err(other.to_text()),
    }
}

/// Check a module: what its declarations print, or the first error.
pub fn check_str_pretty(src: &str) -> (r: TinyQttResult<String>)
    ensures
        match r {
            Ok(s) => check_source_s(src@) == Ok::<Seq<char>, FailV>(s@),
            Err(TinyQttError::Parse(e)) => check_source_s(src@) == Err::<Seq<char>, FailV>(
                FailV::Syntax(e@),
            ),
            Err(TinyQttError::Type(t)) => check_source_s(src@) == Err::<Seq<char>, FailV>(
                FailV::Type(t.message@),
            ),
            Err(_) => false,
        },
{
    let parser = Parser::new();
    let decls = match parser.parse_module(src) {
        Ok(ds) => ds,
        Err(e) => return Err(e),
    };
    let ghost ds = decls_view(decls@);
    let mut cx = Cxt::default();
    let mut out = String::new();
    let mut i: usize = 0;
    proof {
        assert(ds.skip(0) =~= ds);
        match run_decls_s(empty_cxt(), ds) {
            Ok(rest) => {
                assert(out@ + rest =~= rest);
            },
            Err(_) => {},
        }
    }
    while i < decls.len()
        invariant
            i <= decls@.len(),
            ds == decls_view(decls@),
            module_s(tokens_of(src@)) == Ok::<Seq<DeclV>, ParseErrorV>(ds),
            cx@.wf(),
            run_decls_s(empty_cxt(), ds) == match run_decls_s(cx@, ds.skip(i as int)) {
                Ok(rest) => Ok::<Seq<char>, Seq<char>>(out@ + rest),
                Err(e) => Err(e),
            },
        decreases decls@.len() - i,
    {
        let ghost cx0 = cx@;
        let ghost before = out@;
        let ghost dv = decls@[i as int]@;
        proof {
            assert(ds.skip(i as int)[0] == dv);
            assert(ds.skip(i as int).drop_first() =~= ds.skip(i + 1));
        }
        match run_decl(&mut cx, &mut out, &decls[i]) {
            Ok(()) => {},
            Err(e) => {
                proof {
                    let m = match run_decl_s(cx0, dv) {
                        Err(m) => m,
                        Ok(_) => Seq::empty(),
                    };
                    assert(run_decl_s(cx0, dv) == Err::<(CxtV, Seq<char>), Seq<char>>(m));
                    assert(ds.skip(i as int).len() > 0);
                    assert(run_decls_s(cx0, ds.skip(i as int)) == Err::<Seq<char>, Seq<char>>(m));
                    assert(run_decls_s(empty_cxt(), ds) == Err::<Seq<char>, Seq<char>>(m));
                }
                return Err(e);
            },
        }
        proof {
            let text = match run_decl_s(cx0, dv) {
                Ok((_, t)) => t,
                Err(_) => Seq::empty(),
            };
            assert(out@ == before + text);
            match run_decls_s(cx@, ds.skip(i + 1)) {
                Ok(rest) => {
                    assert(before + (text + rest) =~= out@ + rest);
                },
                Err(_) => {},
            }
        }
        i += 1;
    }
    proof {
        assert(ds.skip(i as int) =~= Seq::<DeclV>::empty());
        assert(out@ + Seq::<char>::empty() =~= out@);
    }
    Ok(out)
}

/// The view of a definition's elaboration.
pub open spec fn def_view(r: Result<(Tm, Val, Tm, Val), String>) -> Result<(TmV, ValV, TmV, ValV), Seq<char>> {
    match r {
        Ok((a, b, c, d)) => Ok((a@, b@, c@, d@)),
        Err(e) => Err(e@),
    }
}

/// Elaborate a definition: its type, checked to be a type, and its body,
/// checked against that type; each also evaluated.
pub(crate) fn elaborate_def(cx: &Cxt, ty_raw: &Raw, body_raw: &Raw) -> (r: Result<(Tm, Val, Tm, Val), String>)
    requires
        cx@.wf(),
    ensures
        def_view(r) == def_s(cx@, ty_raw@, body_raw@),
{
    let ty_tm = match is_type(cx, ty_raw) {
        Ok(t) => t,
        Err(e) => return Err(e),
    };
    let ty_val = match eval(&cx.env, &ty_tm) {
        Some(v) => v,
        None => return Err(stuck(cx)),
    };
    let (body_tm, _usage) = match check(cx, false, body_raw, &ty_val) {
        Ok(p) => p,
        Err(e) => return Err(e),
    };
    let body_val = match eval(&cx.env, &body_tm) {
        Some(v) => v,
        None => return Err(stuck(cx)),
    };
    Ok((ty_tm, ty_val, body_tm, body_val))
}

/// Elaborate one declaration, extend the context with what it defines and
/// append what it prints to `out`. On a type error nothing changes.
fn run_decl(cx: &mut Cxt, out: &mut String, d: &Decl) -> (r: TinyQttResult<()>)
    requires
        old(cx)@.wf(),
    ensures
        final(cx)@.wf(),
        match run_decl_s(old(cx)@, d@) {
            Ok((cx2, text)) => r is Ok && final(cx)@ == cx2 && final(out)@ == old(out)@ + text,
            Err(m) => r matches Err(TinyQttError::Type(t)) && t.message@ == m && final(cx)@
                == old(cx)@ && final(out)@ == old(out)@,
        },
{
    match d {
        Decl::Def(n, ty_raw, body_raw) => {
            let (ty_tm, ty_val, body_tm, body_val) = match elaborate_def(cx, ty_raw, body_raw) {
                Ok(p) => p,
                Err(e) => return Err(TinyQttError::Type(TypeError::new(e))),
            };
            let ghost start = out@;
            out.append("def ");
            out.append(n.as_str());
            out.append("\n  : ");
            out.append(pretty_tm(cx.names.as_slice(), &ty_tm).as_str());
            out.append("\n  := ");
            out.append(pretty_tm(cx.names.as_slice(), &body_tm).as_str());
            out.append("\n");
            proof {
                assert(out@ =~= start + def_text(cx@.names, n@, ty_tm@, body_tm@));
            }
            let next = cx.define(n.clone(), body_val, ty_val);
            *cx = next;
        },
        Decl::Eval(raw) => {
            let (tm, ty, _usage) = match infer(cx, false, raw) {
                Ok(p) => p,
                Err(e) => return Err(TinyQttError::Type(TypeError::new(e))),
            };
            let v = match eval(&cx.env, &tm) {
                Some(v) => v,
                None => return Err(TinyQttError::Type(TypeError::new(stuck(cx)))),
            };
            let nf_tm = quote(cx.level(), &v);
            let ty_tm = quote(cx.level(), &ty);
            let (nf_tm, ty_tm) = match (nf_tm, ty_tm) {
                (Some(a), Some(b)) => (a, b),
                _ => return Err(TinyQttError::Type(TypeError::new(stuck(cx)))),
            };
            let ghost start = out@;
            out.append("eval\n  = ");
            out.append(pretty_tm(cx.names.as_slice(), &nf_tm).as_str());
            out.append("\n  : ");
            out.append(pretty_tm(cx.names.as_slice(), &ty_tm).as_str());
            out.append("\n");
            proof {
                assert(out@ =~= start + eval_text(cx@.names, nf_tm@, ty_tm@));
            }
        },
        Decl::Check(raw_tm, raw_ty) => {
            let ty_tm = match is_type(cx, raw_ty) {
                Ok(t) => t,
                Err(e) => return Err(TinyQttError::Type(TypeError::new(e))),
            };
            let ty_val = match eval(&cx.env, &ty_tm) {
                Some(v) => v,
                None => return Err(TinyQttError::Type(TypeError::new(stuck(cx)))),
            };
            let (tm, _usage) = match check(cx, false, raw_tm, &ty_val) {
                Ok(p) => p,
                Err(e) => return Err(TinyQttError::Type(TypeError::new(e))),
            };
            let ghost start = out@;
            out.append("check ok\n  : ");
            out.append(pretty_tm(cx.names.as_slice(), &ty_tm).as_str());
            out.append("\n  ~ ");
            out.append(pretty_tm(cx.names.as_slice(), &tm).as_str());
            out.append("\n");
            proof {
                assert(out@ =~= start + check_text(cx@.names, ty_tm@, tm@));
            }
        },
    }
    Ok(())
}

} // verus!
