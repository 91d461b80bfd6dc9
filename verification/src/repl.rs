//! The decisions of the interactive loop: what a typed line asks for, what
//! a term evaluates to, what type a term has, and the context a module of
//! definitions builds. Reading lines, printing and files stay with the caller.
use crate::driver::{def_s, elaborate_def, empty_cxt, run_decl_s, run_decls_s, FailV};
use crate::elab::{err_text, infer, infer_s, stuck, stuck_text, Cxt, CxtV};
use crate::errors::{ParseErrorV, TinyQttError, TinyQttResult, TypeError};
use crate::eval::{eval, eval_spec, quote, quote_spec};
use crate::parse::{module_s, term_top_s, tokens_of, Parser};
use crate::pretty::{pretty_text, pretty_tm};
use crate::syntax::{decls_view, Decl, DeclV, Raw, RawV};
use crate::text::push_char;
use vstd::prelude::*;

verus! {

/// The characters with Unicode's White_Space property, which
/// `char::is_whitespace` and `str::trim` treat as white space.
pub open spec fn is_white_space(c: char) -> bool {
    let u = c as u32;
    ||| 9 <= u <= 13
    ||| u == 32
    ||| u == 0x85
    ||| u == 0xa0
    ||| u == 0x1680
    ||| 0x2000 <= u <= 0x200a
    ||| u == 0x2028
    ||| u == 0x2029
    ||| u == 0x202f
    ||| u == 0x205f
    ||| u == 0x3000
}

/// `s` without its leading white space.
pub open spec fn trim_start_s(s: Seq<char>) -> Seq<char>
    decreases s.len(),
{
    if s.len() > 0 && is_white_space(s[0]) {
        trim_start_s(s.drop_first())
    } else {
        s
    }
}

/// `s` without its trailing white space.
pub open spec fn trim_end_s(s: Seq<char>) -> Seq<char>
    decreases s.len(),
{
    if s.len() > 0 && is_white_space(s.last()) {
        trim_end_s(s.drop_last())
    } else {
        s
    }
}

/// `s` without white space at either end.
pub open spec fn trim_s(s: Seq<char>) -> Seq<char> {
    trim_end_s(trim_start_s(s))
}

/// The position of the first white space character of `s` at or after `i`.
pub open spec fn first_white_from(s: Seq<char>, i: nat) -> Option<nat>
    decreases s.len() - i,
{
    if i >= s.len() {
        None
    } else if is_white_space(s[i as int]) {
        Some(i)
    } else {
        first_white_from(s, i + 1)
    }
}

/// A command and its argument: the text up to the first white space, and
/// the trimmed rest after it.
pub open spec fn split_command_s(rest: Seq<char>) -> (Seq<char>, Seq<char>) {
    match first_white_from(rest, 0) {
        Some(k) => (rest.take(k as int), trim_s(rest.skip(k + 1int))),
        None => (rest, Seq::empty()),
    }
}

/// What a line typed at the prompt asks for.
#[derive(Debug, PartialEq, Eq)]
pub enum Line {
    /// Nothing but white space.
    Blank,
    /// `:q` or `:quit`.
    Quit,
    /// `:?`, `:h` or `:help`.
    Help,
    /// `:t <expr>` or `:type <expr>`: the type of a term.
    TypeOf(String),
    /// `:l <file>` or `:load <file>`: load a module's definitions.
    Load(String),
    /// Any other command, by name.
    Unknown(String),
    /// A declaration or a term.
    Input(String),
}

/// The view of a typed line's meaning.
pub enum LineV {
    Blank,
    Quit,
    Help,
    TypeOf(Seq<char>),
    Load(Seq<char>),
    Unknown(Seq<char>),
    Input(Seq<char>),
}

impl View for Line {
    type V = LineV;

    open spec fn view(&self) -> LineV {
        match self {
            Line::Blank => LineV::Blank,
            Line::Quit => LineV::Quit,
            Line::Help => LineV::Help,
            Line::TypeOf(s) => LineV::TypeOf(s@),
            Line::Load(s) => LineV::Load(s@),
            Line::Unknown(s) => LineV::Unknown(s@),
            Line::Input(s) => LineV::Input(s@),
        }
    }
}

/// What a command line (after the colon) asks for.
pub open spec fn command_s(rest: Seq<char>) -> LineV {
    let (cmd, arg) = split_command_s(rest);
    if cmd == "q"@ || cmd == "quit"@ {
        LineV::Quit
    } else if cmd == "?"@ || cmd == "h"@ || cmd == "help"@ {
        LineV::Help
    } else if cmd == "t"@ || cmd == "type"@ {
        LineV::TypeOf(arg)
    } else if cmd == "l"@ || cmd == "load"@ {
        LineV::Load(arg)
    } else {
        LineV::Unknown(cmd)
    }
}

/// What a typed line asks for: it is trimmed; a blank line asks for
/// nothing, a line starting with `:` is a command, any other is input.
pub open spec fn classify_s(line: Seq<char>) -> LineV {
    let t = trim_s(line);
    if t.len() == 0 {
        LineV::Blank
    } else if t[0] == ':' {
        command_s(t.drop_first())
    } else {
        LineV::Input(t)
    }
}

fn white_space(c: char) -> (r: bool)
    ensures
        r == is_white_space(c),
{
    let u = c as u32;
    (9 <= u && u <= 13) || u == 32 || u == 0x85 || u == 0xa0 || u == 0x1680 || (0x2000 <= u && u
        <= 0x200a) || u == 0x2028 || u == 0x2029 || u == 0x202f || u == 0x205f || u == 0x3000
}

/// The characters of `s`.
fn chars_of(s: &str) -> (r: Vec<char>)
    ensures
        r@ == s@,
{
    let mut out: Vec<char> = Vec::new();
    for c in it: s.chars()
        invariant
            out@ == it.seq().take(it.index() as int),
            it.seq() == s@,
    {
        out.push(c);
    }
    proof {
        assert(out@ =~= s@);
    }
    out
}

/// The text of `cs[from..to]`.
fn text_of(cs: &Vec<char>, from: usize, to: usize) -> (r: String)
    requires
        from <= to <= cs@.len(),
    ensures
        r@ == cs@.subrange(from as int, to as int),
{
    let mut s = String::new();
    let mut i = from;
    while i < to
        invariant
            from <= i <= to,
            to <= cs@.len(),
            s@ == cs@.subrange(from as int, i as int),
        decreases to - i,
    {
        push_char(&mut s, cs[i]);
        i += 1;
        assert(s@ =~= cs@.subrange(from as int, i as int));
    }
    s
}

/// The bounds of `cs[from..to]` trimmed of white space.
fn trim_bounds(cs: &Vec<char>, from: usize, to: usize) -> (r: (usize, usize))
    requires
        from <= to <= cs@.len(),
    ensures
        from <= r.0 <= r.1 <= to,
        cs@.subrange(r.0 as int, r.1 as int) == trim_s(cs@.subrange(from as int, to as int)),
{
    let ghost whole = cs@.subrange(from as int, to as int);
    let mut a = from;
    while a < to && white_space(cs[a])
        invariant
            from <= a <= to,
            to <= cs@.len(),
            whole == cs@.subrange(from as int, to as int),
            trim_start_s(whole) == trim_start_s(cs@.subrange(a as int, to as int)),
        decreases to - a,
    {
        proof {
            assert(cs@.subrange(a as int, to as int).drop_first() =~= cs@.subrange(a + 1, to as int));
        }
        a += 1;
    }
    proof {
        if a < to {
            assert(cs@.subrange(a as int, to as int)[0] == cs@[a as int]);
        }
    }
    let mut b = to;
    while b > a && white_space(cs[b - 1])
        invariant
            from <= a <= b <= to,
            to <= cs@.len(),
            trim_s(whole) == trim_end_s(cs@.subrange(a as int, b as int)),
        decreases b - a,
    {
        proof {
            assert(cs@.subrange(a as int, b as int).drop_last() =~= cs@.subrange(a as int, b - 1));
        }
        b -= 1;
    }
    proof {
        if b > a {
            assert(cs@.subrange(a as int, b as int).last() == cs@[b - 1]);
        }
    }
    (a, b)
}

/// What a typed line asks for.
pub fn classify(line: &str) -> (r: Line)
    ensures
        r@ == classify_s(line@),
{
    let cs = chars_of(line);
    let (a, b) = trim_bounds(&cs, 0, cs.len());
    proof {
        assert(cs@.subrange(0, cs@.len() as int) =~= line@);
    }
    let ghost t = cs@.subrange(a as int, b as int);
    if a == b {
        return Line::Blank;
    }
    if cs[a] != ':' {
        return Line::Input(text_of(&cs, a, b));
    }
    let ghost rest = t.drop_first();
    assert(rest =~= cs@.subrange(a + 1, b as int));
    let mut k = a + 1;
    while k < b && !white_space(cs[k])
        invariant
            a + 1 <= k <= b,
            b <= cs@.len(),
            rest == cs@.subrange(a + 1, b as int),
            first_white_from(rest, 0) == first_white_from(rest, (k - a - 1) as nat),
        decreases b - k,
    {
        k += 1;
    }
    let cmd = text_of(&cs, a + 1, k);
    let arg = if k < b {
        let (c, d) = trim_bounds(&cs, k + 1, b);
        proof {
            assert(rest.skip(k - a) =~= cs@.subrange(k + 1, b as int));
            assert(rest.take(k - a - 1) =~= cs@.subrange(a + 1, k as int));
        }
        text_of(&cs, c, d)
    } else {
        proof {
            assert(rest =~= cs@.subrange(a + 1, k as int));
        }
        String::new()
    };
    proof {
        reveal_strlit("q");
        reveal_strlit("quit");
        reveal_strlit("?");
        reveal_strlit("h");
        reveal_strlit("help");
        reveal_strlit("t");
        reveal_strlit("type");
        reveal_strlit("l");
        reveal_strlit("load");
    }
    if cmd == "q".to_owned() || cmd == "quit".to_owned() {
        Line::Quit
    } else if cmd == "?".to_owned() || cmd == "h".to_owned() || cmd == "help".to_owned() {
        Line::Help
    } else if cmd == "t".to_owned() || cmd == "type".to_owned() {
        Line::TypeOf(arg)
    } else if cmd == "l".to_owned() || cmd == "load".to_owned() {
        Line::Load(arg)
    } else {
        Line::Unknown(cmd)
    }
}

/// The context a module's definitions build, one after another from the
/// empty context; other declarations leave it as it is.
pub open spec fn rebuild_from_s(cx: CxtV, ds: Seq<DeclV>) -> Result<CxtV, Seq<char>>
    decreases ds.len(),
{
    if ds.len() == 0 {
        Ok(cx)
    } else {
        let next = match ds[0] {
            DeclV::Def(n, ty_raw, body_raw) => match def_s(cx, ty_raw, body_raw) {
                Err(e) => Err(e),
                Ok((_, ty_val, _, body_val)) => Ok(cx.define(n, body_val, ty_val)),
            },
            _ => Ok(cx),
        };
        match next {
            Err(e) => Err(e),
            Ok(cx2) => rebuild_from_s(cx2, ds.drop_first()),
        }
    }
}

/// The context built by the definitions of a source text, or why it fails.
pub open spec fn rebuild_s(src: Seq<char>) -> Result<CxtV, FailV> {
    match module_s(tokens_of(src)) {
        Err(e) => Err(FailV::Syntax(e)),
        Ok(ds) => match rebuild_from_s(empty_cxt(), ds) {
            Err(m) => Err(FailV::Type(m)),
            Ok(cx) => Ok(cx),
        },
    }
}

/// The context that the definitions of `src` build.
pub fn rebuild_cxt(src: &str) -> (r: TinyQttResult<Cxt>)
    ensures
        match r {
            Ok(cx) => rebuild_s(src@) == Ok::<CxtV, FailV>(cx@) && cx@.wf(),
            Err(TinyQttError::Parse(e)) => rebuild_s(src@) == Err::<CxtV, FailV>(FailV::Syntax(e@)),
            Err(TinyQttError::Type(t)) => rebuild_s(src@) == Err::<CxtV, FailV>(
                FailV::Type(t.message@),
            ),
            Err(_) => false,
        },
{
    let parser = Parser::new();
    let decls = match parser.parse_module(src) {
        Ok(ds) => ds,
        Err(e) => return Err(e),
    };
    let ghost ds = decls_view(decls@);
    let mut cx = Cxt::default();
    let mut i: usize = 0;
    proof {
        assert(ds.skip(0) =~= ds);
    }
    while i < decls.len()
        invariant
            i <= decls@.len(),
            ds == decls_view(decls@),
            module_s(tokens_of(src@)) == Ok::<Seq<DeclV>, ParseErrorV>(ds),
            cx@.wf(),
            rebuild_from_s(empty_cxt(), ds) == rebuild_from_s(cx@, ds.skip(i as int)),
        decreases decls@.len() - i,
    {
        proof {
            assert(ds.skip(i as int)[0] == decls@[i as int]@);
            assert(ds.skip(i as int).drop_first() =~= ds.skip(i + 1));
        }
        match &decls[i] {
            Decl::Def(n, ty_raw, body_raw) => {
                let (_, ty_val, _, body_val) = match elaborate_def(&cx, ty_raw, body_raw) {
                    Ok(p) => p,
                    Err(e) => return Err(TinyQttError::Type(TypeError::new(e))),
                };
                cx = cx.define(n.clone(), body_val, ty_val);
            },
            _ => {},
        }
        i += 1;
    }
    proof {
        assert(ds.skip(i as int) =~= Seq::<DeclV>::empty());
    }
    Ok(cx)
}

/// What evaluating a term prints: its normal form, and its type indented
/// on the next line.
pub open spec fn eval_term_s(cx: CxtV, raw: RawV) -> Result<Seq<char>, Seq<char>> {
    match infer_s(cx, false, raw) {
        Err(e) => Err(e),
        Ok((tm, ty, _)) => match eval_spec(cx.env, tm) {
            None => Err(err_text(cx, stuck_text())),
            Some(v) => match (quote_spec(cx.level(), v), quote_spec(cx.level(), ty)) {
                (Some(nf), Some(ty_tm)) => Ok(
                    pretty_text(cx.names, nf) + "\n  : "@ + pretty_text(cx.names, ty_tm),
                ),
                _ => Err(err_text(cx, stuck_text())),
            },
        },
    }
}

/// Evaluate a term typed at the prompt: its normal form and its type.
pub fn eval_term(cx: &Cxt, raw: &Raw) -> (r: TinyQttResult<String>)
    requires
        cx@.wf(),
    ensures
        match r {
            Ok(s) => eval_term_s(cx@, raw@) == Ok::<Seq<char>, Seq<char>>(s@),
            Err(TinyQttError::Type(t)) => eval_term_s(cx@, raw@) == Err::<Seq<char>, Seq<char>>(
                t.message@,
            ),
            Err(_) => false,
        },
{
    let (tm, ty, _usage) = match infer(cx, false, raw) {
        Ok(p) => p,
        Err(e) => return Err(TinyQttError::Type(TypeError::new(e))),
    };
    let v = match eval(&cx.env, &tm) {
        Some(v) => v,
        None => return Err(TinyQttError::Type(TypeError::new(stuck(cx)))),
    };
    let (nf_tm, ty_tm) = match (quote(cx.level(), &v), quote(cx.level(), &ty)) {
        (Some(a), Some(b)) => (a, b),
        _ => return Err(TinyQttError::Type(TypeError::new(stuck(cx)))),
    };
    let mut s = pretty_tm(cx.names.as_slice(), &nf_tm);
    s.append("\n  : ");
    s.append(pretty_tm(cx.names.as_slice(), &ty_tm).as_str());
    Ok(s)
}

/// The line `:t input` prints, or why it fails.
pub open spec fn type_of_s(cx: CxtV, input: Seq<char>) -> Result<Seq<char>, FailV> {
    match term_top_s(tokens_of(input)) {
        Err(e) => Err(FailV::Syntax(e)),
        Ok(raw) => match infer_s(cx, false, raw) {
            Err(m) => Err(FailV::Type(m)),
            Ok((_, ty, _)) => match quote_spec(cx.level(), ty) {
                None => Err(FailV::Type(err_text(cx, stuck_text()))),
                Some(ty_tm) => Ok(input + " : "@ + pretty_text(cx.names, ty_tm)),
            },
        },
    }
}

/// The type of a term typed after `:t`, as the line that shows it.
pub fn type_of(cx: &Cxt, input: &str) -> (r: TinyQttResult<String>)
    requires
        cx@.wf(),
    ensures
        match r {
            Ok(s) => type_of_s(cx@, input@) == Ok::<Seq<char>, FailV>(s@),
            Err(TinyQttError::Parse(e)) => type_of_s(cx@, input@) == Err::<Seq<char>, FailV>(
                FailV::Syntax(e@),
            ),
            Err(TinyQttError::Type(t)) => type_of_s(cx@, input@) == Err::<Seq<char>, FailV>(
                FailV::Type(t.message@),
            ),
            Err(_) => false,
        },
{
    let parser = Parser::new();
    let raw = match parser.parse_term(input) {
        Ok(r) => r,
        Err(e) => return Err(e),
    };
    let (_, ty, _usage) = match infer(cx, false, &raw) {
        Ok(p) => p,
        Err(e) => return Err(TinyQttError::Type(TypeError::new(e))),
    };
    let ty_tm = match quote(cx.level(), &ty) {
        Some(t) => t,
        None => return Err(TinyQttError::Type(TypeError::new(stuck(cx)))),
    };
    let mut s = input.to_owned();
    s.append(" : ");
    s.append(pretty_tm(cx.names.as_slice(), &ty_tm).as_str());
    Ok(s)
}


/// A module that checks also rebuilds: its definitions, run from the same
/// context, build a context without error.
pub proof fn lemma_checked_module_rebuilds(cx: CxtV, ds: Seq<DeclV>)
    ensures
        run_decls_s(cx, ds) is Ok ==> rebuild_from_s(cx, ds) is Ok,
    decreases ds.len(),
{
    if ds.len() > 0 {
        match run_decl_s(cx, ds[0]) {
            Ok((cx2, _)) => {
                lemma_checked_module_rebuilds(cx2, ds.drop_first());
                match ds[0] {
                    DeclV::Def(n, ty_raw, body_raw) => {},
                    _ => {},
                }
            },
            Err(_) => {},
        }
    }
}

} // verus!
