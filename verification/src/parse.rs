//! The grammar of the surface language: declarations and terms parsed from
//! the token stream by recursive descent.
//!
//! ```text
//! module  := decl*
//! decl    := "def" ident ":" term ":=" term | "eval" term | "check" term ":" term
//! repl    := decl | term
//! term    := ("\" | "fun") ident+ "=>" term
//!          | "let" "(" ident "," ident ")" "=" term "in" term
//!          | "let" ident ":" term ":=" term "in" term
//!          | "if" term "then" term "else" term
//!          | arrow
//! arrow   := binder "->" arrow | amp "->" arrow | amp
//! amp     := star "&" amp | star
//! star    := binder "*" star | app "*" star | app
//! app     := ("fst" | "snd")? atom atom*
//! atom    := ident | "Type" | "Bool" | "true" | "false"
//!          | "(" term ")" | "(" term "," term ")" | "(" term ":" term ")"
//!          | "<" term "," term ">"
//! binder  := "(" mult? ident ":" term ")"
//! mult    := "0" | "1" | "w"
//! ```
//!
//! A binder without a multiplicity is `w` in a function type and `1` in a
//! tensor type; `A -> B` and `A * B` bind the anonymous name `_`.
use crate::errors::{strings_view, ParseError, ParseErrorV, TinyQttError, TinyQttResult};
use crate::lexer::{
    lemma_encode_utf8_append, lemma_lex_line_break, lemma_lex_spans, lex, lex_spec, spanned_views,
    token_text, LexicalError, Token, TokenV,
};
use crate::mult::Mult;
use crate::syntax::{decls_view, names_view, Decl, DeclV, Name, Raw, RawV, ReplInput, ReplInputV};
use vstd::prelude::*;
use vstd::utf8::encode_utf8;

verus! {

/// The view of a token stream: the tokens with their byte spans, the byte
/// offset of the lexical error that ends the stream (if any), and the byte
/// offset at which the end of input is reported.
pub struct TokensV {
    pub toks: Seq<(nat, TokenV, nat)>,
    pub lex_err: Option<nat>,
    pub eof: nat,
}

/// The token at position `i`, if the stream has one there.
pub open spec fn tok_at(ts: TokensV, i: nat) -> Option<TokenV> {
    if i < ts.toks.len() {
        Some(ts.toks[i as int].1)
    } else {
        None
    }
}

/// Is the token at position `i` exactly `t`?
pub open spec fn is_tok(ts: TokensV, i: nat, t: TokenV) -> bool {
    tok_at(ts, i) == Some(t)
}

/// Where the end of input is reported in a source of `src_len` bytes: after
/// the last token, and never past the source's end.
pub open spec fn eof_of(toks: Seq<(nat, TokenV, nat)>, src_len: nat) -> nat {
    let loc = if toks.len() == 0 {
        0
    } else {
        toks.last().2
    };
    if loc <= src_len {
        loc
    } else {
        src_len
    }
}

/// Where the end of input is reported.
pub open spec fn eof_offset(ts: TokensV) -> nat {
    ts.eof
}

/// The error at position `i` when one of `expected` was wanted: the token
/// found there, else the lexical error that ended the stream, else the end
/// of input.
pub open spec fn fail_at(ts: TokensV, i: nat, expected: Seq<Seq<char>>) -> ParseErrorV {
    if i < ts.toks.len() {
        ParseErrorV::UnexpectedToken {
            token: token_text(ts.toks[i as int].1),
            expected,
            span: (ts.toks[i as int].0, ts.toks[i as int].2),
        }
    } else {
        match ts.lex_err {
            Some(o) => ParseErrorV::Lexical(o),
            None => ParseErrorV::UnexpectedEof { expected, offset: eof_offset(ts) },
        }
    }
}

/// The error of a parse that ran out of nesting budget or did not advance;
/// the reported offset is the end of input.
pub open spec fn stall(ts: TokensV) -> ParseErrorV {
    ParseErrorV::InvalidToken { offset: eof_offset(ts) }
}

/// The expectation of one particular token, spelled in quotes.
pub open spec fn quoted(t: TokenV) -> Seq<Seq<char>> {
    seq!["\""@ + token_text(t) + "\""@]
}

/// The expectation where a term must start.
pub open spec fn expect_term() -> Seq<Seq<char>> {
    seq!["a term"@]
}

/// The expectation where a name must stand.
pub open spec fn expect_ident() -> Seq<Seq<char>> {
    seq!["an identifier"@]
}

/// The expectation where a declaration must start.
pub open spec fn expect_decl() -> Seq<Seq<char>> {
    seq!["\"check\""@, "\"def\""@, "\"eval\""@]
}

/// The expectation after `( t`: a closing parenthesis, a comma or a colon.
pub open spec fn expect_close() -> Seq<Seq<char>> {
    seq!["\")\""@, "\",\""@, "\":\""@]
}

/// A later position within the stream.
pub open spec fn sub_ok(ts: TokensV, i: nat, j: nat) -> bool {
    i < j && j <= ts.toks.len()
}

/// The number of tokens from position `i` to the end of the stream.
pub open spec fn pos_measure(ts: TokensV, i: nat) -> nat {
    if i <= ts.toks.len() {
        (ts.toks.len() - i) as nat
    } else {
        0
    }
}

/// The position after the token `t` expected at `i`.
pub open spec fn expect_s(ts: TokensV, i: nat, t: TokenV) -> Result<nat, ParseErrorV> {
    if is_tok(ts, i, t) {
        Ok(i + 1)
    } else {
        Err(fail_at(ts, i, quoted(t)))
    }
}

/// The identifier at `i`.
pub open spec fn ident_s(ts: TokensV, i: nat) -> Result<Seq<char>, ParseErrorV> {
    match tok_at(ts, i) {
        Some(TokenV::Ident(s)) => Ok(s),
        _ => Err(fail_at(ts, i, expect_ident())),
    }
}

/// The run of identifiers from `i` and the position after it.
pub open spec fn idents_s(ts: TokensV, i: nat) -> (Seq<Seq<char>>, nat)
    decreases pos_measure(ts, i),
{
    match tok_at(ts, i) {
        Some(TokenV::Ident(s)) => {
            let (rest, j) = idents_s(ts, i + 1);
            (seq![s] + rest, j)
        },
        _ => (Seq::empty(), i),
    }
}

/// `t`, closed by the token `close` expected at `k`.
pub open spec fn closed_by_s(ts: TokensV, k: nat, close: TokenV, t: RawV) -> Result<(RawV, nat), ParseErrorV> {
    match expect_s(ts, k, close) {
        Err(e) => Err(e),
        Ok(l) => Ok((t, l)),
    }
}

/// Can a token start an application argument?
pub open spec fn atom_start(t: Option<TokenV>) -> bool {
    match t {
        Some(TokenV::Ident(_)) | Some(TokenV::Type) | Some(TokenV::Bool) | Some(TokenV::True) | Some(
            TokenV::False,
        ) | Some(TokenV::LParen) | Some(TokenV::LAngle) => true,
        _ => false,
    }
}

/// The multiplicity written at the start of a binder, if any.
pub open spec fn mult_at(ts: TokensV, i: nat) -> Option<Mult> {
    match tok_at(ts, i) {
        Some(TokenV::Number(n)) => if n == 0 {
            Some(Mult::Zero)
        } else if n == 1 {
            Some(Mult::One)
        } else {
            None
        },
        Some(TokenV::Omega) => Some(Mult::Many),
        _ => None,
    }
}

/// The multiplicity of a binder: the one written, else the default.
pub open spec fn or_default(m: Option<Mult>, d: Mult) -> Mult {
    match m {
        Some(m) => m,
        None => d,
    }
}

/// The nesting budget of a parse: how deep the grammar's rules may call
/// one another. `lemma_parse_budget_suffices` shows that it is enough for
/// any input of fewer than about 2^60 tokens.
pub const PARSE_FUEL: u64 = u64::MAX;

/// A term at `i`: the term and the position after it. Each grammar rule
/// spends one unit of `fuel`; with none left the parse stops.
pub open spec fn term_s(ts: TokensV, fuel: nat, i: nat) -> Result<(RawV, nat), ParseErrorV>
    decreases fuel,
{
    if fuel == 0 {
        Err(stall(ts))
    } else {
        let f = (fuel - 1) as nat;
        match tok_at(ts, i) {
            Some(TokenV::Backslash) | Some(TokenV::Fun) => lam_s(ts, f, i),
            Some(TokenV::Let) => if is_tok(ts, i + 1, TokenV::LParen) {
                letpair_s(ts, f, i)
            } else {
                letdef_s(ts, f, i)
            },
            Some(TokenV::If) => if_s(ts, f, i),
            _ => arrow_s(ts, f, i),
        }
    }
}

/// `\ x y => body` with the lambda token at `i`.
pub open spec fn lam_s(ts: TokensV, fuel: nat, i: nat) -> Result<(RawV, nat), ParseErrorV>
    decreases fuel,
{
    if fuel == 0 {
        Err(stall(ts))
    } else {
        let f = (fuel - 1) as nat;
        let (ns, j) = idents_s(ts, i + 1);
        if ns.len() == 0 {
            Err(fail_at(ts, i + 1, expect_ident()))
        } else {
            match expect_s(ts, j, TokenV::FatArrow) {
                Err(e) => Err(e),
                Ok(k) => match term_s(ts, f, k) {
                    Err(e) => Err(e),
                    Ok((body, m)) => Ok((RawV::Lam(ns, Box::new(body)), m)),
                },
            }
        }
    }
}

/// `let (x, y) = t in body` with the `let` token at `i`.
pub open spec fn letpair_s(ts: TokensV, fuel: nat, i: nat) -> Result<(RawV, nat), ParseErrorV>
    decreases fuel,
{
    if fuel == 0 {
        Err(stall(ts))
    } else {
        let f = (fuel - 1) as nat;
        match ident_s(ts, i + 2) {
            Err(e) => Err(e),
            Ok(x) => match expect_s(ts, i + 3, TokenV::Comma) {
                Err(e) => Err(e),
                Ok(_) => match ident_s(ts, i + 4) {
                    Err(e) => Err(e),
                    Ok(y) => match expect_s(ts, i + 5, TokenV::RParen) {
                        Err(e) => Err(e),
                        Ok(_) => match expect_s(ts, i + 6, TokenV::Eq) {
                            Err(e) => Err(e),
                            Ok(_) => match term_s(ts, f, i + 7) {
                                Err(e) => Err(e),
                                Ok((t, j)) => match expect_s(ts, j, TokenV::In) {
                                    Err(e) => Err(e),
                                    Ok(k) => match term_s(ts, f, k) {
                                        Err(e) => Err(e),
                                        Ok((body, m)) => Ok(
                                            (RawV::LetPair(x, y, Box::new(t), Box::new(body)), m),
                                        ),
                                    },
                                },
                            },
                        },
                    },
                },
            },
        }
    }
}

/// `let x : A := t in body` with the `let` token at `i`.
pub open spec fn letdef_s(ts: TokensV, fuel: nat, i: nat) -> Result<(RawV, nat), ParseErrorV>
    decreases fuel,
{
    if fuel == 0 {
        Err(stall(ts))
    } else {
        let f = (fuel - 1) as nat;
        match ident_s(ts, i + 1) {
            Err(e) => Err(e),
            Ok(x) => match expect_s(ts, i + 2, TokenV::Colon) {
                Err(e) => Err(e),
                Ok(_) => match term_s(ts, f, i + 3) {
                    Err(e) => Err(e),
                    Ok((ty, j)) => match expect_s(ts, j, TokenV::ColonEq) {
                        Err(e) => Err(e),
                        Ok(k) => match term_s(ts, f, k) {
                            Err(e) => Err(e),
                            Ok((val, l)) => match expect_s(ts, l, TokenV::In) {
                                Err(e) => Err(e),
                                Ok(m) => match term_s(ts, f, m) {
                                    Err(e) => Err(e),
                                    Ok((body, n)) => Ok(
                                        (
                                            RawV::Let(
                                                x,
                                                Box::new(ty),
                                                Box::new(val),
                                                Box::new(body),
                                            ),
                                            n,
                                        ),
                                    ),
                                },
                            },
                        },
                    },
                },
            },
        }
    }
}

/// `if c then a else b` with the `if` token at `i`.
pub open spec fn if_s(ts: TokensV, fuel: nat, i: nat) -> Result<(RawV, nat), ParseErrorV>
    decreases fuel,
{
    if fuel == 0 {
        Err(stall(ts))
    } else {
        let f = (fuel - 1) as nat;
        match term_s(ts, f, i + 1) {
            Err(e) => Err(e),
            Ok((c, j)) => match expect_s(ts, j, TokenV::Then) {
                Err(e) => Err(e),
                Ok(k) => match term_s(ts, f, k) {
                    Err(e) => Err(e),
                    Ok((a, l)) => match expect_s(ts, l, TokenV::Else) {
                        Err(e) => Err(e),
                        Ok(m) => match term_s(ts, f, m) {
                            Err(e) => Err(e),
                            Ok((b, n)) => Ok((RawV::If(Box::new(c), Box::new(a), Box::new(b)), n)),
                        },
                    },
                },
            },
        }
    }
}

/// A binder `(m x : A)` at `i`: its multiplicity if written, its name, its
/// domain and the position after it; `None` when the tokens at `i` are not
/// a binder.
pub open spec fn binder_s(ts: TokensV, fuel: nat, i: nat) -> Option<(Option<Mult>, Seq<char>, RawV, nat)>
    decreases fuel,
{
    if fuel == 0 || !is_tok(ts, i, TokenV::LParen) {
        None
    } else {
        let f = (fuel - 1) as nat;
        let m = mult_at(ts, i + 1);
        let p: nat = if m is Some {
            i + 2
        } else {
            i + 1
        };
        match tok_at(ts, p) {
            Some(TokenV::Ident(x)) => if is_tok(ts, p + 1, TokenV::Colon) {
                match term_s(ts, f, p + 2) {
                    Ok((a, j)) => if is_tok(ts, j, TokenV::RParen) {
                        Some((m, x, a, j + 1))
                    } else {
                        None
                    },
                    Err(_) => None,
                }
            } else {
                None
            },
            _ => None,
        }
    }
}

/// Function types, right-associative: `(m x : A) -> B` or `A -> B`.
pub open spec fn arrow_s(ts: TokensV, fuel: nat, i: nat) -> Result<(RawV, nat), ParseErrorV>
    decreases fuel,
{
    if fuel == 0 {
        Err(stall(ts))
    } else {
        let f = (fuel - 1) as nat;
        match binder_s(ts, f, i) {
            Some((m, x, a, j)) if is_tok(ts, j, TokenV::Arrow) => match arrow_s(ts, f, j + 1) {
                Err(e) => Err(e),
                Ok((b, k)) => Ok(
                    (RawV::Pi(or_default(m, Mult::Many), x, Box::new(a), Box::new(b)), k),
                ),
            },
            _ => match amp_s(ts, f, i) {
                Err(e) => Err(e),
                Ok((lhs, j)) => if is_tok(ts, j, TokenV::Arrow) {
                    match arrow_s(ts, f, j + 1) {
                        Err(e) => Err(e),
                        Ok((b, k)) => Ok(
                            (RawV::Pi(Mult::Many, "_"@, Box::new(lhs), Box::new(b)), k),
                        ),
                    }
                } else {
                    Ok((lhs, j))
                },
            },
        }
    }
}

/// With types, right-associative: `A & B`.
pub open spec fn amp_s(ts: TokensV, fuel: nat, i: nat) -> Result<(RawV, nat), ParseErrorV>
    decreases fuel,
{
    if fuel == 0 {
        Err(stall(ts))
    } else {
        let f = (fuel - 1) as nat;
        match star_s(ts, f, i) {
            Err(e) => Err(e),
            Ok((lhs, j)) => if is_tok(ts, j, TokenV::Amp) {
                match amp_s(ts, f, j + 1) {
                    Err(e) => Err(e),
                    Ok((rhs, k)) => Ok((RawV::With(Box::new(lhs), Box::new(rhs)), k)),
                }
            } else {
                Ok((lhs, j))
            },
        }
    }
}

/// Tensor types, right-associative: `(m x : A) * B` or `A * B`.
pub open spec fn star_s(ts: TokensV, fuel: nat, i: nat) -> Result<(RawV, nat), ParseErrorV>
    decreases fuel,
{
    if fuel == 0 {
        Err(stall(ts))
    } else {
        let f = (fuel - 1) as nat;
        match binder_s(ts, f, i) {
            Some((m, x, a, j)) if is_tok(ts, j, TokenV::Star) => match star_s(ts, f, j + 1) {
                Err(e) => Err(e),
                Ok((b, k)) => Ok(
                    (RawV::Tensor(or_default(m, Mult::One), x, Box::new(a), Box::new(b)), k),
                ),
            },
            _ => match app_s(ts, f, i) {
                Err(e) => Err(e),
                Ok((lhs, j)) => if is_tok(ts, j, TokenV::Star) {
                    match star_s(ts, f, j + 1) {
                        Err(e) => Err(e),
                        Ok((b, k)) => Ok(
                            (RawV::Tensor(Mult::One, "_"@, Box::new(lhs), Box::new(b)), k),
                        ),
                    }
                } else {
                    Ok((lhs, j))
                },
            },
        }
    }
}

/// The head of an application: an atom, or a projection of one.
pub open spec fn app_head_s(ts: TokensV, fuel: nat, i: nat) -> Result<(RawV, nat), ParseErrorV>
    decreases fuel,
{
    if fuel == 0 {
        Err(stall(ts))
    } else {
        let f = (fuel - 1) as nat;
        match tok_at(ts, i) {
            Some(TokenV::Fst) => match atom_s(ts, f, i + 1) {
                Err(e) => Err(e),
                Ok((t, j)) => Ok((RawV::Fst(Box::new(t)), j)),
            },
            Some(TokenV::Snd) => match atom_s(ts, f, i + 1) {
                Err(e) => Err(e),
                Ok((t, j)) => Ok((RawV::Snd(Box::new(t)), j)),
            },
            _ => atom_s(ts, f, i),
        }
    }
}

/// Application, left-associative, optionally headed by a projection.
pub open spec fn app_s(ts: TokensV, fuel: nat, i: nat) -> Result<(RawV, nat), ParseErrorV>
    decreases fuel,
{
    if fuel == 0 {
        Err(stall(ts))
    } else {
        let f = (fuel - 1) as nat;
        match app_head_s(ts, f, i) {
            Err(e) => Err(e),
            Ok((t, j)) => app_rest_s(ts, f, t, j),
        }
    }
}

/// The arguments applied to `acc` from position `i`.
pub open spec fn app_rest_s(ts: TokensV, fuel: nat, acc: RawV, i: nat) -> Result<(RawV, nat), ParseErrorV>
    decreases fuel,
{
    if fuel == 0 {
        Err(stall(ts))
    } else if !atom_start(tok_at(ts, i)) {
        Ok((acc, i))
    } else {
        let f = (fuel - 1) as nat;
        match atom_s(ts, f, i) {
            Err(e) => Err(e),
            Ok((a, j)) => app_rest_s(ts, f, RawV::App(Box::new(acc), Box::new(a)), j),
        }
    }
}

/// An atomic term.
pub open spec fn atom_s(ts: TokensV, fuel: nat, i: nat) -> Result<(RawV, nat), ParseErrorV>
    decreases fuel,
{
    if fuel == 0 {
        Err(stall(ts))
    } else {
        let f = (fuel - 1) as nat;
        match tok_at(ts, i) {
            Some(TokenV::Ident(s)) => Ok((RawV::Var(s), i + 1)),
            Some(TokenV::Type) => Ok((RawV::U, i + 1)),
            Some(TokenV::Bool) => Ok((RawV::Bool, i + 1)),
            Some(TokenV::True) => Ok((RawV::True, i + 1)),
            Some(TokenV::False) => Ok((RawV::False, i + 1)),
            Some(TokenV::LParen) => paren_s(ts, f, i),
            Some(TokenV::LAngle) => angle_s(ts, f, i),
            _ => Err(fail_at(ts, i, expect_term())),
        }
    }
}

/// `( ... )` with the parenthesis at `i`: a parenthesised term, a pair or
/// an annotation.
pub open spec fn paren_s(ts: TokensV, fuel: nat, i: nat) -> Result<(RawV, nat), ParseErrorV>
    decreases fuel,
{
    if fuel == 0 {
        Err(stall(ts))
    } else {
        let f = (fuel - 1) as nat;
        match term_s(ts, f, i + 1) {
            Err(e) => Err(e),
            Ok((t, j)) => paren_close_s(ts, f, t, j),
        }
    }
}

/// What follows `( t` at `j`: `)`, or a pair's second component, or an
/// annotation's type.
#[verifier::opaque]
pub open spec fn paren_close_s(ts: TokensV, fuel: nat, t: RawV, j: nat) -> Result<(RawV, nat), ParseErrorV>
    decreases fuel,
{
    if fuel == 0 {
        Err(stall(ts))
    } else {
        let f = (fuel - 1) as nat;
        match tok_at(ts, j) {
            Some(TokenV::RParen) => Ok((t, j + 1)),
            Some(TokenV::Comma) => match term_s(ts, f, j + 1) {
                Err(e) => Err(e),
                Ok((u, k)) => closed_by_s(ts, k, TokenV::RParen, RawV::Pair(Box::new(t), Box::new(u))),
            },
            Some(TokenV::Colon) => match term_s(ts, f, j + 1) {
                Err(e) => Err(e),
                Ok((u, k)) => closed_by_s(ts, k, TokenV::RParen, RawV::Ann(Box::new(t), Box::new(u))),
            },
            _ => Err(fail_at(ts, j, expect_close())),
        }
    }
}

/// `< a, b >` with the angle bracket at `i`.
#[verifier::opaque]
pub open spec fn angle_s(ts: TokensV, fuel: nat, i: nat) -> Result<(RawV, nat), ParseErrorV>
    decreases fuel,
{
    if fuel == 0 {
        Err(stall(ts))
    } else {
        let f = (fuel - 1) as nat;
        match term_s(ts, f, i + 1) {
            Err(e) => Err(e),
            Ok((a, j)) => match expect_s(ts, j, TokenV::Comma) {
                Err(e) => Err(e),
                Ok(k) => match term_s(ts, f, k) {
                    Err(e) => Err(e),
                    Ok((b, l)) => closed_by_s(ts, l, TokenV::RAngle, RawV::WPair(Box::new(a), Box::new(b))),
                },
            },
        }
    }
}

/// One unfolding of `paren_close_s`, stated apart from the recursion.
pub open spec fn paren_close_body_s(ts: TokensV, fuel: nat, t: RawV, j: nat) -> Result<(RawV, nat), ParseErrorV> {
    if fuel == 0 {
        Err(stall(ts))
    } else {
        let f = (fuel - 1) as nat;
        match tok_at(ts, j) {
            Some(TokenV::RParen) => Ok((t, j + 1)),
            Some(TokenV::Comma) => match term_s(ts, f, j + 1) {
                Err(e) => Err(e),
                Ok((u, k)) => closed_by_s(ts, k, TokenV::RParen, RawV::Pair(Box::new(t), Box::new(u))),
            },
            Some(TokenV::Colon) => match term_s(ts, f, j + 1) {
                Err(e) => Err(e),
                Ok((u, k)) => closed_by_s(ts, k, TokenV::RParen, RawV::Ann(Box::new(t), Box::new(u))),
            },
            _ => Err(fail_at(ts, j, expect_close())),
        }
    }
}

proof fn lemma_paren_close_unfold(ts: TokensV, fuel: nat, t: RawV, j: nat)
    ensures
        paren_close_s(ts, fuel, t, j) == paren_close_body_s(ts, fuel, t, j),
{
    reveal(paren_close_s);
}

/// One unfolding of `angle_s`, stated apart from the recursion.
pub open spec fn angle_body_s(ts: TokensV, fuel: nat, i: nat) -> Result<(RawV, nat), ParseErrorV> {
    if fuel == 0 {
        Err(stall(ts))
    } else {
        let f = (fuel - 1) as nat;
        match term_s(ts, f, i + 1) {
            Err(e) => Err(e),
            Ok((a, j)) => match expect_s(ts, j, TokenV::Comma) {
                Err(e) => Err(e),
                Ok(k) => match term_s(ts, f, k) {
                    Err(e) => Err(e),
                    Ok((b, l)) => closed_by_s(ts, l, TokenV::RAngle, RawV::WPair(Box::new(a), Box::new(b))),
                },
            },
        }
    }
}

proof fn lemma_angle_unfold(ts: TokensV, fuel: nat, i: nat)
    ensures
        angle_s(ts, fuel, i) == angle_body_s(ts, fuel, i),
{
    reveal(angle_s);
}

/// A declaration at `i`.
#[verifier::opaque]
pub open spec fn decl_s(ts: TokensV, fuel: nat, i: nat) -> Result<(DeclV, nat), ParseErrorV> {
    match tok_at(ts, i) {
        Some(TokenV::Def) => match ident_s(ts, i + 1) {
            Err(e) => Err(e),
            Ok(x) => match expect_s(ts, i + 2, TokenV::Colon) {
                Err(e) => Err(e),
                Ok(_) => match term_s(ts, fuel, i + 3) {
                    Err(e) => Err(e),
                    Ok((ty, j)) => match expect_s(ts, j, TokenV::ColonEq) {
                        Err(e) => Err(e),
                        Ok(k) => match term_s(ts, fuel, k) {
                            Err(e) => Err(e),
                            Ok((body, l)) => Ok((DeclV::Def(x, ty, body), l)),
                        },
                    },
                },
            },
        },
        Some(TokenV::Eval) => match term_s(ts, fuel, i + 1) {
            Err(e) => Err(e),
            Ok((t, j)) => Ok((DeclV::Eval(t), j)),
        },
        Some(TokenV::Check) => match term_s(ts, fuel, i + 1) {
            Err(e) => Err(e),
            Ok((t, j)) => match expect_s(ts, j, TokenV::Colon) {
                Err(e) => Err(e),
                Ok(k) => match term_s(ts, fuel, k) {
                    Err(e) => Err(e),
                    Ok((ty, l)) => Ok((DeclV::Check(t, ty), l)),
                },
            },
        },
        _ => Err(fail_at(ts, i, expect_decl())),
    }
}

/// The declarations from position `i` to the end of the stream.
#[verifier::opaque]
pub open spec fn module_from_s(ts: TokensV, fuel: nat, i: nat) -> Result<Seq<DeclV>, ParseErrorV>
    decreases pos_measure(ts, i),
{
    if i >= ts.toks.len() {
        match ts.lex_err {
            Some(o) => Err(ParseErrorV::Lexical(o)),
            None => Ok(Seq::empty()),
        }
    } else {
        match decl_s(ts, fuel, i) {
            Err(e) => Err(e),
            Ok((d, j)) => if !sub_ok(ts, i, j) {
                Err(stall(ts))
            } else {
                match module_from_s(ts, fuel, j) {
                    Err(e) => Err(e),
                    Ok(ds) => Ok(seq![d] + ds),
                }
            },
        }
    }
}

proof fn lemma_module_from_unfold(ts: TokensV, fuel: nat, i: nat)
    ensures
        module_from_s(ts, fuel, i) == (if i >= ts.toks.len() {
            match ts.lex_err {
                Some(o) => Err(ParseErrorV::Lexical(o)),
                None => Ok(Seq::empty()),
            }
        } else {
            match decl_s(ts, fuel, i) {
                Err(e) => Err(e),
                Ok((d, j)) => if !sub_ok(ts, i, j) {
                    Err(stall(ts))
                } else {
                    match module_from_s(ts, fuel, j) {
                        Err(e) => Err(e),
                        Ok(ds) => Ok(seq![d] + ds),
                    }
                },
            }
        }),
{
    reveal(module_from_s);
}

/// What is wrong at the end of a complete phrase ending before position `j`.
pub open spec fn finish_s(ts: TokensV, j: nat) -> Option<ParseErrorV> {
    if j < ts.toks.len() {
        Some(
            ParseErrorV::ExtraToken {
                token: token_text(ts.toks[j as int].1),
                span: (ts.toks[j as int].0, ts.toks[j as int].2),
            },
        )
    } else {
        match ts.lex_err {
            Some(o) => Some(ParseErrorV::Lexical(o)),
            None => None,
        }
    }
}

/// A whole input that is one term.
pub open spec fn term_top_s(ts: TokensV) -> Result<RawV, ParseErrorV> {
    match term_s(ts, PARSE_FUEL as nat, 0) {
        Err(e) => Err(e),
        Ok((t, j)) => match finish_s(ts, j) {
            Some(e) => Err(e),
            None => Ok(t),
        },
    }
}

/// A whole input that is one declaration or one term.
pub open spec fn repl_s(ts: TokensV) -> Result<ReplInputV, ParseErrorV> {
    let parsed = match tok_at(ts, 0) {
        Some(TokenV::Def) | Some(TokenV::Eval) | Some(TokenV::Check) => match decl_s(
            ts,
            PARSE_FUEL as nat,
            0,
        ) {
            Err(e) => Err(e),
            Ok((d, j)) => Ok((ReplInputV::Decl(d), j)),
        },
        _ => match term_s(ts, PARSE_FUEL as nat, 0) {
            Err(e) => Err(e),
            Ok((t, j)) => Ok((ReplInputV::Term(t), j)),
        },
    };
    match parsed {
        Err(e) => Err(e),
        Ok((r, j)) => match finish_s(ts, j) {
            Some(e) => Err(e),
            None => Ok(r),
        },
    }
}

/// A whole input that is a module: its declarations.
pub open spec fn module_s(ts: TokensV) -> Result<Seq<DeclV>, ParseErrorV> {
    module_from_s(ts, PARSE_FUEL as nat, 0)
}

/// The token stream of a source text.
pub open spec fn tokens_of(src: Seq<char>) -> TokensV {
    TokensV {
        toks: lex_spec(src).0,
        lex_err: lex_spec(src).1,
        eof: eof_of(lex_spec(src).0, encode_utf8(src).len()),
    }
}

/// A token stream: the tokens of an input up to its first lexical error.
struct Tokens {
    toks: Vec<(usize, Token, usize)>,
    err: Option<LexicalError>,
    src_len: usize,
}

impl View for Tokens {
    type V = TokensV;

    closed spec fn view(&self) -> TokensV {
        TokensV {
            toks: spanned_views(self.toks@),
            lex_err: match self.err {
                Some(LexicalError::InvalidToken(o)) => Some(o as nat),
                None => None,
            },
            eof: eof_of(spanned_views(self.toks@), self.src_len as nat),
        }
    }
}

/// Every position in the stream is a machine integer.
pub open spec fn addressable(ts: TokensV) -> bool {
    ts.toks.len() <= usize::MAX
}

/// The view of a parse result.
pub open spec fn raw_result_view(r: Result<(Raw, usize), ParseError>) -> Result<(RawV, nat), ParseErrorV> {
    match r {
        Ok((t, j)) => Ok((t@, j as nat)),
        Err(e) => Err(e@),
    }
}

fn token_eq(a: &Token, b: &Token) -> (r: bool)
    ensures
        r == (a@ == b@),
{
    match (a, b) {
        (Token::Def, Token::Def) => true,
        (Token::Eval, Token::Eval) => true,
        (Token::Check, Token::Check) => true,
        (Token::Let, Token::Let) => true,
        (Token::In, Token::In) => true,
        (Token::Fun, Token::Fun) => true,
        (Token::If, Token::If) => true,
        (Token::Then, Token::Then) => true,
        (Token::Else, Token::Else) => true,
        (Token::Type, Token::Type) => true,
        (Token::Bool, Token::Bool) => true,
        (Token::True, Token::True) => true,
        (Token::False, Token::False) => true,
        (Token::Fst, Token::Fst) => true,
        (Token::Snd, Token::Snd) => true,
        (Token::Omega, Token::Omega) => true,
        (Token::LParen, Token::LParen) => true,
        (Token::RParen, Token::RParen) => true,
        (Token::LAngle, Token::LAngle) => true,
        (Token::RAngle, Token::RAngle) => true,
        (Token::Comma, Token::Comma) => true,
        (Token::Colon, Token::Colon) => true,
        (Token::ColonEq, Token::ColonEq) => true,
        (Token::Arrow, Token::Arrow) => true,
        (Token::FatArrow, Token::FatArrow) => true,
        (Token::Star, Token::Star) => true,
        (Token::Amp, Token::Amp) => true,
        (Token::Eq, Token::Eq) => true,
        (Token::Backslash, Token::Backslash) => true,
        (Token::Ident(x), Token::Ident(y)) => *x == *y,
        (Token::Number(m), Token::Number(n)) => *m == *n,
        (Token::Whitespace, Token::Whitespace) => true,
        _ => false,
    }
}

impl Tokens {
    fn len(&self) -> (r: usize)
        ensures
            r == self@.toks.len(),
    {
        self.toks.len()
    }

    fn tok(&self, i: usize) -> (r: Option<&Token>)
        ensures
            match r {
                Some(t) => tok_at(self@, i as nat) == Some(t@),
                None => tok_at(self@, i as nat) is None,
            },
    {
        if i < self.toks.len() {
            Some(&self.toks[i].1)
        } else {
            None
        }
    }

    fn is(&self, i: usize, t: &Token) -> (r: bool)
        ensures
            r == is_tok(self@, i as nat, t@),
    {
        match self.tok(i) {
            Some(u) => token_eq(u, t),
            None => false,
        }
    }

    fn eof(&self) -> (r: usize)
        ensures
            r == eof_offset(self@),
    {
        let loc = if self.toks.len() == 0 {
            0
        } else {
            self.toks[self.toks.len() - 1].2
        };
        if loc <= self.src_len {
            loc
        } else {
            self.src_len
        }
    }

    fn fail(&self, i: usize, expected: Vec<String>) -> (r: ParseError)
        ensures
            r@ == fail_at(self@, i as nat, strings_view(expected@)),
    {
        if i < self.toks.len() {
            let (a, t, b) = &self.toks[i];
            ParseError::UnexpectedToken { token: t.to_text(), expected, span: (*a, *b) }
        } else {
            match &self.err {
                Some(e) => ParseError::Lexical(e.clone()),
                None => ParseError::UnexpectedEof { expected, offset: self.eof() },
            }
        }
    }

    fn stall(&self) -> (r: ParseError)
        ensures
            r@ == stall(self@),
    {
        ParseError::InvalidToken { offset: self.eof() }
    }

    fn expect(&self, i: usize, t: Token) -> (r: Result<usize, ParseError>)
        requires
            i <= self@.toks.len(),
            addressable(self@),
        ensures
            match r {
                Ok(j) => expect_s(self@, i as nat, t@) == Ok::<nat, ParseErrorV>(j as nat),
                Err(e) => expect_s(self@, i as nat, t@) == Err::<nat, ParseErrorV>(e@),
            },
            r matches Ok(j) ==> j == i + 1 && j <= self@.toks.len(),
    {
        if self.is(i, &t) {
            Ok(i + 1)
        } else {
            Err(self.fail(i, quoted_list(&t)))
        }
    }

    fn ident(&self, i: usize) -> (r: Result<Name, ParseError>)
        ensures
            match r {
                Ok(x) => ident_s(self@, i as nat) == Ok::<Seq<char>, ParseErrorV>(x@),
                Err(e) => ident_s(self@, i as nat) == Err::<Seq<char>, ParseErrorV>(e@),
            },
            r is Ok ==> i < self@.toks.len(),
    {
        match self.tok(i) {
            Some(Token::Ident(x)) => Ok(x.clone()),
            _ => {
                let expected = vec!["an identifier".to_owned()];
                proof {
                    assert(strings_view(expected@) =~= expect_ident());
                }
                Err(self.fail(i, expected))
            },
        }
    }
}

fn quoted_list(t: &Token) -> (r: Vec<String>)
    ensures
        strings_view(r@) == quoted(t@),
{
    let mut s = "\"".to_owned();
    s.append(t.to_text().as_str());
    s.append("\"");
    let r = vec![s];
    assert(strings_view(r@) =~= quoted(t@));
    r
}

fn idents(ts: &Tokens, i: usize) -> (r: (Vec<Name>, usize))
    requires
        i <= ts@.toks.len(),
        addressable(ts@),
    ensures
        idents_s(ts@, i as nat) == (names_view(r.0@), r.1 as nat),
        i <= r.1 <= ts@.toks.len(),
        r.1 == i + r.0@.len(),
{
    let mut out: Vec<Name> = Vec::new();
    let mut j = i;
    loop
        invariant
            i <= j <= ts@.toks.len(),
            addressable(ts@),
            j == i + out@.len(),
            idents_s(ts@, i as nat) == (
                names_view(out@) + idents_s(ts@, j as nat).0,
                idents_s(ts@, j as nat).1,
            ),
        decreases ts@.toks.len() - j,
    {
        match ts.tok(j) {
            Some(Token::Ident(x)) => {
                let ghost prev = out@;
                out.push(x.clone());
                proof {
                    assert(names_view(out@) =~= names_view(prev).push(x@));
                    let rest = idents_s(ts@, (j + 1) as nat).0;
                    assert(names_view(prev) + (seq![x@] + rest) =~= names_view(out@) + rest);
                }
                j = j + 1;
            },
            _ => {
                proof {
                    assert(names_view(out@) + Seq::<Seq<char>>::empty() =~= names_view(out@));
                }
                return (out, j);
            },
        }
    }
}

fn mult_at_exec(ts: &Tokens, i: usize) -> (r: Option<Mult>)
    ensures
        r == mult_at(ts@, i as nat),
{
    match ts.tok(i) {
        Some(Token::Number(n)) => {
            if *n == 0 {
                Some(Mult::Zero)
            } else if *n == 1 {
                Some(Mult::One)
            } else {
                None
            }
        },
        Some(Token::Omega) => Some(Mult::Many),
        _ => None,
    }
}

fn closed_by(ts: &Tokens, k: usize, close: Token, t: Raw) -> (r: Result<(Raw, usize), ParseError>)
    requires
        k <= ts@.toks.len(),
        addressable(ts@),
    ensures
        raw_result_view(r) == closed_by_s(ts@, k as nat, close@, t@),
        r matches Ok((_, l)) ==> l == k + 1 && l <= ts@.toks.len(),
{
    match ts.expect(k, close) {
        Ok(l) => Ok((t, l)),
        Err(e) => Err(e),
    }
}

fn term(ts: &Tokens, fuel: u64, i: usize) -> (r: Result<(Raw, usize), ParseError>)
    requires
        i <= ts@.toks.len(),
        addressable(ts@),
    ensures
        raw_result_view(r) == term_s(ts@, fuel as nat, i as nat),
        r matches Ok((_, j)) ==> i < j <= ts@.toks.len(),
    decreases fuel,
{
    if fuel == 0 {
        return Err(ts.stall());
    }
    let f = fuel - 1;
    match ts.tok(i) {
        Some(Token::Backslash) | Some(Token::Fun) => lam(ts, f, i),
        Some(Token::Let) => {
            if ts.is(i + 1, &Token::LParen) {
                letpair(ts, f, i)
            } else {
                letdef(ts, f, i)
            }
        },
        Some(Token::If) => if_term(ts, f, i),
        _ => arrow(ts, f, i),
    }
}

fn lam(ts: &Tokens, fuel: u64, i: usize) -> (r: Result<(Raw, usize), ParseError>)
    requires
        i < ts@.toks.len(),
        addressable(ts@),
    ensures
        raw_result_view(r) == lam_s(ts@, fuel as nat, i as nat),
        r matches Ok((_, j)) ==> i < j <= ts@.toks.len(),
    decreases fuel,
{
    if fuel == 0 {
        return Err(ts.stall());
    }
    let f = fuel - 1;
    let (ns, j) = idents(ts, i + 1);
    if ns.len() == 0 {
        let expected = vec!["an identifier".to_owned()];
        proof {
            assert(strings_view(expected@) =~= expect_ident());
        }
        return Err(ts.fail(i + 1, expected));
    }
    let k = match ts.expect(j, Token::FatArrow) {
        Ok(k) => k,
        Err(e) => return Err(e),
    };
    match term(ts, f, k) {
        Ok((body, m)) => Ok((Raw::Lam(ns, Box::new(body)), m)),
        Err(e) => Err(e),
    }
}

fn letpair(ts: &Tokens, fuel: u64, i: usize) -> (r: Result<(Raw, usize), ParseError>)
    requires
        i < ts@.toks.len(),
        is_tok(ts@, (i + 1) as nat, TokenV::LParen),
        addressable(ts@),
    ensures
        raw_result_view(r) == letpair_s(ts@, fuel as nat, i as nat),
        r matches Ok((_, j)) ==> i < j <= ts@.toks.len(),
    decreases fuel,
{
    if fuel == 0 {
        return Err(ts.stall());
    }
    let f = fuel - 1;
    let x = match ts.ident(i + 2) {
        Ok(x) => x,
        Err(e) => return Err(e),
    };
    match ts.expect(i + 3, Token::Comma) {
        Ok(_) => {},
        Err(e) => return Err(e),
    };
    let y = match ts.ident(i + 4) {
        Ok(y) => y,
        Err(e) => return Err(e),
    };
    match ts.expect(i + 5, Token::RParen) {
        Ok(_) => {},
        Err(e) => return Err(e),
    };
    match ts.expect(i + 6, Token::Eq) {
        Ok(_) => {},
        Err(e) => return Err(e),
    };
    let (t, j) = match term(ts, f, i + 7) {
        Ok(p) => p,
        Err(e) => return Err(e),
    };
    let k = match ts.expect(j, Token::In) {
        Ok(k) => k,
        Err(e) => return Err(e),
    };
    match term(ts, f, k) {
        Ok((body, m)) => Ok((Raw::LetPair(x, y, Box::new(t), Box::new(body)), m)),
        Err(e) => Err(e),
    }
}

fn letdef(ts: &Tokens, fuel: u64, i: usize) -> (r: Result<(Raw, usize), ParseError>)
    requires
        i < ts@.toks.len(),
        addressable(ts@),
    ensures
        raw_result_view(r) == letdef_s(ts@, fuel as nat, i as nat),
        r matches Ok((_, j)) ==> i < j <= ts@.toks.len(),
    decreases fuel,
{
    if fuel == 0 {
        return Err(ts.stall());
    }
    let f = fuel - 1;
    let x = match ts.ident(i + 1) {
        Ok(x) => x,
        Err(e) => return Err(e),
    };
    match ts.expect(i + 2, Token::Colon) {
        Ok(_) => {},
        Err(e) => return Err(e),
    };
    let (ty, j) = match term(ts, f, i + 3) {
        Ok(p) => p,
        Err(e) => return Err(e),
    };
    let k = match ts.expect(j, Token::ColonEq) {
        Ok(k) => k,
        Err(e) => return Err(e),
    };
    let (val, l) = match term(ts, f, k) {
        Ok(p) => p,
        Err(e) => return Err(e),
    };
    let m = match ts.expect(l, Token::In) {
        Ok(m) => m,
        Err(e) => return Err(e),
    };
    match term(ts, f, m) {
        Ok((body, n)) => Ok((Raw::Let(x, Box::new(ty), Box::new(val), Box::new(body)), n)),
        Err(e) => Err(e),
    }
}

fn if_term(ts: &Tokens, fuel: u64, i: usize) -> (r: Result<(Raw, usize), ParseError>)
    requires
        i < ts@.toks.len(),
        addressable(ts@),
    ensures
        raw_result_view(r) == if_s(ts@, fuel as nat, i as nat),
        r matches Ok((_, j)) ==> i < j <= ts@.toks.len(),
    decreases fuel,
{
    if fuel == 0 {
        return Err(ts.stall());
    }
    let f = fuel - 1;
    let (c, j) = match term(ts, f, i + 1) {
        Ok(p) => p,
        Err(e) => return Err(e),
    };
    let k = match ts.expect(j, Token::Then) {
        Ok(k) => k,
        Err(e) => return Err(e),
    };
    let (a, l) = match term(ts, f, k) {
        Ok(p) => p,
        Err(e) => return Err(e),
    };
    let m = match ts.expect(l, Token::Else) {
        Ok(m) => m,
        Err(e) => return Err(e),
    };
    match term(ts, f, m) {
        Ok((b, n)) => Ok((Raw::If(Box::new(c), Box::new(a), Box::new(b)), n)),
        Err(e) => Err(e),
    }
}

/// The view of a binder result.
pub open spec fn binder_view(r: Option<(Option<Mult>, Name, Raw, usize)>) -> Option<
    (Option<Mult>, Seq<char>, RawV, nat),
> {
    match r {
        Some((m, x, a, j)) => Some((m, x@, a@, j as nat)),
        None => None,
    }
}

fn binder(ts: &Tokens, fuel: u64, i: usize) -> (r: Option<(Option<Mult>, Name, Raw, usize)>)
    requires
        i <= ts@.toks.len(),
        addressable(ts@),
    ensures
        binder_view(r) == binder_s(ts@, fuel as nat, i as nat),
        r matches Some((_, _, _, j)) ==> i < j <= ts@.toks.len(),
    decreases fuel,
{
    if fuel == 0 || !ts.is(i, &Token::LParen) {
        return None;
    }
    let f = fuel - 1;
    let m = mult_at_exec(ts, i + 1);
    let p = if m.is_some() {
        i + 2
    } else {
        i + 1
    };
    let x = match ts.tok(p) {
        Some(Token::Ident(x)) => x.clone(),
        _ => return None,
    };
    if !ts.is(p + 1, &Token::Colon) {
        return None;
    }
    match term(ts, f, p + 2) {
        Ok((a, j)) => {
            if ts.is(j, &Token::RParen) {
                Some((m, x, a, j + 1))
            } else {
                None
            }
        },
        Err(_) => None,
    }
}

fn arrow(ts: &Tokens, fuel: u64, i: usize) -> (r: Result<(Raw, usize), ParseError>)
    requires
        i <= ts@.toks.len(),
        addressable(ts@),
    ensures
        raw_result_view(r) == arrow_s(ts@, fuel as nat, i as nat),
        r matches Ok((_, j)) ==> i < j <= ts@.toks.len(),
    decreases fuel,
{
    if fuel == 0 {
        return Err(ts.stall());
    }
    let f = fuel - 1;
    match binder(ts, f, i) {
        Some((m, x, a, j)) => {
            if ts.is(j, &Token::Arrow) {
                return match arrow(ts, f, j + 1) {
                    Ok((b, k)) => {
                        let m = match m {
                            Some(m) => m,
                            None => Mult::Many,
                        };
                        Ok((Raw::Pi(m, x, Box::new(a), Box::new(b)), k))
                    },
                    Err(e) => Err(e),
                };
            }
        },
        None => {},
    }
    let (lhs, j) = match amp(ts, f, i) {
        Ok(p) => p,
        Err(e) => return Err(e),
    };
    if ts.is(j, &Token::Arrow) {
        match arrow(ts, f, j + 1) {
            Ok((b, k)) => Ok((Raw::Pi(Mult::Many, "_".to_owned(), Box::new(lhs), Box::new(b)), k)),
            Err(e) => Err(e),
        }
    } else {
        Ok((lhs, j))
    }
}

fn amp(ts: &Tokens, fuel: u64, i: usize) -> (r: Result<(Raw, usize), ParseError>)
    requires
        i <= ts@.toks.len(),
        addressable(ts@),
    ensures
        raw_result_view(r) == amp_s(ts@, fuel as nat, i as nat),
        r matches Ok((_, j)) ==> i < j <= ts@.toks.len(),
    decreases fuel,
{
    if fuel == 0 {
        return Err(ts.stall());
    }
    let f = fuel - 1;
    let (lhs, j) = match star(ts, f, i) {
        Ok(p) => p,
        Err(e) => return Err(e),
    };
    if ts.is(j, &Token::Amp) {
        match amp(ts, f, j + 1) {
            Ok((rhs, k)) => Ok((Raw::With(Box::new(lhs), Box::new(rhs)), k)),
            Err(e) => Err(e),
        }
    } else {
        Ok((lhs, j))
    }
}

fn star(ts: &Tokens, fuel: u64, i: usize) -> (r: Result<(Raw, usize), ParseError>)
    requires
        i <= ts@.toks.len(),
        addressable(ts@),
    ensures
        raw_result_view(r) == star_s(ts@, fuel as nat, i as nat),
        r matches Ok((_, j)) ==> i < j <= ts@.toks.len(),
    decreases fuel,
{
    if fuel == 0 {
        return Err(ts.stall());
    }
    let f = fuel - 1;
    match binder(ts, f, i) {
        Some((m, x, a, j)) => {
            if ts.is(j, &Token::Star) {
                return match star(ts, f, j + 1) {
                    Ok((b, k)) => {
                        let m = match m {
                            Some(m) => m,
                            None => Mult::One,
                        };
                        Ok((Raw::Tensor(m, x, Box::new(a), Box::new(b)), k))
                    },
                    Err(e) => Err(e),
                };
            }
        },
        None => {},
    }
    let (lhs, j) = match app(ts, f, i) {
        Ok(p) => p,
        Err(e) => return Err(e),
    };
    if ts.is(j, &Token::Star) {
        match star(ts, f, j + 1) {
            Ok((b, k)) => Ok(
                (Raw::Tensor(Mult::One, "_".to_owned(), Box::new(lhs), Box::new(b)), k),
            ),
            Err(e) => Err(e),
        }
    } else {
        Ok((lhs, j))
    }
}

fn app_head(ts: &Tokens, fuel: u64, i: usize) -> (r: Result<(Raw, usize), ParseError>)
    requires
        i <= ts@.toks.len(),
        addressable(ts@),
    ensures
        raw_result_view(r) == app_head_s(ts@, fuel as nat, i as nat),
        r matches Ok((_, j)) ==> i < j <= ts@.toks.len(),
    decreases fuel,
{
    if fuel == 0 {
        return Err(ts.stall());
    }
    let f = fuel - 1;
    match ts.tok(i) {
        Some(Token::Fst) => match atom(ts, f, i + 1) {
            Ok((t, j)) => Ok((Raw::Fst(Box::new(t)), j)),
            Err(e) => Err(e),
        },
        Some(Token::Snd) => match atom(ts, f, i + 1) {
            Ok((t, j)) => Ok((Raw::Snd(Box::new(t)), j)),
            Err(e) => Err(e),
        },
        _ => atom(ts, f, i),
    }
}

fn app(ts: &Tokens, fuel: u64, i: usize) -> (r: Result<(Raw, usize), ParseError>)
    requires
        i <= ts@.toks.len(),
        addressable(ts@),
    ensures
        raw_result_view(r) == app_s(ts@, fuel as nat, i as nat),
        r matches Ok((_, j)) ==> i < j <= ts@.toks.len(),
    decreases fuel,
{
    if fuel == 0 {
        return Err(ts.stall());
    }
    let f = fuel - 1;
    match app_head(ts, f, i) {
        Ok((t, j)) => app_rest(ts, f, t, j),
        Err(e) => Err(e),
    }
}

fn app_rest(ts: &Tokens, fuel: u64, acc: Raw, i: usize) -> (r: Result<(Raw, usize), ParseError>)
    requires
        i <= ts@.toks.len(),
        addressable(ts@),
    ensures
        raw_result_view(r) == app_rest_s(ts@, fuel as nat, acc@, i as nat),
        r matches Ok((_, j)) ==> i <= j <= ts@.toks.len(),
    decreases fuel,
{
    if fuel == 0 {
        return Err(ts.stall());
    }
    let starts = match ts.tok(i) {
        Some(Token::Ident(_)) | Some(Token::Type) | Some(Token::Bool) | Some(Token::True) | Some(
            Token::False,
        ) | Some(Token::LParen) | Some(Token::LAngle) => true,
        _ => false,
    };
    if !starts {
        return Ok((acc, i));
    }
    let f = fuel - 1;
    match atom(ts, f, i) {
        Ok((a, j)) => app_rest(ts, f, Raw::App(Box::new(acc), Box::new(a)), j),
        Err(e) => Err(e),
    }
}

fn atom(ts: &Tokens, fuel: u64, i: usize) -> (r: Result<(Raw, usize), ParseError>)
    requires
        i <= ts@.toks.len(),
        addressable(ts@),
    ensures
        raw_result_view(r) == atom_s(ts@, fuel as nat, i as nat),
        r matches Ok((_, j)) ==> i < j <= ts@.toks.len(),
    decreases fuel,
{
    proof {
        reveal(angle_s);
    }
    if fuel == 0 {
        return Err(ts.stall());
    }
    let f = fuel - 1;
    match ts.tok(i) {
        Some(Token::Ident(s)) => Ok((Raw::Var(s.clone()), i + 1)),
        Some(Token::Type) => Ok((Raw::U, i + 1)),
        Some(Token::Bool) => Ok((Raw::Bool, i + 1)),
        Some(Token::True) => Ok((Raw::True, i + 1)),
        Some(Token::False) => Ok((Raw::False, i + 1)),
        Some(Token::LParen) => paren(ts, f, i),
        Some(Token::LAngle) => angle(ts, f, i),
        _ => {
            let expected = vec!["a term".to_owned()];
            proof {
                assert(strings_view(expected@) =~= expect_term());
            }
            Err(ts.fail(i, expected))
        },
    }
}

fn paren(ts: &Tokens, fuel: u64, i: usize) -> (r: Result<(Raw, usize), ParseError>)
    requires
        i < ts@.toks.len(),
        addressable(ts@),
    ensures
        raw_result_view(r) == paren_s(ts@, fuel as nat, i as nat),
        r matches Ok((_, j)) ==> i < j <= ts@.toks.len(),
    decreases fuel,
{
    proof {
        reveal(paren_close_s);
    }
    if fuel == 0 {
        return Err(ts.stall());
    }
    let f = fuel - 1;
    match term(ts, f, i + 1) {
        Ok((t, j)) => paren_close(ts, f, t, j),
        Err(e) => Err(e),
    }
}

fn paren_close(ts: &Tokens, fuel: u64, t: Raw, j: usize) -> (r: Result<(Raw, usize), ParseError>)
    requires
        j <= ts@.toks.len(),
        addressable(ts@),
    ensures
        raw_result_view(r) == paren_close_s(ts@, fuel as nat, t@, j as nat),
        r matches Ok((_, k)) ==> j < k <= ts@.toks.len(),
    decreases fuel,
{
    proof {
        lemma_paren_close_unfold(ts@, fuel as nat, t@, j as nat);
    }
    if fuel == 0 {
        return Err(ts.stall());
    }
    let f = fuel - 1;
    let pair = match ts.tok(j) {
        Some(Token::RParen) => return Ok((t, j + 1)),
        Some(Token::Comma) => true,
        Some(Token::Colon) => false,
        _ => {
            let expected = vec!["\")\"".to_owned(), "\",\"".to_owned(), "\":\"".to_owned()];
            proof {
                assert(strings_view(expected@) =~= expect_close());
            }
            return Err(ts.fail(j, expected));
        },
    };
    let (u, k) = match term(ts, f, j + 1) {
        Ok(p) => p,
        Err(e) => return Err(e),
    };
    if pair {
        closed_by(ts, k, Token::RParen, Raw::Pair(Box::new(t), Box::new(u)))
    } else {
        closed_by(ts, k, Token::RParen, Raw::Ann(Box::new(t), Box::new(u)))
    }
}

fn angle(ts: &Tokens, fuel: u64, i: usize) -> (r: Result<(Raw, usize), ParseError>)
    requires
        i < ts@.toks.len(),
        addressable(ts@),
    ensures
        raw_result_view(r) == angle_s(ts@, fuel as nat, i as nat),
        r matches Ok((_, j)) ==> i < j <= ts@.toks.len(),
    decreases fuel,
{
    proof {
        lemma_angle_unfold(ts@, fuel as nat, i as nat);
    }
    if fuel == 0 {
        return Err(ts.stall());
    }
    let f = fuel - 1;
    let (a, j) = match term(ts, f, i + 1) {
        Ok(p) => p,
        Err(e) => return Err(e),
    };
    let k = match ts.expect(j, Token::Comma) {
        Ok(k) => k,
        Err(e) => return Err(e),
    };
    let (b, l) = match term(ts, f, k) {
        Ok(p) => p,
        Err(e) => return Err(e),
    };
    closed_by(ts, l, Token::RAngle, Raw::WPair(Box::new(a), Box::new(b)))
}


/// The view of a declaration parse result.
pub open spec fn decl_result_view(r: Result<(Decl, usize), ParseError>) -> Result<(DeclV, nat), ParseErrorV> {
    match r {
        Ok((d, j)) => Ok((d@, j as nat)),
        Err(e) => Err(e@),
    }
}

fn decl(ts: &Tokens, fuel: u64, i: usize) -> (r: Result<(Decl, usize), ParseError>)
    requires
        i <= ts@.toks.len(),
        addressable(ts@),
    ensures
        decl_result_view(r) == decl_s(ts@, fuel as nat, i as nat),
        r matches Ok((_, j)) ==> i < j <= ts@.toks.len(),
{
    proof {
        reveal(decl_s);
    }
    match ts.tok(i) {
        Some(Token::Def) => {
            let x = match ts.ident(i + 1) {
                Ok(x) => x,
                Err(e) => return Err(e),
            };
            match ts.expect(i + 2, Token::Colon) {
                Ok(_) => {},
                Err(e) => return Err(e),
            };
            let (ty, j) = match term(ts, fuel, i + 3) {
                Ok(p) => p,
                Err(e) => return Err(e),
            };
            let k = match ts.expect(j, Token::ColonEq) {
                Ok(k) => k,
                Err(e) => return Err(e),
            };
            match term(ts, fuel, k) {
                Ok((body, l)) => Ok((Decl::Def(x, ty, body), l)),
                Err(e) => Err(e),
            }
        },
        Some(Token::Eval) => match term(ts, fuel, i + 1) {
            Ok((t, j)) => Ok((Decl::Eval(t), j)),
            Err(e) => Err(e),
        },
        Some(Token::Check) => {
            let (t, j) = match term(ts, fuel, i + 1) {
                Ok(p) => p,
                Err(e) => return Err(e),
            };
            let k = match ts.expect(j, Token::Colon) {
                Ok(k) => k,
                Err(e) => return Err(e),
            };
            match term(ts, fuel, k) {
                Ok((ty, l)) => Ok((Decl::Check(t, ty), l)),
                Err(e) => Err(e),
            }
        },
        _ => {
            let expected = vec!["\"check\"".to_owned(), "\"def\"".to_owned(), "\"eval\"".to_owned()];
            proof {
                assert(strings_view(expected@) =~= expect_decl());
            }
            Err(ts.fail(i, expected))
        },
    }
}

fn module(ts: &Tokens) -> (r: Result<Vec<Decl>, ParseError>)
    requires
        addressable(ts@),
    ensures
        match r {
            Ok(ds) => module_s(ts@) == Ok::<Seq<DeclV>, ParseErrorV>(decls_view(ds@)),
            Err(e) => module_s(ts@) == Err::<Seq<DeclV>, ParseErrorV>(e@),
        },
{
    let mut out: Vec<Decl> = Vec::new();
    let mut i: usize = 0;
    let n = ts.len();
    let ghost fuel = PARSE_FUEL as nat;
    loop
        invariant
            i <= n,
            n == ts@.toks.len(),
            addressable(ts@),
            fuel == PARSE_FUEL as nat,
            module_s(ts@) == match module_from_s(ts@, fuel, i as nat) {
                Ok(rest) => Ok::<Seq<DeclV>, ParseErrorV>(decls_view(out@) + rest),
                Err(e) => Err(e),
            },
        decreases n - i,
    {
        proof {
            lemma_module_from_unfold(ts@, fuel, i as nat);
        }
        if i >= n {
            return match &ts.err {
                Some(e) => Err(ParseError::Lexical(e.clone())),
                None => {
                    proof {
                        assert(decls_view(out@) + Seq::<DeclV>::empty() =~= decls_view(out@));
                    }
                    Ok(out)
                },
            };
        }
        let (d, j) = match decl(ts, PARSE_FUEL, i) {
            Ok(p) => p,
            Err(e) => return Err(e),
        };
        let ghost prev = out@;
        let ghost dv = d@;
        out.push(d);
        proof {
            assert(decls_view(out@) =~= decls_view(prev).push(dv));
            match module_from_s(ts@, fuel, j as nat) {
                Ok(rest) => {
                    assert(decls_view(prev) + (seq![dv] + rest) =~= decls_view(out@) + rest);
                },
                Err(_) => {},
            }
        }
        i = j;
    }
}

/// The stream of tokens of `input`.
fn tokens(input: &str) -> (r: Tokens)
    ensures
        r@ == tokens_of(input@),
        addressable(r@),
{
    let (toks, err) = lex(input);
    let n = toks.len();
    let src_len = input.as_bytes().len();
    let r = Tokens { toks, err, src_len };
    proof {
        assert(r@.toks == lex_spec(input@).0);
        assert(r@.lex_err == lex_spec(input@).1);
    }
    r
}

/// The parser of the surface language: whole modules, single terms and
/// lines of interactive input.
#[derive(Debug)]
pub struct Parser {}

impl Default for Parser {
    fn default() -> (r: Self)
        ensures
            r == (Parser {}),
    {
        Parser {}
    }
}

impl Parser {
    /// A parser.
    pub fn new() -> (r: Self)
        ensures
            r == (Parser {}),
    {
        Parser {}
    }

    /// The declarations of a module. Every error, a lexical one included,
    /// is a syntax error.
    pub fn parse_module(&self, input: &str) -> (r: TinyQttResult<Vec<Decl>>)
        ensures
            match r {
                Ok(ds) => module_s(tokens_of(input@)) == Ok::<Seq<DeclV>, ParseErrorV>(decls_view(ds@)),
                Err(TinyQttError::Parse(e)) => module_s(tokens_of(input@)) == Err::<Seq<DeclV>, ParseErrorV>(e@),
                Err(_) => false,
            },
    {
        let ts = tokens(input);
        match module(&ts) {
            Ok(ds) => Ok(ds),
            Err(e) => Err(TinyQttError::Parse(e)),
        }
    }

    /// An input that is exactly one term.
    pub fn parse_term(&self, input: &str) -> (r: TinyQttResult<Raw>)
        ensures
            match r {
                Ok(t) => term_top_s(tokens_of(input@)) == Ok::<RawV, ParseErrorV>(t@),
                Err(TinyQttError::Parse(e)) => term_top_s(tokens_of(input@)) == Err::<RawV, ParseErrorV>(e@),
                Err(_) => false,
            },
    {
        let ts = tokens(input);
        let (t, j) = match term(&ts, PARSE_FUEL, 0) {
            Ok(p) => p,
            Err(e) => return Err(TinyQttError::Parse(e)),
        };
        match finish(&ts, j) {
            Some(e) => Err(TinyQttError::Parse(e)),
            None => Ok(t),
        }
    }

    /// A line of interactive input: a declaration when it starts with a
    /// declaration keyword, else a term.
    pub fn parse_repl(&self, input: &str) -> (r: TinyQttResult<ReplInput>)
        ensures
            match r {
                Ok(x) => repl_s(tokens_of(input@)) == Ok::<ReplInputV, ParseErrorV>(x@),
                Err(TinyQttError::Parse(e)) => repl_s(tokens_of(input@)) == Err::<ReplInputV, ParseErrorV>(e@),
                Err(_) => false,
            },
    {
        let ts = tokens(input);
        let is_decl = match ts.tok(0) {
            Some(Token::Def) | Some(Token::Eval) | Some(Token::Check) => true,
            _ => false,
        };
        let (x, j) = if is_decl {
            match decl(&ts, PARSE_FUEL, 0) {
                Ok((d, j)) => (ReplInput::Decl(d), j),
                Err(e) => return Err(TinyQttError::Parse(e)),
            }
        } else {
            match term(&ts, PARSE_FUEL, 0) {
                Ok((t, j)) => (ReplInput::Term(t), j),
                Err(e) => return Err(TinyQttError::Parse(e)),
            }
        };
        match finish(&ts, j) {
            Some(e) => Err(TinyQttError::Parse(e)),
            None => Ok(x),
        }
    }
}

/// What is wrong after a complete phrase that ends before `j`, if anything.
fn finish(ts: &Tokens, j: usize) -> (r: Option<ParseError>)
    requires
        j <= ts@.toks.len(),
    ensures
        match r {
            Some(e) => finish_s(ts@, j as nat) == Some(e@),
            None => finish_s(ts@, j as nat) is None,
        },
{
    if j < ts.toks.len() {
        let (a, t, b) = &ts.toks[j];
        Some(ParseError::ExtraToken { token: t.to_text(), span: (*a, *b) })
    } else {
        match &ts.err {
            Some(e) => Some(ParseError::Lexical(e.clone())),
            None => None,
        }
    }
}


// ---------------------------------------------------------------------
// Every rule that succeeds from a position within the stream stops within
// it, and every error it reports points into the stream.

/// `span` is the span of one of the stream's tokens.
pub open spec fn token_span(ts: TokensV, span: (nat, nat)) -> bool {
    exists|k: int|
        #![trigger ts.toks[k]]
        0 <= k < ts.toks.len() && ts.toks[k].0 == span.0 && ts.toks[k].2 == span.1
}

/// An error that points into the stream: at the span of one of its tokens,
/// at the end of input, or at the lexical error that ended the stream.
pub open spec fn points_into(ts: TokensV, e: ParseErrorV) -> bool {
    match e {
        ParseErrorV::UnexpectedToken { span, .. } => token_span(ts, span),
        ParseErrorV::ExtraToken { span, .. } => token_span(ts, span),
        ParseErrorV::UnexpectedEof { offset, .. } => offset == eof_offset(ts),
        ParseErrorV::InvalidToken { offset } => offset == eof_offset(ts),
        ParseErrorV::Lexical(o) => ts.lex_err == Some(o),
    }
}

/// A result that stays within the stream: a success ends within it and an
/// error points into it.
pub open spec fn ends_within(ts: TokensV, r: Result<(RawV, nat), ParseErrorV>) -> bool {
    &&& r matches Ok((_, j)) ==> j <= ts.toks.len()
    &&& r matches Err(e) ==> points_into(ts, e)
}

/// A success that moves past position `i`.
pub open spec fn moves_past(i: nat, r: Result<(RawV, nat), ParseErrorV>) -> bool {
    r matches Ok((_, j)) ==> i < j
}

/// The error for a missing token points into the stream.
pub broadcast proof fn lemma_fail_at_points(ts: TokensV, i: nat, expected: Seq<Seq<char>>)
    ensures
        #[trigger] points_into(ts, fail_at(ts, i, expected)),
{
    if i < ts.toks.len() {
        assert(ts.toks[i as int].0 == ts.toks[i as int].0);
    }
}

proof fn lemma_idents_bound(ts: TokensV, i: nat)
    requires
        i <= ts.toks.len(),
    ensures
        i <= idents_s(ts, i).1 <= ts.toks.len(),
    decreases pos_measure(ts, i),
{
    if let Some(TokenV::Ident(_)) = tok_at(ts, i) {
        lemma_idents_bound(ts, i + 1);
    }
}

proof fn lemma_term_bound(ts: TokensV, fuel: nat, i: nat)
    requires
        i <= ts.toks.len(),
    ensures
        ends_within(ts, term_s(ts, fuel, i)),
        moves_past(i, term_s(ts, fuel, i)),
    decreases fuel,
{
    broadcast use lemma_fail_at_points;

    if fuel > 0 {
        let f = (fuel - 1) as nat;
        match tok_at(ts, i) {
            Some(TokenV::Backslash) | Some(TokenV::Fun) => lemma_lam_bound(ts, f, i),
            Some(TokenV::Let) => if is_tok(ts, i + 1, TokenV::LParen) {
                lemma_letpair_bound(ts, f, i);
            } else {
                lemma_letdef_bound(ts, f, i);
            },
            Some(TokenV::If) => lemma_if_bound(ts, f, i),
            _ => lemma_arrow_bound(ts, f, i),
        }
    }
}

proof fn lemma_lam_bound(ts: TokensV, fuel: nat, i: nat)
    requires
        i < ts.toks.len(),
    ensures
        ends_within(ts, lam_s(ts, fuel, i)),
        moves_past(i, lam_s(ts, fuel, i)),
    decreases fuel,
{
    broadcast use lemma_fail_at_points;

    if fuel > 0 {
        let f = (fuel - 1) as nat;
        lemma_idents_bound(ts, i + 1);
        let j = idents_s(ts, i + 1).1;
        if let Ok(k) = expect_s(ts, j, TokenV::FatArrow) {
            lemma_term_bound(ts, f, k);
        }
    }
}

proof fn lemma_letpair_bound(ts: TokensV, fuel: nat, i: nat)
    requires
        i < ts.toks.len(),
    ensures
        ends_within(ts, letpair_s(ts, fuel, i)),
        moves_past(i, letpair_s(ts, fuel, i)),
    decreases fuel,
{
    broadcast use lemma_fail_at_points;

    if fuel > 0 {
        let f = (fuel - 1) as nat;
        if i + 7 <= ts.toks.len() {
            lemma_term_bound(ts, f, i + 7);
            if let Ok((_, j)) = term_s(ts, f, i + 7) {
                if let Ok(k) = expect_s(ts, j, TokenV::In) {
                    lemma_term_bound(ts, f, k);
                }
            }
        }
    }
}

proof fn lemma_letdef_bound(ts: TokensV, fuel: nat, i: nat)
    requires
        i < ts.toks.len(),
    ensures
        ends_within(ts, letdef_s(ts, fuel, i)),
        moves_past(i, letdef_s(ts, fuel, i)),
    decreases fuel,
{
    broadcast use lemma_fail_at_points;

    if fuel > 0 {
        let f = (fuel - 1) as nat;
        if i + 3 <= ts.toks.len() {
            lemma_term_bound(ts, f, i + 3);
            if let Ok((_, j)) = term_s(ts, f, i + 3) {
                if let Ok(k) = expect_s(ts, j, TokenV::ColonEq) {
                    lemma_term_bound(ts, f, k);
                    if let Ok((_, l)) = term_s(ts, f, k) {
                        if let Ok(m) = expect_s(ts, l, TokenV::In) {
                            lemma_term_bound(ts, f, m);
                        }
                    }
                }
            }
        }
    }
}

proof fn lemma_if_bound(ts: TokensV, fuel: nat, i: nat)
    requires
        i < ts.toks.len(),
    ensures
        ends_within(ts, if_s(ts, fuel, i)),
        moves_past(i, if_s(ts, fuel, i)),
    decreases fuel,
{
    broadcast use lemma_fail_at_points;

    if fuel > 0 {
        let f = (fuel - 1) as nat;
        lemma_term_bound(ts, f, i + 1);
        if let Ok((_, j)) = term_s(ts, f, i + 1) {
            if let Ok(k) = expect_s(ts, j, TokenV::Then) {
                lemma_term_bound(ts, f, k);
                if let Ok((_, l)) = term_s(ts, f, k) {
                    if let Ok(m) = expect_s(ts, l, TokenV::Else) {
                        lemma_term_bound(ts, f, m);
                    }
                }
            }
        }
    }
}

proof fn lemma_binder_bound(ts: TokensV, fuel: nat, i: nat)
    requires
        i <= ts.toks.len(),
    ensures
        binder_s(ts, fuel, i) matches Some((_, _, _, j)) ==> i < j <= ts.toks.len(),
    decreases fuel,
{
    if fuel > 0 && is_tok(ts, i, TokenV::LParen) {
        let f = (fuel - 1) as nat;
        let m = mult_at(ts, i + 1);
        let p: nat = if m is Some {
            i + 2
        } else {
            i + 1
        };
        if tok_at(ts, p) is Some && is_tok(ts, p + 1, TokenV::Colon) {
            lemma_term_bound(ts, f, p + 2);
        }
    }
}

proof fn lemma_arrow_bound(ts: TokensV, fuel: nat, i: nat)
    requires
        i <= ts.toks.len(),
    ensures
        ends_within(ts, arrow_s(ts, fuel, i)),
        moves_past(i, arrow_s(ts, fuel, i)),
    decreases fuel,
{
    broadcast use lemma_fail_at_points;

    if fuel > 0 {
        let f = (fuel - 1) as nat;
        lemma_binder_bound(ts, f, i);
        match binder_s(ts, f, i) {
            Some((_, _, _, j)) if is_tok(ts, j, TokenV::Arrow) => lemma_arrow_bound(ts, f, j + 1),
            _ => {
                lemma_amp_bound(ts, f, i);
                if let Ok((_, j)) = amp_s(ts, f, i) {
                    if is_tok(ts, j, TokenV::Arrow) {
                        lemma_arrow_bound(ts, f, j + 1);
                    }
                }
            },
        }
    }
}

proof fn lemma_amp_bound(ts: TokensV, fuel: nat, i: nat)
    requires
        i <= ts.toks.len(),
    ensures
        ends_within(ts, amp_s(ts, fuel, i)),
        moves_past(i, amp_s(ts, fuel, i)),
    decreases fuel,
{
    broadcast use lemma_fail_at_points;

    if fuel > 0 {
        let f = (fuel - 1) as nat;
        lemma_star_bound(ts, f, i);
        if let Ok((_, j)) = star_s(ts, f, i) {
            if is_tok(ts, j, TokenV::Amp) {
                lemma_amp_bound(ts, f, j + 1);
            }
        }
    }
}

proof fn lemma_star_bound(ts: TokensV, fuel: nat, i: nat)
    requires
        i <= ts.toks.len(),
    ensures
        ends_within(ts, star_s(ts, fuel, i)),
        moves_past(i, star_s(ts, fuel, i)),
    decreases fuel,
{
    broadcast use lemma_fail_at_points;

    if fuel > 0 {
        let f = (fuel - 1) as nat;
        lemma_binder_bound(ts, f, i);
        match binder_s(ts, f, i) {
            Some((_, _, _, j)) if is_tok(ts, j, TokenV::Star) => lemma_star_bound(ts, f, j + 1),
            _ => {
                lemma_app_bound(ts, f, i);
                if let Ok((_, j)) = app_s(ts, f, i) {
                    if is_tok(ts, j, TokenV::Star) {
                        lemma_star_bound(ts, f, j + 1);
                    }
                }
            },
        }
    }
}

proof fn lemma_app_head_bound(ts: TokensV, fuel: nat, i: nat)
    requires
        i <= ts.toks.len(),
    ensures
        ends_within(ts, app_head_s(ts, fuel, i)),
        moves_past(i, app_head_s(ts, fuel, i)),
    decreases fuel,
{
    broadcast use lemma_fail_at_points;

    if fuel > 0 {
        let f = (fuel - 1) as nat;
        match tok_at(ts, i) {
            Some(TokenV::Fst) | Some(TokenV::Snd) => lemma_atom_bound(ts, f, i + 1),
            _ => lemma_atom_bound(ts, f, i),
        }
    }
}

proof fn lemma_app_bound(ts: TokensV, fuel: nat, i: nat)
    requires
        i <= ts.toks.len(),
    ensures
        ends_within(ts, app_s(ts, fuel, i)),
        moves_past(i, app_s(ts, fuel, i)),
    decreases fuel,
{
    broadcast use lemma_fail_at_points;

    if fuel > 0 {
        let f = (fuel - 1) as nat;
        lemma_app_head_bound(ts, f, i);
        if let Ok((t, j)) = app_head_s(ts, f, i) {
            lemma_app_rest_bound(ts, f, t, j);
        }
    }
}

proof fn lemma_app_rest_bound(ts: TokensV, fuel: nat, acc: RawV, i: nat)
    requires
        i <= ts.toks.len(),
    ensures
        ends_within(ts, app_rest_s(ts, fuel, acc, i)),
        app_rest_s(ts, fuel, acc, i) matches Ok((_, j)) ==> i <= j,
    decreases fuel,
{
    broadcast use lemma_fail_at_points;

    if fuel > 0 && atom_start(tok_at(ts, i)) {
        let f = (fuel - 1) as nat;
        lemma_atom_bound(ts, f, i);
        if let Ok((a, j)) = atom_s(ts, f, i) {
            lemma_app_rest_bound(ts, f, RawV::App(Box::new(acc), Box::new(a)), j);
        }
    }
}

proof fn lemma_atom_bound(ts: TokensV, fuel: nat, i: nat)
    requires
        i <= ts.toks.len(),
    ensures
        ends_within(ts, atom_s(ts, fuel, i)),
        moves_past(i, atom_s(ts, fuel, i)),
    decreases fuel,
{
    broadcast use lemma_fail_at_points;

    reveal(angle_s);

    if fuel > 0 {
        let f = (fuel - 1) as nat;
        match tok_at(ts, i) {
            Some(TokenV::LParen) => lemma_paren_bound(ts, f, i),
            Some(TokenV::LAngle) => lemma_angle_bound(ts, f, i),
            _ => {},
        }
    }
}

proof fn lemma_paren_bound(ts: TokensV, fuel: nat, i: nat)
    requires
        i < ts.toks.len(),
    ensures
        ends_within(ts, paren_s(ts, fuel, i)),
        moves_past(i, paren_s(ts, fuel, i)),
    decreases fuel,
{
    broadcast use lemma_fail_at_points;

    reveal(paren_close_s);

    if fuel > 0 {
        let f = (fuel - 1) as nat;
        lemma_term_bound(ts, f, i + 1);
        if let Ok((t, j)) = term_s(ts, f, i + 1) {
            lemma_paren_close_bound(ts, f, t, j);
        }
    }
}

proof fn lemma_paren_close_bound(ts: TokensV, fuel: nat, t: RawV, j: nat)
    requires
        j <= ts.toks.len(),
    ensures
        ends_within(ts, paren_close_s(ts, fuel, t, j)),
        moves_past(j, paren_close_s(ts, fuel, t, j)),
    decreases fuel,
{
    broadcast use lemma_fail_at_points;

    lemma_paren_close_unfold(ts, fuel, t, j);
    if fuel > 0 {
        let f = (fuel - 1) as nat;
        match tok_at(ts, j) {
            Some(TokenV::Comma) | Some(TokenV::Colon) => lemma_term_bound(ts, f, j + 1),
            _ => {},
        }
    }
}

proof fn lemma_angle_bound(ts: TokensV, fuel: nat, i: nat)
    requires
        i < ts.toks.len(),
    ensures
        ends_within(ts, angle_s(ts, fuel, i)),
        moves_past(i, angle_s(ts, fuel, i)),
    decreases fuel,
{
    broadcast use lemma_fail_at_points;

    lemma_angle_unfold(ts, fuel, i);
    if fuel > 0 {
        let f = (fuel - 1) as nat;
        lemma_term_bound(ts, f, i + 1);
        if let Ok((_, j)) = term_s(ts, f, i + 1) {
            if let Ok(k) = expect_s(ts, j, TokenV::Comma) {
                lemma_term_bound(ts, f, k);
            }
        }
    }
}

proof fn lemma_decl_bound(ts: TokensV, fuel: nat, i: nat)
    requires
        i <= ts.toks.len(),
    ensures
        decl_s(ts, fuel, i) matches Ok((_, j)) ==> i < j <= ts.toks.len(),
        decl_s(ts, fuel, i) matches Err(e) ==> points_into(ts, e),
{
    broadcast use lemma_fail_at_points;

    reveal(decl_s);
    match tok_at(ts, i) {
        Some(TokenV::Def) => {
            if i + 3 <= ts.toks.len() {
                lemma_term_bound(ts, fuel, i + 3);
                if let Ok((_, j)) = term_s(ts, fuel, i + 3) {
                    if let Ok(k) = expect_s(ts, j, TokenV::ColonEq) {
                        lemma_term_bound(ts, fuel, k);
                    }
                }
            }
        },
        Some(TokenV::Eval) => lemma_term_bound(ts, fuel, i + 1),
        Some(TokenV::Check) => {
            lemma_term_bound(ts, fuel, i + 1);
            if let Ok((_, j)) = term_s(ts, fuel, i + 1) {
                if let Ok(k) = expect_s(ts, j, TokenV::Colon) {
                    lemma_term_bound(ts, fuel, k);
                }
            }
        },
        _ => {},
    }
}

/// A line break at the end of a source changes no parse: the token stream
/// is the same, and so are the module, the term and the prompt line read
/// from it.
pub proof fn lemma_line_break_changes_no_parse(src: Seq<char>)
    ensures
        tokens_of(src.push('\n')) == tokens_of(src),
        module_s(tokens_of(src.push('\n'))) == module_s(tokens_of(src)),
        term_top_s(tokens_of(src.push('\n'))) == term_top_s(tokens_of(src)),
        repl_s(tokens_of(src.push('\n'))) == repl_s(tokens_of(src)),
{
    lemma_lex_line_break(src);
    lemma_lex_spans(src);
    lemma_encode_utf8_append(src, seq!['\n']);
    assert(src.push('\n') == src + seq!['\n']);
    let toks = lex_spec(src).0;
    let len = encode_utf8(src).len();
    if toks.len() > 0 {
        let last = toks.len() - 1;
        assert(toks[last].0 <= toks[last].2 <= len);
        assert(toks.last() == toks[last]);
    }
    assert(eof_of(toks, encode_utf8(src.push('\n')).len()) == eof_of(toks, len));
}

/// A line that the prompt reads as a declaration is a module of exactly
/// that declaration, with or without a line break after it.
pub proof fn lemma_repl_declaration_is_module(src: Seq<char>, d: DeclV)
    requires
        repl_s(tokens_of(src)) == Ok::<ReplInputV, ParseErrorV>(ReplInputV::Decl(d)),
    ensures
        module_s(tokens_of(src)) == Ok::<Seq<DeclV>, ParseErrorV>(seq![d]),
        module_s(tokens_of(src.push('\n'))) == Ok::<Seq<DeclV>, ParseErrorV>(seq![d]),
{
    lemma_line_break_changes_no_parse(src);
    let ts = tokens_of(src);
    let fuel = PARSE_FUEL as nat;
    lemma_decl_bound(ts, fuel, 0);
    lemma_module_from_unfold(ts, fuel, 0);
    if let Ok((d2, j)) = decl_s(ts, fuel, 0) {
        lemma_module_from_unfold(ts, fuel, j);
        assert(seq![d2] + Seq::<DeclV>::empty() =~= seq![d2]);
    }
}


proof fn lemma_module_from_points(ts: TokensV, fuel: nat, i: nat)
    requires
        i <= ts.toks.len(),
    ensures
        module_from_s(ts, fuel, i) matches Err(e) ==> points_into(ts, e),
    decreases pos_measure(ts, i),
{
    lemma_module_from_unfold(ts, fuel, i);
    if i < ts.toks.len() {
        lemma_decl_bound(ts, fuel, i);
        if let Ok((_, j)) = decl_s(ts, fuel, i) {
            if sub_ok(ts, i, j) {
                lemma_module_from_points(ts, fuel, j);
            }
        }
    }
}

/// Every syntax error reported for a whole input points into its token
/// stream: at a token's span, at the end of input, or at the lexical error
/// that ended the stream.
pub proof fn lemma_syntax_errors_point_into(ts: TokensV, e: ParseErrorV)
    requires
        module_s(ts) == Err::<Seq<DeclV>, ParseErrorV>(e) || term_top_s(ts) == Err::<RawV, ParseErrorV>(e)
            || repl_s(ts) == Err::<ReplInputV, ParseErrorV>(e),
    ensures
        points_into(ts, e),
{
    let fuel = PARSE_FUEL as nat;
    lemma_module_from_points(ts, fuel, 0);
    lemma_term_bound(ts, fuel, 0);
    lemma_decl_bound(ts, fuel, 0);
    if let Ok((_, j)) = term_s(ts, fuel, 0) {
        if j < ts.toks.len() {
            assert(ts.toks[j as int].0 == ts.toks[j as int].0);
        }
    }
    if let Ok((_, j)) = decl_s(ts, fuel, 0) {
        if j < ts.toks.len() {
            assert(ts.toks[j as int].0 == ts.toks[j as int].0);
        }
    }
}


// ---------------------------------------------------------------------
// The nesting budget: with enough of it, a rule's result does not depend on
// how much more it is given, and the budget's error never arises.

/// The budget that suffices for a rule of rank `c` at position `i`:
/// sixteen units for each token left, and the rank.
pub open spec fn budget(ts: TokensV, i: nat, c: nat) -> nat {
    16 * pos_measure(ts, i) + c
}

/// A result other than the error of an exhausted budget.
pub open spec fn settled<T>(r: Result<T, ParseErrorV>) -> bool {
    !(r matches Err(ParseErrorV::InvalidToken { .. }))
}

proof fn lemma_term_stable(ts: TokensV, f: nat, g: nat, i: nat)
    requires
        i <= ts.toks.len(),
        f >= budget(ts, i, 12),
        g >= budget(ts, i, 12),
    ensures
        term_s(ts, f, i) == term_s(ts, g, i),
        settled(term_s(ts, f, i)),
    decreases f,
{
    let f1 = (f - 1) as nat;
    let g1 = (g - 1) as nat;
    match tok_at(ts, i) {
        Some(TokenV::Backslash) | Some(TokenV::Fun) => lemma_lam_stable(ts, f1, g1, i),
        Some(TokenV::Let) => if is_tok(ts, i + 1, TokenV::LParen) {
            lemma_letpair_stable(ts, f1, g1, i);
        } else {
            lemma_letdef_stable(ts, f1, g1, i);
        },
        Some(TokenV::If) => lemma_if_stable(ts, f1, g1, i),
        _ => lemma_arrow_stable(ts, f1, g1, i),
    }
}

proof fn lemma_lam_stable(ts: TokensV, f: nat, g: nat, i: nat)
    requires
        i < ts.toks.len(),
        f >= budget(ts, i, 11),
        g >= budget(ts, i, 11),
    ensures
        lam_s(ts, f, i) == lam_s(ts, g, i),
        settled(lam_s(ts, f, i)),
    decreases f,
{
    let f1 = (f - 1) as nat;
    let g1 = (g - 1) as nat;
    lemma_idents_bound(ts, i + 1);
    let j = idents_s(ts, i + 1).1;
    if let Ok(k) = expect_s(ts, j, TokenV::FatArrow) {
        lemma_term_stable(ts, f1, g1, k);
    }
}

proof fn lemma_letpair_stable(ts: TokensV, f: nat, g: nat, i: nat)
    requires
        i < ts.toks.len(),
        f >= budget(ts, i, 11),
        g >= budget(ts, i, 11),
    ensures
        letpair_s(ts, f, i) == letpair_s(ts, g, i),
        settled(letpair_s(ts, f, i)),
    decreases f,
{
    let f1 = (f - 1) as nat;
    let g1 = (g - 1) as nat;
    if i + 7 <= ts.toks.len() {
        lemma_term_stable(ts, f1, g1, i + 7);
        lemma_term_bound(ts, f1, i + 7);
        if let Ok((_, j)) = term_s(ts, f1, i + 7) {
            if let Ok(k) = expect_s(ts, j, TokenV::In) {
                lemma_term_stable(ts, f1, g1, k);
            }
        }
    }
}

proof fn lemma_letdef_stable(ts: TokensV, f: nat, g: nat, i: nat)
    requires
        i < ts.toks.len(),
        f >= budget(ts, i, 11),
        g >= budget(ts, i, 11),
    ensures
        letdef_s(ts, f, i) == letdef_s(ts, g, i),
        settled(letdef_s(ts, f, i)),
    decreases f,
{
    let f1 = (f - 1) as nat;
    let g1 = (g - 1) as nat;
    if i + 3 <= ts.toks.len() {
        lemma_term_stable(ts, f1, g1, i + 3);
        lemma_term_bound(ts, f1, i + 3);
        if let Ok((_, j)) = term_s(ts, f1, i + 3) {
            if let Ok(k) = expect_s(ts, j, TokenV::ColonEq) {
                lemma_term_stable(ts, f1, g1, k);
                lemma_term_bound(ts, f1, k);
                if let Ok((_, l)) = term_s(ts, f1, k) {
                    if let Ok(m) = expect_s(ts, l, TokenV::In) {
                        lemma_term_stable(ts, f1, g1, m);
                    }
                }
            }
        }
    }
}

proof fn lemma_if_stable(ts: TokensV, f: nat, g: nat, i: nat)
    requires
        i < ts.toks.len(),
        f >= budget(ts, i, 11),
        g >= budget(ts, i, 11),
    ensures
        if_s(ts, f, i) == if_s(ts, g, i),
        settled(if_s(ts, f, i)),
    decreases f,
{
    let f1 = (f - 1) as nat;
    let g1 = (g - 1) as nat;
    lemma_term_stable(ts, f1, g1, i + 1);
    lemma_term_bound(ts, f1, i + 1);
    if let Ok((_, j)) = term_s(ts, f1, i + 1) {
        if let Ok(k) = expect_s(ts, j, TokenV::Then) {
            lemma_term_stable(ts, f1, g1, k);
            lemma_term_bound(ts, f1, k);
            if let Ok((_, l)) = term_s(ts, f1, k) {
                if let Ok(m) = expect_s(ts, l, TokenV::Else) {
                    lemma_term_stable(ts, f1, g1, m);
                }
            }
        }
    }
}

proof fn lemma_binder_stable(ts: TokensV, f: nat, g: nat, i: nat)
    requires
        i <= ts.toks.len(),
        f >= budget(ts, i, 8),
        g >= budget(ts, i, 8),
    ensures
        binder_s(ts, f, i) == binder_s(ts, g, i),
    decreases f,
{
    if is_tok(ts, i, TokenV::LParen) {
        let f1 = (f - 1) as nat;
        let g1 = (g - 1) as nat;
        let m = mult_at(ts, i + 1);
        let p: nat = if m is Some {
            i + 2
        } else {
            i + 1
        };
        if tok_at(ts, p) is Some && is_tok(ts, p + 1, TokenV::Colon) {
            lemma_term_stable(ts, f1, g1, p + 2);
        }
    }
}

proof fn lemma_arrow_stable(ts: TokensV, f: nat, g: nat, i: nat)
    requires
        i <= ts.toks.len(),
        f >= budget(ts, i, 11),
        g >= budget(ts, i, 11),
    ensures
        arrow_s(ts, f, i) == arrow_s(ts, g, i),
        settled(arrow_s(ts, f, i)),
    decreases f,
{
    let f1 = (f - 1) as nat;
    let g1 = (g - 1) as nat;
    lemma_binder_stable(ts, f1, g1, i);
    lemma_binder_bound(ts, f1, i);
    match binder_s(ts, f1, i) {
        Some((_, _, _, j)) if is_tok(ts, j, TokenV::Arrow) => lemma_arrow_stable(ts, f1, g1, j + 1),
        _ => {
            lemma_amp_stable(ts, f1, g1, i);
            lemma_amp_bound(ts, f1, i);
            if let Ok((_, j)) = amp_s(ts, f1, i) {
                if is_tok(ts, j, TokenV::Arrow) {
                    lemma_arrow_stable(ts, f1, g1, j + 1);
                }
            }
        },
    }
}

proof fn lemma_amp_stable(ts: TokensV, f: nat, g: nat, i: nat)
    requires
        i <= ts.toks.len(),
        f >= budget(ts, i, 10),
        g >= budget(ts, i, 10),
    ensures
        amp_s(ts, f, i) == amp_s(ts, g, i),
        settled(amp_s(ts, f, i)),
    decreases f,
{
    let f1 = (f - 1) as nat;
    let g1 = (g - 1) as nat;
    lemma_star_stable(ts, f1, g1, i);
    lemma_star_bound(ts, f1, i);
    if let Ok((_, j)) = star_s(ts, f1, i) {
        if is_tok(ts, j, TokenV::Amp) {
            lemma_amp_stable(ts, f1, g1, j + 1);
        }
    }
}

proof fn lemma_star_stable(ts: TokensV, f: nat, g: nat, i: nat)
    requires
        i <= ts.toks.len(),
        f >= budget(ts, i, 9),
        g >= budget(ts, i, 9),
    ensures
        star_s(ts, f, i) == star_s(ts, g, i),
        settled(star_s(ts, f, i)),
    decreases f,
{
    let f1 = (f - 1) as nat;
    let g1 = (g - 1) as nat;
    lemma_binder_stable(ts, f1, g1, i);
    lemma_binder_bound(ts, f1, i);
    match binder_s(ts, f1, i) {
        Some((_, _, _, j)) if is_tok(ts, j, TokenV::Star) => lemma_star_stable(ts, f1, g1, j + 1),
        _ => {
            lemma_app_stable(ts, f1, g1, i);
            lemma_app_bound(ts, f1, i);
            if let Ok((_, j)) = app_s(ts, f1, i) {
                if is_tok(ts, j, TokenV::Star) {
                    lemma_star_stable(ts, f1, g1, j + 1);
                }
            }
        },
    }
}

proof fn lemma_app_head_stable(ts: TokensV, f: nat, g: nat, i: nat)
    requires
        i <= ts.toks.len(),
        f >= budget(ts, i, 7),
        g >= budget(ts, i, 7),
    ensures
        app_head_s(ts, f, i) == app_head_s(ts, g, i),
        settled(app_head_s(ts, f, i)),
    decreases f,
{
    let f1 = (f - 1) as nat;
    let g1 = (g - 1) as nat;
    match tok_at(ts, i) {
        Some(TokenV::Fst) | Some(TokenV::Snd) => lemma_atom_stable(ts, f1, g1, i + 1),
        _ => lemma_atom_stable(ts, f1, g1, i),
    }
}

proof fn lemma_app_stable(ts: TokensV, f: nat, g: nat, i: nat)
    requires
        i <= ts.toks.len(),
        f >= budget(ts, i, 8),
        g >= budget(ts, i, 8),
    ensures
        app_s(ts, f, i) == app_s(ts, g, i),
        settled(app_s(ts, f, i)),
    decreases f,
{
    let f1 = (f - 1) as nat;
    let g1 = (g - 1) as nat;
    lemma_app_head_stable(ts, f1, g1, i);
    lemma_app_head_bound(ts, f1, i);
    if let Ok((t, j)) = app_head_s(ts, f1, i) {
        lemma_app_rest_stable(ts, f1, g1, t, j);
    }
}

proof fn lemma_app_rest_stable(ts: TokensV, f: nat, g: nat, acc: RawV, i: nat)
    requires
        i <= ts.toks.len(),
        f >= budget(ts, i, 7),
        g >= budget(ts, i, 7),
    ensures
        app_rest_s(ts, f, acc, i) == app_rest_s(ts, g, acc, i),
        settled(app_rest_s(ts, f, acc, i)),
    decreases f,
{
    if atom_start(tok_at(ts, i)) {
        let f1 = (f - 1) as nat;
        let g1 = (g - 1) as nat;
        lemma_atom_stable(ts, f1, g1, i);
        lemma_atom_bound(ts, f1, i);
        if let Ok((a, j)) = atom_s(ts, f1, i) {
            lemma_app_rest_stable(ts, f1, g1, RawV::App(Box::new(acc), Box::new(a)), j);
        }
    }
}

proof fn lemma_atom_stable(ts: TokensV, f: nat, g: nat, i: nat)
    requires
        i <= ts.toks.len(),
        f >= budget(ts, i, 6),
        g >= budget(ts, i, 6),
    ensures
        atom_s(ts, f, i) == atom_s(ts, g, i),
        settled(atom_s(ts, f, i)),
    decreases f,
{
    reveal(angle_s);
    let f1 = (f - 1) as nat;
    let g1 = (g - 1) as nat;
    match tok_at(ts, i) {
        Some(TokenV::LParen) => lemma_paren_stable(ts, f1, g1, i),
        Some(TokenV::LAngle) => lemma_angle_stable(ts, f1, g1, i),
        _ => {},
    }
}

proof fn lemma_paren_stable(ts: TokensV, f: nat, g: nat, i: nat)
    requires
        i < ts.toks.len(),
        f >= budget(ts, i, 5),
        g >= budget(ts, i, 5),
    ensures
        paren_s(ts, f, i) == paren_s(ts, g, i),
        settled(paren_s(ts, f, i)),
    decreases f,
{
    reveal(paren_close_s);
    let f1 = (f - 1) as nat;
    let g1 = (g - 1) as nat;
    lemma_term_stable(ts, f1, g1, i + 1);
    lemma_term_bound(ts, f1, i + 1);
    if let Ok((t, j)) = term_s(ts, f1, i + 1) {
        lemma_paren_close_stable(ts, f1, g1, t, j);
    }
}

proof fn lemma_paren_close_stable(ts: TokensV, f: nat, g: nat, t: RawV, j: nat)
    requires
        j <= ts.toks.len(),
        f >= budget(ts, j, 5),
        g >= budget(ts, j, 5),
    ensures
        paren_close_s(ts, f, t, j) == paren_close_s(ts, g, t, j),
        settled(paren_close_s(ts, f, t, j)),
    decreases f,
{
    lemma_paren_close_unfold(ts, f, t, j);
    lemma_paren_close_unfold(ts, g, t, j);
    let f1 = (f - 1) as nat;
    let g1 = (g - 1) as nat;
    match tok_at(ts, j) {
        Some(TokenV::Comma) | Some(TokenV::Colon) => lemma_term_stable(ts, f1, g1, j + 1),
        _ => {},
    }
}

proof fn lemma_angle_stable(ts: TokensV, f: nat, g: nat, i: nat)
    requires
        i < ts.toks.len(),
        f >= budget(ts, i, 5),
        g >= budget(ts, i, 5),
    ensures
        angle_s(ts, f, i) == angle_s(ts, g, i),
        settled(angle_s(ts, f, i)),
    decreases f,
{
    lemma_angle_unfold(ts, f, i);
    lemma_angle_unfold(ts, g, i);
    let f1 = (f - 1) as nat;
    let g1 = (g - 1) as nat;
    lemma_term_stable(ts, f1, g1, i + 1);
    lemma_term_bound(ts, f1, i + 1);
    if let Ok((_, j)) = term_s(ts, f1, i + 1) {
        if let Ok(k) = expect_s(ts, j, TokenV::Comma) {
            lemma_term_stable(ts, f1, g1, k);
        }
    }
}

proof fn lemma_decl_stable(ts: TokensV, f: nat, g: nat, i: nat)
    requires
        i <= ts.toks.len(),
        f >= budget(ts, i, 12),
        g >= budget(ts, i, 12),
    ensures
        decl_s(ts, f, i) == decl_s(ts, g, i),
        settled(decl_s(ts, f, i)),
{
    reveal(decl_s);
    match tok_at(ts, i) {
        Some(TokenV::Def) => {
            if i + 3 <= ts.toks.len() {
                lemma_term_stable(ts, f, g, i + 3);
                lemma_term_bound(ts, f, i + 3);
                if let Ok((_, j)) = term_s(ts, f, i + 3) {
                    if let Ok(k) = expect_s(ts, j, TokenV::ColonEq) {
                        lemma_term_stable(ts, f, g, k);
                    }
                }
            }
        },
        Some(TokenV::Eval) => lemma_term_stable(ts, f, g, i + 1),
        Some(TokenV::Check) => {
            lemma_term_stable(ts, f, g, i + 1);
            lemma_term_bound(ts, f, i + 1);
            if let Ok((_, j)) = term_s(ts, f, i + 1) {
                if let Ok(k) = expect_s(ts, j, TokenV::Colon) {
                    lemma_term_stable(ts, f, g, k);
                }
            }
        },
        _ => {},
    }
}

proof fn lemma_module_from_stable(ts: TokensV, f: nat, g: nat, i: nat)
    requires
        i <= ts.toks.len(),
        f >= budget(ts, 0, 12),
        g >= budget(ts, 0, 12),
    ensures
        module_from_s(ts, f, i) == module_from_s(ts, g, i),
        settled(module_from_s(ts, f, i)),
    decreases pos_measure(ts, i),
{
    lemma_module_from_unfold(ts, f, i);
    lemma_module_from_unfold(ts, g, i);
    if i < ts.toks.len() {
        lemma_decl_stable(ts, f, g, i);
        lemma_decl_bound(ts, f, i);
        if let Ok((_, j)) = decl_s(ts, f, i) {
            lemma_module_from_stable(ts, f, g, j);
        }
    }
}

/// The parser's nesting budget is enough for any input of fewer than about
/// 2^60 tokens: a whole-input parse never reports the budget's
/// `InvalidToken` error, and any larger budget parses it the same way.
pub proof fn lemma_parse_budget_suffices(ts: TokensV, more: nat)
    requires
        16 * ts.toks.len() + 12 <= PARSE_FUEL,
        PARSE_FUEL <= more,
    ensures
        settled(module_s(ts)),
        settled(term_top_s(ts)),
        settled(repl_s(ts)),
        module_s(ts) == module_from_s(ts, more, 0),
        term_s(ts, PARSE_FUEL as nat, 0) == term_s(ts, more, 0),
        decl_s(ts, PARSE_FUEL as nat, 0) == decl_s(ts, more, 0),
{
    let fuel = PARSE_FUEL as nat;
    lemma_module_from_stable(ts, fuel, more, 0);
    lemma_term_stable(ts, fuel, more, 0);
    lemma_decl_stable(ts, fuel, more, 0);
}

/// The branches of a conditional are the terms that follow its keywords:
/// where `if c then a else b` parses, the condition is the term after `if`,
/// which ends at a `then`; the then-branch is the term after that `then`,
/// which ends at an `else`; and the else-branch is the term after that
/// `else`, which ends where the conditional does.
pub proof fn lemma_if_branches_follow_keywords(ts: TokensV, fuel: nat, i: nat)
    ensures
        if_s(ts, fuel, i) matches Ok((r, n)) ==> {
            let f = (fuel - 1) as nat;
            &&& term_s(ts, f, i + 1) matches Ok((c, j))
            &&& is_tok(ts, j, TokenV::Then)
            &&& term_s(ts, f, j + 1) matches Ok((a, l))
            &&& is_tok(ts, l, TokenV::Else)
            &&& term_s(ts, f, l + 1) matches Ok((b, k))
            &&& k == n
            &&& r == RawV::If(Box::new(c), Box::new(a), Box::new(b))
        },
{
}

} // verus!
