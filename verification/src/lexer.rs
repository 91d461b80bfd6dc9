//! The lexical grammar: turning source text into tokens with byte spans.
use crate::text::{nat_text, num_text, push_char};
use vstd::prelude::*;
use vstd::utf8::{encode_scalar, encode_utf8};

verus! {

/// A token of the surface language.
#[derive(Debug, Clone, PartialEq, Eq)]
pub enum Token {
    Def,
    Eval,
    Check,
    Let,
    In,
    Fun,
    If,
    Then,
    Else,
    Type,
    Bool,
    True,
    False,
    Fst,
    Snd,
    Omega,
    LParen,
    RParen,
    LAngle,
    RAngle,
    Comma,
    Colon,
    ColonEq,
    Arrow,
    FatArrow,
    Star,
    Amp,
    Eq,
    Backslash,
    Ident(String),
    Number(u64),
    Whitespace,
}

/// The view of a token: identifiers as character sequences.
pub enum TokenV {
    Def,
    Eval,
    Check,
    Let,
    In,
    Fun,
    If,
    Then,
    Else,
    Type,
    Bool,
    True,
    False,
    Fst,
    Snd,
    Omega,
    LParen,
    RParen,
    LAngle,
    RAngle,
    Comma,
    Colon,
    ColonEq,
    Arrow,
    FatArrow,
    Star,
    Amp,
    Eq,
    Backslash,
    Ident(Seq<char>),
    Number(u64),
    Whitespace,
}

impl View for Token {
    type V = TokenV;

    open spec fn view(&self) -> TokenV {
        match self {
            Token::Def => TokenV::Def,
            Token::Eval => TokenV::Eval,
            Token::Check => TokenV::Check,
            Token::Let => TokenV::Let,
            Token::In => TokenV::In,
            Token::Fun => TokenV::Fun,
            Token::If => TokenV::If,
            Token::Then => TokenV::Then,
            Token::Else => TokenV::Else,
            Token::Type => TokenV::Type,
            Token::Bool => TokenV::Bool,
            Token::True => TokenV::True,
            Token::False => TokenV::False,
            Token::Fst => TokenV::Fst,
            Token::Snd => TokenV::Snd,
            Token::Omega => TokenV::Omega,
            Token::LParen => TokenV::LParen,
            Token::RParen => TokenV::RParen,
            Token::LAngle => TokenV::LAngle,
            Token::RAngle => TokenV::RAngle,
            Token::Comma => TokenV::Comma,
            Token::Colon => TokenV::Colon,
            Token::ColonEq => TokenV::ColonEq,
            Token::Arrow => TokenV::Arrow,
            Token::FatArrow => TokenV::FatArrow,
            Token::Star => TokenV::Star,
            Token::Amp => TokenV::Amp,
            Token::Eq => TokenV::Eq,
            Token::Backslash => TokenV::Backslash,
            Token::Ident(s) => TokenV::Ident(s@),
            Token::Number(n) => TokenV::Number(*n),
            Token::Whitespace => TokenV::Whitespace,
        }
    }
}

/// How a token is printed.
pub open spec fn token_text(t: TokenV) -> Seq<char> {
    match t {
        TokenV::Def => "def"@,
        TokenV::Eval => "eval"@,
        TokenV::Check => "check"@,
        TokenV::Let => "let"@,
        TokenV::In => "in"@,
        TokenV::Fun => "fun"@,
        TokenV::If => "if"@,
        TokenV::Then => "then"@,
        TokenV::Else => "else"@,
        TokenV::Type => "Type"@,
        TokenV::Bool => "Bool"@,
        TokenV::True => "true"@,
        TokenV::False => "false"@,
        TokenV::Fst => "fst"@,
        TokenV::Snd => "snd"@,
        TokenV::Omega => "w"@,
        TokenV::LParen => "("@,
        TokenV::RParen => ")"@,
        TokenV::LAngle => "<"@,
        TokenV::RAngle => ">"@,
        TokenV::Comma => ","@,
        TokenV::Colon => ":"@,
        TokenV::ColonEq => ":="@,
        TokenV::Arrow => "->"@,
        TokenV::FatArrow => "=>"@,
        TokenV::Star => "*"@,
        TokenV::Amp => "&"@,
        TokenV::Eq => "="@,
        TokenV::Backslash => "\\"@,
        TokenV::Ident(s) => s,
        TokenV::Number(n) => nat_text(n as nat),
        TokenV::Whitespace => "<whitespace>"@,
    }
}

impl Token {
    /// How the token is printed: its spelling.
    pub fn to_text(&self) -> (r: String)
        ensures
            r@ == token_text(self@),
    {
        match self {
            Token::Def => "def".to_owned(),
            Token::Eval => "eval".to_owned(),
            Token::Check => "check".to_owned(),
            Token::Let => "let".to_owned(),
            Token::In => "in".to_owned(),
            Token::Fun => "fun".to_owned(),
            Token::If => "if".to_owned(),
            Token::Then => "then".to_owned(),
            Token::Else => "else".to_owned(),
            Token::Type => "Type".to_owned(),
            Token::Bool => "Bool".to_owned(),
            Token::True => "true".to_owned(),
            Token::False => "false".to_owned(),
            Token::Fst => "fst".to_owned(),
            Token::Snd => "snd".to_owned(),
            Token::Omega => "w".to_owned(),
            Token::LParen => "(".to_owned(),
            Token::RParen => ")".to_owned(),
            Token::LAngle => "<".to_owned(),
            Token::RAngle => ">".to_owned(),
            Token::Comma => ",".to_owned(),
            Token::Colon => ":".to_owned(),
            Token::ColonEq => ":=".to_owned(),
            Token::Arrow => "->".to_owned(),
            Token::FatArrow => "=>".to_owned(),
            Token::Star => "*".to_owned(),
            Token::Amp => "&".to_owned(),
            Token::Eq => "=".to_owned(),
            Token::Backslash => "\\".to_owned(),
            Token::Ident(s) => s.clone(),
            Token::Number(n) => num_text(*n),
            Token::Whitespace => "<whitespace>".to_owned(),
        }
    }
}

/// A lexical error: no token starts at the given byte offset.
#[derive(Debug, Clone, Copy, PartialEq, Eq)]
pub enum LexicalError {
    InvalidToken(usize),
}

/// The message of a lexical error.
pub open spec fn lexical_text(e: LexicalError) -> Seq<char> {
    match e {
        LexicalError::InvalidToken(o) => "invalid token at byte offset "@ + nat_text(o as nat),
    }
}

impl LexicalError {
    /// The byte offset at which no token starts.
    pub fn offset(&self) -> (r: usize)
        ensures
            r == match self {
                LexicalError::InvalidToken(o) => *o,
            },
    {
        match self {
            LexicalError::InvalidToken(o) => *o,
        }
    }

    /// The message of the error.
    pub fn to_text(&self) -> (r: String)
        ensures
            r@ == lexical_text(*self),
    {
        match self {
            LexicalError::InvalidToken(o) => {
                let mut s = "invalid token at byte offset ".to_owned();
                s.append(num_text(*o as u64).as_str());
                s
            },
        }
    }
}

// ---------------------------------------------------------------------
// The lexical grammar over the characters of the input.
/// The characters skipped between tokens.
pub open spec fn is_space(c: char) -> bool {
    c == ' ' || c == '\t' || c == '\n' || c == '\r' || c == '\x0c'
}

/// The characters that start a name.
pub open spec fn is_ident_start(c: char) -> bool {
    ('a' <= c && c <= 'z') || ('A' <= c && c <= 'Z') || c == '_'
}

/// The decimal digits.
pub open spec fn is_digit(c: char) -> bool {
    '0' <= c && c <= '9'
}

/// The characters that continue a name.
pub open spec fn is_ident_char(c: char) -> bool {
    is_ident_start(c) || is_digit(c) || c == '\''
}

/// The characters that end a comment.
pub open spec fn is_line_end(c: char) -> bool {
    c == '\n' || c == '\r'
}

/// The end of the run of identifier characters starting at `i`.
pub open spec fn ident_end(s: Seq<char>, i: nat) -> nat
    decreases s.len() - i,
{
    if i >= s.len() || !is_ident_char(s[i as int]) {
        i
    } else {
        ident_end(s, i + 1)
    }
}

/// The end of the run of digits starting at `i`.
pub open spec fn digits_end(s: Seq<char>, i: nat) -> nat
    decreases s.len() - i,
{
    if i >= s.len() || !is_digit(s[i as int]) {
        i
    } else {
        digits_end(s, i + 1)
    }
}

/// The end of a comment whose text starts at `i`: the next line break or the end.
pub open spec fn comment_end(s: Seq<char>, i: nat) -> nat
    decreases s.len() - i,
{
    if i >= s.len() || is_line_end(s[i as int]) {
        i
    } else {
        comment_end(s, i + 1)
    }
}

/// The position of the next token at or after `i`: whitespace and `--`
/// comments are skipped.
pub open spec fn skip_from(s: Seq<char>, i: nat) -> nat
    decreases s.len() - i,
{
    if i >= s.len() {
        i
    } else if is_space(s[i as int]) {
        skip_from(s, i + 1)
    } else if s[i as int] == '-' && i + 1 < s.len() && s[i + 1int] == '-' {
        proof {
            lemma_comment_end_ge(s, i + 2);
        }
        skip_from(s, comment_end(s, i + 2))
    } else {
        i
    }
}

/// The value of a sequence of decimal digits.
pub open spec fn digits_value(d: Seq<char>) -> nat
    decreases d.len(),
{
    if d.len() == 0 {
        0
    } else {
        digits_value(d.drop_last()) * 10 + ((d.last() as int) - ('0' as int)) as nat
    }
}

/// The keyword spelled `w`, if any.
pub open spec fn keyword(w: Seq<char>) -> Option<TokenV> {
    if w == "def"@ {
        Some(TokenV::Def)
    } else if w == "eval"@ {
        Some(TokenV::Eval)
    } else if w == "check"@ {
        Some(TokenV::Check)
    } else if w == "let"@ {
        Some(TokenV::Let)
    } else if w == "in"@ {
        Some(TokenV::In)
    } else if w == "fun"@ {
        Some(TokenV::Fun)
    } else if w == "if"@ {
        Some(TokenV::If)
    } else if w == "then"@ {
        Some(TokenV::Then)
    } else if w == "else"@ {
        Some(TokenV::Else)
    } else if w == "Type"@ {
        Some(TokenV::Type)
    } else if w == "Bool"@ {
        Some(TokenV::Bool)
    } else if w == "true"@ {
        Some(TokenV::True)
    } else if w == "false"@ {
        Some(TokenV::False)
    } else if w == "fst"@ {
        Some(TokenV::Fst)
    } else if w == "snd"@ {
        Some(TokenV::Snd)
    } else if w == "w"@ {
        Some(TokenV::Omega)
    } else {
        None
    }
}

/// The single-character token spelled `c`, if any.
pub open spec fn punct(c: char) -> Option<TokenV> {
    if c == '(' {
        Some(TokenV::LParen)
    } else if c == ')' {
        Some(TokenV::RParen)
    } else if c == '<' {
        Some(TokenV::LAngle)
    } else if c == '>' {
        Some(TokenV::RAngle)
    } else if c == ',' {
        Some(TokenV::Comma)
    } else if c == '*' {
        Some(TokenV::Star)
    } else if c == '&' {
        Some(TokenV::Amp)
    } else if c == '\\' {
        Some(TokenV::Backslash)
    } else {
        None
    }
}

/// The longest token starting at `i` (which holds no space or comment) and
/// the position after it; keywords win over identifiers of the same
/// spelling. `Err` carries the position after the offending text.
pub open spec fn token_at(s: Seq<char>, i: nat) -> Result<(TokenV, nat), nat> {
    let c = s[i as int];
    if is_ident_start(c) {
        let j = ident_end(s, i + 1);
        let w = s.subrange(i as int, j as int);
        match keyword(w) {
            Some(t) => Ok((t, j)),
            None => Ok((TokenV::Ident(w), j)),
        }
    } else if is_digit(c) {
        let j = digits_end(s, i + 1);
        let v = digits_value(s.subrange(i as int, j as int));
        if v <= u64::MAX {
            Ok((TokenV::Number(v as u64), j))
        } else {
            Err(j)
        }
    } else if c == ':' {
        if i + 1 < s.len() && s[i + 1int] == '=' {
            Ok((TokenV::ColonEq, i + 2))
        } else {
            Ok((TokenV::Colon, i + 1))
        }
    } else if c == '-' {
        if i + 1 < s.len() && s[i + 1int] == '>' {
            Ok((TokenV::Arrow, i + 2))
        } else {
            Err(i + 1)
        }
    } else if c == '=' {
        if i + 1 < s.len() && s[i + 1int] == '>' {
            Ok((TokenV::FatArrow, i + 2))
        } else {
            Ok((TokenV::Eq, i + 1))
        }
    } else {
        match punct(c) {
            Some(t) => Ok((t, i + 1)),
            None => Err(i + 1),
        }
    }
}

/// The byte offset of character position `i`: the length of the UTF-8
/// encoding of the characters before it.
pub open spec fn byte_offset(s: Seq<char>, i: nat) -> nat {
    encode_utf8(s.take(i as int)).len()
}

/// One step of the lexer from position `i`: `None` at the end of input,
/// else the token (with its byte span) or the byte offset of a lexical
/// error, and the position to continue from.
pub open spec fn next_spec(s: Seq<char>, i: nat) -> Option<(Result<(nat, TokenV, nat), nat>, nat)> {
    let k = skip_from(s, i);
    if k >= s.len() {
        None
    } else {
        match token_at(s, k) {
            Ok((t, j)) => Some((Ok((byte_offset(s, k), t, byte_offset(s, j))), j)),
            Err(j) => Some((Err(byte_offset(s, k)), j)),
        }
    }
}

/// The tokens from position `i` up to the end of input or the first lexical
/// error, and the byte offset of that error if there is one.
pub open spec fn lex_from(s: Seq<char>, i: nat) -> (Seq<(nat, TokenV, nat)>, Option<nat>)
    decreases s.len() - i,
{
    match next_spec(s, i) {
        None => (Seq::empty(), None),
        Some((Err(o), _)) => (Seq::empty(), Some(o)),
        Some((Ok(tok), j)) => {
            proof {
                lemma_next_advances(s, i);
            }
            let (rest, e) = lex_from(s, j);
            (seq![tok] + rest, e)
        },
    }
}

/// All tokens of `s` up to the first lexical error, and that error's offset.
pub open spec fn lex_spec(s: Seq<char>) -> (Seq<(nat, TokenV, nat)>, Option<nat>) {
    lex_from(s, 0)
}

/// A comment ends at or after where its text starts.
pub proof fn lemma_comment_end_ge(s: Seq<char>, i: nat)
    ensures
        comment_end(s, i) >= i,
        comment_end(s, i) <= s.len() || comment_end(s, i) == i,
    decreases s.len() - i,
{
    if i < s.len() && !is_line_end(s[i as int]) {
        lemma_comment_end_ge(s, i + 1);
    }
}

/// A name's characters run up to its end, within the input.
pub proof fn lemma_ident_end(s: Seq<char>, i: nat)
    ensures
        ident_end(s, i) >= i,
        i <= s.len() ==> ident_end(s, i) <= s.len(),
        forall|k: int| i <= k < ident_end(s, i) ==> is_ident_char(#[trigger] s[k]),
        ident_end(s, i) < s.len() ==> !is_ident_char(s[ident_end(s, i) as int]),
    decreases s.len() - i,
{
    if i < s.len() && is_ident_char(s[i as int]) {
        lemma_ident_end(s, i + 1);
    }
}

/// A number's digits run up to its end, within the input.
pub proof fn lemma_digits_end(s: Seq<char>, i: nat)
    ensures
        digits_end(s, i) >= i,
        i <= s.len() ==> digits_end(s, i) <= s.len(),
        forall|k: int| i <= k < digits_end(s, i) ==> is_digit(#[trigger] s[k]),
        digits_end(s, i) < s.len() ==> !is_digit(s[digits_end(s, i) as int]),
    decreases s.len() - i,
{
    if i < s.len() && is_digit(s[i as int]) {
        lemma_digits_end(s, i + 1);
    }
}

/// Skipping space and comments moves forward and stays within the input.
pub proof fn lemma_skip_from(s: Seq<char>, i: nat)
    ensures
        skip_from(s, i) >= i,
        i <= s.len() ==> skip_from(s, i) <= s.len(),
    decreases s.len() - i,
{
    if i < s.len() {
        if is_space(s[i as int]) {
            lemma_skip_from(s, i + 1);
        } else if s[i as int] == '-' && i + 1 < s.len() && s[i + 1int] == '-' {
            lemma_comment_end_ge(s, i + 2);
            let j = comment_end(s, i + 2);
            lemma_comment_end_bound(s, i + 2);
            lemma_skip_from(s, j);
        }
    }
}

/// A comment runs up to a line break or the end of the input.
pub proof fn lemma_comment_end_bound(s: Seq<char>, i: nat)
    requires
        i <= s.len(),
    ensures
        comment_end(s, i) <= s.len(),
        forall|k: int| i <= k < comment_end(s, i) ==> !is_line_end(#[trigger] s[k]),
        comment_end(s, i) < s.len() ==> is_line_end(s[comment_end(s, i) as int]),
    decreases s.len() - i,
{
    if i < s.len() && !is_line_end(s[i as int]) {
        lemma_comment_end_bound(s, i + 1);
    }
}

/// A step of the lexer moves strictly forward and stays within the input.
pub proof fn lemma_next_advances(s: Seq<char>, i: nat)
    ensures
        next_spec(s, i) matches Some((_, j)) ==> i < j && (i <= s.len() ==> j <= s.len()),
{
    lemma_skip_from(s, i);
    let k = skip_from(s, i);
    if k < s.len() {
        lemma_ident_end(s, k + 1);
        lemma_digits_end(s, k + 1);
    }
}


/// The encoding of a concatenation is the concatenation of the encodings.
pub proof fn lemma_encode_utf8_append(a: Seq<char>, b: Seq<char>)
    ensures
        encode_utf8(a + b) == encode_utf8(a) + encode_utf8(b),
    decreases a.len(),
{
    if a.len() == 0 {
        assert(a + b =~= b);
        assert(encode_utf8(a) =~= Seq::<u8>::empty());
        assert(encode_utf8(a) + encode_utf8(b) =~= encode_utf8(b));
    } else {
        assert((a + b).drop_first() =~= a.drop_first() + b);
        assert((a + b)[0] == a[0]);
        lemma_encode_utf8_append(a.drop_first(), b);
        assert(encode_utf8(a + b) =~= encode_utf8(a) + encode_utf8(b));
    }
}

/// Byte offsets grow by the width of each character and never exceed the
/// length of the whole encoding.
pub proof fn lemma_byte_offset_step(s: Seq<char>, i: nat)
    requires
        i < s.len(),
    ensures
        byte_offset(s, i + 1) == byte_offset(s, i) + encode_scalar(s[i as int] as u32).len(),
        byte_offset(s, i + 1) <= encode_utf8(s).len(),
{
    let c = s[i as int];
    assert(s.take(i + 1int) =~= s.take(i as int) + seq![c]);
    lemma_encode_utf8_append(s.take(i as int), seq![c]);
    assert(seq![c].drop_first() =~= Seq::<char>::empty());
    assert(encode_utf8(seq![c]) =~= encode_scalar(c as u32) + encode_utf8(Seq::<char>::empty()));
    assert(s =~= s.take(i + 1int) + s.skip(i + 1int));
    lemma_encode_utf8_append(s.take(i + 1int), s.skip(i + 1int));
}

/// Byte offsets grow with the position, up to the length of the encoding.
pub proof fn lemma_byte_offset_mono(s: Seq<char>, i: nat, j: nat)
    requires
        i <= j <= s.len(),
    ensures
        byte_offset(s, i) <= byte_offset(s, j) <= encode_utf8(s).len(),
    decreases j - i,
{
    if i < j {
        lemma_byte_offset_mono(s, i, (j - 1) as nat);
        lemma_byte_offset_step(s, (j - 1) as nat);
    } else if j == s.len() {
        assert(s.take(j as int) =~= s);
    } else {
        lemma_byte_offset_step(s, j);
    }
}

/// A token found at `k` ends after `k` and within the input.
pub proof fn lemma_token_at_advances(s: Seq<char>, k: nat)
    requires
        k < s.len(),
    ensures
        match token_at(s, k) {
            Ok((_, j)) => k < j <= s.len(),
            Err(j) => k < j <= s.len(),
        },
{
    lemma_ident_end(s, k + 1);
    lemma_digits_end(s, k + 1);
}

/// Every token spans a forward range of bytes within the input.
pub open spec fn spans_within(toks: Seq<(nat, TokenV, nat)>, len: nat) -> bool {
    forall|k: int| 0 <= k < toks.len() ==> #[trigger] toks[k].0 <= toks[k].2 <= len
}

/// The tokens from position `i` span forward ranges of bytes within the
/// input, and a lexical error lies before the input's end.
pub proof fn lemma_lex_from_spans(s: Seq<char>, i: nat)
    requires
        i <= s.len(),
    ensures
        spans_within(lex_from(s, i).0, encode_utf8(s).len()),
        lex_from(s, i).1 matches Some(o) ==> o < encode_utf8(s).len(),
    decreases s.len() - i,
{
    lemma_skip_from(s, i);
    let k = skip_from(s, i);
    if k < s.len() {
        lemma_token_at_advances(s, k);
        lemma_byte_offset_step(s, k);
        lemma_byte_offset_mono(s, k, k + 1);
        match token_at(s, k) {
            Ok((t, j)) => {
                lemma_byte_offset_mono(s, k, j);
                lemma_next_advances(s, i);
                lemma_lex_from_spans(s, j);
                let rest = lex_from(s, j).0;
                let tok = (byte_offset(s, k), t, byte_offset(s, j));
                assert(lex_from(s, i).0 == seq![tok] + rest);
                assert forall|m: int| 0 <= m < lex_from(s, i).0.len() implies #[trigger] lex_from(
                    s,
                    i,
                ).0[m].0 <= lex_from(s, i).0[m].2 <= encode_utf8(s).len() by {
                    if m > 0 {
                        assert(lex_from(s, i).0[m] == rest[m - 1]);
                    }
                }
            },
            Err(_) => {},
        }
    }
}

/// The lexer's tokens span forward ranges of bytes within the input, and
/// a lexical error lies before the input's end.
pub proof fn lemma_lex_spans(s: Seq<char>)
    ensures
        spans_within(lex_spec(s).0, encode_utf8(s).len()),
        lex_spec(s).1 matches Some(o) ==> o < encode_utf8(s).len(),
{
    lemma_lex_from_spans(s, 0);
}

// A line break at the end of the input changes no token.

proof fn lemma_comment_end_newline(s: Seq<char>, j: nat)
    requires
        j <= s.len(),
    ensures
        comment_end(s.push('\n'), j) == comment_end(s, j),
    decreases s.len() - j,
{
    if j < s.len() && !is_line_end(s[j as int]) {
        lemma_comment_end_newline(s, j + 1);
    }
}

proof fn lemma_ident_end_newline(s: Seq<char>, j: nat)
    requires
        j <= s.len(),
    ensures
        ident_end(s.push('\n'), j) == ident_end(s, j),
    decreases s.len() - j,
{
    if j < s.len() && is_ident_char(s[j as int]) {
        lemma_ident_end_newline(s, j + 1);
    }
}

proof fn lemma_digits_end_newline(s: Seq<char>, j: nat)
    requires
        j <= s.len(),
    ensures
        digits_end(s.push('\n'), j) == digits_end(s, j),
    decreases s.len() - j,
{
    if j < s.len() && is_digit(s[j as int]) {
        lemma_digits_end_newline(s, j + 1);
    }
}

proof fn lemma_skip_from_newline(s: Seq<char>, i: nat)
    requires
        i <= s.len(),
    ensures
        skip_from(s, i) < s.len() ==> skip_from(s.push('\n'), i) == skip_from(s, i),
        skip_from(s, i) >= s.len() ==> skip_from(s.push('\n'), i) >= s.len() + 1,
    decreases s.len() - i,
{
    let t = s.push('\n');
    if i == s.len() {
        assert(is_space(t[i as int]));
        assert(skip_from(t, i) == skip_from(t, i + 1));
    } else if is_space(s[i as int]) {
        lemma_skip_from_newline(s, i + 1);
    } else if s[i as int] == '-' && i + 1 < s.len() && s[i + 1int] == '-' {
        lemma_comment_end_ge(s, i + 2);
        lemma_comment_end_bound(s, i + 2);
        lemma_comment_end_newline(s, i + 2);
        lemma_skip_from_newline(s, comment_end(s, i + 2));
    }
}

proof fn lemma_token_at_newline(s: Seq<char>, k: nat)
    requires
        k < s.len(),
    ensures
        token_at(s.push('\n'), k) == token_at(s, k),
{
    let t = s.push('\n');
    lemma_ident_end_newline(s, k + 1);
    lemma_digits_end_newline(s, k + 1);
    lemma_ident_end(s, k + 1);
    lemma_digits_end(s, k + 1);
    let j1 = ident_end(s, k + 1);
    let j2 = digits_end(s, k + 1);
    assert(t.subrange(k as int, j1 as int) =~= s.subrange(k as int, j1 as int));
    assert(t.subrange(k as int, j2 as int) =~= s.subrange(k as int, j2 as int));
}

proof fn lemma_byte_offset_newline(s: Seq<char>, j: nat)
    requires
        j <= s.len(),
    ensures
        byte_offset(s.push('\n'), j) == byte_offset(s, j),
{
    assert(s.push('\n').take(j as int) =~= s.take(j as int));
}

proof fn lemma_lex_from_newline(s: Seq<char>, i: nat)
    requires
        i <= s.len(),
    ensures
        lex_from(s.push('\n'), i) == lex_from(s, i),
    decreases s.len() - i,
{
    let t = s.push('\n');
    lemma_skip_from_newline(s, i);
    lemma_skip_from(s, i);
    let k = skip_from(s, i);
    if k < s.len() {
        lemma_token_at_newline(s, k);
        lemma_token_at_advances(s, k);
        lemma_byte_offset_newline(s, k);
        match token_at(s, k) {
            Ok((_, j)) => {
                lemma_byte_offset_newline(s, j);
                lemma_next_advances(s, i);
                lemma_next_advances(t, i);
                lemma_lex_from_newline(s, j);
            },
            Err(_) => {},
        }
    }
}

/// A line break at the end of the input changes none of its tokens and
/// no lexical error.
pub proof fn lemma_lex_line_break(s: Seq<char>)
    ensures
        lex_spec(s.push('\n')) == lex_spec(s),
{
    lemma_lex_from_newline(s, 0);
}

/// A digit sequence never loses value when more digits follow.
pub proof fn lemma_digits_value_mono(d: Seq<char>, k: nat, m: nat)
    requires
        k <= m <= d.len(),
    ensures
        digits_value(d.take(k as int)) <= digits_value(d.take(m as int)),
    decreases m - k,
{
    if k < m {
        lemma_digits_value_mono(d, k, (m - 1) as nat);
        assert(d.take(m as int).drop_last() =~= d.take(m - 1));
    }
}

/// A lexer over the characters of an input.
#[derive(Debug)]
pub struct Lexer {
    chars: Vec<char>,
    pos: usize,
    offset: usize,
}

impl Lexer {
    /// The characters of the input.
    pub closed spec fn input(&self) -> Seq<char> {
        self.chars@
    }

    /// The character position lexing continues from.
    pub closed spec fn position(&self) -> nat {
        self.pos as nat
    }

    /// The position is within the input and the byte offset is tracked.
    pub closed spec fn wf(&self) -> bool {
        &&& self.pos <= self.chars@.len()
        &&& self.offset == byte_offset(self.chars@, self.pos as nat)
        &&& encode_utf8(self.chars@).len() <= usize::MAX
    }

    /// A lexer at the start of `input`.
    pub fn new(input: &str) -> (r: Self)
        ensures
            r.wf(),
            r.input() == input@,
            r.position() == 0,
    {
        // The byte length is a machine integer, and so is every offset tracked.
        let byte_len = input.as_bytes().len();
        assert(encode_utf8(input@).len() == byte_len);
        let mut chars: Vec<char> = Vec::new();
        for c in it: input.chars()
            invariant
                chars@ == it.seq().take(it.index() as int),
                it.seq() == input@,
        {
            chars.push(c);
        }
        proof {
            assert(chars@ =~= input@);
            assert(encode_utf8(chars@).take(0) =~= Seq::<u8>::empty());
            assert(chars@.take(0) =~= Seq::<char>::empty());
        }
        Lexer { chars, pos: 0, offset: 0 }
    }

    /// The byte offset of character position `to`, from that of `from`.
    fn offset_at(&self, from: usize, off: usize, to: usize) -> (r: usize)
        requires
            self.wf(),
            from <= to <= self.chars@.len(),
            off == byte_offset(self.chars@, from as nat),
        ensures
            r == byte_offset(self.chars@, to as nat),
    {
        let mut k = from;
        let mut o = off;
        while k < to
            invariant
                self.wf(),
                from <= k <= to <= self.chars@.len(),
                o == byte_offset(self.chars@, k as nat),
            decreases to - k,
        {
            proof {
                lemma_byte_offset_step(self.chars@, k as nat);
            }
            let w = char_width(self.chars[k]);
            o = o + w;
            k = k + 1;
        }
        o
    }

    fn skip(&self, from: usize) -> (r: usize)
        requires
            self.wf(),
            from <= self.chars@.len(),
        ensures
            r == skip_from(self.chars@, from as nat),
            from <= r <= self.chars@.len(),
    {
        proof {
            lemma_skip_from(self.chars@, from as nat);
        }
        let s = &self.chars;
        let mut i = from;
        while i < s.len()
            invariant
                i <= s@.len(),
                s@ == self.chars@,
                from <= skip_from(s@, from as nat) <= s@.len(),
                skip_from(s@, from as nat) == skip_from(s@, i as nat),
            decreases s@.len() - i,
        {
            let c = s[i];
            if c == ' ' || c == '\t' || c == '\n' || c == '\r' || c == '\x0c' {
                i = i + 1;
            } else if c == '-' && i + 1 < s.len() && s[i + 1] == '-' {
                let mut j = i + 2;
                while j < s.len() && s[j] != '\n' && s[j] != '\r'
                    invariant
                        i + 2 <= j <= s@.len(),
                        comment_end(s@, (i + 2) as nat) == comment_end(s@, j as nat),
                    decreases s@.len() - j,
                {
                    j = j + 1;
                }
                proof {
                    lemma_comment_end_ge(s@, (i + 2) as nat);
                }
                i = j;
            } else {
                return i;
            }
        }
        i
    }

    /// The next token and its byte span, or the lexical error at the next
    /// position; `None` at the end of input.
    pub fn next_token(&mut self) -> (r: Option<Result<(usize, Token, usize), LexicalError>>)
        requires
            old(self).wf(),
        ensures
            final(self).wf(),
            final(self).input() == old(self).input(),
            match next_spec(old(self).input(), old(self).position()) {
                None => r is None,
                Some((Ok((a, t, b)), j)) => r matches Some(Ok((ra, rt, rb))) && ra == a && rt@
                    == t && rb == b && final(self).position() == j,
                Some((Err(o), j)) => r matches Some(Err(LexicalError::InvalidToken(ro))) && ro
                    == o && final(self).position() == j,
            },
    {
        let k = self.skip(self.pos);
        if k >= self.chars.len() {
            return None;
        }
        let start = self.offset_at(self.pos, self.offset, k);
        let (res, j) = scan_token(&self.chars, k);
        proof {
            lemma_next_advances(self.chars@, self.pos as nat);
        }
        let end = self.offset_at(k, start, j);
        self.pos = j;
        self.offset = end;
        match res {
            Some(t) => Some(Ok((start, t, end))),
            None => Some(Err(LexicalError::InvalidToken(start))),
        }
    }
}

/// The byte width of a character in UTF-8.
fn char_width(c: char) -> (r: usize)
    ensures
        r == encode_scalar(c as u32).len(),
{
    let v = c as u32;
    if v <= 0x7F {
        1
    } else if v <= 0x7FF {
        2
    } else if v <= 0xFFFF && !(0xD800 <= v && v <= 0xDFFF) {
        3
    } else {
        4
    }
}

fn keyword_token(w: &String) -> (r: Option<Token>)
    ensures
        match r {
            Some(t) => keyword(w@) == Some(t@),
            None => keyword(w@) is None,
        },
{
    if *w == "def".to_owned() {
        Some(Token::Def)
    } else if *w == "eval".to_owned() {
        Some(Token::Eval)
    } else if *w == "check".to_owned() {
        Some(Token::Check)
    } else if *w == "let".to_owned() {
        Some(Token::Let)
    } else if *w == "in".to_owned() {
        Some(Token::In)
    } else if *w == "fun".to_owned() {
        Some(Token::Fun)
    } else if *w == "if".to_owned() {
        Some(Token::If)
    } else if *w == "then".to_owned() {
        Some(Token::Then)
    } else if *w == "else".to_owned() {
        Some(Token::Else)
    } else if *w == "Type".to_owned() {
        Some(Token::Type)
    } else if *w == "Bool".to_owned() {
        Some(Token::Bool)
    } else if *w == "true".to_owned() {
        Some(Token::True)
    } else if *w == "false".to_owned() {
        Some(Token::False)
    } else if *w == "fst".to_owned() {
        Some(Token::Fst)
    } else if *w == "snd".to_owned() {
        Some(Token::Snd)
    } else if *w == "w".to_owned() {
        Some(Token::Omega)
    } else {
        None
    }
}

fn is_ident_char_exec(c: char) -> (r: bool)
    ensures
        r == is_ident_char(c),
{
    ('a' <= c && c <= 'z') || ('A' <= c && c <= 'Z') || c == '_' || ('0' <= c && c <= '9') || c
        == '\''
}

/// The token starting at `i` and the position after it (`None` for a
/// lexical error).
fn scan_token(s: &Vec<char>, i: usize) -> (r: (Option<Token>, usize))
    requires
        i < s@.len(),
    ensures
        match token_at(s@, i as nat) {
            Ok((t, j)) => r.0 matches Some(rt) && rt@ == t && r.1 == j,
            Err(j) => r.0 is None && r.1 == j,
        },
        i < r.1 <= s@.len(),
{
    proof {
        lemma_ident_end(s@, (i + 1) as nat);
        lemma_digits_end(s@, (i + 1) as nat);
    }
    let len = s.len();
    let c = s[i];
    if ('a' <= c && c <= 'z') || ('A' <= c && c <= 'Z') || c == '_' {
        let mut w = String::new();
        push_char(&mut w, c);
        let mut j = i + 1;
        proof {
            assert(w@ =~= s@.subrange(i as int, j as int));
        }
        while j < s.len() && is_ident_char_exec(s[j])
            invariant
                i < j <= s@.len(),
                ident_end(s@, (i + 1) as nat) == ident_end(s@, j as nat),
                w@ == s@.subrange(i as int, j as int),
            decreases s@.len() - j,
        {
            push_char(&mut w, s[j]);
            j = j + 1;
            proof {
                assert(w@ =~= s@.subrange(i as int, j as int));
            }
        }
        match keyword_token(&w) {
            Some(t) => (Some(t), j),
            None => (Some(Token::Ident(w)), j),
        }
    } else if '0' <= c && c <= '9' {
        let mut j = i;
        let mut value: u64 = 0;
        let mut overflow = false;
        proof {
            assert(s@.subrange(i as int, i as int) =~= Seq::<char>::empty());
        }
        while j < s.len() && '0' <= s[j] && s[j] <= '9'
            invariant
                i <= j <= s@.len(),
                j > i ==> digits_end(s@, (i + 1) as nat) == digits_end(s@, j as nat),
                j == i ==> is_digit(s@[i as int]),
                !overflow ==> value == digits_value(s@.subrange(i as int, j as int)),
                overflow ==> digits_value(s@.subrange(i as int, j as int)) > u64::MAX,
            decreases s@.len() - j,
        {
            let d = (s[j] as u32 - '0' as u32) as u64;
            let ghost prev = s@.subrange(i as int, j as int);
            let ghost next = s@.subrange(i as int, j + 1);
            proof {
                assert(next.drop_last() =~= prev);
                assert(next.last() == s@[j as int]);
                assert(prev =~= next.take(prev.len() as int));
                lemma_digits_value_mono(next, prev.len(), next.len());
                assert(next.take(next.len() as int) =~= next);
            }
            if !overflow {
                if value > (u64::MAX - d) / 10 {
                    overflow = true;
                } else {
                    value = value * 10 + d;
                }
            }
            j = j + 1;
        }
        if overflow {
            (None, j)
        } else {
            (Some(Token::Number(value)), j)
        }
    } else if c == ':' {
        if i + 1 < s.len() && s[i + 1] == '=' {
            (Some(Token::ColonEq), i + 2)
        } else {
            (Some(Token::Colon), i + 1)
        }
    } else if c == '-' {
        if i + 1 < s.len() && s[i + 1] == '>' {
            (Some(Token::Arrow), i + 2)
        } else {
            (None, i + 1)
        }
    } else if c == '=' {
        if i + 1 < s.len() && s[i + 1] == '>' {
            (Some(Token::FatArrow), i + 2)
        } else {
            (Some(Token::Eq), i + 1)
        }
    } else if c == '(' {
        (Some(Token::LParen), i + 1)
    } else if c == ')' {
        (Some(Token::RParen), i + 1)
    } else if c == '<' {
        (Some(Token::LAngle), i + 1)
    } else if c == '>' {
        (Some(Token::RAngle), i + 1)
    } else if c == ',' {
        (Some(Token::Comma), i + 1)
    } else if c == '*' {
        (Some(Token::Star), i + 1)
    } else if c == '&' {
        (Some(Token::Amp), i + 1)
    } else if c == '\\' {
        (Some(Token::Backslash), i + 1)
    } else {
        (None, i + 1)
    }
}

/// The view of a lexed token with its span.
pub open spec fn spanned_view(t: (usize, Token, usize)) -> (nat, TokenV, nat) {
    (t.0 as nat, t.1@, t.2 as nat)
}

/// The views of lexed tokens with their spans.
pub open spec fn spanned_views(v: Seq<(usize, Token, usize)>) -> Seq<(nat, TokenV, nat)> {
    v.map_values(|t: (usize, Token, usize)| spanned_view(t))
}

/// All tokens of `input` with their byte spans, up to the first lexical
/// error, and that error if there is one.
pub fn lex(input: &str) -> (r: (Vec<(usize, Token, usize)>, Option<LexicalError>))
    ensures
        spanned_views(r.0@) == lex_spec(input@).0,
        match lex_spec(input@).1 {
            Some(o) => r.1 == Some(LexicalError::InvalidToken(o as usize)) && o <= usize::MAX,
            None => r.1 is None,
        },
{
    let mut lexer = Lexer::new(input);
    let mut out: Vec<(usize, Token, usize)> = Vec::new();
    let ghost s = input@;
    loop
        invariant
            lexer.wf(),
            lexer.input() == s,
            s == input@,
            lexer.position() <= s.len(),
            lex_spec(s) == (
                spanned_views(out@) + lex_from(
                    s,
                    lexer.position(),
                ).0,
                lex_from(s, lexer.position()).1,
            ),
        decreases s.len() - lexer.position(),
    {
        let ghost p = lexer.position();
        proof {
            lemma_next_advances(s, p);
        }
        match lexer.next_token() {
            None => {
                proof {
                    assert(lex_from(s, p) == (Seq::<(nat, TokenV, nat)>::empty(), None::<nat>));
                    assert(spanned_views(out@) + Seq::<
                        (nat, TokenV, nat),
                    >::empty() =~= spanned_views(out@));
                    assert(lex_spec(s).1 is None);
                    assert(lex_spec(s).0 == spanned_views(out@));
                }
                return (out, None);
            },
            Some(Err(e)) => {
                proof {
                    assert(lex_from(s, p).0 == Seq::<(nat, TokenV, nat)>::empty());
                    assert(spanned_views(out@) + Seq::<
                        (nat, TokenV, nat),
                    >::empty() =~= spanned_views(out@));
                }
                return (out, Some(e));
            },
            Some(Ok(t)) => {
                let ghost prev = out@;
                let ghost tv = spanned_view(t);
                out.push(t);
                proof {
                    assert(spanned_views(out@) =~= spanned_views(prev).push(tv));
                    let rest = lex_from(s, lexer.position()).0;
                    assert(spanned_views(prev) + (seq![tv] + rest) =~= spanned_views(out@) + rest);
                }
            },
        }
    }
}

} // verus!
