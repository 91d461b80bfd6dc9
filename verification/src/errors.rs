//! Error types of the checker and their messages.
use crate::lexer::{lexical_text, LexicalError};
use crate::text::{nat_text, num_text};
use vstd::prelude::*;

verus! {

/// A source span: start and end byte offsets.
pub type Span = (usize, usize);

/// Any error the checker reports.
#[derive(Debug)]
pub enum TinyQttError {
    Lexical(LexicalError),
    Parse(ParseError),
    Type(TypeError),
    Io(std::io::Error),
}

/// The result of a step of the checker.
pub type TinyQttResult<T> = Result<T, TinyQttError>;

/// A syntax error.
#[derive(Debug, PartialEq, Eq)]
pub enum ParseError {
    UnexpectedToken { token: String, expected: Vec<String>, span: Span },
    UnexpectedEof { expected: Vec<String>, offset: usize },
    InvalidToken { offset: usize },
    ExtraToken { token: String, span: Span },
    Lexical(LexicalError),
}

/// The view of a syntax error.
pub enum ParseErrorV {
    UnexpectedToken { token: Seq<char>, expected: Seq<Seq<char>>, span: (nat, nat) },
    UnexpectedEof { expected: Seq<Seq<char>>, offset: nat },
    InvalidToken { offset: nat },
    ExtraToken { token: Seq<char>, span: (nat, nat) },
    Lexical(nat),
}

/// The views of a list of strings.
pub open spec fn strings_view(v: Seq<String>) -> Seq<Seq<char>> {
    Seq::new(v.len(), |i: int| v[i]@)
}

/// A copy of a list of strings.
fn copy_strings(v: &Vec<String>) -> (r: Vec<String>)
    ensures
        strings_view(r@) == strings_view(v@),
{
    let mut out: Vec<String> = Vec::new();
    let mut i: usize = 0;
    while i < v.len()
        invariant
            i <= v@.len(),
            out@.len() == i,
            forall|j: int| 0 <= j < i ==> #[trigger] out@[j]@ == v@[j]@,
        decreases v@.len() - i,
    {
        out.push(v[i].clone());
        i += 1;
    }
    assert(strings_view(out@) =~= strings_view(v@));
    out
}

impl Clone for ParseError {
    fn clone(&self) -> (r: Self)
        ensures
            r@ == self@,
    {
        match self {
            ParseError::UnexpectedToken { token, expected, span } => ParseError::UnexpectedToken {
                token: token.clone(),
                expected: copy_strings(expected),
                span: (span.0, span.1),
            },
            ParseError::UnexpectedEof { expected, offset } => ParseError::UnexpectedEof {
                expected: copy_strings(expected),
                offset: *offset,
            },
            ParseError::InvalidToken { offset } => ParseError::InvalidToken { offset: *offset },
            ParseError::ExtraToken { token, span } => ParseError::ExtraToken {
                token: token.clone(),
                span: (span.0, span.1),
            },
            ParseError::Lexical(le) => ParseError::Lexical(*le),
        }
    }
}

impl View for ParseError {
    type V = ParseErrorV;

    open spec fn view(&self) -> ParseErrorV {
        match self {
            ParseError::UnexpectedToken { token, expected, span } => ParseErrorV::UnexpectedToken {
                token: token@,
                expected: strings_view(expected@),
                span: (span.0 as nat, span.1 as nat),
            },
            ParseError::UnexpectedEof { expected, offset } => ParseErrorV::UnexpectedEof {
                expected: strings_view(expected@),
                offset: *offset as nat,
            },
            ParseError::InvalidToken { offset } => ParseErrorV::InvalidToken {
                offset: *offset as nat,
            },
            ParseError::ExtraToken { token, span } => ParseErrorV::ExtraToken {
                token: token@,
                span: (span.0 as nat, span.1 as nat),
            },
            ParseError::Lexical(LexicalError::InvalidToken(o)) => ParseErrorV::Lexical(*o as nat),
        }
    }
}

/// The items of `list` separated by `sep`.
pub open spec fn join_text(list: Seq<Seq<char>>, sep: Seq<char>) -> Seq<char>
    decreases list.len(),
{
    if list.len() == 0 {
        Seq::empty()
    } else if list.len() == 1 {
        list[0]
    } else {
        join_text(list.drop_last(), sep) + sep + list.last()
    }
}

/// The message of a syntax error.
pub open spec fn parse_error_text(e: ParseErrorV) -> Seq<char> {
    match e {
        ParseErrorV::UnexpectedToken { token, expected, span: _ } => "unexpected token '"@ + token
            + "', expected one of: "@ + join_text(expected, ", "@),
        ParseErrorV::UnexpectedEof { expected, offset: _ } => "unexpected end of input, expected one of: "@
            + join_text(expected, ", "@),
        ParseErrorV::InvalidToken { offset } => "invalid token at offset "@ + nat_text(offset),
        ParseErrorV::ExtraToken { token, span: _ } => "extra token '"@ + token + "' after input"@,
        ParseErrorV::Lexical(o) => "lexical error: "@ + lexical_text(
            LexicalError::InvalidToken(o as usize),
        ),
    }
}

/// The strings of `list` joined by `sep`.
pub fn join(list: &Vec<String>, sep: &str) -> (r: String)
    ensures
        r@ == join_text(strings_view(list@), sep@),
{
    let mut out = String::new();
    let ghost lv = strings_view(list@);
    let mut i: usize = 0;
    while i < list.len()
        invariant
            i <= list@.len(),
            lv == strings_view(list@),
            out@ == join_text(lv.take(i as int), sep@),
        decreases list@.len() - i,
    {
        proof {
            assert(lv.take(i + 1).drop_last() =~= lv.take(i as int));
        }
        if i > 0 {
            out.append(sep);
        } else {
            proof {
                assert(lv.take(0) =~= Seq::<Seq<char>>::empty());
            }
        }
        out.append(list[i].as_str());
        i += 1;
    }
    proof {
        assert(lv.take(list@.len() as int) =~= lv);
    }
    out
}

impl ParseError {
    /// The message of the error.
    pub fn to_text(&self) -> (r: String)
        ensures
            r@ == parse_error_text(self@),
    {
        match self {
            ParseError::UnexpectedToken { token, expected, span: _ } => {
                let mut s = "unexpected token '".to_owned();
                s.append(token.as_str());
                s.append("', expected one of: ");
                s.append(join(expected, ", ").as_str());
                s
            },
            ParseError::UnexpectedEof { expected, offset: _ } => {
                let mut s = "unexpected end of input, expected one of: ".to_owned();
                s.append(join(expected, ", ").as_str());
                s
            },
            ParseError::InvalidToken { offset } => {
                let mut s = "invalid token at offset ".to_owned();
                s.append(num_text(*offset as u64).as_str());
                s
            },
            ParseError::ExtraToken { token, span: _ } => {
                let mut s = "extra token '".to_owned();
                s.append(token.as_str());
                s.append("' after input");
                s
            },
            ParseError::Lexical(e) => {
                let mut s = "lexical error: ".to_owned();
                s.append(e.to_text().as_str());
                s
            },
        }
    }
}

/// A type error, with its message.
#[derive(Debug, Clone, PartialEq, Eq)]
pub struct TypeError {
    pub message: String,
}

impl TypeError {
    /// A type error with the given message.
    pub fn new(message: String) -> (r: Self)
        ensures
            r.message@ == message@,
    {
        Self { message }
    }
}

/// `std::io::Error`, which an error of the checker may carry; nothing
/// inside it is visible to proofs.
#[verifier::external_type_specification]
#[verifier::external_body]
pub struct ExIoError(std::io::Error);

/// The message of an I/O error: `ToString::to_string` through
/// `std::io::Error`'s `Display`. Nothing is claimed of the text, which
/// comes from the operating system or from whoever built the error.
#[verifier::external_body]
fn io_error_text(e: &std::io::Error) -> String {
    e.to_string()
}

impl TinyQttError {
    /// The message of the error: its category and the inner message.
    pub fn to_text(&self) -> (r: String)
        ensures
            match self {
                TinyQttError::Lexical(e) => r@ == "lexical error: "@ + lexical_text(*e),
                TinyQttError::Parse(e) => r@ == "parse error: "@ + parse_error_text(e@),
                TinyQttError::Type(e) => r@ == "type error: "@ + e.message@,
                TinyQttError::Io(_) => r@.len() >= "io error: "@.len() && r@.take(
                    "io error: "@.len() as int,
                ) == "io error: "@,
            },
    {
        match self {
            TinyQttError::Lexical(e) => {
                let mut s = "lexical error: ".to_owned();
                s.append(e.to_text().as_str());
                s
            },
            TinyQttError::Parse(e) => {
                let mut s = "parse error: ".to_owned();
                s.append(e.to_text().as_str());
                s
            },
            TinyQttError::Type(e) => {
                let mut s = "type error: ".to_owned();
                s.append(e.message.as_str());
                s
            },
            TinyQttError::Io(e) => {
                let mut s = "io error: ".to_owned();
                let ghost prefix = s@;
                s.append(io_error_text(e).as_str());
                proof {
                    assert(s@.take(prefix.len() as int) =~= prefix);
                }
                s
            },
        }
    }
}

} // verus!
