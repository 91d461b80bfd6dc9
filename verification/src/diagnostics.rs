//! Error reports: where in the source an error points, what it says there,
//! and the report that `ariadne` draws from that.
use crate::driver::{check_source_s, FailV};
use crate::errors::{join, join_text, ParseError, ParseErrorV, TinyQttError};
use crate::lexer::{lemma_lex_spans, lexical_text, LexicalError};
use crate::parse::{lemma_syntax_errors_point_into, module_s, repl_s, term_top_s, tokens_of};
use crate::syntax::{DeclV, RawV, ReplInputV};
use ariadne::{Color, Label, Report, ReportKind, Source};
use vstd::prelude::*;
use vstd::utf8::encode_utf8;

verus! {

/// Does `hay` contain `needle` as a contiguous run?
pub open spec fn contains_text(hay: Seq<char>, needle: Seq<char>) -> bool {
    exists|k: int| 0 <= k && k + needle.len() <= hay.len() && #[trigger] hay.subrange(k, k + needle.len()) == needle
}

/// The one-byte span starting at `o`.
pub open spec fn point(o: nat) -> (nat, nat) {
    (o, o + 1)
}

/// Where a syntax error points in a source of `src_len` bytes, and the
/// label it puts there.
pub open spec fn parse_span_s(e: ParseErrorV, src_len: nat) -> ((nat, nat), Seq<char>) {
    match e {
        ParseErrorV::UnexpectedToken { token, expected, span } => (
            span,
            "found '"@ + token + "', expected one of: "@ + join_text(expected, ", "@),
        ),
        ParseErrorV::UnexpectedEof { expected, offset } => (
            point(if offset <= src_len { offset } else { src_len }),
            "unexpected end of input, expected: "@ + join_text(expected, ", "@),
        ),
        ParseErrorV::InvalidToken { offset } => (point(offset), "invalid token"@),
        ParseErrorV::ExtraToken { token, span } => (span, "unexpected extra token '"@ + token + "'"@),
        ParseErrorV::Lexical(o) => (point(o), lexical_text(LexicalError::InvalidToken(o as usize))),
    }
}

/// The spans a syntax error points at end within the machine's integers.
pub open spec fn parse_span_fits(e: ParseErrorV, src_len: nat) -> bool {
    match e {
        ParseErrorV::UnexpectedEof { offset, .. } => (if offset <= src_len {
            offset
        } else {
            src_len
        }) < usize::MAX,
        ParseErrorV::InvalidToken { offset } => offset < usize::MAX,
        ParseErrorV::Lexical(o) => o < usize::MAX,
        _ => true,
    }
}

/// The report of an error other than I/O: its span, its title and the
/// label at the span. `None` for an I/O error, which is reported as a line.
pub open spec fn report_parts_s(e: TinyQttError, src_len: nat) -> Option<((nat, nat), Seq<char>, Seq<char>)> {
    match e {
        TinyQttError::Lexical(le) => Some(
            (point(le->0 as nat), "lexical error"@, lexical_text(le)),
        ),
        TinyQttError::Parse(pe) => Some(
            (parse_span_s(pe@, src_len).0, "parse error"@, parse_span_s(pe@, src_len).1),
        ),
        TinyQttError::Type(te) => Some(
            ((0, if src_len >= 1 { src_len } else { 1 }), "type error"@, te.message@),
        ),
        TinyQttError::Io(_) => None,
    }
}

/// An error whose report can be drawn: its spans are within the machine's
/// integers and run forwards.
pub open spec fn reportable(e: TinyQttError, src_len: nat) -> bool {
    match e {
        TinyQttError::Lexical(le) => le->0 < usize::MAX,
        TinyQttError::Parse(pe) => parse_span_fits(pe@, src_len) && parse_span_s(pe@, src_len).0.0
            <= parse_span_s(pe@, src_len).0.1,
        _ => true,
    }
}

/// Whether the report of `e` against `source` can be drawn.
pub fn is_reportable(e: &TinyQttError, source: &str) -> (r: bool)
    ensures
        r == reportable(*e, encode_utf8(source@).len()),
{
    match e {
        TinyQttError::Lexical(le) => le.offset() < usize::MAX,
        TinyQttError::Parse(pe) => match pe {
            ParseError::UnexpectedToken { span, .. } => span.0 <= span.1,
            ParseError::ExtraToken { span, .. } => span.0 <= span.1,
            ParseError::UnexpectedEof { offset, .. } => {
                let len = source.as_bytes().len();
                let o = if *offset <= len {
                    *offset
                } else {
                    len
                };
                o < usize::MAX
            },
            ParseError::InvalidToken { offset } => *offset < usize::MAX,
            ParseError::Lexical(le) => le.offset() < usize::MAX,
        },
        _ => true,
    }
}

/// Where a syntax error points in `source` and the label it puts there.
pub fn parse_span(e: &ParseError, source: &str) -> (r: (usize, usize, String))
    requires
        parse_span_fits(e@, encode_utf8(source@).len()),
    ensures
        ((r.0 as nat, r.1 as nat), r.2@) == parse_span_s(e@, encode_utf8(source@).len()),
{
    match e {
        ParseError::UnexpectedToken { token, expected, span } => {
            let mut s = "found '".to_owned();
            s.append(token.as_str());
            s.append("', expected one of: ");
            s.append(join(expected, ", ").as_str());
            (span.0, span.1, s)
        },
        ParseError::UnexpectedEof { expected, offset } => {
            let len = source.as_bytes().len();
            let o = if *offset <= len {
                *offset
            } else {
                len
            };
            let mut s = "unexpected end of input, expected: ".to_owned();
            s.append(join(expected, ", ").as_str());
            (o, o + 1, s)
        },
        ParseError::InvalidToken { offset } => (*offset, *offset + 1, "invalid token".to_owned()),
        ParseError::ExtraToken { token, span } => {
            let mut s = "unexpected extra token '".to_owned();
            s.append(token.as_str());
            s.append("'");
            (span.0, span.1, s)
        },
        ParseError::Lexical(le) => {
            let o = le.offset();
            (o, o + 1, le.to_text())
        },
    }
}

/// The span, title and label of the report of `e` against `source`;
/// `None` for an I/O error.
pub fn report_parts(e: &TinyQttError, source: &str) -> (r: Option<(usize, usize, String, String)>)
    requires
        reportable(*e, encode_utf8(source@).len()),
    ensures
        match r {
            Some((a, b, title, label)) => report_parts_s(*e, encode_utf8(source@).len()) == Some(
                ((a as nat, b as nat), title@, label@),
            ),
            None => report_parts_s(*e, encode_utf8(source@).len()) is None,
        },
{
    match e {
        TinyQttError::Lexical(le) => {
            let o = le.offset();
            Some((o, o + 1, "lexical error".to_owned(), le.to_text()))
        },
        TinyQttError::Parse(pe) => {
            let (a, b, label) = parse_span(pe, source);
            Some((a, b, "parse error".to_owned(), label))
        },
        TinyQttError::Type(te) => {
            let len = source.as_bytes().len();
            let end = if len >= 1 {
                len
            } else {
                1
            };
            Some((0, end, "type error".to_owned(), te.message.clone()))
        },
        TinyQttError::Io(_) => None,
    }
}

/// The characters at which `ariadne` ends a line of a source.
pub open spec fn is_line_break(c: char) -> bool {
    c == '\r' || c == '\n' || c == '\x0B' || c == '\x0C' || c == '\u{0085}' || c == '\u{2028}'
        || c == '\u{2029}'
}

/// Does the character span `start..end` of `source` lie on one line: it is
/// not empty, ends within the source, and no line break comes before its
/// last character.
pub open spec fn on_one_line(source: Seq<char>, start: nat, end: nat) -> bool {
    &&& start < end <= source.len()
    &&& forall|i: int| start <= i < end - 1 ==> !is_line_break(#[trigger] source[i])
}

/// Draws an error report with `ariadne`: `Report::build` of kind
/// `ReportKind::Error` over `(name, start..end)`, titled `title`, with one
/// `Label` over the same span coloured `Color::Red` and carrying `label`,
/// written by `Report::write` against `Source::from(source)` and read back
/// as text. Stated of the text: `write` always prints the header, the
/// kind's text `Error:` (colour codes, where the machine uses them, go
/// around it whole), a space, the title and a line break; where the span
/// (counted in characters, ariadne's default) lies within the source, the
/// label is drawn and the location line names the source after a space,
/// followed by `:` and the line number; and a label whose span lies on one
/// line is an inline label, whose message `write` prints uncoloured after a
/// space and before a line break. The rest of the layout is ariadne's, and
/// whether colour codes are written depends on the machine (yansi's colour
/// condition), so it is not stated. `Label::new` panics on a backwards
/// span, hence `start <= end`.
#[verifier::external_body]
fn draw_report(name: &str, source: &str, start: usize, end: usize, title: &str, label: &str) -> (r: String)
    requires
        start <= end,
    ensures
        contains_text(r@, " "@ + title@ + "\n"@),
        contains_text(r@, "Error:"@),
        end <= source@.len() ==> contains_text(r@, " "@ + name@ + ":"@),
        on_one_line(source@, start as nat, end as nat) ==> contains_text(
            r@,
            " "@ + label@ + "\n"@,
        ),
{
    let mut buf: Vec<u8> = Vec::new();
    Report::build(ReportKind::Error, (name, start..end))
        .with_message(title)
        .with_label(Label::new((name, start..end)).with_color(Color::Red).with_message(label))
        .finish()
        .write((name, Source::from(source)), &mut buf)
        .ok();
    String::from_utf8_lossy(&buf).into_owned()
}

/// The text of an error report for `source`, named `source_name`: an
/// I/O error as one line, any other error drawn by `ariadne` at the span
/// and with the title and label of `report_parts`. The report always holds
/// `Error:` and ends a line with the title; where the span lies within the
/// source it names the source, and where it lies on one line of the source
/// it ends a line with the label.
pub fn render(err: &TinyQttError, source_name: &str, source: &str) -> (r: String)
    requires
        reportable(*err, encode_utf8(source@).len()),
    ensures
        match report_parts_s(*err, encode_utf8(source@).len()) {
            Some((span, title, label)) => contains_text(r@, "Error:"@) && contains_text(
                r@,
                " "@ + title + "\n"@,
            ) && (span.1 <= source@.len() ==> contains_text(r@, " "@ + source_name@ + ":"@)) && (on_one_line(
                source@,
                span.0,
                span.1,
            ) ==> contains_text(r@, " "@ + label + "\n"@)),
            None => r@.len() >= "io error: "@.len() + 1 && r@.take("io error: "@.len() as int)
                == "io error: "@ && r@.last() == '\n',
        },
{
    match report_parts(err, source) {
        Some((a, b, title, label)) => draw_report(source_name, source, a, b, title.as_str(), label.as_str()),
        None => {
            let mut s = err.to_text();
            let ghost prefix = s@;
            s.append("\n");
            proof {
                reveal_strlit("\n");
                assert(s@.take("io error: "@.len() as int) =~= prefix.take("io error: "@.len() as int));
            }
            s
        },
    }
}


/// Every syntax error that parsing a source reports can be drawn, for a
/// source whose length is below the machine's largest size: its span runs
/// forwards and its offsets are machine integers.
pub proof fn lemma_syntax_errors_reportable(src: Seq<char>, pe: ParseError)
    requires
        encode_utf8(src).len() < usize::MAX,
        module_s(tokens_of(src)) == Err::<Seq<DeclV>, ParseErrorV>(pe@) || term_top_s(tokens_of(src))
            == Err::<RawV, ParseErrorV>(pe@) || repl_s(tokens_of(src)) == Err::<
            ReplInputV,
            ParseErrorV,
        >(pe@),
    ensures
        reportable(TinyQttError::Parse(pe), encode_utf8(src).len()),
{
    lemma_syntax_errors_point_into(tokens_of(src), pe@);
    lemma_lex_spans(src);
}


/// Every failure that checking a source reports can be drawn, for a source
/// whose length is below the machine's largest size.
pub proof fn lemma_check_failures_reportable(src: Seq<char>, err: TinyQttError)
    requires
        encode_utf8(src).len() < usize::MAX,
        match err {
            TinyQttError::Parse(pe) => check_source_s(src) == Err::<Seq<char>, FailV>(FailV::Syntax(pe@)),
            TinyQttError::Type(t) => check_source_s(src) == Err::<Seq<char>, FailV>(FailV::Type(t.message@)),
            _ => false,
        },
    ensures
        reportable(err, encode_utf8(src).len()),
{
    if let TinyQttError::Parse(pe) = err {
        lemma_syntax_errors_reportable(src, pe);
    }
}

} // verus!
