use tiny_qtt::lexer::{lex, LexicalError, Lexer, Token};

#[test]
fn keywords_identifiers_and_spans() {
    let (toks, err) = lex("def id' : Type");
    assert!(err.is_none());
    assert_eq!(
        toks,
        vec![
            (0, Token::Def, 3),
            (4, Token::Ident("id'".to_owned()), 7),
            (8, Token::Colon, 9),
            (10, Token::Type, 14),
        ]
    );
}

#[test]
fn punctuation_prefers_longest_match() {
    let (toks, err) = lex(":= : -> => = \\ < > & * , ( )");
    assert!(err.is_none());
    let kinds: Vec<Token> = toks.into_iter().map(|t| t.1).collect();
    assert_eq!(
        kinds,
        vec![
            Token::ColonEq,
            Token::Colon,
            Token::Arrow,
            Token::FatArrow,
            Token::Eq,
            Token::Backslash,
            Token::LAngle,
            Token::RAngle,
            Token::Amp,
            Token::Star,
            Token::Comma,
            Token::LParen,
            Token::RParen,
        ]
    );
}

#[test]
fn omega_numbers_and_comments() {
    let (toks, err) = lex("w wx 0 12 -- a comment\nfst");
    assert!(err.is_none());
    let kinds: Vec<Token> = toks.into_iter().map(|t| t.1).collect();
    assert_eq!(
        kinds,
        vec![
            Token::Omega,
            Token::Ident("wx".to_owned()),
            Token::Number(0),
            Token::Number(12),
            Token::Fst,
        ]
    );
}

#[test]
fn invalid_character_stops_lexing() {
    let (toks, err) = lex("x ? y");
    assert_eq!(toks, vec![(0, Token::Ident("x".to_owned()), 1)]);
    assert_eq!(err, Some(LexicalError::InvalidToken(2)));
    assert_eq!(err.unwrap().offset(), 2);
    assert_eq!(err.unwrap().to_text(), "invalid token at byte offset 2");
}

#[test]
fn offsets_count_bytes() {
    let (toks, err) = lex("é x");
    assert!(toks.is_empty());
    assert_eq!(err, Some(LexicalError::InvalidToken(0)));
    let (toks, _) = lex("-- é\nx");
    assert_eq!(toks, vec![(6, Token::Ident("x".to_owned()), 7)]);
}

#[test]
fn lexer_iterates_tokens() {
    let mut lexer = Lexer::new("if true");
    assert_eq!(lexer.next_token(), Some(Ok((0, Token::If, 2))));
    assert_eq!(lexer.next_token(), Some(Ok((3, Token::True, 7))));
    assert_eq!(lexer.next_token(), None);
}

#[test]
fn tokens_print_as_written() {
    assert_eq!(Token::ColonEq.to_text(), ":=");
    assert_eq!(Token::Backslash.to_text(), "\\");
    assert_eq!(Token::Omega.to_text(), "w");
    assert_eq!(Token::Number(42).to_text(), "42");
    assert_eq!(Token::Ident("abc".to_owned()).to_text(), "abc");
    assert_eq!(Token::Whitespace.to_text(), "<whitespace>");
}

#[test]
fn numbers_beyond_u64_are_lexical_errors() {
    let (toks, err) = lex("x 99999999999999999999");
    assert_eq!(toks.len(), 1);
    assert_eq!(err, Some(LexicalError::InvalidToken(2)));
    let (toks, err) = lex("18446744073709551615");
    assert_eq!(toks, vec![(0, Token::Number(u64::MAX), 20)]);
    assert!(err.is_none());
}

#[test]
fn token_spans_run_forward_within_the_source() {
    for src in ["def id : (0 A : Type) -> A", "é -- comment\n x y'", "a\u{3000}b", "λ"] {
        let (toks, err) = lex(src);
        let mut last_end = 0;
        for (a, _, b) in &toks {
            assert!(*a <= *b && *b <= src.len());
            assert!(last_end <= *a);
            last_end = *b;
        }
        if let Some(e) = err {
            assert!(e.offset() < src.len());
        }
    }
}
