use zin_lib::token::{feed, parser_token, LexKind, ParserToken};

#[test]
fn lexer_tokens_become_grammar_tokens() {
    assert_eq!(parser_token::<i64>(LexKind::Great), ParserToken::Greater);
    assert_eq!(parser_token::<i64>(LexKind::XOr), ParserToken::Xor);
    assert_eq!(parser_token::<i64>(LexKind::True), ParserToken::Bool(true));
    assert_eq!(parser_token::<i64>(LexKind::Word("x".to_string())), ParserToken::Ident("x".to_string()));
    assert_eq!(parser_token(LexKind::Num(3i64)), ParserToken::Num(3));
    assert_eq!(
        parser_token::<i64>(LexKind::ZString("hi".to_string(), 2)),
        ParserToken::String("hi".to_string())
    );
    assert_eq!(parser_token::<i64>(LexKind::BytesKey), ParserToken::Bytes);
}

#[test]
fn fed_tokens_carry_their_lines() {
    let toks: Vec<LexKind<i64>> = vec![
        LexKind::Word("a".to_string()),
        LexKind::Line,
        LexKind::ZString("x\ny".to_string(), 1),
        LexKind::Semicolon,
        LexKind::Line,
        LexKind::Num(1),
    ];
    let out = feed(toks).unwrap();
    assert_eq!(
        out,
        vec![
            (ParserToken::Ident("a".to_string()), 1),
            (ParserToken::String("x\ny".to_string()), 2),
            (ParserToken::Semicolon, 3),
            (ParserToken::Num(1), 4),
        ]
    );
}

#[test]
fn unreadable_token_is_reported_with_its_line() {
    let toks: Vec<LexKind<i64>> = vec![LexKind::Line, LexKind::Add, LexKind::Error, LexKind::Error];
    assert_eq!(feed(toks), Err((2, 2)));
}
