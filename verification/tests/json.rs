use zin_lib::json::{decode, fill, to_json, Decoded, JsonNode, Lexed, Token};

#[test]
fn fill_repeats() {
    let mut s = String::from("x");
    fill(&mut s, '\t', 3);
    assert_eq!(s, "x\t\t\t");
    fill(&mut s, '-', 0);
    assert_eq!(s, "x\t\t\t");
}

#[test]
fn json_of_a_list() {
    let toks = vec![
        Token::LBrace,
        Token::Num("1".to_string()),
        Token::Comma,
        Token::String("a".to_string()),
        Token::Comma,
        Token::Null,
        Token::RBrace,
    ];
    assert_eq!(to_json(toks, 0).unwrap(), "[\n\t1,\n\t\"a\",\n\tnull\n]");
}

#[test]
fn json_of_a_map_with_indent() {
    let toks = vec![
        Token::LBracket,
        Token::String("k".to_string()),
        Token::Colon,
        Token::Bool(true),
        Token::Comma,
        Token::String("j".to_string()),
        Token::Colon,
        Token::Bool(false),
        Token::RBracket,
    ];
    assert_eq!(
        to_json(toks, 1).unwrap(),
        "\t{\n\t\t\"k\": true,\n\t\t\"j\": false}"
    );
}

#[test]
fn json_closing_below_zero_stays_at_zero() {
    let toks = vec![Token::RBracket, Token::Comma, Token::Null];
    assert_eq!(to_json(toks, 0).unwrap(), "},\nnull");
}


fn toks(ts: Vec<Token<i64>>) -> Vec<Lexed<i64>> {
    ts.into_iter().map(Lexed::Tok).collect()
}

#[test]
fn decode_array() {
    let items = toks(vec![
        Token::LBracket,
        Token::Num(1),
        Token::Comma,
        Token::String("a".to_string()),
        Token::Comma,
        Token::Null,
        Token::RBracket,
    ]);
    assert_eq!(
        decode(&items),
        Decoded::Value(vec![
            JsonNode::Num(1),
            JsonNode::Str("a".to_string()),
            JsonNode::Null,
            JsonNode::Array(vec![0, 1, 2]),
        ])
    );
}

#[test]
fn decode_nested_object() {
    let items = toks(vec![
        Token::LBrace,
        Token::String("k".to_string()),
        Token::Colon,
        Token::LBracket,
        Token::RBracket,
        Token::Comma,
        Token::String("j".to_string()),
        Token::Colon,
        Token::LBrace,
        Token::RBrace,
        Token::RBrace,
    ]);
    assert_eq!(
        decode(&items),
        Decoded::Value(vec![
            JsonNode::Array(vec![]),
            JsonNode::Object(vec![]),
            JsonNode::Object(vec![("k".to_string(), 0), ("j".to_string(), 1)]),
        ])
    );
}

#[test]
fn decode_nothing_or_bad_syntax_is_null() {
    assert_eq!(decode::<i64>(&vec![]), Decoded::Null);
    assert_eq!(decode::<i64>(&vec![Lexed::Line, Lexed::Line]), Decoded::Null);
    assert_eq!(decode(&toks(vec![Token::Bool(true)])), Decoded::Null);
    assert_eq!(decode(&toks(vec![Token::Num(1), Token::Num(2)])), Decoded::Null);
    assert_eq!(
        decode(&toks(vec![Token::LBracket, Token::Num(1), Token::Comma, Token::RBracket])),
        Decoded::Null
    );
    assert_eq!(
        decode(&toks(vec![
            Token::LBrace,
            Token::String("a".to_string()),
            Token::Num(1),
            Token::RBrace,
        ])),
        Decoded::Null
    );
    assert_eq!(
        decode(&toks(vec![Token::LBrace, Token::Num(1), Token::Colon, Token::Num(2), Token::RBrace])),
        Decoded::Null
    );
}

#[test]
fn decode_incomplete_counts_lines() {
    assert_eq!(
        decode(&toks(vec![Token::LBracket, Token::Num(1), Token::Comma])),
        Decoded::Incomplete { line: 1 }
    );
    let items: Vec<Lexed<i64>> = vec![
        Lexed::Line,
        Lexed::Tok(Token::LBrace),
        Lexed::Line,
        Lexed::Tok(Token::String("a".to_string())),
        Lexed::Tok(Token::Colon),
    ];
    assert_eq!(decode(&items), Decoded::Incomplete { line: 3 });
}

#[test]
fn decode_unknown_and_foreign_items() {
    let items: Vec<Lexed<i64>> =
        vec![Lexed::Tok(Token::LBracket), Lexed::Tok(Token::Num(1)), Lexed::Line, Lexed::Unknown];
    assert_eq!(decode(&items), Decoded::Unknown { index: 3, line: 2 });
    let after_error: Vec<Lexed<i64>> = vec![Lexed::Tok(Token::RBracket), Lexed::Unknown];
    assert_eq!(decode(&after_error), Decoded::Null);
    let after_value: Vec<Lexed<i64>> = vec![Lexed::Tok(Token::Null), Lexed::Unknown];
    assert_eq!(decode(&after_value), Decoded::Unknown { index: 1, line: 1 });
    let foreign: Vec<Lexed<i64>> = vec![Lexed::Tok(Token::LBracket), Lexed::Foreign, Lexed::Unknown];
    assert_eq!(decode(&foreign), Decoded::Null);
}

#[test]
fn decode_gives_up_at_the_first_bad_token() {
    let items = toks(vec![Token::RBracket, Token::LBracket, Token::RBracket]);
    assert_eq!(decode(&items), Decoded::Null);
    let items = toks(vec![Token::LBracket, Token::RBracket, Token::Null]);
    assert_eq!(decode(&items), Decoded::Null);
}
