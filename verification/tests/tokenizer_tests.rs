use lafmt::keyword::Keyword;
use lafmt::tokenizer::{tokenize, LexError, Token};

#[test]
pub fn tokenizer_test_simple_query() {
    let query = "select * from kek;\n";

    if let Ok(tokens) = tokenize(&query) {
        assert_eq!(
            vec![
                Token::Keyword(Keyword::Select),
                Token::Asterisk('*'),
                Token::Keyword(Keyword::From),
                Token::Identifier(String::from("kek")),
                Token::Semicolon,
                Token::EOF,
            ],
            tokens
        );
    } else {
        assert_eq!(1, 0);
    }
}

#[test]
pub fn tokenizer_test_complex_identifier() {
    let query = "select maf_123 from kek;\n";

    if let Ok(tokens) = tokenize(&query) {
        assert_eq!(
            vec![
                Token::Keyword(Keyword::Select),
                Token::Identifier(String::from("maf_123")),
                Token::Keyword(Keyword::From),
                Token::Identifier(String::from("kek")),
                Token::Semicolon,
                Token::EOF,
            ],
            tokens
        );
    } else {
        assert_eq!(1, 0);
    }
}

#[test]
pub fn tokenizer_test_alias_query() {
    let query = "select mem as lol from kek;\n";

    if let Ok(tokens) = tokenize(&query) {
        assert_eq!(
            vec![
                Token::Keyword(Keyword::Select),
                Token::Identifier(String::from("mem")),
                Token::Keyword(Keyword::As),
                Token::Identifier(String::from("lol")),
                Token::Keyword(Keyword::From),
                Token::Identifier(String::from("kek")),
                Token::Semicolon,
                Token::EOF,
            ],
            tokens
        );
    } else {
        assert_eq!(1, 0);
    }
}

#[test]
pub fn tokenizer_test_f64_num_query() {
    let query = "select 123.321 lol from kek;\n";

    if let Ok(tokens) = tokenize(&query) {
        assert_eq!(
            vec![
                Token::Keyword(Keyword::Select),
                Token::NumberLiteral("123.321".to_string()),
                Token::Identifier(String::from("lol")),
                Token::Keyword(Keyword::From),
                Token::Identifier(String::from("kek")),
                Token::Semicolon,
                Token::EOF,
            ],
            tokens
        );
    } else {
        assert_eq!(1, 0);
    }
}

#[test]
pub fn tokenizer_test_i32_num_query() {
    let query = "select 123 lol from kek;\n";

    if let Ok(tokens) = tokenize(&query) {
        assert_eq!(
            vec![
                Token::Keyword(Keyword::Select),
                Token::NumberLiteral("123".to_string()),
                Token::Identifier(String::from("lol")),
                Token::Keyword(Keyword::From),
                Token::Identifier(String::from("kek")),
                Token::Semicolon,
                Token::EOF,
            ],
            tokens
        );
    } else {
        assert_eq!(1, 0);
    }
}

#[test]
pub fn tokenizer_test_join_query() {
    let query = "select 123, mem from kek join lol on kek.id=lol.id;\n";

    if let Ok(tokens) = tokenize(&query) {
        assert_eq!(
            vec![
                Token::Keyword(Keyword::Select),
                Token::NumberLiteral("123".to_string()),
                Token::Comma,
                Token::Identifier("mem".to_string()),
                Token::Keyword(Keyword::From),
                Token::Identifier(String::from("kek")),
                Token::Keyword(Keyword::Join),
                Token::Identifier(String::from("lol")),
                Token::Keyword(Keyword::On),
                Token::Identifier(String::from("kek")),
                Token::Dot,
                Token::Identifier(String::from("id")),
                Token::Equal,
                Token::Identifier(String::from("lol")),
                Token::Dot,
                Token::Identifier(String::from("id")),
                Token::Semicolon,
                Token::EOF,
            ],
            tokens
        );
    } else {
        assert_eq!(1, 0);
    }
}

#[test]
pub fn test_string_literal_query() {
    let query = "select '123', 'mem' from kek;\n";

    if let Ok(tokens) = tokenize(&query) {
        assert_eq!(
            vec![
                Token::Keyword(Keyword::Select),
                Token::StringLiteral("123".to_string()),
                Token::Comma,
                Token::StringLiteral(String::from("mem")),
                Token::Keyword(Keyword::From),
                Token::Identifier(String::from("kek")),
                Token::Semicolon,
                Token::EOF,
            ],
            tokens
        );
    } else {
        assert_eq!(1, 0);
    }
}

#[test]
pub fn test_quoted_identifier_query() {
    let query = "select '123', \"mem\" from kek;\n";

    if let Ok(tokens) = tokenize(&query) {
        assert_eq!(
            vec![
                Token::Keyword(Keyword::Select),
                Token::StringLiteral("123".to_string()),
                Token::Comma,
                Token::Identifier(String::from("mem")),
                Token::Keyword(Keyword::From),
                Token::Identifier(String::from("kek")),
                Token::Semicolon,
                Token::EOF,
            ],
            tokens
        );
    } else {
        assert_eq!(1, 0);
    }
}

#[test]
pub fn test_simple_query_exact_token_sequence() {
    assert_eq!(
        Ok(vec![
            Token::Keyword(Keyword::Select),
            Token::Asterisk('*'),
            Token::Keyword(Keyword::From),
            Token::Identifier(String::from("kek")),
            Token::Semicolon,
            Token::EOF,
        ]),
        tokenize("select * from kek;")
    );
}

#[test]
pub fn test_alias_keyword_sits_between_its_identifiers() {
    let tokens = tokenize("select mem as lol from kek;").unwrap();
    assert_eq!(Token::Identifier(String::from("mem")), tokens[1]);
    assert_eq!(Token::Keyword(Keyword::As), tokens[2]);
    assert_eq!(Token::Identifier(String::from("lol")), tokens[3]);
}

#[test]
pub fn test_unexpected_character_aborts_lexing() {
    let result = tokenize("select $ from t;");
    assert_eq!(Err(LexError::UnexpectedChar('$')), result);
}

#[test]
pub fn test_unterminated_string_literal_aborts_lexing() {
    let result = tokenize("select 'abc from t;");
    assert_eq!(Err(LexError::UnterminatedQuote('\'')), result);
}

#[test]
pub fn test_unterminated_quoted_identifier_aborts_lexing() {
    let result = tokenize("select \"abc from t;");
    assert_eq!(Err(LexError::UnterminatedQuote('"')), result);
}

#[test]
pub fn test_malformed_number_aborts_lexing() {
    let result = tokenize("select 1.2.3 from t;");
    assert_eq!(
        Err(LexError::MalformedNumber(String::from("1.2.3"))),
        result
    );
}

#[test]
pub fn test_number_literal_text_is_canonical() {
    let tokens = tokenize("select 1.50 from t;").unwrap();
    assert_eq!(Token::NumberLiteral(String::from("1.5")), tokens[1]);

    let tokens = tokenize("select 007.100 from t;").unwrap();
    assert_eq!(Token::NumberLiteral(String::from("7.1")), tokens[1]);

    let tokens = tokenize("select 10. from t;").unwrap();
    assert_eq!(Token::NumberLiteral(String::from("10")), tokens[1]);

    let tokens = tokenize("select 000 from t;").unwrap();
    assert_eq!(Token::NumberLiteral(String::from("0")), tokens[1]);
}

#[test]
pub fn test_stored_number_text_reserializes_to_itself() {
    // the stored literal text is what re-serializing the parsed double gives
    for query in ["select 1.50 from t;", "select 123.321 from t;", "select 42 from t;"] {
        let tokens = tokenize(query).unwrap();
        if let Token::NumberLiteral(text) = &tokens[1] {
            let value: f64 = text.parse().unwrap();
            assert_eq!(value.to_string(), *text);
        } else {
            panic!("expected a number literal");
        }
    }
}

#[test]
pub fn test_whitespace_kinds_are_skipped_alike() {
    let spaced = tokenize("select * from kek;").unwrap();
    let mixed = tokenize("select\t*\n from\u{a0}kek ;").unwrap();
    assert_eq!(spaced, mixed);
}

#[test]
pub fn test_parentheses_tokenize() {
    let tokens = tokenize("(())").unwrap();
    assert_eq!(
        vec![
            Token::LParen,
            Token::LParen,
            Token::RParen,
            Token::RParen,
            Token::EOF,
        ],
        tokens
    );
}

#[test]
pub fn test_colon_and_equal_symbols() {
    let tokens = tokenize("a := b").unwrap();
    assert_eq!(
        vec![
            Token::Identifier(String::from("a")),
            Token::Colon,
            Token::Equal,
            Token::Identifier(String::from("b")),
            Token::EOF,
        ],
        tokens
    );
}

#[test]
pub fn test_empty_input_yields_only_the_end_marker() {
    assert_eq!(Ok(vec![Token::EOF]), tokenize(""));
}

#[test]
pub fn test_keywords_fold_case() {
    let tokens = tokenize("SeLeCt DISTINCT mem FROM kek;").unwrap();
    assert_eq!(
        vec![
            Token::Keyword(Keyword::Select),
            Token::Keyword(Keyword::Distinct),
            Token::Identifier(String::from("mem")),
            Token::Keyword(Keyword::From),
            Token::Identifier(String::from("kek")),
            Token::Semicolon,
            Token::EOF,
        ],
        tokens
    );
}
