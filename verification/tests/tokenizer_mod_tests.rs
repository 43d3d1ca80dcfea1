use lafmt::keyword::Keyword;
use lafmt::tokenizer::{tokenize, Token};

#[test]
pub fn mod_test_simple_query() {
    let query = "select * from kek;\n";

    if let Ok(tokens) = tokenize(&query) {
        assert_eq!(
            vec![
                Token::Keyword(Keyword::Select),
                Token::Asterisk('*'),
                Token::Keyword(Keyword::From),
                Token::Identifier(String::from("kek")),
                Token::Semicolon,
                Token::EOF,
            ],
            tokens
        );
    } else {
        assert_eq!(1, 0);
    }
}

#[test]
pub fn mod_test_complex_identifier() {
    let query = "select maf_123 from kek;\n";

    if let Ok(tokens) = tokenize(&query) {
        assert_eq!(
            vec![
                Token::Keyword(Keyword::Select),
                Token::Identifier(String::from("maf_123")),
                Token::Keyword(Keyword::From),
                Token::Identifier(String::from("kek")),
                Token::Semicolon,
                Token::EOF,
            ],
            tokens
        );
    } else {
        assert_eq!(1, 0);
    }
}

#[test]
pub fn mod_test_alias_query() {
    let query = "select mem as lol from kek;\n";

    if let Ok(tokens) = tokenize(&query) {
        assert_eq!(
            vec![
                Token::Keyword(Keyword::Select),
                Token::Identifier(String::from("mem")),
                Token::Keyword(Keyword::As),
                Token::Identifier(String::from("lol")),
                Token::Keyword(Keyword::From),
                Token::Identifier(String::from("kek")),
                Token::Semicolon,
                Token::EOF,
            ],
            tokens
        );
    } else {
        assert_eq!(1, 0);
    }
}

#[test]
pub fn mod_test_f64_num_query() {
    let query = "select 123.321 lol from kek;\n";

    if let Ok(tokens) = tokenize(&query) {
        assert_eq!(
            vec![
                Token::Keyword(Keyword::Select),
                Token::NumberLiteral("123.321".to_string()),
                Token::Identifier(String::from("lol")),
                Token::Keyword(Keyword::From),
                Token::Identifier(String::from("kek")),
                Token::Semicolon,
                Token::EOF,
            ],
            tokens
        );
    } else {
        assert_eq!(1, 0);
    }
}

#[test]
pub fn mod_test_i32_num_query() {
    let query = "select 123 lol from kek;\n";

    if let Ok(tokens) = tokenize(&query) {
        assert_eq!(
            vec![
                Token::Keyword(Keyword::Select),
                Token::NumberLiteral("123".to_string()),
                Token::Identifier(String::from("lol")),
                Token::Keyword(Keyword::From),
                Token::Identifier(String::from("kek")),
                Token::Semicolon,
                Token::EOF,
            ],
            tokens
        );
    } else {
        assert_eq!(1, 0);
    }
}

#[test]
pub fn mod_test_join_query() {
    let query = "select 123, mem from kek join lol on kek.id=lol.id;\n";

    if let Ok(tokens) = tokenize(&query) {
        assert_eq!(
            vec![
                Token::Keyword(Keyword::Select),
                Token::NumberLiteral("123".to_string()),
                Token::Comma,
                Token::Identifier("mem".to_string()),
                Token::Keyword(Keyword::From),
                Token::Identifier(String::from("kek")),
                Token::Keyword(Keyword::Join),
                Token::Identifier(String::from("lol")),
                Token::Keyword(Keyword::On),
                Token::Identifier(String::from("kek")),
                Token::Dot,
                Token::Identifier(String::from("id")),
                Token::Equal,
                Token::Identifier(String::from("lol")),
                Token::Dot,
                Token::Identifier(String::from("id")),
                Token::Semicolon,
                Token::EOF,
            ],
            tokens
        );
    } else {
        assert_eq!(1, 0);
    }
}
