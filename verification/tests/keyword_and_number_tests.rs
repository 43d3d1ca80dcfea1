use lafmt::keyword::{Keyword, ParseKeywordError};
use lafmt::number::canonicalize_number;

#[test]
pub fn test_every_reserved_word_is_found() {
    assert_eq!(Ok(Keyword::With), Keyword::from_str("with"));
    assert_eq!(Ok(Keyword::Select), Keyword::from_str("select"));
    assert_eq!(Ok(Keyword::From), Keyword::from_str("from"));
    assert_eq!(Ok(Keyword::As), Keyword::from_str("as"));
    assert_eq!(Ok(Keyword::Left), Keyword::from_str("left"));
    assert_eq!(Ok(Keyword::Right), Keyword::from_str("right"));
    assert_eq!(Ok(Keyword::Join), Keyword::from_str("join"));
    assert_eq!(Ok(Keyword::On), Keyword::from_str("on"));
    assert_eq!(Ok(Keyword::And), Keyword::from_str("and"));
    assert_eq!(Ok(Keyword::Or), Keyword::from_str("or"));
    assert_eq!(Ok(Keyword::Union), Keyword::from_str("union"));
    assert_eq!(Ok(Keyword::All), Keyword::from_str("all"));
    assert_eq!(Ok(Keyword::Distinct), Keyword::from_str("distinct"));
    assert_eq!(Ok(Keyword::Unique), Keyword::from_str("unique"));
}

#[test]
pub fn test_lookup_folds_case() {
    assert_eq!(Ok(Keyword::Select), Keyword::from_str("SELECT"));
    assert_eq!(Ok(Keyword::Select), Keyword::from_str("sElEcT"));
    assert_eq!(Ok(Keyword::With), Keyword::from_str("WITH"));
}

#[test]
pub fn test_lookup_strips_surrounding_whitespace() {
    assert_eq!(Ok(Keyword::Select), Keyword::from_str(" select"));
    assert_eq!(Ok(Keyword::Select), Keyword::from_str("select "));
    assert_eq!(Ok(Keyword::With), Keyword::from_str("\t WITH \n"));
    assert_eq!(Ok(Keyword::From), Keyword::from_str("\r\nfrom\u{b}\u{c}"));
    // white space inside the word still misses the table
    assert_eq!(Err(ParseKeywordError), Keyword::from_str("se lect"));
}

#[test]
pub fn test_non_keywords_are_rejected() {
    assert_eq!(Err(ParseKeywordError), Keyword::from_str("kek"));
    assert_eq!(Err(ParseKeywordError), Keyword::from_str(""));
    assert_eq!(Err(ParseKeywordError), Keyword::from_str("selec"));
    assert_eq!(Err(ParseKeywordError), Keyword::from_str("selects"));
}

#[test]
pub fn test_canonical_number_texts() {
    assert_eq!(Some(String::from("1.5")), canonicalize_number("1.50"));
    assert_eq!(Some(String::from("1.5")), canonicalize_number("1.5"));
    assert_eq!(Some(String::from("1.5")), canonicalize_number("01.50"));
    assert_eq!(Some(String::from("123.321")), canonicalize_number("123.321"));
    assert_eq!(Some(String::from("123")), canonicalize_number("123"));
    assert_eq!(Some(String::from("0")), canonicalize_number("000"));
    assert_eq!(Some(String::from("0")), canonicalize_number("0.000"));
    assert_eq!(Some(String::from("10")), canonicalize_number("10."));
    assert_eq!(None, canonicalize_number("1.2.3"));
    assert_eq!(None, canonicalize_number(""));
    assert_eq!(None, canonicalize_number("."));
}

#[test]
pub fn test_canonicalizing_is_stable() {
    // canonicalizing a canonical text changes nothing
    for raw in ["1.50", "007", "0.000", "10.", "123.321", "90.0100"] {
        let once = canonicalize_number(raw).unwrap();
        let twice = canonicalize_number(&once).unwrap();
        assert_eq!(once, twice);
    }
}

#[test]
pub fn test_canonical_text_agrees_with_double_reserialization() {
    for raw in ["1.50", "007", "0.000", "10.", "123.321", "90.0100"] {
        let canonical = canonicalize_number(raw).unwrap();
        let value: f64 = raw.parse().unwrap();
        assert_eq!(value.to_string(), canonical);
    }
}
