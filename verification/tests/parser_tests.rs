use lafmt::parser::expression::Expression;
use lafmt::parser::query::{parse_select_item, DistinctMode, DMLParseError, SelectItem};
use lafmt::parser::statement::Statement;
use lafmt::parser::{Parser, ParserError};
use lafmt::tokenizer::{tokenize, LexError, Token};

#[test]
pub fn test_fully_qualified_aliased_item() {
    let mut p = Parser::new();
    let stmts = p.parse("select a.b.c as x from t;").unwrap();
    assert_eq!(1, stmts.len());
    let Statement::Query(sq) = &stmts[0];
    assert!(sq.sub_query.is_none());
    let qb = sq.query_block.as_ref().unwrap();
    assert!(qb.with.is_none());
    assert!(qb.from.is_none());
    assert_eq!(DistinctMode::All, qb.distinct);
    assert_eq!(1, qb.select_list.len());
    let item = &qb.select_list[0];
    let Expression::SimpleExpression(e) = &item.expression;
    assert_eq!(Some(String::from("a")), e.schema);
    assert_eq!(Some(String::from("b")), e.table);
    assert_eq!(String::from("c"), e.column);
    assert_eq!(Some(String::from("x")), item.alias);
}

#[test]
pub fn test_wildcard_then_column() {
    let mut p = Parser::new();
    let stmts = p.parse("select *, c from t;").unwrap();
    assert_eq!(1, stmts.len());
    let Statement::Query(sq) = &stmts[0];
    let qb = sq.query_block.as_ref().unwrap();
    assert_eq!(2, qb.select_list.len());

    let wildcard = &qb.select_list[0];
    let Expression::SimpleExpression(w) = &wildcard.expression;
    assert_eq!(String::from("*"), w.column);
    assert_eq!(None, w.schema);
    assert_eq!(None, w.table);
    assert_eq!(None, wildcard.alias);

    let second = &qb.select_list[1];
    let Expression::SimpleExpression(c) = &second.expression;
    assert_eq!(String::from("c"), c.column);
    assert_eq!(None, c.schema);
    assert_eq!(None, c.table);
    assert_eq!(None, second.alias);
}

#[test]
pub fn test_item_commit_leaves_cursor_on_last_consumed_token() {
    // after an item commits, the cursor stands on the item's last token, so
    // the separating comma is read next rather than skipped
    let mut p = Parser {
        tokens: tokenize("c, d from t;").unwrap(),
        index: 0,
    };
    let item: Option<SelectItem> = parse_select_item(&mut p);
    assert!(item.is_some());
    assert_eq!(0, p.index);
    assert_eq!(Some(&Token::Comma), p.peek_nth(1));

    let mut p = Parser {
        tokens: tokenize("a.b.c as x, d from t;").unwrap(),
        index: 0,
    };
    let item = parse_select_item(&mut p);
    assert!(item.is_some());
    // tokens: a . b . c as x , — the cursor ends on the alias
    assert_eq!(6, p.index);
    assert_eq!(Some(&Token::Comma), p.peek_nth(1));
}

#[test]
pub fn test_nested_parenthesized_subquery() {
    let mut p = Parser::new();
    let stmts = p.parse("((select 1 from t))").unwrap();
    assert_eq!(1, stmts.len());
    let Statement::Query(outer) = &stmts[0];
    assert!(outer.query_block.is_none());
    let middle = outer.sub_query.as_ref().unwrap();
    assert!(middle.query_block.is_none());
    let inner = middle.sub_query.as_ref().unwrap();
    assert!(inner.sub_query.is_none());
    let qb = inner.query_block.as_ref().unwrap();
    assert_eq!(1, qb.select_list.len());
    let Expression::SimpleExpression(e) = &qb.select_list[0].expression;
    assert_eq!(String::from("1"), e.column);
    assert_eq!(None, qb.select_list[0].alias);
}

#[test]
pub fn test_lex_error_reaches_the_parse_caller() {
    let mut p = Parser::new();
    let result = p.parse("select $ from t;");
    assert!(matches!(
        result,
        Err(ParserError::LexError(LexError::UnexpectedChar('$')))
    ));
}

#[test]
pub fn test_empty_select_list_is_an_error() {
    let mut p = Parser::new();
    let result = p.parse("select from t;");
    assert!(matches!(
        result,
        Err(ParserError::DMLParseError(DMLParseError::SelectParseError(_)))
    ));
}

#[test]
pub fn test_parenthesis_without_subquery_is_an_error() {
    let mut p = Parser::new();
    let result = p.parse("(1)");
    assert!(matches!(
        result,
        Err(ParserError::DMLParseError(DMLParseError::ParseSubQueryError(_)))
    ));
}

#[test]
pub fn test_statement_list_ends_on_the_end_marker() {
    // a from-less statement list is consumed completely: the cursor ends on
    // the trailing end marker
    let mut p = Parser::new();
    let stmts = p.parse("select 1; select *, 2;").unwrap();
    assert_eq!(2, stmts.len());
    assert_eq!(p.tokens.len() - 1, p.index);
    assert_eq!(Some(&Token::EOF), p.peek_token());
}

#[test]
pub fn test_statement_without_semicolon_still_parses() {
    let mut p = Parser::new();
    let stmts = p.parse("select 1").unwrap();
    assert_eq!(1, stmts.len());
    assert_eq!(Some(&Token::EOF), p.peek_token());
}

#[test]
pub fn test_from_clause_stays_unconsumed() {
    // the FROM grammar is a typed placeholder: the select list stops at the
    // keyword and the top-level scan stops there too
    let mut p = Parser::new();
    let stmts = p.parse("select a from t;").unwrap();
    assert_eq!(1, stmts.len());
    let Statement::Query(sq) = &stmts[0];
    let qb = sq.query_block.as_ref().unwrap();
    assert_eq!(1, qb.select_list.len());
    assert!(qb.from.is_none());
    assert_eq!(
        Some(&Token::Keyword(lafmt::keyword::Keyword::From)),
        p.peek_token()
    );
}

#[test]
pub fn test_with_keyword_begins_a_statement() {
    let mut p = Parser::new();
    let stmts = p.parse("with 1;").unwrap();
    assert_eq!(1, stmts.len());
    let Statement::Query(sq) = &stmts[0];
    let qb = sq.query_block.as_ref().unwrap();
    assert_eq!(1, qb.select_list.len());
    assert_eq!(Some(&Token::EOF), p.peek_token());
}

#[test]
pub fn test_empty_input_parses_to_no_statements() {
    let mut p = Parser::new();
    let stmts = p.parse("").unwrap();
    assert_eq!(0, stmts.len());
}

#[test]
pub fn test_distinct_sets_the_projection_mode() {
    let mut p = Parser::new();
    let stmts = p.parse("select distinct a, b from t;").unwrap();
    let Statement::Query(sq) = &stmts[0];
    let qb = sq.query_block.as_ref().unwrap();
    assert_eq!(DistinctMode::Distinct, qb.distinct);
    assert_eq!(2, qb.select_list.len());
}

#[test]
pub fn test_longer_qualified_path_wins_over_alias_reading() {
    // a.b.c is one qualified column, not a.b aliased c
    let mut p = Parser::new();
    let stmts = p.parse("select a.b.c from t;").unwrap();
    let Statement::Query(sq) = &stmts[0];
    let qb = sq.query_block.as_ref().unwrap();
    assert_eq!(1, qb.select_list.len());
    let item = &qb.select_list[0];
    let Expression::SimpleExpression(e) = &item.expression;
    assert_eq!(Some(String::from("a")), e.schema);
    assert_eq!(Some(String::from("b")), e.table);
    assert_eq!(String::from("c"), e.column);
    assert_eq!(None, item.alias);
}

#[test]
pub fn test_qualified_shapes_take_their_exact_token_count() {
    let mut p = Parser::new();
    let stmts = p
        .parse("select t.c x, s.t.*, q.v as w, lone from t;")
        .unwrap();
    let Statement::Query(sq) = &stmts[0];
    let qb = sq.query_block.as_ref().unwrap();
    assert_eq!(4, qb.select_list.len());

    let Expression::SimpleExpression(e0) = &qb.select_list[0].expression;
    assert_eq!((None, Some(String::from("t"))), (e0.schema.clone(), e0.table.clone()));
    assert_eq!(String::from("c"), e0.column);
    assert_eq!(Some(String::from("x")), qb.select_list[0].alias);

    let Expression::SimpleExpression(e1) = &qb.select_list[1].expression;
    assert_eq!(Some(String::from("s")), e1.schema);
    assert_eq!(Some(String::from("t")), e1.table);
    assert_eq!(String::from("*"), e1.column);

    let Expression::SimpleExpression(e2) = &qb.select_list[2].expression;
    assert_eq!(String::from("v"), e2.column);
    assert_eq!(Some(String::from("w")), qb.select_list[2].alias);

    let Expression::SimpleExpression(e3) = &qb.select_list[3].expression;
    assert_eq!(String::from("lone"), e3.column);
    assert_eq!(None, qb.select_list[3].alias);
}

#[test]
pub fn test_parse_subquery_directly() {
    let mut p = Parser {
        tokens: tokenize("select 1 from t;").unwrap(),
        index: 0,
    };
    let sq = lafmt::parser::query::parse_subquery(&mut p).unwrap().unwrap();
    assert!(sq.sub_query.is_none());
    assert_eq!(1, sq.query_block.as_ref().unwrap().select_list.len());

    // a position that holds no subquery consumes nothing
    let mut p = Parser {
        tokens: tokenize("1;").unwrap(),
        index: 0,
    };
    let none = lafmt::parser::query::parse_subquery(&mut p).unwrap();
    assert!(none.is_none());
    assert_eq!(0, p.index);
}

#[test]
pub fn test_parse_query_block_directly() {
    let mut p = Parser {
        tokens: tokenize("select distinct a, b from t;").unwrap(),
        index: 0,
    };
    let qb = lafmt::parser::query::parse_query_block(&mut p).unwrap();
    assert_eq!(DistinctMode::Distinct, qb.distinct);
    assert_eq!(2, qb.select_list.len());
    // the select list stops at FROM, which stays for the caller
    assert_eq!(Some(&Token::Keyword(lafmt::keyword::Keyword::From)), p.peek_token());
}

#[test]
pub fn test_cursor_primitives_read_and_move_as_named() {
    let mut p = Parser {
        tokens: tokenize("select a;").unwrap(),
        index: 0,
    };
    // read-then-advance
    assert_eq!(Some(&Token::Keyword(lafmt::keyword::Keyword::Select)), p.token_next());
    assert_eq!(1, p.index);
    // advance-then-read
    assert_eq!(Some(&Token::Semicolon), p.next_token());
    assert_eq!(2, p.index);
    // rewind
    assert_eq!(Some(&Token::Identifier(String::from("a"))), p.prev_token());
    assert_eq!(1, p.index);
    // peeking does not move
    assert_eq!(Some(&Token::Semicolon), p.peek_nth(1));
    assert_eq!(1, p.index);
    assert_eq!(3, p.move_index(2));
    assert_eq!(Some(&Token::EOF), p.peek_token());
    // reading past the end never panics
    assert_eq!(None, p.peek_nth(17));
}
