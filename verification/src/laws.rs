//! Statement-level guarantees of the parsing pipeline, proved once and for
//! all over the spec-level tokenizer and parser.

use vstd::prelude::*;

use crate::keyword::Keyword;
use crate::number::canon_number;
use crate::parser::query::{
    lit_text_of, match_shape, select_list_loop, simple_item, spec_select_list, spec_subquery,
    tok_at, DistinctMode, SelectItemV, SubQueryV,
};
use crate::parser::spec_parse_stmts;
use crate::parser::statement::StatementV;
use crate::tokenizer::{
    is_letter, is_number_char, is_whitespace_char, is_word_char, lemma_run_end_props, number_end,
    spec_lex, word_end, LexErrorV, TokenV,
};

verus! {

/// A select item that needs no lookahead: a wildcard or a bare literal.
pub open spec fn is_simple_item_token(t: TokenV) -> bool {
    t is Asterisk || t is NumberLiteral || t is StringLiteral
}

/// A token the select-list loop consumes without producing an item.
pub open spec fn is_list_filler(t: TokenV) -> bool {
    t is Comma || t == TokenV::Keyword(Keyword::Distinct) || t == TokenV::Keyword(Keyword::Unique)
}

/// A well-formed, from-less select list read from position `j`: separators,
/// projection modes, wildcard and literal items, and bare column names each
/// followed by a comma, ending at a semicolon or at the end marker with at
/// least one item seen (`seen` carries whether one was seen already).
pub open spec fn valid_list_from(ts: Seq<TokenV>, j: int, seen: bool) -> bool
    decreases ts.len() - j,
{
    let t = tok_at(ts, j);
    if t is Semicolon || t is EOF {
        seen
    } else if is_list_filler(t) {
        valid_list_from(ts, j + 1, seen)
    } else if is_simple_item_token(t) {
        valid_list_from(ts, j + 1, true)
    } else if t is Identifier && tok_at(ts, j + 1) is Comma {
        valid_list_from(ts, j + 1, true)
    } else {
        false
    }
}

/// The first position at or after `j` holding a semicolon or the end marker.
pub open spec fn list_stop(ts: Seq<TokenV>, j: int) -> int
    decreases ts.len() - j,
{
    let t = tok_at(ts, j);
    if t is Semicolon || t is EOF {
        j
    } else {
        list_stop(ts, j + 1)
    }
}

proof fn lemma_list_stop_bounds(ts: Seq<TokenV>, j: int)
    ensures
        j <= list_stop(ts, j),
        j <= ts.len() ==> list_stop(ts, j) <= ts.len(),
    decreases ts.len() - j,
{
    let t = tok_at(ts, j);
    if !(t is Semicolon || t is EOF) {
        lemma_list_stop_bounds(ts, j + 1);
    }
}

/// A well-formed statement list: semicolon separators and `SELECT`- or
/// `WITH`-led statements with well-formed from-less select lists, ending
/// exactly at the end marker that closes the token sequence.
pub open spec fn valid_stmts_from(ts: Seq<TokenV>, i: int) -> bool
    decreases ts.len() - i,
    via valid_stmts_from_decreases
{
    let t = tok_at(ts, i);
    if t is EOF {
        0 <= i == ts.len() - 1
    } else if t is Semicolon {
        valid_stmts_from(ts, i + 1)
    } else if t == TokenV::Keyword(Keyword::Select) || t == TokenV::Keyword(Keyword::With) {
        valid_list_from(ts, i + 1, false) && valid_stmts_from(ts, list_stop(ts, i + 1))
    } else {
        false
    }
}

#[via_fn]
proof fn valid_stmts_from_decreases(ts: Seq<TokenV>, i: int) {
    let t = tok_at(ts, i);
    if !(t is EOF) && !(t is Semicolon) && (t == TokenV::Keyword(Keyword::Select) || t
        == TokenV::Keyword(Keyword::With)) {
        lemma_list_stop_bounds(ts, i + 1);
    }
}

/// Scanning a well-formed select list yields at least one item and stops
/// exactly at the first semicolon or end marker.
proof fn lemma_valid_list_scan(
    ts: Seq<TokenV>,
    j: int,
    mode: DistinctMode,
    items: Seq<SelectItemV>,
    seen: bool,
)
    requires
        valid_list_from(ts, j, seen),
        seen ==> items.len() > 0,
    ensures
        ({
            let o = select_list_loop(ts, j, mode, items);
            &&& o.items.len() > 0
            &&& o.end == list_stop(ts, j)
        }),
    decreases ts.len() - j,
{
    let t = tok_at(ts, j);
    if t is Semicolon || t is EOF {
    } else if t is Comma {
        lemma_valid_list_scan(ts, j + 1, mode, items, seen);
    } else if t == TokenV::Keyword(Keyword::Distinct) || t == TokenV::Keyword(Keyword::Unique) {
        lemma_valid_list_scan(ts, j + 1, DistinctMode::Distinct, items, seen);
    } else if is_simple_item_token(t) {
        if t is Asterisk {
            lemma_valid_list_scan(
                ts,
                j + 1,
                mode,
                items.push(
                    simple_item(None, None, seq!['*'], None),
                ),
                true,
            );
        } else {
            lemma_valid_list_scan(
                ts,
                j + 1,
                mode,
                items.push(simple_item(None, None, lit_text_of(t), None)),
                true,
            );
        }
    } else {
        // a bare column name followed by a comma: only the last, least
        // specific lookahead shape can accept it
        assert(tok_at(ts, j + 1) is Comma);
        if let Some((item, c)) = match_shape(ts, j) {
            assert(c == 1);
            lemma_valid_list_scan(ts, j + 1, mode, items.push(item), true);
        }
    }
}

/// Parsing a well-formed statement list succeeds and consumes everything up
/// to the end marker.
proof fn lemma_valid_stmts_parse(ts: Seq<TokenV>, i: int, acc: Seq<StatementV>)
    requires
        0 <= i,
        valid_stmts_from(ts, i),
    ensures
        spec_parse_stmts(ts, i, acc) matches Ok((ss, end)) && end == ts.len() - 1 && tok_at(
            ts,
            end,
        ) is EOF,
    decreases ts.len() - i,
{
    let t = tok_at(ts, i);
    if t is EOF {
    } else if t is Semicolon {
        lemma_valid_stmts_parse(ts, i + 1, acc);
    } else {
        // a SELECT- or WITH-led statement
        lemma_valid_list_scan(ts, i + 1, DistinctMode::All, Seq::empty(), false);
        lemma_list_stop_bounds(ts, i + 1);
        let o = spec_select_list(ts, i);
        if let Ok(Some((sq, end))) = spec_subquery(ts, i) {
            assert(end == o.end);
            lemma_valid_stmts_parse(ts, end, acc.push(StatementV::Query(sq)));
        }
    }
}

/// A successful tokenizer run ends with exactly one end marker: the last
/// token is `EOF`, and no earlier token is.
pub proof fn lemma_tokens_end_with_one_end_marker(text: Seq<char>, i: int, ts: Seq<TokenV>)
    requires
        spec_lex(text, i) == Ok::<Seq<TokenV>, LexErrorV>(ts),
    ensures
        ts.len() >= 1,
        ts[ts.len() - 1] is EOF,
        forall|k: int| 0 <= k < ts.len() - 1 ==> !(#[trigger] ts[k] is EOF),
    decreases text.len() - i,
{
    if i < 0 || i >= text.len() {
    } else {
        let c = text[i];
        if is_whitespace_char(c) {
            lemma_tokens_end_with_one_end_marker(text, i + 1, ts);
        } else if is_letter(c) {
            lemma_run_end_props(text, i, |ch: char| is_word_char(ch));
            if let Ok(rest) = spec_lex(text, word_end(text, i)) {
                lemma_tokens_end_with_one_end_marker(text, word_end(text, i), rest);
                assert(ts =~= ts.subrange(0, 1) + rest);
            }
        } else if crate::number::is_digit(c) {
            lemma_run_end_props(text, i, |ch: char| is_number_char(ch));
            if let Ok(rest) = spec_lex(text, number_end(text, i)) {
                lemma_tokens_end_with_one_end_marker(text, number_end(text, i), rest);
                assert(ts =~= ts.subrange(0, 1) + rest);
            }
        } else if c == '\'' || c == '"' {
            crate::string_buf::lemma_find_sub_bounds(text, seq![c], i + 1);
            if let Some(j) = crate::string_buf::find_sub(text, seq![c], i + 1) {
                if let Ok(rest) = spec_lex(text, j + 1) {
                    lemma_tokens_end_with_one_end_marker(text, j + 1, rest);
                    assert(ts =~= ts.subrange(0, 1) + rest);
                }
            }
        } else {
            if let Ok(rest) = spec_lex(text, i + 1) {
                lemma_tokens_end_with_one_end_marker(text, i + 1, rest);
                assert(ts =~= ts.subrange(0, 1) + rest);
            }
        }
    }
}

/// Every number literal a successful tokenizer run stores is canonical
/// text: scanning and canonicalizing that stored text again returns it
/// unchanged, so equal numbers always store equal literal text.
pub proof fn lemma_number_literals_are_canonical(text: Seq<char>, i: int, ts: Seq<TokenV>)
    requires
        spec_lex(text, i) == Ok::<Seq<TokenV>, LexErrorV>(ts),
    ensures
        forall|k: int|
            0 <= k < ts.len() && (#[trigger] ts[k]) is NumberLiteral ==> canon_number(
                lit_text_of(ts[k]),
            ) == Some(lit_text_of(ts[k])),
    decreases text.len() - i,
{
    if i < 0 || i >= text.len() {
    } else {
        let c = text[i];
        if is_whitespace_char(c) {
            lemma_number_literals_are_canonical(text, i + 1, ts);
        } else if is_letter(c) {
            lemma_run_end_props(text, i, |ch: char| is_word_char(ch));
            if let Ok(rest) = spec_lex(text, word_end(text, i)) {
                lemma_number_literals_are_canonical(text, word_end(text, i), rest);
            }
        } else if crate::number::is_digit(c) {
            lemma_run_end_props(text, i, |ch: char| is_number_char(ch));
            let w = text.subrange(i, number_end(text, i));
            if let Some(cn) = canon_number(w) {
                crate::number::lemma_canon_number_idempotent(w, cn);
                if let Ok(rest) = spec_lex(text, number_end(text, i)) {
                    lemma_number_literals_are_canonical(text, number_end(text, i), rest);
                }
            }
        } else if c == '\'' || c == '"' {
            crate::string_buf::lemma_find_sub_bounds(text, seq![c], i + 1);
            if let Some(j) = crate::string_buf::find_sub(text, seq![c], i + 1) {
                if let Ok(rest) = spec_lex(text, j + 1) {
                    lemma_number_literals_are_canonical(text, j + 1, rest);
                }
            }
        } else {
            if let Ok(rest) = spec_lex(text, i + 1) {
                lemma_number_literals_are_canonical(text, i + 1, rest);
            }
        }
    }
}

/// Whether one select item keeps the qualification invariant: its schema is
/// never set without its table.
pub open spec fn item_qualification_wf(it: SelectItemV) -> bool {
    match it.expression {
        crate::parser::expression::ExpressionV::SimpleExpression(e) => e.schema is Some
            ==> e.table is Some,
    }
}

proof fn lemma_match_shape_qualification(ts: Seq<TokenV>, j: int)
    ensures
        match match_shape(ts, j) {
            Some((item, c)) => item_qualification_wf(item),
            None => true,
        },
{
}

/// Every item the select-list scan accumulates keeps the qualification
/// invariant: a schema is never set without a table.
pub proof fn lemma_select_list_qualification(
    ts: Seq<TokenV>,
    j: int,
    mode: DistinctMode,
    items: Seq<SelectItemV>,
)
    requires
        forall|k: int| 0 <= k < items.len() ==> item_qualification_wf(#[trigger] items[k]),
    ensures
        forall|k: int|
            0 <= k < select_list_loop(ts, j, mode, items).items.len()
                ==> item_qualification_wf(#[trigger] select_list_loop(ts, j, mode, items).items[k]),
    decreases ts.len() - j,
{
    let t = tok_at(ts, j);
    if t == TokenV::Keyword(Keyword::From) || t is LParen {
    } else if t is Comma {
        lemma_select_list_qualification(ts, j + 1, mode, items);
    } else if t == TokenV::Keyword(Keyword::Distinct) || t == TokenV::Keyword(Keyword::Unique) {
        lemma_select_list_qualification(ts, j + 1, DistinctMode::Distinct, items);
    } else if t is Asterisk {
        lemma_select_list_qualification(
            ts,
            j + 1,
            mode,
            items.push(simple_item(None, None, seq!['*'], None)),
        );
    } else if t is NumberLiteral || t is StringLiteral {
        lemma_select_list_qualification(
            ts,
            j + 1,
            mode,
            items.push(simple_item(None, None, lit_text_of(t), None)),
        );
    } else if t is Identifier {
        if let Some((item, c)) = match_shape(ts, j) {
            lemma_match_shape_qualification(ts, j);
            lemma_select_list_qualification(ts, j + c, mode, items.push(item));
        }
    }
}

/// Whether a subquery tree is fully formed: every node wraps exactly one of
/// a nested subquery or a query block — never both, never neither.
pub open spec fn subquery_wf(sq: SubQueryV) -> bool
    decreases sq,
{
    match (sq.sub_query, sq.query_block) {
        (Some(inner), None) => subquery_wf(*inner),
        (None, Some(_)) => true,
        _ => false,
    }
}

/// Every subquery that parsing hands back is fully formed: exactly one of a
/// nested subquery or a query block at every level.
pub proof fn lemma_subquery_exactly_one(ts: Seq<TokenV>, i: int)
    ensures
        match spec_subquery(ts, i) {
            Ok(Some((sq, end))) => subquery_wf(sq),
            _ => true,
        },
    decreases ts.len() - i,
{
    let t = tok_at(ts, i);
    if t is LParen {
        lemma_subquery_exactly_one(ts, i + 1);
    }
}

/// For every text whose tokens form a well-formed, from-less statement
/// list, tokenizing then parsing succeeds, and the parser's cursor ends
/// exactly on the trailing end marker: no meaningful token is left
/// unconsumed at the top level.
pub proof fn lemma_valid_select_text_parses(text: Seq<char>, ts: Seq<TokenV>)
    requires
        spec_lex(text, 0) == Ok::<Seq<TokenV>, LexErrorV>(ts),
        valid_stmts_from(ts, 0),
    ensures
        spec_parse_stmts(ts, 0, Seq::empty()) matches Ok((ss, end)) && end == ts.len() - 1
            && tok_at(ts, end) is EOF,
{
    lemma_valid_stmts_parse(ts, 0, Seq::empty());
}

} // verus!
