//! Statements: the only kind in scope is a query built from a subquery.

use vstd::prelude::*;

use crate::parser::query::{
    parse_subquery, spec_subquery, DMLParseError, DMLParseErrorV, SubQuery, SubQueryV,
};
use crate::parser::Parser;

verus! {

/// One parsed statement.
#[derive(Debug)]
pub enum Statement {
    Query(SubQuery),
}

/// The mathematical shape of a `Statement`.
pub enum StatementV {
    Query(SubQueryV),
}

impl View for Statement {
    type V = StatementV;

    open spec fn view(&self) -> StatementV {
        match self {
            Statement::Query(q) => StatementV::Query(q@),
        }
    }
}

/// The shapes of a whole statement list.
pub open spec fn stmts_view(s: Seq<Statement>) -> Seq<StatementV> {
    s.map_values(|st: Statement| st@)
}

/// Parses the statement that begins at the cursor by delegating to subquery
/// parsing; a position that holds no subquery at all is a malformed
/// statement.
pub fn parse_query_statement(p: &mut Parser) -> (r: Result<Statement, DMLParseError>)
    requires
        old(p).index <= old(p).tokens@.len(),
    ensures
        final(p).tokens == old(p).tokens,
        match spec_subquery(old(p).toks(), old(p).index as int) {
            Ok(Some((sq, end))) => {
                &&& r matches Ok(st) && st@ == StatementV::Query(sq)
                &&& final(p).index == end
            },
            Ok(None) => {
                &&& r matches Err(er) && er@ == DMLParseErrorV::ParseSubQueryError
                &&& final(p).index == old(p).index
            },
            Err(e) => r matches Err(er) && er@ == e,
        },
{
    match parse_subquery(p) {
        Ok(Some(s_q)) => Ok(Statement::Query(s_q)),
        Ok(None) => Err(
            DMLParseError::ParseSubQueryError(
                String::from_str("the statement here does not begin a subquery"),
            ),
        ),
        Err(e) => Err(e),
    }
}

} // verus!
