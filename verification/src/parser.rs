//! The recursive-descent parser: a token cursor with peek/advance/rewind and
//! bulk-skip primitives, and the top-level statement loop built on it.

pub mod catalog_info;
pub mod expression;
pub mod query;
pub mod statement;

use vstd::prelude::*;

use crate::keyword::Keyword;
use crate::parser::query::{
    lemma_subquery_bounds, spec_subquery, tok_at, DMLParseError, DMLParseErrorV,
};
use crate::parser::statement::{parse_query_statement, stmts_view, Statement, StatementV};
use crate::tokenizer::{spec_lex, toks_view, tokenize, LexError, LexErrorV, Token, TokenV};

verus! {

/// A projected column and its alias, as a plain pair of names.
#[derive(Debug, PartialEq, Clone)]
pub struct Column {
    pub value: String,
    pub alias: Option<String>,
}

/// Why one `parse` call failed: either the tokenizer aborted, or one of the
/// statement parsers did.
#[derive(Debug)]
pub enum ParserError {
    UnknownParsersError(String),
    DMLParseError(DMLParseError),
    LexError(LexError),
}

/// The mathematical shape of a `ParserError`.
pub enum ParserErrorV {
    UnknownParsersError,
    DMLParseError(DMLParseErrorV),
    LexError(LexErrorV),
}

impl View for ParserError {
    type V = ParserErrorV;

    open spec fn view(&self) -> ParserErrorV {
        match self {
            ParserError::UnknownParsersError(_) => ParserErrorV::UnknownParsersError,
            ParserError::DMLParseError(e) => ParserErrorV::DMLParseError(e@),
            ParserError::LexError(e) => ParserErrorV::LexError(e@),
        }
    }
}

/// The top-level statement loop over a token sequence, from position `i`: a
/// bare semicolon is skipped as a statement separator; a `SELECT` or `WITH`
/// keyword or an opening parenthesis begins a statement; the end marker ends
/// the scan; any other token is an unsupported top-level construct, and the
/// scan of the remaining input stops where it stands.
pub open spec fn spec_parse_stmts(ts: Seq<TokenV>, i: int, acc: Seq<StatementV>) -> Result<
    (Seq<StatementV>, int),
    DMLParseErrorV,
>
    decreases ts.len() - i,
    via spec_parse_stmts_decreases
{
    let t = tok_at(ts, i);
    if t is EOF {
        Ok((acc, i))
    } else if t is Semicolon {
        spec_parse_stmts(ts, i + 1, acc)
    } else if t is LParen || t == TokenV::Keyword(Keyword::Select) || t == TokenV::Keyword(
        Keyword::With,
    ) {
        match spec_subquery(ts, i) {
            Ok(Some((sq, end))) => spec_parse_stmts(ts, end, acc.push(StatementV::Query(sq))),
            Ok(None) => Ok((acc, i)),
            Err(e) => Err(e),
        }
    } else {
        Ok((acc, i))
    }
}

#[via_fn]
proof fn spec_parse_stmts_decreases(ts: Seq<TokenV>, i: int, acc: Seq<StatementV>) {
    let t = tok_at(ts, i);
    if !(t is EOF) && !(t is Semicolon) && (t is LParen || t == TokenV::Keyword(Keyword::Select)
        || t == TokenV::Keyword(Keyword::With)) {
        lemma_subquery_bounds(ts, i);
    }
}

/// The token cursor: the token sequence of one input and an index into it.
/// The index always lies in `[0, tokens.len()]`; reading at or past the end
/// yields nothing rather than panicking.
pub struct Parser {
    pub tokens: Vec<Token>,
    pub index: usize,
}

impl Parser {
    /// The shapes of the tokens this parser walks over.
    pub open spec fn toks(&self) -> Seq<TokenV> {
        toks_view(self.tokens@)
    }

    pub fn new() -> (r: Parser)
        ensures
            r.tokens@.len() == 0,
            r.index == 0,
    {
        Parser { tokens: Vec::new(), index: 0 }
    }

    /// The token at the cursor, without moving.
    pub fn peek_token(&self) -> (r: Option<&Token>)
        ensures
            match r {
                Some(t) => self.index < self.tokens@.len() && *t == self.tokens@[self.index as int],
                None => self.index >= self.tokens@.len(),
            },
    {
        if self.index < self.tokens.len() {
            Some(&self.tokens[self.index])
        } else {
            None
        }
    }

    /// Advance-then-read: moves the cursor forward by one, then returns the
    /// token it now stands on.
    pub fn next_token(&mut self) -> (r: Option<&Token>)
        requires
            old(self).index < usize::MAX,
        ensures
            final(self).tokens == old(self).tokens,
            final(self).index == old(self).index + 1,
            match r {
                Some(t) => old(self).index + 1 < old(self).tokens@.len() && *t == old(
                    self,
                ).tokens@[old(self).index + 1],
                None => old(self).index + 1 >= old(self).tokens@.len(),
            },
    {
        self.index += 1;
        if self.index < self.tokens.len() {
            Some(&self.tokens[self.index])
        } else {
            None
        }
    }

    /// Read-then-advance: returns the token at the cursor, then moves the
    /// cursor forward by one.
    pub fn token_next(&mut self) -> (r: Option<&Token>)
        requires
            old(self).index < usize::MAX,
        ensures
            final(self).tokens == old(self).tokens,
            final(self).index == old(self).index + 1,
            match r {
                Some(t) => old(self).index < old(self).tokens@.len() && *t == old(
                    self,
                ).tokens@[old(self).index as int],
                None => old(self).index >= old(self).tokens@.len(),
            },
    {
        let token = if self.index < self.tokens.len() {
            Some(&self.tokens[self.index])
        } else {
            None
        };
        self.index += 1;
        token
    }

    /// Moves the cursor back by one and returns the token it now stands on.
    pub fn prev_token(&mut self) -> (r: Option<&Token>)
        requires
            old(self).index >= 1,
        ensures
            final(self).tokens == old(self).tokens,
            final(self).index == old(self).index - 1,
            match r {
                Some(t) => old(self).index - 1 < old(self).tokens@.len() && *t == old(
                    self,
                ).tokens@[old(self).index - 1],
                None => old(self).index - 1 >= old(self).tokens@.len(),
            },
    {
        self.index -= 1;
        if self.index < self.tokens.len() {
            Some(&self.tokens[self.index])
        } else {
            None
        }
    }

    /// The token `index` places ahead of the cursor, without moving.
    pub fn peek_nth(&self, index: usize) -> (r: Option<&Token>)
        ensures
            match r {
                Some(t) => self.index + index < self.tokens@.len() && *t
                    == self.tokens@[self.index + index],
                None => self.index + index >= self.tokens@.len(),
            },
    {
        let n = self.tokens.len();
        if index > usize::MAX - self.index {
            // the position lies past the end of any token sequence that fits
            // in memory
            None
        } else if self.index + index < n {
            Some(&self.tokens[self.index + index])
        } else {
            None
        }
    }

    /// Parses the whole input: tokenizes it, then reads `;`-separated
    /// statements until the end marker or the first top-level token that no
    /// statement can begin with. The first lexing or parsing failure aborts
    /// the call, and no partial statement list is returned.
    pub fn parse(&mut self, query: &str) -> (r: Result<Vec<Statement>, ParserError>)
        ensures
            match spec_lex(query@, 0) {
                Err(le) => r matches Err(pe) && pe@ == ParserErrorV::LexError(le),
                Ok(ts) => {
                    &&& toks_view(final(self).tokens@) == ts
                    &&& match spec_parse_stmts(ts, 0, Seq::empty()) {
                        Ok((ss, end)) => {
                            &&& r matches Ok(v) && stmts_view(v@) == ss
                            &&& final(self).index == end
                        },
                        Err(e) => r matches Err(pe) && pe@ == ParserErrorV::DMLParseError(e),
                    }
                },
            },
    {
        self.index = 0;
        match tokenize(query) {
            Err(e) => {
                self.tokens = Vec::new();
                return Err(ParserError::LexError(e));
            },
            Ok(t) => {
                self.tokens = t;
            },
        }
        let mut result: Vec<Statement> = Vec::new();
        let n = self.tokens.len();
        let ghost ts = self.toks();
        proof {
            assert(stmts_view(result@) =~= Seq::<StatementV>::empty());
        }
        loop
            invariant_except_break
                spec_parse_stmts(ts, self.index as int, stmts_view(result@)) == spec_parse_stmts(
                    ts,
                    0,
                    Seq::empty(),
                ),
            invariant
                spec_lex(query@, 0) == Ok::<Seq<TokenV>, LexErrorV>(ts),
                toks_view(self.tokens@) == ts,
                n == self.tokens@.len(),
                n == ts.len(),
                self.index <= n,
            ensures
                toks_view(self.tokens@) == ts,
                spec_parse_stmts(ts, 0, Seq::empty()) == Ok::<
                    (Seq<StatementV>, int),
                    DMLParseErrorV,
                >((stmts_view(result@), self.index as int)),
            decreases n - self.index,
        {
            let ghost i = self.index as int;
            let ghost prev = result@;
            match self.peek_token() {
                Some(Token::Semicolon) => {
                    // a bare separator between statements
                    let _ = self.token_next();
                },
                Some(Token::Keyword(Keyword::Select))
                | Some(Token::Keyword(Keyword::With))
                | Some(Token::LParen) => {
                    proof {
                        lemma_subquery_bounds(ts, i);
                        assert(!(spec_subquery(ts, i) matches Ok(None)));
                    }
                    match parse_query_statement(self) {
                        Ok(st) => {
                            result.push(st);
                            proof {
                                assert(stmts_view(result@) =~= stmts_view(prev).push(
                                    result@.last()@,
                                ));
                            }
                        },
                        Err(e) => {
                            proof {
                                assert(ts[i] == self.tokens@[i]@);
                                assert(spec_subquery(ts, i) matches Err(ev) && e@ == ev);
                                assert(spec_parse_stmts(ts, i, stmts_view(prev)) == Err::<
                                    (Seq<StatementV>, int),
                                    DMLParseErrorV,
                                >(e@));
                            }
                            return Err(ParserError::DMLParseError(e));
                        },
                    }
                },
                _ => {
                    break ;
                },
            }
        }
        Ok(result)
    }

    /// Bulk-advances the cursor by `size`, after a multi-token lookahead
    /// match commits, and returns the new index.
    pub fn move_index(&mut self, size: usize) -> (r: usize)
        requires
            old(self).index + size <= usize::MAX,
        ensures
            final(self).tokens == old(self).tokens,
            final(self).index == old(self).index + size,
            r == final(self).index,
    {
        self.index += size;
        self.index
    }
}

} // verus!
