//! Subquery and query-block grammar: the recursive subquery wrapper, the
//! query block with its select list, and the bounded-lookahead
//! disambiguation of qualified column references.

use vstd::prelude::*;

use crate::keyword::Keyword;
use crate::parser::expression::{Expression, ExpressionV, SimpleExpression, SimpleExpressionV};
use crate::parser::Parser;
use crate::tokenizer::{Token, TokenV};

verus! {

/// A subquery: either a parenthesized wrapping of a nested subquery or a
/// plain query block — exactly one of the two once fully parsed.
#[derive(Debug)]
pub struct SubQuery {
    pub sub_query: Option<Box<SubQuery>>,
    pub query_block: Option<Box<QueryBlock>>,
}

/// One query block: its `WITH` clause and `FROM` clause are present as typed
/// placeholders only — current parsing never fills them in, and a consumer
/// must not mistake the `None` for a parsed-and-absent clause.
#[derive(Debug)]
pub struct QueryBlock {
    pub with: Option<Box<With>>,
    pub distinct: DistinctMode,
    pub select_list: Vec<SelectItem>,
    pub from: Option<Box<FromClause>>,
}

/// A named, aliased subquery bound to a name by a `WITH` clause. A typed
/// placeholder: parsing of its body is not wired in yet.
#[derive(Debug)]
pub struct With {
    pub name: String,
    pub aliases: Vec<SelectItem>,
    pub subquery: Box<SubQuery>,
}

/// The projection mode of a query block.
#[derive(Debug, PartialEq, Eq, Structural, Clone, Copy)]
pub enum DistinctMode {
    Distinct,
    Unique,
    All,
}

/// A `FROM` clause. A typed placeholder: not yet driven by parsing.
#[derive(Debug)]
pub enum FromClause {
    TableReference(TableReference),
    Join(Join),
}

/// A table named in a `FROM` clause. A typed placeholder.
#[derive(Debug)]
pub enum TableReference {
    QueryTableExpression(QueryTableExpression),
}

/// A qualified table name and its alias. A typed placeholder.
#[derive(Debug)]
pub struct QueryTableExpression {
    pub schema: Option<String>,
    pub table: Option<String>,
    pub alias: Option<String>,
}

/// A join between table references. A typed placeholder.
#[derive(Debug)]
pub struct Join {
    pub table_reference: TableReference,
    pub join: Option<JoinClause>,
}

/// The kind of a join. A typed placeholder.
#[derive(Debug)]
pub enum JoinClause {
    InnerJoin(InnerJoin),
    OuterJoin(OuterJoin),
}

/// An inner join. A typed placeholder.
#[derive(Debug)]
pub struct InnerJoin {
    pub inner_type: InnerJoinType,
    pub join_table: TableReference,
}

#[derive(Debug, PartialEq, Eq, Structural, Clone, Copy)]
pub enum InnerJoinType {
    Inner,
    Cross,
    Natural,
}

/// An outer join. A typed placeholder.
#[derive(Debug)]
pub struct OuterJoin {
    pub outer_type: OuterJoinType,
    pub join_table: TableReference,
}

#[derive(Debug, PartialEq, Eq, Structural, Clone, Copy)]
pub enum OuterJoinType {
    Left,
    Right,
    Full,
}

/// A plain projection: whether it is distinct, and what it projects.
#[derive(Debug)]
pub struct Select {
    pub distinct: bool,
    pub select_list: Vec<SelectItem>,
}

/// One projected expression plus its optional alias.
#[derive(Debug, PartialEq, Clone)]
pub struct SelectItem {
    pub expression: Expression,
    pub alias: Option<String>,
}

/// Why parsing a statement failed. Each variant carries a human-readable
/// message.
#[derive(Debug, PartialEq, Clone)]
pub enum DMLParseError {
    SelectParseError(String),
    ParseSubQueryError(String),
}

/// The mathematical shape of a parse failure; the prose message is not part
/// of the contract.
pub enum DMLParseErrorV {
    SelectParseError,
    ParseSubQueryError,
}

impl View for DMLParseError {
    type V = DMLParseErrorV;

    open spec fn view(&self) -> DMLParseErrorV {
        match self {
            DMLParseError::SelectParseError(_) => DMLParseErrorV::SelectParseError,
            DMLParseError::ParseSubQueryError(_) => DMLParseErrorV::ParseSubQueryError,
        }
    }
}

/// The mathematical shape of a `SubQuery`.
pub struct SubQueryV {
    pub sub_query: Option<Box<SubQueryV>>,
    pub query_block: Option<Box<QueryBlockV>>,
}

/// The mathematical shape of a `QueryBlock`.
pub struct QueryBlockV {
    pub with: Option<Box<WithV>>,
    pub distinct: DistinctMode,
    pub select_list: Seq<SelectItemV>,
    pub from: Option<Box<FromClauseV>>,
}

/// The mathematical shape of a `With` clause.
pub struct WithV {
    pub name: Seq<char>,
    pub aliases: Seq<SelectItemV>,
    pub subquery: Box<SubQueryV>,
}

/// The mathematical shape of a `FromClause`.
pub enum FromClauseV {
    TableReference(TableReferenceV),
    Join(JoinV),
}

pub enum TableReferenceV {
    QueryTableExpression(QueryTableExpressionV),
}

pub struct QueryTableExpressionV {
    pub schema: Option<Seq<char>>,
    pub table: Option<Seq<char>>,
    pub alias: Option<Seq<char>>,
}

pub enum JoinClauseV {
    InnerJoin(InnerJoinV),
    OuterJoin(OuterJoinV),
}

pub struct JoinV {
    pub table_reference: TableReferenceV,
    pub join: Option<JoinClauseV>,
}

pub struct InnerJoinV {
    pub inner_type: InnerJoinType,
    pub join_table: TableReferenceV,
}

pub struct OuterJoinV {
    pub outer_type: OuterJoinType,
    pub join_table: TableReferenceV,
}

/// The mathematical shape of a `SelectItem`.
pub struct SelectItemV {
    pub expression: ExpressionV,
    pub alias: Option<Seq<char>>,
}

impl View for SelectItem {
    type V = SelectItemV;

    open spec fn view(&self) -> SelectItemV {
        SelectItemV {
            expression: self.expression@,
            alias: match self.alias {
                Some(a) => Some(a@),
                None => None,
            },
        }
    }
}

/// The shapes of a whole select list.
pub open spec fn items_view(s: Seq<SelectItem>) -> Seq<SelectItemV> {
    s.map_values(|it: SelectItem| it@)
}

impl View for QueryTableExpression {
    type V = QueryTableExpressionV;

    open spec fn view(&self) -> QueryTableExpressionV {
        QueryTableExpressionV {
            schema: match self.schema {
                Some(s) => Some(s@),
                None => None,
            },
            table: match self.table {
                Some(s) => Some(s@),
                None => None,
            },
            alias: match self.alias {
                Some(s) => Some(s@),
                None => None,
            },
        }
    }
}

impl View for TableReference {
    type V = TableReferenceV;

    open spec fn view(&self) -> TableReferenceV {
        match self {
            TableReference::QueryTableExpression(q) => TableReferenceV::QueryTableExpression(q@),
        }
    }
}

impl View for InnerJoin {
    type V = InnerJoinV;

    open spec fn view(&self) -> InnerJoinV {
        InnerJoinV { inner_type: self.inner_type, join_table: self.join_table@ }
    }
}

impl View for OuterJoin {
    type V = OuterJoinV;

    open spec fn view(&self) -> OuterJoinV {
        OuterJoinV { outer_type: self.outer_type, join_table: self.join_table@ }
    }
}

impl View for JoinClause {
    type V = JoinClauseV;

    open spec fn view(&self) -> JoinClauseV {
        match self {
            JoinClause::InnerJoin(j) => JoinClauseV::InnerJoin(j@),
            JoinClause::OuterJoin(j) => JoinClauseV::OuterJoin(j@),
        }
    }
}

impl View for Join {
    type V = JoinV;

    open spec fn view(&self) -> JoinV {
        JoinV {
            table_reference: self.table_reference@,
            join: match self.join {
                Some(j) => Some(j@),
                None => None,
            },
        }
    }
}

impl View for FromClause {
    type V = FromClauseV;

    open spec fn view(&self) -> FromClauseV {
        match self {
            FromClause::TableReference(t) => FromClauseV::TableReference(t@),
            FromClause::Join(j) => FromClauseV::Join(j@),
        }
    }
}

impl View for SubQuery {
    type V = SubQueryV;

    open spec fn view(&self) -> SubQueryV
        decreases self,
    {
        SubQueryV {
            sub_query: match self.sub_query {
                Some(b) => Some(Box::new((*b).view())),
                None => None,
            },
            query_block: match self.query_block {
                Some(b) => Some(Box::new((*b).view())),
                None => None,
            },
        }
    }
}

impl View for QueryBlock {
    type V = QueryBlockV;

    open spec fn view(&self) -> QueryBlockV
        decreases self,
    {
        QueryBlockV {
            with: match self.with {
                Some(b) => Some(Box::new((*b).view())),
                None => None,
            },
            distinct: self.distinct,
            select_list: items_view(self.select_list@),
            from: match self.from {
                Some(b) => Some(Box::new((*b).view())),
                None => None,
            },
        }
    }
}

impl View for With {
    type V = WithV;

    open spec fn view(&self) -> WithV
        decreases self,
    {
        WithV {
            name: self.name@,
            aliases: items_view(self.aliases@),
            subquery: Box::new((*self.subquery).view()),
        }
    }
}

/// The token at position `i`; past either end of the sequence, the trailing
/// end marker is read instead.
pub open spec fn tok_at(ts: Seq<TokenV>, i: int) -> TokenV {
    if 0 <= i < ts.len() {
        ts[i]
    } else {
        TokenV::EOF
    }
}

/// The tokens that terminate a committed qualified-reference shape: the item
/// itself is consumed, this token is left for the next loop iteration or the
/// caller.
pub open spec fn is_item_end(t: TokenV) -> bool {
    t is Comma || t == TokenV::Keyword(Keyword::From)
}

pub open spec fn simple_item(
    schema: Option<Seq<char>>,
    table: Option<Seq<char>>,
    column: Seq<char>,
    alias: Option<Seq<char>>,
) -> SelectItemV {
    SelectItemV {
        expression: ExpressionV::SimpleExpression(
            SimpleExpressionV { column, schema, table },
        ),
        alias,
    }
}

/// The name an identifier token carries.
pub open spec fn ident_of(t: TokenV) -> Seq<char> {
    match t {
        TokenV::Identifier(s) => s,
        _ => Seq::empty(),
    }
}

/// The text a number or string literal token carries.
pub open spec fn lit_text_of(t: TokenV) -> Seq<char> {
    match t {
        TokenV::NumberLiteral(s) => s,
        TokenV::StringLiteral(s) => s,
        _ => Seq::empty(),
    }
}

/// The qualified-reference shapes a select item can take, matched most
/// specific first so that a longer qualified path is never mistaken for a
/// shorter one followed by an alias. A match yields the item and the number
/// of tokens the shape consumes, the terminating comma or `FROM` excluded.
pub open spec fn match_shape(ts: Seq<TokenV>, j: int) -> Option<(SelectItemV, int)> {
    let t0 = tok_at(ts, j);
    let t1 = tok_at(ts, j + 1);
    let t2 = tok_at(ts, j + 2);
    let t3 = tok_at(ts, j + 3);
    let t4 = tok_at(ts, j + 4);
    let t5 = tok_at(ts, j + 5);
    let t6 = tok_at(ts, j + 6);
    let t7 = tok_at(ts, j + 7);
    // 1. schema.table.column AS alias
    if t0 is Identifier && t1 is Dot && t2 is Identifier && t3 is Dot && t4 is Identifier && t5
        == TokenV::Keyword(Keyword::As) && t6 is Identifier && is_item_end(t7) {
        Some((simple_item(Some(ident_of(t0)), Some(ident_of(t2)), ident_of(t4), Some(ident_of(t6))), 7))
    }
    // 2. schema.table.column alias
    else if t0 is Identifier && t1 is Dot && t2 is Identifier && t3 is Dot && t4 is Identifier
        && t5 is Identifier && is_item_end(t6) {
        Some((simple_item(Some(ident_of(t0)), Some(ident_of(t2)), ident_of(t4), Some(ident_of(t5))), 6))
    }
    // 3. schema.table.column
    else if t0 is Identifier && t1 is Dot && t2 is Identifier && t3 is Dot && t4 is Identifier
        && is_item_end(t5) {
        Some((simple_item(Some(ident_of(t0)), Some(ident_of(t2)), ident_of(t4), None), 5))
    }
    // 4. schema.table.*
    else if t0 is Identifier && t1 is Dot && t2 is Identifier && t3 is Dot && t4 is Asterisk
        && is_item_end(t5) {
        Some((simple_item(Some(ident_of(t0)), Some(ident_of(t2)), seq!['*'], None), 5))
    }
    // 5. table.column AS alias
    else if t0 is Identifier && t1 is Dot && t2 is Identifier && t3 == TokenV::Keyword(Keyword::As)
        && t4 is Identifier && is_item_end(t5) {
        Some((simple_item(None, Some(ident_of(t0)), ident_of(t2), Some(ident_of(t4))), 5))
    }
    // 6. table.column alias
    else if t0 is Identifier && t1 is Dot && t2 is Identifier && t3 is Identifier && is_item_end(
        t4,
    ) {
        Some((simple_item(None, Some(ident_of(t0)), ident_of(t2), Some(ident_of(t3))), 4))
    }
    // 7. table.column
    else if t0 is Identifier && t1 is Dot && t2 is Identifier && is_item_end(t3) {
        Some((simple_item(None, Some(ident_of(t0)), ident_of(t2), None), 3))
    }
    // 8. table.*
    else if t0 is Identifier && t1 is Dot && t2 is Asterisk && is_item_end(t3) {
        Some((simple_item(None, Some(ident_of(t0)), seq!['*'], None), 3))
    }
    // 9. column AS alias
    else if t0 is Identifier && t1 == TokenV::Keyword(Keyword::As) && t2 is Identifier
        && is_item_end(t3) {
        Some((simple_item(None, None, ident_of(t0), Some(ident_of(t2))), 3))
    }
    // 10. column alias
    else if t0 is Identifier && t1 is Identifier && is_item_end(t2) {
        Some((simple_item(None, None, ident_of(t0), Some(ident_of(t1))), 2))
    }
    // 11. bare column
    else if t0 is Identifier && is_item_end(t1) {
        Some((simple_item(None, None, ident_of(t0), None), 1))
    } else {
        None
    }
}

/// What one select-list scan accumulates, and the position of the token that
/// ended it.
pub struct SelectListOut {
    pub distinct: DistinctMode,
    pub items: Seq<SelectItemV>,
    pub end: int,
}

/// The select-list loop, reading from position `j`: `FROM` and an opening
/// parenthesis end the list and stay unconsumed; commas separate; `DISTINCT`
/// and `UNIQUE` set the mode; an asterisk and bare literals each yield one
/// item; an identifier leads a qualified-reference shape; anything else —
/// including an identifier no shape fits — ends the list without being
/// consumed.
pub open spec fn select_list_loop(
    ts: Seq<TokenV>,
    j: int,
    mode: DistinctMode,
    items: Seq<SelectItemV>,
) -> SelectListOut
    decreases ts.len() - j,
    via select_list_loop_decreases
{
    let t = tok_at(ts, j);
    if t == TokenV::Keyword(Keyword::From) || t is LParen {
        SelectListOut { distinct: mode, items, end: j }
    } else if t is Comma {
        select_list_loop(ts, j + 1, mode, items)
    } else if t == TokenV::Keyword(Keyword::Distinct) || t == TokenV::Keyword(Keyword::Unique) {
        select_list_loop(ts, j + 1, DistinctMode::Distinct, items)
    } else if t is Asterisk {
        select_list_loop(ts, j + 1, mode, items.push(simple_item(None, None, seq!['*'], None)))
    } else if t is NumberLiteral || t is StringLiteral {
        select_list_loop(ts, j + 1, mode, items.push(simple_item(None, None, lit_text_of(t), None)))
    } else if t is Identifier {
        match match_shape(ts, j) {
            Some((item, c)) => select_list_loop(ts, j + c, mode, items.push(item)),
            None => SelectListOut { distinct: mode, items, end: j },
        }
    } else {
        SelectListOut { distinct: mode, items, end: j }
    }
}

#[via_fn]
proof fn select_list_loop_decreases(
    ts: Seq<TokenV>,
    j: int,
    mode: DistinctMode,
    items: Seq<SelectItemV>,
) {
    if tok_at(ts, j) is Identifier {
        if let Some((item, c)) = match_shape(ts, j) {
            assert(is_item_end(tok_at(ts, j + c)));
        }
    }
}

/// The select list of a query block whose `SELECT` (or `WITH`) keyword
/// stands at `i`: scanning begins at the following token.
pub open spec fn spec_select_list(ts: Seq<TokenV>, i: int) -> SelectListOut {
    select_list_loop(ts, i + 1, DistinctMode::All, Seq::empty())
}

/// The query block led by the `SELECT` (or `WITH`) keyword at `i`: its
/// select list must be non-empty, its `WITH` and `FROM` clauses stay
/// unparsed.
pub open spec fn spec_query_block(ts: Seq<TokenV>, i: int) -> Result<
    (QueryBlockV, int),
    DMLParseErrorV,
> {
    let out = spec_select_list(ts, i);
    if out.items.len() == 0 {
        Err(DMLParseErrorV::SelectParseError)
    } else {
        Ok(
            (
                QueryBlockV {
                    with: None,
                    distinct: out.distinct,
                    select_list: out.items,
                    from: None,
                },
                out.end,
            ),
        )
    }
}

/// The subquery at `i`: an opening parenthesis wraps a nested subquery —
/// a wrapping with nothing inside is malformed — a `SELECT` or `WITH`
/// keyword begins a query block, and anything else is not a subquery and
/// consumes nothing.
pub open spec fn spec_subquery(ts: Seq<TokenV>, i: int) -> Result<
    Option<(SubQueryV, int)>,
    DMLParseErrorV,
>
    decreases ts.len() - i,
{
    let t = tok_at(ts, i);
    if t is LParen {
        match spec_subquery(ts, i + 1) {
            Ok(Some((inner, end))) => Ok(
                Some(
                    (
                        SubQueryV { sub_query: Some(Box::new(inner)), query_block: None },
                        end,
                    ),
                ),
            ),
            Ok(None) => Err(DMLParseErrorV::ParseSubQueryError),
            Err(e) => Err(e),
        }
    } else if t == TokenV::Keyword(Keyword::Select) || t == TokenV::Keyword(Keyword::With) {
        match spec_query_block(ts, i) {
            Ok((qb, end)) => Ok(
                Some(
                    (
                        SubQueryV { sub_query: None, query_block: Some(Box::new(qb)) },
                        end,
                    ),
                ),
            ),
            Err(e) => Err(e),
        }
    } else {
        Ok(None)
    }
}

/// The select-list scan only moves forward, and never past the end of a
/// sequence it started inside.
pub proof fn lemma_select_list_bounds(
    ts: Seq<TokenV>,
    j: int,
    mode: DistinctMode,
    items: Seq<SelectItemV>,
)
    ensures
        j <= select_list_loop(ts, j, mode, items).end,
        j <= ts.len() ==> select_list_loop(ts, j, mode, items).end <= ts.len(),
    decreases ts.len() - j,
{
    let t = tok_at(ts, j);
    if t == TokenV::Keyword(Keyword::From) || t is LParen {
    } else if t is Comma {
        lemma_select_list_bounds(ts, j + 1, mode, items);
    } else if t == TokenV::Keyword(Keyword::Distinct) || t == TokenV::Keyword(Keyword::Unique) {
        lemma_select_list_bounds(ts, j + 1, DistinctMode::Distinct, items);
    } else if t is Asterisk {
        lemma_select_list_bounds(ts, j + 1, mode, items.push(simple_item(None, None, seq!['*'], None)));
    } else if t is NumberLiteral || t is StringLiteral {
        lemma_select_list_bounds(ts, j + 1, mode, items.push(simple_item(None, None, lit_text_of(t), None)));
    } else if t is Identifier {
        if let Some((item, c)) = match_shape(ts, j) {
            assert(is_item_end(tok_at(ts, j + c)));
            lemma_select_list_bounds(ts, j + c, mode, items.push(item));
        }
    }
}

/// Tries to read one select item led by an identifier at the cursor: matches
/// the qualified-reference shapes most specific first and, on a commit,
/// advances the cursor to the last token the shape consumed, so that the
/// terminating comma or `FROM` is read next. When no shape fits, nothing is
/// consumed and nothing is returned.
pub fn parse_select_item(p: &mut Parser) -> (r: Option<SelectItem>)
    ensures
        final(p).tokens == old(p).tokens,
        match match_shape(old(p).toks(), old(p).index as int) {
            Some((item, c)) => {
                &&& r matches Some(it) && it@ == item
                &&& final(p).index == old(p).index + c - 1
            },
            None => r is None && final(p).index == old(p).index,
        },
{
    let n = p.tokens.len();
    match (
        p.peek_nth(0),
        p.peek_nth(1),
        p.peek_nth(2),
        p.peek_nth(3),
        p.peek_nth(4),
        p.peek_nth(5),
        p.peek_nth(6),
        p.peek_nth(7),
    ) {
        // 1. schema.table.column AS alias
        (
            Some(Token::Identifier(schema)),
            Some(Token::Dot),
            Some(Token::Identifier(table)),
            Some(Token::Dot),
            Some(Token::Identifier(column)),
            Some(Token::Keyword(Keyword::As)),
            Some(Token::Identifier(alias)),
            Some(Token::Comma) | Some(Token::Keyword(Keyword::From)),
        ) => {
            let item = SelectItem {
                expression: Expression::SimpleExpression(
                    SimpleExpression {
                        schema: Some(schema.clone()),
                        table: Some(table.clone()),
                        column: column.clone(),
                    },
                ),
                alias: Some(alias.clone()),
            };
            p.move_index(6);
            Some(item)
        },
        // 2. schema.table.column alias
        (
            Some(Token::Identifier(schema)),
            Some(Token::Dot),
            Some(Token::Identifier(table)),
            Some(Token::Dot),
            Some(Token::Identifier(column)),
            Some(Token::Identifier(alias)),
            Some(Token::Comma) | Some(Token::Keyword(Keyword::From)),
            _,
        ) => {
            let item = SelectItem {
                expression: Expression::SimpleExpression(
                    SimpleExpression {
                        schema: Some(schema.clone()),
                        table: Some(table.clone()),
                        column: column.clone(),
                    },
                ),
                alias: Some(alias.clone()),
            };
            p.move_index(5);
            Some(item)
        },
        // 3. schema.table.column
        (
            Some(Token::Identifier(schema)),
            Some(Token::Dot),
            Some(Token::Identifier(table)),
            Some(Token::Dot),
            Some(Token::Identifier(column)),
            Some(Token::Comma) | Some(Token::Keyword(Keyword::From)),
            _,
            _,
        ) => {
            let item = SelectItem {
                expression: Expression::SimpleExpression(
                    SimpleExpression {
                        schema: Some(schema.clone()),
                        table: Some(table.clone()),
                        column: column.clone(),
                    },
                ),
                alias: None,
            };
            p.move_index(4);
            Some(item)
        },
        // 4. schema.table.*
        (
            Some(Token::Identifier(schema)),
            Some(Token::Dot),
            Some(Token::Identifier(table)),
            Some(Token::Dot),
            Some(Token::Asterisk(_)),
            Some(Token::Comma) | Some(Token::Keyword(Keyword::From)),
            _,
            _,
        ) => {
            let star = String::from_str("*");
            proof {
                reveal_strlit("*");
                assert(star@ =~= seq!['*']);
            }
            let item = SelectItem {
                expression: Expression::SimpleExpression(
                    SimpleExpression {
                        schema: Some(schema.clone()),
                        table: Some(table.clone()),
                        column: star,
                    },
                ),
                alias: None,
            };
            p.move_index(4);
            Some(item)
        },
        // 5. table.column AS alias
        (
            Some(Token::Identifier(table)),
            Some(Token::Dot),
            Some(Token::Identifier(column)),
            Some(Token::Keyword(Keyword::As)),
            Some(Token::Identifier(alias)),
            Some(Token::Comma) | Some(Token::Keyword(Keyword::From)),
            _,
            _,
        ) => {
            let item = SelectItem {
                expression: Expression::SimpleExpression(
                    SimpleExpression {
                        schema: None,
                        table: Some(table.clone()),
                        column: column.clone(),
                    },
                ),
                alias: Some(alias.clone()),
            };
            p.move_index(4);
            Some(item)
        },
        // 6. table.column alias
        (
            Some(Token::Identifier(table)),
            Some(Token::Dot),
            Some(Token::Identifier(column)),
            Some(Token::Identifier(alias)),
            Some(Token::Comma) | Some(Token::Keyword(Keyword::From)),
            _,
            _,
            _,
        ) => {
            let item = SelectItem {
                expression: Expression::SimpleExpression(
                    SimpleExpression {
                        schema: None,
                        table: Some(table.clone()),
                        column: column.clone(),
                    },
                ),
                alias: Some(alias.clone()),
            };
            p.move_index(3);
            Some(item)
        },
        // 7. table.column
        (
            Some(Token::Identifier(table)),
            Some(Token::Dot),
            Some(Token::Identifier(column)),
            Some(Token::Comma) | Some(Token::Keyword(Keyword::From)),
            _,
            _,
            _,
            _,
        ) => {
            let item = SelectItem {
                expression: Expression::SimpleExpression(
                    SimpleExpression {
                        schema: None,
                        table: Some(table.clone()),
                        column: column.clone(),
                    },
                ),
                alias: None,
            };
            p.move_index(2);
            Some(item)
        },
        // 8. table.*
        (
            Some(Token::Identifier(table)),
            Some(Token::Dot),
            Some(Token::Asterisk(_)),
            Some(Token::Comma) | Some(Token::Keyword(Keyword::From)),
            _,
            _,
            _,
            _,
        ) => {
            let star = String::from_str("*");
            proof {
                reveal_strlit("*");
                assert(star@ =~= seq!['*']);
            }
            let item = SelectItem {
                expression: Expression::SimpleExpression(
                    SimpleExpression { schema: None, table: Some(table.clone()), column: star },
                ),
                alias: None,
            };
            p.move_index(2);
            Some(item)
        },
        // 9. column AS alias
        (
            Some(Token::Identifier(column)),
            Some(Token::Keyword(Keyword::As)),
            Some(Token::Identifier(alias)),
            Some(Token::Comma) | Some(Token::Keyword(Keyword::From)),
            _,
            _,
            _,
            _,
        ) => {
            let item = SelectItem {
                expression: Expression::SimpleExpression(
                    SimpleExpression { schema: None, table: None, column: column.clone() },
                ),
                alias: Some(alias.clone()),
            };
            p.move_index(2);
            Some(item)
        },
        // 10. column alias
        (
            Some(Token::Identifier(column)),
            Some(Token::Identifier(alias)),
            Some(Token::Comma) | Some(Token::Keyword(Keyword::From)),
            _,
            _,
            _,
            _,
            _,
        ) => {
            let item = SelectItem {
                expression: Expression::SimpleExpression(
                    SimpleExpression { schema: None, table: None, column: column.clone() },
                ),
                alias: Some(alias.clone()),
            };
            p.move_index(1);
            Some(item)
        },
        // 11. bare column
        (
            Some(Token::Identifier(column)),
            Some(Token::Comma) | Some(Token::Keyword(Keyword::From)),
            _,
            _,
            _,
            _,
            _,
            _,
        ) => {
            let item = SelectItem {
                expression: Expression::SimpleExpression(
                    SimpleExpression { schema: None, table: None, column: column.clone() },
                ),
                alias: None,
            };
            Some(item)
        },
        _ => None,
    }
}

/// A parsed subquery always consumes at least its leading token, and its end
/// stays inside the sequence.
pub proof fn lemma_subquery_bounds(ts: Seq<TokenV>, i: int)
    requires
        0 <= i,
    ensures
        match spec_subquery(ts, i) {
            Ok(Some((sq, end))) => i < end <= ts.len(),
            _ => true,
        },
    decreases ts.len() - i,
{
    let t = tok_at(ts, i);
    if t is LParen {
        lemma_subquery_bounds(ts, i + 1);
    } else if t == TokenV::Keyword(Keyword::Select) || t == TokenV::Keyword(Keyword::With) {
        lemma_select_list_bounds(ts, i + 1, DistinctMode::All, Seq::empty());
    }
}

/// Scans the select list of the query block whose leading keyword stands at
/// the cursor, accumulating items until `FROM`, an opening parenthesis, or a
/// token that cannot continue the list.
pub fn parse_select_list(p: &mut Parser) -> (r: (DistinctMode, Vec<SelectItem>))
    requires
        old(p).index < old(p).tokens@.len(),
    ensures
        final(p).tokens == old(p).tokens,
        ({
            let o = spec_select_list(old(p).toks(), old(p).index as int);
            &&& r.0 == o.distinct
            &&& items_view(r.1@) == o.items
            &&& final(p).index == o.end
        }),
{
    let mut distinct = DistinctMode::All;
    let mut select_list: Vec<SelectItem> = Vec::new();
    let n = p.tokens.len();
    proof {
        assert(items_view(select_list@) =~= Seq::<SelectItemV>::empty());
    }
    loop
        invariant_except_break
            p.index < n,
            select_list_loop(old(p).toks(), p.index + 1, distinct, items_view(select_list@))
                == select_list_loop(
                old(p).toks(),
                old(p).index + 1,
                DistinctMode::All,
                Seq::empty(),
            ),
        invariant
            p.tokens == old(p).tokens,
            n == p.tokens@.len(),
            n == old(p).toks().len(),
        ensures
            p.tokens == old(p).tokens,
            select_list_loop(old(p).toks(), old(p).index + 1, DistinctMode::All, Seq::empty()) == (
            SelectListOut {
                distinct,
                items: items_view(select_list@),
                end: p.index as int,
            }),
        decreases n - p.index,
    {
        let ghost prev_items = select_list@;
        let ghost j = p.index + 1int;
        let tok = p.next_token();
        match tok {
            None => {
                break ;
            },
            Some(Token::Keyword(Keyword::From)) | Some(Token::LParen) => {
                break ;
            },
            Some(Token::Comma) => {},
            Some(Token::Keyword(Keyword::Distinct)) | Some(Token::Keyword(Keyword::Unique)) => {
                distinct = DistinctMode::Distinct;
            },
            Some(Token::Asterisk(_)) => {
                let star = String::from_str("*");
                proof {
                    reveal_strlit("*");
                    assert(star@ =~= seq!['*']);
                }
                select_list.push(
                    SelectItem {
                        expression: Expression::SimpleExpression(
                            SimpleExpression { schema: None, table: None, column: star },
                        ),
                        alias: None,
                    },
                );
            },
            Some(Token::NumberLiteral(v)) | Some(Token::StringLiteral(v)) => {
                let item = SelectItem {
                    expression: Expression::SimpleExpression(
                        SimpleExpression { schema: None, table: None, column: v.clone() },
                    ),
                    alias: None,
                };
                select_list.push(item);
            },
            Some(Token::Identifier(_)) => {
                match parse_select_item(p) {
                    Some(item) => {
                        proof {
                            assert(is_item_end(
                                tok_at(old(p).toks(), j + match_shape(old(p).toks(), j).unwrap().1),
                            ));
                        }
                        select_list.push(item);
                    },
                    None => {
                        break ;
                    },
                }
            },
            Some(_) => {
                break ;
            },
        }
        proof {
            assert(items_view(select_list@) =~= items_view(prev_items).push(
                select_list@.last()@,
            ) || select_list@ =~= prev_items);
        }
    }
    (distinct, select_list)
}

/// Parses the query block led by the `SELECT` or `WITH` keyword at the
/// cursor. The select list must turn out non-empty; the `WITH` and `FROM`
/// clauses are typed placeholders that current parsing leaves empty.
pub fn parse_query_block(p: &mut Parser) -> (r: Result<QueryBlock, DMLParseError>)
    requires
        old(p).index < old(p).tokens@.len(),
    ensures
        final(p).tokens == old(p).tokens,
        match spec_query_block(old(p).toks(), old(p).index as int) {
            Ok((qb, end)) => {
                &&& r matches Ok(b) && b@ == qb
                &&& final(p).index == end
            },
            Err(e) => r matches Err(er) && er@ == e,
        },
{
    let (distinct, select_list) = parse_select_list(p);
    if select_list.len() == 0 {
        Err(
            DMLParseError::SelectParseError(
                String::from_str("the select list of this query block is empty"),
            ),
        )
    } else {
        Ok(QueryBlock { with: None, distinct, select_list, from: None })
    }
}

/// Parses the subquery at the cursor: an opening parenthesis wraps a nested
/// subquery recursively, a `SELECT` or `WITH` keyword begins a query block,
/// and any other token is not a subquery and consumes nothing.
pub fn parse_subquery(p: &mut Parser) -> (r: Result<Option<SubQuery>, DMLParseError>)
    requires
        old(p).index <= old(p).tokens@.len(),
    ensures
        final(p).tokens == old(p).tokens,
        match spec_subquery(old(p).toks(), old(p).index as int) {
            Ok(Some((sq, end))) => {
                &&& r matches Ok(o) && o matches Some(q) && q@ == sq
                &&& final(p).index == end
            },
            Ok(None) => {
                &&& r matches Ok(o) && o is None
                &&& final(p).index == old(p).index
            },
            Err(e) => r matches Err(er) && er@ == e,
        },
    decreases old(p).tokens@.len() - old(p).index,
{
    let n = p.tokens.len();
    match p.peek_token() {
        Some(Token::LParen) => {
            let _ = p.token_next();
            match parse_subquery(p) {
                Ok(Some(inner)) => Ok(
                    Some(SubQuery { sub_query: Some(Box::new(inner)), query_block: None }),
                ),
                Ok(None) => Err(
                    DMLParseError::ParseSubQueryError(
                        String::from_str("expected a subquery after the opening parenthesis"),
                    ),
                ),
                Err(e) => Err(e),
            }
        },
        Some(Token::Keyword(Keyword::Select)) | Some(Token::Keyword(Keyword::With)) => {
            match parse_query_block(p) {
                Ok(qb) => Ok(Some(SubQuery { sub_query: None, query_block: Some(Box::new(qb)) })),
                Err(e) => Err(e),
            }
        },
        _ => Ok(None),
    }
}

} // verus!
