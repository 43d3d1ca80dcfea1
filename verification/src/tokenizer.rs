//! The tokenizer: consumes the source scanner end to end and classifies runs
//! of characters into a flat token sequence terminated by one end marker.

use vstd::prelude::*;
use vstd::pervasive::unreached;

use crate::keyword::{is_ascii_space, keyword_of, lemma_trimmed_identity, Keyword};
use crate::number::{canon_number, canonicalize_number, is_digit, is_digit_char};
use crate::string_buf::{find_sub, lemma_find_sub_bounds, StringBuf, StringBufIterator};

verus! {

/// One lexical token. The sequence a tokenizer run produces always ends with
/// exactly one `EOF`.
#[derive(Debug, PartialEq, Clone)]
pub enum Token {
    Keyword(Keyword),
    Identifier(String),
    NumberLiteral(String),
    StringLiteral(String),
    Asterisk(char),
    Equal,
    Dot,
    Comma,
    Colon,
    Semicolon,
    LParen,
    RParen,
    EOF,
}

/// The mathematical shape of a token: its text as a character sequence.
pub enum TokenV {
    Keyword(Keyword),
    Identifier(Seq<char>),
    NumberLiteral(Seq<char>),
    StringLiteral(Seq<char>),
    Asterisk(char),
    Equal,
    Dot,
    Comma,
    Colon,
    Semicolon,
    LParen,
    RParen,
    EOF,
}

impl View for Token {
    type V = TokenV;

    open spec fn view(&self) -> TokenV {
        match self {
            Token::Keyword(k) => TokenV::Keyword(*k),
            Token::Identifier(s) => TokenV::Identifier(s@),
            Token::NumberLiteral(s) => TokenV::NumberLiteral(s@),
            Token::StringLiteral(s) => TokenV::StringLiteral(s@),
            Token::Asterisk(c) => TokenV::Asterisk(*c),
            Token::Equal => TokenV::Equal,
            Token::Dot => TokenV::Dot,
            Token::Comma => TokenV::Comma,
            Token::Colon => TokenV::Colon,
            Token::Semicolon => TokenV::Semicolon,
            Token::LParen => TokenV::LParen,
            Token::RParen => TokenV::RParen,
            Token::EOF => TokenV::EOF,
        }
    }
}

/// The shapes of a whole token sequence.
pub open spec fn toks_view(ts: Seq<Token>) -> Seq<TokenV> {
    ts.map_values(|t: Token| t@)
}

/// Why tokenizing failed; it aborts at once and returns no tokens.
#[derive(Debug, PartialEq, Clone)]
pub enum LexError {
    /// A character no token can start with.
    UnexpectedChar(char),
    /// A run of digits and dots that does not denote a number.
    MalformedNumber(String),
    /// A quoted literal or quoted identifier whose closing quote is missing.
    UnterminatedQuote(char),
}

/// The mathematical shape of a lex error.
pub enum LexErrorV {
    UnexpectedChar(char),
    MalformedNumber(Seq<char>),
    UnterminatedQuote(char),
}

impl View for LexError {
    type V = LexErrorV;

    open spec fn view(&self) -> LexErrorV {
        match self {
            LexError::UnexpectedChar(c) => LexErrorV::UnexpectedChar(*c),
            LexError::MalformedNumber(s) => LexErrorV::MalformedNumber(s@),
            LexError::UnterminatedQuote(c) => LexErrorV::UnterminatedQuote(*c),
        }
    }
}

/// The Unicode white-space property of a character.
pub uninterp spec fn is_whitespace_char(c: char) -> bool;

/// Relies on char::is_whitespace of std: whether the character has the
/// Unicode white-space property, a function of the character alone. Its
/// documentation fixes the ASCII members of that property: space, horizontal
/// tab, line feed, vertical tab, form feed and carriage return.
#[verifier::external_body]
fn char_is_whitespace(c: char) -> (r: bool)
    ensures
        r == is_whitespace_char(c),
        (c as u32) < 128 ==> r == is_ascii_space(c),
{
    c.is_whitespace()
}

pub open spec fn is_letter(c: char) -> bool {
    ('A' as u32 <= c as u32 && c as u32 <= 'Z' as u32) || ('a' as u32 <= c as u32 && c as u32
        <= 'z' as u32)
}

/// The characters a word (identifier or keyword) is made of.
pub open spec fn is_word_char(c: char) -> bool {
    is_letter(c) || is_digit(c) || c == '_'
}

/// The characters a numeric run is made of.
pub open spec fn is_number_char(c: char) -> bool {
    is_digit(c) || c == '.'
}

fn is_letter_char(c: char) -> (r: bool)
    ensures
        r == is_letter(c),
{
    let u = c as u32;
    (65 <= u && u <= 90) || (97 <= u && u <= 122)
}

fn is_word_char_exec(c: char) -> (r: bool)
    ensures
        r == is_word_char(c),
{
    is_letter_char(c) || is_digit_char(c) || c == '_'
}

fn is_number_char_exec(c: char) -> (r: bool)
    ensures
        r == is_number_char(c),
{
    is_digit_char(c) || c == '.'
}

/// First position at or after `i` whose character fails `pred`.
pub open spec fn run_end(s: Seq<char>, i: int, pred: spec_fn(char) -> bool) -> int
    decreases s.len() - i,
{
    if 0 <= i < s.len() && pred(s[i]) {
        run_end(s, i + 1, pred)
    } else {
        i
    }
}

pub proof fn lemma_run_end_props(s: Seq<char>, lo: int, pred: spec_fn(char) -> bool)
    requires
        0 <= lo <= s.len(),
    ensures
        lo <= run_end(s, lo, pred) <= s.len(),
        run_end(s, lo, pred) == s.len() || !pred(s[run_end(s, lo, pred)]),
        forall|j: int| lo <= j < run_end(s, lo, pred) ==> pred(#[trigger] s[j]),
    decreases s.len() - lo,
{
    if lo < s.len() && pred(s[lo]) {
        lemma_run_end_props(s, lo + 1, pred);
    }
}

proof fn lemma_run_end_exact(s: Seq<char>, lo: int, k: int, pred: spec_fn(char) -> bool)
    requires
        0 <= lo <= k <= s.len(),
        forall|j: int| lo <= j < k ==> pred(#[trigger] s[j]),
        k == s.len() || !pred(s[k]),
    ensures
        run_end(s, lo, pred) == k,
    decreases k - lo,
{
    if lo < k {
        lemma_run_end_exact(s, lo + 1, k, pred);
    }
}

/// End of the word starting at `i`.
pub open spec fn word_end(s: Seq<char>, i: int) -> int {
    run_end(s, i, |c: char| is_word_char(c))
}

/// End of the numeric run starting at `i`.
pub open spec fn number_end(s: Seq<char>, i: int) -> int {
    run_end(s, i, |c: char| is_number_char(c))
}

/// The token sequence of the text from position `i` on, or the first lexing
/// failure. A successful sequence ends with exactly one `EOF`.
pub open spec fn spec_lex(s: Seq<char>, i: int) -> Result<Seq<TokenV>, LexErrorV>
    decreases s.len() - i,
    via spec_lex_decreases
{
    if i < 0 || i >= s.len() {
        Ok(seq![TokenV::EOF])
    } else {
        let c = s[i];
        if is_whitespace_char(c) {
            spec_lex(s, i + 1)
        } else if is_letter(c) {
            let e = word_end(s, i);
            let w = s.subrange(i, e);
            let t = match keyword_of(w) {
                Some(k) => TokenV::Keyword(k),
                None => TokenV::Identifier(w),
            };
            match spec_lex(s, e) {
                Ok(rest) => Ok(seq![t] + rest),
                Err(er) => Err(er),
            }
        } else if is_digit(c) {
            let e = number_end(s, i);
            let w = s.subrange(i, e);
            match canon_number(w) {
                Some(cn) => match spec_lex(s, e) {
                    Ok(rest) => Ok(seq![TokenV::NumberLiteral(cn)] + rest),
                    Err(er) => Err(er),
                },
                None => Err(LexErrorV::MalformedNumber(w)),
            }
        } else if c == '\'' || c == '"' {
            match find_sub(s, seq![c], i + 1) {
                Some(j) => {
                    let w = s.subrange(i + 1, j);
                    let t = if c == '"' {
                        TokenV::Identifier(w)
                    } else {
                        TokenV::StringLiteral(w)
                    };
                    match spec_lex(s, j + 1) {
                        Ok(rest) => Ok(seq![t] + rest),
                        Err(er) => Err(er),
                    }
                },
                None => Err(LexErrorV::UnterminatedQuote(c)),
            }
        } else if c == '*' || c == ':' || c == ';' || c == '.' || c == ',' || c == '=' || c == '('
            || c == ')' {
            let t = if c == '*' {
                TokenV::Asterisk('*')
            } else if c == ':' {
                TokenV::Colon
            } else if c == ';' {
                TokenV::Semicolon
            } else if c == '.' {
                TokenV::Dot
            } else if c == ',' {
                TokenV::Comma
            } else if c == '=' {
                TokenV::Equal
            } else if c == '(' {
                TokenV::LParen
            } else {
                TokenV::RParen
            };
            match spec_lex(s, i + 1) {
                Ok(rest) => Ok(seq![t] + rest),
                Err(er) => Err(er),
            }
        } else {
            Err(LexErrorV::UnexpectedChar(c))
        }
    }
}

#[via_fn]
proof fn spec_lex_decreases(s: Seq<char>, i: int) {
    if 0 <= i < s.len() {
        let c = s[i];
        if !is_whitespace_char(c) {
            if is_letter(c) {
                lemma_run_end_props(s, i, |ch: char| is_word_char(ch));
            } else if is_digit(c) {
                lemma_run_end_props(s, i, |ch: char| is_number_char(ch));
            } else if c == '\'' || c == '"' {
                lemma_find_sub_bounds(s, seq![c], i + 1);
            }
        }
    }
}

/// Scans the word whose first character the enclosing loop just consumed:
/// the maximal run of word characters, looked up in the keyword table.
fn tokenize_string(buff_iter: &mut StringBufIterator) -> (t: Token)
    requires
        1 <= old(buff_iter).pos <= old(buff_iter).text().len(),
    ensures
        final(buff_iter).string_buf == old(buff_iter).string_buf,
        final(buff_iter).pos == run_end(
            old(buff_iter).text(),
            old(buff_iter).pos - 1,
            |c: char| is_word_char(c),
        ),
        t@ == {
            let w = old(buff_iter).text().subrange(
                old(buff_iter).pos - 1,
                final(buff_iter).pos as int,
            );
            match keyword_of(w) {
                Some(k) => TokenV::Keyword(k),
                None => TokenV::Identifier(w),
            }
        },
{
    buff_iter.prev();
    let ghost start = buff_iter.pos as int;
    let pred = |c: char| -> (b: bool)
        ensures
            b == is_word_char(c),
        { is_word_char_exec(c) };
    let word = buff_iter.fetch_while(pred);
    proof {
        assert forall|j: int|
            start <= j < buff_iter.pos ==> is_word_char(
                #[trigger] old(buff_iter).text()[j],
            ) by {
            if start <= j < buff_iter.pos {
                assert(call_ensures(pred, (old(buff_iter).text()[j],), true));
            }
        }
        if buff_iter.pos < buff_iter.text().len() {
            assert(call_ensures(pred, (old(buff_iter).text()[buff_iter.pos as int],), false));
        }
        lemma_run_end_exact(
            old(buff_iter).text(),
            start,
            buff_iter.pos as int,
            |c: char| is_word_char(c),
        );
        // word characters hold no white space, so the lookup's trimming
        // leaves the word as it stands
        assert forall|j: int| 0 <= j < word@.len() implies !is_ascii_space(
            #[trigger] word@[j],
        ) by {
            assert(is_word_char(old(buff_iter).text()[start + j]));
        }
        lemma_trimmed_identity(word@);
    }
    match Keyword::from_str(word) {
        Ok(keyword) => Token::Keyword(keyword),
        Err(_) => Token::Identifier(word.to_owned()),
    }
}

/// Scans the numeric run whose first digit the enclosing loop just consumed
/// and stores its canonical text.
fn tokenize_number(buff_iter: &mut StringBufIterator) -> (r: Result<Token, LexError>)
    requires
        1 <= old(buff_iter).pos <= old(buff_iter).text().len(),
    ensures
        final(buff_iter).string_buf == old(buff_iter).string_buf,
        final(buff_iter).pos == run_end(
            old(buff_iter).text(),
            old(buff_iter).pos - 1,
            |c: char| is_number_char(c),
        ),
        ({
            let w = old(buff_iter).text().subrange(
                old(buff_iter).pos - 1,
                final(buff_iter).pos as int,
            );
            match canon_number(w) {
                Some(cn) => r matches Ok(t) && t@ == TokenV::NumberLiteral(cn),
                None => r matches Err(e) && e@ == LexErrorV::MalformedNumber(w),
            }
        }),
{
    buff_iter.prev();
    let ghost start = buff_iter.pos as int;
    let pred = |c: char| -> (b: bool)
        ensures
            b == is_number_char(c),
        { is_number_char_exec(c) };
    let word = buff_iter.fetch_while(pred);
    proof {
        assert forall|j: int|
            start <= j < buff_iter.pos ==> is_number_char(
                #[trigger] old(buff_iter).text()[j],
            ) by {
            if start <= j < buff_iter.pos {
                assert(call_ensures(pred, (old(buff_iter).text()[j],), true));
            }
        }
        if buff_iter.pos < buff_iter.text().len() {
            assert(call_ensures(pred, (old(buff_iter).text()[buff_iter.pos as int],), false));
        }
        lemma_run_end_exact(
            old(buff_iter).text(),
            start,
            buff_iter.pos as int,
            |c: char| is_number_char(c),
        );
    }
    match canonicalize_number(word) {
        Some(text) => Ok(Token::NumberLiteral(text)),
        None => Err(LexError::MalformedNumber(word.to_owned())),
    }
}

/// Scans a quoted run whose opening quote the enclosing loop just consumed:
/// up to the next quote of the same kind. Double quotes enclose an
/// identifier, single quotes a string literal; a missing closing quote is a
/// lexing failure.
fn tokenize_quoted_literal(buff_iter: &mut StringBufIterator) -> (r: Result<Token, LexError>)
    requires
        1 <= old(buff_iter).pos <= old(buff_iter).text().len(),
        old(buff_iter).text()[old(buff_iter).pos - 1] == '\'' || old(buff_iter).text()[old(
            buff_iter,
        ).pos - 1] == '"',
    ensures
        final(buff_iter).string_buf == old(buff_iter).string_buf,
        ({
            let q = old(buff_iter).text()[old(buff_iter).pos - 1];
            match find_sub(old(buff_iter).text(), seq![q], old(buff_iter).pos as int) {
                Some(j) => {
                    let w = old(buff_iter).text().subrange(old(buff_iter).pos as int, j);
                    &&& r matches Ok(t) && t@ == (if q == '"' {
                        TokenV::Identifier(w)
                    } else {
                        TokenV::StringLiteral(w)
                    })
                    &&& final(buff_iter).pos == j + 1
                },
                None => r matches Err(e) && e@ == LexErrorV::UnterminatedQuote(q),
            }
        }),
{
    let quote = match buff_iter.prev() {
        Some(q) => q,
        None => unreached(),
    };
    buff_iter.next();
    let delim = if quote == '"' {
        "\""
    } else {
        "'"
    };
    proof {
        reveal_strlit("\"");
        reveal_strlit("'");
        assert(delim@ =~= seq![quote]);
    }
    match buff_iter.fetch_to_delim(delim) {
        Some(word) => {
            if quote == '"' {
                Ok(Token::Identifier(word.to_owned()))
            } else {
                Ok(Token::StringLiteral(word.to_owned()))
            }
        },
        None => Err(LexError::UnterminatedQuote(quote)),
    }
}

/// Turns the whole text into tokens, ending with exactly one `EOF`; aborts on
/// the first lexing failure, returning no tokens.
pub fn tokenize(query: &str) -> (r: Result<Vec<Token>, LexError>)
    ensures
        match spec_lex(query@, 0) {
            Ok(ts) => r matches Ok(v) && toks_view(v@) == ts,
            Err(e) => r matches Err(le) && le@ == e,
        },
{
    let mut tokens: Vec<Token> = Vec::new();
    let buff = StringBuf::new(query);
    let mut buff_iter = buff.iter();
    loop
        invariant
            buff_iter.text() == query@,
            buff_iter.pos <= query@.len(),
            match spec_lex(query@, buff_iter.pos as int) {
                Ok(rest) => spec_lex(query@, 0) == Ok::<Seq<TokenV>, LexErrorV>(
                    toks_view(tokens@) + rest,
                ),
                Err(e) => spec_lex(query@, 0) == Err::<Seq<TokenV>, LexErrorV>(e),
            },
        ensures
            buff_iter.pos == query@.len(),
            spec_lex(query@, 0) == Ok::<Seq<TokenV>, LexErrorV>(
                toks_view(tokens@) + seq![TokenV::EOF],
            ),
        decreases query@.len() - buff_iter.pos,
    {
        let ghost head = buff_iter.pos as int;
        let ghost toks_before = tokens@;
        let ch = match buff_iter.next() {
            Some(c) => c,
            None => { break },
        };
        if char_is_whitespace(ch) {
            continue ;
        }
        let token: Token = if is_letter_char(ch) {
            let t = tokenize_string(&mut buff_iter);
            proof {
                lemma_run_end_props(query@, head, |c: char| is_word_char(c));
            }
            t
        } else if is_digit_char(ch) {
            let out = tokenize_number(&mut buff_iter);
            proof {
                lemma_run_end_props(query@, head, |c: char| is_number_char(c));
            }
            match out {
                Ok(t) => t,
                Err(e) => {
                    return Err(e);
                },
            }
        } else if ch == '"' || ch == '\'' {
            let out = tokenize_quoted_literal(&mut buff_iter);
            proof {
                lemma_find_sub_bounds(query@, seq![ch], head + 1);
            }
            match out {
                Ok(t) => t,
                Err(e) => {
                    return Err(e);
                },
            }
        } else if ch == '*' {
            Token::Asterisk('*')
        } else if ch == ':' {
            Token::Colon
        } else if ch == ';' {
            Token::Semicolon
        } else if ch == '.' {
            Token::Dot
        } else if ch == ',' {
            Token::Comma
        } else if ch == '=' {
            Token::Equal
        } else if ch == '(' {
            Token::LParen
        } else if ch == ')' {
            Token::RParen
        } else {
            return Err(LexError::UnexpectedChar(ch));
        };
        tokens.push(token);
        proof {
            assert(toks_view(tokens@) =~= toks_view(toks_before).push(tokens@.last()@));
            if let Ok(rest) = spec_lex(query@, buff_iter.pos as int) {
                assert(spec_lex(query@, head) == Ok::<Seq<TokenV>, LexErrorV>(
                    seq![tokens@.last()@] + rest,
                ));
                assert(toks_view(tokens@) + rest =~= toks_view(toks_before) + (seq![
                    tokens@.last()@,
                ] + rest));
            }
        }
    }
    tokens.push(Token::EOF);
    proof {
        assert(toks_view(tokens@) =~= toks_view(tokens@.drop_last()).push(TokenV::EOF));
        assert(toks_view(tokens@) =~= toks_view(tokens@.drop_last()) + seq![TokenV::EOF]);
    }
    Ok(tokens)
}

} // verus!
