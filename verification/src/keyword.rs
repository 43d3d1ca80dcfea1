//! The keyword table: a pure mapping from a trimmed, case-folded word to the
//! closed set of reserved words.

use vstd::prelude::*;

verus! {

/// The closed set of reserved words the tokenizer recognizes.
#[derive(Debug, PartialEq, Eq, Structural, Clone, Copy)]
pub enum Keyword {
    With,
    Select,
    From,
    As,
    Left,
    Right,
    Join,
    On,
    And,
    Or,
    Union,
    All,
    Distinct,
    Unique,
}

/// The word handed to `Keyword::from_str` is not a reserved word.
#[derive(Debug, PartialEq, Eq, Structural, Clone, Copy)]
pub struct ParseKeywordError;

/// ASCII case folding of one character. The word characters the tokenizer
/// admits are ASCII, so this folding agrees with full Unicode lower-casing on
/// every word that can reach the keyword table.
pub open spec fn lower_char(c: char) -> char {
    if c == 'A' {
        'a'
    } else if c == 'B' {
        'b'
    } else if c == 'C' {
        'c'
    } else if c == 'D' {
        'd'
    } else if c == 'E' {
        'e'
    } else if c == 'F' {
        'f'
    } else if c == 'G' {
        'g'
    } else if c == 'H' {
        'h'
    } else if c == 'I' {
        'i'
    } else if c == 'J' {
        'j'
    } else if c == 'K' {
        'k'
    } else if c == 'L' {
        'l'
    } else if c == 'M' {
        'm'
    } else if c == 'N' {
        'n'
    } else if c == 'O' {
        'o'
    } else if c == 'P' {
        'p'
    } else if c == 'Q' {
        'q'
    } else if c == 'R' {
        'r'
    } else if c == 'S' {
        's'
    } else if c == 'T' {
        't'
    } else if c == 'U' {
        'u'
    } else if c == 'V' {
        'v'
    } else if c == 'W' {
        'w'
    } else if c == 'X' {
        'x'
    } else if c == 'Y' {
        'y'
    } else if c == 'Z' {
        'z'
    } else {
        c
    }
}

/// ASCII case folding of a whole word.
pub open spec fn lower_seq(s: Seq<char>) -> Seq<char> {
    s.map_values(|c: char| lower_char(c))
}

/// The reserved word that `s` names once case-folded, if any.
pub open spec fn keyword_of(s: Seq<char>) -> Option<Keyword> {
    let w = lower_seq(s);
    if w == "with"@ {
        Some(Keyword::With)
    } else if w == "select"@ {
        Some(Keyword::Select)
    } else if w == "from"@ {
        Some(Keyword::From)
    } else if w == "as"@ {
        Some(Keyword::As)
    } else if w == "left"@ {
        Some(Keyword::Left)
    } else if w == "right"@ {
        Some(Keyword::Right)
    } else if w == "join"@ {
        Some(Keyword::Join)
    } else if w == "on"@ {
        Some(Keyword::On)
    } else if w == "and"@ {
        Some(Keyword::And)
    } else if w == "or"@ {
        Some(Keyword::Or)
    } else if w == "union"@ {
        Some(Keyword::Union)
    } else if w == "all"@ {
        Some(Keyword::All)
    } else if w == "distinct"@ {
        Some(Keyword::Distinct)
    } else if w == "unique"@ {
        Some(Keyword::Unique)
    } else {
        None
    }
}

/// The ASCII white-space characters: what `Keyword::from_str` strips from
/// either end of a word before the lookup.
pub open spec fn is_ascii_space(c: char) -> bool {
    c == ' ' || c == '\t' || c == '\n' || c == '\u{b}' || c == '\u{c}' || c == '\r'
}

/// First position at or after `i` whose character is not ASCII white space.
pub open spec fn trim_start_at(s: Seq<char>, i: int) -> int
    decreases s.len() - i,
{
    if 0 <= i < s.len() && is_ascii_space(s[i]) {
        trim_start_at(s, i + 1)
    } else {
        i
    }
}

/// Last position in `[lo, j]` such that everything from it up to `j` is
/// ASCII white space.
pub open spec fn trim_end_at(s: Seq<char>, j: int, lo: int) -> int
    decreases j - lo,
{
    if j > lo && 0 <= j - 1 < s.len() && is_ascii_space(s[j - 1]) {
        trim_end_at(s, j - 1, lo)
    } else {
        j
    }
}

/// The word with ASCII white space stripped from both ends.
pub open spec fn trimmed(s: Seq<char>) -> Seq<char> {
    let a = trim_start_at(s, 0);
    let b = trim_end_at(s, s.len() as int, a);
    s.subrange(a, b)
}

/// A word with no ASCII white space anywhere trims to itself.
pub proof fn lemma_trimmed_identity(s: Seq<char>)
    requires
        forall|j: int| 0 <= j < s.len() ==> !is_ascii_space(#[trigger] s[j]),
    ensures
        trimmed(s) == s,
{
    assert(trimmed(s) =~= s);
}

proof fn lemma_trim_start_exact(s: Seq<char>, lo: int, k: int)
    requires
        0 <= lo <= k <= s.len(),
        forall|j: int| lo <= j < k ==> is_ascii_space(#[trigger] s[j]),
        k == s.len() || !is_ascii_space(s[k]),
    ensures
        trim_start_at(s, lo) == k,
    decreases k - lo,
{
    if lo < k {
        lemma_trim_start_exact(s, lo + 1, k);
    }
}

proof fn lemma_trim_end_exact(s: Seq<char>, hi: int, m: int, lo: int)
    requires
        0 <= lo <= m <= hi <= s.len(),
        forall|j: int| m <= j < hi ==> is_ascii_space(#[trigger] s[j]),
        m == lo || !is_ascii_space(s[m - 1]),
    ensures
        trim_end_at(s, hi, lo) == m,
    decreases hi - m,
{
    if m < hi {
        lemma_trim_end_exact(s, hi - 1, m, lo);
    }
}

fn is_ascii_space_char(c: char) -> (r: bool)
    ensures
        r == is_ascii_space(c),
{
    c == ' ' || c == '\t' || c == '\n' || c == '\u{b}' || c == '\u{c}' || c == '\r'
}

fn to_lower_char(c: char) -> (r: char)
    ensures
        r == lower_char(c),
{
    if c == 'A' {
        'a'
    } else if c == 'B' {
        'b'
    } else if c == 'C' {
        'c'
    } else if c == 'D' {
        'd'
    } else if c == 'E' {
        'e'
    } else if c == 'F' {
        'f'
    } else if c == 'G' {
        'g'
    } else if c == 'H' {
        'h'
    } else if c == 'I' {
        'i'
    } else if c == 'J' {
        'j'
    } else if c == 'K' {
        'k'
    } else if c == 'L' {
        'l'
    } else if c == 'M' {
        'm'
    } else if c == 'N' {
        'n'
    } else if c == 'O' {
        'o'
    } else if c == 'P' {
        'p'
    } else if c == 'Q' {
        'q'
    } else if c == 'R' {
        'r'
    } else if c == 'S' {
        's'
    } else if c == 'T' {
        't'
    } else if c == 'U' {
        'u'
    } else if c == 'V' {
        'v'
    } else if c == 'W' {
        'w'
    } else if c == 'X' {
        'x'
    } else if c == 'Y' {
        'y'
    } else if c == 'Z' {
        'z'
    } else {
        c
    }
}

/// Whether `s`, case-folded, equals the (already lower-case) word `lit`.
fn eq_folded(s: &str, lit: &str) -> (r: bool)
    ensures
        r == (lower_seq(s@) == lit@),
{
    let n = s.unicode_len();
    if n != lit.unicode_len() {
        return false;
    }
    let mut i: usize = 0;
    while i < n
        invariant
            i <= n,
            n == s@.len(),
            n == lit@.len(),
            forall|j: int| 0 <= j < i ==> lower_seq(s@)[j] == lit@[j],
        decreases n - i,
    {
        if to_lower_char(s.get_char(i)) != lit.get_char(i) {
            assert(lower_seq(s@)[i as int] != lit@[i as int]);
            return false;
        }
        i = i + 1;
    }
    assert(lower_seq(s@) =~= lit@);
    true
}

impl Keyword {
    /// Looks a word up in the keyword table, stripping surrounding ASCII
    /// white space and folding case first.
    pub fn from_str(s: &str) -> (r: Result<Keyword, ParseKeywordError>)
        ensures
            match keyword_of(trimmed(s@)) {
                Some(k) => r == Ok::<Keyword, ParseKeywordError>(k),
                None => r == Err::<Keyword, ParseKeywordError>(ParseKeywordError),
            },
    {
        let n = s.unicode_len();
        let mut a: usize = 0;
        while a < n && is_ascii_space_char(s.get_char(a))
            invariant
                a <= n,
                n == s@.len(),
                forall|j: int| 0 <= j < a ==> is_ascii_space(#[trigger] s@[j]),
            decreases n - a,
        {
            a = a + 1;
        }
        let mut b: usize = n;
        while b > a && is_ascii_space_char(s.get_char(b - 1))
            invariant
                a <= b <= n,
                n == s@.len(),
                forall|j: int| b <= j < n ==> is_ascii_space(#[trigger] s@[j]),
            decreases b,
        {
            b = b - 1;
        }
        proof {
            lemma_trim_start_exact(s@, 0, a as int);
            lemma_trim_end_exact(s@, s@.len() as int, b as int, a as int);
        }
        let word = s.substring_char(a, b);
        if eq_folded(word, "with") {
            Ok(Keyword::With)
        } else if eq_folded(word, "select") {
            Ok(Keyword::Select)
        } else if eq_folded(word, "from") {
            Ok(Keyword::From)
        } else if eq_folded(word, "as") {
            Ok(Keyword::As)
        } else if eq_folded(word, "left") {
            Ok(Keyword::Left)
        } else if eq_folded(word, "right") {
            Ok(Keyword::Right)
        } else if eq_folded(word, "join") {
            Ok(Keyword::Join)
        } else if eq_folded(word, "on") {
            Ok(Keyword::On)
        } else if eq_folded(word, "and") {
            Ok(Keyword::And)
        } else if eq_folded(word, "or") {
            Ok(Keyword::Or)
        } else if eq_folded(word, "union") {
            Ok(Keyword::Union)
        } else if eq_folded(word, "all") {
            Ok(Keyword::All)
        } else if eq_folded(word, "distinct") {
            Ok(Keyword::Distinct)
        } else if eq_folded(word, "unique") {
            Ok(Keyword::Unique)
        } else {
            Err(ParseKeywordError)
        }
    }
}

} // verus!
