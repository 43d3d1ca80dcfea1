//! Canonical text of numeric literals.
//!
//! A numeric literal is scanned as a run of digits and dots. The run is valid
//! when it holds at least one digit and at most one dot; its canonical text
//! drops leading zeros of the integer part, trailing zeros of the fraction,
//! and a dot with nothing behind it, so `1.50`, `1.5` and `01.5` all store the
//! same literal text.

use vstd::prelude::*;

verus! {

pub open spec fn is_digit(c: char) -> bool {
    '0' as u32 <= c as u32 && c as u32 <= '9' as u32
}

/// A run of digits and dots denotes a number when it has at least one digit
/// and at most one dot.
pub open spec fn valid_number(s: Seq<char>) -> bool {
    &&& s.len() > 0
    &&& forall|i: int| 0 <= i < s.len() ==> is_digit(#[trigger] s[i]) || s[i] == '.'
    &&& exists|i: int| 0 <= i < s.len() && is_digit(#[trigger] s[i])
    &&& forall|i: int, j: int|
        0 <= i < j < s.len() ==> !(#[trigger] s[i] == '.' && #[trigger] s[j] == '.')
}

/// First position at or after `i` holding a dot, or the length when none does.
pub open spec fn dot_pos(s: Seq<char>, i: int) -> int
    decreases s.len() - i,
{
    if i < 0 || i >= s.len() {
        s.len() as int
    } else if s[i] == '.' {
        i
    } else {
        dot_pos(s, i + 1)
    }
}

/// First position in `[i, end]` whose character is not `'0'`.
pub open spec fn lead_zeros_end(s: Seq<char>, i: int, end: int) -> int
    decreases end - i,
{
    if i < end && 0 <= i < s.len() && s[i] == '0' {
        lead_zeros_end(s, i + 1, end)
    } else {
        i
    }
}

/// Last position in `[lo, hi]` such that everything from it up to `hi` is `'0'`.
pub open spec fn trail_zeros_start(s: Seq<char>, hi: int, lo: int) -> int
    decreases hi - lo,
{
    if hi > lo && 0 <= hi - 1 < s.len() && s[hi - 1] == '0' {
        trail_zeros_start(s, hi - 1, lo)
    } else {
        hi
    }
}

/// The canonical text of a valid run: integer part without leading zeros
/// (a lone zero when it had none), and the fraction without trailing zeros,
/// dropped entirely when nothing remains of it.
pub open spec fn canon_text(s: Seq<char>) -> Seq<char> {
    let d = dot_pos(s, 0);
    let k = lead_zeros_end(s, 0, d);
    let ipart = if k == d {
        seq!['0']
    } else {
        s.subrange(k, d)
    };
    if d == s.len() {
        ipart
    } else {
        let m = trail_zeros_start(s, s.len() as int, d + 1);
        if m == d + 1 {
            ipart
        } else {
            ipart + seq!['.'] + s.subrange(d + 1, m)
        }
    }
}

/// What the tokenizer stores for a scanned run: the canonical text when the
/// run denotes a number, nothing when it does not.
pub open spec fn canon_number(s: Seq<char>) -> Option<Seq<char>> {
    if valid_number(s) {
        Some(canon_text(s))
    } else {
        None
    }
}

pub(crate) fn is_digit_char(c: char) -> (r: bool)
    ensures
        r == is_digit(c),
{
    let u = c as u32;
    48 <= u && u <= 57
}

/// The canonical text of `word`, or `None` when `word` does not denote a
/// number.
pub fn canonicalize_number(word: &str) -> (r: Option<String>)
    ensures
        match canon_number(word@) {
            Some(c) => r matches Some(out) && out@ == c,
            None => r is None,
        },
{
    let n = word.unicode_len();
    if n == 0 {
        return None;
    }
    // One validation pass: every character a digit or a dot, at most one dot,
    // at least one digit.
    let mut dot: Option<usize> = None;
    let mut seen_digit = false;
    let mut i: usize = 0;
    while i < n
        invariant
            i <= n,
            n == word@.len(),
            forall|j: int| 0 <= j < i ==> is_digit(#[trigger] word@[j]) || word@[j] == '.',
            seen_digit == exists|j: int| 0 <= j < i && is_digit(#[trigger] word@[j]),
            match dot {
                Some(d) => d < i && word@[d as int] == '.' && forall|j: int|
                    0 <= j < i && j != d ==> #[trigger] word@[j] != '.',
                None => forall|j: int| 0 <= j < i ==> #[trigger] word@[j] != '.',
            },
        decreases n - i,
    {
        let c = word.get_char(i);
        if is_digit_char(c) {
            seen_digit = true;
        } else if c == '.' {
            if dot.is_some() {
                // a second dot: not a number
                return None;
            }
            dot = Some(i);
        } else {
            return None;
        }
        i = i + 1;
    }
    if !seen_digit {
        return None;
    }
    assert(valid_number(word@));

    let d: usize = match dot {
        Some(di) => di,
        None => n,
    };
    proof {
        if d < n {
            lemma_dot_pos_exact(word@, 0, d as int);
        } else {
            lemma_dot_pos_exact(word@, 0, word@.len() as int);
        }
    }

    let mut k: usize = 0;
    while k < d && word.get_char(k) == '0'
        invariant
            k <= d <= n,
            n == word@.len(),
            forall|j: int| 0 <= j < k ==> word@[j] == '0',
        decreases d - k,
    {
        k = k + 1;
    }
    proof {
        lemma_lead_zeros_exact(word@, 0, k as int, d as int);
    }
    let mut out: String = if k == d {
        let z = String::from_str("0");
        proof {
            reveal_strlit("0");
            assert(z@ =~= seq!['0']);
        }
        z
    } else {
        let ip = word.substring_char(k, d);
        ip.to_owned()
    };
    if d == n {
        assert(out@ == canon_text(word@));
        return Some(out);
    }
    let mut m: usize = n;
    while m > d + 1 && word.get_char(m - 1) == '0'
        invariant
            d + 1 <= m <= n,
            n == word@.len(),
            forall|j: int| m <= j < n ==> word@[j] == '0',
        decreases m,
    {
        m = m - 1;
    }
    proof {
        lemma_trail_zeros_exact(word@, word@.len() as int, m as int, d + 1);
    }
    if m == d + 1 {
        assert(out@ == canon_text(word@));
        return Some(out);
    }
    out.append(".");
    let fp = word.substring_char(d + 1, m);
    out.append(fp);
    proof {
        reveal_strlit(".");
        assert(out@ =~= canon_text(word@));
    }
    Some(out)
}

proof fn lemma_dot_pos_props(s: Seq<char>, lo: int)
    requires
        0 <= lo <= s.len(),
    ensures
        lo <= dot_pos(s, lo) <= s.len(),
        dot_pos(s, lo) == s.len() || s[dot_pos(s, lo)] == '.',
        forall|j: int| lo <= j < dot_pos(s, lo) ==> #[trigger] s[j] != '.',
    decreases s.len() - lo,
{
    if lo < s.len() && s[lo] != '.' {
        lemma_dot_pos_props(s, lo + 1);
    }
}

proof fn lemma_lead_zeros_props(s: Seq<char>, lo: int, end: int)
    requires
        0 <= lo <= end <= s.len(),
    ensures
        lo <= lead_zeros_end(s, lo, end) <= end,
        lead_zeros_end(s, lo, end) == end || s[lead_zeros_end(s, lo, end)] != '0',
        forall|j: int| lo <= j < lead_zeros_end(s, lo, end) ==> #[trigger] s[j] == '0',
    decreases end - lo,
{
    if lo < end && s[lo] == '0' {
        lemma_lead_zeros_props(s, lo + 1, end);
    }
}

proof fn lemma_trail_zeros_props(s: Seq<char>, hi: int, lo: int)
    requires
        0 <= lo <= hi <= s.len(),
    ensures
        lo <= trail_zeros_start(s, hi, lo) <= hi,
        trail_zeros_start(s, hi, lo) == lo || s[trail_zeros_start(s, hi, lo) - 1] != '0',
        forall|j: int| trail_zeros_start(s, hi, lo) <= j < hi ==> #[trigger] s[j] == '0',
    decreases hi - lo,
{
    if hi > lo && s[hi - 1] == '0' {
        lemma_trail_zeros_props(s, hi - 1, lo);
    }
}

/// Canonicalizing is stable: a stored literal text, scanned and
/// canonicalized again, comes out unchanged. Together with the tokenizer's
/// contract this says that re-reading the text a number token stores yields
/// exactly that text back.
pub proof fn lemma_canon_number_idempotent(s: Seq<char>, c: Seq<char>)
    requires
        canon_number(s) == Some(c),
    ensures
        canon_number(c) == Some(c),
{
    let d = dot_pos(s, 0);
    lemma_dot_pos_props(s, 0);
    let k = lead_zeros_end(s, 0, d);
    lemma_lead_zeros_props(s, 0, d);
    let ipart = if k == d {
        seq!['0']
    } else {
        s.subrange(k, d)
    };
    assert(forall|j: int| 0 <= j < ipart.len() ==> is_digit(#[trigger] ipart[j]));
    assert(is_digit(ipart[0]));
    let has_frac = d < s.len() && trail_zeros_start(s, s.len() as int, d + 1) > d + 1;
    if has_frac {
        let m = trail_zeros_start(s, s.len() as int, d + 1);
        lemma_trail_zeros_props(s, s.len() as int, d + 1);
        let fp = s.subrange(d + 1, m);
        assert(c =~= ipart + seq!['.'] + fp);
        assert(forall|j: int| 0 <= j < fp.len() ==> is_digit(#[trigger] fp[j]));
        assert(fp[fp.len() - 1] != '0');
        assert(!is_digit('.'));
        // c is itself a valid run: its only dot stands between the two parts.
        assert(forall|j: int|
            0 <= j < c.len() && j != ipart.len() ==> is_digit(#[trigger] c[j]));
        assert(c[0] == ipart[0]);
        assert(c[ipart.len() as int] == '.');
        assert(forall|i: int, j: int|
            0 <= i < j < c.len() ==> !(#[trigger] c[i] == '.' && #[trigger] c[j] == '.')) by {
            assert forall|i: int, j: int|
                0 <= i < j < c.len() && (c[i] == '.' && c[j] == '.') implies false by {
                assert(!is_digit(c[i]) && !is_digit(c[j]));
                assert(i == ipart.len() && j == ipart.len());
            }
        }
        assert(valid_number(c));
        // and it canonicalizes to itself
        lemma_dot_pos_exact(c, 0, ipart.len() as int);
        if k == d {
            lemma_lead_zeros_exact(c, 0, 1, ipart.len() as int);
        } else {
            lemma_lead_zeros_exact(c, 0, 0, ipart.len() as int);
        }
        lemma_trail_zeros_exact(c, c.len() as int, c.len() as int, ipart.len() as int + 1);
        assert(canon_text(c) =~= c);
    } else {
        if d < s.len() {
            lemma_trail_zeros_props(s, s.len() as int, d + 1);
        }
        assert(c == ipart);
        assert(valid_number(c));
        lemma_dot_pos_exact(c, 0, c.len() as int);
        if k == d {
            lemma_lead_zeros_exact(c, 0, 1, 1);
        } else {
            lemma_lead_zeros_exact(c, 0, 0, c.len() as int);
        }
        assert(canon_text(c) =~= c);
    }
}

proof fn lemma_dot_pos_exact(s: Seq<char>, lo: int, k: int)
    requires
        0 <= lo <= k <= s.len(),
        forall|j: int| lo <= j < k ==> #[trigger] s[j] != '.',
        k == s.len() || s[k] == '.',
    ensures
        dot_pos(s, lo) == k,
    decreases k - lo,
{
    if lo < k {
        lemma_dot_pos_exact(s, lo + 1, k);
    }
}

proof fn lemma_lead_zeros_exact(s: Seq<char>, lo: int, k: int, end: int)
    requires
        0 <= lo <= k <= end <= s.len(),
        forall|j: int| lo <= j < k ==> #[trigger] s[j] == '0',
        k == end || s[k] != '0',
    ensures
        lead_zeros_end(s, lo, end) == k,
    decreases k - lo,
{
    if lo < k {
        lemma_lead_zeros_exact(s, lo + 1, k, end);
    }
}

proof fn lemma_trail_zeros_exact(s: Seq<char>, hi: int, m: int, lo: int)
    requires
        0 <= lo <= m <= hi <= s.len(),
        forall|j: int| m <= j < hi ==> #[trigger] s[j] == '0',
        m == lo || s[m - 1] != '0',
    ensures
        trail_zeros_start(s, hi, lo) == m,
    decreases hi - m,
{
    if m < hi {
        lemma_trail_zeros_exact(s, hi - 1, m, lo);
    }
}

} // verus!
