//! Character-level source scanner: a cursor over a piece of text exposing
//! single-character peek/advance/rewind and predicate-driven slicing.
//!
//! Positions count characters of the text, so stepping is uniform even when
//! the text holds multi-byte characters.

use vstd::prelude::*;

verus! {

/// First position at or after `from` where the text `s` holds `d` as a
/// contiguous run, or `None` when no such position exists.
pub open spec fn find_sub(s: Seq<char>, d: Seq<char>, from: int) -> Option<int>
    decreases s.len() - from,
    via find_sub_decreases
{
    if from + d.len() > s.len() {
        None
    } else if s.subrange(from, from + d.len() as int) == d {
        Some(from)
    } else {
        find_sub(s, d, from + 1)
    }
}

#[via_fn]
proof fn find_sub_decreases(s: Seq<char>, d: Seq<char>, from: int) {
    if 0 <= from && from + d.len() <= s.len() && d.len() == 0 {
        assert(s.subrange(from, from + d.len() as int) =~= d);
    }
}

/// A successful search result lies between `from` and the end of the text.
pub proof fn lemma_find_sub_bounds(s: Seq<char>, d: Seq<char>, from: int)
    ensures
        match find_sub(s, d, from) {
            Some(j) => from <= j && j + d.len() <= s.len(),
            None => true,
        },
    decreases s.len() - from,
{
    if from + d.len() <= s.len() && s.subrange(from, from + d.len() as int) != d {
        if d.len() == 0 && 0 <= from {
            assert(s.subrange(from, from + d.len() as int) =~= d);
        }
        lemma_find_sub_bounds(s, d, from + 1);
    }
}

/// An immutable text buffer from which iterators are handed out.
pub struct StringBuf<'a> {
    pub buf: &'a str,
}

impl<'a> StringBuf<'a> {
    pub fn new(buf: &str) -> (r: StringBuf)
        ensures
            r.buf@ == buf@,
    {
        StringBuf { buf }
    }

    pub fn buf(&self) -> (r: &'a str)
        ensures
            r@ == self.buf@,
    {
        self.buf
    }

    pub fn iter(&self) -> (r: StringBufIterator)
        ensures
            r.text() == self.buf@,
            r.pos == 0,
    {
        StringBufIterator { string_buf: self, pos: 0 }
    }

    /// Positions past the end of the buffer are a caller error: every reader
    /// assumes a valid starting offset, so such a position is rejected here
    /// rather than silently clamped.
    pub fn iter_from(&'a self, pos: usize) -> (r: StringBufIterator)
        requires
            pos <= self.buf@.len(),
        ensures
            r.text() == self.buf@,
            r.pos == pos,
    {
        StringBufIterator { string_buf: self, pos }
    }
}

/// A character cursor over a `StringBuf`.
pub struct StringBufIterator<'a> {
    pub string_buf: &'a StringBuf<'a>,
    pub pos: usize,
}

impl<'a> StringBufIterator<'a> {
    /// The text this cursor walks over.
    pub open spec fn text(&self) -> Seq<char> {
        self.string_buf.buf@
    }

    /// Steps back to the start of the previous character and returns it.
    pub fn prev(&mut self) -> (r: Option<char>)
        requires
            1 <= old(self).pos <= old(self).text().len(),
        ensures
            final(self).string_buf == old(self).string_buf,
            final(self).pos == old(self).pos - 1,
            r == Some(old(self).text()[old(self).pos - 1]),
    {
        let ch = self.string_buf.buf.get_char(self.pos - 1);
        self.pos = self.pos - 1;
        Some(ch)
    }

    /// The character at the cursor, or `None` at the end of the buffer;
    /// the position does not move.
    pub fn curr(&self) -> (r: Option<char>)
        ensures
            r == if self.pos < self.text().len() {
                Some(self.text()[self.pos as int])
            } else {
                None::<char>
            },
    {
        let n = self.string_buf.buf.unicode_len();
        if self.pos < n {
            Some(self.string_buf.buf.get_char(self.pos))
        } else {
            None
        }
    }

    /// Returns the character at the cursor and moves past it, or returns
    /// `None` and stays put at the end of the buffer.
    pub fn next(&mut self) -> (r: Option<char>)
        ensures
            final(self).string_buf == old(self).string_buf,
            old(self).pos < old(self).text().len() ==> {
                &&& r == Some(old(self).text()[old(self).pos as int])
                &&& final(self).pos == old(self).pos + 1
            },
            old(self).pos >= old(self).text().len() ==> {
                &&& r == None::<char>
                &&& final(self).pos == old(self).pos
            },
    {
        let n = self.string_buf.buf.unicode_len();
        if self.pos < n {
            let ch = self.string_buf.buf.get_char(self.pos);
            self.pos = self.pos + 1;
            Some(ch)
        } else {
            None
        }
    }

    /// The slice up to the first occurrence of `delimiter`, with the cursor
    /// moved past the delimiter; when the delimiter is absent, the cursor
    /// moves to the end of the buffer and `None` is returned.
    pub fn fetch_to_delim(&mut self, delimiter: &str) -> (r: Option<&'a str>)
        requires
            old(self).pos <= old(self).text().len(),
        ensures
            final(self).string_buf == old(self).string_buf,
            match find_sub(old(self).text(), delimiter@, old(self).pos as int) {
                Some(i) => {
                    &&& r matches Some(s) && s@ == old(self).text().subrange(
                        old(self).pos as int,
                        i,
                    )
                    &&& final(self).pos == i + delimiter@.len()
                },
                None => {
                    &&& r is None
                    &&& final(self).pos == old(self).text().len()
                },
            },
    {
        let text_len = self.string_buf.buf.unicode_len();
        let dlen = delimiter.unicode_len();
        let start = self.pos;
        if dlen > text_len {
            self.pos = text_len;
            proof {
                lemma_find_sub_none(self.text(), delimiter@, start as int, start as int);
            }
            return None;
        }
        if dlen == 0 {
            let s = self.string_buf.buf.substring_char(start, start);
            proof {
                assert(self.text().subrange(start as int, start as int) =~= delimiter@);
                lemma_find_sub_found(self.text(), delimiter@, start as int, start as int);
            }
            return Some(s);
        }
        let mut i = start;
        while i <= text_len - dlen
            invariant
                start <= i,
                i <= text_len + 1,
                1 <= dlen <= text_len,
                dlen == delimiter@.len(),
                text_len == self.text().len(),
                self.string_buf == old(self).string_buf,
                self.pos == start,
                start == old(self).pos,
                forall|j: int|
                    start <= j < i ==> #[trigger] self.text().subrange(
                        j,
                        j + delimiter@.len() as int,
                    ) != delimiter@,
            decreases text_len - i,
        {
            if matches_at(self.string_buf.buf, delimiter, i) {
                let s = self.string_buf.buf.substring_char(start, i);
                self.pos = i + dlen;
                proof {
                    lemma_find_sub_found(old(self).text(), delimiter@, start as int, i as int);
                }
                return Some(s);
            }
            i = i + 1;
        }
        self.pos = text_len;
        proof {
            lemma_find_sub_none(self.text(), delimiter@, start as int, start as int);
        }
        None
    }

    /// The maximal run of characters from the cursor on which `check_func`
    /// holds; the cursor is left on the first character that fails it (or at
    /// the end of the buffer).
    pub fn fetch_while<F: Fn(char) -> bool>(&mut self, check_func: F) -> (r: &'a str)
        requires
            old(self).pos <= old(self).text().len(),
            forall|c: char| check_func.requires((c,)),
        ensures
            final(self).string_buf == old(self).string_buf,
            old(self).pos <= final(self).pos <= old(self).text().len(),
            forall|j: int|
                old(self).pos <= j < final(self).pos ==> call_ensures(
                    check_func,
                    (old(self).text()[j],),
                    true,
                ),
            final(self).pos < old(self).text().len() ==> call_ensures(
                check_func,
                (old(self).text()[final(self).pos as int],),
                false,
            ),
            r@ == old(self).text().subrange(old(self).pos as int, final(self).pos as int),
    {
        let text_len = self.string_buf.buf.unicode_len();
        let start = self.pos;
        while self.pos < text_len
            invariant
                start <= self.pos <= text_len,
                text_len == self.text().len(),
                self.string_buf == old(self).string_buf,
                forall|c: char| check_func.requires((c,)),
                forall|j: int|
                    start <= j < self.pos ==> call_ensures(check_func, (self.text()[j],), true),
            ensures
                start <= self.pos <= text_len,
                self.string_buf == old(self).string_buf,
                forall|j: int|
                    start <= j < self.pos ==> call_ensures(check_func, (self.text()[j],), true),
                self.pos < text_len ==> call_ensures(
                    check_func,
                    (self.text()[self.pos as int],),
                    false,
                ),
            decreases text_len - self.pos,
        {
            let ch = self.string_buf.buf.get_char(self.pos);
            if check_func(ch) {
                self.pos = self.pos + 1;
            } else {
                break ;
            }
        }
        self.string_buf.buf.substring_char(start, self.pos)
    }
}

fn matches_at(hay: &str, needle: &str, at: usize) -> (r: bool)
    requires
        at + needle@.len() <= hay@.len(),
        hay@.len() <= usize::MAX,
    ensures
        r == (hay@.subrange(at as int, at + needle@.len() as int) == needle@),
{
    let nlen = needle.unicode_len();
    let mut k: usize = 0;
    while k < nlen
        invariant
            k <= nlen,
            nlen == needle@.len(),
            at + nlen <= hay@.len(),
            hay@.len() <= usize::MAX,
            forall|j: int| 0 <= j < k ==> hay@[at + j] == needle@[j],
        decreases nlen - k,
    {
        if hay.get_char(at + k) != needle.get_char(k) {
            assert(hay@.subrange(at as int, at + needle@.len() as int)[k as int]
                != needle@[k as int]);
            return false;
        }
        k = k + 1;
    }
    assert(hay@.subrange(at as int, at + needle@.len() as int) =~= needle@);
    true
}

proof fn lemma_find_sub_found(s: Seq<char>, d: Seq<char>, from: int, i: int)
    requires
        0 <= from <= i,
        i + d.len() <= s.len(),
        s.subrange(i, i + d.len() as int) == d,
        forall|j: int| from <= j < i ==> #[trigger] s.subrange(j, j + d.len() as int) != d,
    ensures
        find_sub(s, d, from) == Some(i),
    decreases i - from,
{
    if from < i {
        lemma_find_sub_found(s, d, from + 1, i);
    }
}

proof fn lemma_find_sub_none(s: Seq<char>, d: Seq<char>, from: int, lo: int)
    requires
        0 <= lo <= from,
        forall|j: int|
            lo <= j && j + d.len() <= s.len() ==> #[trigger] s.subrange(j, j + d.len() as int)
                != d,
    ensures
        find_sub(s, d, from) is None,
    decreases s.len() - from,
{
    if from + d.len() <= s.len() {
        if d.len() == 0 {
            assert(s.subrange(from, from + d.len() as int) =~= d);
        }
        lemma_find_sub_none(s, d, from + 1, lo);
    }
}

} // verus!
