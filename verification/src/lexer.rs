//! The source cursor the template parser reads with, and the position model.
use vstd::prelude::*;

use crate::error::{ParseError, ParseErrorKind, SpecParseError, SpecParseErrorKind};
use crate::expr::{lemma_skip_ws_bounds, skip_ws};
use crate::span::{SourcePos, SourceSpan, SpecPos, SpecSpan};
use crate::text::{char_width, chars_of, lemma_utf8_len_mono, lemma_utf8_len_step, space, utf8_len, width};

verus! {

/// The position of character `i` of `s`: lines and columns count characters
/// from 1 (a `\n` starts a new line), and the byte offset counts UTF-8 bytes.
pub open spec fn pos_of(s: Seq<char>, i: int) -> SpecPos
    decreases i,
{
    if i <= 0 || i > s.len() {
        SpecPos { line: 1, column: 1, byte: 0 }
    } else {
        let p = pos_of(s, i - 1);
        if s[i - 1] == '\n' {
            SpecPos { line: p.line + 1, column: 1, byte: p.byte + char_width(s[i - 1]) }
        } else {
            SpecPos { line: p.line, column: p.column + 1, byte: p.byte + char_width(s[i - 1]) }
        }
    }
}

/// The span from character `i` to character `j`.
pub open spec fn span_of(s: Seq<char>, i: int, j: int) -> SpecSpan {
    SpecSpan { start: pos_of(s, i), end: pos_of(s, j) }
}

/// A parse error of `kind` over characters `i..j`.
pub open spec fn error_at(s: Seq<char>, kind: SpecParseErrorKind, i: int, j: int) -> SpecParseError {
    SpecParseError { kind, span: span_of(s, i, j) }
}

/// `p` is written at position `i` of `s`.
pub open spec fn starts_at(s: Seq<char>, i: int, p: Seq<char>) -> bool {
    0 <= i && i + p.len() <= s.len() && s.subrange(i, i + p.len()) == p
}

/// The first position at or after `i` where `p` is written.
pub open spec fn find_from(s: Seq<char>, i: int, p: Seq<char>) -> Option<int>
    decreases s.len() - i,
{
    if !(0 <= i <= s.len()) {
        None
    } else if starts_at(s, i, p) {
        Some(i)
    } else if i == s.len() {
        None
    } else {
        find_from(s, i + 1, p)
    }
}

/// The end of `s[lo..hi]` once trailing white space is dropped.
pub open spec fn trim_end(s: Seq<char>, lo: int, hi: int) -> int
    decreases hi - lo,
{
    if lo < hi && 0 < hi <= s.len() && crate::text::is_space(s[hi - 1]) {
        trim_end(s, lo, hi - 1)
    } else {
        hi
    }
}

pub proof fn lemma_pos_of(s: Seq<char>, i: int)
    requires
        0 <= i <= s.len(),
    ensures
        pos_of(s, i).byte == utf8_len(s.take(i)),
        1 <= pos_of(s, i).line <= i + 1,
        1 <= pos_of(s, i).column <= i + 1,
    decreases i,
{
    if i == 0 {
        assert(s.take(0) =~= Seq::<char>::empty());
    } else {
        lemma_pos_of(s, i - 1);
        lemma_utf8_len_step(s, i - 1);
    }
}

pub proof fn lemma_find_from(s: Seq<char>, i: int, p: Seq<char>)
    requires
        0 <= i <= s.len(),
    ensures
        find_from(s, i, p) matches Some(k) ==> i <= k <= s.len() && starts_at(s, k, p),
        find_from(s, i, p) matches Some(k) ==> forall|m: int| i <= m < k ==> !starts_at(s, m, p),
        find_from(s, i, p) is None ==> forall|m: int| i <= m <= s.len() ==> !starts_at(s, m, p),
    decreases s.len() - i,
{
    if !starts_at(s, i, p) && i < s.len() {
        lemma_find_from(s, i + 1, p);
    }
}

pub proof fn lemma_trim_end(s: Seq<char>, lo: int, hi: int)
    requires
        0 <= lo <= hi <= s.len(),
    ensures
        lo <= trim_end(s, lo, hi) <= hi,
        trim_end(s, lo, hi) > lo ==> !crate::text::is_space(s[trim_end(s, lo, hi) - 1]),
    decreases hi - lo,
{
    if lo < hi && crate::text::is_space(s[hi - 1]) {
        lemma_trim_end(s, lo, hi - 1);
    }
}

/// A reading position in template source, with its line, column and byte.
#[derive(Clone, Copy)]
pub struct SourceCursor {
    index: usize,
    line: usize,
    column: usize,
    byte: usize,
}

impl SourceCursor {
    /// The character index the cursor is at.
    pub closed spec fn at(self) -> int {
        self.index as int
    }

    /// The cursor is at a position of `s` and its line, column and byte are
    /// those of that position.
    pub closed spec fn wf(self, s: Seq<char>) -> bool {
        &&& self.index <= s.len()
        &&& s.len() < usize::MAX
        &&& utf8_len(s) <= usize::MAX
        &&& pos_of(s, self.index as int) == (SpecPos {
            line: self.line as int,
            column: self.column as int,
            byte: self.byte as int,
        })
    }

    pub closed spec fn spec_pos(self) -> SpecPos {
        SpecPos { line: self.line as int, column: self.column as int, byte: self.byte as int }
    }

    pub proof fn lemma_wf(self, s: Seq<char>)
        requires
            self.wf(s),
        ensures
            0 <= self.at() <= s.len(),
            self.spec_pos() == pos_of(s, self.at()),
            s.len() < usize::MAX,
            utf8_len(s) <= usize::MAX,
    {
    }

    pub fn new(source: &Vec<char>) -> (r: Self)
        requires
            source@.len() < usize::MAX,
            utf8_len(source@) <= usize::MAX,
        ensures
            r.wf(source@),
            r.at() == 0,
    {
        Self { index: 0, line: 1, column: 1, byte: 0 }
    }

    pub fn index(&self) -> (r: usize)
        ensures
            r == self.at(),
    {
        self.index
    }

    pub fn pos(&self) -> (r: SourcePos)
        ensures
            r@ == self.spec_pos(),
    {
        SourcePos::new_unchecked(self.line, self.column, self.byte)
    }

    pub fn is_eof(&self, source: &Vec<char>) -> (r: bool)
        requires
            self.wf(source@),
        ensures
            r == (self.at() == source@.len()),
    {
        self.index >= source.len()
    }

    pub fn peek(&self, source: &Vec<char>) -> (r: Option<char>)
        requires
            self.wf(source@),
        ensures
            self.at() < source@.len() ==> r == Some(source@[self.at()]),
            self.at() == source@.len() ==> r is None,
    {
        if self.index < source.len() {
            Some(source[self.index])
        } else {
            None
        }
    }

    pub fn starts_with(&self, source: &Vec<char>, expected: &str) -> (r: bool)
        requires
            self.wf(source@),
        ensures
            r == starts_at(source@, self.at(), expected@),
    {
        starts_with_at(source, self.index, expected)
    }

    /// Moves past one character, keeping line, column and byte in step.
    pub fn bump(&mut self, source: &Vec<char>) -> (r: Option<char>)
        requires
            old(self).wf(source@),
        ensures
            final(self).wf(source@),
            old(self).at() < source@.len() ==> r == Some(source@[old(self).at()]),
            old(self).at() < source@.len() ==> final(self).at() == old(self).at() + 1,
            old(self).at() == source@.len() ==> r is None,
            old(self).at() == source@.len() ==> final(self).at() == old(self).at(),
    {
        if self.index >= source.len() {
            return None;
        }
        let ch = source[self.index];
        proof {
            lemma_pos_of(source@, self.index as int);
            lemma_pos_of(source@, self.index + 1);
            lemma_utf8_len_mono(source@, self.index + 1, source@.len() as int);
            crate::text::lemma_utf8_len_full(source@);
        }
        let w = width(ch);
        if ch == '\n' {
            *self = Self {
                index: self.index + 1,
                line: self.line + 1,
                column: 1,
                byte: self.byte + w,
            };
        } else {
            *self = Self {
                index: self.index + 1,
                line: self.line,
                column: self.column + 1,
                byte: self.byte + w,
            };
        }
        Some(ch)
    }

    /// Moves forward to character `target`.
    pub fn advance_to(&mut self, source: &Vec<char>, target: usize)
        requires
            old(self).wf(source@),
            old(self).at() <= target <= source@.len(),
        ensures
            final(self).wf(source@),
            final(self).at() == target,
    {
        while self.index < target
            invariant
                self.wf(source@),
                self.at() <= target <= source@.len(),
            decreases target - self.index,
        {
            self.bump(source);
        }
    }

    /// Moves past white space.
    pub fn skip_ws(&mut self, source: &Vec<char>)
        requires
            old(self).wf(source@),
        ensures
            final(self).wf(source@),
            final(self).at() == skip_ws(source@, old(self).at()),
    {
        proof {
            lemma_skip_ws_bounds(source@, self.index as int);
        }
        let ghost start = self.at();
        while self.index < source.len() && space(source[self.index])
            invariant
                self.wf(source@),
                start <= self.at(),
                skip_ws(source@, start) == skip_ws(source@, self.at()),
            decreases source.len() - self.index,
        {
            self.bump(source);
        }
    }

    /// Moves past `expected`, or fails with an empty span where it is not written.
    pub fn expect(&mut self, source: &Vec<char>, expected: &'static str) -> (r: Result<
        SourceSpan,
        ParseError,
    >)
        requires
            old(self).wf(source@),
        ensures
            final(self).wf(source@),
            starts_at(source@, old(self).at(), expected@) ==> (r matches Ok(sp) && sp@ == span_of(
                source@,
                old(self).at(),
                old(self).at() + expected@.len(),
            )),
            starts_at(source@, old(self).at(), expected@) ==> final(self).at() == old(self).at()
                + expected@.len(),
            !starts_at(source@, old(self).at(), expected@) ==> (r matches Err(e) && e@ == error_at(
                source@,
                SpecParseErrorKind::UnexpectedToken { expected: expected@ },
                old(self).at(),
                old(self).at(),
            )),
            !starts_at(source@, old(self).at(), expected@) ==> final(self).at() == old(self).at(),
    {
        let start = self.pos();
        if !self.starts_with(source, expected) {
            return Err(
                ParseError::new(
                    ParseErrorKind::UnexpectedToken { expected },
                    SourceSpan::new_unchecked(start, self.pos()),
                ),
            );
        }
        let n = chars_of(expected).len();
        proof {
            lemma_pos_of(source@, self.index as int);
            lemma_pos_of(source@, self.index + n);
            lemma_utf8_len_mono(source@, self.index as int, self.index + n);
        }
        self.advance_to(source, self.index + n);
        Ok(SourceSpan::new_unchecked(start, self.pos()))
    }

    /// Moves to the next place where `pattern` is written and gives the
    /// index where reading started and the span read; stays put when
    /// `pattern` does not occur.
    pub fn take_until(&mut self, source: &Vec<char>, pattern: &str) -> (r: Option<(usize, SourceSpan)>)
        requires
            old(self).wf(source@),
        ensures
            final(self).wf(source@),
            match find_from(source@, old(self).at(), pattern@) {
                Some(k) => r matches Some((lo, sp)) && lo == old(self).at() && final(self).at() == k
                    && sp@ == span_of(source@, old(self).at(), k),
                None => r is None && final(self).at() == old(self).at(),
            },
    {
        proof {
            lemma_find_from(source@, self.index as int, pattern@);
        }
        let start = self.pos();
        let start_index = self.index;
        match find_at(source, self.index, pattern) {
            None => None,
            Some(k) => {
                proof {
                    lemma_pos_of(source@, self.index as int);
                    lemma_pos_of(source@, k as int);
                    lemma_utf8_len_mono(source@, self.index as int, k as int);
                }
                self.advance_to(source, k);
                Some((start_index, SourceSpan::new_unchecked(start, self.pos())))
            },
        }
    }

    pub fn error(&self, kind: ParseErrorKind, span: SourceSpan) -> (r: ParseError)
        ensures
            r@ == (SpecParseError { kind: kind@, span: span@ }),
    {
        ParseError::new(kind, span)
    }
}

/// Whether `expected` is written at position `i` of `source`.
pub fn starts_with_at(source: &Vec<char>, i: usize, expected: &str) -> (r: bool)
    requires
        i <= source@.len(),
    ensures
        r == starts_at(source@, i as int, expected@),
{
    let p = chars_of(expected);
    if p.len() > source.len() - i {
        return false;
    }
    let mut k: usize = 0;
    while k < p.len()
        invariant
            k <= p@.len(),
            p@ == expected@,
            i + p@.len() <= source@.len() <= usize::MAX,
            forall|m: int| 0 <= m < k ==> source@[i + m] == p@[m],
        decreases p.len() - k,
    {
        if source[i + k] != p[k] {
            assert(source@.subrange(i as int, i + p@.len())[k as int] != p@[k as int]);
            return false;
        }
        k = k + 1;
    }
    assert(source@.subrange(i as int, i + p@.len()) =~= p@);
    true
}

/// The first position at or after `i` where `pattern` is written.
pub fn find_at(source: &Vec<char>, i: usize, pattern: &str) -> (r: Option<usize>)
    requires
        i <= source@.len(),
    ensures
        match find_from(source@, i as int, pattern@) {
            Some(k) => r == Some(k as usize),
            None => r is None,
        },
{
    let mut k = i;
    loop
        invariant
            i <= k <= source@.len(),
            find_from(source@, i as int, pattern@) == find_from(source@, k as int, pattern@),
        decreases source@.len() - k,
    {
        if starts_with_at(source, k, pattern) {
            return Some(k);
        }
        if k == source.len() {
            return None;
        }
        k = k + 1;
    }
}

/// The end of `source[lo..hi]` once trailing white space is dropped.
pub fn trim_end_at(source: &Vec<char>, lo: usize, hi: usize) -> (r: usize)
    requires
        lo <= hi <= source@.len(),
    ensures
        r == trim_end(source@, lo as int, hi as int),
        lo <= r <= hi,
{
    proof {
        lemma_trim_end(source@, lo as int, hi as int);
    }
    let mut j = hi;
    while lo < j && space(source[j - 1])
        invariant
            lo <= j <= hi <= source@.len(),
            trim_end(source@, lo as int, hi as int) == trim_end(source@, lo as int, j as int),
        decreases j,
    {
        j = j - 1;
    }
    j
}

} // verus!
