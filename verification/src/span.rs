//! Positions and spans of tokens within a source file.
use vstd::prelude::*;

use crate::line_col::LineColumnChar;

verus! {

/// The number of bytes that `c` takes in UTF-8.
pub open spec fn utf8_width(c: char) -> nat {
    if (c as u32) < 0x80 {
        1
    } else if (c as u32) < 0x800 {
        2
    } else if (c as u32) < 0x10000 {
        3
    } else {
        4
    }
}

/// The byte offset of character `n` of `s`.
pub open spec fn byte_ofs_at(s: Seq<char>, n: int) -> nat
    decreases n,
{
    if n <= 0 {
        0
    } else {
        byte_ofs_at(s, n - 1) + utf8_width(s[n - 1])
    }
}

/// The line (from 1) of character `n` of `s`: one more than the number of `'\n'` before it.
pub open spec fn line_at(s: Seq<char>, n: int) -> nat
    decreases n,
{
    if n <= 0 {
        1
    } else if s[n - 1] == '\n' {
        line_at(s, n - 1) + 1
    } else {
        line_at(s, n - 1)
    }
}

/// The column (from 1) of character `n` of `s`: one more than the number of characters
/// between the last `'\n'` before it and it.
pub open spec fn column_at(s: Seq<char>, n: int) -> nat
    decreases n,
{
    if n <= 0 {
        1
    } else if s[n - 1] == '\n' {
        1
    } else {
        column_at(s, n - 1) + 1
    }
}

/// The positions in `s` stay small enough for `usize`.
///
/// That is, the UTF-8 length of `s`, with a little room to spare, fits in a `usize`; every string
/// a machine can hold meets it.
pub open spec fn positions_fit(s: Seq<char>) -> bool {
    byte_ofs_at(s, s.len() as int) + 4 <= usize::MAX
}

/// Byte offsets grow along `s`.
pub proof fn lemma_byte_ofs_mono(s: Seq<char>, m: int, n: int)
    requires
        0 <= m <= n <= s.len(),
    ensures
        byte_ofs_at(s, m) <= byte_ofs_at(s, n),
        byte_ofs_at(s, m) + (n - m) <= byte_ofs_at(s, n),
    decreases n - m,
{
    if m < n {
        lemma_byte_ofs_mono(s, m, n - 1);
    }
}

/// In a document whose positions fit, the byte offset, the character offset, the line and the column
/// of every character (and of the end) leave room to spare in a `usize`.
pub proof fn lemma_positions_fit(s: Seq<char>, n: int)
    requires
        positions_fit(s),
        0 <= n <= s.len(),
    ensures
        byte_ofs_at(s, n) + 4 <= usize::MAX,
        n + 4 <= usize::MAX,
        line_at(s, n) + 3 <= usize::MAX,
        column_at(s, n) + 3 <= usize::MAX,
{
    lemma_position_bounds(s, n);
    lemma_byte_ofs_mono(s, n, s.len() as int);
}

/// Bounds on the position of character `n`.
pub proof fn lemma_position_bounds(s: Seq<char>, n: int)
    requires
        0 <= n <= s.len(),
    ensures
        byte_ofs_at(s, n) <= 4 * n,
        byte_ofs_at(s, n) >= n,
        1 <= line_at(s, n) <= n + 1,
        1 <= column_at(s, n) <= n + 1,
    decreases n,
{
    if n > 0 {
        lemma_position_bounds(s, n - 1);
    }
}

/// A position in a source file.
#[derive(Debug, Clone, Copy, PartialEq, Eq, Structural, Hash)]
pub struct ParsePosn {
    pub byte_ofs: usize,
    pub char_ofs: usize,
    pub line: usize,
    pub column: usize,
}

impl ParsePosn {
    /// `self` is the position of character `n` of `s`.
    pub open spec fn is_at(self, s: Seq<char>, n: int) -> bool {
        &&& self.char_ofs == n
        &&& self.byte_ofs == byte_ofs_at(s, n)
        &&& self.line == line_at(s, n)
        &&& self.column == column_at(s, n)
    }
}

/// A position while lexing: a byte offset and a [LineColumnChar].
#[derive(Debug, Clone, Copy, PartialEq, Eq, Structural)]
pub struct LexPosn {
    pub byte_ofs: usize,
    pub pos: LineColumnChar,
}

impl LexPosn {
    /// `self` is the position of character `n` of `s`.
    pub open spec fn is_at(self, s: Seq<char>, n: int) -> bool {
        &&& self.pos.char_ofs_spec() == n
        &&& self.byte_ofs == byte_ofs_at(s, n)
        &&& self.pos.line_spec() == line_at(s, n)
        &&& self.pos.column_spec() == column_at(s, n)
    }

    /// The start of a stream.
    pub fn start() -> (r: Self)
        ensures
            forall|s: Seq<char>| #[trigger] r.is_at(s, 0),
    {
        Self { byte_ofs: 0, pos: LineColumnChar::default() }
    }

    /// The position after the character `ch`, which stands at `self`.
    ///
    /// `'\n'` starts a new line; any other character moves one column on.
    pub fn consumed_char(self, ch: char) -> (r: Self)
        requires
            self.byte_ofs + 4 <= usize::MAX,
            self.pos.char_ofs_spec() + 1 <= usize::MAX,
            self.pos.line_spec() + 1 <= usize::MAX,
            self.pos.column_spec() + 1 <= usize::MAX,
        ensures
            ch == '\n' ==> r.pos.line_spec() == self.pos.line_spec() + 1 && r.pos.column_spec() == 1,
            ch != '\n' ==> r.pos.line_spec() == self.pos.line_spec() && r.pos.column_spec()
                == self.pos.column_spec() + 1,
            r.pos.char_ofs_spec() == self.pos.char_ofs_spec() + 1,
            r.byte_ofs == self.byte_ofs + utf8_width(ch),
    {
        if ch == '\n' {
            Self { byte_ofs: self.byte_ofs + 1, pos: self.pos.advance_line(1) }
        } else {
            let w = char_utf8_len(ch);
            Self { byte_ofs: self.byte_ofs + w, pos: self.pos.advance_cols(w, 1) }
        }
    }
}

/// The position after character `n` of `s`, from the position of character `n`.
pub fn advance_posn(s: &Vec<char>, n: usize, p: LexPosn) -> (r: LexPosn)
    requires
        n < s@.len(),
        positions_fit(s@),
        p.is_at(s@, n as int),
    ensures
        r.is_at(s@, n + 1),
{
    proof {
        lemma_positions_fit(s@, n as int);
        lemma_positions_fit(s@, n + 1);
    }
    p.consumed_char(s[n])
}

/// Whether the positions in `s` fit (see [positions_fit]): adds up the UTF-8 length of `s`.
pub fn check_positions_fit(s: &Vec<char>) -> (r: bool)
    ensures
        r == positions_fit(s@),
{
    let mut i: usize = 0;
    let mut total: usize = 0;
    while i < s.len()
        invariant
            0 <= i <= s@.len(),
            total == byte_ofs_at(s@, i as int),
            total + 4 <= usize::MAX,
        decreases s@.len() - i,
    {
        let w = char_utf8_len(s[i]);
        if total > usize::MAX - 4 - w {
            proof {
                lemma_byte_ofs_mono(s@, i + 1, s@.len() as int);
            }
            return false;
        }
        total = total + w;
        i = i + 1;
    }
    true
}

/// The number of bytes that `c` takes in UTF-8.
pub fn char_utf8_len(c: char) -> (r: usize)
    ensures
        r == utf8_width(c),
{
    let v = c as u32;
    if v < 0x80 {
        1
    } else if v < 0x800 {
        2
    } else if v < 0x10000 {
        3
    } else {
        4
    }
}

/// A span of a source file, from `start` (inclusive) to `end` (exclusive).
#[derive(Debug, Clone, Copy, PartialEq, Eq, Structural, Hash)]
pub struct ParseSpan {
    pub file_idx: usize,
    pub start: ParsePosn,
    pub end: ParsePosn,
}

impl ParseSpan {
    /// The span of file `file_idx` from `start` to `end`.
    pub fn new(file_idx: usize, start: ParsePosn, end: ParsePosn) -> (r: Self)
        ensures
            r == (ParseSpan { file_idx, start, end }),
    {
        Self { file_idx, start, end }
    }

    /// The span of file `file_idx` between two lexing positions.
    pub fn from_lex(file_idx: usize, start: LexPosn, end: LexPosn) -> (r: Self)
        ensures
            r.file_idx == file_idx,
            r.start.byte_ofs == start.byte_ofs,
            r.start.char_ofs == start.pos.char_ofs_spec(),
            r.start.line == start.pos.line_spec(),
            r.start.column == start.pos.column_spec(),
            r.end.byte_ofs == end.byte_ofs,
            r.end.char_ofs == end.pos.char_ofs_spec(),
            r.end.line == end.pos.line_spec(),
            r.end.column == end.pos.column_spec(),
    {
        Self {
            file_idx,
            start: ParsePosn {
                byte_ofs: start.byte_ofs,
                char_ofs: start.pos.char_ofs(),
                line: start.pos.line(),
                column: start.pos.column(),
            },
            end: ParsePosn {
                byte_ofs: end.byte_ofs,
                char_ofs: end.pos.char_ofs(),
                line: end.pos.line(),
                column: end.pos.column(),
            },
        }
    }

    /// The index of the file this span is in.
    pub fn file_idx(&self) -> (r: usize)
        ensures
            r == self.file_idx,
    {
        self.file_idx
    }

    /// Where the span starts.
    pub fn start(&self) -> (r: ParsePosn)
        ensures
            r == self.start,
    {
        self.start
    }

    /// Where the span ends (exclusive).
    pub fn end(&self) -> (r: ParsePosn)
        ensures
            r == self.end,
    {
        self.end
    }

    /// The bytes of the file that the span covers, as (start, end).
    pub fn byte_range(&self) -> (r: (usize, usize))
        ensures
            r == (self.start.byte_ofs, self.end.byte_ofs),
    {
        (self.start.byte_ofs, self.end.byte_ofs)
    }

    /// The characters of the file that the span covers, as (start, end).
    pub fn annotate_snippets_range(&self) -> (r: (usize, usize))
        ensures
            r == (self.start.char_ofs, self.end.char_ofs),
    {
        (self.start.char_ofs, self.end.char_ofs)
    }

    /// The span from the start of `self` to the end of `other`, in the file of `self`.
    pub fn combine(&self, other: &ParseSpan) -> (r: ParseSpan)
        ensures
            r == (ParseSpan { file_idx: self.file_idx, start: self.start, end: other.end }),
    {
        ParseSpan { file_idx: self.file_idx, start: self.start, end: other.end }
    }

    /// `self` covers characters `a` to `b` of `s`, in file `file_idx`.
    pub open spec fn covers(self, file_idx: usize, s: Seq<char>, a: int, b: int) -> bool {
        &&& self.file_idx == file_idx
        &&& self.start.is_at(s, a)
        &&& self.end.is_at(s, b)
    }
}

/// The first and last tokens of a construct that may be too long to show whole, such as a paragraph
/// or a scope.
#[derive(Debug, Clone, Copy, PartialEq, Eq, Structural)]
pub struct ParseContext {
    pub first_tok: ParseSpan,
    pub last_tok: ParseSpan,
}

impl ParseContext {
    /// The context from `first_tok` to `last_tok`.
    pub open spec fn new_spec(first_tok: ParseSpan, last_tok: ParseSpan) -> ParseContext {
        ParseContext { first_tok, last_tok }
    }

    /// The context with `span` as its last token, if `span` is in the file of the first token.
    pub open spec fn extended(self, span: ParseSpan) -> ParseContext {
        if span.file_idx == self.first_tok.file_idx {
            ParseContext { first_tok: self.first_tok, last_tok: span }
        } else {
            self
        }
    }

    /// The context extended to the last token of `other`, if `other` starts in the file of the first
    /// token.
    pub open spec fn combined(self, other: ParseContext) -> ParseContext {
        if other.first_tok.file_idx == self.first_tok.file_idx {
            ParseContext { first_tok: self.first_tok, last_tok: other.last_tok }
        } else {
            self
        }
    }

    /// The span from the start of the first token to the end of the last.
    pub open spec fn full_span_spec(self) -> ParseSpan {
        ParseSpan { file_idx: self.first_tok.file_idx, start: self.first_tok.start, end: self.last_tok.end }
    }

    /// The context from `first_tok` to `last_tok`.
    pub fn new(first_tok: ParseSpan, last_tok: ParseSpan) -> (r: Self)
        ensures
            r == (ParseContext { first_tok, last_tok }),
    {
        ParseContext { first_tok, last_tok }
    }

    /// The first token.
    pub fn first_tok(&self) -> (r: ParseSpan)
        ensures
            r == self.first_tok,
    {
        self.first_tok
    }

    /// The last token.
    pub fn last_tok(&self) -> (r: ParseSpan)
        ensures
            r == self.last_tok,
    {
        self.last_tok
    }

    /// The span from the start of the first token to the end of the last.
    pub fn full_span(&self) -> (r: ParseSpan)
        ensures
            r == self.full_span_spec(),
    {
        self.first_tok.combine(&self.last_tok)
    }

    /// Makes `span` the last token, if it is in the same file as the first; says whether it was.
    pub fn try_extend(&mut self, span: &ParseSpan) -> (r: bool)
        ensures
            r == (span.file_idx == old(self).first_tok.file_idx),
            *final(self) == old(self).extended(*span),
    {
        if span.file_idx == self.first_tok.file_idx {
            self.last_tok = *span;
            true
        } else {
            false
        }
    }

    /// Extends this context to the last token of `other`, if `other` starts in the same file; says
    /// whether it did.
    pub fn try_combine(&mut self, other: ParseContext) -> (r: bool)
        ensures
            r == (other.first_tok.file_idx == old(self).first_tok.file_idx),
            *final(self) == old(self).combined(other),
    {
        if other.first_tok.file_idx == self.first_tok.file_idx {
            self.last_tok = other.last_tok;
            true
        } else {
            false
        }
    }
}

} // verus!
