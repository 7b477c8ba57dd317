//! Splits a turnip-text document into [TTToken]s.
//!
//! Every character of the document belongs to exactly one token, and the token list
//! always ends with an [TTToken::EOF].
use vstd::prelude::*;

use crate::line_col::LineColumnChar;
use crate::span::{
    advance_posn, byte_ofs_at, char_utf8_len, column_at, lemma_byte_ofs_mono, lemma_positions_fit, line_at, positions_fit, LexPosn, ParsePosn, ParseSpan,
};
use crate::text::str_to_chars;

verus! {

/// Whether `c` has the Unicode `White_Space` property, as `char::is_whitespace` reports it.
pub uninterp spec fn unicode_whitespace(c: char) -> bool;

/// Calls `char::is_whitespace`. Its result is named [unicode_whitespace]; the documentation
/// of `char::is_whitespace` gives `' '`, `'\n'` and `'\u{A0}'` as whitespace and `'越'` as not.
/// The lexer asks it only of characters beyond ASCII (see [is_white]).
#[verifier::external_body]
fn char_is_whitespace(c: char) -> (r: bool)
    ensures
        r == unicode_whitespace(c),
        (c == ' ' || c == '\n' || c == '\u{A0}') ==> r,
        c == '越' ==> !r,
{
    c.is_whitespace()
}

/// Whether `c` is whitespace: among ASCII characters, a space, a tab, a line feed, a vertical tab, a
/// form feed or a carriage return (the ASCII characters with the Unicode `White_Space` property);
/// beyond ASCII, as `char::is_whitespace` reports it.
pub open spec fn is_white(c: char) -> bool {
    if (c as u32) < 0x80 {
        c == ' ' || c == '\t' || c == '\n' || c == '\x0B' || c == '\x0C' || c == '\r'
    } else {
        unicode_whitespace(c)
    }
}

/// Whether `c` is whitespace; see [is_white].
fn white(c: char) -> (r: bool)
    ensures
        r == is_white(c),
{
    if (c as u32) < 0x80 {
        c == ' ' || c == '\t' || c == '\n' || c == '\x0B' || c == '\x0C' || c == '\r'
    } else {
        char_is_whitespace(c)
    }
}

/// Sequences that can start a non-text [TTToken].
#[derive(Debug, Copy, Clone, PartialEq, Eq, Structural)]
pub enum LexerPrefixSeq {
    /// `\r`
    CarriageReturn,
    /// `\n`
    LineFeed,
    /// `\r\n`
    CRLF,
    /// Characters that are not `\r` or `\n` but are otherwise whitespace
    Whitespace,
    /// `\`
    Backslash,
    /// `[`
    SqrOpen,
    /// `]`
    SqrClose,
    /// `{`
    SqgOpen,
    /// `}`
    SqgClose,
    /// `#`
    Hash,
}

/// The prefix sequence that starts with `ch` (followed by `ch2`, if any), and its length in characters.
pub open spec fn prefix_seq_of(ch: char, ch2: Option<char>) -> Option<(LexerPrefixSeq, usize)> {
    if ch == '\r' {
        if ch2 == Some('\n') {
            Some((LexerPrefixSeq::CRLF, 2))
        } else {
            Some((LexerPrefixSeq::CarriageReturn, 1))
        }
    } else if ch == '\n' {
        Some((LexerPrefixSeq::LineFeed, 1))
    } else if ch == '\\' {
        Some((LexerPrefixSeq::Backslash, 1))
    } else if ch == '[' {
        Some((LexerPrefixSeq::SqrOpen, 1))
    } else if ch == ']' {
        Some((LexerPrefixSeq::SqrClose, 1))
    } else if ch == '{' {
        Some((LexerPrefixSeq::SqgOpen, 1))
    } else if ch == '}' {
        Some((LexerPrefixSeq::SqgClose, 1))
    } else if ch == '#' {
        Some((LexerPrefixSeq::Hash, 1))
    } else if is_white(ch) {
        Some((LexerPrefixSeq::Whitespace, 1))
    } else {
        None
    }
}

/// `ch` starts a prefix sequence, whatever follows it.
pub open spec fn is_prefix_char(ch: char) -> bool {
    prefix_seq_of(ch, None) is Some
}

/// Character `i` of `s`, if there is one.
pub open spec fn char_at(s: Seq<char>, i: int) -> Option<char> {
    if 0 <= i < s.len() {
        Some(s[i])
    } else {
        None
    }
}

impl LexerPrefixSeq {
    /// The prefix sequence that starts with `ch` (followed by `ch2`, if any), and its length in characters.
    pub fn try_from_char2(ch: char, ch2: Option<char>) -> (r: Option<(Self, usize)>)
        ensures
            r == prefix_seq_of(ch, ch2),
    {
        match ch {
            '\r' => match ch2 {
                Some('\n') => Some((LexerPrefixSeq::CRLF, 2)),
                _ => Some((LexerPrefixSeq::CarriageReturn, 1)),
            },
            '\n' => Some((LexerPrefixSeq::LineFeed, 1)),
            '\\' => Some((LexerPrefixSeq::Backslash, 1)),
            '[' => Some((LexerPrefixSeq::SqrOpen, 1)),
            ']' => Some((LexerPrefixSeq::SqrClose, 1)),
            '{' => Some((LexerPrefixSeq::SqgOpen, 1)),
            '}' => Some((LexerPrefixSeq::SqgClose, 1)),
            '#' => Some((LexerPrefixSeq::Hash, 1)),
            _ => {
                if white(ch) {
                    Some((LexerPrefixSeq::Whitespace, 1))
                } else {
                    None
                }
            },
        }
    }

    /// The prefix sequence that starts at character `i` of `chars`, and its length in characters.
    pub fn try_extract(chars: &Vec<char>, i: usize) -> (r: Option<(Self, usize)>)
        requires
            i < chars@.len(),
        ensures
            r == prefix_seq_of(chars@[i as int], char_at(chars@, i + 1)),
    {
        let ch2 = if i < chars.len() - 1 {
            Some(chars[i + 1])
        } else {
            None
        };
        Self::try_from_char2(chars[i], ch2)
    }
}

/// Characters and sequences that have a special meaning in the lexer and can be backslash-escaped.
#[derive(Debug, Copy, Clone, PartialEq, Eq, Structural)]
pub enum Escapable {
    /// `\r`, `\r\n`, `\n`
    Newline,
    /// `\`
    Backslash,
    /// `[`
    SqrOpen,
    /// `]`
    SqrClose,
    /// `{`
    SqgOpen,
    /// `}`
    SqgClose,
    /// `#`
    Hash,
}

/// The escapable sequence that starts with `ch` (followed by `ch2`, if any), and its length in characters.
pub open spec fn escapable_of(ch: Option<char>, ch2: Option<char>) -> Option<(Escapable, usize)> {
    match ch {
        Some(c) => if c == '\r' {
            if ch2 == Some('\n') {
                Some((Escapable::Newline, 2))
            } else {
                Some((Escapable::Newline, 1))
            }
        } else if c == '\n' {
            Some((Escapable::Newline, 1))
        } else if c == '\\' {
            Some((Escapable::Backslash, 1))
        } else if c == '[' {
            Some((Escapable::SqrOpen, 1))
        } else if c == ']' {
            Some((Escapable::SqrClose, 1))
        } else if c == '{' {
            Some((Escapable::SqgOpen, 1))
        } else if c == '}' {
            Some((Escapable::SqgClose, 1))
        } else if c == '#' {
            Some((Escapable::Hash, 1))
        } else {
            None
        },
        None => None,
    }
}

impl Escapable {
    /// The escapable sequence at character `i` of `chars` (the character after a backslash),
    /// and its length in characters.
    pub fn try_extract(chars: &Vec<char>, i: usize) -> (r: Option<(Self, usize)>)
        requires
            i <= chars@.len(),
        ensures
            r == escapable_of(char_at(chars@, i as int), char_at(chars@, i + 1)),
    {
        if i >= chars.len() {
            return None;
        }
        match chars[i] {
            '\r' => {
                if i < chars.len() - 1 && chars[i + 1] == '\n' {
                    Some((Escapable::Newline, 2))
                } else {
                    Some((Escapable::Newline, 1))
                }
            },
            '\n' => Some((Escapable::Newline, 1)),
            '\\' => Some((Escapable::Backslash, 1)),
            '[' => Some((Escapable::SqrOpen, 1)),
            ']' => Some((Escapable::SqrClose, 1)),
            '{' => Some((Escapable::SqgOpen, 1)),
            '}' => Some((Escapable::SqgClose, 1)),
            '#' => Some((Escapable::Hash, 1)),
            _ => None,
        }
    }
}

/// The number of consecutive `c` characters in `s` from index `a`.
pub open spec fn run_len(s: Seq<char>, a: int, c: char) -> nat
    decreases s.len() - a,
{
    if 0 <= a < s.len() && s[a] == c {
        1 + run_len(s, a + 1, c)
    } else {
        0
    }
}

/// Whitespace that is not a newline character.
pub open spec fn is_midline_whitespace(c: char) -> bool {
    is_white(c) && c != '\n' && c != '\r'
}

/// The number of consecutive midline whitespace characters in `s` from index `a`.
pub open spec fn whitespace_run_len(s: Seq<char>, a: int) -> nat
    decreases s.len() - a,
{
    if 0 <= a < s.len() && is_midline_whitespace(s[a]) {
        1 + whitespace_run_len(s, a + 1)
    } else {
        0
    }
}

/// The number of consecutive characters in `s` from index `a` that start no prefix sequence.
pub open spec fn other_run_len(s: Seq<char>, a: int) -> nat
    decreases s.len() - a,
{
    if 0 <= a < s.len() && !is_prefix_char(s[a]) {
        1 + other_run_len(s, a + 1)
    } else {
        0
    }
}

/// What a [TTToken] is, without its span.
#[derive(Debug, Copy, Clone, PartialEq, Eq, Structural)]
pub enum TokenKind {
    Newline,
    Escaped(Escapable),
    Backslash,
    CodeOpen(usize),
    CodeClose(usize),
    ScopeOpen,
    ScopeClose,
    RawScopeOpen(usize),
    RawScopeClose(usize),
    Hashes(usize),
    OtherText,
    Whitespace,
    EOF,
}

/// The token that starts at character `a` of `s`, and the index just after it.
pub open spec fn token_at(s: Seq<char>, a: int) -> (TokenKind, int) {
    match prefix_seq_of(s[a], char_at(s, a + 1)) {
        None => (TokenKind::OtherText, a + other_run_len(s, a)),
        Some((seq, n)) => match seq {
            LexerPrefixSeq::Backslash => match escapable_of(char_at(s, a + 1), char_at(s, a + 2)) {
                Some((e, m)) => (TokenKind::Escaped(e), a + 1 + m),
                None => (TokenKind::Backslash, a + 1),
            },
            LexerPrefixSeq::CRLF | LexerPrefixSeq::CarriageReturn | LexerPrefixSeq::LineFeed => (
                TokenKind::Newline,
                a + n,
            ),
            LexerPrefixSeq::SqrOpen => (
                TokenKind::CodeOpen(run_len(s, a, '[') as usize),
                a + run_len(s, a, '['),
            ),
            LexerPrefixSeq::SqrClose => (
                TokenKind::CodeClose(run_len(s, a, ']') as usize),
                a + run_len(s, a, ']'),
            ),
            LexerPrefixSeq::SqgOpen => (TokenKind::ScopeOpen, a + 1),
            LexerPrefixSeq::SqgClose => if run_len(s, a + 1, '#') > 0 {
                (
                    TokenKind::RawScopeClose(run_len(s, a + 1, '#') as usize),
                    a + 1 + run_len(s, a + 1, '#'),
                )
            } else {
                (TokenKind::ScopeClose, a + 1)
            },
            LexerPrefixSeq::Hash => if char_at(s, a + run_len(s, a, '#')) == Some('{') {
                (
                    TokenKind::RawScopeOpen(run_len(s, a, '#') as usize),
                    a + run_len(s, a, '#') + 1,
                )
            } else {
                (TokenKind::Hashes(run_len(s, a, '#') as usize), a + run_len(s, a, '#'))
            },
            LexerPrefixSeq::Whitespace => (TokenKind::Whitespace, a + whitespace_run_len(s, a)),
        },
    }
}

/// The tokens of `s` from character `a` on: (kind, start, end) for each.
pub open spec fn tokens_from(s: Seq<char>, a: int) -> Seq<(TokenKind, int, int)>
    decreases s.len() - a,
{
    if 0 <= a < s.len() {
        let (k, e) = token_at(s, a);
        if a < e <= s.len() {
            seq![(k, a, e)] + tokens_from(s, e)
        } else {
            Seq::empty()
        }
    } else {
        Seq::empty()
    }
}

/// The tokens of the whole of `s`, without the final EOF.
pub open spec fn lex_spec(s: Seq<char>) -> Seq<(TokenKind, int, int)> {
    tokens_from(s, 0)
}

proof fn lemma_run_len_bound(s: Seq<char>, a: int, c: char)
    requires
        0 <= a <= s.len(),
    ensures
        a + run_len(s, a, c) <= s.len(),
        forall|i: int| a <= i < a + run_len(s, a, c) ==> s[i] == c,
        a + run_len(s, a, c) < s.len() ==> s[a + run_len(s, a, c)] != c,
    decreases s.len() - a,
{
    if a < s.len() && s[a] == c {
        lemma_run_len_bound(s, a + 1, c);
    }
}

proof fn lemma_whitespace_run_len_bound(s: Seq<char>, a: int)
    requires
        0 <= a <= s.len(),
    ensures
        a + whitespace_run_len(s, a) <= s.len(),
        forall|i: int| a <= i < a + whitespace_run_len(s, a) ==> is_midline_whitespace(s[i]),
        a + whitespace_run_len(s, a) < s.len() ==> !is_midline_whitespace(
            s[a + whitespace_run_len(s, a)],
        ),
    decreases s.len() - a,
{
    if a < s.len() && is_midline_whitespace(s[a]) {
        lemma_whitespace_run_len_bound(s, a + 1);
    }
}

proof fn lemma_other_run_len_bound(s: Seq<char>, a: int)
    requires
        0 <= a <= s.len(),
    ensures
        a + other_run_len(s, a) <= s.len(),
        forall|i: int| a <= i < a + other_run_len(s, a) ==> !is_prefix_char(s[i]),
        a + other_run_len(s, a) < s.len() ==> is_prefix_char(s[a + other_run_len(s, a)]),
    decreases s.len() - a,
{
    if a < s.len() && !is_prefix_char(s[a]) {
        lemma_other_run_len_bound(s, a + 1);
    }
}

/// Every token of `s` is non-empty and ends within `s`.
pub proof fn lemma_token_at_progress(s: Seq<char>, a: int)
    requires
        0 <= a < s.len(),
    ensures
        a < token_at(s, a).1 <= s.len(),
{
    lemma_run_len_bound(s, a, '[');
    lemma_run_len_bound(s, a, ']');
    lemma_run_len_bound(s, a, '#');
    lemma_run_len_bound(s, a + 1, '#');
    lemma_whitespace_run_len_bound(s, a);
    lemma_other_run_len_bound(s, a);
}


/// The tokens of `s` from `a` on are the token at `a` followed by the tokens after it.
pub proof fn lemma_tokens_from_unfold(s: Seq<char>, a: int)
    requires
        0 <= a < s.len(),
    ensures
        tokens_from(s, a) == seq![(token_at(s, a).0, a, token_at(s, a).1)] + tokens_from(
            s,
            token_at(s, a).1,
        ),
{
    lemma_token_at_progress(s, a);
}

/// A token of a turnip-text document, with the span of the document it covers.
#[derive(Debug, Copy, Clone, PartialEq, Eq, Structural)]
pub enum TTToken {
    /// `\r\n`, `\n`, or `\r`
    Newline(ParseSpan),
    /// A backslash followed by an [Escapable] sequence
    Escaped(ParseSpan, Escapable),
    /// `\` not followed by an [Escapable] sequence
    Backslash(ParseSpan),
    /// N `[` characters not preceded by a backslash
    CodeOpen(ParseSpan, usize),
    /// N `]` characters not preceded by a backslash
    CodeClose(ParseSpan, usize),
    /// `{` not preceded by a hash or backslash
    ScopeOpen(ParseSpan),
    /// `}` not followed by a hash
    ScopeClose(ParseSpan),
    /// N `#` characters followed by `{`
    RawScopeOpen(ParseSpan, usize),
    /// `}` followed by N `#` characters
    RawScopeClose(ParseSpan, usize),
    /// N `#` characters not followed by `{`
    Hashes(ParseSpan, usize),
    /// A run of characters that start no [LexerPrefixSeq]
    OtherText(ParseSpan),
    /// A run of whitespace characters other than `\r` and `\n`
    Whitespace(ParseSpan),
    /// End of file, with a zero-length span at the end of the last token
    EOF(ParseSpan),
}

impl TTToken {
    /// What the token is, without its span.
    pub open spec fn kind(self) -> TokenKind {
        match self {
            TTToken::Newline(_) => TokenKind::Newline,
            TTToken::Escaped(_, e) => TokenKind::Escaped(e),
            TTToken::Backslash(_) => TokenKind::Backslash,
            TTToken::CodeOpen(_, n) => TokenKind::CodeOpen(n),
            TTToken::CodeClose(_, n) => TokenKind::CodeClose(n),
            TTToken::ScopeOpen(_) => TokenKind::ScopeOpen,
            TTToken::ScopeClose(_) => TokenKind::ScopeClose,
            TTToken::RawScopeOpen(_, n) => TokenKind::RawScopeOpen(n),
            TTToken::RawScopeClose(_, n) => TokenKind::RawScopeClose(n),
            TTToken::Hashes(_, n) => TokenKind::Hashes(n),
            TTToken::OtherText(_) => TokenKind::OtherText,
            TTToken::Whitespace(_) => TokenKind::Whitespace,
            TTToken::EOF(_) => TokenKind::EOF,
        }
    }

    /// The span the token covers.
    pub open spec fn span(self) -> ParseSpan {
        match self {
            TTToken::Newline(span) => span,
            TTToken::Escaped(span, _) => span,
            TTToken::Backslash(span) => span,
            TTToken::CodeOpen(span, _) => span,
            TTToken::CodeClose(span, _) => span,
            TTToken::ScopeOpen(span) => span,
            TTToken::ScopeClose(span) => span,
            TTToken::RawScopeOpen(span, _) => span,
            TTToken::RawScopeClose(span, _) => span,
            TTToken::Hashes(span, _) => span,
            TTToken::OtherText(span) => span,
            TTToken::Whitespace(span) => span,
            TTToken::EOF(span) => span,
        }
    }

    /// The token of the given kind over the given span.
    pub fn from_kind(kind: TokenKind, span: ParseSpan) -> (r: TTToken)
        ensures
            r.kind() == kind,
            r.span() == span,
    {
        match kind {
            TokenKind::Newline => TTToken::Newline(span),
            TokenKind::Escaped(e) => TTToken::Escaped(span, e),
            TokenKind::Backslash => TTToken::Backslash(span),
            TokenKind::CodeOpen(n) => TTToken::CodeOpen(span, n),
            TokenKind::CodeClose(n) => TTToken::CodeClose(span, n),
            TokenKind::ScopeOpen => TTToken::ScopeOpen(span),
            TokenKind::ScopeClose => TTToken::ScopeClose(span),
            TokenKind::RawScopeOpen(n) => TTToken::RawScopeOpen(span, n),
            TokenKind::RawScopeClose(n) => TTToken::RawScopeClose(span, n),
            TokenKind::Hashes(n) => TTToken::Hashes(span, n),
            TokenKind::OtherText => TTToken::OtherText(span),
            TokenKind::Whitespace => TTToken::Whitespace(span),
            TokenKind::EOF => TTToken::EOF(span),
        }
    }

    /// The span the token covers.
    pub fn token_span(&self) -> (r: ParseSpan)
        ensures
            r == self.span(),
    {
        match *self {
            TTToken::Newline(span) => span,
            TTToken::Escaped(span, _) => span,
            TTToken::Backslash(span) => span,
            TTToken::CodeOpen(span, _) => span,
            TTToken::CodeClose(span, _) => span,
            TTToken::ScopeOpen(span) => span,
            TTToken::ScopeClose(span) => span,
            TTToken::RawScopeOpen(span, _) => span,
            TTToken::RawScopeClose(span, _) => span,
            TTToken::Hashes(span, _) => span,
            TTToken::OtherText(span) => span,
            TTToken::Whitespace(span) => span,
            TTToken::EOF(span) => span,
        }
    }
}

/// The number of consecutive `c` characters in `chars` from index `a`.
fn count_run(chars: &Vec<char>, a: usize, c: char) -> (n: usize)
    requires
        a <= chars@.len(),
    ensures
        n == run_len(chars@, a as int, c),
{
    proof {
        lemma_run_len_bound(chars@, a as int, c);
    }
    let mut i = a;
    while i < chars.len() && chars[i] == c
        invariant
            a <= i <= chars@.len(),
            run_len(chars@, a as int, c) == (i - a) + run_len(chars@, i as int, c),
        decreases chars@.len() - i,
    {
        i = i + 1;
    }
    i - a
}

/// The number of consecutive midline whitespace characters in `chars` from index `a`.
fn count_whitespace_run(chars: &Vec<char>, a: usize) -> (n: usize)
    requires
        a <= chars@.len(),
    ensures
        n == whitespace_run_len(chars@, a as int),
{
    let mut i = a;
    while i < chars.len() && is_midline_whitespace_char(chars[i])
        invariant
            a <= i <= chars@.len(),
            whitespace_run_len(chars@, a as int) == (i - a) + whitespace_run_len(
                chars@,
                i as int,
            ),
        decreases chars@.len() - i,
    {
        i = i + 1;
    }
    i - a
}

/// Whether `ch` is whitespace other than `\r` and `\n`.
fn is_midline_whitespace_char(ch: char) -> (r: bool)
    ensures
        r == is_midline_whitespace(ch),
{
    white(ch) && ch != '\n' && ch != '\r'
}

/// The position of character `b`, from the position of character `a`.
fn advance_posn_to(chars: &Vec<char>, a: usize, p: LexPosn, b: usize) -> (r: LexPosn)
    requires
        a <= b <= chars@.len(),
        positions_fit(chars@),
        p.is_at(chars@, a as int),
    ensures
        r.is_at(chars@, b as int),
{
    let mut i = a;
    let mut q = p;
    while i < b
        invariant
            a <= i <= b <= chars@.len(),
            positions_fit(chars@),
            q.is_at(chars@, i as int),
        decreases b - i,
    {
        q = advance_posn(chars, i, q);
        i = i + 1;
    }
    q
}

/// The token over characters `a` to `b` of `chars`, with its end position.
fn make_token(
    file_idx: usize,
    chars: &Vec<char>,
    a: usize,
    pa: LexPosn,
    b: usize,
    kind: TokenKind,
) -> (r: (usize, LexPosn, TTToken))
    requires
        a <= b <= chars@.len(),
        positions_fit(chars@),
        pa.is_at(chars@, a as int),
    ensures
        r.0 == b,
        r.1.is_at(chars@, b as int),
        r.2.kind() == kind,
        r.2.span().covers(file_idx, chars@, a as int, b as int),
{
    let pb = advance_posn_to(chars, a, pa, b);
    let span = ParseSpan::from_lex(file_idx, pa, pb);
    (b, pb, TTToken::from_kind(kind, span))
}

impl TTToken {
    /// Lexes the token at character `start` of `chars` if that character starts a [LexerPrefixSeq].
    ///
    /// Returns the index after the token, the position there, and the token.
    pub fn parse_special(file_idx: usize, chars: &Vec<char>, start: usize, start_posn: LexPosn) -> (r:
        Option<(usize, LexPosn, TTToken)>)
        requires
            start < chars@.len(),
            positions_fit(chars@),
            start_posn.is_at(chars@, start as int),
        ensures
            r is Some <==> is_prefix_char(chars@[start as int]),
            r matches Some((e, p, t)) ==> {
                &&& (t.kind(), e as int) == token_at(chars@, start as int)
                &&& p.is_at(chars@, e as int)
                &&& t.span().covers(file_idx, chars@, start as int, e as int)
            },
    {
        let ghost s = chars@;
        proof {
            lemma_positions_fit(s, s.len() as int);
            lemma_run_len_bound(s, start as int, '[');
            lemma_run_len_bound(s, start as int, ']');
            lemma_run_len_bound(s, start as int, '#');
            lemma_run_len_bound(s, start + 1, '#');
            lemma_whitespace_run_len_bound(s, start as int);
        }
        match LexerPrefixSeq::try_extract(chars, start) {
            None => None,
            Some((seq, n_chars_in_seq)) => {
                let r = match seq {
                    LexerPrefixSeq::Backslash => match Escapable::try_extract(chars, start + 1) {
                        Some((escapable, n_chars)) => make_token(
                            file_idx,
                            chars,
                            start,
                            start_posn,
                            start + 1 + n_chars,
                            TokenKind::Escaped(escapable),
                        ),
                        None => make_token(
                            file_idx,
                            chars,
                            start,
                            start_posn,
                            start + 1,
                            TokenKind::Backslash,
                        ),
                    },
                    LexerPrefixSeq::CRLF
                    | LexerPrefixSeq::CarriageReturn
                    | LexerPrefixSeq::LineFeed => make_token(
                        file_idx,
                        chars,
                        start,
                        start_posn,
                        start + n_chars_in_seq,
                        TokenKind::Newline,
                    ),
                    LexerPrefixSeq::SqrOpen => {
                        let n = count_run(chars, start, '[');
                        make_token(
                            file_idx,
                            chars,
                            start,
                            start_posn,
                            start + n,
                            TokenKind::CodeOpen(n),
                        )
                    },
                    LexerPrefixSeq::SqrClose => {
                        let n = count_run(chars, start, ']');
                        make_token(
                            file_idx,
                            chars,
                            start,
                            start_posn,
                            start + n,
                            TokenKind::CodeClose(n),
                        )
                    },
                    LexerPrefixSeq::SqgOpen => make_token(
                        file_idx,
                        chars,
                        start,
                        start_posn,
                        start + 1,
                        TokenKind::ScopeOpen,
                    ),
                    LexerPrefixSeq::SqgClose => {
                        let n = count_run(chars, start + 1, '#');
                        if n > 0 {
                            make_token(
                                file_idx,
                                chars,
                                start,
                                start_posn,
                                start + 1 + n,
                                TokenKind::RawScopeClose(n),
                            )
                        } else {
                            make_token(
                                file_idx,
                                chars,
                                start,
                                start_posn,
                                start + 1,
                                TokenKind::ScopeClose,
                            )
                        }
                    },
                    LexerPrefixSeq::Hash => {
                        let n = count_run(chars, start, '#');
                        let hash_end = start + n;
                        if hash_end < chars.len() && chars[hash_end] == '{' {
                            make_token(
                                file_idx,
                                chars,
                                start,
                                start_posn,
                                hash_end + 1,
                                TokenKind::RawScopeOpen(n),
                            )
                        } else {
                            make_token(
                                file_idx,
                                chars,
                                start,
                                start_posn,
                                hash_end,
                                TokenKind::Hashes(n),
                            )
                        }
                    },
                    LexerPrefixSeq::Whitespace => {
                        let n = count_whitespace_run(chars, start);
                        make_token(
                            file_idx,
                            chars,
                            start,
                            start_posn,
                            start + n,
                            TokenKind::Whitespace,
                        )
                    },
                };
                Some(r)
            },
        }
    }

    /// Lexes a run of text at character `start` of `chars`: the characters up to the next one
    /// that starts a [LexerPrefixSeq]. Returns `None` where `start` itself starts one.
    pub fn parse_other(file_idx: usize, chars: &Vec<char>, start: usize, start_posn: LexPosn) -> (r:
        Option<(usize, LexPosn, TTToken)>)
        requires
            start < chars@.len(),
            positions_fit(chars@),
            start_posn.is_at(chars@, start as int),
        ensures
            r is Some <==> !is_prefix_char(chars@[start as int]),
            r matches Some((e, p, t)) ==> {
                &&& (t.kind(), e as int) == token_at(chars@, start as int)
                &&& p.is_at(chars@, e as int)
                &&& t.span().covers(file_idx, chars@, start as int, e as int)
            },
    {
        proof {
            lemma_other_run_len_bound(chars@, start as int);
        }
        let mut end = start;
        while end < chars.len() && LexerPrefixSeq::try_from_char2(chars[end], None).is_none()
            invariant
                start <= end <= chars@.len(),
                other_run_len(chars@, start as int) == (end - start) + other_run_len(
                    chars@,
                    end as int,
                ),
            decreases chars@.len() - end,
        {
            end = end + 1;
        }
        if start == end {
            None
        } else {
            Some(make_token(file_idx, chars, start, start_posn, end, TokenKind::OtherText))
        }
    }
}


/// An error from lexing: the character at a position that no token could start with.
#[derive(Debug, Copy, Clone, PartialEq, Eq, Structural)]
pub struct LexError {
    pub pos: LexPosn,
    pub ch: char,
}

/// The tokens of `s`, in order, as the spans they cover and their kinds, followed by an EOF.
pub open spec fn lexed_as(r: Seq<TTToken>, file_idx: usize, s: Seq<char>) -> bool {
    let t = lex_spec(s);
    &&& r.len() == t.len() + 1
    &&& forall|j: int|
        0 <= j < t.len() ==> {
            &&& (#[trigger] r[j]).kind() == t[j].0
            &&& r[j].span().covers(file_idx, s, t[j].1, t[j].2)
        }
    &&& r.last().kind() == TokenKind::EOF
    &&& r.last().span().file_idx == file_idx
    &&& s.len() > 0 ==> r.last().span().start.is_at(s, s.len() as int) && r.last().span().end.is_at(
        s,
        s.len() as int,
    )
    &&& s.len() == 0 ==> r.last().span().start == (ParsePosn {
        byte_ofs: 0,
        char_ofs: 0,
        line: 0,
        column: 0,
    }) && r.last().span().end == r.last().span().start
}

/// Lexes the whole of `data`, from file `file_idx`, into tokens followed by an EOF token.
///
/// The EOF token has a zero-length span at the end of the last token, or at line 0, column 0
/// when `data` is empty.
pub fn lex_tokens(file_idx: usize, data: &str) -> (r: Vec<TTToken>)
    requires
        positions_fit(data@),
    ensures
        lexed_as(r@, file_idx, data@),
{
    let chars = str_to_chars(data);
    let ghost s = chars@;
    let ghost t = lex_spec(s);
    let mut toks: Vec<TTToken> = Vec::new();
    let mut i: usize = 0;
    let mut p = LexPosn::start();
    while i < chars.len()
        invariant
            s == chars@,
            t == lex_spec(s),
            positions_fit(s),
            0 <= i <= s.len(),
            p.is_at(s, i as int),
            toks@.len() <= t.len(),
            tokens_from(s, i as int) == t.subrange(toks@.len() as int, t.len() as int),
            toks@.len() > 0 ==> t[toks@.len() - 1].2 == i,
            forall|j: int|
                0 <= j < toks@.len() ==> {
                    &&& (#[trigger] toks@[j]).kind() == t[j].0
                    &&& toks@[j].span().covers(file_idx, s, t[j].1, t[j].2)
                },
        decreases s.len() - i,
    {
        proof {
            lemma_tokens_from_unfold(s, i as int);
            lemma_token_at_progress(s, i as int);
        }
        let ghost k = toks@.len();
        let step = match TTToken::parse_special(file_idx, &chars, i, p) {
            Some(x) => x,
            None => match TTToken::parse_other(file_idx, &chars, i, p) {
                Some(x) => x,
                None => {
                    proof {
                        assert(false);
                    }
                    (i, p, TTToken::EOF(ParseSpan::from_lex(file_idx, p, p)))
                },
            },
        };
        let (e, pe, tok) = step;
        proof {
            assert(tokens_from(s, i as int).len() > 0);
            assert(k < t.len());
            assert(t.subrange(k as int, t.len() as int)[0] == t[k as int]);
            assert(t.subrange((k + 1) as int, t.len() as int) =~= t.subrange(
                k as int,
                t.len() as int,
            ).drop_first());
            assert(tokens_from(s, e as int) =~= tokens_from(s, i as int).drop_first());
        }
        toks.push(tok);
        i = e;
        p = pe;
    }
    proof {
        assert(t.subrange(toks@.len() as int, t.len() as int).len() == 0);
        if s.len() > 0 {
            lemma_tokens_from_unfold(s, 0);
            assert(t.len() > 0);
        }
    }
    let eof_span = if toks.len() > 0 {
        let end_of_last_tok = toks[toks.len() - 1].token_span().end();
        ParseSpan::new(file_idx, end_of_last_tok, end_of_last_tok)
    } else {
        let zero_posn = ParsePosn { byte_ofs: 0, char_ofs: 0, line: 0, column: 0 };
        ParseSpan::new(file_idx, zero_posn, zero_posn)
    };
    toks.push(TTToken::EOF(eof_span));
    toks
}

/// The tokens of a lexed file, handed out one at a time.
pub enum LexedStrIterator {
    Exhausted,
    Error(LexError),
    Tokenizing(Vec<TTToken>, usize),
}

impl LexedStrIterator {
    /// The next token, or `None` once the tokens (or the error) have been handed out.
    ///
    /// After the last token, or after an error, the iterator is exhausted.
    pub fn next(&mut self) -> (r: Option<Result<TTToken, LexError>>)
        requires
            *old(self) matches LexedStrIterator::Tokenizing(v, i) ==> i <= v@.len(),
        ensures
            match *old(self) {
                LexedStrIterator::Exhausted => r is None && *final(self) is Exhausted,
                LexedStrIterator::Error(e) => r == Some(Err::<TTToken, LexError>(e))
                    && *final(self) is Exhausted,
                LexedStrIterator::Tokenizing(v, i) => if i < v@.len() {
                    &&& r == Some(Ok::<TTToken, LexError>(v@[i as int]))
                    &&& *final(self) matches LexedStrIterator::Tokenizing(v2, i2)
                    &&& v2@ == v@
                    &&& i2 == i + 1
                } else {
                    r is None && *final(self) is Exhausted
                },
            },
    {
        match self {
            LexedStrIterator::Exhausted => None,
            LexedStrIterator::Error(e) => {
                let e = *e;
                *self = LexedStrIterator::Exhausted;
                Some(Err(e))
            },
            LexedStrIterator::Tokenizing(v, i) => {
                if *i < v.len() {
                    let tok = v[*i];
                    *i = *i + 1;
                    Some(Ok(tok))
                } else {
                    *self = LexedStrIterator::Exhausted;
                    None
                }
            },
        }
    }
}

/// Lexes `data`, from file `file_idx`, into an iterator over its tokens followed by an EOF token.
pub fn lex(file_idx: usize, data: &str) -> (r: LexedStrIterator)
    requires
        positions_fit(data@),
    ensures
        r matches LexedStrIterator::Tokenizing(v, i) && i == 0 && lexed_as(v@, file_idx, data@),
{
    LexedStrIterator::Tokenizing(lex_tokens(file_idx, data), 0)
}


impl Escapable {
    /// The text that the escaped sequence stands for: the character itself, or nothing for a newline.
    pub open spec fn text(self) -> Seq<char> {
        match self {
            Escapable::Newline => seq![],
            Escapable::Backslash => seq!['\\'],
            Escapable::SqrOpen => seq!['['],
            Escapable::SqrClose => seq![']'],
            Escapable::SqgOpen => seq!['{'],
            Escapable::SqgClose => seq!['}'],
            Escapable::Hash => seq!['#'],
        }
    }

    /// The text that the escaped sequence stands for: the character itself, or `""` for a newline.
    pub fn stringify(&self) -> (r: &'static str)
        ensures
            r@ == self.text(),
    {
        proof {
            reveal_strlit("");
            reveal_strlit("\\");
            reveal_strlit("[");
            reveal_strlit("]");
            reveal_strlit("{");
            reveal_strlit("}");
            reveal_strlit("#");
        }
        match self {
            Escapable::Newline => "",
            Escapable::Backslash => "\\",
            Escapable::SqrOpen => "[",
            Escapable::SqrClose => "]",
            Escapable::SqgOpen => "{",
            Escapable::SqgClose => "}",
            Escapable::Hash => "#",
        }
    }
}

/// The characters of `data` that `span` covers, by its character offsets.
pub open spec fn span_text(data: Seq<char>, span: ParseSpan) -> Seq<char> {
    data.subrange(span.start.char_ofs as int, span.end.char_ofs as int)
}

/// `span` lies within `data`, by its character offsets.
pub open spec fn span_within(data: Seq<char>, span: ParseSpan) -> bool {
    span.start.char_ofs <= span.end.char_ofs <= data.len()
}

/// Byte `b` of `data` starts a character of it, or is its end.
pub open spec fn is_char_boundary(data: Seq<char>, b: int) -> bool {
    exists|i: int| 0 <= i <= data.len() && byte_ofs_at(data, i) == b
}

/// The index of the character of `data` that starts at byte `b` (or of the end, at its length).
pub open spec fn char_index_of_byte(data: Seq<char>, b: int) -> int {
    choose|i: int| 0 <= i <= data.len() && byte_ofs_at(data, i) == b
}

/// The byte offsets of `span` lie on character boundaries of `data`, the start not after the end.
pub open spec fn bytes_within(data: Seq<char>, span: ParseSpan) -> bool {
    &&& is_char_boundary(data, span.start.byte_ofs as int)
    &&& is_char_boundary(data, span.end.byte_ofs as int)
    &&& span.start.byte_ofs <= span.end.byte_ofs
}

/// The characters of `data` whose bytes `span` covers.
pub open spec fn bytes_text(data: Seq<char>, span: ParseSpan) -> Seq<char> {
    data.subrange(char_index_of_byte(data, span.start.byte_ofs as int), char_index_of_byte(data, span.end.byte_ofs as int))
}

/// Byte offsets name characters one for one: the offset of character `i` is a boundary, and names `i`.
pub proof fn lemma_char_index_of_byte(data: Seq<char>, i: int)
    requires
        0 <= i <= data.len(),
    ensures
        is_char_boundary(data, byte_ofs_at(data, i) as int),
        char_index_of_byte(data, byte_ofs_at(data, i) as int) == i,
{
    let b = byte_ofs_at(data, i) as int;
    assert(0 <= i <= data.len() && byte_ofs_at(data, i) == b);
    let k = char_index_of_byte(data, b);
    if k < i {
        lemma_byte_ofs_mono(data, k, i);
    } else if k > i {
        lemma_byte_ofs_mono(data, i, k);
    }
}

/// A span from character `a` to character `b` of `data` lies within it by its bytes, and covers
/// exactly those characters.
pub proof fn lemma_covers_bytes(data: Seq<char>, span: ParseSpan, file_idx: usize, a: int, b: int)
    requires
        span.covers(file_idx, data, a, b),
        0 <= a <= b <= data.len(),
    ensures
        bytes_within(data, span),
        bytes_text(data, span) == data.subrange(a, b),
{
    lemma_char_index_of_byte(data, a);
    lemma_char_index_of_byte(data, b);
    lemma_byte_ofs_mono(data, a, b);
}

/// The index of the character of `chars` that starts at byte `b`.
fn char_index_at_byte(chars: &Vec<char>, b: usize) -> (i: usize)
    requires
        is_char_boundary(chars@, b as int),
    ensures
        i == char_index_of_byte(chars@, b as int),
{
    let ghost s = chars@;
    let ghost k = char_index_of_byte(s, b as int);
    let n = chars.len();
    let mut i: usize = 0;
    let mut total: usize = 0;
    while total < b
        invariant
            s == chars@,
            s.len() == n,
            0 <= i <= k <= s.len(),
            byte_ofs_at(s, k) == b,
            total == byte_ofs_at(s, i as int),
        decreases k - i,
    {
        proof {
            assert(i < k);
            lemma_byte_ofs_mono(s, i + 1, k);
        }
        total = total + char_utf8_len(chars[i]);
        i = i + 1;
    }
    proof {
        lemma_byte_ofs_mono(s, i as int, k);
    }
    i
}

/// The characters of `data` whose bytes `span` covers.
fn slice_of<'a>(data: &'a str, span: ParseSpan) -> (r: &'a str)
    requires
        bytes_within(data@, span),
    ensures
        r@ == bytes_text(data@, span),
{
    let chars = str_to_chars(data);
    let i = char_index_at_byte(&chars, span.start.byte_ofs);
    let j = char_index_at_byte(&chars, span.end.byte_ofs);
    proof {
        if j < i {
            lemma_byte_ofs_mono(chars@, j as int, i as int);
        }
    }
    data.substring_char(i, j)
}

impl TTToken {
    /// The raw text of the token is its own span of the document.
    pub open spec fn raw_is_slice(self) -> bool {
        match self {
            TTToken::Backslash(_) | TTToken::Newline(_) | TTToken::EOF(_) => false,
            TTToken::Escaped(_, e) => e != Escapable::Newline,
            _ => true,
        }
    }

    /// The text of the token with no escaping: an escaped `[` stays `\[`.
    /// Newlines become `\n`; EOF becomes nothing.
    pub open spec fn raw_text(self, data: Seq<char>) -> Seq<char> {
        match self {
            TTToken::Backslash(_) => seq!['\\'],
            TTToken::Newline(_) => seq!['\n'],
            TTToken::EOF(_) => seq![],
            TTToken::Escaped(span, e) => if e == Escapable::Newline {
                seq!['\\', '\n']
            } else {
                bytes_text(data, span)
            },
            _ => bytes_text(data, self.span()),
        }
    }

    /// The text of the token, for use in a raw scope: with no escaping, so an escaped `[` stays `\[`.
    ///
    /// Newlines become `\n` everywhere; EOF becomes `""`.
    pub fn stringify_raw<'a>(&self, data: &'a str) -> (r: &'a str)
        requires
            self.raw_is_slice() ==> bytes_within(data@, self.span()),
        ensures
            r@ == self.raw_text(data@),
    {
        proof {
            reveal_strlit("\\");
            reveal_strlit("\n");
            reveal_strlit("");
            reveal_strlit("\\\n");
        }
        match self {
            TTToken::Backslash(_) => "\\",
            TTToken::Newline(_) => "\n",
            TTToken::EOF(_) => "",
            TTToken::Escaped(_, Escapable::Newline) => "\\\n",
            TTToken::Escaped(span, _)
            | TTToken::RawScopeOpen(span, _)
            | TTToken::RawScopeClose(span, _)
            | TTToken::CodeOpen(span, _)
            | TTToken::CodeClose(span, _)
            | TTToken::ScopeOpen(span)
            | TTToken::ScopeClose(span)
            | TTToken::Hashes(span, _)
            | TTToken::Whitespace(span)
            | TTToken::OtherText(span) => slice_of(data, *span),
        }
    }

    /// The token is a newline or an escaped newline, which have a meaning of their own and no text.
    pub open spec fn is_any_newline(self) -> bool {
        self is Newline || self matches TTToken::Escaped(_, Escapable::Newline)
    }

    /// The text of the token with escaping applied: an escaped `[` becomes `[`.
    /// EOF becomes nothing.
    pub open spec fn escaped_text(self, data: Seq<char>) -> Seq<char> {
        match self {
            TTToken::Backslash(_) => seq!['\\'],
            TTToken::EOF(_) => seq![],
            TTToken::Escaped(_, e) => e.text(),
            _ => bytes_text(data, self.span()),
        }
    }

    /// The text of the token for normal text: with escaping, so an escaped `[` becomes just `[`.
    ///
    /// EOF becomes `""`. Newlines and escaped newlines have a meaning of their own and are not stringified.
    pub fn stringify_escaped<'a>(&self, data: &'a str) -> (r: &'a str)
        requires
            !self.is_any_newline(),
            !(self is Backslash || self is EOF || self is Escaped) ==> bytes_within(data@, self.span()),
        ensures
            r@ == self.escaped_text(data@),
    {
        proof {
            reveal_strlit("\\");
            reveal_strlit("");
        }
        match self {
            TTToken::Backslash(_) => "\\",
            TTToken::EOF(_) => "",
            TTToken::Newline(_) => {
                proof {
                    assert(false);
                }
                ""
            },
            TTToken::Escaped(_, escaped) => escaped.stringify(),
            TTToken::RawScopeOpen(span, _)
            | TTToken::RawScopeClose(span, _)
            | TTToken::CodeOpen(span, _)
            | TTToken::CodeClose(span, _)
            | TTToken::ScopeOpen(span)
            | TTToken::ScopeClose(span)
            | TTToken::Hashes(span, _)
            | TTToken::Whitespace(span)
            | TTToken::OtherText(span) => slice_of(data, *span),
        }
    }
}


/// The tokens of `s` from `a` on cover characters `a` to the end of `s`, each token non-empty and
/// each starting where the one before it ends.
proof fn lemma_tokens_from_tile(s: Seq<char>, a: int)
    requires
        0 <= a <= s.len(),
    ensures
        ({
            let t = tokens_from(s, a);
            &&& a < s.len() ==> t.len() > 0 && t[0].1 == a && t.last().2 == s.len()
            &&& a == s.len() ==> t.len() == 0
            &&& forall|j: int| 0 <= j < t.len() ==> a <= #[trigger] t[j].1 < t[j].2 <= s.len()
            &&& forall|j: int| 0 <= j < t.len() - 1 ==> #[trigger] t[j].2 == t[j + 1].1
        }),
    decreases s.len() - a,
{
    if a < s.len() {
        lemma_tokens_from_unfold(s, a);
        lemma_token_at_progress(s, a);
        let e = token_at(s, a).1;
        lemma_tokens_from_tile(s, e);
        let t = tokens_from(s, a);
        let rest = tokens_from(s, e);
        assert forall|j: int| 0 <= j < t.len() - 1 implies #[trigger] t[j].2 == t[j + 1].1 by {
            if j > 0 {
                assert(t[j] == rest[j - 1]);
                assert(t[j + 1] == rest[j]);
            }
        }
        assert forall|j: int| 0 <= j < t.len() implies a <= #[trigger] t[j].1 < t[j].2 <= s.len() by {
            if j > 0 {
                assert(t[j] == rest[j - 1]);
            }
        }
    }
}

/// Lexing covers the whole document: the tokens (without the final EOF) are non-empty, the first
/// starts at the first character, each starts where the one before it ends, and the last ends at
/// the end of the document. An empty document has no tokens but the EOF.
pub proof fn lemma_lex_covers_input(s: Seq<char>)
    ensures
        ({
            let t = lex_spec(s);
            &&& s.len() == 0 <==> t.len() == 0
            &&& t.len() > 0 ==> t[0].1 == 0 && t.last().2 == s.len()
            &&& forall|j: int| 0 <= j < t.len() ==> 0 <= #[trigger] t[j].1 < t[j].2 <= s.len()
            &&& forall|j: int| 0 <= j < t.len() - 1 ==> #[trigger] t[j].2 == t[j + 1].1
        }),
{
    lemma_tokens_from_tile(s, 0);
}


/// A token is determined by its kind and its span.
pub proof fn lemma_token_determined(a: TTToken, b: TTToken)
    requires
        a.kind() == b.kind(),
        a.span() == b.span(),
    ensures
        a == b,
{
}

/// Lexing has one result: the tokens of a document are determined by the document and its file.
pub proof fn lemma_lexed_unique(r1: Seq<TTToken>, r2: Seq<TTToken>, file_idx: usize, s: Seq<char>)
    requires
        lexed_as(r1, file_idx, s),
        lexed_as(r2, file_idx, s),
    ensures
        r1 == r2,
{
    let t = lex_spec(s);
    assert forall|j: int| 0 <= j < r1.len() implies r1[j] == r2[j] by {
        if j < t.len() {
            assert(r1[j].kind() == t[j].0 && r2[j].kind() == t[j].0);
            assert(r1[j].span().covers(file_idx, s, t[j].1, t[j].2));
            assert(r2[j].span().covers(file_idx, s, t[j].1, t[j].2));
        } else {
            assert(r1[j] == r1.last() && r2[j] == r2.last());
        }
        lemma_token_determined(r1[j], r2[j]);
    }
    assert(r1 =~= r2);
}

/// The tokens of document `s` in file `file_idx` (see [lexed_as]).
pub open spec fn lexed(file_idx: usize, s: Seq<char>) -> Seq<TTToken> {
    choose|r: Seq<TTToken>| lexed_as(r, file_idx, s)
}

/// Tokens that lex `s` are [lexed] of `s`.
pub proof fn lemma_lexed(r: Seq<TTToken>, file_idx: usize, s: Seq<char>)
    requires
        lexed_as(r, file_idx, s),
    ensures
        lexed(file_idx, s) == r,
{
    lemma_lexed_unique(r, lexed(file_idx, s), file_idx, s);
}


proof fn lemma_other_run_all(s: Seq<char>, a: int)
    requires
        0 <= a <= s.len(),
        forall|i: int| a <= i < s.len() ==> !is_prefix_char(#[trigger] s[i]),
    ensures
        other_run_len(s, a) == s.len() - a,
    decreases s.len() - a,
{
    if a < s.len() {
        lemma_other_run_all(s, a + 1);
    }
}

/// A document of plain characters (none of which starts a token of its own) is one text token.
pub proof fn lemma_lex_plain(s: Seq<char>)
    requires
        s.len() > 0,
        forall|i: int| 0 <= i < s.len() ==> !is_prefix_char(#[trigger] s[i]),
    ensures
        lex_spec(s) == seq![(TokenKind::OtherText, 0int, s.len() as int)],
{
    lemma_other_run_all(s, 0);
    assert(!is_prefix_char(s[0]));
    assert(prefix_seq_of(s[0], char_at(s, 1)) is None);
    lemma_tokens_from_unfold(s, 0);
    assert(token_at(s, 0) == (TokenKind::OtherText, s.len() as int));
    assert(tokens_from(s, s.len() as int) =~= Seq::<(TokenKind, int, int)>::empty());
    assert(lex_spec(s) =~= seq![(TokenKind::OtherText, 0int, s.len() as int)]);
}

/// The position of character `n` of `s`.
pub open spec fn posn_at(s: Seq<char>, n: int) -> ParsePosn {
    ParsePosn {
        byte_ofs: byte_ofs_at(s, n) as usize,
        char_ofs: n as usize,
        line: line_at(s, n) as usize,
        column: column_at(s, n) as usize,
    }
}

/// In a document whose positions fit, [posn_at] is the position of character `n`.
pub proof fn lemma_posn_at(s: Seq<char>, n: int)
    requires
        positions_fit(s),
        0 <= n <= s.len(),
    ensures
        posn_at(s, n).is_at(s, n),
{
    lemma_positions_fit(s, n);
}

/// The tokens of a document of plain characters: one text token over all of it, then EOF at its end.
pub proof fn lemma_lexed_plain(file_idx: usize, s: Seq<char>)
    requires
        s.len() > 0,
        positions_fit(s),
        forall|i: int| 0 <= i < s.len() ==> !is_prefix_char(#[trigger] s[i]),
    ensures
        lexed(file_idx, s) == seq![
            TTToken::OtherText(ParseSpan { file_idx, start: posn_at(s, 0), end: posn_at(s, s.len() as int) }),
            TTToken::EOF(ParseSpan { file_idx, start: posn_at(s, s.len() as int), end: posn_at(s, s.len() as int) }),
        ],
        bytes_text(s, ParseSpan { file_idx, start: posn_at(s, 0), end: posn_at(s, s.len() as int) }) == s,
{
    lemma_lex_plain(s);
    lemma_posn_at(s, 0);
    lemma_posn_at(s, s.len() as int);
    let r = seq![
        TTToken::OtherText(ParseSpan { file_idx, start: posn_at(s, 0), end: posn_at(s, s.len() as int) }),
        TTToken::EOF(ParseSpan { file_idx, start: posn_at(s, s.len() as int), end: posn_at(s, s.len() as int) }),
    ];
    assert(r[0].span().covers(file_idx, s, 0, s.len() as int));
    assert(r.last() == r[1]);
    assert(lexed_as(r, file_idx, s));
    lemma_lexed(r, file_idx, s);
    lemma_covers_bytes(s, r[0].span(), file_idx, 0, s.len() as int);
    assert(s.subrange(0, s.len() as int) =~= s);
}


/// Each token of `s` from `a` on is the token found at its start.
proof fn lemma_tokens_from_kinds(s: Seq<char>, a: int)
    requires
        0 <= a <= s.len(),
    ensures
        forall|j: int|
            0 <= j < tokens_from(s, a).len() ==> (#[trigger] tokens_from(s, a)[j]).0 == token_at(s, tokens_from(s, a)[j].1).0,
    decreases s.len() - a,
{
    if a < s.len() {
        lemma_tokens_from_unfold(s, a);
        lemma_token_at_progress(s, a);
        let e = token_at(s, a).1;
        lemma_tokens_from_kinds(s, e);
        let t = tokens_from(s, a);
        let rest = tokens_from(s, e);
        assert forall|j: int| 0 <= j < t.len() implies (#[trigger] t[j]).0 == token_at(s, t[j].1).0 by {
            if j > 0 {
                assert(t[j] == rest[j - 1]);
            }
        }
    }
}

/// What lexing finds at the start of each token: a code open only at a `[`, and never an EOF.
pub proof fn lemma_lex_kinds(s: Seq<char>)
    ensures
        forall|j: int| 0 <= j < lex_spec(s).len() ==> {
            &&& (#[trigger] lex_spec(s)[j]).0 != TokenKind::EOF
            &&& lex_spec(s)[j].0 is CodeOpen ==> s[lex_spec(s)[j].1] == '['
        },
{
    lemma_tokens_from_kinds(s, 0);
    lemma_tokens_from_tile(s, 0);
}

/// The EOF token closes the tokens with an empty span, and is the only EOF: it starts and ends where
/// the last token ends, or, when the document is empty and EOF is the only token, at byte, character,
/// line and column zero.
pub proof fn lemma_eof_at_end(r: Seq<TTToken>, file_idx: usize, s: Seq<char>)
    requires
        lexed_as(r, file_idx, s),
    ensures
        r.last() is EOF,
        r.last().span().file_idx == file_idx,
        r.last().span().start == r.last().span().end,
        forall|j: int| 0 <= j < r.len() - 1 ==> !(#[trigger] r[j] is EOF),
        r.len() == 1 <==> s.len() == 0,
        r.len() > 1 ==> r.last().span().start == r[r.len() - 2].span().end,
        r.len() == 1 ==> r.last().span().start == (ParsePosn { byte_ofs: 0, char_ofs: 0, line: 0, column: 0 }),
{
    let t = lex_spec(s);
    lemma_lex_covers_input(s);
    lemma_lex_kinds(s);
    assert forall|j: int| 0 <= j < r.len() - 1 implies !(#[trigger] r[j] is EOF) by {
        assert(r[j].kind() == t[j].0);
    }
    if r.len() > 1 {
        let k = t.len() - 1;
        assert(r[k].span().end.is_at(s, t[k].2));
        assert(t.last() == t[k]);
    }
}

/// A text token is as long as it can be: where character `a` starts no prefix sequence (it is none
/// of `\r`, `\n`, `\\`, `[`, `]`, `{`, `}`, `#` and no whitespace), the token there is text that runs
/// from `a` up to the first character that starts one, or to the end, and holds no such character.
pub proof fn lemma_text_run_is_maximal(s: Seq<char>, a: int)
    requires
        0 <= a < s.len(),
        !is_prefix_char(s[a]),
    ensures
        ({
            let (k, e) = token_at(s, a);
            &&& k == TokenKind::OtherText
            &&& a < e <= s.len()
            &&& forall|i: int| a <= i < e ==> !is_prefix_char(#[trigger] s[i])
            &&& e < s.len() ==> is_prefix_char(s[e])
        }),
        forall|c: char|
            #[trigger] is_prefix_char(c) <==> (c == '\r' || c == '\n' || c == '\\' || c == '[' || c == ']'
                || c == '{' || c == '}' || c == '#' || is_white(c)),
{
    lemma_other_run_len_bound(s, a);
    assert(prefix_seq_of(s[a], char_at(s, a + 1)) is None);
}

/// The token of kind `k` over `span`.
pub open spec fn token_of(k: TokenKind, span: ParseSpan) -> TTToken {
    match k {
        TokenKind::Newline => TTToken::Newline(span),
        TokenKind::Escaped(e) => TTToken::Escaped(span, e),
        TokenKind::Backslash => TTToken::Backslash(span),
        TokenKind::CodeOpen(n) => TTToken::CodeOpen(span, n),
        TokenKind::CodeClose(n) => TTToken::CodeClose(span, n),
        TokenKind::ScopeOpen => TTToken::ScopeOpen(span),
        TokenKind::ScopeClose => TTToken::ScopeClose(span),
        TokenKind::RawScopeOpen(n) => TTToken::RawScopeOpen(span, n),
        TokenKind::RawScopeClose(n) => TTToken::RawScopeClose(span, n),
        TokenKind::Hashes(n) => TTToken::Hashes(span, n),
        TokenKind::OtherText => TTToken::OtherText(span),
        TokenKind::Whitespace => TTToken::Whitespace(span),
        TokenKind::EOF => TTToken::EOF(span),
    }
}

/// Where the EOF token of `s` stands: at its end, or at line 0, column 0 when it is empty.
pub open spec fn eof_posn(s: Seq<char>) -> ParsePosn {
    if s.len() > 0 {
        posn_at(s, s.len() as int)
    } else {
        ParsePosn { byte_ofs: 0, char_ofs: 0, line: 0, column: 0 }
    }
}

/// The tokens of `s` in file `file_idx`, built from [lex_spec].
pub open spec fn lex_tokens_spec(file_idx: usize, s: Seq<char>) -> Seq<TTToken> {
    let t = lex_spec(s);
    Seq::new(
        t.len(),
        |j: int| token_of(t[j].0, ParseSpan { file_idx, start: posn_at(s, t[j].1), end: posn_at(s, t[j].2) }),
    ).push(TTToken::EOF(ParseSpan { file_idx, start: eof_posn(s), end: eof_posn(s) }))
}

/// Every document whose positions fit lexes, to [lex_tokens_spec].
pub proof fn lemma_lexed_exists(file_idx: usize, s: Seq<char>)
    requires
        positions_fit(s),
    ensures
        lexed_as(lex_tokens_spec(file_idx, s), file_idx, s),
        lexed(file_idx, s) == lex_tokens_spec(file_idx, s),
        forall|j: int|
            0 <= j < lex_spec(s).len() ==> {
                &&& bytes_within(s, (#[trigger] lexed(file_idx, s)[j]).span())
                &&& bytes_text(s, lexed(file_idx, s)[j].span()) == s.subrange(lex_spec(s)[j].1, lex_spec(s)[j].2)
            },
{
    lemma_lex_covers_input(s);
    let t = lex_spec(s);
    let r = lex_tokens_spec(file_idx, s);
    assert forall|j: int| 0 <= j < t.len() implies {
        &&& (#[trigger] r[j]).kind() == t[j].0
        &&& r[j].span().covers(file_idx, s, t[j].1, t[j].2)
    } by {
        lemma_posn_at(s, t[j].1);
        lemma_posn_at(s, t[j].2);
    }
    if s.len() > 0 {
        lemma_posn_at(s, s.len() as int);
    }
    assert(r.last() == TTToken::EOF(ParseSpan { file_idx, start: eof_posn(s), end: eof_posn(s) }));
    assert(lexed_as(r, file_idx, s));
    lemma_lexed(r, file_idx, s);
    assert forall|j: int| 0 <= j < t.len() implies {
        &&& bytes_within(s, (#[trigger] lexed(file_idx, s)[j]).span())
        &&& bytes_text(s, lexed(file_idx, s)[j].span()) == s.subrange(t[j].1, t[j].2)
    } by {
        assert(r[j].span().covers(file_idx, s, t[j].1, t[j].2));
        lemma_covers_bytes(s, r[j].span(), file_idx, t[j].1, t[j].2);
    }
}


/// A run of plain characters from `a` to `b`, followed by a character that starts a token of its
/// own (or the end), is one text token.
proof fn lemma_other_run_to(s: Seq<char>, a: int, b: int)
    requires
        0 <= a <= b <= s.len(),
        forall|i: int| a <= i < b ==> !is_prefix_char(#[trigger] s[i]),
        b < s.len() ==> is_prefix_char(s[b]),
    ensures
        other_run_len(s, a) == b - a,
    decreases b - a,
{
    if a < b {
        lemma_other_run_to(s, a + 1, b);
    }
}

/// The tokens of `s` from `a`, where `a..b` is a run of plain characters that is not empty: a text
/// token over the run, then the tokens from `b`.
pub proof fn lemma_tokens_from_plain(s: Seq<char>, a: int, b: int)
    requires
        0 <= a < b <= s.len(),
        forall|i: int| a <= i < b ==> !is_prefix_char(#[trigger] s[i]),
        b < s.len() ==> is_prefix_char(s[b]),
    ensures
        tokens_from(s, a) == seq![(TokenKind::OtherText, a, b)] + tokens_from(s, b),
{
    lemma_other_run_to(s, a, b);
    assert(!is_prefix_char(s[a]));
    assert(prefix_seq_of(s[a], char_at(s, a + 1)) is None);
    lemma_tokens_from_unfold(s, a);
}

/// The tokens of `s` from `a`, where character `a` is a line feed: a newline token, then the tokens
/// after it.
pub proof fn lemma_tokens_from_line_feed(s: Seq<char>, a: int)
    requires
        0 <= a < s.len(),
        s[a] == '\n',
    ensures
        tokens_from(s, a) == seq![(TokenKind::Newline, a, a + 1)] + tokens_from(s, a + 1),
{
    lemma_tokens_from_unfold(s, a);
}

/// There are no tokens from the end of `s`.
pub proof fn lemma_tokens_from_end(s: Seq<char>)
    ensures
        tokens_from(s, s.len() as int) == Seq::<(TokenKind, int, int)>::empty(),
{
}

} // verus!
