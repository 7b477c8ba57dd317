//! Splits a document into [SimpleTok]s, the units that the [parser](super) works on.
use vstd::prelude::*;

use crate::lexer::{char_at, escapable_of, run_len, span_text, Escapable};
use crate::span::{advance_posn, positions_fit, LexPosn, ParseSpan};
use crate::text::str_to_chars;

verus! {

/// A unit of a document for the [parser](super): a newline, an escape, a delimiter with its
/// count of `#`, or a run of other text.
#[derive(Debug, Copy, Clone, PartialEq, Eq, Structural)]
pub enum SimpleTok {
    /// `\r\n`, `\n`, or `\r`
    Newline(ParseSpan),
    /// A backslash followed by an [Escapable] sequence
    Escaped(ParseSpan, Escapable),
    /// `\` not followed by an [Escapable] sequence
    Backslash(ParseSpan),
    /// `[` followed by N `#`
    CodeOpen(ParseSpan, usize),
    /// N `#` followed by `]`
    CodeClose(ParseSpan, usize),
    /// `{` followed by N `#`
    ScopeOpen(ParseSpan, usize),
    /// `r{` followed by N `#`
    RawScopeOpen(ParseSpan, usize),
    /// N `#` followed by `}`
    ScopeClose(ParseSpan, usize),
    /// N `#` followed by neither `]` nor `}`
    Hashes(ParseSpan, usize),
    /// A run of characters that start none of the above
    OtherText(ParseSpan),
}

/// What a [SimpleTok] is, without its span.
#[derive(Debug, Copy, Clone, PartialEq, Eq, Structural)]
pub enum SimpleTokKind {
    Newline,
    Escaped(Escapable),
    Backslash,
    CodeOpen(usize),
    CodeClose(usize),
    ScopeOpen(usize),
    RawScopeOpen(usize),
    ScopeClose(usize),
    Hashes(usize),
    OtherText,
}

/// Character `i` of `s` starts a [SimpleTok] other than [SimpleTok::OtherText].
pub open spec fn starts_special(s: Seq<char>, i: int) -> bool {
    let c = s[i];
    c == '\r' || c == '\n' || c == '\\' || c == '[' || c == ']' || c == '{' || c == '}' || c == '#'
        || (c == 'r' && char_at(s, i + 1) == Some('{'))
}

/// The number of consecutive characters of `s` from `a` on that start no special token.
pub open spec fn text_run_len(s: Seq<char>, a: int) -> nat
    decreases s.len() - a,
{
    if 0 <= a < s.len() && !starts_special(s, a) {
        1 + text_run_len(s, a + 1)
    } else {
        0
    }
}

/// The unit that starts at character `a` of `s`, and the index just after it.
pub open spec fn simple_token_at(s: Seq<char>, a: int) -> (SimpleTokKind, int) {
    let c = s[a];
    if c == '\r' {
        (SimpleTokKind::Newline, if char_at(s, a + 1) == Some('\n') {
            a + 2
        } else {
            a + 1
        })
    } else if c == '\n' {
        (SimpleTokKind::Newline, a + 1)
    } else if c == '\\' {
        match escapable_of(char_at(s, a + 1), char_at(s, a + 2)) {
            Some((e, m)) => (SimpleTokKind::Escaped(e), a + 1 + m),
            None => (SimpleTokKind::Backslash, a + 1),
        }
    } else if c == '[' {
        (SimpleTokKind::CodeOpen(run_len(s, a + 1, '#') as usize), a + 1 + run_len(s, a + 1, '#'))
    } else if c == '{' {
        (SimpleTokKind::ScopeOpen(run_len(s, a + 1, '#') as usize), a + 1 + run_len(s, a + 1, '#'))
    } else if c == 'r' && char_at(s, a + 1) == Some('{') {
        (
            SimpleTokKind::RawScopeOpen(run_len(s, a + 2, '#') as usize),
            a + 2 + run_len(s, a + 2, '#'),
        )
    } else if c == '#' {
        let k = run_len(s, a, '#');
        if char_at(s, a + k) == Some(']') {
            (SimpleTokKind::CodeClose(k as usize), a + k + 1)
        } else if char_at(s, a + k) == Some('}') {
            (SimpleTokKind::ScopeClose(k as usize), a + k + 1)
        } else {
            (SimpleTokKind::Hashes(k as usize), a + k)
        }
    } else if c == ']' {
        (SimpleTokKind::CodeClose(0), a + 1)
    } else if c == '}' {
        (SimpleTokKind::ScopeClose(0), a + 1)
    } else {
        (SimpleTokKind::OtherText, a + text_run_len(s, a))
    }
}

/// The units of `s` from character `a` on: (kind, start, end) for each.
pub open spec fn simple_tokens_from(s: Seq<char>, a: int) -> Seq<(SimpleTokKind, int, int)>
    decreases s.len() - a,
{
    if 0 <= a < s.len() {
        let (k, e) = simple_token_at(s, a);
        if a < e <= s.len() {
            seq![(k, a, e)] + simple_tokens_from(s, e)
        } else {
            Seq::empty()
        }
    } else {
        Seq::empty()
    }
}

proof fn lemma_hash_run(s: Seq<char>, a: int)
    requires
        0 <= a <= s.len(),
    ensures
        a + run_len(s, a, '#') <= s.len(),
        forall|i: int| a <= i < a + run_len(s, a, '#') ==> s[i] == '#',
        a + run_len(s, a, '#') < s.len() ==> s[a + run_len(s, a, '#')] != '#',
    decreases s.len() - a,
{
    if a < s.len() && s[a] == '#' {
        lemma_hash_run(s, a + 1);
    }
}

proof fn lemma_text_run(s: Seq<char>, a: int)
    requires
        0 <= a <= s.len(),
    ensures
        a + text_run_len(s, a) <= s.len(),
        forall|i: int| a <= i < a + text_run_len(s, a) ==> !starts_special(s, i),
        a + text_run_len(s, a) < s.len() ==> starts_special(s, a + text_run_len(s, a)),
    decreases s.len() - a,
{
    if a < s.len() && !starts_special(s, a) {
        lemma_text_run(s, a + 1);
    }
}

/// Every unit of `s` is non-empty and ends within `s`.
pub proof fn lemma_simple_token_at_progress(s: Seq<char>, a: int)
    requires
        0 <= a < s.len(),
    ensures
        a < simple_token_at(s, a).1 <= s.len(),
{
    lemma_hash_run(s, a);
    lemma_hash_run(s, a + 1);
    if a + 2 <= s.len() {
        lemma_hash_run(s, a + 2);
    }
    lemma_text_run(s, a);
}

/// The units of `s` from `a` on are the unit at `a` followed by the units after it.
pub proof fn lemma_simple_tokens_from_unfold(s: Seq<char>, a: int)
    requires
        0 <= a < s.len(),
    ensures
        simple_tokens_from(s, a) == seq![(simple_token_at(s, a).0, a, simple_token_at(s, a).1)]
            + simple_tokens_from(s, simple_token_at(s, a).1),
{
    lemma_simple_token_at_progress(s, a);
}

impl SimpleTok {
    /// What the unit is, without its span.
    pub open spec fn kind(self) -> SimpleTokKind {
        match self {
            SimpleTok::Newline(_) => SimpleTokKind::Newline,
            SimpleTok::Escaped(_, e) => SimpleTokKind::Escaped(e),
            SimpleTok::Backslash(_) => SimpleTokKind::Backslash,
            SimpleTok::CodeOpen(_, n) => SimpleTokKind::CodeOpen(n),
            SimpleTok::CodeClose(_, n) => SimpleTokKind::CodeClose(n),
            SimpleTok::ScopeOpen(_, n) => SimpleTokKind::ScopeOpen(n),
            SimpleTok::RawScopeOpen(_, n) => SimpleTokKind::RawScopeOpen(n),
            SimpleTok::ScopeClose(_, n) => SimpleTokKind::ScopeClose(n),
            SimpleTok::Hashes(_, n) => SimpleTokKind::Hashes(n),
            SimpleTok::OtherText(_) => SimpleTokKind::OtherText,
        }
    }

    /// The span the unit covers.
    pub open spec fn span(self) -> ParseSpan {
        match self {
            SimpleTok::Newline(s) => s,
            SimpleTok::Escaped(s, _) => s,
            SimpleTok::Backslash(s) => s,
            SimpleTok::CodeOpen(s, _) => s,
            SimpleTok::CodeClose(s, _) => s,
            SimpleTok::ScopeOpen(s, _) => s,
            SimpleTok::RawScopeOpen(s, _) => s,
            SimpleTok::ScopeClose(s, _) => s,
            SimpleTok::Hashes(s, _) => s,
            SimpleTok::OtherText(s) => s,
        }
    }

    /// The span the unit covers.
    pub fn token_span(&self) -> (r: ParseSpan)
        ensures
            r == self.span(),
    {
        match *self {
            SimpleTok::Newline(s) => s,
            SimpleTok::Escaped(s, _) => s,
            SimpleTok::Backslash(s) => s,
            SimpleTok::CodeOpen(s, _) => s,
            SimpleTok::CodeClose(s, _) => s,
            SimpleTok::ScopeOpen(s, _) => s,
            SimpleTok::RawScopeOpen(s, _) => s,
            SimpleTok::ScopeClose(s, _) => s,
            SimpleTok::Hashes(s, _) => s,
            SimpleTok::OtherText(s) => s,
        }
    }

    /// The unit of the given kind over the given span.
    pub fn from_kind(kind: SimpleTokKind, span: ParseSpan) -> (r: SimpleTok)
        ensures
            r.kind() == kind,
            r.span() == span,
    {
        match kind {
            SimpleTokKind::Newline => SimpleTok::Newline(span),
            SimpleTokKind::Escaped(e) => SimpleTok::Escaped(span, e),
            SimpleTokKind::Backslash => SimpleTok::Backslash(span),
            SimpleTokKind::CodeOpen(n) => SimpleTok::CodeOpen(span, n),
            SimpleTokKind::CodeClose(n) => SimpleTok::CodeClose(span, n),
            SimpleTokKind::ScopeOpen(n) => SimpleTok::ScopeOpen(span, n),
            SimpleTokKind::RawScopeOpen(n) => SimpleTok::RawScopeOpen(span, n),
            SimpleTokKind::ScopeClose(n) => SimpleTok::ScopeClose(span, n),
            SimpleTokKind::Hashes(n) => SimpleTok::Hashes(span, n),
            SimpleTokKind::OtherText => SimpleTok::OtherText(span),
        }
    }

    /// The text of the document that the unit covers.
    pub open spec fn text(self, data: Seq<char>) -> Seq<char> {
        span_text(data, self.span())
    }

    /// The text of the document that the unit covers.
    pub fn stringify<'a>(&self, data: &'a str) -> (r: &'a str)
        requires
            self.span().start.char_ofs <= self.span().end.char_ofs <= data@.len(),
        ensures
            r@ == self.text(data@),
    {
        let span = self.token_span();
        data.substring_char(span.start.char_ofs, span.end.char_ofs)
    }
}

/// The number of consecutive `#` characters in `chars` from index `a`.
fn count_hashes(chars: &Vec<char>, a: usize) -> (n: usize)
    requires
        a <= chars@.len(),
    ensures
        n == run_len(chars@, a as int, '#'),
{
    proof {
        lemma_hash_run(chars@, a as int);
    }
    let mut i = a;
    while i < chars.len() && chars[i] == '#'
        invariant
            a <= i <= chars@.len(),
            run_len(chars@, a as int, '#') == (i - a) + run_len(chars@, i as int, '#'),
        decreases chars@.len() - i,
    {
        i = i + 1;
    }
    i - a
}

/// Whether character `i` of `chars` starts a special unit.
fn is_special_at(chars: &Vec<char>, i: usize) -> (r: bool)
    requires
        i < chars@.len(),
    ensures
        r == starts_special(chars@, i as int),
{
    let c = chars[i];
    c == '\r' || c == '\n' || c == '\\' || c == '[' || c == ']' || c == '{' || c == '}' || c == '#'
        || (c == 'r' && i < chars.len() - 1 && chars[i + 1] == '{')
}

/// The unit over characters `a` to `b` of `chars`, with its end position.
fn make_unit(chars: &Vec<char>, a: usize, pa: LexPosn, b: usize, kind: SimpleTokKind) -> (r: (
    usize,
    LexPosn,
    SimpleTok,
))
    requires
        a <= b <= chars@.len(),
        positions_fit(chars@),
        pa.is_at(chars@, a as int),
    ensures
        r.0 == b,
        r.1.is_at(chars@, b as int),
        r.2.kind() == kind,
        r.2.span().covers(0, chars@, a as int, b as int),
{
    let mut i = a;
    let mut q = pa;
    while i < b
        invariant
            a <= i <= b <= chars@.len(),
            positions_fit(chars@),
            q.is_at(chars@, i as int),
        decreases b - i,
    {
        q = advance_posn(chars, i, q);
        i = i + 1;
    }
    (b, q, SimpleTok::from_kind(kind, ParseSpan::from_lex(0, pa, q)))
}

impl SimpleTok {
    /// Lexes the unit at character `start` of `chars` if that character starts a special unit.
    pub fn parse_special(chars: &Vec<char>, start: usize, start_posn: LexPosn) -> (r: Option<
        (usize, LexPosn, SimpleTok),
    >)
        requires
            start < chars@.len(),
            positions_fit(chars@),
            start_posn.is_at(chars@, start as int),
        ensures
            r is Some <==> starts_special(chars@, start as int),
            r matches Some((e, p, t)) ==> {
                &&& (t.kind(), e as int) == simple_token_at(chars@, start as int)
                &&& p.is_at(chars@, e as int)
                &&& t.span().covers(0, chars@, start as int, e as int)
            },
    {
        let ghost s = chars@;
        proof {
            crate::span::lemma_positions_fit(s, s.len() as int);
            lemma_hash_run(s, start as int);
            lemma_hash_run(s, start + 1);
            if start + 2 <= s.len() {
                lemma_hash_run(s, start + 2);
            }
        }
        let c = chars[start];
        if c == '\r' {
            if start < chars.len() - 1 && chars[start + 1] == '\n' {
                Some(make_unit(chars, start, start_posn, start + 2, SimpleTokKind::Newline))
            } else {
                Some(make_unit(chars, start, start_posn, start + 1, SimpleTokKind::Newline))
            }
        } else if c == '\n' {
            Some(make_unit(chars, start, start_posn, start + 1, SimpleTokKind::Newline))
        } else if c == '\\' {
            match Escapable::try_extract(chars, start + 1) {
                Some((e, m)) => Some(
                    make_unit(chars, start, start_posn, start + 1 + m, SimpleTokKind::Escaped(e)),
                ),
                None => Some(make_unit(chars, start, start_posn, start + 1, SimpleTokKind::Backslash)),
            }
        } else if c == '[' {
            let k = count_hashes(chars, start + 1);
            Some(make_unit(chars, start, start_posn, start + 1 + k, SimpleTokKind::CodeOpen(k)))
        } else if c == '{' {
            let k = count_hashes(chars, start + 1);
            Some(make_unit(chars, start, start_posn, start + 1 + k, SimpleTokKind::ScopeOpen(k)))
        } else if c == 'r' && start < chars.len() - 1 && chars[start + 1] == '{' {
            let k = count_hashes(chars, start + 2);
            Some(make_unit(chars, start, start_posn, start + 2 + k, SimpleTokKind::RawScopeOpen(k)))
        } else if c == '#' {
            let k = count_hashes(chars, start);
            let after = start + k;
            if after < chars.len() && chars[after] == ']' {
                Some(make_unit(chars, start, start_posn, after + 1, SimpleTokKind::CodeClose(k)))
            } else if after < chars.len() && chars[after] == '}' {
                Some(make_unit(chars, start, start_posn, after + 1, SimpleTokKind::ScopeClose(k)))
            } else {
                Some(make_unit(chars, start, start_posn, after, SimpleTokKind::Hashes(k)))
            }
        } else if c == ']' {
            Some(make_unit(chars, start, start_posn, start + 1, SimpleTokKind::CodeClose(0)))
        } else if c == '}' {
            Some(make_unit(chars, start, start_posn, start + 1, SimpleTokKind::ScopeClose(0)))
        } else {
            None
        }
    }

    /// Lexes a run of text at character `start` of `chars`: the characters up to the next one that
    /// starts a special unit. Returns `None` where `start` itself starts one.
    pub fn parse_other(chars: &Vec<char>, start: usize, start_posn: LexPosn) -> (r: Option<
        (usize, LexPosn, SimpleTok),
    >)
        requires
            start < chars@.len(),
            positions_fit(chars@),
            start_posn.is_at(chars@, start as int),
        ensures
            r is Some <==> !starts_special(chars@, start as int),
            r matches Some((e, p, t)) ==> {
                &&& (t.kind(), e as int) == simple_token_at(chars@, start as int)
                &&& p.is_at(chars@, e as int)
                &&& t.span().covers(0, chars@, start as int, e as int)
            },
    {
        proof {
            lemma_text_run(chars@, start as int);
        }
        let mut end = start;
        while end < chars.len() && !is_special_at(chars, end)
            invariant
                start <= end <= chars@.len(),
                text_run_len(chars@, start as int) == (end - start) + text_run_len(
                    chars@,
                    end as int,
                ),
            decreases chars@.len() - end,
        {
            end = end + 1;
        }
        if start == end {
            None
        } else {
            Some(make_unit(chars, start, start_posn, end, SimpleTokKind::OtherText))
        }
    }
}

/// The units of `s`, in order, as the spans they cover and their kinds.
pub open spec fn simple_lexed_as(r: Seq<SimpleTok>, s: Seq<char>) -> bool {
    let t = simple_tokens_from(s, 0);
    &&& r.len() == t.len()
    &&& forall|j: int|
        0 <= j < t.len() ==> {
            &&& (#[trigger] r[j]).kind() == t[j].0
            &&& r[j].span().covers(0, s, t[j].1, t[j].2)
        }
}

/// Splits the whole of `data` into units.
pub fn lex_simple(data: &str) -> (r: Vec<SimpleTok>)
    requires
        positions_fit(data@),
    ensures
        simple_lexed_as(r@, data@),
{
    let chars = str_to_chars(data);
    let ghost s = chars@;
    let ghost t = simple_tokens_from(s, 0);
    let mut toks: Vec<SimpleTok> = Vec::new();
    let mut i: usize = 0;
    let mut p = LexPosn::start();
    while i < chars.len()
        invariant
            s == chars@,
            t == simple_tokens_from(s, 0),
            positions_fit(s),
            0 <= i <= s.len(),
            p.is_at(s, i as int),
            toks@.len() <= t.len(),
            simple_tokens_from(s, i as int) == t.subrange(toks@.len() as int, t.len() as int),
            forall|j: int|
                0 <= j < toks@.len() ==> {
                    &&& (#[trigger] toks@[j]).kind() == t[j].0
                    &&& toks@[j].span().covers(0, s, t[j].1, t[j].2)
                },
        decreases s.len() - i,
    {
        proof {
            lemma_simple_tokens_from_unfold(s, i as int);
            lemma_simple_token_at_progress(s, i as int);
        }
        let ghost k = toks@.len();
        let step = match SimpleTok::parse_special(&chars, i, p) {
            Some(x) => x,
            None => match SimpleTok::parse_other(&chars, i, p) {
                Some(x) => x,
                None => {
                    proof {
                        assert(false);
                    }
                    (i, p, SimpleTok::Newline(ParseSpan::from_lex(0, p, p)))
                },
            },
        };
        let (e, pe, tok) = step;
        proof {
            assert(simple_tokens_from(s, i as int).len() > 0);
            assert(k < t.len());
            assert(t.subrange(k as int, t.len() as int)[0] == t[k as int]);
            assert(t.subrange((k + 1) as int, t.len() as int) =~= t.subrange(
                k as int,
                t.len() as int,
            ).drop_first());
            assert(simple_tokens_from(s, e as int) =~= simple_tokens_from(s, i as int).drop_first());
        }
        toks.push(tok);
        i = e;
        p = pe;
    }
    proof {
        assert(t.subrange(toks@.len() as int, t.len() as int).len() == 0);
    }
    toks
}


/// The units of `s` from `a` on tile characters `a` to the end of `s`: each is the unit that
/// [simple_token_at] finds at its start, each is non-empty, and each starts where the one before it ends.
pub proof fn lemma_simple_tokens_from_tile(s: Seq<char>, a: int)
    requires
        0 <= a <= s.len(),
    ensures
        ({
            let t = simple_tokens_from(s, a);
            &&& a < s.len() ==> t.len() > 0 && t[0].1 == a && t.last().2 == s.len()
            &&& a == s.len() ==> t.len() == 0
            &&& forall|j: int|
                0 <= j < t.len() ==> {
                    &&& a <= #[trigger] t[j].1 < t[j].2 <= s.len()
                    &&& (t[j].0, t[j].2) == simple_token_at(s, t[j].1)
                }
            &&& forall|j: int| 0 <= j < t.len() - 1 ==> #[trigger] t[j].2 == t[j + 1].1
        }),
    decreases s.len() - a,
{
    if a < s.len() {
        lemma_simple_tokens_from_unfold(s, a);
        lemma_simple_token_at_progress(s, a);
        let e = simple_token_at(s, a).1;
        lemma_simple_tokens_from_tile(s, e);
        let t = simple_tokens_from(s, a);
        let rest = simple_tokens_from(s, e);
        assert forall|j: int| 0 <= j < t.len() - 1 implies #[trigger] t[j].2 == t[j + 1].1 by {
            if j > 0 {
                assert(t[j] == rest[j - 1]);
                assert(t[j + 1] == rest[j]);
            }
        }
        assert forall|j: int| 0 <= j < t.len() implies {
            &&& a <= #[trigger] t[j].1 < t[j].2 <= s.len()
            &&& (t[j].0, t[j].2) == simple_token_at(s, t[j].1)
        } by {
            if j > 0 {
                assert(t[j] == rest[j - 1]);
            }
        }
    }
}

/// The units of a document cover it: in order, each non-empty, each starting where the one before it
/// ends, from the first character to the last.
pub proof fn lemma_lex_simple_covers_input(s: Seq<char>)
    ensures
        ({
            let t = simple_tokens_from(s, 0);
            &&& s.len() == 0 <==> t.len() == 0
            &&& t.len() > 0 ==> t[0].1 == 0 && t.last().2 == s.len()
            &&& forall|j: int| 0 <= j < t.len() ==> 0 <= #[trigger] t[j].1 < t[j].2 <= s.len()
            &&& forall|j: int| 0 <= j < t.len() - 1 ==> #[trigger] t[j].2 == t[j + 1].1
        }),
{
    lemma_simple_tokens_from_tile(s, 0);
}

/// A unit of text holds no newline character, nor any character that starts another unit.
pub proof fn lemma_text_unit_has_no_special(s: Seq<char>, a: int)
    requires
        0 <= a < s.len(),
        simple_token_at(s, a).0 == SimpleTokKind::OtherText,
    ensures
        forall|i: int| a <= i < simple_token_at(s, a).1 ==> !starts_special(s, i),
        forall|i: int| a <= i < simple_token_at(s, a).1 ==> s[i] != '\n' && s[i] != '\r',
{
    lemma_text_run(s, a);
    assert forall|i: int| a <= i < simple_token_at(s, a).1 implies s[i] != '\n' && s[i] != '\r' by {
        assert(!starts_special(s, i));
    }
}

} // verus!
