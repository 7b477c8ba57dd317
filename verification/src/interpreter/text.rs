//! Merging of text and whitespace tokens into runs of text, in inline mode.
use vstd::prelude::*;

use crate::lexer::{bytes_within, TTToken};
use crate::span::ParseSpan;

verus! {

/// The text being built from the text and whitespace tokens of a line.
///
/// Whitespace is held back in `pending_whitespace` until the next text: it goes into the text when
/// more text follows (`"the" + " " + "apple"`), and can be dropped when the line ends
/// (`"the" + " " + newline` gives `"the"`).
pub struct InlineTextState {
    pub text: String,
    pub pending_whitespace: Option<String>,
    /// The span of the last text or whitespace token taken in
    pub last_text_token_span: Option<ParseSpan>,
}

/// The value of an [InlineTextState].
pub struct TextView {
    pub text: Seq<char>,
    pub pending: Option<Seq<char>>,
    pub last: Option<ParseSpan>,
}

/// The characters of `w`, or none.
pub open spec fn opt_text(w: Option<Seq<char>>) -> Seq<char> {
    match w {
        Some(s) => s,
        None => Seq::empty(),
    }
}

/// A token that inline mode takes in as text: everything with a text of its own but newlines,
/// whitespace and the tokens that open or close something.
pub open spec fn is_text_token(tok: TTToken) -> bool {
    tok is Backslash || tok is OtherText || (tok is Escaped && !tok.is_any_newline())
}

/// `tok` can be turned into text against `data`.
pub open spec fn text_token_fits(tok: TTToken, data: Seq<char>) -> bool {
    !(tok is Backslash || tok is EOF || tok is Escaped) ==> bytes_within(data, tok.span())
}

/// No text, nothing pending, no last token.
pub open spec fn text_empty() -> TextView {
    TextView { text: Seq::empty(), pending: None, last: None }
}

/// Taking in a text token: the pending whitespace goes into the text, then the token's text.
pub open spec fn text_encounter_text(t: TextView, tok: TTToken, data: Seq<char>) -> TextView {
    TextView { text: t.text + opt_text(t.pending) + tok.escaped_text(data), pending: None, last: Some(tok.span()) }
}

/// Taking in a whitespace token: its text goes at the end of the pending whitespace.
pub open spec fn text_encounter_whitespace(t: TextView, tok: TTToken, data: Seq<char>) -> TextView {
    TextView { text: t.text, pending: Some(opt_text(t.pending) + tok.escaped_text(data)), last: Some(tok.span()) }
}

/// Taking out the text, with the pending whitespace at its end when `include_whitespace` holds (it is
/// dropped either way): a non-empty text comes out with the span of the last token taken in, and the
/// state starts afresh.
pub open spec fn text_flush(t: TextView, include_whitespace: bool) -> (TextView, Option<(Seq<char>, ParseSpan)>) {
    let s = if include_whitespace {
        t.text + opt_text(t.pending)
    } else {
        t.text
    };
    if s.len() > 0 {
        (text_empty(), Some((s, t.last->0)))
    } else {
        (TextView { text: Seq::empty(), pending: None, last: t.last }, None)
    }
}

impl TextView {
    /// Whenever there is text or pending whitespace, there is a last token.
    pub open spec fn wf(self) -> bool {
        (self.text.len() > 0 || self.pending is Some) ==> self.last is Some
    }
}

impl InlineTextState {
    /// The value of the state.
    pub open spec fn view(self) -> TextView {
        TextView {
            text: self.text@,
            pending: match self.pending_whitespace {
                Some(w) => Some(w@),
                None => None,
            },
            last: self.last_text_token_span,
        }
    }

    /// No text, and nothing pending.
    pub fn new() -> (r: Self)
        ensures
            r.view() == text_empty(),
    {
        InlineTextState { text: String::new(), pending_whitespace: None, last_text_token_span: None }
    }

    /// Starting with `text`, from the token at `text_span`.
    pub fn new_with_text(text: &str, text_span: ParseSpan) -> (r: Self)
        ensures
            r.view() == (TextView { text: text@, pending: None, last: Some(text_span) }),
    {
        InlineTextState {
            text: String::from_str(text),
            pending_whitespace: None,
            last_text_token_span: Some(text_span),
        }
    }

    /// Takes in a text token: the pending whitespace goes into the text, then the token's text.
    pub fn encounter_text(&mut self, tok: TTToken, data: &str)
        requires
            is_text_token(tok),
            text_token_fits(tok, data@),
        ensures
            final(self).view() == text_encounter_text(old(self).view(), tok, data@),
    {
        match self.pending_whitespace.take() {
            Some(w) => self.text.append(w.as_str()),
            None => {},
        }
        self.text.append(tok.stringify_escaped(data));
        self.last_text_token_span = Some(tok.token_span());
    }

    /// Takes in a whitespace token: its text goes at the end of the pending whitespace.
    pub fn encounter_whitespace(&mut self, tok: TTToken, data: &str)
        requires
            tok is Whitespace,
            bytes_within(data@, tok.span()),
        ensures
            final(self).view() == text_encounter_whitespace(old(self).view(), tok, data@),
    {
        let whitespace_content = tok.stringify_escaped(data);
        match self.pending_whitespace.take() {
            Some(w) => {
                let mut w = w;
                w.append(whitespace_content);
                self.pending_whitespace = Some(w);
            },
            None => {
                self.pending_whitespace = Some(String::from_str(whitespace_content));
            },
        }
        self.last_text_token_span = Some(tok.token_span());
    }

    /// Takes out the text, with the pending whitespace at its end when `include_whitespace` holds;
    /// the pending whitespace is dropped either way. When that text is not empty, returns it with the
    /// span of the last token taken in, and starts afresh.
    pub fn flush(&mut self, include_whitespace: bool) -> (r: Option<(String, ParseSpan)>)
        requires
            old(self).view().wf(),
        ensures
            final(self).view() == text_flush(old(self).view(), include_whitespace).0,
            r matches Some((s, span)) ==> text_flush(old(self).view(), include_whitespace).1 == Some((s@, span)),
            r is None ==> text_flush(old(self).view(), include_whitespace).1 is None,
    {
        match self.pending_whitespace.take() {
            Some(w) => {
                if include_whitespace {
                    self.text.append(w.as_str());
                }
            },
            None => {},
        }
        if self.text.as_str().is_empty() {
            proof {
                assert(self.text@ =~= Seq::<char>::empty());
            }
            None
        } else {
            let mut old_text = String::new();
            std::mem::swap(&mut old_text, &mut self.text);
            let span = match self.last_text_token_span.take() {
                Some(span) => span,
                None => {
                    proof {
                        assert(false);
                    }
                    return None;
                },
            };
            Some((old_text, span))
        }
    }
}

/// Text and whitespace merge as written, with each run of whitespace between two pieces of text
/// kept whole: after text `a`, whitespace `w` and text `b`, flushing gives `a + w + b`.
pub proof fn lemma_whitespace_between_text_kept(t: TextView, a: TTToken, w: TTToken, b: TTToken, data: Seq<char>)
    requires
        t == text_empty(),
        is_text_token(a),
        a.escaped_text(data).len() > 0,
        w is Whitespace,
        is_text_token(b),
    ensures
        ({
            let t3 = text_encounter_text(text_encounter_whitespace(text_encounter_text(t, a, data), w, data), b, data);
            text_flush(t3, false).1 == Some((a.escaped_text(data) + w.escaped_text(data) + b.escaped_text(data), b.span()))
        }),
{
    let t1 = text_encounter_text(t, a, data);
    assert(t1.text =~= a.escaped_text(data));
    let t2 = text_encounter_whitespace(t1, w, data);
    assert(opt_text(t2.pending) =~= w.escaped_text(data));
    let t3 = text_encounter_text(t2, b, data);
    assert(t3.text =~= a.escaped_text(data) + w.escaped_text(data) + b.escaped_text(data));
}

/// Whitespace at the end of a line is dropped: after text `a` and whitespace `w`, flushing without
/// whitespace gives just `a`.
pub proof fn lemma_trailing_whitespace_dropped(t: TextView, a: TTToken, w: TTToken, data: Seq<char>)
    requires
        t == text_empty(),
        is_text_token(a),
        a.escaped_text(data).len() > 0,
        w is Whitespace,
    ensures
        ({
            let t2 = text_encounter_whitespace(text_encounter_text(t, a, data), w, data);
            &&& text_flush(t2, false).1 == Some((a.escaped_text(data), w.span()))
            &&& text_flush(t2, false).0 == text_empty()
        }),
{
    let t1 = text_encounter_text(t, a, data);
    assert(t1.text =~= a.escaped_text(data));
}

} // verus!
