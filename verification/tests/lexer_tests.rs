use turnip_text::lexer::{lex, lex_tokens, Escapable, LexedStrIterator, LexerPrefixSeq, TTToken};
use turnip_text::line_col::LineColumnChar;
use turnip_text::span::{ParseContext, ParsePosn, ParseSpan};

fn posn(byte_ofs: usize, char_ofs: usize, line: usize, column: usize) -> ParsePosn {
    ParsePosn { byte_ofs, char_ofs, line, column }
}

fn span(start: ParsePosn, end: ParsePosn) -> ParseSpan {
    ParseSpan { file_idx: 0, start, end }
}

#[test]
fn lex_words_and_code() {
    let toks = lex_tokens(0, "a [b]");
    assert_eq!(
        toks,
        vec![
            TTToken::OtherText(span(posn(0, 0, 1, 1), posn(1, 1, 1, 2))),
            TTToken::Whitespace(span(posn(1, 1, 1, 2), posn(2, 2, 1, 3))),
            TTToken::CodeOpen(span(posn(2, 2, 1, 3), posn(3, 3, 1, 4)), 1),
            TTToken::OtherText(span(posn(3, 3, 1, 4), posn(4, 4, 1, 5))),
            TTToken::CodeClose(span(posn(4, 4, 1, 5), posn(5, 5, 1, 6)), 1),
            TTToken::EOF(span(posn(5, 5, 1, 6), posn(5, 5, 1, 6))),
        ]
    );
}

#[test]
fn lex_empty_document_is_only_eof() {
    let toks = lex_tokens(3, "");
    assert_eq!(toks.len(), 1);
    assert_eq!(toks[0], TTToken::EOF(ParseSpan { file_idx: 3, start: posn(0, 0, 0, 0), end: posn(0, 0, 0, 0) }));
}

#[test]
fn lex_newlines_move_to_the_next_line() {
    let toks = lex_tokens(0, "a\r\nb\rc\nd");
    let kinds: Vec<bool> = toks.iter().map(|t| matches!(t, TTToken::Newline(_))).collect();
    assert_eq!(kinds, vec![false, true, false, true, false, true, false, false]);
    assert_eq!(toks[1].token_span().start.byte_ofs, 1);
    assert_eq!(toks[1].token_span().end.byte_ofs, 3);
    assert_eq!(toks[6].token_span().start.line, 3);
    match toks[7] {
        TTToken::EOF(s) => assert_eq!(s.start.byte_ofs, 8),
        other => panic!("expected EOF, got {:?}", other),
    }
}

#[test]
fn lex_counts_bytes_of_wide_characters() {
    let toks = lex_tokens(0, "é[");
    assert_eq!(toks[0].token_span().end, posn(2, 1, 1, 2));
    assert_eq!(toks[1], TTToken::CodeOpen(span(posn(2, 1, 1, 2), posn(3, 2, 1, 3)), 1));
}

#[test]
fn lex_scopes_raw_scopes_and_hashes() {
    let toks = lex_tokens(0, "{}x##{y}##}#");
    let rough: Vec<String> = toks
        .iter()
        .map(|t| match t {
            TTToken::ScopeOpen(_) => "{".to_string(),
            TTToken::ScopeClose(_) => "}".to_string(),
            TTToken::RawScopeOpen(_, n) => format!("raw_open{}", n),
            TTToken::RawScopeClose(_, n) => format!("raw_close{}", n),
            TTToken::Hashes(_, n) => format!("hashes{}", n),
            TTToken::OtherText(_) => "text".to_string(),
            TTToken::EOF(_) => "eof".to_string(),
            other => format!("{:?}", other),
        })
        .collect();
    assert_eq!(rough, vec!["{", "}", "text", "raw_open2", "text", "raw_close2", "raw_close1", "eof"]);
}

#[test]
fn lex_hashes_without_scope() {
    let toks = lex_tokens(0, "### x");
    assert!(matches!(toks[0], TTToken::Hashes(_, 3)));
}

#[test]
fn lex_escapes_and_lone_backslash() {
    let toks = lex_tokens(0, "\\[\\\\\\\n\\a");
    assert!(matches!(toks[0], TTToken::Escaped(_, Escapable::SqrOpen)));
    assert!(matches!(toks[1], TTToken::Escaped(_, Escapable::Backslash)));
    assert!(matches!(toks[2], TTToken::Escaped(_, Escapable::Newline)));
    assert!(matches!(toks[3], TTToken::Backslash(_)));
    assert!(matches!(toks[4], TTToken::OtherText(_)));
}

#[test]
fn lex_unicode_whitespace_is_whitespace() {
    let toks = lex_tokens(0, "a\u{A0}\u{2003}b");
    assert_eq!(toks.len(), 4);
    assert!(matches!(toks[0], TTToken::OtherText(_)));
    assert!(matches!(toks[1], TTToken::Whitespace(_)));
    assert_eq!(toks[1].token_span().end.char_ofs, 3);
    assert!(matches!(toks[2], TTToken::OtherText(_)));
}

#[test]
fn lex_iterator_hands_out_tokens_then_stops() {
    let mut it = lex(0, "x");
    assert!(matches!(it.next(), Some(Ok(TTToken::OtherText(_)))));
    assert!(matches!(it.next(), Some(Ok(TTToken::EOF(_)))));
    assert!(it.next().is_none());
    assert!(matches!(it, LexedStrIterator::Exhausted));
    assert!(it.next().is_none());
}

#[test]
fn stringify_raw_and_escaped() {
    let data = "\\[ab\\\n";
    let toks = lex_tokens(0, data);
    assert_eq!(toks[0].stringify_raw(data), "\\[");
    assert_eq!(toks[0].stringify_escaped(data), "[");
    assert_eq!(toks[1].stringify_raw(data), "ab");
    assert_eq!(toks[1].stringify_escaped(data), "ab");
    assert_eq!(toks[2].stringify_raw(data), "\\\n");
    assert_eq!(toks[3].stringify_raw(data), "");
}

#[test]
fn escapable_stringify() {
    assert_eq!(Escapable::Newline.stringify(), "");
    assert_eq!(Escapable::Backslash.stringify(), "\\");
    assert_eq!(Escapable::Hash.stringify(), "#");
}

#[test]
fn prefix_sequences() {
    assert_eq!(LexerPrefixSeq::try_from_char2('\r', Some('\n')), Some((LexerPrefixSeq::CRLF, 2)));
    assert_eq!(LexerPrefixSeq::try_from_char2('\r', None), Some((LexerPrefixSeq::CarriageReturn, 1)));
    assert_eq!(LexerPrefixSeq::try_from_char2('\n', Some('\r')), Some((LexerPrefixSeq::LineFeed, 1)));
    assert_eq!(LexerPrefixSeq::try_from_char2('\t', None), Some((LexerPrefixSeq::Whitespace, 1)));
    assert_eq!(LexerPrefixSeq::try_from_char2('#', Some('{')), Some((LexerPrefixSeq::Hash, 1)));
    assert_eq!(LexerPrefixSeq::try_from_char2('a', None), None);
}

#[test]
fn line_column_char_advances() {
    let start = LineColumnChar::default();
    assert_eq!((start.line(), start.column(), start.char_ofs()), (1, 1, 0));
    let p = start.advance_cols(3, 2);
    assert_eq!((p.line(), p.column(), p.char_ofs()), (1, 3, 2));
    let q = p.advance_line(1);
    assert_eq!((q.line(), q.column(), q.char_ofs()), (2, 1, 3));
}

#[test]
fn span_combine_and_context() {
    let a = span(posn(0, 0, 1, 1), posn(2, 2, 1, 3));
    let b = span(posn(5, 5, 1, 6), posn(7, 7, 1, 8));
    let other_file = ParseSpan { file_idx: 1, ..b };
    assert_eq!(a.combine(&b), span(posn(0, 0, 1, 1), posn(7, 7, 1, 8)));
    assert_eq!(a.byte_range(), (0, 2));
    let mut ctx = ParseContext::new(a, a);
    assert!(ctx.try_extend(&b));
    assert_eq!(ctx.last_tok(), b);
    assert_eq!(ctx.full_span(), span(posn(0, 0, 1, 1), posn(7, 7, 1, 8)));
    assert!(!ctx.try_extend(&other_file));
    assert_eq!(ctx.last_tok(), b);
    let mut ctx2 = ParseContext::new(a, a);
    assert!(ctx2.try_combine(ParseContext::new(b, b)));
    assert_eq!(ctx2, ctx);
    assert!(!ctx2.try_combine(ParseContext::new(other_file, other_file)));
}

#[test]
fn lex_ascii_whitespace_kinds() {
    let toks = lex_tokens(0, "a\t\x0B\x0Cb");
    assert_eq!(toks.len(), 4);
    assert!(matches!(toks[1], TTToken::Whitespace(_)));
    assert_eq!(toks[1].token_span().end.char_ofs, 4);
}

#[test]
fn eof_sits_empty_at_the_end_of_the_last_token() {
    let toks = lex_tokens(2, "ab\n");
    let last = toks[toks.len() - 1];
    let before = toks[toks.len() - 2];
    assert!(matches!(last, TTToken::EOF(_)));
    assert!(toks[..toks.len() - 1].iter().all(|t| !matches!(t, TTToken::EOF(_))));
    let s = last.token_span();
    assert_eq!(s.file_idx, 2);
    assert_eq!(s.start, s.end);
    assert_eq!(s.start, before.token_span().end);
    assert_eq!(s.start, posn(3, 3, 2, 1));
}

#[test]
fn text_runs_up_to_the_first_special_character() {
    let toks = lex_tokens(0, "ab]cd e#f");
    assert_eq!(toks[0], TTToken::OtherText(span(posn(0, 0, 1, 1), posn(2, 2, 1, 3))));
    assert_eq!(toks[2], TTToken::OtherText(span(posn(3, 3, 1, 4), posn(5, 5, 1, 6))));
    assert_eq!(toks[4], TTToken::OtherText(span(posn(6, 6, 1, 7), posn(7, 7, 1, 8))));
    assert_eq!(toks[6], TTToken::OtherText(span(posn(8, 8, 1, 9), posn(9, 9, 1, 10))));
}

#[test]
fn stringify_slices_by_byte_offsets() {
    let data = "é[x]";
    // Bytes 2..3 are the '[' after the two-byte 'é'; the character offsets here are not consulted.
    let tok = TTToken::CodeOpen(span(posn(2, 0, 9, 9), posn(3, 0, 9, 9)), 1);
    assert_eq!(tok.stringify_raw(data), "[");
    assert_eq!(tok.stringify_escaped(data), "[");
    let text = TTToken::OtherText(span(posn(0, 7, 1, 1), posn(2, 7, 1, 2)));
    assert_eq!(text.stringify_escaped(data), "é");
}
