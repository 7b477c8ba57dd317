//! Inline mode: paragraphs and inline scopes, built of text, whitespace and inline elements; and
//! raw scopes, whose text is taken as written.
use vstd::prelude::*;

use crate::doc_segment::Header;
use crate::interpreter::doc::{
    EmittedElement, emitted_view,
    BlockElemView, DocElement, DocElementView, Inline, InlineElem, InlineElemView, InlineView, BlockElem,
    inlines_view, lemma_inlines_view_push, lemma_sentences_view_push, sentences_view,
};
use crate::interpreter::syntax::{BlockModeElem, InlineModeContext, TTError, TTSyntaxError};
use crate::interpreter::text::{
    InlineTextState, TextView, is_text_token, text_encounter_text, text_encounter_whitespace, text_flush,
    text_token_fits,
};
use crate::lexer::{bytes_within, Escapable, TTToken};
use crate::span::{ParseContext, ParseSpan};

use super::{ProcStatus, Processor, ProcessorView, StatusView};
use super::ambiguous_scope::{InlineAmbiguousView, InlineLevelAmbiguousScopeProcessor};
use super::code::{CodeProcessor, CodeView};

verus! {

/// Takes the tokens of a raw scope as written, up to a raw scope close with as many hashes as the
/// opening.
pub struct RawStringProcessor {
    pub ctx: ParseContext,
    pub n_closing: usize,
    pub raw_data: String,
}

/// The value of a [RawStringProcessor].
pub struct RawView {
    pub ctx: ParseContext,
    pub n_closing: usize,
    pub raw: Seq<char>,
}

/// A new raw-scope processor, opened by `n_opening` hashes at `start_span`.
pub open spec fn raw_new(start_span: ParseSpan, n_opening: usize) -> RawView {
    RawView { ctx: ParseContext::new_spec(start_span, start_span), n_closing: n_opening, raw: Seq::empty() }
}

/// A matching raw scope close ends the scope, which is emitted as raw text; EOF is an error; anything
/// else is taken as written.
pub open spec fn raw_step(v: RawView, tok: TTToken, data: Seq<char>) -> (RawView, Result<StatusView, TTError>) {
    match tok {
        TTToken::RawScopeClose(_, n) if n == v.n_closing => {
            let ctx = v.ctx.extended(tok.span());
            (
                RawView { ctx, raw: Seq::empty(), ..v },
                Ok(StatusView::Pop(Some((ctx, DocElementView::Inline(InlineElemView::Raw(v.raw)))))),
            )
        },
        TTToken::EOF(eof_span) => (
            v,
            Err(TTError::Syntax(TTSyntaxError::EndedInsideRawScope { raw_scope_start: v.ctx.first_tok, eof_span })),
        ),
        _ => (RawView { raw: v.raw + tok.raw_text(data), ..v }, Ok(StatusView::Continue)),
    }
}

impl RawStringProcessor {
    /// The value of the processor.
    pub open spec fn view(self) -> RawView {
        RawView { ctx: self.ctx, n_closing: self.n_closing, raw: self.raw_data@ }
    }

    /// A processor for a raw scope opened by `n_opening` hashes at `start_span`.
    pub fn new(start_span: ParseSpan, n_opening: usize) -> (r: Self)
        ensures
            r.view() == raw_new(start_span, n_opening),
    {
        RawStringProcessor { ctx: ParseContext::new(start_span, start_span), n_closing: n_opening, raw_data: String::new() }
    }

    /// Takes a token; see [raw_step].
    pub fn process_token(&mut self, tok: TTToken, data: &str) -> (r: Result<ProcStatus, TTError>)
        requires
            tok.raw_is_slice() ==> bytes_within(data@, tok.span()),
        ensures
            (final(self).view(), super::result_view(r)) == raw_step(old(self).view(), tok, data@),
    {
        match tok {
            TTToken::RawScopeClose(_, given_closing) if given_closing == self.n_closing => {
                self.ctx.try_extend(&tok.token_span());
                let mut raw = String::new();
                std::mem::swap(&mut raw, &mut self.raw_data);
                Ok(ProcStatus::Pop(Some((self.ctx, DocElement::Inline(InlineElem::Raw(raw))))))
            },
            TTToken::EOF(eof_span) => Err(
                TTError::Syntax(TTSyntaxError::EndedInsideRawScope { raw_scope_start: self.ctx.first_tok(), eof_span }),
            ),
            _ => {
                self.raw_data.append(tok.stringify_raw(data));
                Ok(ProcStatus::Continue)
            },
        }
    }
}

/// A paragraph being built: its finished sentences, and the current one.
pub struct ParagraphInlineMode {
    pub ctx: ParseContext,
    pub para: Vec<Vec<Inline>>,
    /// At the start of a line: nothing but whitespace since the last newline
    pub start_of_line: bool,
    pub current_sentence: Vec<Inline>,
}

/// An inline scope being built, known to be inline because content followed its opening on the same
/// line.
pub struct KnownInlineScopeInlineMode {
    /// Why the scope is in inline mode, if it is inside a paragraph or another inline scope
    pub preceding_inline: Option<InlineModeContext>,
    pub ctx: ParseContext,
    pub inline_scope: Vec<Inline>,
    /// At the start of the scope: nothing but whitespace since its opening
    pub start_of_scope: bool,
}

/// What an inline-mode processor builds.
pub enum InlineMode {
    Paragraph(ParagraphInlineMode),
    InlineScope(KnownInlineScopeInlineMode),
}

/// Inline mode: merges text and whitespace into text elements, and puts them and the other inline
/// elements into a paragraph or an inline scope.
pub struct InlineLevelProcessor {
    pub inner: InlineMode,
    pub current_building_text: InlineTextState,
}

/// The value of a [ParagraphInlineMode].
pub struct ParaView {
    pub ctx: ParseContext,
    pub para: Seq<Seq<InlineView>>,
    pub start_of_line: bool,
    pub sentence: Seq<InlineView>,
}

/// The value of a [KnownInlineScopeInlineMode].
pub struct ScopeView {
    pub preceding: Option<InlineModeContext>,
    pub ctx: ParseContext,
    pub inlines: Seq<InlineView>,
    pub start_of_scope: bool,
}

/// The value of an [InlineMode].
pub enum ModeView {
    Paragraph(ParaView),
    InlineScope(ScopeView),
}

/// The value of an [InlineLevelProcessor].
pub struct InlineLevelView {
    pub mode: ModeView,
    pub text: TextView,
}

/// Why this processor is in inline mode.
pub open spec fn inline_mode_ctx(m: ModeView) -> InlineModeContext {
    match m {
        ModeView::Paragraph(p) => InlineModeContext::Paragraph(p.ctx),
        ModeView::InlineScope(s) => InlineModeContext::Inlines { scope_start: s.ctx.first_tok },
    }
}

/// Whitespace is skipped at the start of a paragraph's line and at the start of an inline scope.
pub open spec fn ignore_whitespace(m: ModeView) -> bool {
    match m {
        ModeView::Paragraph(p) => p.start_of_line,
        ModeView::InlineScope(s) => s.start_of_scope,
    }
}

/// Content was seen: no longer at the start of the line or scope.
pub open spec fn on_content(m: ModeView) -> ModeView {
    match m {
        ModeView::Paragraph(p) => ModeView::Paragraph(ParaView { start_of_line: false, ..p }),
        ModeView::InlineScope(s) => ModeView::InlineScope(ScopeView { start_of_scope: false, ..s }),
    }
}

/// An inline element from the tokens of `ictx` goes at the end of the sentence or scope.
pub open spec fn on_inline(m: ModeView, inl: InlineView, ictx: ParseContext) -> ModeView {
    match m {
        ModeView::Paragraph(p) => ModeView::Paragraph(
            ParaView { ctx: p.ctx.combined(ictx), sentence: p.sentence.push(inl), ..p },
        ),
        ModeView::InlineScope(s) => ModeView::InlineScope(
            ScopeView { ctx: s.ctx.combined(ictx), inlines: s.inlines.push(inl), ..s },
        ),
    }
}

/// A non-empty current sentence goes into the paragraph, and a new one starts.
pub open spec fn fold_sentence(p: ParaView) -> ParaView {
    if p.sentence.len() > 0 {
        ParaView { para: p.para.push(p.sentence), sentence: Seq::empty(), ..p }
    } else {
        p
    }
}

/// The paragraph after it was handed on.
pub open spec fn para_taken(p: ParaView) -> ParaView {
    ParaView { para: Seq::empty(), ..p }
}

/// The paragraph, as an element emitted with its context.
pub open spec fn para_emitted(p: ParaView) -> Option<(ParseContext, DocElementView)> {
    Some((p.ctx, DocElementView::Block(BlockElemView::Para(p.para))))
}

/// An escaped newline continues the sentence on the next line, whose leading whitespace is skipped.
pub open spec fn on_escaped_newline(m: ModeView, tok: TTToken) -> (ModeView, Result<StatusView, TTError>) {
    match m {
        ModeView::Paragraph(p) => (
            ModeView::Paragraph(ParaView { ctx: p.ctx.extended(tok.span()), start_of_line: true, ..p }),
            Ok(StatusView::Continue),
        ),
        ModeView::InlineScope(s) => (
            ModeView::InlineScope(ScopeView { start_of_scope: true, ..s }),
            Ok(StatusView::Continue),
        ),
    }
}

/// A newline ends the sentence; a second one in a row (a blank line) ends the paragraph, which hands
/// the newline on. A newline in an inline scope is an error.
pub open spec fn on_newline(m: ModeView, tok: TTToken) -> (ModeView, Result<StatusView, TTError>) {
    match m {
        ModeView::Paragraph(p) => {
            let p2 = fold_sentence(ParaView { ctx: p.ctx.extended(tok.span()), ..p });
            if p.start_of_line {
                (ModeView::Paragraph(para_taken(p2)), Ok(StatusView::PopAndReprocessToken(para_emitted(p2))))
            } else {
                (ModeView::Paragraph(ParaView { start_of_line: true, ..p2 }), Ok(StatusView::Continue))
            }
        },
        ModeView::InlineScope(s) => (
            m,
            Err(TTError::Syntax(TTSyntaxError::SentenceBreakInInlineScope { scope_start: s.ctx.first_tok, sentence_break: tok.span() })),
        ),
    }
}

/// EOF ends the paragraph, which hands it on; in an inline scope it is an error.
pub open spec fn on_eof(m: ModeView, tok: TTToken) -> (ModeView, Result<StatusView, TTError>) {
    match m {
        ModeView::Paragraph(p) => {
            let p1 = ParaView { ctx: p.ctx.extended(tok.span()), ..p };
            let p2 = if !p.start_of_line {
                fold_sentence(p1)
            } else {
                p1
            };
            (ModeView::Paragraph(para_taken(p2)), Ok(StatusView::PopAndReprocessToken(para_emitted(p2))))
        },
        ModeView::InlineScope(s) => (
            m,
            Err(TTError::Syntax(TTSyntaxError::EndedInsideScope { scope_start: s.ctx.first_tok, eof_span: tok.span() })),
        ),
    }
}

/// A new inline-level scope, not yet known to be inline, with the given context.
pub open spec fn inline_ambiguous_new(preceding: InlineModeContext, start_of_line: bool, start_span: ParseSpan) -> ProcessorView {
    ProcessorView::InlineLevelAmbiguousScope(
        InlineAmbiguousView::Undecided { preceding_inline: preceding, start_of_line, scope_ctx: ParseContext::new_spec(start_span, start_span) },
    )
}

/// A scope open starts an inner scope, which must turn out to be inline.
pub open spec fn on_open_scope(m: ModeView, tok: TTToken) -> (ModeView, Result<StatusView, TTError>) {
    match m {
        ModeView::Paragraph(p) => (
            m,
            Ok(StatusView::PushProcessor(inline_ambiguous_new(InlineModeContext::Paragraph(p.ctx), p.start_of_line, tok.span()))),
        ),
        ModeView::InlineScope(s) => {
            let new_ctx = match s.preceding {
                Some(InlineModeContext::Paragraph(pp)) => InlineModeContext::Paragraph(pp.combined(s.ctx)),
                _ => InlineModeContext::Inlines { scope_start: s.ctx.first_tok },
            };
            (m, Ok(StatusView::PushProcessor(inline_ambiguous_new(new_ctx, false, tok.span()))))
        },
    }
}

/// A scope close at the start of a paragraph's line is for an enclosing block scope: the paragraph
/// ends and hands it on. Elsewhere in a paragraph it is an error. It ends an inline scope, which is
/// emitted.
pub open spec fn on_close_scope(m: ModeView, tok: TTToken) -> (ModeView, Result<StatusView, TTError>) {
    match m {
        ModeView::Paragraph(p) => if p.start_of_line {
            let p1 = ParaView { ctx: p.ctx.extended(tok.span()), ..p };
            (ModeView::Paragraph(para_taken(p1)), Ok(StatusView::PopAndReprocessToken(para_emitted(p1))))
        } else {
            (m, Err(TTError::Syntax(TTSyntaxError::InlineScopeCloseOutsideScope(tok.span()))))
        },
        ModeView::InlineScope(s) => {
            let ctx = s.ctx.extended(tok.span());
            (
                ModeView::InlineScope(ScopeView { ctx, inlines: Seq::empty(), ..s }),
                Ok(StatusView::Pop(Some((ctx, DocElementView::Inline(InlineElemView::InlineScope(s.inlines)))))),
            )
        },
    }
}

/// The error for code that emitted a header (from the code of `hctx`) here. At the start of a
/// paragraph's line, the header was meant as a block of its own, not separated from the paragraph.
pub open spec fn err_on_header_from_code(m: ModeView, header: Header, hctx: ParseContext) -> TTError {
    match m {
        ModeView::Paragraph(p) if p.start_of_line => TTError::Syntax(
            TTSyntaxError::InsufficientBlockSeparation {
                last_block: BlockModeElem::Para(p.ctx),
                next_block_start: BlockModeElem::HeaderFromCode(hctx.full_span_spec()),
            },
        ),
        _ => TTError::Syntax(
            TTSyntaxError::CodeEmittedHeaderInInlineMode { inl_mode: inline_mode_ctx(m), header, code_span: hctx.full_span_spec() },
        ),
    }
}

/// The error for code that emitted a block (the object `block`, from the code of `bctx`) here.
pub open spec fn err_on_block_from_code(m: ModeView, block: u64, bctx: ParseContext) -> TTError {
    match m {
        ModeView::Paragraph(p) if p.start_of_line => TTError::Syntax(
            TTSyntaxError::InsufficientBlockSeparation {
                last_block: BlockModeElem::Para(p.ctx),
                next_block_start: BlockModeElem::BlockFromCode(bctx.full_span_spec()),
            },
        ),
        _ => TTError::Syntax(
            TTSyntaxError::CodeEmittedBlockInInlineMode { inl_mode: inline_mode_ctx(m), block, code_span: bctx.full_span_spec() },
        ),
    }
}

/// The error for code that emitted a source file (from the code of `sctx`) here.
pub open spec fn err_on_source(m: ModeView, sctx: ParseContext) -> TTError {
    match m {
        ModeView::Paragraph(p) if p.start_of_line => TTError::Syntax(
            TTSyntaxError::InsufficientBlockSeparation {
                last_block: BlockModeElem::Para(p.ctx),
                next_block_start: BlockModeElem::SourceFromCode(sctx.full_span_spec()),
            },
        ),
        _ => TTError::Syntax(
            TTSyntaxError::CodeEmittedSourceInInlineMode { inl_mode: inline_mode_ctx(m), code_span: sctx.full_span_spec() },
        ),
    }
}

/// The pending text (with or without the pending whitespace) goes into the sentence or scope as a
/// text element, if it is not empty.
pub open spec fn flush_into(v: InlineLevelView, include_whitespace: bool) -> InlineLevelView {
    let (t, out) = text_flush(v.text, include_whitespace);
    match out {
        Some((s, last)) => InlineLevelView {
            mode: on_inline(on_content(v.mode), InlineView::Text(s), ParseContext::new_spec(last, last)),
            text: t,
        },
        None => InlineLevelView { mode: v.mode, text: t },
    }
}

/// Puts the result of a mode step back with the text state.
pub open spec fn with_text(r: (ModeView, Result<StatusView, TTError>), t: TextView) -> (InlineLevelView, Result<StatusView, TTError>) {
    (InlineLevelView { mode: r.0, text: t }, r.1)
}

/// Taking a token in inline mode.
///
/// Text goes into the text being built; whitespace waits until more text comes, and is dropped at
/// the end of a line, scope or file. Scopes, code and raw scopes start processors of their own,
/// after the text so far (with its whitespace) goes in. A comment starts a comment processor, and
/// the text waits for what ends the comment.
pub open spec fn inline_step(v: InlineLevelView, tok: TTToken, data: Seq<char>) -> (InlineLevelView, Result<StatusView, TTError>) {
    match tok {
        TTToken::Escaped(_, Escapable::Newline) => with_text(on_escaped_newline(v.mode, tok), v.text),
        TTToken::Escaped(_, _) | TTToken::Backslash(_) | TTToken::OtherText(_) => (
            InlineLevelView { mode: on_content(v.mode), text: text_encounter_text(v.text, tok, data) },
            Ok(StatusView::Continue),
        ),
        TTToken::Whitespace(_) => if !ignore_whitespace(v.mode) {
            (InlineLevelView { text: text_encounter_whitespace(v.text, tok, data), ..v }, Ok(StatusView::Continue))
        } else {
            (v, Ok(StatusView::Continue))
        },
        TTToken::Newline(_) => {
            let v1 = flush_into(v, false);
            with_text(on_newline(v1.mode, tok), v1.text)
        },
        TTToken::EOF(_) => {
            let v1 = flush_into(v, false);
            with_text(on_eof(v1.mode, tok), v1.text)
        },
        TTToken::ScopeClose(_) => {
            let v1 = flush_into(v, false);
            with_text(on_close_scope(v1.mode, tok), v1.text)
        },
        TTToken::Hashes(_, _) => (v, Ok(StatusView::PushProcessor(ProcessorView::Comment))),
        TTToken::ScopeOpen(_) => {
            let v1 = flush_into(v, true);
            with_text(on_open_scope(v1.mode, tok), v1.text)
        },
        TTToken::CodeOpen(start_span, n) => {
            let v1 = flush_into(v, true);
            (v1, Ok(StatusView::PushProcessor(ProcessorView::Code(super::code::code_new(start_span, n)))))
        },
        TTToken::RawScopeOpen(start_span, n) => {
            let v1 = flush_into(v, true);
            (v1, Ok(StatusView::PushProcessor(ProcessorView::RawString(raw_new(start_span, n)))))
        },
        TTToken::CodeClose(span, _) => (v, Err(TTError::Syntax(TTSyntaxError::CodeCloseOutsideCode(span)))),
        TTToken::RawScopeClose(span, _) => (v, Err(TTError::Syntax(TTSyntaxError::RawScopeCloseOutsideRawScope(span)))),
    }
}

/// The inline element that an emitted inline element stands for.
pub open spec fn inline_of(x: InlineElemView) -> InlineView {
    match x {
        InlineElemView::FromCode(h) => InlineView::FromCode(h),
        InlineElemView::InlineScope(v) => InlineView::InlineScope(v),
        InlineElemView::Raw(s) => InlineView::Raw(s),
    }
}

/// Elements that inline mode can be handed: everything but paragraphs and block scopes, which no
/// processor that inline mode pushes builds.
pub open spec fn inline_accepts(e: Option<(ParseContext, DocElementView)>) -> bool {
    match e {
        Some((_, DocElementView::Block(BlockElemView::Blocks(_)))) => false,
        Some((_, DocElementView::Block(BlockElemView::Para(_)))) => false,
        _ => true,
    }
}

/// Taking an element that an inner processor emitted: inline elements go in as content; headers and
/// blocks from code are errors, since they cannot stand in inline mode.
pub open spec fn inline_emitted(v: InlineLevelView, e: Option<(ParseContext, DocElementView)>) -> (InlineLevelView, Result<StatusView, TTError>) {
    match e {
        Some((c, DocElementView::HeaderFromCode(h))) => (v, Err(err_on_header_from_code(v.mode, h, c))),
        Some((c, DocElementView::Block(BlockElemView::FromCode(handle, _)))) => (v, Err(err_on_block_from_code(v.mode, handle, c))),
        Some((c, DocElementView::Inline(x))) => (
            InlineLevelView { mode: on_inline(on_content(v.mode), inline_of(x), c), ..v },
            Ok(StatusView::Continue),
        ),
        _ => (InlineLevelView { mode: on_content(v.mode), ..v }, Ok(StatusView::Continue)),
    }
}

/// The value of a [ParagraphInlineMode].
pub open spec fn para_view(p: ParagraphInlineMode) -> ParaView {
    ParaView { ctx: p.ctx, para: sentences_view(p.para@), start_of_line: p.start_of_line, sentence: inlines_view(p.current_sentence@) }
}

/// The value of a [KnownInlineScopeInlineMode].
pub open spec fn scope_view(s: KnownInlineScopeInlineMode) -> ScopeView {
    ScopeView { preceding: s.preceding_inline, ctx: s.ctx, inlines: inlines_view(s.inline_scope@), start_of_scope: s.start_of_scope }
}

impl ParagraphInlineMode {
    fn fold_current_sentence_into_paragraph(&mut self)
        ensures
            para_view(*final(self)) == fold_sentence(para_view(*old(self))),
    {
        proof {
            lemma_inlines_view_len(self.current_sentence@);
        }
        if self.current_sentence.len() > 0 {
            let mut sentence = Vec::new();
            std::mem::swap(&mut sentence, &mut self.current_sentence);
            proof {
                lemma_sentences_view_push(self.para@, sentence);
                assert(inlines_view(self.current_sentence@) =~= Seq::<InlineView>::empty());
            }
            self.para.push(sentence);
        }
    }

    /// Hands the paragraph on, as an element with its context.
    fn emit(&mut self) -> (r: Option<EmittedElement>)
        ensures
            para_view(*final(self)) == para_taken(para_view(*old(self))),
            emitted_view(r) == para_emitted(para_view(*old(self))),
    {
        let mut para = Vec::new();
        std::mem::swap(&mut para, &mut self.para);
        proof {
            assert(sentences_view(self.para@) =~= Seq::<Seq<InlineView>>::empty());
        }
        Some((self.ctx, DocElement::Block(BlockElem::Para(para))))
    }
}

impl InlineMode {
    /// The value of the mode.
    pub open spec fn view(self) -> ModeView {
        match self {
            InlineMode::Paragraph(p) => ModeView::Paragraph(para_view(p)),
            InlineMode::InlineScope(s) => ModeView::InlineScope(scope_view(s)),
        }
    }

    fn on_content(&mut self)
        ensures
            final(self).view() == on_content(old(self).view()),
    {
        match self {
            InlineMode::Paragraph(p) => p.start_of_line = false,
            InlineMode::InlineScope(s) => s.start_of_scope = false,
        }
    }

    fn on_inline(&mut self, inl: Inline, ictx: ParseContext)
        ensures
            final(self).view() == on_inline(old(self).view(), inl.view(), ictx),
    {
        match self {
            InlineMode::Paragraph(p) => {
                p.ctx.try_combine(ictx);
                proof {
                    lemma_inlines_view_push(p.current_sentence@, inl);
                }
                p.current_sentence.push(inl);
            },
            InlineMode::InlineScope(s) => {
                s.ctx.try_combine(ictx);
                proof {
                    lemma_inlines_view_push(s.inline_scope@, inl);
                }
                s.inline_scope.push(inl);
            },
        }
    }

    fn inline_mode_ctx(&self) -> (r: InlineModeContext)
        ensures
            r == inline_mode_ctx(self.view()),
    {
        match self {
            InlineMode::Paragraph(p) => InlineModeContext::Paragraph(p.ctx),
            InlineMode::InlineScope(s) => InlineModeContext::Inlines { scope_start: s.ctx.first_tok() },
        }
    }

    fn ignore_whitespace(&self) -> (r: bool)
        ensures
            r == ignore_whitespace(self.view()),
    {
        match self {
            InlineMode::Paragraph(p) => p.start_of_line,
            InlineMode::InlineScope(s) => s.start_of_scope,
        }
    }

    fn on_escaped_newline(&mut self, tok: TTToken) -> (r: Result<ProcStatus, TTError>)
        ensures
            (final(self).view(), super::result_view(r)) == on_escaped_newline(old(self).view(), tok),
    {
        match self {
            InlineMode::Paragraph(p) => {
                p.ctx.try_extend(&tok.token_span());
                p.start_of_line = true;
            },
            InlineMode::InlineScope(s) => {
                s.start_of_scope = true;
            },
        }
        Ok(ProcStatus::Continue)
    }

    fn on_newline(&mut self, tok: TTToken) -> (r: Result<ProcStatus, TTError>)
        ensures
            (final(self).view(), super::result_view(r)) == on_newline(old(self).view(), tok),
    {
        match self {
            InlineMode::Paragraph(p) => {
                let was_start_of_line = p.start_of_line;
                p.ctx.try_extend(&tok.token_span());
                p.fold_current_sentence_into_paragraph();
                if was_start_of_line {
                    Ok(ProcStatus::PopAndReprocessToken(p.emit()))
                } else {
                    p.start_of_line = true;
                    Ok(ProcStatus::Continue)
                }
            },
            InlineMode::InlineScope(s) => Err(
                TTError::Syntax(TTSyntaxError::SentenceBreakInInlineScope { scope_start: s.ctx.first_tok(), sentence_break: tok.token_span() }),
            ),
        }
    }

    fn on_eof(&mut self, tok: TTToken) -> (r: Result<ProcStatus, TTError>)
        ensures
            (final(self).view(), super::result_view(r)) == on_eof(old(self).view(), tok),
    {
        match self {
            InlineMode::Paragraph(p) => {
                p.ctx.try_extend(&tok.token_span());
                if !p.start_of_line {
                    p.fold_current_sentence_into_paragraph();
                }
                Ok(ProcStatus::PopAndReprocessToken(p.emit()))
            },
            InlineMode::InlineScope(s) => Err(
                TTError::Syntax(TTSyntaxError::EndedInsideScope { scope_start: s.ctx.first_tok(), eof_span: tok.token_span() }),
            ),
        }
    }

    fn on_open_scope(&mut self, tok: TTToken) -> (r: Result<ProcStatus, TTError>)
        ensures
            (final(self).view(), super::result_view(r)) == on_open_scope(old(self).view(), tok),
    {
        match self {
            InlineMode::Paragraph(p) => Ok(
                ProcStatus::PushProcessor(
                    Processor::InlineLevelAmbiguousScope(
                        InlineLevelAmbiguousScopeProcessor::new(InlineModeContext::Paragraph(p.ctx), p.start_of_line, tok.token_span()),
                    ),
                ),
            ),
            InlineMode::InlineScope(s) => {
                let new_ctx = match s.preceding_inline {
                    Some(InlineModeContext::Paragraph(preceding_para)) => {
                        let mut new = preceding_para;
                        new.try_combine(s.ctx);
                        InlineModeContext::Paragraph(new)
                    },
                    _ => InlineModeContext::Inlines { scope_start: s.ctx.first_tok() },
                };
                Ok(
                    ProcStatus::PushProcessor(
                        Processor::InlineLevelAmbiguousScope(InlineLevelAmbiguousScopeProcessor::new(new_ctx, false, tok.token_span())),
                    ),
                )
            },
        }
    }

    fn on_close_scope(&mut self, tok: TTToken) -> (r: Result<ProcStatus, TTError>)
        ensures
            (final(self).view(), super::result_view(r)) == on_close_scope(old(self).view(), tok),
    {
        match self {
            InlineMode::Paragraph(p) => {
                if p.start_of_line {
                    p.ctx.try_extend(&tok.token_span());
                    Ok(ProcStatus::PopAndReprocessToken(p.emit()))
                } else {
                    Err(TTError::Syntax(TTSyntaxError::InlineScopeCloseOutsideScope(tok.token_span())))
                }
            },
            InlineMode::InlineScope(s) => {
                s.ctx.try_extend(&tok.token_span());
                let mut inlines = Vec::new();
                std::mem::swap(&mut inlines, &mut s.inline_scope);
                proof {
                    assert(inlines_view(s.inline_scope@) =~= Seq::<InlineView>::empty());
                }
                Ok(ProcStatus::Pop(Some((s.ctx, DocElement::Inline(InlineElem::InlineScope(inlines))))))
            },
        }
    }

    fn err_on_header_from_code(&self, header: Header, hctx: ParseContext) -> (r: TTError)
        ensures
            r == err_on_header_from_code(self.view(), header, hctx),
    {
        match self {
            InlineMode::Paragraph(p) if p.start_of_line => TTError::Syntax(
                TTSyntaxError::InsufficientBlockSeparation {
                    last_block: BlockModeElem::Para(p.ctx),
                    next_block_start: BlockModeElem::HeaderFromCode(hctx.full_span()),
                },
            ),
            _ => TTError::Syntax(
                TTSyntaxError::CodeEmittedHeaderInInlineMode { inl_mode: self.inline_mode_ctx(), header, code_span: hctx.full_span() },
            ),
        }
    }

    fn err_on_block_from_code(&self, block: u64, bctx: ParseContext) -> (r: TTError)
        ensures
            r == err_on_block_from_code(self.view(), block, bctx),
    {
        match self {
            InlineMode::Paragraph(p) if p.start_of_line => TTError::Syntax(
                TTSyntaxError::InsufficientBlockSeparation {
                    last_block: BlockModeElem::Para(p.ctx),
                    next_block_start: BlockModeElem::BlockFromCode(bctx.full_span()),
                },
            ),
            _ => TTError::Syntax(
                TTSyntaxError::CodeEmittedBlockInInlineMode { inl_mode: self.inline_mode_ctx(), block, code_span: bctx.full_span() },
            ),
        }
    }

    fn err_on_source(&self, sctx: ParseContext) -> (r: TTError)
        ensures
            r == err_on_source(self.view(), sctx),
    {
        match self {
            InlineMode::Paragraph(p) if p.start_of_line => TTError::Syntax(
                TTSyntaxError::InsufficientBlockSeparation {
                    last_block: BlockModeElem::Para(p.ctx),
                    next_block_start: BlockModeElem::SourceFromCode(sctx.full_span()),
                },
            ),
            _ => TTError::Syntax(
                TTSyntaxError::CodeEmittedSourceInInlineMode { inl_mode: self.inline_mode_ctx(), code_span: sctx.full_span() },
            ),
        }
    }
}

/// A token whose text, where it has one of its own, lies within `data`.
pub open spec fn token_fits(tok: TTToken, data: Seq<char>) -> bool {
    tok.raw_is_slice() ==> bytes_within(data, tok.span())
}

impl InlineLevelProcessor {
    /// The value of the processor.
    pub open spec fn view(self) -> InlineLevelView {
        InlineLevelView { mode: self.inner.view(), text: self.current_building_text.view() }
    }

    /// The text state keeps its invariant.
    pub open spec fn wf(self) -> bool {
        self.current_building_text.view().wf()
    }

    /// A paragraph that starts with the inline element `inline`, from the tokens of `inline_ctx`.
    pub fn new_paragraph_with_inline(inline: Inline, inline_ctx: ParseContext) -> (r: Self)
        ensures
            r.view() == (InlineLevelView {
                mode: ModeView::Paragraph(ParaView { ctx: inline_ctx, para: Seq::empty(), start_of_line: false, sentence: seq![inline.view()] }),
                text: crate::interpreter::text::text_empty(),
            }),
            r.wf(),
    {
        let mut current_sentence = Vec::new();
        proof {
            lemma_inlines_view_push(current_sentence@, inline);
            assert(sentences_view(Seq::<Vec<Inline>>::empty()) =~= Seq::<Seq<InlineView>>::empty());
            assert(inlines_view(Seq::<Inline>::empty()) =~= Seq::<InlineView>::empty());
        }
        current_sentence.push(inline);
        let r = InlineLevelProcessor {
            inner: InlineMode::Paragraph(
                ParagraphInlineMode {
                    ctx: ParseContext::new(inline_ctx.first_tok(), inline_ctx.last_tok()),
                    para: Vec::new(),
                    start_of_line: false,
                    current_sentence,
                },
            ),
            current_building_text: InlineTextState::new(),
        };
        proof {
            assert(r.view().mode == ModeView::Paragraph(
                ParaView { ctx: inline_ctx, para: Seq::empty(), start_of_line: false, sentence: seq![inline.view()] },
            ));
        }
        r
    }

    /// A paragraph that starts with `text`, from the token at `text_span`.
    pub fn new_paragraph_with_starting_text(text: &str, text_span: ParseSpan) -> (r: Self)
        ensures
            r.view() == (InlineLevelView {
                mode: ModeView::Paragraph(
                    ParaView { ctx: ParseContext::new_spec(text_span, text_span), para: Seq::empty(), start_of_line: false, sentence: Seq::empty() },
                ),
                text: TextView { text: text@, pending: None, last: Some(text_span) },
            }),
            r.wf(),
    {
        let r = InlineLevelProcessor {
            inner: InlineMode::Paragraph(
                ParagraphInlineMode {
                    ctx: ParseContext::new(text_span, text_span),
                    para: Vec::new(),
                    start_of_line: false,
                    current_sentence: Vec::new(),
                },
            ),
            current_building_text: InlineTextState::new_with_text(text, text_span),
        };
        proof {
            assert(sentences_view(Seq::<Vec<Inline>>::empty()) =~= Seq::<Seq<InlineView>>::empty());
            assert(inlines_view(Seq::<Inline>::empty()) =~= Seq::<InlineView>::empty());
        }
        r
    }

    /// An inline scope with the context `ctx`, inside the inline mode `preceding_inline` if any.
    pub fn new_inline_scope(preceding_inline: Option<InlineModeContext>, ctx: ParseContext) -> (r: Self)
        ensures
            r.view() == (InlineLevelView {
                mode: ModeView::InlineScope(ScopeView { preceding: preceding_inline, ctx, inlines: Seq::empty(), start_of_scope: true }),
                text: crate::interpreter::text::text_empty(),
            }),
            r.wf(),
    {
        let r = InlineLevelProcessor {
            inner: InlineMode::InlineScope(
                KnownInlineScopeInlineMode { preceding_inline, ctx, inline_scope: Vec::new(), start_of_scope: true },
            ),
            current_building_text: InlineTextState::new(),
        };
        proof {
            assert(inlines_view(Seq::<Inline>::empty()) =~= Seq::<InlineView>::empty());
        }
        r
    }

    fn flush_into(&mut self, include_whitespace: bool)
        requires
            old(self).wf(),
        ensures
            final(self).view() == flush_into(old(self).view(), include_whitespace),
            final(self).wf(),
    {
        match self.current_building_text.flush(include_whitespace) {
            Some((text, last_token)) => {
                self.inner.on_content();
                self.inner.on_inline(Inline::Text(text), ParseContext::new(last_token, last_token));
            },
            None => {},
        }
    }

    /// Takes a token; see [inline_step].
    pub fn process_token(&mut self, tok: TTToken, data: &str) -> (r: Result<ProcStatus, TTError>)
        requires
            old(self).wf(),
            token_fits(tok, data@),
        ensures
            (final(self).view(), super::result_view(r)) == inline_step(old(self).view(), tok, data@),
            final(self).wf(),
    {
        match tok {
            TTToken::Escaped(_, Escapable::Newline) => self.inner.on_escaped_newline(tok),
            TTToken::Escaped(_, _) | TTToken::Backslash(_) | TTToken::OtherText(_) => {
                self.inner.on_content();
                self.current_building_text.encounter_text(tok, data);
                Ok(ProcStatus::Continue)
            },
            TTToken::Whitespace(_) => {
                if !self.inner.ignore_whitespace() {
                    self.current_building_text.encounter_whitespace(tok, data);
                }
                Ok(ProcStatus::Continue)
            },
            TTToken::Newline(_) => {
                self.flush_into(false);
                self.inner.on_newline(tok)
            },
            TTToken::EOF(_) => {
                self.flush_into(false);
                self.inner.on_eof(tok)
            },
            TTToken::ScopeClose(_) => {
                self.flush_into(false);
                self.inner.on_close_scope(tok)
            },
            TTToken::Hashes(_, _) => Ok(ProcStatus::PushProcessor(Processor::Comment(super::comment::CommentProcessor::new()))),
            TTToken::ScopeOpen(_) => {
                self.flush_into(true);
                self.inner.on_open_scope(tok)
            },
            TTToken::CodeOpen(start_span, n_brackets) => {
                self.flush_into(true);
                Ok(ProcStatus::PushProcessor(Processor::Code(CodeProcessor::new(start_span, n_brackets))))
            },
            TTToken::RawScopeOpen(start_span, n_opening) => {
                self.flush_into(true);
                Ok(ProcStatus::PushProcessor(Processor::RawString(RawStringProcessor::new(start_span, n_opening))))
            },
            TTToken::CodeClose(span, _) => Err(TTError::Syntax(TTSyntaxError::CodeCloseOutsideCode(span))),
            TTToken::RawScopeClose(span, _) => Err(TTError::Syntax(TTSyntaxError::RawScopeCloseOutsideRawScope(span))),
        }
    }

    /// Takes an element that an inner processor emitted; see [inline_emitted].
    pub fn process_emitted_element(&mut self, emitted: Option<EmittedElement>) -> (r: Result<ProcStatus, TTError>)
        requires
            inline_accepts(emitted_view(emitted)),
        ensures
            (final(self).view(), super::result_view(r)) == inline_emitted(old(self).view(), emitted_view(emitted)),
            final(self).wf() == old(self).wf(),
    {
        match emitted {
            Some((elem_ctx, DocElement::HeaderFromCode(header))) => Err(self.inner.err_on_header_from_code(header, elem_ctx)),
            Some((elem_ctx, DocElement::Block(BlockElem::FromCode(handle, _)))) => Err(
                self.inner.err_on_block_from_code(handle, elem_ctx),
            ),
            Some((elem_ctx, DocElement::Inline(inline))) => {
                let inl = match inline {
                    InlineElem::FromCode(h) => Inline::FromCode(h),
                    InlineElem::InlineScope(v) => Inline::InlineScope(v),
                    InlineElem::Raw(s) => Inline::Raw(s),
                };
                self.inner.on_content();
                self.inner.on_inline(inl, elem_ctx);
                Ok(ProcStatus::Continue)
            },
            _ => {
                self.inner.on_content();
                Ok(ProcStatus::Continue)
            },
        }
    }

    /// Code inside inline mode emitted a source file, which cannot stand here: always an error.
    pub fn on_emitted_source_inside(&self, code_emitting_source: ParseContext) -> (r: TTError)
        ensures
            r == err_on_source(self.view().mode, code_emitting_source),
    {
        self.inner.err_on_source(code_emitting_source)
    }
}

/// A raw scope ends only at a raw scope close with as many hashes as opened it. A raw scope close
/// with any other number of hashes (fewer or more) ends nothing: the scope goes on, and the close's
/// characters go into the raw text as they are written in the document. The close with the same
/// number of hashes ends the scope, which hands on all the raw text taken so far.
pub proof fn lemma_raw_scope_ends_only_at_its_own_close(v: RawView, span: ParseSpan, m: usize, data: Seq<char>)
    ensures
        m != v.n_closing ==> {
            let (v2, r) = raw_step(v, TTToken::RawScopeClose(span, m), data);
            &&& r == Ok::<StatusView, TTError>(StatusView::Continue)
            &&& v2.n_closing == v.n_closing
            &&& v2.raw == v.raw + crate::lexer::bytes_text(data, span)
        },
        m == v.n_closing ==> (raw_step(v, TTToken::RawScopeClose(span, m), data).1 matches Ok(
            StatusView::Pop(Some((_, DocElementView::Inline(InlineElemView::Raw(text))))),
        ) && text == v.raw),
{
}

/// What a raw scope takes from `toks`, one after another, with no EOF and no close of its own among
/// them: the raw text so far, followed by the raw text of each token in order.
pub open spec fn raw_texts(toks: Seq<TTToken>, data: Seq<char>) -> Seq<char>
    decreases toks.len(),
{
    if toks.len() == 0 {
        Seq::empty()
    } else {
        raw_texts(toks.drop_last(), data) + toks.last().raw_text(data)
    }
}

/// The state of a raw scope after taking `toks` one after another (as long as it goes on).
pub open spec fn raw_feed(v: RawView, toks: Seq<TTToken>, data: Seq<char>) -> (RawView, Result<StatusView, TTError>)
    decreases toks.len(),
{
    if toks.len() == 0 {
        (v, Ok(StatusView::Continue))
    } else {
        let (v1, r1) = raw_feed(v, toks.drop_last(), data);
        if r1 == Ok::<StatusView, TTError>(StatusView::Continue) {
            raw_step(v1, toks.last(), data)
        } else {
            (v1, r1)
        }
    }
}

/// A raw scope keeps everything as written until its own close: taking any tokens that are neither
/// EOF nor a raw scope close with its number of hashes, and then its own close, it emits exactly the
/// raw text of those tokens, in order, after what it held.
pub proof fn lemma_raw_scope_keeps_all_until_its_close(
    v: RawView,
    toks: Seq<TTToken>,
    close: ParseSpan,
    data: Seq<char>,
)
    requires
        forall|i: int|
            0 <= i < toks.len() ==> !(#[trigger] toks[i] is EOF) && !(toks[i] matches TTToken::RawScopeClose(_, m)
                && m == v.n_closing),
    ensures
        raw_feed(v, toks, data) == (RawView { raw: v.raw + raw_texts(toks, data), ..v }, Ok::<StatusView, TTError>(
            StatusView::Continue,
        )),
        (raw_step(raw_feed(v, toks, data).0, TTToken::RawScopeClose(close, v.n_closing), data).1 matches Ok(
            StatusView::Pop(Some((_, DocElementView::Inline(InlineElemView::Raw(text))))),
        ) && text == v.raw + raw_texts(toks, data)),
    decreases toks.len(),
{
    if toks.len() == 0 {
        assert(v.raw + raw_texts(toks, data) =~= v.raw);
    } else {
        let front = toks.drop_last();
        assert forall|i: int|
            0 <= i < front.len() implies !(#[trigger] front[i] is EOF) && !(front[i] matches TTToken::RawScopeClose(_, m)
                && m == v.n_closing) by {
            assert(front[i] == toks[i]);
        }
        lemma_raw_scope_keeps_all_until_its_close(v, front, close, data);
        let last = toks.last();
        assert(last == toks[toks.len() - 1]);
        assert(v.raw + raw_texts(front, data) + last.raw_text(data) =~= v.raw + raw_texts(toks, data));
    }
}

/// The inline elements that a paragraph's current sentence, or an inline scope, holds so far.
pub open spec fn mode_inlines(m: ModeView) -> Seq<InlineView> {
    match m {
        ModeView::Paragraph(p) => p.sentence,
        ModeView::InlineScope(s) => s.inlines,
    }
}

/// Opening something inside a sentence or an inline scope (a scope, code, or a raw scope) keeps the
/// whitespace before it: the text so far, followed by the whitespace waiting after it, goes in as one
/// text element (when there is any), and nothing is left waiting. A raw scope opened with `n` hashes
/// starts a raw scope that `n` hashes close.
pub proof fn lemma_opening_keeps_whitespace_before(v: InlineLevelView, tok: TTToken, data: Seq<char>)
    requires
        tok is ScopeOpen || tok is CodeOpen || tok is RawScopeOpen,
    ensures
        ({
            let s = v.text.text + crate::interpreter::text::opt_text(v.text.pending);
            let (v2, r) = inline_step(v, tok, data);
            &&& r matches Ok(StatusView::PushProcessor(_))
            &&& mode_inlines(v2.mode) == if s.len() > 0 {
                mode_inlines(v.mode).push(InlineView::Text(s))
            } else {
                mode_inlines(v.mode)
            }
            &&& v2.text.text.len() == 0
            &&& v2.text.pending is None
        }),
        tok matches TTToken::RawScopeOpen(span, n) ==> inline_step(v, tok, data).1 == Ok::<StatusView, TTError>(
            StatusView::PushProcessor(ProcessorView::RawString(raw_new(span, n))),
        ),
{
}

/// A word, a space, and a raw scope in a sentence: the sentence gets the word followed by the space
/// as one text element, before the raw scope starts.
pub proof fn lemma_word_space_raw_scope(v: InlineLevelView, word: TTToken, space: TTToken, open: TTToken, data: Seq<char>)
    requires
        word is OtherText,
        space is Whitespace,
        open is RawScopeOpen,
        v.text.text.len() == 0,
        v.text.pending is None,
        word.escaped_text(data).len() > 0,
    ensures
        ({
            let v1 = inline_step(v, word, data).0;
            let v2 = inline_step(v1, space, data).0;
            let (v3, r) = inline_step(v2, open, data);
            &&& r matches Ok(StatusView::PushProcessor(ProcessorView::RawString(_)))
            &&& mode_inlines(v3.mode) == mode_inlines(v.mode).push(
                InlineView::Text(word.escaped_text(data) + space.escaped_text(data)),
            )
        }),
{
    let v1 = inline_step(v, word, data).0;
    let v2 = inline_step(v1, space, data).0;
    assert(mode_inlines(v1.mode) == mode_inlines(v.mode));
    assert(!ignore_whitespace(v1.mode));
    assert(v1.text.text =~= word.escaped_text(data));
    lemma_opening_keeps_whitespace_before(v2, open, data);
    assert(v2.text.text + crate::interpreter::text::opt_text(v2.text.pending) =~= word.escaped_text(data)
        + space.escaped_text(data));
}

/// The values of a sequence of inline elements are as many as the elements.
pub proof fn lemma_inlines_view_len(s: Seq<Inline>)
    ensures
        inlines_view(s).len() == s.len(),
    decreases s.len(),
{
    if s.len() > 0 {
        lemma_inlines_view_len(s.drop_last());
    }
}

} // verus!
