//! Scopes that are not yet known to be block scopes or inline scopes.
//!
//! A scope open followed by a newline (after any whitespace) opens a block scope; followed by content,
//! it opens an inline scope.
use vstd::prelude::*;

use crate::interpreter::doc::{DocElementView, EmittedElement, emitted_view};
use crate::interpreter::syntax::{BlockModeElem, InlineModeContext, TTError, TTSyntaxError};
use crate::lexer::TTToken;
use crate::span::{ParseContext, ParseSpan};

use super::{ProcStatus, Processor, ProcessorView, StatusView, result_view};
use super::block::{BlockLevelProcessor, BlockLevelView, block_emitted, block_scope_new, block_source_closed, block_source_inside, block_step};
use super::comment::CommentProcessor;
use super::inline::{
    InlineLevelProcessor, InlineLevelView, ModeView, ScopeView, err_on_source, inline_accepts, inline_emitted, inline_step,
    token_fits,
};

verus! {

/// A scope in block mode, known to be a block scope or an inline scope once the first token that is
/// not whitespace or a comment comes.
pub enum AmbiguousScopeProcessor {
    Undecided { first_tok: ParseSpan },
    Block(BlockLevelProcessor),
    Inline(InlineLevelProcessor),
}

/// The value of an [AmbiguousScopeProcessor].
pub enum AmbiguousView {
    Undecided { first_tok: ParseSpan },
    Block(BlockLevelView),
    Inline(InlineLevelView),
}

/// A new inline scope with the context `ctx`, inside the inline mode `preceding` if any.
pub open spec fn inline_scope_new(preceding: Option<InlineModeContext>, ctx: ParseContext) -> InlineLevelView {
    InlineLevelView {
        mode: ModeView::InlineScope(ScopeView { preceding, ctx, inlines: Seq::empty(), start_of_scope: true }),
        text: crate::interpreter::text::text_empty(),
    }
}

/// Taking a token. While undecided: whitespace is skipped, a comment is allowed, EOF is an error, a
/// newline makes it a block scope, and anything else makes it an inline scope, which takes the token.
pub open spec fn ambiguous_step(v: AmbiguousView, tok: TTToken, data: Seq<char>) -> (AmbiguousView, Result<StatusView, TTError>) {
    match v {
        AmbiguousView::Undecided { first_tok } => match tok {
            TTToken::Whitespace(_) => (v, Ok(StatusView::Continue)),
            TTToken::EOF(eof_span) => (v, Err(TTError::Syntax(TTSyntaxError::EndedInsideScope { scope_start: first_tok, eof_span }))),
            TTToken::Newline(last_tok) => (AmbiguousView::Block(block_scope_new(first_tok, last_tok)), Ok(StatusView::Continue)),
            TTToken::Hashes(_, _) => (v, Ok(StatusView::PushProcessor(ProcessorView::Comment))),
            _ => {
                let (i, r) = inline_step(inline_scope_new(None, ParseContext::new_spec(first_tok, tok.span())), tok, data);
                (AmbiguousView::Inline(i), r)
            },
        },
        AmbiguousView::Block(b) => {
            let (b2, r) = block_step(b, tok, data);
            (AmbiguousView::Block(b2), r)
        },
        AmbiguousView::Inline(i) => {
            let (i2, r) = inline_step(i, tok, data);
            (AmbiguousView::Inline(i2), r)
        },
    }
}

/// Elements that the scope can be handed: while undecided, only the nothing that a comment emits.
pub open spec fn ambiguous_accepts(v: AmbiguousView, e: Option<(ParseContext, DocElementView)>) -> bool {
    match v {
        AmbiguousView::Undecided { .. } => e is None,
        AmbiguousView::Block(_) => true,
        AmbiguousView::Inline(_) => inline_accepts(e),
    }
}

/// Taking an element that an inner processor emitted.
pub open spec fn ambiguous_emitted(v: AmbiguousView, e: Option<(ParseContext, DocElementView)>) -> (AmbiguousView, Result<StatusView, TTError>) {
    match v {
        AmbiguousView::Undecided { .. } => (v, Ok(StatusView::Continue)),
        AmbiguousView::Block(b) => {
            let (b2, r) = block_emitted(b, e);
            (AmbiguousView::Block(b2), r)
        },
        AmbiguousView::Inline(i) => {
            let (i2, r) = inline_emitted(i, e);
            (AmbiguousView::Inline(i2), r)
        },
    }
}

impl AmbiguousScopeProcessor {
    /// The value of the processor.
    pub open spec fn view(self) -> AmbiguousView {
        match self {
            AmbiguousScopeProcessor::Undecided { first_tok } => AmbiguousView::Undecided { first_tok },
            AmbiguousScopeProcessor::Block(b) => AmbiguousView::Block(b.view()),
            AmbiguousScopeProcessor::Inline(i) => AmbiguousView::Inline(i.view()),
        }
    }

    /// The processor keeps its invariant.
    pub open spec fn wf(self) -> bool {
        self matches AmbiguousScopeProcessor::Inline(i) ==> i.wf()
    }

    /// A scope opened at `first_tok`.
    pub fn new(first_tok: ParseSpan) -> (r: Self)
        ensures
            r.view() == (AmbiguousView::Undecided { first_tok }),
            r.wf(),
    {
        AmbiguousScopeProcessor::Undecided { first_tok }
    }

    /// Takes a token; see [ambiguous_step].
    pub fn process_token(&mut self, tok: TTToken, data: &str) -> (r: Result<ProcStatus, TTError>)
        requires
            old(self).wf(),
            token_fits(tok, data@),
        ensures
            (final(self).view(), result_view(r)) == ambiguous_step(old(self).view(), tok, data@),
            final(self).wf(),
    {
        match self {
            AmbiguousScopeProcessor::Undecided { first_tok } => {
                let first_tok = *first_tok;
                match tok {
                    TTToken::Whitespace(_) => Ok(ProcStatus::Continue),
                    TTToken::EOF(eof_span) => Err(TTError::Syntax(TTSyntaxError::EndedInsideScope { scope_start: first_tok, eof_span })),
                    TTToken::Newline(last_tok) => {
                        *self = AmbiguousScopeProcessor::Block(BlockLevelProcessor::new_block_scope(first_tok, last_tok));
                        Ok(ProcStatus::Continue)
                    },
                    TTToken::Hashes(_, _) => Ok(ProcStatus::PushProcessor(Processor::Comment(CommentProcessor::new()))),
                    _ => {
                        let mut inline_builder = InlineLevelProcessor::new_inline_scope(
                            None,
                            ParseContext::new(first_tok, tok.token_span()),
                        );
                        let res = inline_builder.process_token(tok, data);
                        *self = AmbiguousScopeProcessor::Inline(inline_builder);
                        res
                    },
                }
            },
            AmbiguousScopeProcessor::Block(b) => b.process_token(tok, data),
            AmbiguousScopeProcessor::Inline(i) => i.process_token(tok, data),
        }
    }

    /// Takes an element that an inner processor emitted; see [ambiguous_emitted].
    pub fn process_emitted_element(&mut self, emitted: Option<EmittedElement>) -> (r: Result<ProcStatus, TTError>)
        requires
            old(self).wf(),
            ambiguous_accepts(old(self).view(), emitted_view(emitted)),
        ensures
            (final(self).view(), result_view(r)) == ambiguous_emitted(old(self).view(), emitted_view(emitted)),
            final(self).wf(),
    {
        match self {
            AmbiguousScopeProcessor::Undecided { .. } => Ok(ProcStatus::Continue),
            AmbiguousScopeProcessor::Block(b) => b.process_emitted_element(emitted),
            AmbiguousScopeProcessor::Inline(i) => i.process_emitted_element(emitted),
        }
    }
}

/// A scope in inline mode, not yet known to be an inline scope. It must turn out to be one: a newline
/// before any content is an error.
pub enum InlineLevelAmbiguousScopeProcessor {
    Undecided { preceding_inline: InlineModeContext, start_of_line: bool, scope_ctx: ParseContext },
    Known(InlineLevelProcessor),
}

/// The value of an [InlineLevelAmbiguousScopeProcessor].
pub enum InlineAmbiguousView {
    Undecided { preceding_inline: InlineModeContext, start_of_line: bool, scope_ctx: ParseContext },
    Known(InlineLevelView),
}

/// The error for a newline straight after the opening of a scope in inline mode. At the start of a
/// paragraph's line, the scope was meant as a block of its own, not separated from the paragraph;
/// elsewhere it is a block scope opened in inline mode.
pub open spec fn newline_in_undecided(preceding: InlineModeContext, start_of_line: bool, scope_ctx: ParseContext) -> TTError {
    match preceding {
        InlineModeContext::Paragraph(preceding_para) if start_of_line => TTError::Syntax(
            TTSyntaxError::InsufficientBlockSeparation {
                last_block: BlockModeElem::Para(preceding_para),
                next_block_start: BlockModeElem::AnyToken(scope_ctx.first_tok),
            },
        ),
        _ => TTError::Syntax(TTSyntaxError::BlockScopeOpenedInInlineMode { inl_mode: preceding, block_scope_open: scope_ctx.first_tok }),
    }
}

/// Taking a token. While undecided: a newline is an error, whitespace is skipped, a comment is
/// allowed, and anything else makes it an inline scope, which takes the token.
pub open spec fn inline_ambiguous_step(v: InlineAmbiguousView, tok: TTToken, data: Seq<char>) -> (InlineAmbiguousView, Result<StatusView, TTError>) {
    match v {
        InlineAmbiguousView::Undecided { preceding_inline, start_of_line, scope_ctx } => match tok {
            TTToken::Newline(_) => (v, Err(newline_in_undecided(preceding_inline, start_of_line, scope_ctx))),
            TTToken::Whitespace(_) => (v, Ok(StatusView::Continue)),
            TTToken::Hashes(_, _) => (v, Ok(StatusView::PushProcessor(ProcessorView::Comment))),
            _ => {
                let (i, r) = inline_step(inline_scope_new(Some(preceding_inline), scope_ctx), tok, data);
                (InlineAmbiguousView::Known(i), r)
            },
        },
        InlineAmbiguousView::Known(i) => {
            let (i2, r) = inline_step(i, tok, data);
            (InlineAmbiguousView::Known(i2), r)
        },
    }
}

/// Elements that the scope can be handed: while undecided, only the nothing that a comment emits.
pub open spec fn inline_ambiguous_accepts(v: InlineAmbiguousView, e: Option<(ParseContext, DocElementView)>) -> bool {
    match v {
        InlineAmbiguousView::Undecided { .. } => e is None,
        InlineAmbiguousView::Known(_) => inline_accepts(e),
    }
}

/// Taking an element that an inner processor emitted.
pub open spec fn inline_ambiguous_emitted(v: InlineAmbiguousView, e: Option<(ParseContext, DocElementView)>) -> (InlineAmbiguousView, Result<StatusView, TTError>) {
    match v {
        InlineAmbiguousView::Undecided { .. } => (v, Ok(StatusView::Continue)),
        InlineAmbiguousView::Known(i) => {
            let (i2, r) = inline_emitted(i, e);
            (InlineAmbiguousView::Known(i2), r)
        },
    }
}

impl InlineLevelAmbiguousScopeProcessor {
    /// The value of the processor.
    pub open spec fn view(self) -> InlineAmbiguousView {
        match self {
            InlineLevelAmbiguousScopeProcessor::Undecided { preceding_inline, start_of_line, scope_ctx } => InlineAmbiguousView::Undecided {
                preceding_inline,
                start_of_line,
                scope_ctx,
            },
            InlineLevelAmbiguousScopeProcessor::Known(i) => InlineAmbiguousView::Known(i.view()),
        }
    }

    /// The processor keeps its invariant.
    pub open spec fn wf(self) -> bool {
        self matches InlineLevelAmbiguousScopeProcessor::Known(i) ==> i.wf()
    }

    /// A scope opened at `start_span` in the inline mode `preceding_inline`; `start_of_line` tells
    /// whether nothing but whitespace came before it on its line.
    pub fn new(preceding_inline: InlineModeContext, start_of_line: bool, start_span: ParseSpan) -> (r: Self)
        ensures
            r.view() == (InlineAmbiguousView::Undecided {
                preceding_inline,
                start_of_line,
                scope_ctx: ParseContext::new_spec(start_span, start_span),
            }),
            r.wf(),
    {
        InlineLevelAmbiguousScopeProcessor::Undecided { preceding_inline, start_of_line, scope_ctx: ParseContext::new(start_span, start_span) }
    }

    /// Takes a token; see [inline_ambiguous_step].
    pub fn process_token(&mut self, tok: TTToken, data: &str) -> (r: Result<ProcStatus, TTError>)
        requires
            old(self).wf(),
            token_fits(tok, data@),
        ensures
            (final(self).view(), result_view(r)) == inline_ambiguous_step(old(self).view(), tok, data@),
            final(self).wf(),
    {
        match self {
            InlineLevelAmbiguousScopeProcessor::Undecided { preceding_inline, start_of_line, scope_ctx } => {
                let preceding_inline = *preceding_inline;
                let start_of_line = *start_of_line;
                let scope_ctx = *scope_ctx;
                match tok {
                    TTToken::Newline(_) => Err(match preceding_inline {
                        InlineModeContext::Paragraph(preceding_para) if start_of_line => TTError::Syntax(
                            TTSyntaxError::InsufficientBlockSeparation {
                                last_block: BlockModeElem::Para(preceding_para),
                                next_block_start: BlockModeElem::AnyToken(scope_ctx.first_tok()),
                            },
                        ),
                        _ => TTError::Syntax(
                            TTSyntaxError::BlockScopeOpenedInInlineMode { inl_mode: preceding_inline, block_scope_open: scope_ctx.first_tok() },
                        ),
                    }),
                    TTToken::Whitespace(_) => Ok(ProcStatus::Continue),
                    TTToken::Hashes(_, _) => Ok(ProcStatus::PushProcessor(Processor::Comment(CommentProcessor::new()))),
                    _ => {
                        let mut inline_builder = InlineLevelProcessor::new_inline_scope(Some(preceding_inline), scope_ctx);
                        let res = inline_builder.process_token(tok, data);
                        *self = InlineLevelAmbiguousScopeProcessor::Known(inline_builder);
                        res
                    },
                }
            },
            InlineLevelAmbiguousScopeProcessor::Known(i) => i.process_token(tok, data),
        }
    }

    /// Takes an element that an inner processor emitted; see [inline_ambiguous_emitted].
    pub fn process_emitted_element(&mut self, emitted: Option<EmittedElement>) -> (r: Result<ProcStatus, TTError>)
        requires
            old(self).wf(),
            inline_ambiguous_accepts(old(self).view(), emitted_view(emitted)),
        ensures
            (final(self).view(), result_view(r)) == inline_ambiguous_emitted(old(self).view(), emitted_view(emitted)),
            final(self).wf(),
    {
        match self {
            InlineLevelAmbiguousScopeProcessor::Undecided { .. } => Ok(ProcStatus::Continue),
            InlineLevelAmbiguousScopeProcessor::Known(i) => i.process_emitted_element(emitted),
        }
    }
}

} // verus!
