//! Block mode: the top level of the document, and block scopes.
//!
//! Content opens a paragraph; scopes, code and raw scopes open processors of their own; comments are
//! allowed; escaped newlines are not. A block that is not a paragraph (a block scope, or what code
//! emitted) must be followed by a newline before any new content, so that nothing on its line looks
//! attached to it. Blocks of blocks are taken apart: their blocks go in one by one.
use vstd::prelude::*;

use crate::doc_segment::Header;
use crate::interpreter::doc::{
    Block, BlockElem, BlockElemView, BlockView, DocElement, DocElementView, EmittedElement, Inline, InlineElem,
    InlineView, blocks_view, emitted_view, lemma_blocks_view_push,
};
use crate::interpreter::syntax::{BlockModeElem, TTError, TTSyntaxError};
use crate::lexer::{Escapable, TTToken};
use crate::span::{ParseContext, ParseSpan};

use super::{ProcStatus, Processor, ProcessorView, StatusView, result_view};
use super::ambiguous_scope::{AmbiguousScopeProcessor, AmbiguousView};
use super::code::{CodeProcessor, code_new};
use super::comment::CommentProcessor;
use super::inline::{InlineLevelProcessor, InlineLevelView, ModeView, ParaView, RawStringProcessor, inline_of, raw_new, token_fits};
use crate::interpreter::text::TextView;

verus! {

/// The blocks that `b` puts in a list of blocks: the blocks of a block of blocks, taken apart at any
/// depth; any other block as it is.
pub open spec fn flatten_block(b: BlockView) -> Seq<BlockView>
    decreases b,
{
    match b {
        BlockView::Blocks(s) => flatten_blocks(s),
        _ => seq![b],
    }
}

/// The blocks that the blocks of `s` put in a list, in order.
pub open spec fn flatten_blocks(s: Seq<BlockView>) -> Seq<BlockView>
    decreases s,
{
    if s.len() == 0 {
        Seq::empty()
    } else {
        flatten_blocks(s.drop_last()) + flatten_block(s[s.len() - 1])
    }
}

/// What a block-mode processor builds: at the top level, the blocks and headers of the document in
/// order; in a block scope, its blocks.
pub enum BlockMode {
    TopLevel(TopLevelBlockMode),
    BlockScope(BlockScopeBlockMode),
}

/// The top level of the document: its blocks and headers, in the order they came.
pub struct TopLevelBlockMode {
    pub items: Vec<Block>,
}

/// A block scope: its context, and its blocks so far.
pub struct BlockScopeBlockMode {
    pub ctx: ParseContext,
    pub blocks: Vec<Block>,
}

/// Block mode, at the top level or in a block scope.
pub struct BlockLevelProcessor {
    pub mode: BlockMode,
    /// The block that must be followed by a newline before new content, if any
    pub expects_n_blank_lines_after: Option<BlockModeElem>,
}

/// The value of a [BlockMode].
pub enum BlockModeView {
    TopLevel(Seq<BlockView>),
    BlockScope(ParseContext, Seq<BlockView>),
}

/// The value of a [BlockLevelProcessor].
pub struct BlockLevelView {
    pub mode: BlockModeView,
    pub expects: Option<BlockModeElem>,
}

/// The blocks built so far.
pub open spec fn mode_items(m: BlockModeView) -> Seq<BlockView> {
    match m {
        BlockModeView::TopLevel(s) => s,
        BlockModeView::BlockScope(_, s) => s,
    }
}

/// The blocks `items` go in at the end.
pub open spec fn add_items(m: BlockModeView, items: Seq<BlockView>) -> BlockModeView {
    match m {
        BlockModeView::TopLevel(s) => BlockModeView::TopLevel(s + items),
        BlockModeView::BlockScope(c, s) => BlockModeView::BlockScope(c, s + items),
    }
}

/// A new block scope, opened at `first_tok`, whose first line ends at `last_tok`.
pub open spec fn block_scope_new(first_tok: ParseSpan, last_tok: ParseSpan) -> BlockLevelView {
    BlockLevelView { mode: BlockModeView::BlockScope(ParseContext::new_spec(first_tok, last_tok), Seq::empty()), expects: None }
}

/// A scope close: at the top level, it closes nothing and is an error. In a block scope from the same
/// file, it ends the scope, which is emitted; a scope close from another file (one that code in the
/// scope emitted) is an error, since it cannot close a scope of this file.
pub open spec fn on_close_scope(m: BlockModeView, tok: TTToken) -> (BlockModeView, Result<StatusView, TTError>) {
    match m {
        BlockModeView::TopLevel(_) => (m, Err(TTError::Syntax(TTSyntaxError::BlockScopeCloseOutsideScope(tok.span())))),
        BlockModeView::BlockScope(ctx, blocks) => if tok.span().file_idx == ctx.first_tok.file_idx {
            let c = ctx.extended(tok.span());
            (
                BlockModeView::BlockScope(c, Seq::empty()),
                Ok(StatusView::Pop(Some((c, DocElementView::Block(BlockElemView::Blocks(blocks)))))),
            )
        } else {
            (m, Err(TTError::Syntax(TTSyntaxError::BlockScopeCloseOutsideScope(tok.span()))))
        },
    }
}

/// EOF: at the top level, nothing more to do; in a block scope, an error.
pub open spec fn on_eof(m: BlockModeView, tok: TTToken) -> (BlockModeView, Result<StatusView, TTError>) {
    match m {
        BlockModeView::TopLevel(_) => (m, Ok(StatusView::Continue)),
        BlockModeView::BlockScope(ctx, _) => (
            m,
            Err(TTError::Syntax(TTSyntaxError::EndedInsideScope { scope_start: ctx.first_tok, eof_span: tok.span() })),
        ),
    }
}

/// Puts a mode step back with the rest of the processor.
pub open spec fn with_expects(r: (BlockModeView, Result<StatusView, TTError>), e: Option<BlockModeElem>) -> (BlockLevelView, Result<StatusView, TTError>) {
    (BlockLevelView { mode: r.0, expects: e }, r.1)
}

/// A new paragraph that starts with the text of `tok`.
pub open spec fn para_with_text(tok: TTToken, data: Seq<char>) -> ProcessorView {
    ProcessorView::Paragraph(
        InlineLevelView {
            mode: ModeView::Paragraph(
                ParaView { ctx: ParseContext::new_spec(tok.span(), tok.span()), para: Seq::empty(), start_of_line: false, sentence: Seq::empty() },
            ),
            text: TextView { text: tok.escaped_text(data), pending: None, last: Some(tok.span()) },
        },
    )
}

/// Taking a token in block mode.
///
/// While a block waits for its newline, only whitespace, comments, newlines, scope closes and EOF
/// may come; any other token is an error. Otherwise whitespace and newlines are skipped, content
/// starts a paragraph, and scopes, code and raw scopes start processors of their own.
pub open spec fn block_step(v: BlockLevelView, tok: TTToken, data: Seq<char>) -> (BlockLevelView, Result<StatusView, TTError>) {
    match v.expects {
        Some(last_block) => match tok {
            TTToken::Escaped(span, Escapable::Newline) => (v, Err(TTError::Syntax(TTSyntaxError::EscapedNewlineInBlockMode { newline: span }))),
            TTToken::Whitespace(_) => (v, Ok(StatusView::Continue)),
            TTToken::Newline(_) => (BlockLevelView { expects: None, ..v }, Ok(StatusView::Continue)),
            TTToken::Hashes(_, _) => (v, Ok(StatusView::PushProcessor(ProcessorView::Comment))),
            TTToken::ScopeClose(_) => with_expects(on_close_scope(v.mode, tok), v.expects),
            TTToken::EOF(_) => with_expects(on_eof(v.mode, tok), v.expects),
            _ => (
                BlockLevelView { expects: None, ..v },
                Err(TTError::Syntax(TTSyntaxError::InsufficientBlockSeparation { last_block, next_block_start: BlockModeElem::AnyToken(tok.span()) })),
            ),
        },
        None => match tok {
            TTToken::Escaped(span, Escapable::Newline) => (v, Err(TTError::Syntax(TTSyntaxError::EscapedNewlineInBlockMode { newline: span }))),
            TTToken::Whitespace(_) | TTToken::Newline(_) => (v, Ok(StatusView::Continue)),
            TTToken::Hashes(_, _) => (v, Ok(StatusView::PushProcessor(ProcessorView::Comment))),
            TTToken::CodeOpen(start_span, n) => (v, Ok(StatusView::PushProcessor(ProcessorView::Code(code_new(start_span, n))))),
            TTToken::ScopeOpen(start_span) => (
                v,
                Ok(StatusView::PushProcessor(ProcessorView::AmbiguousScope(AmbiguousView::Undecided { first_tok: start_span }))),
            ),
            TTToken::RawScopeOpen(start_span, n) => (v, Ok(StatusView::PushProcessor(ProcessorView::RawString(raw_new(start_span, n))))),
            TTToken::Escaped(_, _) | TTToken::Backslash(_) | TTToken::OtherText(_) => (
                v,
                Ok(StatusView::PushProcessor(para_with_text(tok, data))),
            ),
            TTToken::CodeClose(span, _) => (v, Err(TTError::Syntax(TTSyntaxError::CodeCloseOutsideCode(span)))),
            TTToken::RawScopeClose(span, _) => (v, Err(TTError::Syntax(TTSyntaxError::RawScopeCloseOutsideRawScope(span)))),
            TTToken::ScopeClose(_) => with_expects(on_close_scope(v.mode, tok), v.expects),
            TTToken::EOF(_) => with_expects(on_eof(v.mode, tok), v.expects),
        },
    }
}

/// A new paragraph that starts with the inline element `inl`, from the tokens of `c`.
pub open spec fn para_with_inline(inl: InlineView, c: ParseContext) -> ProcessorView {
    ProcessorView::Paragraph(
        InlineLevelView {
            mode: ModeView::Paragraph(ParaView { ctx: c, para: Seq::empty(), start_of_line: false, sentence: seq![inl] }),
            text: crate::interpreter::text::text_empty(),
        },
    )
}

/// Taking an element that an inner processor emitted.
///
/// A paragraph goes in; it ended with a blank line, so nothing more is needed. A block scope, a block
/// or a header from code go in (taken apart where they are blocks of blocks), and must be followed by
/// a newline. An inline element starts a paragraph.
pub open spec fn block_emitted(v: BlockLevelView, e: Option<(ParseContext, DocElementView)>) -> (BlockLevelView, Result<StatusView, TTError>) {
    match e {
        Some((c, DocElementView::Block(BlockElemView::Para(p)))) => (
            BlockLevelView { mode: add_items(v.mode, seq![BlockView::Paragraph(p)]), expects: None },
            Ok(StatusView::Continue),
        ),
        Some((c, DocElementView::Block(BlockElemView::Blocks(blocks)))) => (
            BlockLevelView { mode: add_items(v.mode, flatten_blocks(blocks)), expects: Some(BlockModeElem::Blocks(c)) },
            Ok(StatusView::Continue),
        ),
        Some((c, DocElementView::Block(BlockElemView::FromCode(_, b)))) => (
            BlockLevelView { mode: add_items(v.mode, flatten_block(b)), expects: Some(BlockModeElem::BlockFromCode(c.full_span_spec())) },
            Ok(StatusView::Continue),
        ),
        Some((c, DocElementView::HeaderFromCode(h))) => (
            BlockLevelView { mode: add_items(v.mode, seq![BlockView::Header(h)]), expects: Some(BlockModeElem::HeaderFromCode(c.full_span_spec())) },
            Ok(StatusView::Continue),
        ),
        Some((c, DocElementView::Inline(x))) => (v, Ok(StatusView::PushProcessor(para_with_inline(inline_of(x), c)))),
        None => (v, Ok(StatusView::Continue)),
    }
}

/// Code in this block emitted a source file, whose tokens come here until it opens processors of its
/// own: it may start with content at once.
pub open spec fn block_source_inside(v: BlockLevelView) -> BlockLevelView {
    BlockLevelView { expects: None, ..v }
}

/// The source file that code at `span` emitted has ended: a newline must come before new content.
pub open spec fn block_source_closed(v: BlockLevelView, span: ParseSpan) -> BlockLevelView {
    BlockLevelView { expects: Some(BlockModeElem::SourceFromCode(span)), ..v }
}

impl BlockMode {
    /// The value of the mode.
    pub open spec fn view(self) -> BlockModeView {
        match self {
            BlockMode::TopLevel(t) => BlockModeView::TopLevel(blocks_view(t.items@)),
            BlockMode::BlockScope(b) => BlockModeView::BlockScope(b.ctx, blocks_view(b.blocks@)),
        }
    }

    /// Puts `block` in, taken apart where it is a block of blocks.
    fn add_block(&mut self, block: Block)
        ensures
            final(self).view() == add_items(old(self).view(), flatten_block(block.view())),
        decreases block,
    {
        match block {
            Block::Blocks(v) => {
                let ghost orig_v = v;
                let ghost children = v@;
                let mut v = v;
                let ghost mut k: int = 0;
                let ghost start = self.view();
                proof {
                    assert(add_items(start, Seq::empty()) == start) by {
                        assert(mode_items(start) + Seq::<BlockView>::empty() =~= mode_items(start));
                    }
                    assert(flatten_blocks(blocks_view(children.subrange(0, 0))) =~= Seq::<BlockView>::empty()) by {
                        assert(children.subrange(0, 0) =~= Seq::<Block>::empty());
                    }
                }
                while v.len() > 0
                    invariant
                        block == Block::Blocks(orig_v),
                        orig_v@ == children,
                        0 <= k <= children.len(),
                        v@ == children.subrange(k, children.len() as int),
                        self.view() == add_items(start, flatten_blocks(blocks_view(children.subrange(0, k)))),
                    decreases v.len(),
                {
                    let b = v.remove(0);
                    proof {
                        assert(b == children[k]);
                        assert(block->Blocks_0 == orig_v);
                        assert(decreases_to!(block => block->Blocks_0));
                        assert(decreases_to!(orig_v => orig_v@));
                        assert(decreases_to!(orig_v@ => orig_v@[k]));
                    }
                    self.add_block(b);
                    proof {
                        lemma_flatten_push(children.subrange(0, k), b);
                        assert(children.subrange(0, k).push(b) =~= children.subrange(0, k + 1));
                        lemma_add_items_assoc(start, flatten_blocks(blocks_view(children.subrange(0, k))), flatten_block(b.view()));
                        k = k + 1;
                    }
                }
                proof {
                    assert(children.subrange(0, k) =~= children);
                }
            },
            b => {
                proof {
                    assert(flatten_block(b.view()) == seq![b.view()]);
                }
                match self {
                    BlockMode::TopLevel(t) => {
                        proof {
                            lemma_blocks_view_push(t.items@, b);
                            assert(blocks_view(t.items@).push(b.view()) =~= blocks_view(t.items@) + seq![b.view()]);
                        }
                        t.items.push(b);
                    },
                    BlockMode::BlockScope(sc) => {
                        proof {
                            lemma_blocks_view_push(sc.blocks@, b);
                            assert(blocks_view(sc.blocks@).push(b.view()) =~= blocks_view(sc.blocks@) + seq![b.view()]);
                        }
                        sc.blocks.push(b);
                    },
                }
            },
        }
    }
}

impl BlockLevelProcessor {
    /// The value of the processor.
    pub open spec fn view(self) -> BlockLevelView {
        BlockLevelView { mode: self.mode.view(), expects: self.expects_n_blank_lines_after }
    }

    /// The processor for the top level of a document, with nothing in it yet.
    pub fn new_top_level() -> (r: Self)
        ensures
            r.view() == (BlockLevelView { mode: BlockModeView::TopLevel(Seq::empty()), expects: None }),
    {
        let r = BlockLevelProcessor { mode: BlockMode::TopLevel(TopLevelBlockMode { items: Vec::new() }), expects_n_blank_lines_after: None };
        proof {
            assert(blocks_view(Seq::<Block>::empty()) =~= Seq::<BlockView>::empty());
        }
        r
    }

    /// A processor for a block scope opened at `first_tok`, whose first line ends at `last_tok`.
    pub fn new_block_scope(first_tok: ParseSpan, last_tok: ParseSpan) -> (r: Self)
        ensures
            r.view() == block_scope_new(first_tok, last_tok),
    {
        let r = BlockLevelProcessor {
            mode: BlockMode::BlockScope(BlockScopeBlockMode { ctx: ParseContext::new(first_tok, last_tok), blocks: Vec::new() }),
            expects_n_blank_lines_after: None,
        };
        proof {
            assert(blocks_view(Seq::<Block>::empty()) =~= Seq::<BlockView>::empty());
        }
        r
    }

    /// The blocks and headers of the top level, in order, when this is the top-level processor.
    pub fn into_items(self) -> (r: Vec<Block>)
        ensures
            self.view().mode is TopLevel ==> blocks_view(r@) == mode_items(self.view().mode),
    {
        match self.mode {
            BlockMode::TopLevel(t) => t.items,
            BlockMode::BlockScope(b) => b.blocks,
        }
    }

    fn on_close_scope(&mut self, tok: TTToken) -> (r: Result<ProcStatus, TTError>)
        ensures
            (final(self).view(), result_view(r)) == with_expects(on_close_scope(old(self).view().mode, tok), old(self).view().expects),
    {
        match &mut self.mode {
            BlockMode::TopLevel(_) => Err(TTError::Syntax(TTSyntaxError::BlockScopeCloseOutsideScope(tok.token_span()))),
            BlockMode::BlockScope(b) => {
                if b.ctx.try_extend(&tok.token_span()) {
                    let mut blocks = Vec::new();
                    std::mem::swap(&mut blocks, &mut b.blocks);
                    proof {
                        assert(blocks_view(b.blocks@) =~= Seq::<BlockView>::empty());
                    }
                    Ok(ProcStatus::Pop(Some((b.ctx, DocElement::Block(BlockElem::Blocks(blocks))))))
                } else {
                    Err(TTError::Syntax(TTSyntaxError::BlockScopeCloseOutsideScope(tok.token_span())))
                }
            },
        }
    }

    fn on_eof(&self, tok: TTToken) -> (r: Result<ProcStatus, TTError>)
        ensures
            (self.view(), result_view(r)) == with_expects(on_eof(self.view().mode, tok), self.view().expects),
    {
        match &self.mode {
            BlockMode::TopLevel(_) => Ok(ProcStatus::Continue),
            BlockMode::BlockScope(b) => Err(
                TTError::Syntax(TTSyntaxError::EndedInsideScope { scope_start: b.ctx.first_tok(), eof_span: tok.token_span() }),
            ),
        }
    }

    /// Takes a token; see [block_step].
    pub fn process_token(&mut self, tok: TTToken, data: &str) -> (r: Result<ProcStatus, TTError>)
        requires
            token_fits(tok, data@),
        ensures
            (final(self).view(), result_view(r)) == block_step(old(self).view(), tok, data@),
    {
        match self.expects_n_blank_lines_after {
            Some(last_block) => match tok {
                TTToken::Escaped(span, Escapable::Newline) => Err(TTError::Syntax(TTSyntaxError::EscapedNewlineInBlockMode { newline: span })),
                TTToken::Whitespace(_) => Ok(ProcStatus::Continue),
                TTToken::Newline(_) => {
                    self.expects_n_blank_lines_after = None;
                    Ok(ProcStatus::Continue)
                },
                TTToken::Hashes(_, _) => Ok(ProcStatus::PushProcessor(Processor::Comment(CommentProcessor::new()))),
                TTToken::ScopeClose(_) => self.on_close_scope(tok),
                TTToken::EOF(_) => self.on_eof(tok),
                _ => {
                    self.expects_n_blank_lines_after = None;
                    Err(
                        TTError::Syntax(
                            TTSyntaxError::InsufficientBlockSeparation { last_block, next_block_start: BlockModeElem::AnyToken(tok.token_span()) },
                        ),
                    )
                },
            },
            None => match tok {
                TTToken::Escaped(span, Escapable::Newline) => Err(TTError::Syntax(TTSyntaxError::EscapedNewlineInBlockMode { newline: span })),
                TTToken::Whitespace(_) | TTToken::Newline(_) => Ok(ProcStatus::Continue),
                TTToken::Hashes(_, _) => Ok(ProcStatus::PushProcessor(Processor::Comment(CommentProcessor::new()))),
                TTToken::CodeOpen(start_span, n_brackets) => Ok(ProcStatus::PushProcessor(Processor::Code(CodeProcessor::new(start_span, n_brackets)))),
                TTToken::ScopeOpen(start_span) => Ok(
                    ProcStatus::PushProcessor(Processor::AmbiguousScope(AmbiguousScopeProcessor::new(start_span))),
                ),
                TTToken::RawScopeOpen(start_span, n_opening) => Ok(
                    ProcStatus::PushProcessor(Processor::RawString(RawStringProcessor::new(start_span, n_opening))),
                ),
                TTToken::Escaped(text_span, _) | TTToken::Backslash(text_span) | TTToken::OtherText(text_span) => Ok(
                    ProcStatus::PushProcessor(
                        Processor::Paragraph(InlineLevelProcessor::new_paragraph_with_starting_text(tok.stringify_escaped(data), text_span)),
                    ),
                ),
                TTToken::CodeClose(span, _) => Err(TTError::Syntax(TTSyntaxError::CodeCloseOutsideCode(span))),
                TTToken::RawScopeClose(span, _) => Err(TTError::Syntax(TTSyntaxError::RawScopeCloseOutsideRawScope(span))),
                TTToken::ScopeClose(_) => self.on_close_scope(tok),
                TTToken::EOF(_) => self.on_eof(tok),
            },
        }
    }

    /// Takes an element that an inner processor emitted; see [block_emitted].
    pub fn process_emitted_element(&mut self, emitted: Option<EmittedElement>) -> (r: Result<ProcStatus, TTError>)
        ensures
            (final(self).view(), result_view(r)) == block_emitted(old(self).view(), emitted_view(emitted)),
    {
        match emitted {
            Some((elem_ctx, elem)) => match elem {
                DocElement::Block(BlockElem::Para(p)) => {
                    self.expects_n_blank_lines_after = None;
                    self.mode.add_block(Block::Paragraph(p));
                    Ok(ProcStatus::Continue)
                },
                DocElement::Block(BlockElem::Blocks(blocks)) => {
                    self.expects_n_blank_lines_after = Some(BlockModeElem::Blocks(elem_ctx));
                    self.mode.add_block(Block::Blocks(blocks));
                    Ok(ProcStatus::Continue)
                },
                DocElement::Block(BlockElem::FromCode(_, block)) => {
                    self.expects_n_blank_lines_after = Some(BlockModeElem::BlockFromCode(elem_ctx.full_span()));
                    self.mode.add_block(block);
                    Ok(ProcStatus::Continue)
                },
                DocElement::HeaderFromCode(header) => {
                    self.expects_n_blank_lines_after = Some(BlockModeElem::HeaderFromCode(elem_ctx.full_span()));
                    self.mode.add_block(Block::Header(header));
                    Ok(ProcStatus::Continue)
                },
                DocElement::Inline(inline) => {
                    let inl = match inline {
                        InlineElem::FromCode(h) => Inline::FromCode(h),
                        InlineElem::InlineScope(v) => Inline::InlineScope(v),
                        InlineElem::Raw(s) => Inline::Raw(s),
                    };
                    Ok(ProcStatus::PushProcessor(Processor::Paragraph(InlineLevelProcessor::new_paragraph_with_inline(inl, elem_ctx))))
                },
            },
            None => Ok(ProcStatus::Continue),
        }
    }

    /// Code in this block emitted a source file; see [block_source_inside].
    pub fn on_emitted_source_inside(&mut self)
        ensures
            final(self).view() == block_source_inside(old(self).view()),
    {
        self.expects_n_blank_lines_after = None;
    }

    /// The source file that code at `span` emitted has ended; see [block_source_closed].
    pub fn on_emitted_source_closed(&mut self, span: ParseSpan)
        ensures
            final(self).view() == block_source_closed(old(self).view(), span),
    {
        self.expects_n_blank_lines_after = Some(BlockModeElem::SourceFromCode(span));
    }
}

/// The values of a sequence of blocks taken apart: pushing a block adds its parts.
proof fn lemma_flatten_push(s: Seq<Block>, b: Block)
    ensures
        flatten_blocks(blocks_view(s.push(b))) == flatten_blocks(blocks_view(s)) + flatten_block(b.view()),
{
    lemma_blocks_view_push(s, b);
    let t = blocks_view(s).push(b.view());
    assert(t.drop_last() =~= blocks_view(s));
}

proof fn lemma_add_items_assoc(m: BlockModeView, a: Seq<BlockView>, b: Seq<BlockView>)
    ensures
        add_items(add_items(m, a), b) == add_items(m, a + b),
{
    match m {
        BlockModeView::TopLevel(s) => {
            assert(s + a + b =~= s + (a + b));
        },
        BlockModeView::BlockScope(c, s) => {
            assert(s + a + b =~= s + (a + b));
        },
    }
}

} // verus!
