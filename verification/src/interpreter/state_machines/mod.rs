//! The interpreter is built of processors, each of which takes tokens until it has built its element.
//!
//! Each file has a stack of processors. A token goes to the last processor of the current file's
//! stack, or, when that stack is empty, to the last processor of the file that emitted it (at the
//! bottom of all, the top-level processor, which builds the document).
//!
//! Taking a token gives a [ProcStatus]:
//! - [ProcStatus::Continue]: the processor goes on taking tokens;
//! - [ProcStatus::PushProcessor]: a new processor goes on the stack and takes the following tokens;
//! - [ProcStatus::Pop]: the processor is done, and hands what it built to the one below it;
//! - [ProcStatus::PopAndReprocessToken]: the same, and the processor below takes the token too;
//! - [ProcStatus::PopAndNewSource]: code evaluated to a new source file, whose tokens come next;
//! - [ProcStatus::Evaluate] and [ProcStatus::Build]: code needs Python to evaluate it, or to build
//!   from the scope it owns.
use vstd::prelude::*;

use crate::interpreter::doc::{EmittedElement, emitted_view, DocElementView, BlockView, blocks_view, InlineView, inlines_view, BlockElemView, InlineElemView};
use crate::interpreter::syntax::TTError;
use crate::span::ParseContext;

pub mod ambiguous_scope;
pub mod block;
pub mod code;
pub mod comment;
pub mod inline;
pub mod stacks;
pub mod stack_machine;

use self::ambiguous_scope::{
    AmbiguousScopeProcessor, InlineLevelAmbiguousScopeProcessor, AmbiguousView, InlineAmbiguousView, ambiguous_accepts,
    ambiguous_emitted, ambiguous_step, inline_ambiguous_accepts, inline_ambiguous_emitted, inline_ambiguous_step,
};
use self::code::{BuildArgument, CodeProcessor, CodeView, TurnipTextSource, code_accepts, code_emitted, code_step};
use self::comment::CommentProcessor;
use self::inline::{
    InlineLevelProcessor, InlineLevelView, RawStringProcessor, RawView, ModeView, inline_accepts, inline_emitted, inline_step,
    raw_step, token_fits, err_on_source,
};
use self::block::{BlockLevelView, block_source_closed, block_source_inside};
use crate::lexer::TTToken;
use crate::span::ParseSpan;

verus! {

/// A processor that some other processor pushed on the stack.
pub enum Processor {
    Comment(CommentProcessor),
    RawString(RawStringProcessor),
    Code(CodeProcessor),
    Paragraph(InlineLevelProcessor),
    AmbiguousScope(AmbiguousScopeProcessor),
    InlineLevelAmbiguousScope(InlineLevelAmbiguousScopeProcessor),
}

/// The value of a [Processor].
pub enum ProcessorView {
    Comment,
    RawString(RawView),
    Code(CodeView),
    Paragraph(InlineLevelView),
    AmbiguousScope(AmbiguousView),
    InlineLevelAmbiguousScope(InlineAmbiguousView),
}

impl Processor {
    /// The value of the processor.
    pub open spec fn view(self) -> ProcessorView {
        match self {
            Processor::Comment(_) => ProcessorView::Comment,
            Processor::RawString(p) => ProcessorView::RawString(p.view()),
            Processor::Code(p) => ProcessorView::Code(p.view()),
            Processor::Paragraph(p) => ProcessorView::Paragraph(p.view()),
            Processor::AmbiguousScope(p) => ProcessorView::AmbiguousScope(p.view()),
            Processor::InlineLevelAmbiguousScope(p) => ProcessorView::InlineLevelAmbiguousScope(p.view()),
        }
    }
}

/// What taking a token, or an emitted element, gives.
pub enum ProcStatus {
    /// Keep taking tokens
    Continue,
    /// Push a new processor, which takes the following tokens until it pops itself
    PushProcessor(Processor),
    /// Pop this processor, handing an element (or nothing) to the one below
    Pop(Option<EmittedElement>),
    /// Pop this processor, handing an element (or nothing) to the one below, which then takes the
    /// current token too
    PopAndReprocessToken(Option<EmittedElement>),
    /// Pop this processor: code with the given context evaluated to a new source file
    PopAndNewSource(ParseContext, TurnipTextSource),
    /// The code of this processor is complete and must be evaluated
    Evaluate,
    /// The object (by handle) that the code of this processor evaluated to must build from the scope
    Build(u64, BuildArgument),
}

/// The value of a [BuildArgument].
pub enum BuildArgumentView {
    Blocks(Seq<BlockView>),
    Inlines(Seq<InlineView>),
    Raw(Seq<char>),
}

/// The value of a [ProcStatus].
pub enum StatusView {
    Continue,
    PushProcessor(ProcessorView),
    Pop(Option<(ParseContext, DocElementView)>),
    PopAndReprocessToken(Option<(ParseContext, DocElementView)>),
    PopAndNewSource(ParseContext, Seq<char>, Seq<char>),
    Evaluate,
    Build(u64, BuildArgumentView),
}

impl BuildArgument {
    /// The value of the argument.
    pub open spec fn view(self) -> BuildArgumentView {
        match self {
            BuildArgument::Blocks(v) => BuildArgumentView::Blocks(blocks_view(v@)),
            BuildArgument::Inlines(v) => BuildArgumentView::Inlines(inlines_view(v@)),
            BuildArgument::Raw(s) => BuildArgumentView::Raw(s@),
        }
    }
}

impl ProcStatus {
    /// The value of the status.
    pub open spec fn view(self) -> StatusView {
        match self {
            ProcStatus::Continue => StatusView::Continue,
            ProcStatus::PushProcessor(p) => StatusView::PushProcessor(p.view()),
            ProcStatus::Pop(e) => StatusView::Pop(emitted_view(e)),
            ProcStatus::PopAndReprocessToken(e) => StatusView::PopAndReprocessToken(emitted_view(e)),
            ProcStatus::PopAndNewSource(ctx, src) => StatusView::PopAndNewSource(ctx, src.name@, src.contents@),
            ProcStatus::Evaluate => StatusView::Evaluate,
            ProcStatus::Build(h, arg) => StatusView::Build(h, arg.view()),
        }
    }
}

/// Taking a token, by the kind of processor.
#[verifier::opaque]
pub open spec fn proc_step(v: ProcessorView, tok: TTToken, data: Seq<char>) -> (ProcessorView, Result<StatusView, TTError>) {
    match v {
        ProcessorView::Comment => (v, Ok(
            if tok.is_any_newline() || tok is EOF {
                StatusView::PopAndReprocessToken(None)
            } else {
                StatusView::Continue
            },
        )),
        ProcessorView::RawString(p) => {
            let (p2, r) = raw_step(p, tok, data);
            (ProcessorView::RawString(p2), r)
        },
        ProcessorView::Code(p) => {
            let (p2, r) = code_step(p, tok, data);
            (ProcessorView::Code(p2), r)
        },
        ProcessorView::Paragraph(p) => {
            let (p2, r) = inline_step(p, tok, data);
            (ProcessorView::Paragraph(p2), r)
        },
        ProcessorView::AmbiguousScope(p) => {
            let (p2, r) = ambiguous_step(p, tok, data);
            (ProcessorView::AmbiguousScope(p2), r)
        },
        ProcessorView::InlineLevelAmbiguousScope(p) => {
            let (p2, r) = inline_ambiguous_step(p, tok, data);
            (ProcessorView::InlineLevelAmbiguousScope(p2), r)
        },
    }
}

/// Elements that a processor can be handed, by its kind: only those that the processors it pushes
/// can emit.
pub open spec fn proc_accepts(v: ProcessorView, e: Option<(ParseContext, DocElementView)>) -> bool {
    match v {
        ProcessorView::Comment => false,
        ProcessorView::RawString(_) => false,
        ProcessorView::Code(p) => code_accepts(p, e),
        ProcessorView::Paragraph(_) => inline_accepts(e),
        ProcessorView::AmbiguousScope(p) => ambiguous_accepts(p, e),
        ProcessorView::InlineLevelAmbiguousScope(p) => inline_ambiguous_accepts(p, e),
    }
}

/// Taking an element that an inner processor emitted, by the kind of processor.
#[verifier::opaque]
pub open spec fn proc_emitted(v: ProcessorView, e: Option<(ParseContext, DocElementView)>) -> (ProcessorView, Result<StatusView, TTError>) {
    match v {
        ProcessorView::Code(p) => {
            let (p2, r) = code_emitted(p, e);
            (ProcessorView::Code(p2), r)
        },
        ProcessorView::Paragraph(p) => {
            let (p2, r) = inline_emitted(p, e);
            (ProcessorView::Paragraph(p2), r)
        },
        ProcessorView::AmbiguousScope(p) => {
            let (p2, r) = ambiguous_emitted(p, e);
            (ProcessorView::AmbiguousScope(p2), r)
        },
        ProcessorView::InlineLevelAmbiguousScope(p) => {
            let (p2, r) = inline_ambiguous_emitted(p, e);
            (ProcessorView::InlineLevelAmbiguousScope(p2), r)
        },
        _ => (v, Ok(StatusView::Continue)),
    }
}

/// The inline mode of a processor that is in inline mode.
pub open spec fn inline_mode_of(v: ProcessorView) -> Option<ModeView> {
    match v {
        ProcessorView::Paragraph(p) => Some(p.mode),
        ProcessorView::AmbiguousScope(AmbiguousView::Inline(i)) => Some(i.mode),
        ProcessorView::InlineLevelAmbiguousScope(InlineAmbiguousView::Known(i)) => Some(i.mode),
        _ => None,
    }
}

/// The block-mode state of a processor that is in block mode.
pub open spec fn block_of(v: ProcessorView) -> Option<BlockLevelView> {
    match v {
        ProcessorView::AmbiguousScope(AmbiguousView::Block(b)) => Some(b),
        _ => None,
    }
}

/// Code inside the processor emitted a source file (from the code of `ctx`): processors in block mode
/// take in its tokens; for processors in inline mode it is an error.
pub open spec fn proc_source_inside(v: ProcessorView, ctx: ParseContext) -> (ProcessorView, Result<(), TTError>) {
    match v {
        ProcessorView::AmbiguousScope(AmbiguousView::Block(b)) => (ProcessorView::AmbiguousScope(AmbiguousView::Block(block_source_inside(b))), Ok(())),
        _ => match inline_mode_of(v) {
            Some(m) => (v, Err(err_on_source(m, ctx))),
            None => (v, Ok(())),
        },
    }
}

/// The source file that code in the processor emitted (at `span`) has ended.
pub open spec fn proc_source_closed(v: ProcessorView, span: ParseSpan) -> ProcessorView {
    match v {
        ProcessorView::AmbiguousScope(AmbiguousView::Block(b)) => ProcessorView::AmbiguousScope(AmbiguousView::Block(block_source_closed(b, span))),
        _ => v,
    }
}

impl Processor {
    /// The processor keeps its invariant.
    pub open spec fn wf(self) -> bool {
        match self {
            Processor::Paragraph(p) => p.wf(),
            Processor::AmbiguousScope(p) => p.wf(),
            Processor::InlineLevelAmbiguousScope(p) => p.wf(),
            _ => true,
        }
    }

    /// Takes a token; see [proc_step].
    pub fn process_token(&mut self, tok: TTToken, data: &str) -> (r: Result<ProcStatus, TTError>)
        requires
            old(self).wf(),
            token_fits(tok, data@),
        ensures
            (final(self).view(), result_view(r)) == proc_step(old(self).view(), tok, data@),
            final(self).wf(),
    {
        proof {
            reveal(proc_step);
        }
        match self {
            Processor::Comment(p) => Ok(p.process_token(tok)),
            Processor::RawString(p) => p.process_token(tok, data),
            Processor::Code(p) => p.process_token(tok, data),
            Processor::Paragraph(p) => p.process_token(tok, data),
            Processor::AmbiguousScope(p) => p.process_token(tok, data),
            Processor::InlineLevelAmbiguousScope(p) => p.process_token(tok, data),
        }
    }

    /// Takes an element that an inner processor emitted; see [proc_emitted].
    pub fn process_emitted_element(&mut self, emitted: Option<EmittedElement>) -> (r: Result<ProcStatus, TTError>)
        requires
            old(self).wf(),
            proc_accepts(old(self).view(), emitted_view(emitted)),
        ensures
            (final(self).view(), result_view(r)) == proc_emitted(old(self).view(), emitted_view(emitted)),
            final(self).wf(),
    {
        proof {
            reveal(proc_emitted);
        }
        match self {
            Processor::Code(p) => p.process_emitted_element(emitted),
            Processor::Paragraph(p) => p.process_emitted_element(emitted),
            Processor::AmbiguousScope(p) => p.process_emitted_element(emitted),
            Processor::InlineLevelAmbiguousScope(p) => p.process_emitted_element(emitted),
            _ => Ok(ProcStatus::Continue),
        }
    }

    /// Code inside the processor emitted a source file; see [proc_source_inside].
    pub fn on_emitted_source_inside(&mut self, code_emitting_source: ParseContext) -> (r: Result<(), TTError>)
        ensures
            (final(self).view(), r) == proc_source_inside(old(self).view(), code_emitting_source),
            final(self).wf() == old(self).wf(),
    {
        match self {
            Processor::AmbiguousScope(AmbiguousScopeProcessor::Block(b)) => {
                b.on_emitted_source_inside();
                Ok(())
            },
            Processor::AmbiguousScope(AmbiguousScopeProcessor::Inline(i)) => Err(i.on_emitted_source_inside(code_emitting_source)),
            Processor::Paragraph(i) => Err(i.on_emitted_source_inside(code_emitting_source)),
            Processor::InlineLevelAmbiguousScope(InlineLevelAmbiguousScopeProcessor::Known(i)) => Err(
                i.on_emitted_source_inside(code_emitting_source),
            ),
            _ => Ok(()),
        }
    }

    /// The source file that code in the processor emitted has ended; see [proc_source_closed].
    pub fn on_emitted_source_closed(&mut self, inner_source_emitted_by: ParseSpan)
        ensures
            final(self).view() == proc_source_closed(old(self).view(), inner_source_emitted_by),
            final(self).wf() == old(self).wf(),
    {
        match self {
            Processor::AmbiguousScope(AmbiguousScopeProcessor::Block(b)) => b.on_emitted_source_closed(inner_source_emitted_by),
            _ => {},
        }
    }
}

/// Processors keep the shape they were made with: a paragraph processor builds a paragraph; a scope
/// that became a block scope or an inline scope stays one.
pub open spec fn shape_ok(v: ProcessorView) -> bool {
    match v {
        ProcessorView::Paragraph(p) => p.mode is Paragraph,
        ProcessorView::AmbiguousScope(AmbiguousView::Block(b)) => b.mode is BlockScope,
        ProcessorView::AmbiguousScope(AmbiguousView::Inline(i)) => i.mode is InlineScope,
        ProcessorView::InlineLevelAmbiguousScope(InlineAmbiguousView::Known(i)) => i.mode is InlineScope,
        _ => true,
    }
}

/// The invariant of a processor, on its value: the text being built keeps its invariant.
pub open spec fn view_wf(v: ProcessorView) -> bool {
    match v {
        ProcessorView::Paragraph(p) => p.text.wf(),
        ProcessorView::AmbiguousScope(AmbiguousView::Inline(i)) => i.text.wf(),
        ProcessorView::InlineLevelAmbiguousScope(InlineAmbiguousView::Known(i)) => i.text.wf(),
        _ => true,
    }
}

/// What a processor of the kind of `c` can emit when it pops.
pub open spec fn child_emits(c: ProcessorView, e: Option<(ParseContext, DocElementView)>) -> bool {
    match c {
        ProcessorView::Comment => e is None,
        ProcessorView::RawString(_) => e matches Some((_, DocElementView::Inline(InlineElemView::Raw(_)))),
        ProcessorView::Code(_) => e is None || e matches Some((_, DocElementView::HeaderFromCode(_)))
            || e matches Some((_, DocElementView::Block(BlockElemView::FromCode(_, _))))
            || e matches Some((_, DocElementView::Inline(InlineElemView::FromCode(_)))),
        ProcessorView::Paragraph(_) => e matches Some((_, DocElementView::Block(BlockElemView::Para(_)))),
        ProcessorView::AmbiguousScope(_) => e matches Some((_, DocElementView::Block(BlockElemView::Blocks(_))))
            || e matches Some((_, DocElementView::Inline(InlineElemView::InlineScope(_)))),
        ProcessorView::InlineLevelAmbiguousScope(_) => e matches Some((_, DocElementView::Inline(InlineElemView::InlineScope(_)))),
    }
}

/// `p` may have `c` above it on the stack: `p` pushes processors of that kind, and can take what they
/// emit.
pub open spec fn parent_ok(p: ProcessorView, c: ProcessorView) -> bool {
    match p {
        ProcessorView::AmbiguousScope(AmbiguousView::Block(_)) => true,
        ProcessorView::Paragraph(_)
        | ProcessorView::AmbiguousScope(AmbiguousView::Inline(_))
        | ProcessorView::InlineLevelAmbiguousScope(InlineAmbiguousView::Known(_)) => c is Comment
            || c is InlineLevelAmbiguousScope || c is Code || c is RawString,
        ProcessorView::Code(cv) => cv.evaled is Some && (c is AmbiguousScope || c is RawString),
        ProcessorView::AmbiguousScope(AmbiguousView::Undecided { .. })
        | ProcessorView::InlineLevelAmbiguousScope(InlineAmbiguousView::Undecided { .. }) => c is Comment,
        ProcessorView::Comment | ProcessorView::RawString(_) => false,
    }
}

/// A processor can take whatever the processors it may have above it emit.
pub proof fn lemma_parent_accepts(p: ProcessorView, c: ProcessorView, e: Option<(ParseContext, DocElementView)>)
    requires
        parent_ok(p, c),
        child_emits(c, e),
    ensures
        proc_accepts(p, e),
{
}

/// Two processor values of the same kind.
pub open spec fn same_kind(a: ProcessorView, b: ProcessorView) -> bool {
    match (a, b) {
        (ProcessorView::Comment, ProcessorView::Comment) => true,
        (ProcessorView::RawString(_), ProcessorView::RawString(_)) => true,
        (ProcessorView::Code(_), ProcessorView::Code(_)) => true,
        (ProcessorView::Paragraph(_), ProcessorView::Paragraph(_)) => true,
        (ProcessorView::AmbiguousScope(_), ProcessorView::AmbiguousScope(_)) => true,
        (ProcessorView::InlineLevelAmbiguousScope(_), ProcessorView::InlineLevelAmbiguousScope(_)) => true,
        _ => false,
    }
}

/// `c` may go on the stack above `p`, with its shape and invariant.
pub open spec fn push_ok(p: ProcessorView, c: ProcessorView) -> bool {
    parent_ok(p, c) && shape_ok(c) && view_wf(c)
}

/// What a step gives keeps the invariants: the processor keeps its kind and shape; when it pops, it
/// emits what its kind can; when it pushes, the new processor may stand above it.
pub open spec fn step_ok(v: ProcessorView, r: (ProcessorView, Result<StatusView, TTError>)) -> bool {
    &&& same_kind(v, r.0)
    &&& shape_ok(r.0)
    &&& view_wf(r.0)
    &&& (r.1 matches Ok(StatusView::Pop(e)) ==> child_emits(v, e))
    &&& (r.1 matches Ok(StatusView::PopAndReprocessToken(e)) ==> child_emits(v, e))
    &&& (r.1 matches Ok(StatusView::PushProcessor(c)) ==> push_ok(r.0, c))
    &&& !(r.1 matches Ok(StatusView::Build(_, _)))
    &&& (block_of(v) is Some ==> block_of(r.0) is Some)
    &&& (r.1 matches Ok(StatusView::Evaluate) ==> r.0 is Code)
    &&& (r.1 matches Ok(StatusView::PopAndNewSource(..)) ==> false)
}

/// Steps in inline mode keep the mode's kind and the text's invariant, pop only with what the mode
/// builds, and push only processors that inline mode may have above it.
pub proof fn lemma_inline_step_ok(i: InlineLevelView, tok: TTToken, data: Seq<char>)
    requires
        i.text.wf(),
    ensures
        ({
            let (i2, r) = inline_step(i, tok, data);
            &&& (i.mode is Paragraph <==> i2.mode is Paragraph)
            &&& i2.text.wf()
            &&& (r matches Ok(StatusView::Pop(e)) ==> i.mode is InlineScope && e matches Some((_, DocElementView::Inline(InlineElemView::InlineScope(_)))))
            &&& (r matches Ok(StatusView::PopAndReprocessToken(e)) ==> i.mode is Paragraph && e matches Some((_, DocElementView::Block(BlockElemView::Para(_)))))
            &&& (r matches Ok(StatusView::PushProcessor(c)) ==> (c is Comment || c is InlineLevelAmbiguousScope || c is Code || c is RawString) && shape_ok(c) && view_wf(c))
            &&& !(r matches Ok(StatusView::Build(_, _)))
            &&& !(r matches Ok(StatusView::Evaluate))
            &&& !(r matches Ok(StatusView::PopAndNewSource(..)))
        }),
{
}

/// Steps in block mode keep the mode's kind, never pop at the top level, pop a block scope only with
/// its blocks, and push only processors with their shape and invariant.
pub proof fn lemma_block_step_ok(b: BlockLevelView, tok: TTToken, data: Seq<char>)
    ensures
        ({
            let (b2, r) = block::block_step(b, tok, data);
            &&& (b.mode is TopLevel <==> b2.mode is TopLevel)
            &&& (r matches Ok(StatusView::Pop(e)) ==> b.mode is BlockScope && e matches Some((_, DocElementView::Block(BlockElemView::Blocks(_)))))
            &&& !(r matches Ok(StatusView::PopAndReprocessToken(_)))
            &&& (r matches Ok(StatusView::PushProcessor(c)) ==> shape_ok(c) && view_wf(c))
            &&& !(r matches Ok(StatusView::Build(_, _)))
            &&& !(r matches Ok(StatusView::Evaluate))
            &&& !(r matches Ok(StatusView::PopAndNewSource(..)))
        }),
{
}

/// Every step keeps the invariants of the stack; see [step_ok].
pub proof fn lemma_proc_step_ok(v: ProcessorView, tok: TTToken, data: Seq<char>)
    requires
        shape_ok(v),
        view_wf(v),
    ensures
        step_ok(v, proc_step(v, tok, data)),
{
    reveal(proc_step);
    match v {
        ProcessorView::Paragraph(i) => lemma_inline_step_ok(i, tok, data),
        ProcessorView::AmbiguousScope(a) => match a {
            AmbiguousView::Undecided { first_tok } => {
                let i = ambiguous_scope::inline_scope_new(None, ParseContext::new_spec(first_tok, tok.span()));
                lemma_inline_step_ok(i, tok, data);
            },
            AmbiguousView::Block(b) => lemma_block_step_ok(b, tok, data),
            AmbiguousView::Inline(i) => lemma_inline_step_ok(i, tok, data),
        },
        ProcessorView::InlineLevelAmbiguousScope(a) => match a {
            InlineAmbiguousView::Undecided { preceding_inline, start_of_line, scope_ctx } => {
                let i = ambiguous_scope::inline_scope_new(Some(preceding_inline), scope_ctx);
                lemma_inline_step_ok(i, tok, data);
            },
            InlineAmbiguousView::Known(i) => lemma_inline_step_ok(i, tok, data),
        },
        _ => {},
    }
}

/// A paragraph that has just started with content: it is not at the start of a line.
pub open spec fn fresh(v: ProcessorView) -> bool {
    v matches ProcessorView::Paragraph(p) && p.mode matches ModeView::Paragraph(pp) && !pp.start_of_line
}

/// On EOF, every processor that another pushed either fails or ends and hands EOF on.
pub proof fn lemma_eof_step(v: ProcessorView, tok: TTToken, data: Seq<char>)
    requires
        shape_ok(v),
        view_wf(v),
        tok is EOF,
    ensures
        proc_step(v, tok, data).1 is Err || proc_step(v, tok, data).1 matches Ok(StatusView::PopAndReprocessToken(_)),
{
    reveal(proc_step);
}

/// A paragraph that has just started never ends on a token other than EOF: a newline leaves it at the
/// start of a line, and a scope close is an error.
pub proof fn lemma_fresh_step(v: ProcessorView, tok: TTToken, data: Seq<char>)
    requires
        fresh(v),
        !(tok is EOF),
    ensures
        !(proc_step(v, tok, data).1 matches Ok(StatusView::PopAndReprocessToken(_))),
{
    reveal(proc_step);
}

/// What taking an emitted element gives keeps the invariants: the processor keeps its kind, shape
/// and invariant, never pops or asks for evaluation, pushes only a paragraph that has just started,
/// and asks for a build only when it is code.
pub open spec fn emitted_ok(v: ProcessorView, r: (ProcessorView, Result<StatusView, TTError>)) -> bool {
    &&& same_kind(v, r.0)
    &&& shape_ok(r.0)
    &&& view_wf(r.0)
    &&& !(r.1 matches Ok(StatusView::Pop(_)))
    &&& !(r.1 matches Ok(StatusView::PopAndReprocessToken(_)))
    &&& !(r.1 matches Ok(StatusView::Evaluate))
    &&& !(r.1 matches Ok(StatusView::PopAndNewSource(..)))
    &&& (r.1 matches Ok(StatusView::PushProcessor(c)) ==> push_ok(r.0, c) && fresh(c))
    &&& (r.1 matches Ok(StatusView::Build(_, _)) ==> v is Code)
    &&& (block_of(v) is Some ==> block_of(r.0) is Some)
}

/// Taking an emitted element keeps the invariants; see [emitted_ok].
pub proof fn lemma_proc_emitted_ok(v: ProcessorView, e: Option<(ParseContext, DocElementView)>)
    requires
        shape_ok(v),
        view_wf(v),
        proc_accepts(v, e),
    ensures
        emitted_ok(v, proc_emitted(v, e)),
{
    reveal(proc_emitted);
}

/// Taking a paragraph never pushes.
pub proof fn lemma_para_emitted_no_push(v: ProcessorView, e: Option<(ParseContext, DocElementView)>)
    requires
        e matches Some((_, DocElementView::Block(BlockElemView::Para(_)))),
    ensures
        !(proc_emitted(v, e).1 matches Ok(StatusView::PushProcessor(_))),
{
    reveal(proc_emitted);
}

/// The invariant of a processor is the invariant of its value.
pub proof fn lemma_wf_view(p: Processor)
    ensures
        p.wf() == view_wf(p.view()),
{
}

/// The value of a result of taking a token.
pub open spec fn result_view(r: Result<ProcStatus, TTError>) -> Result<StatusView, TTError> {
    match r {
        Ok(s) => Ok(s.view()),
        Err(e) => Err(e),
    }
}

} // verus!
