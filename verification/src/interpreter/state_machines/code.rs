//! Eval-brackets: the code between `[` and `]`, what it evaluates to, and the scope it may own.
//!
//! Evaluating code and calling builders is Python's work: the processor asks for it with
//! [ProcStatus::Evaluate] and [ProcStatus::Build], and is handed back what came of it.
use vstd::prelude::*;

use crate::doc_segment::Header;
use crate::interpreter::doc::{
    Block, BlockElem, BlockElemView, BlockView, DocElement, DocElementView, EmittedElement, InlineElem,
    InlineElemView, emitted_view,
};
use crate::interpreter::syntax::{TTError, TTSyntaxError, TTUserPythonError, UserPythonBuildMode};
use crate::lexer::TTToken;
use crate::span::{ParseContext, ParseSpan};

use super::{BuildArgumentView, ProcStatus, Processor, ProcessorView, StatusView, result_view};
use super::ambiguous_scope::{AmbiguousScopeProcessor, AmbiguousView};
use super::inline::{RawStringProcessor, raw_new, token_fits};

verus! {

/// A source file that code evaluated to: its name and contents.
#[derive(Debug)]
pub struct TurnipTextSource {
    pub name: String,
    pub contents: String,
}

/// What an evaluated object stands for when no scope follows the code.
#[derive(Debug)]
pub enum EvalValue {
    /// Python's None: nothing to emit
    PyNone,
    /// A header
    Header(Header),
    /// A block
    Block(Block),
    /// An inline object, or one that could be made inline
    Inline,
    /// None of these
    Other,
}

/// An object that code evaluated to, other than a source file: its handle, what it stands for on
/// its own, and which builders it is.
#[derive(Debug)]
pub struct EvaluatedObject {
    pub handle: u64,
    pub value: EvalValue,
    pub block_builder: bool,
    pub inline_builder: bool,
    pub raw_builder: bool,
}

/// What code evaluated to.
#[derive(Debug)]
pub enum EvalResult {
    Source(TurnipTextSource),
    Object(EvaluatedObject),
}

/// What a builder built from a scope; objects are known by their handle.
#[derive(Debug)]
pub enum BuilderOutcome {
    Block(u64, Block),
    Inline(u64),
    Header(Header),
    /// Python's None: nothing to emit
    PyNone,
}

/// The scope that a builder is asked to build from.
#[derive(Debug)]
pub enum BuildArgument {
    Blocks(Vec<Block>),
    Inlines(Vec<crate::interpreter::doc::Inline>),
    Raw(String),
}

/// The value of an [EvalValue].
pub enum EvalValueView {
    PyNone,
    Header(Header),
    Block(BlockView),
    Inline,
    Other,
}

/// The value of an [EvaluatedObject].
pub struct EvaluatedObjectView {
    pub handle: u64,
    pub value: EvalValueView,
    pub block_builder: bool,
    pub inline_builder: bool,
    pub raw_builder: bool,
}

impl EvaluatedObject {
    /// The value of the object.
    pub open spec fn view(self) -> EvaluatedObjectView {
        EvaluatedObjectView {
            handle: self.handle,
            value: match self.value {
                EvalValue::PyNone => EvalValueView::PyNone,
                EvalValue::Header(h) => EvalValueView::Header(h),
                EvalValue::Block(b) => EvalValueView::Block(b.view()),
                EvalValue::Inline => EvalValueView::Inline,
                EvalValue::Other => EvalValueView::Other,
            },
            block_builder: self.block_builder,
            inline_builder: self.inline_builder,
            raw_builder: self.raw_builder,
        }
    }
}

/// Builds the code of an eval-bracket, waits for what it evaluates to, and then for the scope it may
/// own.
pub struct CodeProcessor {
    pub ctx: ParseContext,
    pub n_closing: usize,
    pub code: String,
    pub evaled_code: Option<EvaluatedObject>,
}

/// The value of a [CodeProcessor].
pub struct CodeView {
    pub ctx: ParseContext,
    pub n_closing: usize,
    pub code: Seq<char>,
    pub evaled: Option<EvaluatedObjectView>,
}

/// A new code processor, opened by `n_opening` brackets at `start_span`.
pub open spec fn code_new(start_span: ParseSpan, n_opening: usize) -> CodeView {
    CodeView { ctx: ParseContext::new_spec(start_span, start_span), n_closing: n_opening, code: Seq::empty(), evaled: None }
}

/// The element that an evaluated object stands for on its own, with the context of its code; `None`
/// for Python's None, and an error for an object that fits nowhere.
pub open spec fn emitted_for_value(obj: EvaluatedObjectView, code_ctx: ParseContext) -> Result<
    StatusView,
    TTError,
> {
    match obj.value {
        EvalValueView::PyNone => Ok(StatusView::PopAndReprocessToken(None)),
        EvalValueView::Header(h) => Ok(StatusView::PopAndReprocessToken(Some((code_ctx, DocElementView::HeaderFromCode(h))))),
        EvalValueView::Block(b) => Ok(
            StatusView::PopAndReprocessToken(Some((code_ctx, DocElementView::Block(BlockElemView::FromCode(obj.handle, b))))),
        ),
        EvalValueView::Inline => Ok(
            StatusView::PopAndReprocessToken(Some((code_ctx, DocElementView::Inline(InlineElemView::FromCode(obj.handle))))),
        ),
        EvalValueView::Other => Err(
            TTError::UserPython(TTUserPythonError::CoercingEvalBracketToElement { code_ctx, obj: obj.handle }),
        ),
    }
}

/// Taking a token.
///
/// Before evaluation: a code close with as many brackets as the opening ends the code and asks for it
/// to be evaluated; EOF is an error; anything else is code, taken as written.
///
/// After evaluation: a scope open or raw scope open starts the scope that the object is to build from;
/// any other token ends the processor, which emits what the object stands for on its own and hands
/// the token on.
pub open spec fn code_step(v: CodeView, tok: TTToken, data: Seq<char>) -> (CodeView, Result<StatusView, TTError>) {
    if v.evaled is None {
        let ctx = v.ctx.extended(tok.span());
        match tok {
            TTToken::CodeClose(_, n) if n == v.n_closing => (CodeView { ctx, ..v }, Ok(StatusView::Evaluate)),
            TTToken::EOF(eof_span) => (
                CodeView { ctx, ..v },
                Err(TTError::Syntax(TTSyntaxError::EndedInsideCode { code_start: v.ctx.first_tok, eof_span })),
            ),
            _ => (CodeView { ctx, code: v.code + tok.raw_text(data), ..v }, Ok(StatusView::Continue)),
        }
    } else {
        match tok {
            TTToken::ScopeOpen(start_span) => (
                v,
                Ok(StatusView::PushProcessor(ProcessorView::AmbiguousScope(AmbiguousView::Undecided { first_tok: start_span }))),
            ),
            TTToken::RawScopeOpen(start_span, n_opening) => (
                v,
                Ok(StatusView::PushProcessor(ProcessorView::RawString(raw_new(start_span, n_opening)))),
            ),
            _ => (CodeView { evaled: None, ..v }, emitted_for_value(v.evaled->0, v.ctx)),
        }
    }
}

/// The value of what code evaluated to.
pub enum EvalResultView {
    Source(Seq<char>, Seq<char>),
    Object(EvaluatedObjectView),
}

impl EvalResult {
    /// The value of the result.
    pub open spec fn view(self) -> EvalResultView {
        match self {
            EvalResult::Source(src) => EvalResultView::Source(src.name@, src.contents@),
            EvalResult::Object(obj) => EvalResultView::Object(obj.view()),
        }
    }
}

/// Taking what the code evaluated to: a source file ends the processor, and its tokens come next;
/// any other object is kept, to see whether a scope follows.
pub open spec fn code_evaluated(v: CodeView, res: EvalResultView) -> (CodeView, StatusView) {
    match res {
        EvalResultView::Source(name, contents) => (v, StatusView::PopAndNewSource(v.ctx, name, contents)),
        EvalResultView::Object(obj) => (CodeView { evaled: Some(obj), ..v }, StatusView::Continue),
    }
}

/// Elements that a code processor can be handed: a finished scope, once the code is evaluated.
pub open spec fn code_accepts(v: CodeView, e: Option<(ParseContext, DocElementView)>) -> bool {
    &&& v.evaled is Some
    &&& e matches Some((_, el)) && (el matches DocElementView::Block(BlockElemView::Blocks(_))
        || el matches DocElementView::Inline(InlineElemView::InlineScope(_))
        || el matches DocElementView::Inline(InlineElemView::Raw(_)))
}

/// The error for an object that is not a builder of the kind the scope needs.
pub open spec fn not_a_builder(v: CodeView, scope_ctx: ParseContext, mode: UserPythonBuildMode) -> TTError {
    TTError::UserPython(
        TTUserPythonError::CoercingEvalBracketToBuilder {
            code_ctx: v.ctx,
            scope_open: scope_ctx.first_tok,
            obj: v.evaled->0.handle,
            build_mode: mode,
        },
    )
}

/// Taking the scope that the code owns: if the object builds from that kind of scope, the code's
/// context takes in the scope and the object is asked to build; else it is an error.
pub open spec fn code_emitted(v: CodeView, e: Option<(ParseContext, DocElementView)>) -> (CodeView, Result<StatusView, TTError>) {
    let obj = v.evaled->0;
    let (c, el) = e->0;
    let built = CodeView { ctx: v.ctx.combined(c), evaled: None, ..v };
    match el {
        DocElementView::Block(BlockElemView::Blocks(blocks)) => if obj.block_builder {
            (built, Ok(StatusView::Build(obj.handle, BuildArgumentView::Blocks(blocks))))
        } else {
            (CodeView { evaled: None, ..v }, Err(not_a_builder(v, c, UserPythonBuildMode::FromBlock)))
        },
        DocElementView::Inline(InlineElemView::InlineScope(inlines)) => if obj.inline_builder {
            (built, Ok(StatusView::Build(obj.handle, BuildArgumentView::Inlines(inlines))))
        } else {
            (CodeView { evaled: None, ..v }, Err(not_a_builder(v, c, UserPythonBuildMode::FromInline)))
        },
        DocElementView::Inline(InlineElemView::Raw(raw)) => if obj.raw_builder {
            (built, Ok(StatusView::Build(obj.handle, BuildArgumentView::Raw(raw))))
        } else {
            (CodeView { evaled: None, ..v }, Err(not_a_builder(v, c, UserPythonBuildMode::FromRaw)))
        },
        _ => (v, Ok(StatusView::Continue)),
    }
}

/// The value of a [BuilderOutcome].
pub enum BuilderOutcomeView {
    Block(u64, BlockView),
    Inline(u64),
    Header(Header),
    PyNone,
}

impl BuilderOutcome {
    /// The value of the outcome.
    pub open spec fn view(self) -> BuilderOutcomeView {
        match self {
            BuilderOutcome::Block(h, b) => BuilderOutcomeView::Block(h, b.view()),
            BuilderOutcome::Inline(h) => BuilderOutcomeView::Inline(h),
            BuilderOutcome::Header(h) => BuilderOutcomeView::Header(h),
            BuilderOutcome::PyNone => BuilderOutcomeView::PyNone,
        }
    }
}

/// Taking what the object built: the processor ends and emits it with the code's context.
pub open spec fn code_built(v: CodeView, out: BuilderOutcomeView) -> StatusView {
    match out {
        BuilderOutcomeView::Block(h, b) => StatusView::Pop(Some((v.ctx, DocElementView::Block(BlockElemView::FromCode(h, b))))),
        BuilderOutcomeView::Inline(h) => StatusView::Pop(Some((v.ctx, DocElementView::Inline(InlineElemView::FromCode(h))))),
        BuilderOutcomeView::Header(h) => StatusView::Pop(Some((v.ctx, DocElementView::HeaderFromCode(h)))),
        BuilderOutcomeView::PyNone => StatusView::Pop(None),
    }
}

impl CodeProcessor {
    /// The value of the processor.
    pub open spec fn view(self) -> CodeView {
        CodeView {
            ctx: self.ctx,
            n_closing: self.n_closing,
            code: self.code@,
            evaled: match self.evaled_code {
                Some(obj) => Some(obj.view()),
                None => None,
            },
        }
    }

    /// A processor for code opened by `n_opening` brackets at `start_span`.
    pub fn new(start_span: ParseSpan, n_opening: usize) -> (r: Self)
        ensures
            r.view() == code_new(start_span, n_opening),
    {
        CodeProcessor {
            ctx: ParseContext::new(start_span, start_span),
            n_closing: n_opening,
            code: String::new(),
            evaled_code: None,
        }
    }

    /// The code built so far.
    pub fn code(&self) -> (r: &str)
        ensures
            r@ == self.code@,
    {
        self.code.as_str()
    }

    /// Takes a token; see [code_step].
    pub fn process_token(&mut self, tok: TTToken, data: &str) -> (r: Result<ProcStatus, TTError>)
        requires
            token_fits(tok, data@),
        ensures
            (final(self).view(), result_view(r)) == code_step(old(self).view(), tok, data@),
    {
        if self.evaled_code.is_none() {
            self.ctx.try_extend(&tok.token_span());
            match tok {
                TTToken::CodeClose(_, n_close_brackets) if n_close_brackets == self.n_closing => Ok(ProcStatus::Evaluate),
                TTToken::EOF(eof_span) => Err(
                    TTError::Syntax(TTSyntaxError::EndedInsideCode { code_start: self.ctx.first_tok(), eof_span }),
                ),
                _ => {
                    // Code is kept as raw text, so that what was written is what runs.
                    self.code.append(tok.stringify_raw(data));
                    Ok(ProcStatus::Continue)
                },
            }
        } else {
            match tok {
                TTToken::ScopeOpen(start_span) => Ok(
                    ProcStatus::PushProcessor(Processor::AmbiguousScope(AmbiguousScopeProcessor::new(start_span))),
                ),
                TTToken::RawScopeOpen(start_span, n_opening) => Ok(
                    ProcStatus::PushProcessor(Processor::RawString(RawStringProcessor::new(start_span, n_opening))),
                ),
                _ => {
                    let ctx = self.ctx;
                    match self.evaled_code.take() {
                        Some(obj) => {
                            let handle = obj.handle;
                            match obj.value {
                                EvalValue::PyNone => Ok(ProcStatus::PopAndReprocessToken(None)),
                                EvalValue::Header(h) => Ok(
                                    ProcStatus::PopAndReprocessToken(Some((ctx, DocElement::HeaderFromCode(h)))),
                                ),
                                EvalValue::Block(b) => Ok(
                                    ProcStatus::PopAndReprocessToken(
                                        Some((ctx, DocElement::Block(BlockElem::FromCode(handle, b)))),
                                    ),
                                ),
                                EvalValue::Inline => Ok(
                                    ProcStatus::PopAndReprocessToken(
                                        Some((ctx, DocElement::Inline(InlineElem::FromCode(handle)))),
                                    ),
                                ),
                                EvalValue::Other => Err(
                                    TTError::UserPython(
                                        TTUserPythonError::CoercingEvalBracketToElement { code_ctx: ctx, obj: handle },
                                    ),
                                ),
                            }
                        },
                        None => Ok(ProcStatus::Continue),
                    }
                },
            }
        }
    }

    /// Takes what the code evaluated to; see [code_evaluated].
    pub fn on_evaluated(&mut self, res: EvalResult) -> (r: ProcStatus)
        ensures
            (final(self).view(), r.view()) == code_evaluated(old(self).view(), res.view()),
    {
        match res {
            EvalResult::Source(src) => ProcStatus::PopAndNewSource(self.ctx, src),
            EvalResult::Object(obj) => {
                self.evaled_code = Some(obj);
                ProcStatus::Continue
            },
        }
    }

    /// Takes the scope that the code owns; see [code_emitted].
    pub fn process_emitted_element(&mut self, emitted: Option<EmittedElement>) -> (r: Result<ProcStatus, TTError>)
        requires
            code_accepts(old(self).view(), emitted_view(emitted)),
        ensures
            (final(self).view(), result_view(r)) == code_emitted(old(self).view(), emitted_view(emitted)),
    {
        let obj = match self.evaled_code.take() {
            Some(obj) => obj,
            None => {
                proof {
                    assert(false);
                }
                return Ok(ProcStatus::Continue);
            },
        };
        let (elem_ctx, elem) = match emitted {
            Some(e) => e,
            None => {
                proof {
                    assert(false);
                }
                return Ok(ProcStatus::Continue);
            },
        };
        let handle = obj.handle;
        match elem {
            DocElement::Block(BlockElem::Blocks(blocks)) => {
                if obj.block_builder {
                    self.ctx.try_combine(elem_ctx);
                    Ok(ProcStatus::Build(handle, BuildArgument::Blocks(blocks)))
                } else {
                    Err(self.not_a_builder(handle, elem_ctx, UserPythonBuildMode::FromBlock))
                }
            },
            DocElement::Inline(InlineElem::InlineScope(inlines)) => {
                if obj.inline_builder {
                    self.ctx.try_combine(elem_ctx);
                    Ok(ProcStatus::Build(handle, BuildArgument::Inlines(inlines)))
                } else {
                    Err(self.not_a_builder(handle, elem_ctx, UserPythonBuildMode::FromInline))
                }
            },
            DocElement::Inline(InlineElem::Raw(raw)) => {
                if obj.raw_builder {
                    self.ctx.try_combine(elem_ctx);
                    Ok(ProcStatus::Build(handle, BuildArgument::Raw(raw)))
                } else {
                    Err(self.not_a_builder(handle, elem_ctx, UserPythonBuildMode::FromRaw))
                }
            },
            _ => {
                proof {
                    assert(false);
                }
                Ok(ProcStatus::Continue)
            },
        }
    }

    fn not_a_builder(&self, handle: u64, scope_ctx: ParseContext, build_mode: UserPythonBuildMode) -> (r: TTError)
        ensures
            r == TTError::UserPython(
                TTUserPythonError::CoercingEvalBracketToBuilder { code_ctx: self.ctx, scope_open: scope_ctx.first_tok, obj: handle, build_mode },
            ),
    {
        TTError::UserPython(
            TTUserPythonError::CoercingEvalBracketToBuilder { code_ctx: self.ctx, scope_open: scope_ctx.first_tok(), obj: handle, build_mode },
        )
    }

    /// Takes what the object built; see [code_built].
    pub fn on_built(&self, outcome: BuilderOutcome) -> (r: ProcStatus)
        ensures
            r.view() == code_built(self.view(), outcome.view()),
    {
        match outcome {
            BuilderOutcome::Block(h, b) => ProcStatus::Pop(Some((self.ctx, DocElement::Block(BlockElem::FromCode(h, b))))),
            BuilderOutcome::Inline(h) => ProcStatus::Pop(Some((self.ctx, DocElement::Inline(InlineElem::FromCode(h))))),
            BuilderOutcome::Header(h) => ProcStatus::Pop(Some((self.ctx, DocElement::HeaderFromCode(h)))),
            BuilderOutcome::PyNone => ProcStatus::Pop(None),
        }
    }
}

/// The scope that follows evaluated code goes to the object as a builder of that kind of scope, and
/// only that kind: a block scope is built from exactly when the object is a block builder, an inline
/// scope exactly when it is an inline builder, and a raw scope exactly when it is a raw builder. The
/// build gets the scope's contents; an object that is not a builder of that kind is refused with the
/// build mode of that kind of scope. Whether the object builds other kinds of scope makes no
/// difference.
pub proof fn lemma_scope_goes_to_its_kind_of_builder(v: CodeView, c: ParseContext, el: DocElementView)
    requires
        v.evaled is Some,
    ensures
        ({
            let obj = v.evaled->0;
            let r = code_emitted(v, Some((c, el))).1;
            &&& el matches DocElementView::Block(BlockElemView::Blocks(blocks)) ==> {
                &&& (r is Ok <==> obj.block_builder)
                &&& obj.block_builder ==> r == Ok::<StatusView, TTError>(
                    StatusView::Build(obj.handle, BuildArgumentView::Blocks(blocks)),
                )
                &&& !obj.block_builder ==> (r matches Err(TTError::UserPython(
                    TTUserPythonError::CoercingEvalBracketToBuilder { obj: h, build_mode: UserPythonBuildMode::FromBlock, .. },
                )) && h == obj.handle)
            }
            &&& el matches DocElementView::Inline(InlineElemView::InlineScope(inlines)) ==> {
                &&& (r is Ok <==> obj.inline_builder)
                &&& obj.inline_builder ==> r == Ok::<StatusView, TTError>(
                    StatusView::Build(obj.handle, BuildArgumentView::Inlines(inlines)),
                )
                &&& !obj.inline_builder ==> (r matches Err(TTError::UserPython(
                    TTUserPythonError::CoercingEvalBracketToBuilder { obj: h, build_mode: UserPythonBuildMode::FromInline, .. },
                )) && h == obj.handle)
            }
            &&& el matches DocElementView::Inline(InlineElemView::Raw(raw)) ==> {
                &&& (r is Ok <==> obj.raw_builder)
                &&& obj.raw_builder ==> r == Ok::<StatusView, TTError>(
                    StatusView::Build(obj.handle, BuildArgumentView::Raw(raw)),
                )
                &&& !obj.raw_builder ==> (r matches Err(TTError::UserPython(
                    TTUserPythonError::CoercingEvalBracketToBuilder { obj: h, build_mode: UserPythonBuildMode::FromRaw, .. },
                )) && h == obj.handle)
            }
        }),
        forall|other: EvaluatedObjectView|
            #![trigger code_emitted(CodeView { evaled: Some(other), ..v }, Some((c, el)))]
            other.handle == v.evaled->0.handle && (el is Block ==> other.block_builder == v.evaled->0.block_builder)
                && (el matches DocElementView::Inline(InlineElemView::InlineScope(_)) ==> other.inline_builder
                == v.evaled->0.inline_builder) && (el matches DocElementView::Inline(InlineElemView::Raw(_))
                ==> other.raw_builder == v.evaled->0.raw_builder) ==> code_emitted(
                CodeView { evaled: Some(other), ..v },
                Some((c, el)),
            ).1 == code_emitted(v, Some((c, el))).1,
{
}

} // verus!
