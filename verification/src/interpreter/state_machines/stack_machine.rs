//! The stacks of processors as a state machine over their values: what taking a token, an
//! evaluation or a build does to the top-level processor, the processors above it, the starts of the
//! files' own processors, and what the stacks wait for.
//!
//! [super::stacks::ProcessorStacks] is proved to follow these steps.
use vstd::prelude::*;

use crate::interpreter::doc::DocElementView;
use crate::interpreter::syntax::{TTError, TTSyntaxError};
use crate::lexer::TTToken;
use crate::span::{ParseContext, ParseSpan};

use super::block::{block_emitted, block_source_closed, block_source_inside, block_step, BlockLevelView};
use super::code::{code_built, code_evaluated, BuilderOutcomeView, EvalResultView};
use super::stacks::{After, Pending, StackEvent};
use super::{fresh, proc_emitted, proc_source_closed, proc_source_inside, proc_step, BuildArgumentView, ProcessorView, StatusView};

verus! {

/// The value of a [StackEvent].
pub enum EventView {
    Done,
    NewSource(ParseSpan, Seq<char>, Seq<char>),
    Evaluate(Seq<char>, ParseContext),
    Build(u64, BuildArgumentView),
}

impl StackEvent {
    /// The value of the event.
    pub open spec fn view(self) -> EventView {
        match self {
            StackEvent::Done => EventView::Done,
            StackEvent::NewSource(span, src) => EventView::NewSource(span, src.name@, src.contents@),
            StackEvent::Evaluate(code, ctx) => EventView::Evaluate(code@, ctx),
            StackEvent::Build(h, arg) => EventView::Build(h, arg.view()),
        }
    }
}

/// The value of what taking a token gives.
pub open spec fn event_result(r: Result<StackEvent, TTError>) -> Result<EventView, TTError> {
    match r {
        Ok(ev) => Ok(ev.view()),
        Err(e) => Err(e),
    }
}

/// The value of what handing on an element gives.
pub open spec fn opt_event_result(r: Result<Option<StackEvent>, TTError>) -> Result<Option<EventView>, TTError> {
    match r {
        Ok(Some(ev)) => Ok(Some(ev.view())),
        Ok(None) => Ok(None),
        Err(e) => Err(e),
    }
}

/// The value of the stacks: the top-level processor, the processors above it (last on top), where
/// each open file's own processors start, and what the stacks wait for.
pub struct StacksView {
    pub top: BlockLevelView,
    pub procs: Seq<ProcessorView>,
    pub file_starts: Seq<usize>,
    pub pending: Pending,
}

/// Where the current file's own processors start.
pub open spec fn own_start_of(v: StacksView) -> int {
    v.file_starts.last() as int
}

/// How far a token is from being taken (see [super::stacks::bubble_measure]).
pub open spec fn measure_of(procs: Seq<ProcessorView>) -> int {
    2 * procs.len() + if procs.len() > 0 && fresh(procs.last()) {
        0int
    } else {
        1int
    }
}

/// An element goes to the last processor, or to the top level when there is none. A processor may
/// push a new one, or, when it is code, ask for a build (remembering `after`).
pub open spec fn emit_spec(v: StacksView, e: Option<(ParseContext, DocElementView)>, after: After) -> (
    StacksView,
    Result<Option<EventView>, TTError>,
) {
    if v.procs.len() == 0 {
        let (t2, st) = block_emitted(v.top, e);
        let v2 = StacksView { top: t2, ..v };
        match st {
            Ok(StatusView::PushProcessor(c)) => (StacksView { procs: v.procs.push(c), ..v2 }, Ok(None)),
            Ok(_) => (v2, Ok(None)),
            Err(x) => (v2, Err(x)),
        }
    } else {
        let (p2, st) = proc_emitted(v.procs.last(), e);
        after_emitted_spec(StacksView { procs: v.procs.drop_last().push(p2), ..v }, st, after)
    }
}

/// What a processor that took an element asks for: a new processor, or (when it is code) a build.
pub open spec fn after_emitted_spec(v: StacksView, st: Result<StatusView, TTError>, after: After) -> (
    StacksView,
    Result<Option<EventView>, TTError>,
) {
    match st {
        Ok(StatusView::PushProcessor(c)) => (StacksView { procs: v.procs.push(c), ..v }, Ok(None)),
        Ok(StatusView::Build(h, arg)) => (StacksView { pending: Pending::Building(after), ..v }, Ok(Some(EventView::Build(h, arg)))),
        Ok(_) => (v, Ok(None)),
        Err(x) => (v, Err(x)),
    }
}

/// A token that left the current file's processors goes to the processor that encloses the file (or
/// the top level). It can only continue or push: one that would end that processor is a scope close
/// that this file cannot close.
pub open spec fn enclosing_spec(v: StacksView, tok: TTToken, data: Seq<char>) -> (StacksView, Result<EventView, TTError>) {
    if v.procs.len() == 0 {
        let (t2, st) = block_step(v.top, tok, data);
        let v2 = StacksView { top: t2, ..v };
        match st {
            Ok(StatusView::PushProcessor(c)) => (StacksView { procs: v.procs.push(c), ..v2 }, Ok(EventView::Done)),
            Ok(_) => (v2, Ok(EventView::Done)),
            Err(x) => (v2, Err(x)),
        }
    } else {
        let (p2, st) = proc_step(v.procs.last(), tok, data);
        let v2 = StacksView { procs: v.procs.drop_last().push(p2), ..v };
        match st {
            Ok(StatusView::PushProcessor(c)) => (StacksView { procs: v2.procs.push(c), ..v2 }, Ok(EventView::Done)),
            Ok(StatusView::Pop(_)) | Ok(StatusView::PopAndReprocessToken(_)) => (
                v2,
                Err(TTError::Syntax(TTSyntaxError::BlockScopeCloseOutsideScope(tok.span()))),
            ),
            Ok(_) => (v2, Ok(EventView::Done)),
            Err(x) => (v2, Err(x)),
        }
    }
}

/// A token handed on out of the current file's processors: a scope close or raw scope close cannot
/// leave the file; any other token goes on down.
pub open spec fn crossing_error(tok: TTToken) -> Option<TTError> {
    match tok {
        TTToken::ScopeClose(span) => Some(TTError::Syntax(TTSyntaxError::BlockScopeCloseOutsideScope(span))),
        TTToken::RawScopeClose(span, _) => Some(TTError::Syntax(TTSyntaxError::RawScopeCloseOutsideRawScope(span))),
        _ => None,
    }
}

/// What the event of a finished element is: the build it asked for, or nothing more.
pub open spec fn done_unless(r: Result<Option<EventView>, TTError>) -> Result<EventView, TTError> {
    match r {
        Ok(Some(ev)) => Ok(ev),
        Ok(None) => Ok(EventView::Done),
        Err(x) => Err(x),
    }
}

/// A token other than EOF: the last processor of the current file takes it. It may go on, push a
/// processor, ask for its code to be evaluated, or end, handing an element to the processor below;
/// when it also hands on the token, the processor below takes it in turn (at most `fuel` times).
/// When no processor of the file is left, the enclosing one takes it.
pub open spec fn bubble_spec(v: StacksView, tok: TTToken, data: Seq<char>, fuel: nat) -> (StacksView, Result<EventView, TTError>)
    decreases fuel,
{
    if fuel == 0 {
        (v, Ok(EventView::Done))
    } else if v.procs.len() <= own_start_of(v) {
        enclosing_spec(v, tok, data)
    } else {
        let (p2, st) = proc_step(v.procs.last(), tok, data);
        let rest = StacksView { procs: v.procs.drop_last(), ..v };
        let put = StacksView { procs: v.procs.drop_last().push(p2), ..v };
        match st {
            Ok(StatusView::PushProcessor(c)) => (StacksView { procs: put.procs.push(c), ..put }, Ok(EventView::Done)),
            Ok(StatusView::Evaluate) => (
                StacksView { pending: Pending::Evaluation, ..put },
                match p2 {
                    ProcessorView::Code(c) => Ok(EventView::Evaluate(c.code, c.ctx)),
                    _ => Ok(EventView::Done),
                },
            ),
            Ok(StatusView::Pop(e)) => {
                let (v3, r) = emit_spec(rest, e, After::Return);
                (v3, done_unless(r))
            },
            Ok(StatusView::PopAndReprocessToken(e)) => {
                let (v3, r) = emit_spec(rest, e, After::Reprocess(tok));
                match r {
                    Ok(None) => if v3.procs.len() == own_start_of(v) && crossing_error(tok) is Some {
                        (v3, Err(crossing_error(tok)->0))
                    } else {
                        bubble_spec(v3, tok, data, (fuel - 1) as nat)
                    },
                    _ => (v3, done_unless(r)),
                }
            },
            Err(x) => (rest, Err(x)),
            Ok(_) => (put, Ok(EventView::Done)),
        }
    }
}

/// EOF: every processor of the current file, from the last, takes it and ends, handing on what it
/// built (at most `fuel` of them); a build asked for on the way stops it.
pub open spec fn flush_spec(v: StacksView, tok: TTToken, data: Seq<char>, fuel: nat) -> (StacksView, Result<EventView, TTError>)
    decreases fuel,
{
    if fuel == 0 || v.procs.len() <= own_start_of(v) {
        (v, Ok(EventView::Done))
    } else {
        let (p2, st) = proc_step(v.procs.last(), tok, data);
        let rest = StacksView { procs: v.procs.drop_last(), ..v };
        match st {
            Ok(StatusView::PopAndReprocessToken(e)) => {
                let (v3, r) = emit_spec(rest, e, After::Eof(tok));
                match r {
                    Ok(None) => flush_spec(v3, tok, data, (fuel - 1) as nat),
                    _ => (v3, done_unless(r)),
                }
            },
            Err(x) => (rest, Err(x)),
            _ => (rest, Ok(EventView::Done)),
        }
    }
}

/// Taking a token of the current file.
pub open spec fn feed_spec(v: StacksView, tok: TTToken, data: Seq<char>) -> (StacksView, Result<EventView, TTError>) {
    let fuel = (measure_of(v.procs) + 1) as nat;
    if tok is EOF {
        flush_spec(v, tok, data, fuel)
    } else {
        bubble_spec(v, tok, data, fuel)
    }
}

/// Code at `ctx` emitted a source file: the processor below the code (or the top level) is told.
pub open spec fn source_inside_spec(v: StacksView, ctx: ParseContext) -> (StacksView, Result<(), TTError>) {
    if v.procs.len() == 0 {
        (StacksView { top: block_source_inside(v.top), ..v }, Ok(()))
    } else {
        let (q2, r) = proc_source_inside(v.procs.last(), ctx);
        (StacksView { procs: v.procs.drop_last().push(q2), ..v }, r)
    }
}

/// What the code on top evaluated to: a source file ends the code and is handed back once the
/// processor below takes it in; any other object is kept by the code.
pub open spec fn resume_evaluation_spec(v: StacksView, res: EvalResultView) -> (StacksView, Result<EventView, TTError>) {
    let v1 = StacksView { procs: v.procs.drop_last(), pending: Pending::Nothing, ..v };
    match v.procs.last() {
        ProcessorView::Code(c) => {
            let (c2, st) = code_evaluated(c, res);
            match st {
                StatusView::Continue => (StacksView { procs: v1.procs.push(ProcessorView::Code(c2)), ..v1 }, Ok(EventView::Done)),
                StatusView::PopAndNewSource(ctx, name, contents) => {
                    let (v2, r) = source_inside_spec(v1, ctx);
                    (
                        v2,
                        match r {
                            Ok(()) => Ok(EventView::NewSource(ctx.full_span_spec(), name, contents)),
                            Err(x) => Err(x),
                        },
                    )
                },
                _ => (v1, Ok(EventView::Done)),
            }
        },
        _ => (v1, Ok(EventView::Done)),
    }
}

/// What the object of the code on top built: the code ends and hands it on; then the token that was
/// being taken when the build was asked for, if any, goes on being taken.
pub open spec fn resume_build_spec(v: StacksView, out: BuilderOutcomeView, data: Seq<char>) -> (StacksView, Result<EventView, TTError>) {
    let after = match v.pending {
        Pending::Building(a) => a,
        _ => After::Return,
    };
    let v1 = StacksView { procs: v.procs.drop_last(), pending: Pending::Nothing, ..v };
    let e = match v.procs.last() {
        ProcessorView::Code(c) => match code_built(c, out) {
            StatusView::Pop(e) => e,
            _ => None,
        },
        _ => None,
    };
    let (v2, r) = emit_spec(v1, e, after);
    match after {
        After::Return => (v2, done_unless(r)),
        After::Reprocess(tok) => match r {
            Ok(None) => if v2.procs.len() == own_start_of(v2) && crossing_error(tok) is Some {
                (v2, Err(crossing_error(tok)->0))
            } else {
                bubble_spec(v2, tok, data, (measure_of(v2.procs) + 1) as nat)
            },
            _ => (v2, done_unless(r)),
        },
        After::Eof(tok) => match r {
            Ok(None) => flush_spec(v2, tok, data, (measure_of(v2.procs) + 1) as nat),
            _ => (v2, done_unless(r)),
        },
    }
}

/// A new file starts: its own processors will stand above the current ones.
pub open spec fn push_subfile_spec(v: StacksView) -> StacksView {
    StacksView { file_starts: v.file_starts.push(v.procs.len() as usize), ..v }
}

/// The current file has ended; when code (at `emitted_by`) emitted it, the processor that held that
/// code (or the top level) is told.
pub open spec fn pop_subfile_spec(v: StacksView, emitted_by: Option<ParseSpan>) -> StacksView {
    let v1 = StacksView { file_starts: v.file_starts.drop_last(), ..v };
    match emitted_by {
        Some(span) => if v.procs.len() == 0 {
            StacksView { top: block_source_closed(v.top, span), ..v1 }
        } else {
            StacksView { procs: v.procs.drop_last().push(proc_source_closed(v.procs.last(), span)), ..v1 }
        },
        None => v1,
    }
}

} // verus!
