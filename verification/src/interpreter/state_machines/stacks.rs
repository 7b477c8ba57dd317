//! The stacks of processors, one for each file being read.
//!
//! All processors stand in one vector: the processors of each open file start where the processors
//! of the file that emitted it end. The top-level processor stands below them all.
use vstd::prelude::*;

use crate::interpreter::doc::{Block, DocElementView, EmittedElement, emitted_view};
use crate::interpreter::syntax::{TTError, TTSyntaxError};
use crate::lexer::TTToken;
use crate::span::{ParseContext, ParseSpan};

use super::{
    ProcStatus, Processor, ProcessorView, StatusView, child_emits, emitted_ok, fresh, lemma_eof_step, lemma_fresh_step,
    lemma_parent_accepts, lemma_proc_emitted_ok, lemma_proc_step_ok, parent_ok, proc_accepts, proc_emitted, proc_step,
    push_ok, result_view, shape_ok, step_ok, view_wf, lemma_para_emitted_no_push,
};
use super::block::{BlockLevelProcessor, BlockLevelView, block_emitted, block_step};
use super::code::{BuildArgument, BuilderOutcome, EvalResult, TurnipTextSource, code_built, code_evaluated};
use super::inline::token_fits;
use super::stack_machine::{
    StacksView, after_emitted_spec, bubble_spec, emit_spec, enclosing_spec, event_result, feed_spec, flush_spec, measure_of,
    opt_event_result, pop_subfile_spec, push_subfile_spec, resume_build_spec, resume_evaluation_spec, source_inside_spec,
};

verus! {

/// What to do once a build that was asked for mid-token is done.
#[derive(Clone, Copy)]
pub enum After {
    /// Nothing more: the token was taken
    Return,
    /// Hand the token on to the processor below
    Reprocess(TTToken),
    /// Go on ending the processors of the file
    Eof(TTToken),
}

/// What the stacks wait for, if anything.
pub enum Pending {
    Nothing,
    /// The code on top of the stack to be evaluated
    Evaluation,
    /// The object that the code on top of the stack evaluated to, to build from its scope
    Building(After),
}

/// What came of taking a token.
pub enum StackEvent {
    /// The token was taken
    Done,
    /// Code (whose span is given) evaluated to a new source file, whose tokens come next
    NewSource(ParseSpan, TurnipTextSource),
    /// The code (with its context) must be evaluated, and the result handed back
    Evaluate(String, ParseContext),
    /// The object (by handle) must build from the scope, and the result handed back
    Build(u64, BuildArgument),
}

/// The processors of all open files, and the top-level processor below them.
pub struct ProcessorStacks {
    pub top: BlockLevelProcessor,
    pub procs: Vec<Processor>,
    /// For each open file, where its own processors start in `procs`
    pub file_starts: Vec<usize>,
    pub pending: Pending,
}

/// A processor keeps its invariant and shape.
pub open spec fn proc_ok(p: Processor) -> bool {
    p.wf() && shape_ok(p.view())
}

/// The processor at `i` may have the one at `i + 1` above it.
pub open spec fn adjacent_ok(pv: Seq<Processor>, i: int) -> bool {
    parent_ok(pv[i].view(), pv[i + 1].view())
}

/// Every processor keeps its invariant and shape, and may stand where it stands.
pub open spec fn procs_ok(pv: Seq<Processor>) -> bool {
    &&& forall|i: int| 0 <= i < pv.len() ==> #[trigger] proc_ok(pv[i])
    &&& forall|i: int| 0 <= i < pv.len() - 1 ==> #[trigger] adjacent_ok(pv, i)
}

/// A paragraph that has just started is on top.
pub open spec fn top_fresh(procs: Seq<Processor>) -> bool {
    procs.len() > 0 && fresh(procs.last().view())
}

/// How far a token is from being taken: it can only bubble down the stack, and a paragraph that has
/// just started never hands it on.
pub open spec fn bubble_measure(procs: Seq<Processor>) -> int {
    2 * procs.len() + if top_fresh(procs) {
        0int
    } else {
        1int
    }
}

/// The values of some processors.
pub open spec fn procs_view(s: Seq<Processor>) -> Seq<ProcessorView> {
    s.map_values(|p: Processor| p.view())
}

impl ProcessorStacks {
    /// The value of the stacks.
    pub open spec fn view(self) -> StacksView {
        StacksView { top: self.top.view(), procs: procs_view(self.procs@), file_starts: self.file_starts@, pending: self.pending }
    }

    /// Where the processors of the current file start.
    pub open spec fn own_start(self) -> int {
        self.file_starts@.last() as int
    }

    /// The invariant of the stacks: the file starts are in order and within the processors; each
    /// processor keeps its shape and invariant, and may stand where it stands; what is pending has
    /// its code processor on top.
    pub open spec fn wf(self) -> bool {
        let pv = self.procs@;
        let fs = self.file_starts@;
        &&& self.top.view().mode is TopLevel
        &&& fs.len() > 0
        &&& fs[0] == 0
        &&& forall|i: int, j: int| 0 <= i <= j < fs.len() ==> fs[i] <= fs[j]
        &&& forall|i: int| 0 <= i < fs.len() ==> fs[i] <= pv.len()
        &&& procs_ok(pv)
        &&& forall|k: int| 0 <= k < fs.len() && #[trigger] fs[k] > 0 ==> super::block_of(pv[fs[k] - 1].view()) is Some
        &&& (self.pending is Evaluation ==> pv.len() > self.own_start() && pv.last() is Code)
        &&& (self.pending is Building ==> pv.len() > self.own_start() && pv.last() is Code)
    }

    /// What a step of the stacks keeps: the file starts, and every processor of the files that
    /// enclose the current one, but for the one right below the current file's own processors.
    pub open spec fn keeps_outer(self, other: Self) -> bool {
        &&& other.file_starts@ == self.file_starts@
        &&& other.procs@.len() >= self.own_start()
        &&& forall|i: int| 0 <= i < self.own_start() - 1 ==> other.procs@[i] == self.procs@[i]
        &&& (self.own_start() > 0 ==> other.top == self.top)
    }

    /// Stacks for a new document: the top-level processor, and the first file with no processors.
    pub fn new() -> (r: Self)
        ensures
            r.wf(),
            r.pending is Nothing,
            r.procs@.len() == 0,
            r.file_starts@ == seq![0usize],
            r.view() == (StacksView {
                top: BlockLevelView { mode: super::block::BlockModeView::TopLevel(Seq::empty()), expects: None },
                procs: Seq::empty(),
                file_starts: seq![0usize],
                pending: Pending::Nothing,
            }),
    {
        let mut file_starts = Vec::new();
        file_starts.push(0);
        let r = ProcessorStacks { top: BlockLevelProcessor::new_top_level(), procs: Vec::new(), file_starts, pending: Pending::Nothing };
        proof {
            assert(procs_view(r.procs@) =~= Seq::<ProcessorView>::empty());
        }
        r
    }

    fn own_start_exec(&self) -> (r: usize)
        requires
            self.file_starts@.len() > 0,
        ensures
            r == self.own_start(),
    {
        self.file_starts[self.file_starts.len() - 1]
    }

    /// Hands the element emitted by a processor that was just popped to the processor below it.
    /// Asks for a build (remembering what to do afterwards) when that processor is code.
    fn emit(&mut self, emitted: Option<EmittedElement>, after: After, Ghost(child): Ghost<ProcessorView>) -> (r: Result<Option<StackEvent>, TTError>)
        requires
            old(self).wf(),
            old(self).pending is Nothing,
            old(self).procs@.len() >= old(self).own_start(),
            old(self).procs@.len() > 0 ==> parent_ok(old(self).procs@.last().view(), child),
            child_emits(child, emitted_view(emitted)),
        ensures
            r is Ok ==> final(self).wf(),
            r is Ok ==> old(self).keeps_outer(*final(self)),
            r matches Ok(Some(ev)) ==> ev is Build && final(self).pending == Pending::Building(after),
            r matches Ok(None) ==> final(self).pending is Nothing,
            r matches Ok(None) ==> final(self).procs@.len() <= old(self).procs@.len()
                || (final(self).procs@.len() == old(self).procs@.len() + 1 && top_fresh(final(self).procs@)),
            emitted_view(emitted) matches Some((_, DocElementView::Block(crate::interpreter::doc::BlockElemView::Para(_))))
                ==> final(self).procs@.len() <= old(self).procs@.len(),
            opt_event_result(r) == emit_spec(old(self).view(), emitted_view(emitted), after).1,
            final(self).view() == emit_spec(old(self).view(), emitted_view(emitted), after).0,
    {
        if self.procs.len() == 0 {
            self.emit_into_top(emitted)
        } else {
            self.emit_into_proc(emitted, after, Ghost(child))
        }
    }

    fn emit_into_top(&mut self, emitted: Option<EmittedElement>) -> (r: Result<Option<StackEvent>, TTError>)
        requires
            old(self).wf(),
            old(self).pending is Nothing,
            old(self).procs@.len() == 0,
        ensures
            r is Ok ==> final(self).wf(),
            r is Ok ==> old(self).keeps_outer(*final(self)),
            r matches Ok(o) ==> o is None && final(self).pending is Nothing,
            r matches Ok(None) ==> final(self).procs@.len() == 0 || (final(self).procs@.len() == 1 && top_fresh(final(self).procs@)),
            emitted_view(emitted) matches Some((_, DocElementView::Block(crate::interpreter::doc::BlockElemView::Para(_))))
                ==> final(self).procs@.len() == 0,
            opt_event_result(r) == emit_spec(old(self).view(), emitted_view(emitted), After::Return).1,
            final(self).view() == emit_spec(old(self).view(), emitted_view(emitted), After::Return).0,
    {
        let ghost b0 = self.top.view();
        proof {
            lemma_top_emitted_ok(b0, emitted_view(emitted));
        }
        let status = self.top.process_emitted_element(emitted);
        match status {
            Ok(ProcStatus::Continue) => Ok(None),
            Ok(ProcStatus::PushProcessor(p)) => {
                proof {
                    lemma_push(self.procs@, p);
                }
                let ghost before = self.procs@;
                self.procs.push(p);
                proof {
                    let fs = self.file_starts@;
                    assert forall|i: int| 0 <= i < fs.len() implies fs[i] <= self.procs@.len() by {
                        assert(fs[i] <= 0);
                    }
                    assert(procs_view(self.procs@) =~= procs_view(before).push(p.view()));
                }
                Ok(None)
            },
            Err(e) => Err(e),
            _ => {
                proof {
                    assert(false);
                }
                Ok(None)
            },
        }
    }

    fn emit_into_proc(&mut self, emitted: Option<EmittedElement>, after: After, Ghost(child): Ghost<ProcessorView>) -> (r: Result<Option<StackEvent>, TTError>)
        requires
            old(self).wf(),
            old(self).pending is Nothing,
            old(self).procs@.len() >= old(self).own_start(),
            old(self).procs@.len() > 0,
            parent_ok(old(self).procs@.last().view(), child),
            child_emits(child, emitted_view(emitted)),
        ensures
            opt_event_result(r) == emit_spec(old(self).view(), emitted_view(emitted), after).1,
            final(self).view() == emit_spec(old(self).view(), emitted_view(emitted), after).0,
            r is Ok ==> final(self).wf(),
            r is Ok ==> old(self).keeps_outer(*final(self)),
            r matches Ok(Some(ev)) ==> ev is Build && final(self).pending == Pending::Building(after),
            r matches Ok(None) ==> final(self).pending is Nothing,
            r matches Ok(None) ==> final(self).procs@.len() <= old(self).procs@.len()
                || (final(self).procs@.len() == old(self).procs@.len() + 1 && top_fresh(final(self).procs@)),
            emitted_view(emitted) matches Some((_, DocElementView::Block(crate::interpreter::doc::BlockElemView::Para(_))))
                ==> final(self).procs@.len() <= old(self).procs@.len(),
    {
        let ghost old_procs = self.procs@;
        proof {
            lemma_pop(old_procs);
        }
        let mut p = self.procs.pop().unwrap();
        let ghost pv0 = p.view();
        proof {
            assert(p == old_procs.last());
            lemma_parent_accepts(pv0, child, emitted_view(emitted));
            lemma_proc_emitted_ok(pv0, emitted_view(emitted));
            if emitted_view(emitted) matches Some((_, DocElementView::Block(crate::interpreter::doc::BlockElemView::Para(_)))) {
                lemma_para_emitted_no_push(pv0, emitted_view(emitted));
            }
        }
        let status = p.process_emitted_element(emitted);
        proof {
            lemma_replace_last(old_procs, p);
            super::lemma_wf_view(p);
        }
        self.procs.push(p);
        proof {
            let n = old_procs.len();
            assert(self.procs@ =~= old_procs.drop_last().push(p));
            assert(self.procs@.drop_last() =~= old_procs.drop_last());
            assert(procs_view(self.procs@) =~= procs_view(old_procs).drop_last().push(p.view()));
            assert(procs_view(old_procs).last() == pv0);
            let fs = self.file_starts@;
            assert forall|k: int| 0 <= k < fs.len() && #[trigger] fs[k] > 0 implies super::block_of(self.procs@[fs[k] - 1].view()) is Some by {
                assert(fs[k] <= fs[fs.len() - 1]);
                assert(super::block_of(old_procs[fs[k] - 1].view()) is Some);
                if fs[k] - 1 < n - 1 {
                    assert(self.procs@[fs[k] - 1] == old_procs[fs[k] - 1]);
                }
            }
            if status matches Ok(ProcStatus::Build(_, _)) {
                if n - 1 == self.own_start() - 1 {
                    let k = fs.len() - 1;
                    assert(fs[k] > 0);
                    assert(super::block_of(old_procs[fs[k] - 1].view()) is Some);
                }
            }
        }
        let r = self.after_emitted(status, after, Ghost(old_procs), Ghost(pv0));
        proof {
            if r is Ok {
                assert forall|i: int| 0 <= i < old(self).own_start() - 1 implies self.procs@[i] == old(self).procs@[i] by {
                    assert(self.procs@.subrange(0, old_procs.len() as int)[i] == self.procs@[i]);
                }
            }
        }
        r
    }

    fn after_emitted(&mut self, status: Result<ProcStatus, TTError>, after: After, Ghost(old_procs): Ghost<Seq<Processor>>, Ghost(pv0): Ghost<ProcessorView>) -> (r: Result<Option<StackEvent>, TTError>)
        requires
            old(self).wf(),
            old(self).pending is Nothing,
            old_procs.len() > 0,
            old(self).procs@.len() == old_procs.len(),
            old(self).procs@.drop_last() == old_procs.drop_last(),
            emitted_ok(pv0, (old(self).procs@.last().view(), result_view(status))),
            result_view(status) matches Ok(StatusView::Build(_, _)) ==> old(self).procs@.len() > old(self).own_start(),
        ensures
            r is Ok ==> final(self).wf(),
            r is Ok ==> final(self).file_starts@ == old(self).file_starts@ && final(self).top == old(self).top,
            r is Ok ==> final(self).procs@.len() >= old(self).procs@.len() && final(self).procs@.subrange(0, old(self).procs@.len() as int) == old(self).procs@,
            r matches Ok(Some(ev)) ==> ev is Build && final(self).pending == Pending::Building(after),
            r matches Ok(None) ==> final(self).pending is Nothing,
            r matches Ok(None) ==> final(self).procs@.len() == old(self).procs@.len()
                || (final(self).procs@.len() == old(self).procs@.len() + 1 && top_fresh(final(self).procs@)),
            !(result_view(status) matches Ok(StatusView::PushProcessor(_))) ==> final(self).procs@.len() == old(self).procs@.len(),
            opt_event_result(r) == after_emitted_spec(old(self).view(), result_view(status), after).1,
            final(self).view() == after_emitted_spec(old(self).view(), result_view(status), after).0,
    {
        match status {
            Ok(ProcStatus::Continue) => Ok(None),
            Ok(ProcStatus::PushProcessor(c)) => {
                proof {
                    lemma_push(self.procs@, c);
                }
                let ghost before = self.procs@;
                self.procs.push(c);
                proof {
                    assert(procs_view(self.procs@) =~= procs_view(before).push(c.view()));
                    assert(self.procs@.subrange(0, before.len() as int) =~= before);
                    let fs = self.file_starts@;
                    assert forall|i: int| 0 <= i < fs.len() implies fs[i] <= self.procs@.len() by {
                        assert(fs[i] <= before.len());
                    }
                }
                Ok(None)
            },
            Ok(ProcStatus::Build(h, arg)) => {
                self.pending = Pending::Building(after);
                proof {
                    assert(self.procs@.subrange(0, self.procs@.len() as int) =~= self.procs@);
                }
                Ok(Some(StackEvent::Build(h, arg)))
            },
            Err(e) => Err(e),
            _ => {
                proof {
                    assert(false);
                }
                Ok(None)
            },
        }
    }

    /// The enclosing processor (the last one of the files around this one, or the top level) takes a
    /// token of this file, whose own stack is empty.
    fn take_by_enclosing(&mut self, tok: TTToken, data: &str) -> (r: Result<StackEvent, TTError>)
        requires
            old(self).wf(),
            old(self).pending is Nothing,
            old(self).procs@.len() == old(self).own_start(),
            token_fits(tok, data@),
        ensures
            r is Ok ==> final(self).wf() && old(self).keeps_outer(*final(self)),
            r matches Ok(ev) ==> ev is Done && final(self).pending is Nothing,
            event_result(r) == enclosing_spec(old(self).view(), tok, data@).1,
            final(self).view() == enclosing_spec(old(self).view(), tok, data@).0,
    {
        if self.procs.len() == 0 {
            let ghost b0 = self.top.view();
            proof {
                super::lemma_block_step_ok(b0, tok, data@);
            }
            let status = self.top.process_token(tok, data);
            match status {
                Ok(ProcStatus::Continue) => Ok(StackEvent::Done),
                Ok(ProcStatus::PushProcessor(c)) => {
                    proof {
                        lemma_push(self.procs@, c);
                    }
                    let ghost before = self.procs@;
                    self.procs.push(c);
                    proof {
                        let fs = self.file_starts@;
                        assert forall|i: int| 0 <= i < fs.len() implies fs[i] <= self.procs@.len() by {
                            assert(fs[i] <= 0);
                        }
                        assert(procs_view(self.procs@) =~= procs_view(before).push(c.view()));
                    }
                    Ok(StackEvent::Done)
                },
                Err(e) => Err(e),
                _ => {
                    proof {
                        assert(false);
                    }
                    Ok(StackEvent::Done)
                },
            }
        } else {
            let ghost old_procs = self.procs@;
            proof {
                lemma_pop(old_procs);
                let k = self.file_starts@.len() - 1;
                assert(self.file_starts@[k] > 0);
                assert(super::block_of(old_procs[self.file_starts@[k] - 1].view()) is Some);
            }
            let mut p = self.procs.pop().unwrap();
            proof {
                assert(p == old_procs.last());
                lemma_proc_step_ok(p.view(), tok, data@);
            }
            let status = p.process_token(tok, data);
            proof {
                lemma_replace_last(old_procs, p);
                super::lemma_wf_view(p);
            }
            self.procs.push(p);
            proof {
                let n = old_procs.len();
                assert(self.procs@ =~= old_procs.drop_last().push(p));
                self.lemma_boundary_after_replace(old_procs, p);
                assert(procs_view(self.procs@) =~= procs_view(old_procs).drop_last().push(p.view()));
            }
            match status {
                Ok(ProcStatus::Continue) => Ok(StackEvent::Done),
                Ok(ProcStatus::PushProcessor(c)) => {
                    let ghost before = self.procs@;
                    proof {
                        lemma_push(before, c);
                    }
                    self.procs.push(c);
                    proof {
                        self.lemma_boundary_after_push(before, c);
                        assert(procs_view(self.procs@) =~= procs_view(before).push(c.view()));
                    }
                    Ok(StackEvent::Done)
                },
                Err(e) => Err(e),
                // In block mode, only a scope close ends the processor; a scope close from a file that
                // code emitted cannot close a scope of the file around it.
                Ok(ProcStatus::Pop(_)) | Ok(ProcStatus::PopAndReprocessToken(_)) => Err(
                    TTError::Syntax(TTSyntaxError::BlockScopeCloseOutsideScope(tok.token_span())),
                ),
                _ => {
                    proof {
                        assert(false);
                    }
                    Ok(StackEvent::Done)
                },
            }
        }
    }

    proof fn lemma_boundary_after_replace(self, old_procs: Seq<Processor>, p: Processor)
        requires
            old_procs.len() > 0,
            self.procs@ == old_procs.drop_last().push(p),
            forall|k: int| 0 <= k < self.file_starts@.len() && #[trigger] self.file_starts@[k] > 0 ==> super::block_of(old_procs[self.file_starts@[k] - 1].view()) is Some,
            forall|k: int| 0 <= k < self.file_starts@.len() ==> self.file_starts@[k] <= old_procs.len(),
            super::block_of(old_procs.last().view()) is Some ==> super::block_of(p.view()) is Some,
        ensures
            forall|k: int| 0 <= k < self.file_starts@.len() && #[trigger] self.file_starts@[k] > 0 ==> super::block_of(self.procs@[self.file_starts@[k] - 1].view()) is Some,
    {
        let fs = self.file_starts@;
        let n = old_procs.len();
        assert forall|k: int| 0 <= k < fs.len() && #[trigger] fs[k] > 0 implies super::block_of(self.procs@[fs[k] - 1].view()) is Some by {
            assert(super::block_of(old_procs[fs[k] - 1].view()) is Some);
            if fs[k] - 1 < n - 1 {
                assert(self.procs@[fs[k] - 1] == old_procs[fs[k] - 1]);
            }
        }
    }

    proof fn lemma_boundary_after_push(self, before: Seq<Processor>, c: Processor)
        requires
            self.procs@ == before.push(c),
            forall|k: int| 0 <= k < self.file_starts@.len() && #[trigger] self.file_starts@[k] > 0 ==> super::block_of(before[self.file_starts@[k] - 1].view()) is Some,
            forall|k: int| 0 <= k < self.file_starts@.len() ==> self.file_starts@[k] <= before.len(),
        ensures
            forall|k: int| 0 <= k < self.file_starts@.len() && #[trigger] self.file_starts@[k] > 0 ==> super::block_of(self.procs@[self.file_starts@[k] - 1].view()) is Some,
            forall|k: int| 0 <= k < self.file_starts@.len() ==> self.file_starts@[k] <= self.procs@.len(),
    {
        let fs = self.file_starts@;
        assert forall|k: int| 0 <= k < fs.len() && #[trigger] fs[k] > 0 implies super::block_of(self.procs@[fs[k] - 1].view()) is Some by {
            assert(super::block_of(before[fs[k] - 1].view()) is Some);
            assert(self.procs@[fs[k] - 1] == before[fs[k] - 1]);
        }
    }


    /// Says what a code processor that asked for evaluation is to evaluate.
    fn evaluate_event(c: &super::code::CodeProcessor) -> (r: StackEvent)
        ensures
            r matches StackEvent::Evaluate(code, ctx) && code@ == c.code@ && ctx == c.ctx,
    {
        StackEvent::Evaluate(String::from_str(c.code()), c.ctx)
    }

    /// A token other than EOF: the last processor of this file takes it; while processors end and
    /// hand it on, the ones below take it in turn. When it leaves this file's processors, the
    /// enclosing processor takes it, except a scope close or raw scope close, which cannot close
    /// anything of the enclosing file.
    fn bubble(&mut self, tok: TTToken, data: &str) -> (r: Result<StackEvent, TTError>)
        requires
            old(self).wf(),
            old(self).pending is Nothing,
            old(self).procs@.len() >= old(self).own_start(),
            token_fits(tok, data@),
            !(tok is EOF),
        ensures
            r is Ok ==> final(self).wf(),
            r is Ok ==> old(self).keeps_outer(*final(self)),
            r matches Ok(ev) ==> (ev is Evaluate <==> final(self).pending is Evaluation),
            r matches Ok(ev) ==> (ev is Build <==> final(self).pending is Building),
            r matches Ok(ev) ==> !(ev is NewSource),
            r matches Ok(ev) ==> (final(self).pending matches Pending::Building(After::Reprocess(t)) ==> t == tok),
            r matches Ok(ev) ==> !(final(self).pending matches Pending::Building(After::Eof(_))),
            event_result(r) == bubble_spec(old(self).view(), tok, data@, (bubble_measure(old(self).procs@) + 1) as nat).1,
            final(self).view() == bubble_spec(old(self).view(), tok, data@, (bubble_measure(old(self).procs@) + 1) as nat).0,
    {
        let ghost start = *self;
        let ghost f0 = (bubble_measure(start.procs@) + 1) as nat;
        let ghost mut fuel: nat = f0;
        loop
            invariant
                start == *old(self),
                self.wf(),
                self.pending is Nothing,
                self.procs@.len() >= self.own_start(),
                start.keeps_outer(*self),
                start.own_start() == self.own_start(),
                token_fits(tok, data@),
                !(tok is EOF),
                f0 == (bubble_measure(start.procs@) + 1) as nat,
                fuel >= bubble_measure(self.procs@) + 1,
                bubble_spec(start.view(), tok, data@, f0) == bubble_spec(self.view(), tok, data@, fuel),
            decreases bubble_measure(self.procs@),
        {
            let ghost iter = *self;
            proof {
                lemma_bubble_measure_nonneg(self.procs@);
            }
            let own_start = self.own_start_exec();
            if self.procs.len() == own_start {
                let r = self.take_by_enclosing(tok, data);
                proof {
                    if r is Ok {
                        Self::lemma_keeps_outer_trans(start, iter, *self);
                    }
                }
                return r;
            }
            let ghost old_procs = self.procs@;
            let ghost measure0 = bubble_measure(old_procs);
            proof {
                lemma_pop(old_procs);
            }
            let mut p = self.procs.pop().unwrap();
            let ghost pv0 = p.view();
            proof {
                assert(p == old_procs.last());
                lemma_proc_step_ok(pv0, tok, data@);
                if fresh(pv0) {
                    lemma_fresh_step(pv0, tok, data@);
                }
                Self::lemma_keeps_outer_prefix(iter, *self);
                Self::lemma_keeps_outer_trans(start, iter, *self);
                assert(procs_view(self.procs@) =~= procs_view(old_procs).drop_last());
                assert(procs_view(old_procs).last() == pv0);
            }
            let status = p.process_token(tok, data);
            match status {
                Ok(ProcStatus::Continue) => {
                    self.put_back(p, Ghost(old_procs));
                    proof {
                        Self::lemma_keeps_outer_prefix(iter, *self);
                        Self::lemma_keeps_outer_trans(start, iter, *self);
                    }
                    return Ok(StackEvent::Done);
                },
                Ok(ProcStatus::PushProcessor(c)) => {
                    self.put_back(p, Ghost(old_procs));
                    let ghost before = self.procs@;
                    proof {
                        lemma_push(before, c);
                    }
                    self.procs.push(c);
                    proof {
                        self.lemma_boundary_after_push(before, c);
                        Self::lemma_keeps_outer_prefix(iter, *self);
                        Self::lemma_keeps_outer_trans(start, iter, *self);
                        assert(procs_view(self.procs@) =~= procs_view(before).push(c.view()));
                    }
                    return Ok(StackEvent::Done);
                },
                Ok(ProcStatus::Evaluate) => {
                    let ev = match &p {
                        Processor::Code(c) => Self::evaluate_event(c),
                        _ => {
                            proof {
                                assert(false);
                            }
                            StackEvent::Done
                        },
                    };
                    self.put_back(p, Ghost(old_procs));
                    self.pending = Pending::Evaluation;
                    proof {
                        Self::lemma_keeps_outer_prefix(iter, *self);
                        Self::lemma_keeps_outer_trans(start, iter, *self);
                    }
                    return Ok(ev);
                },
                Ok(ProcStatus::Pop(e)) => {
                    let ghost mid = *self;
                    let r = self.emit(e, After::Return, Ghost(pv0));
                    proof {
                        if r is Ok {
                            Self::lemma_keeps_outer_trans(start, mid, *self);
                        }
                    }
                    match r {
                        Ok(Some(ev)) => return Ok(ev),
                        Ok(None) => return Ok(StackEvent::Done),
                        Err(e) => return Err(e),
                    }
                },
                Ok(ProcStatus::PopAndReprocessToken(e)) => {
                    let ghost mid = *self;
                    let r = self.emit(e, After::Reprocess(tok), Ghost(pv0));
                    proof {
                        if r is Ok {
                            Self::lemma_keeps_outer_trans(start, mid, *self);
                        }
                    }
                    match r {
                        Ok(Some(ev)) => return Ok(ev),
                        Ok(None) => {},
                        Err(e) => return Err(e),
                    }
                    if self.procs.len() == own_start {
                        match tok {
                            TTToken::ScopeClose(span) => return Err(TTError::Syntax(TTSyntaxError::BlockScopeCloseOutsideScope(span))),
                            TTToken::RawScopeClose(span, _) => return Err(
                                TTError::Syntax(TTSyntaxError::RawScopeCloseOutsideRawScope(span)),
                            ),
                            _ => {},
                        }
                    }
                    proof {
                        assert(bubble_measure(self.procs@) < measure0);
                        fuel = (fuel - 1) as nat;
                    }
                },
                Err(e) => return Err(e),
                _ => {
                    proof {
                        assert(false);
                    }
                    return Ok(StackEvent::Done);
                },
            }
        }
    }

    /// EOF: every processor of this file takes it in turn, from the last, and hands on what it built.
    fn flush_eof(&mut self, tok: TTToken, data: &str) -> (r: Result<StackEvent, TTError>)
        requires
            old(self).wf(),
            old(self).pending is Nothing,
            old(self).procs@.len() >= old(self).own_start(),
            token_fits(tok, data@),
            tok is EOF,
        ensures
            r is Ok ==> final(self).wf(),
            r is Ok ==> old(self).keeps_outer(*final(self)),
            r matches Ok(ev) ==> (ev is Build <==> final(self).pending is Building),
            r matches Ok(ev) ==> !(ev is Evaluate) && !(ev is NewSource),
            r matches Ok(ev) ==> !(final(self).pending is Evaluation),
            r matches Ok(ev) ==> (final(self).pending matches Pending::Building(after) ==> after == After::Eof(tok)),
            r matches Ok(StackEvent::Done) ==> final(self).procs@.len() == final(self).own_start(),
            event_result(r) == flush_spec(old(self).view(), tok, data@, (bubble_measure(old(self).procs@) + 1) as nat).1,
            final(self).view() == flush_spec(old(self).view(), tok, data@, (bubble_measure(old(self).procs@) + 1) as nat).0,
    {
        let ghost start = *self;
        let ghost f0 = (bubble_measure(start.procs@) + 1) as nat;
        let ghost mut fuel: nat = f0;
        loop
            invariant
                start == *old(self),
                self.wf(),
                self.pending is Nothing,
                self.procs@.len() >= self.own_start(),
                start.keeps_outer(*self),
                start.own_start() == self.own_start(),
                token_fits(tok, data@),
                tok is EOF,
                f0 == (bubble_measure(start.procs@) + 1) as nat,
                fuel >= bubble_measure(self.procs@) + 1,
                flush_spec(start.view(), tok, data@, f0) == flush_spec(self.view(), tok, data@, fuel),
            decreases bubble_measure(self.procs@),
        {
            let ghost iter = *self;
            proof {
                lemma_bubble_measure_nonneg(self.procs@);
            }
            let own_start = self.own_start_exec();
            if self.procs.len() == own_start {
                return Ok(StackEvent::Done);
            }
            let ghost old_procs = self.procs@;
            let ghost measure0 = bubble_measure(old_procs);
            proof {
                lemma_pop(old_procs);
            }
            let mut p = self.procs.pop().unwrap();
            let ghost pv0 = p.view();
            proof {
                assert(p == old_procs.last());
                lemma_proc_step_ok(pv0, tok, data@);
                lemma_eof_step(pv0, tok, data@);
                Self::lemma_keeps_outer_prefix(iter, *self);
                Self::lemma_keeps_outer_trans(start, iter, *self);
                self.lemma_wf_after_pop(iter);
                assert(procs_view(self.procs@) =~= procs_view(old_procs).drop_last());
                assert(procs_view(old_procs).last() == pv0);
            }
            let status = p.process_token(tok, data);
            match status {
                Ok(ProcStatus::PopAndReprocessToken(e)) => {
                    let ghost mid = *self;
                    let r = self.emit(e, After::Eof(tok), Ghost(pv0));
                    proof {
                        if r is Ok {
                            Self::lemma_keeps_outer_trans(start, mid, *self);
                        }
                    }
                    match r {
                        Ok(Some(ev)) => return Ok(ev),
                        Ok(None) => {},
                        Err(e) => return Err(e),
                    }
                    proof {
                        assert(bubble_measure(self.procs@) < measure0);
                        fuel = (fuel - 1) as nat;
                    }
                },
                Err(e) => return Err(e),
                _ => {
                    proof {
                        assert(false);
                    }
                    return Ok(StackEvent::Done);
                },
            }
        }
    }

    proof fn lemma_wf_after_pop(self, before: Self)
        requires
            before.wf(),
            before.procs@.len() > before.own_start(),
            self.procs@ == before.procs@.drop_last(),
            self.file_starts == before.file_starts,
            self.top == before.top,
            self.pending is Nothing,
        ensures
            self.wf(),
    {
        lemma_pop(before.procs@);
        let fs = self.file_starts@;
        assert forall|k: int| 0 <= k < fs.len() implies fs[k] <= self.procs@.len() by {
            assert(fs[k] <= fs[fs.len() - 1]);
        }
        assert forall|k: int| 0 <= k < fs.len() && #[trigger] fs[k] > 0 implies super::block_of(self.procs@[fs[k] - 1].view()) is Some by {
            assert(fs[k] <= fs[fs.len() - 1]);
            assert(super::block_of(before.procs@[fs[k] - 1].view()) is Some);
            assert(self.procs@[fs[k] - 1] == before.procs@[fs[k] - 1]);
        }
    }

    /// Takes a token of the current file; see [StackEvent] for what can come of it.
    pub fn feed_token(&mut self, tok: TTToken, data: &str) -> (r: Result<StackEvent, TTError>)
        requires
            old(self).wf(),
            old(self).pending is Nothing,
            old(self).procs@.len() >= old(self).own_start(),
            token_fits(tok, data@),
        ensures
            r is Ok ==> final(self).wf(),
            r is Ok ==> old(self).keeps_outer(*final(self)),
            r matches Ok(ev) ==> (ev is Evaluate <==> final(self).pending is Evaluation),
            r matches Ok(ev) ==> (ev is Build <==> final(self).pending is Building),
            r matches Ok(ev) ==> !(ev is NewSource),
            r matches Ok(ev) ==> (final(self).pending matches Pending::Building(After::Reprocess(t)) ==> t == tok),
            r matches Ok(ev) ==> (final(self).pending matches Pending::Building(After::Eof(t)) ==> t == tok),
            tok is EOF && r == Ok::<StackEvent, TTError>(StackEvent::Done) ==> final(self).procs@.len() == final(self).own_start(),
            tok is EOF && r is Ok ==> final(self).pending is Nothing || final(self).pending matches Pending::Building(After::Eof(_)),
            !(tok is EOF) && r is Ok ==> !(final(self).pending matches Pending::Building(After::Eof(_))),
            event_result(r) == feed_spec(old(self).view(), tok, data@).1,
            final(self).view() == feed_spec(old(self).view(), tok, data@).0,
    {
        proof {
            lemma_measure_of_view(self.procs@);
        }
        match tok {
            TTToken::EOF(_) => self.flush_eof(tok, data),
            _ => self.bubble(tok, data),
        }
    }

    /// Code at `ctx` emitted a source file: the processor below the code is told, and may refuse it.
    fn source_inside(&mut self, ctx: ParseContext, Ghost(code): Ghost<ProcessorView>) -> (r: Result<(), TTError>)
        requires
            old(self).wf(),
            old(self).pending is Nothing,
            old(self).procs@.len() >= old(self).own_start(),
            code is Code,
            old(self).procs@.len() > 0 ==> parent_ok(old(self).procs@.last().view(), code),
        ensures
            r is Ok ==> final(self).wf(),
            r is Ok ==> old(self).keeps_outer(*final(self)),
            r is Ok ==> final(self).pending is Nothing,
            r is Ok ==> final(self).procs@.len() == 0 || super::block_of(final(self).procs@.last().view()) is Some,
            r is Ok ==> final(self).procs@.len() == old(self).procs@.len(),
            r == source_inside_spec(old(self).view(), ctx).1,
            final(self).view() == source_inside_spec(old(self).view(), ctx).0,
    {
        if self.procs.len() == 0 {
            self.top.on_emitted_source_inside();
            Ok(())
        } else {
            let ghost old_procs = self.procs@;
            let ghost iter = *self;
            proof {
                lemma_pop(old_procs);
            }
            let mut q = self.procs.pop().unwrap();
            proof {
                assert(q == old_procs.last());
            }
            let r = q.on_emitted_source_inside(ctx);
            proof {
                super::lemma_wf_view(q);
                lemma_source_inside_ok(old_procs.last().view(), ctx, code);
                assert(procs_view(old_procs).last() == old_procs.last().view());
            }
            self.put_back(q, Ghost(old_procs));
            proof {
                Self::lemma_keeps_outer_prefix(iter, *self);
            }
            r
        }
    }

    /// Takes what the code on top evaluated to: a source file ends the code (and is handed back if
    /// the processor below takes it in); any other object is kept by the code.
    pub fn resume_evaluation(&mut self, res: EvalResult) -> (r: Result<StackEvent, TTError>)
        requires
            old(self).wf(),
            old(self).pending is Evaluation,
        ensures
            r is Ok ==> final(self).wf(),
            r is Ok ==> old(self).keeps_outer(*final(self)),
            r is Ok ==> final(self).pending is Nothing,
            r matches Ok(ev) ==> ev is Done || ev is NewSource,
            r matches Ok(StackEvent::NewSource(..)) ==> final(self).procs@.len() == 0 || super::block_of(final(self).procs@.last().view()) is Some,
            r matches Ok(StackEvent::NewSource(..)) ==> final(self).procs@.len() >= final(self).own_start(),
            event_result(r) == resume_evaluation_spec(old(self).view(), res.view()).1,
            final(self).view() == resume_evaluation_spec(old(self).view(), res.view()).0,
    {
        let ghost old_procs = self.procs@;
        let ghost iter = *self;
        proof {
            lemma_pop(old_procs);
        }
        let p = self.procs.pop().unwrap();
        self.pending = Pending::Nothing;
        proof {
            assert(p == old_procs.last());
            self.lemma_wf_after_pop(iter);
            Self::lemma_keeps_outer_prefix(iter, *self);
            assert(procs_view(self.procs@) =~= procs_view(old_procs).drop_last());
            assert(procs_view(old_procs).last() == p.view());
        }
        match p {
            Processor::Code(c) => {
                let mut c = c;
                let ghost cv0 = c.view();
                let status = c.on_evaluated(res);
                match status {
                    ProcStatus::Continue => {
                        self.put_back(Processor::Code(c), Ghost(old_procs));
                        proof {
                            Self::lemma_keeps_outer_prefix(iter, *self);
                        }
                        Ok(StackEvent::Done)
                    },
                    ProcStatus::PopAndNewSource(ctx, src) => {
                        let ghost mid = *self;
                        let r = self.source_inside(ctx, Ghost(ProcessorView::Code(cv0)));
                        match r {
                            Ok(()) => {
                                proof {
                                    Self::lemma_keeps_outer_trans(iter, mid, *self);
                                }
                                Ok(StackEvent::NewSource(ctx.full_span(), src))
                            },
                            Err(e) => Err(e),
                        }
                    },
                    _ => {
                        proof {
                            assert(false);
                        }
                        Ok(StackEvent::Done)
                    },
                }
            },
            _ => {
                proof {
                    assert(false);
                }
                Ok(StackEvent::Done)
            },
        }
    }

    /// Takes what the object of the code on top built: the code ends and hands it on, and the token
    /// that was being taken, if any, goes on being taken.
    pub fn resume_build(&mut self, outcome: BuilderOutcome, data: &str) -> (r: Result<StackEvent, TTError>)
        requires
            old(self).wf(),
            old(self).pending is Building,
            old(self).pending matches Pending::Building(After::Reprocess(t)) ==> token_fits(t, data@) && !(t is EOF),
            old(self).pending matches Pending::Building(After::Eof(t)) ==> token_fits(t, data@) && t is EOF,
        ensures
            r is Ok ==> final(self).wf(),
            r is Ok ==> old(self).keeps_outer(*final(self)),
            r matches Ok(ev) ==> (ev is Evaluate <==> final(self).pending is Evaluation),
            r matches Ok(ev) ==> (ev is Build <==> final(self).pending is Building),
            r matches Ok(ev) ==> !(ev is NewSource),
            r matches Ok(ev) ==> (final(self).pending matches Pending::Building(After::Reprocess(t)) ==> !(t is EOF) && token_fits(t, data@)),
            r matches Ok(ev) ==> (final(self).pending matches Pending::Building(After::Eof(t)) ==> t is EOF && token_fits(t, data@)),
            event_result(r) == resume_build_spec(old(self).view(), outcome.view(), data@).1,
            final(self).view() == resume_build_spec(old(self).view(), outcome.view(), data@).0,
            old(self).pending matches Pending::Building(After::Eof(_)) && r is Ok ==> final(self).pending is Nothing
                || final(self).pending matches Pending::Building(After::Eof(_)),
            old(self).pending matches Pending::Building(After::Eof(_)) && r == Ok::<StackEvent, TTError>(StackEvent::Done)
                ==> final(self).procs@.len() == final(self).own_start(),
            !(old(self).pending matches Pending::Building(After::Eof(_))) && r is Ok
                ==> !(final(self).pending matches Pending::Building(After::Eof(_))),
    {
        let after = match self.pending {
            Pending::Building(a) => a,
            _ => After::Return,
        };
        let ghost old_procs = self.procs@;
        let ghost iter = *self;
        proof {
            lemma_pop(old_procs);
        }
        let p = self.procs.pop().unwrap();
        self.pending = Pending::Nothing;
        proof {
            assert(p == old_procs.last());
            self.lemma_wf_after_pop(iter);
            Self::lemma_keeps_outer_prefix(iter, *self);
            assert(procs_view(self.procs@) =~= procs_view(old_procs).drop_last());
            assert(procs_view(old_procs).last() == p.view());
            lemma_measure_of_view(old_procs);
        }
        let status = match &p {
            Processor::Code(c) => {
                proof {
                    lemma_code_built(c.view(), outcome.view());
                }
                c.on_built(outcome)
            },
            _ => {
                proof {
                    assert(false);
                }
                ProcStatus::Continue
            },
        };
        let emitted = match status {
            ProcStatus::Pop(e) => e,
            _ => {
                proof {
                    assert(false);
                }
                None
            },
        };
        let ghost mid = *self;
        let ghost pv = p.view();
        match after {
            After::Return => {
                let r = self.emit(emitted, After::Return, Ghost(pv));
                proof {
                    if r is Ok {
                        Self::lemma_keeps_outer_trans(iter, mid, *self);
                    }
                }
                match r {
                    Ok(Some(ev)) => Ok(ev),
                    Ok(None) => Ok(StackEvent::Done),
                    Err(e) => Err(e),
                }
            },
            After::Reprocess(tok) => {
                let r = self.emit(emitted, After::Reprocess(tok), Ghost(pv));
                proof {
                    if r is Ok {
                        Self::lemma_keeps_outer_trans(iter, mid, *self);
                    }
                }
                match r {
                    Ok(Some(ev)) => return Ok(ev),
                    Ok(None) => {},
                    Err(e) => return Err(e),
                }
                let own_start = self.own_start_exec();
                if self.procs.len() == own_start {
                    match tok {
                        TTToken::ScopeClose(span) => return Err(TTError::Syntax(TTSyntaxError::BlockScopeCloseOutsideScope(span))),
                        TTToken::RawScopeClose(span, _) => return Err(TTError::Syntax(TTSyntaxError::RawScopeCloseOutsideRawScope(span))),
                        _ => {},
                    }
                }
                let ghost mid2 = *self;
                let r = self.bubble(tok, data);
                proof {
                    if r is Ok {
                        Self::lemma_keeps_outer_trans(iter, mid2, *self);
                    }
                }
                r
            },
            After::Eof(tok) => {
                let r = self.emit(emitted, After::Eof(tok), Ghost(pv));
                proof {
                    if r is Ok {
                        Self::lemma_keeps_outer_trans(iter, mid, *self);
                    }
                }
                match r {
                    Ok(Some(ev)) => return Ok(ev),
                    Ok(None) => {},
                    Err(e) => return Err(e),
                }
                let ghost mid2 = *self;
                let r = self.flush_eof(tok, data);
                proof {
                    if r is Ok {
                        Self::lemma_keeps_outer_trans(iter, mid2, *self);
                    }
                }
                r
            },
        }
    }

    /// A new file starts, emitted by code whose processor is gone: its processors will stand above
    /// the current last one, which must be in block mode (or be the top level).
    pub fn push_subfile(&mut self)
        requires
            old(self).wf(),
            old(self).pending is Nothing,
            old(self).procs@.len() == 0 || super::block_of(old(self).procs@.last().view()) is Some,
            old(self).procs@.len() >= old(self).own_start(),
        ensures
            final(self).wf(),
            final(self).pending is Nothing,
            final(self).procs == old(self).procs,
            final(self).top == old(self).top,
            final(self).file_starts@ == old(self).file_starts@.push(old(self).procs@.len() as usize),
            final(self).view() == push_subfile_spec(old(self).view()),
    {
        let n = self.procs.len();
        let ghost old_fs = self.file_starts@;
        self.file_starts.push(n);
        proof {
            let fs = self.file_starts@;
            assert(fs[0] == old_fs[0]);
            assert forall|i: int, j: int| 0 <= i <= j < fs.len() implies fs[i] <= fs[j] by {
                if j < old_fs.len() {
                    assert(fs[i] == old_fs[i] && fs[j] == old_fs[j]);
                } else if i < old_fs.len() {
                    assert(fs[i] == old_fs[i]);
                    assert(old_fs[i] <= old_fs[old_fs.len() - 1]);
                }
            }
            assert forall|k: int| 0 <= k < fs.len() implies fs[k] <= self.procs@.len() by {
                if k < old_fs.len() {
                    assert(fs[k] == old_fs[k]);
                }
            }
            assert forall|k: int| 0 <= k < fs.len() && #[trigger] fs[k] > 0 implies super::block_of(self.procs@[fs[k] - 1].view()) is Some by {
                if k < old_fs.len() {
                    assert(fs[k] == old_fs[k]);
                }
            }
        }
    }

    /// The current file has ended (its processors all ended); when code emitted it (at
    /// `emitted_by`), the processor below is told.
    pub fn pop_subfile(&mut self, emitted_by: Option<ParseSpan>)
        requires
            old(self).wf(),
            old(self).pending is Nothing,
            old(self).file_starts@.len() > 1,
            old(self).procs@.len() == old(self).own_start(),
        ensures
            final(self).wf(),
            final(self).pending is Nothing,
            final(self).file_starts@ == old(self).file_starts@.drop_last(),
            final(self).procs@.len() == old(self).procs@.len(),
            final(self).view() == pop_subfile_spec(old(self).view(), emitted_by),
    {
        let ghost old_fs = self.file_starts@;
        self.file_starts.pop();
        proof {
            let fs = self.file_starts@;
            assert forall|k: int| 0 <= k < fs.len() && #[trigger] fs[k] > 0 implies super::block_of(self.procs@[fs[k] - 1].view()) is Some by {
                assert(fs[k] == old_fs[k]);
            }
            assert(fs[fs.len() - 1] <= old_fs[old_fs.len() - 1]);
        }
        match emitted_by {
            Some(span) => {
                if self.procs.len() == 0 {
                    self.top.on_emitted_source_closed(span);
                } else {
                    let ghost old_procs = self.procs@;
                    proof {
                        lemma_pop(old_procs);
                    }
                    let mut q = self.procs.pop().unwrap();
                    proof {
                        assert(q == old_procs.last());
                    }
                    q.on_emitted_source_closed(span);
                    proof {
                        super::lemma_wf_view(q);
                        lemma_source_closed_ok(old_procs.last().view(), span);
                        assert(procs_view(old_procs).last() == old_procs.last().view());
                    }
                    self.put_back(q, Ghost(old_procs));
                }
            },
            None => {},
        }
    }

    /// The blocks and headers of the document, in order.
    pub fn into_items(self) -> (r: Vec<Block>)
        requires
            self.wf(),
        ensures
            crate::interpreter::doc::blocks_view(r@) == super::block::mode_items(self.top.view().mode),
    {
        self.top.into_items()
    }

    /// Puts the last processor back after it took a token or element.
    fn put_back(&mut self, p: Processor, Ghost(old_procs): Ghost<Seq<Processor>>)
        requires
            old(self).procs@ == old_procs.drop_last(),
            old_procs.len() > 0,
            procs_ok(old_procs),
            super::same_kind(old_procs.last().view(), p.view()),
            shape_ok(p.view()),
            view_wf(p.view()),
            super::block_of(old_procs.last().view()) is Some ==> super::block_of(p.view()) is Some,
            forall|k: int| 0 <= k < old(self).file_starts@.len() && #[trigger] old(self).file_starts@[k] > 0 ==> super::block_of(old_procs[old(self).file_starts@[k] - 1].view()) is Some,
            forall|k: int| 0 <= k < old(self).file_starts@.len() ==> old(self).file_starts@[k] <= old_procs.len(),
        ensures
            final(self).procs@ == old_procs.drop_last().push(p),
            procs_view(final(self).procs@) == procs_view(old_procs).drop_last().push(p.view()),
            final(self).file_starts == old(self).file_starts,
            final(self).top == old(self).top,
            final(self).pending == old(self).pending,
            procs_ok(final(self).procs@),
            forall|k: int| 0 <= k < final(self).file_starts@.len() && #[trigger] final(self).file_starts@[k] > 0 ==> super::block_of(final(self).procs@[final(self).file_starts@[k] - 1].view()) is Some,
            forall|k: int| 0 <= k < final(self).file_starts@.len() ==> final(self).file_starts@[k] <= final(self).procs@.len(),
    {
        proof {
            lemma_replace_last(old_procs, p);
        }
        self.procs.push(p);
        proof {
            assert(self.procs@ =~= old_procs.drop_last().push(p));
            self.lemma_boundary_after_replace(old_procs, p);
            assert(procs_view(self.procs@) =~= procs_view(old_procs).drop_last().push(p.view()));
        }
    }

    /// Keeping the outer processors is transitive.
    proof fn lemma_keeps_outer_trans(a: Self, b: Self, c: Self)
        requires
            a.keeps_outer(b),
            b.keeps_outer(c),
        ensures
            a.keeps_outer(c),
    {
        assert forall|i: int| 0 <= i < a.own_start() - 1 implies c.procs@[i] == a.procs@[i] by {
            assert(c.procs@[i] == b.procs@[i]);
        }
    }

    /// Changing, popping or pushing above the current file's processors keeps the outer ones.
    proof fn lemma_keeps_outer_prefix(a: Self, b: Self)
        requires
            b.file_starts@ == a.file_starts@,
            a.file_starts@.len() > 0,
            b.procs@.len() >= a.own_start(),
            a.procs@.len() >= a.own_start(),
            forall|i: int| 0 <= i < a.own_start() - 1 ==> b.procs@[i] == a.procs@[i],
            a.own_start() > 0 ==> b.top == a.top,
        ensures
            a.keeps_outer(b),
    {
    }

}

/// The measure of the processors is the measure of their values.
proof fn lemma_measure_of_view(procs: Seq<Processor>)
    ensures
        measure_of(procs_view(procs)) == bubble_measure(procs),
{
    if procs.len() > 0 {
        assert(procs_view(procs).last() == procs.last().view());
    }
}

proof fn lemma_bubble_measure_nonneg(procs: Seq<Processor>)
    ensures
        bubble_measure(procs) >= 1 || (procs.len() > 0 && top_fresh(procs)),
        bubble_measure(procs) >= 0,
{
}

/// Putting back the last processor, changed in a way that keeps its kind, shape and invariant, keeps
/// the stack's invariants.
proof fn lemma_replace_last(old_procs: Seq<Processor>, p: Processor)
    requires
        old_procs.len() > 0,
        procs_ok(old_procs),
        super::same_kind(old_procs.last().view(), p.view()),
        shape_ok(p.view()),
        view_wf(p.view()),
    ensures
        procs_ok(old_procs.drop_last().push(p)),
{
    let s = old_procs.drop_last().push(p);
    let n = old_procs.len();
    super::lemma_wf_view(p);
    assert forall|i: int| 0 <= i < s.len() implies #[trigger] proc_ok(s[i]) by {
        if i < n - 1 {
            assert(s[i] == old_procs[i]);
            assert(proc_ok(old_procs[i]));
        }
    }
    assert forall|i: int| 0 <= i < s.len() - 1 implies #[trigger] adjacent_ok(s, i) by {
        assert(s[i] == old_procs[i]);
        assert(adjacent_ok(old_procs, i));
        if i < n - 2 {
            assert(s[i + 1] == old_procs[i + 1]);
        } else {
            lemma_parent_ok_same_kind(old_procs[i].view(), old_procs[i + 1].view(), p.view());
        }
    }
}

/// Pushing a processor that may stand above the last keeps the stack's invariants.
proof fn lemma_push(old_procs: Seq<Processor>, c: Processor)
    requires
        procs_ok(old_procs),
        old_procs.len() > 0 ==> push_ok(old_procs.last().view(), c.view()),
        shape_ok(c.view()),
        view_wf(c.view()),
    ensures
        procs_ok(old_procs.push(c)),
{
    let s = old_procs.push(c);
    let n = old_procs.len();
    super::lemma_wf_view(c);
    assert forall|i: int| 0 <= i < s.len() implies #[trigger] proc_ok(s[i]) by {
        if i < n {
            assert(s[i] == old_procs[i]);
            assert(proc_ok(old_procs[i]));
        }
    }
    assert forall|i: int| 0 <= i < s.len() - 1 implies #[trigger] adjacent_ok(s, i) by {
        assert(s[i] == old_procs[i]);
        if i < n - 1 {
            assert(s[i + 1] == old_procs[i + 1]);
            assert(adjacent_ok(old_procs, i));
        }
    }
}

/// Popping keeps the stack's invariants.
proof fn lemma_pop(old_procs: Seq<Processor>)
    requires
        procs_ok(old_procs),
        old_procs.len() > 0,
    ensures
        procs_ok(old_procs.drop_last()),
        proc_ok(old_procs.last()),
        old_procs.len() > 1 ==> parent_ok(old_procs.drop_last().last().view(), old_procs.last().view()),
{
    let s = old_procs.drop_last();
    assert forall|i: int| 0 <= i < s.len() implies #[trigger] proc_ok(s[i]) by {
        assert(s[i] == old_procs[i]);
        assert(proc_ok(old_procs[i]));
    }
    assert forall|i: int| 0 <= i < s.len() - 1 implies #[trigger] adjacent_ok(s, i) by {
        assert(s[i] == old_procs[i] && s[i + 1] == old_procs[i + 1]);
        assert(adjacent_ok(old_procs, i));
    }
    assert(proc_ok(old_procs[old_procs.len() - 1]));
    if old_procs.len() > 1 {
        assert(adjacent_ok(old_procs, old_procs.len() - 2));
    }
}

/// What code built always ends the code, emitting what code can emit.
pub proof fn lemma_code_built(v: super::code::CodeView, out: super::code::BuilderOutcomeView)
    ensures
        code_built(v, out) matches StatusView::Pop(e) && child_emits(ProcessorView::Code(v), e),
{
}

/// Telling a processor that may hold code that the code emitted a source file keeps its kind, shape,
/// invariant and block mode; when it takes the source in, it is in block mode.
pub proof fn lemma_source_inside_ok(v: ProcessorView, ctx: ParseContext, code: ProcessorView)
    requires
        code is Code,
        parent_ok(v, code),
    ensures
        super::same_kind(v, super::proc_source_inside(v, ctx).0),
        shape_ok(v) ==> shape_ok(super::proc_source_inside(v, ctx).0),
        view_wf(v) ==> view_wf(super::proc_source_inside(v, ctx).0),
        super::block_of(v) is Some ==> super::block_of(super::proc_source_inside(v, ctx).0) is Some,
        super::proc_source_inside(v, ctx).1 is Ok ==> super::block_of(v) is Some,
{
}

/// Telling a processor that the source file emitted inside it ended keeps its kind, shape,
/// invariant and block mode.
pub proof fn lemma_source_closed_ok(v: ProcessorView, span: ParseSpan)
    ensures
        super::same_kind(v, super::proc_source_closed(v, span)),
        shape_ok(v) ==> shape_ok(super::proc_source_closed(v, span)),
        view_wf(v) ==> view_wf(super::proc_source_closed(v, span)),
        super::block_of(v) is Some ==> super::block_of(super::proc_source_closed(v, span)) is Some,
{
}

/// Whether a processor may stand above another depends only on the kind of the one above.
pub proof fn lemma_parent_ok_same_kind(p: ProcessorView, c: ProcessorView, c2: ProcessorView)
    requires
        parent_ok(p, c),
        super::same_kind(c, c2),
    ensures
        parent_ok(p, c2),
{
}

/// The top-level processor, taking an element, keeps its mode, never pops, and pushes only a
/// paragraph that has just started.
pub proof fn lemma_top_emitted_ok(b: BlockLevelView, e: Option<(ParseContext, DocElementView)>)
    ensures
        ({
            let (b2, r) = block_emitted(b, e);
            &&& b2.mode is TopLevel <==> b.mode is TopLevel
            &&& !(r matches Ok(StatusView::Pop(_)))
            &&& !(r matches Ok(StatusView::PopAndReprocessToken(_)))
            &&& !(r matches Ok(StatusView::Evaluate))
            &&& !(r matches Ok(StatusView::Build(_, _)))
            &&& !(r matches Ok(StatusView::PopAndNewSource(..)))
            &&& (r matches Ok(StatusView::PushProcessor(c)) ==> shape_ok(c) && view_wf(c) && fresh(c))
            &&& (e matches Some((_, DocElementView::Block(crate::interpreter::doc::BlockElemView::Para(_)))) ==> !(r matches Ok(StatusView::PushProcessor(_))))
        }),
{
}

} // verus!
