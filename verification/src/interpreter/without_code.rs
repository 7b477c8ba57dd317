//! A document without code never needs Python: reading it ends, or fails, without asking for code
//! to be evaluated or for a build.
use vstd::prelude::*;

use crate::interpreter::doc::DocElementView;
use crate::interpreter::driver::{
    ParserView, RecursionConfig, StepView, end_file_spec, lemma_run_stops, lemma_run_unfold, parser_start, run_fuel,
    run_spec, step_spec,
};
use crate::interpreter::state_machines::ambiguous_scope::{AmbiguousView, InlineAmbiguousView, ambiguous_step, inline_ambiguous_step};
use crate::interpreter::state_machines::block::{BlockLevelView, block_emitted, block_step};
use crate::interpreter::state_machines::inline::{InlineLevelView, inline_step};
use crate::interpreter::state_machines::stack_machine::{
    StacksView, after_emitted_spec, bubble_spec, emit_spec, enclosing_spec, feed_spec, flush_spec, measure_of,
};
use crate::interpreter::state_machines::{ProcessorView, StatusView, proc_emitted, proc_step};
use crate::lexer::{TTToken, TokenKind, lemma_lex_kinds, lemma_lexed_exists, lex_spec, lexed};
use crate::span::{ParseContext, positions_fit};

verus! {

/// A step of a processor that is not code, on a token that does not open code, never asks for
/// Python's work, pushes no code, and leaves the processor not code.
pub proof fn lemma_step_no_code(p: ProcessorView, tok: TTToken, data: Seq<char>)
    requires
        !(p is Code),
        !(tok is CodeOpen),
    ensures
        ({
            let (p2, st) = proc_step(p, tok, data);
            &&& !(p2 is Code)
            &&& !(st matches Ok(StatusView::Evaluate))
            &&& !(st matches Ok(StatusView::Build(..)))
            &&& !(st matches Ok(StatusView::PopAndNewSource(..)))
            &&& !(st matches Ok(StatusView::PushProcessor(ProcessorView::Code(_))))
        }),
{
    reveal(proc_step);
    match p {
        ProcessorView::Paragraph(i) => lemma_inline_step_no_code(i, tok, data),
        ProcessorView::AmbiguousScope(a) => lemma_ambiguous_step_no_code(a, tok, data),
        ProcessorView::InlineLevelAmbiguousScope(a) => lemma_inline_ambiguous_step_no_code(a, tok, data),
        _ => {},
    }
}

proof fn lemma_inline_step_no_code(v: InlineLevelView, tok: TTToken, data: Seq<char>)
    requires
        !(tok is CodeOpen),
    ensures
        ({
            let (p2, st) = inline_step(v, tok, data);
            &&& !(st matches Ok(StatusView::Evaluate))
            &&& !(st matches Ok(StatusView::Build(..)))
            &&& !(st matches Ok(StatusView::PopAndNewSource(..)))
            &&& !(st matches Ok(StatusView::PushProcessor(ProcessorView::Code(_))))
        }),
{
}

proof fn lemma_ambiguous_step_no_code(v: AmbiguousView, tok: TTToken, data: Seq<char>)
    requires
        !(tok is CodeOpen),
    ensures
        ({
            let (p2, st) = ambiguous_step(v, tok, data);
            &&& !(st matches Ok(StatusView::Evaluate))
            &&& !(st matches Ok(StatusView::Build(..)))
            &&& !(st matches Ok(StatusView::PopAndNewSource(..)))
            &&& !(st matches Ok(StatusView::PushProcessor(ProcessorView::Code(_))))
        }),
{
}

proof fn lemma_inline_ambiguous_step_no_code(v: InlineAmbiguousView, tok: TTToken, data: Seq<char>)
    requires
        !(tok is CodeOpen),
    ensures
        ({
            let (p2, st) = inline_ambiguous_step(v, tok, data);
            &&& !(st matches Ok(StatusView::Evaluate))
            &&& !(st matches Ok(StatusView::Build(..)))
            &&& !(st matches Ok(StatusView::PopAndNewSource(..)))
            &&& !(st matches Ok(StatusView::PushProcessor(ProcessorView::Code(_))))
        }),
{
}

/// The same for an element handed to a processor that is not code.
pub proof fn lemma_emitted_no_code(p: ProcessorView, e: Option<(ParseContext, DocElementView)>)
    requires
        !(p is Code),
    ensures
        ({
            let (p2, st) = proc_emitted(p, e);
            &&& !(p2 is Code)
            &&& !(st matches Ok(StatusView::Evaluate))
            &&& !(st matches Ok(StatusView::Build(..)))
            &&& !(st matches Ok(StatusView::PopAndNewSource(..)))
            &&& !(st matches Ok(StatusView::PushProcessor(ProcessorView::Code(_))))
        }),
{
    reveal(proc_emitted);
}


/// None of the processors is code.
pub open spec fn no_code(procs: Seq<ProcessorView>) -> bool {
    forall|i: int| 0 <= i < procs.len() ==> !(#[trigger] procs[i] is Code)
}

/// The stacks hold no code and wait for nothing.
pub open spec fn calm(v: StacksView) -> bool {
    no_code(v.procs) && v.pending is Nothing
}

/// A status that asks for no Python's work and pushes no code.
pub open spec fn status_calm(st: Result<StatusView, crate::interpreter::syntax::TTError>) -> bool {
    &&& !(st matches Ok(StatusView::Evaluate))
    &&& !(st matches Ok(StatusView::Build(..)))
    &&& !(st matches Ok(StatusView::PopAndNewSource(..)))
    &&& !(st matches Ok(StatusView::PushProcessor(ProcessorView::Code(_))))
}

proof fn lemma_block_step_no_code(b: BlockLevelView, tok: TTToken, data: Seq<char>)
    requires
        !(tok is CodeOpen),
    ensures
        status_calm(block_step(b, tok, data).1),
{
}

proof fn lemma_block_emitted_no_code(b: BlockLevelView, e: Option<(ParseContext, DocElementView)>)
    ensures
        status_calm(block_emitted(b, e).1),
{
}

proof fn lemma_after_emitted_calm(v: StacksView, st: Result<StatusView, crate::interpreter::syntax::TTError>, after: crate::interpreter::state_machines::stacks::After)
    requires
        calm(v),
        status_calm(st),
    ensures
        calm(after_emitted_spec(v, st, after).0),
        !(after_emitted_spec(v, st, after).1 matches Ok(Some(_))),
{
    let r = after_emitted_spec(v, st, after).0;
    assert forall|i: int| 0 <= i < r.procs.len() implies !(#[trigger] r.procs[i] is Code) by {
        if i < v.procs.len() {
            assert(r.procs[i] == v.procs[i]);
        }
    }
}

proof fn lemma_emit_calm(v: StacksView, e: Option<(ParseContext, DocElementView)>, after: crate::interpreter::state_machines::stacks::After)
    requires
        calm(v),
    ensures
        calm(emit_spec(v, e, after).0),
        !(emit_spec(v, e, after).1 matches Ok(Some(_))),
{
    if v.procs.len() == 0 {
        lemma_block_emitted_no_code(v.top, e);
        let r = emit_spec(v, e, after).0;
        assert forall|i: int| 0 <= i < r.procs.len() implies !(#[trigger] r.procs[i] is Code) by {}
    } else {
        let last = v.procs.last();
        assert(!(last is Code)) by {
            assert(last == v.procs[v.procs.len() - 1]);
        }
        lemma_emitted_no_code(last, e);
        let (p2, st) = proc_emitted(last, e);
        let v2 = StacksView { procs: v.procs.drop_last().push(p2), ..v };
        assert forall|i: int| 0 <= i < v2.procs.len() implies !(#[trigger] v2.procs[i] is Code) by {
            if i < v.procs.len() - 1 {
                assert(v2.procs[i] == v.procs[i]);
            }
        }
        lemma_after_emitted_calm(v2, st, after);
    }
}

proof fn lemma_enclosing_calm(v: StacksView, tok: TTToken, data: Seq<char>)
    requires
        calm(v),
        !(tok is CodeOpen),
    ensures
        calm(enclosing_spec(v, tok, data).0),
        enclosing_spec(v, tok, data).1 matches Ok(ev) ==> ev is Done,
{
    if v.procs.len() == 0 {
        lemma_block_step_no_code(v.top, tok, data);
        let r = enclosing_spec(v, tok, data).0;
        assert forall|i: int| 0 <= i < r.procs.len() implies !(#[trigger] r.procs[i] is Code) by {}
    } else {
        let last = v.procs.last();
        assert(!(last is Code)) by {
            assert(last == v.procs[v.procs.len() - 1]);
        }
        lemma_step_no_code(last, tok, data);
        let r = enclosing_spec(v, tok, data).0;
        assert forall|i: int| 0 <= i < r.procs.len() implies !(#[trigger] r.procs[i] is Code) by {
            if i < v.procs.len() - 1 {
                assert(r.procs[i] == v.procs[i]);
            }
        }
    }
}

proof fn lemma_bubble_calm(v: StacksView, tok: TTToken, data: Seq<char>, fuel: nat)
    requires
        calm(v),
        !(tok is CodeOpen),
    ensures
        calm(bubble_spec(v, tok, data, fuel).0),
        bubble_spec(v, tok, data, fuel).1 matches Ok(ev) ==> ev is Done,
    decreases fuel,
{
    if fuel == 0 {
    } else if v.procs.len() <= v.file_starts.last() as int {
        lemma_enclosing_calm(v, tok, data);
    } else {
        let last = v.procs.last();
        assert(!(last is Code)) by {
            assert(last == v.procs[v.procs.len() - 1]);
        }
        lemma_step_no_code(last, tok, data);
        let (p2, st) = proc_step(last, tok, data);
        let rest = StacksView { procs: v.procs.drop_last(), ..v };
        let put = StacksView { procs: v.procs.drop_last().push(p2), ..v };
        assert(calm(rest)) by {
            assert forall|i: int| 0 <= i < rest.procs.len() implies !(#[trigger] rest.procs[i] is Code) by {
                assert(rest.procs[i] == v.procs[i]);
            }
        }
        assert(calm(put)) by {
            assert forall|i: int| 0 <= i < put.procs.len() implies !(#[trigger] put.procs[i] is Code) by {
                if i < v.procs.len() - 1 {
                    assert(put.procs[i] == v.procs[i]);
                }
            }
        }
        match st {
            Ok(StatusView::PushProcessor(c)) => {
                let r = StacksView { procs: put.procs.push(c), ..put };
                assert forall|i: int| 0 <= i < r.procs.len() implies !(#[trigger] r.procs[i] is Code) by {
                    if i < put.procs.len() {
                        assert(r.procs[i] == put.procs[i]);
                    }
                }
            },
            Ok(StatusView::Pop(e)) => {
                lemma_emit_calm(rest, e, crate::interpreter::state_machines::stacks::After::Return);
            },
            Ok(StatusView::PopAndReprocessToken(e)) => {
                lemma_emit_calm(rest, e, crate::interpreter::state_machines::stacks::After::Reprocess(tok));
                let (v3, r) = emit_spec(rest, e, crate::interpreter::state_machines::stacks::After::Reprocess(tok));
                lemma_bubble_calm(v3, tok, data, (fuel - 1) as nat);
            },
            _ => {},
        }
    }
}

proof fn lemma_flush_calm(v: StacksView, tok: TTToken, data: Seq<char>, fuel: nat)
    requires
        calm(v),
        tok is EOF,
    ensures
        calm(flush_spec(v, tok, data, fuel).0),
        flush_spec(v, tok, data, fuel).1 matches Ok(ev) ==> ev is Done,
    decreases fuel,
{
    if fuel == 0 || v.procs.len() <= v.file_starts.last() as int {
    } else {
        let last = v.procs.last();
        assert(!(last is Code)) by {
            assert(last == v.procs[v.procs.len() - 1]);
        }
        let rest = StacksView { procs: v.procs.drop_last(), ..v };
        assert(calm(rest)) by {
            assert forall|i: int| 0 <= i < rest.procs.len() implies !(#[trigger] rest.procs[i] is Code) by {
                assert(rest.procs[i] == v.procs[i]);
            }
        }
        let (p2, st) = proc_step(last, tok, data);
        match st {
            Ok(StatusView::PopAndReprocessToken(e)) => {
                lemma_emit_calm(rest, e, crate::interpreter::state_machines::stacks::After::Eof(tok));
                let (v3, r) = emit_spec(rest, e, crate::interpreter::state_machines::stacks::After::Eof(tok));
                lemma_flush_calm(v3, tok, data, (fuel - 1) as nat);
            },
            _ => {},
        }
    }
}

/// Tokens with no code open, and an EOF at the end and nowhere else.
pub open spec fn tokens_without_code(t: Seq<TTToken>) -> bool {
    &&& t.len() > 0
    &&& t.last() is EOF
    &&& forall|j: int| 0 <= j < t.len() - 1 ==> !(#[trigger] t[j] is EOF)
    &&& forall|j: int| 0 <= j < t.len() ==> !(#[trigger] t[j] is CodeOpen)
}

/// Reading a document without code: the document is the only file; while it is open, a token of it
/// is next; the stacks hold no code and wait for nothing.
pub open spec fn reading_without_code(d: ParserView) -> bool {
    &&& calm(d.stacks)
    &&& d.files.len() == 1
    &&& tokens_without_code(d.files[0].tokens)
    &&& (d.file_stack.len() == 0 || (d.file_stack.len() == 1 && d.file_stack[0].1 == 0 && 0 <= d.files[0].pos
        < d.files[0].tokens.len()))
}

proof fn lemma_step_without_code(d: ParserView)
    requires
        reading_without_code(d),
        d.file_stack.len() > 0,
    ensures
        step_spec(d).1 is None ==> reading_without_code(step_spec(d).0),
        !(step_spec(d).1 matches Some(Ok(StepView::Evaluate(..)))),
        !(step_spec(d).1 matches Some(Ok(StepView::Build(..)))),
{
    let f = d.files[0];
    let tok = f.tokens[f.pos];
    assert(d.file_stack.last().1 == 0);
    assert(!(tok is CodeOpen));
    let fuel = (measure_of(d.stacks.procs) + 1) as nat;
    if tok is EOF {
        lemma_flush_calm(d.stacks, tok, f.contents, fuel);
    } else {
        lemma_bubble_calm(d.stacks, tok, f.contents, fuel);
        assert(f.pos != f.tokens.len() - 1) by {
            if f.pos == f.tokens.len() - 1 {
                assert(tok == f.tokens.last());
            }
        }
    }
    let (s2, r) = feed_spec(d.stacks, tok, f.contents);
    let d2 = ParserView { files: d.files.update(0, crate::interpreter::driver::FileView { pos: f.pos + 1, ..f }), stacks: s2, ..d };
    if tok is EOF {
        assert(end_file_spec(d2).file_stack.len() == 0);
    }
}

proof fn lemma_run_without_code(d: ParserView, fuel: nat)
    requires
        reading_without_code(d),
    ensures
        !(run_spec(d, fuel).1 matches Ok(StepView::Evaluate(..))),
        !(run_spec(d, fuel).1 matches Ok(StepView::Build(..))),
    decreases fuel,
{
    if fuel == 0 || d.file_stack.len() == 0 {
        lemma_run_stops(d, fuel);
    } else {
        lemma_run_unfold(d, fuel);
        lemma_step_without_code(d);
        if step_spec(d).1 is None {
            lemma_run_without_code(step_spec(d).0, (fuel - 1) as nat);
        }
    }
}

/// A document with no `[` needs no Python: reading it ends, or fails, without asking for code to be
/// evaluated or for a build.
pub proof fn lemma_no_brackets_no_python(name: Seq<char>, s: Seq<char>, config: RecursionConfig)
    requires
        positions_fit(s),
        forall|i: int| 0 <= i < s.len() ==> s[i] != '[',
    ensures
        ({
            let d0 = parser_start(name, s, config);
            let r = run_spec(d0, run_fuel(d0)).1;
            &&& !(r matches Ok(StepView::Evaluate(..)))
            &&& !(r matches Ok(StepView::Build(..)))
        }),
{
    lemma_lexed_exists(0, s);
    lemma_lex_kinds(s);
    crate::lexer::lemma_lex_covers_input(s);
    let t = lexed(0, s);
    let k = lex_spec(s);
    assert forall|j: int| 0 <= j < t.len() - 1 implies !(#[trigger] t[j] is EOF) by {
        assert(k[j].0 != TokenKind::EOF);
    }
    assert forall|j: int| 0 <= j < t.len() implies !(#[trigger] t[j] is CodeOpen) by {
        if j < k.len() {
            if k[j].0 is CodeOpen {
                assert(s[k[j].1] == '[');
            }
        }
    }
    let d0 = parser_start(name, s, config);
    assert(calm(d0.stacks)) by {
        assert forall|i: int| 0 <= i < d0.stacks.procs.len() implies !(#[trigger] d0.stacks.procs[i] is Code) by {}
    }
    lemma_run_without_code(d0, run_fuel(d0));
}

} // verus!
